use audio_splitter::naming::segment_file_name;

#[test]
fn first_segment_is_output_0() {
    assert_eq!(segment_file_name(0), "output_0.wav");
}

#[test]
fn names_carry_the_index_in_decimal() {
    assert_eq!(segment_file_name(1), "output_1.wav");
    assert_eq!(segment_file_name(9), "output_9.wav");
    assert_eq!(segment_file_name(10), "output_10.wav");
    assert_eq!(segment_file_name(99), "output_99.wav");
    assert_eq!(segment_file_name(100), "output_100.wav");
    assert_eq!(segment_file_name(1234567890), "output_1234567890.wav");
    assert_eq!(segment_file_name(u64::MAX), "output_18446744073709551615.wav");
}

#[test]
fn names_agree_with_the_standard_formatting() {
    let mut n: u64 = 0;
    while n < 5000 {
        assert_eq!(segment_file_name(n), format!("output_{}.wav", n));
        n += 7;
    }
}

#[test]
fn different_segments_have_different_names() {
    let indices = [0u64, 1, 9, 10, 11, 19, 90, 99, 100, 101, 110, 1000, u64::MAX - 1, u64::MAX];
    for (i, &a) in indices.iter().enumerate() {
        for &b in &indices[i + 1..] {
            assert_ne!(segment_file_name(a), segment_file_name(b));
        }
    }
}
