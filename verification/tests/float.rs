use audio_splitter::decibel::Level;
use audio_splitter::energy::calculate_rms_db;
use audio_splitter::energy::is_silent;
use audio_splitter::energy::Amplitude;
use audio_splitter::energy::Normalizable;
use audio_splitter::energy::SilenceThreshold;
use audio_splitter::float::Float32;
use audio_splitter::machine::SplitConfig;
use audio_splitter::splitter::split_samples;

fn sample(x: f32) -> Float32 {
    Float32::from_bits(x.to_bits())
}

fn block(xs: &[f32]) -> Vec<Float32> {
    xs.iter().map(|&x| sample(x)).collect()
}

fn parts(numer: i32, shift: u8) -> Option<Amplitude> {
    Some(Amplitude { numer, shift, denom: 1, denom_shift: 149 })
}

#[test]
fn float_bits_round_trip() {
    for x in [0.0f32, -0.0, 1.0, -1.0, 0.3, f32::MAX, f32::MIN_POSITIVE, f32::INFINITY] {
        assert_eq!(f32::from_bits(sample(x).to_bits()).to_bits(), x.to_bits());
    }
    assert_eq!(sample(1.0).bits, 0x3f80_0000);
}

#[test]
fn float_samples_are_taken_as_they_are() {
    // 1.0 is 2^23 * 2^126 / 2^149.
    assert_eq!(sample(1.0).normalize(), parts(1 << 23, 126));
    assert_eq!(sample(-1.0).normalize(), parts(-(1 << 23), 126));
    assert_eq!(sample(0.5).normalize(), parts(1 << 23, 125));
    assert_eq!(sample(1.5).normalize(), parts(3 << 22, 126));
    assert_eq!(sample(-0.375).normalize(), parts(-(3 << 22), 124));
    assert_eq!(sample(0.0).normalize(), parts(0, 0));
    assert_eq!(sample(-0.0).normalize(), parts(0, 0));
    assert_eq!(sample(f32::MAX).normalize(), parts(0xff_ffff, 253));
    assert_eq!(sample(f32::MIN).normalize(), parts(-0xff_ffff, 253));
    assert_eq!(sample(f32::MIN_POSITIVE).normalize(), parts(1 << 23, 0));
}

#[test]
fn smallest_floats_have_no_leading_one() {
    assert_eq!(Float32::from_bits(1).normalize(), parts(1, 0));
    assert_eq!(Float32::from_bits(0x8000_0001).normalize(), parts(-1, 0));
    assert_eq!(Float32::from_bits(0x007f_ffff).normalize(), parts(0x7f_ffff, 0));
    assert_eq!(Float32::from_bits(0x0080_0000).normalize(), parts(0x80_0000, 0));
    assert_eq!(Float32::from_bits(0x0100_0000).normalize(), parts(0x80_0000, 1));
}

#[test]
fn what_is_no_number_has_no_amplitude() {
    assert_eq!(sample(f32::INFINITY).normalize(), None);
    assert_eq!(sample(f32::NEG_INFINITY).normalize(), None);
    assert_eq!(sample(f32::NAN).normalize(), None);
    assert_eq!(Float32::from_bits(0x7f80_0001).normalize(), None);
    assert_eq!(Float32::from_bits(0xffff_ffff).normalize(), None);
}

#[test]
fn float_levels() {
    assert_eq!(calculate_rms_db(&block(&[1.0; 32])), Level::Decibels(0));
    assert_eq!(calculate_rms_db(&block(&[-1.0; 32])), Level::Decibels(0));
    // 20 * log10(0.5) = -6.02
    assert_eq!(calculate_rms_db(&block(&[0.5; 32])), Level::Decibels(-7));
    assert_eq!(calculate_rms_db(&block(&[2.0, -2.0])), Level::Decibels(6));
    // 0.1 in binary lies a hair over one tenth, 0.01 a hair under one hundredth.
    assert_eq!(calculate_rms_db(&block(&[0.1; 8])), Level::Decibels(-20));
    assert_eq!(calculate_rms_db(&block(&[0.01; 8])), Level::Decibels(-41));
    assert_eq!(calculate_rms_db(&block(&[0.0, 0.0, -0.0])), Level::NegInfinity);
    assert_eq!(calculate_rms_db(&block(&[])), Level::Undefined);
    // 20 * log10(2^-149) = -897.1, 20 * log10(f32::MAX) = 770.6
    assert_eq!(calculate_rms_db(&[Float32::from_bits(1)]), Level::Decibels(-898));
    assert_eq!(calculate_rms_db(&block(&[f32::MAX])), Level::Decibels(770));
}

#[test]
fn float_block_with_no_number_is_no_silence() {
    for bad in [f32::NAN, f32::INFINITY, f32::NEG_INFINITY] {
        let b = block(&[0.0, 0.0, bad, 0.0]);
        assert_eq!(calculate_rms_db(&b), Level::Undefined);
        for db in [-40, 0, 1000, i32::MAX] {
            assert!(!is_silent(&b, &SilenceThreshold::from_decibels(db)));
        }
    }
}

#[test]
fn float_silence_at_minus_40_db() {
    let t = SilenceThreshold::default_level();
    assert!(is_silent(&block(&[0.0; 100]), &t));
    assert!(is_silent(&block(&[0.0099; 100]), &t));
    assert!(is_silent(&block(&[0.01; 100]), &t));
    assert!(!is_silent(&block(&[0.010000001; 100]), &t));
    assert!(!is_silent(&block(&[0.0101; 100]), &t));
    assert!(!is_silent(&block(&[]), &t));
    // One sample of a tenth among a hundred: the root of the mean is one hundredth.
    let mut b = vec![0.0f32; 100];
    b[3] = 0.1;
    assert!(!is_silent(&block(&b), &t));
    b[3] = 0.0999;
    assert!(is_silent(&block(&b), &t));
}

#[test]
fn float_levels_agree_with_the_logarithm() {
    let mut x: u32 = 7;
    for len in [1usize, 3, 64, 441] {
        for scale in [1.0f64, 0.3, 0.01, 1e-4, 1e-12, 40.0] {
            let mut b: Vec<f32> = Vec::new();
            for _ in 0..len {
                x = x.wrapping_mul(1664525).wrapping_add(1013904223);
                b.push((((x >> 8) as f64 / (1u32 << 24) as f64 - 0.5) * scale) as f32);
            }
            let mean: f64 = b.iter().map(|&v| (v as f64) * (v as f64)).sum::<f64>() / len as f64;
            let exact = 10.0 * mean.log10();
            if (exact - exact.round()).abs() > 1e-6 {
                assert_eq!(calculate_rms_db(&block(&b)), Level::Decibels(exact.floor() as i32));
                let t = SilenceThreshold::from_decibels(exact.ceil() as i32);
                assert!(is_silent(&block(&b), &t));
                let t = SilenceThreshold::from_decibels(exact.floor() as i32);
                assert!(!is_silent(&block(&b), &t));
            }
        }
    }
}

#[test]
fn float_stream_of_sound_silence_sound() {
    let mut stream: Vec<f32> = Vec::new();
    for i in 0..1000 {
        stream.push(if i % 2 == 0 { 0.4 } else { -0.4 });
    }
    for i in 0..1000 {
        stream.push(if i % 2 == 0 { 0.001 } else { -0.001 });
    }
    for i in 0..1000 {
        stream.push(if i % 2 == 0 { 0.3 } else { -0.3 });
    }
    let cfg = SplitConfig { min_silence_ms: 500, min_sound_ms: 500, chunk_ms: 20 };
    let out = split_samples(&block(&stream), 20, &cfg, &SilenceThreshold::default_level());
    assert_eq!(out.len(), 2);
    assert_eq!(out[0].samples.len(), 1520);
    assert_eq!(out[1].samples.len(), 1480);
    assert_eq!(out[0].index, 0);
    assert_eq!(out[1].index, 1);
    let back: Vec<f32> = out[1].samples.iter().map(|s| f32::from_bits(s.to_bits())).collect();
    assert_eq!(back[..], stream[1520..]);
}
