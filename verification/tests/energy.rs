use audio_splitter::decibel::Level;
use audio_splitter::energy::calculate_rms_db;
use audio_splitter::energy::is_silent;
use audio_splitter::energy::Amplitude;
use audio_splitter::energy::EnergyMeter;
use audio_splitter::energy::Normalizable;
use audio_splitter::energy::SilenceThreshold;

fn over(numer: i32, denom: i32) -> Option<Amplitude> {
    Some(Amplitude { numer, shift: 0, denom, denom_shift: 0 })
}

#[test]
fn normalize_16_bit_divides_by_32767() {
    assert_eq!(32767i16.normalize(), over(32767, 32767));
    assert_eq!((-32768i16).normalize(), over(-32768, 32767));
    assert_eq!(0i16.normalize(), over(0, 32767));
}

#[test]
fn normalize_24_bit_divides_by_8388607() {
    assert_eq!(8388607i32.normalize(), over(8388607, 8388607));
    assert_eq!((-5i32).normalize(), over(-5, 8388607));
}

#[test]
fn default_threshold_is_minus_40_db() {
    assert_eq!(SilenceThreshold::default_level(), SilenceThreshold { db: -40 });
    assert_eq!(SilenceThreshold::from_decibels(-40), SilenceThreshold::default_level());
    assert_eq!(SilenceThreshold::from_decibels(-80).db, -80);
    assert_eq!(SilenceThreshold::from_decibels(3).db, 3);
}

#[test]
fn all_zero_block_is_silence() {
    let t = SilenceThreshold::default_level();
    assert!(is_silent(&[0i16; 320], &t));
    assert!(is_silent(&[0i32; 1], &t));
    assert!(is_silent(&[0i16; 8], &SilenceThreshold { db: i32::MIN }));
    assert!(is_silent(&[0i16; 8], &SilenceThreshold { db: -429 }));
    assert!(is_silent(&[0i16; 8], &SilenceThreshold { db: 0 }));
    assert!(is_silent(&[0i16; 8], &SilenceThreshold { db: i32::MAX }));
}

#[test]
fn empty_block_is_not_silence() {
    let none: [i16; 0] = [];
    assert!(!is_silent(&none, &SilenceThreshold::default_level()));
}

#[test]
fn uniform_16_bit_block_at_the_threshold() {
    let t = SilenceThreshold::default_level();
    // 327 / 32767 lies just under one hundredth, 328 / 32767 just over.
    assert!(is_silent(&[327i16; 100], &t));
    assert!(is_silent(&[-327i16; 100], &t));
    assert!(!is_silent(&[328i16; 100], &t));
    assert!(!is_silent(&[-328i16; 100], &t));
}

#[test]
fn uniform_24_bit_block_at_the_threshold() {
    let t = SilenceThreshold::default_level();
    assert!(is_silent(&[83886i32; 64], &t));
    assert!(!is_silent(&[83887i32; 64], &t));
}

#[test]
fn one_loud_sample_lifts_a_block_over_the_threshold() {
    let t = SilenceThreshold::default_level();
    let mut block = vec![0i16; 100];
    assert!(is_silent(&block, &t));
    // Mean square 3277^2 / 100 against 32767^2 / 10000.
    block[17] = 3277;
    assert!(!is_silent(&block, &t));
    block[17] = 3276;
    assert!(is_silent(&block, &t));
}

#[test]
fn full_scale_is_zero_decibels() {
    let zero_db = SilenceThreshold { db: 0 };
    assert!(!is_silent(&[32767i16; 16], &zero_db));
    assert!(!is_silent(&[i16::MIN; 16], &zero_db));
    assert!(is_silent(&[32766i16; 16], &zero_db));
    assert!(is_silent(&[32767i16; 16], &SilenceThreshold { db: 1 }));
    assert!(is_silent(&[i16::MIN; 16], &SilenceThreshold { db: 1 }));
}

#[test]
fn thresholds_between_the_tens() {
    // 10^(-45/20) * 32767 = 184.26, 10^(-3/20) * 32767 = 23197.3,
    // 10^(-1/20) * 32767 = 29203.6, 10^(-61/20) * 32767 = 29.2.
    for &(db, under, over) in
        &[(-45, 184i16, 185i16), (-3, 23197, 23198), (-1, 29203, 29204), (-61, 29, 30)]
    {
        let t = SilenceThreshold::from_decibels(db);
        assert!(is_silent(&[under; 50], &t));
        assert!(is_silent(&[-under; 50], &t));
        assert!(!is_silent(&[over; 50], &t));
        assert!(!is_silent(&[-over; 50], &t));
    }
}

#[test]
fn thresholds_beyond_every_level() {
    let loud = [i32::MIN; 4];
    let faint = {
        let mut b = vec![0i32; 100000];
        b[5] = 1;
        b
    };
    for db in [-430, -431, -1000, i32::MIN] {
        let t = SilenceThreshold::from_decibels(db);
        assert!(!is_silent(&loud, &t));
        assert!(!is_silent(&faint, &t));
        assert!(is_silent(&[0i32; 3], &t));
    }
    for db in [430, 431, 1000, i32::MAX] {
        let t = SilenceThreshold::from_decibels(db);
        assert!(is_silent(&loud, &t));
        assert!(is_silent(&faint, &t));
        let none: [i32; 0] = [];
        assert!(!is_silent(&none, &t));
    }
    assert!(!is_silent(&faint, &SilenceThreshold::from_decibels(-429)));
    assert!(is_silent(&loud, &SilenceThreshold::from_decibels(429)));
}

#[test]
fn meter_counts_and_taints() {
    let mut m = EnergyMeter::new();
    assert_eq!(m.samples(), 0);
    m.add(3i16.normalize());
    m.add((-4i16).normalize());
    assert_eq!(m.samples(), 2);
    // Mean square 12.5 over a full scale of 5: one half, -3.01 dB.
    let scale = Amplitude { numer: 0, shift: 0, denom: 5, denom_shift: 0 };
    assert_eq!(m.level(&scale), Level::Decibels(-4));
    assert!(m.is_below(&scale, &SilenceThreshold::from_decibels(-3)));
    assert!(!m.is_below(&scale, &SilenceThreshold::from_decibels(-4)));
    m.add(None);
    assert_eq!(m.samples(), 3);
    assert_eq!(m.level(&scale), Level::Undefined);
    assert!(!m.is_below(&scale, &SilenceThreshold::from_decibels(i32::MAX)));
}

#[test]
fn meter_verdict_uses_the_full_scale_given() {
    let mut m = EnergyMeter::new();
    m.add(over(10, 1000));
    let scale = |denom: i32| Amplitude { numer: 0, shift: 0, denom, denom_shift: 0 };
    // 10 / 1000 is one hundredth exactly; against 1001 it is less.
    assert!(!m.is_below(&scale(1000), &SilenceThreshold::default_level()));
    assert!(m.is_below(&scale(1001), &SilenceThreshold::default_level()));
    assert_eq!(m.level(&scale(1000)), Level::Decibels(-40));
    assert_eq!(m.level(&scale(1001)), Level::Decibels(-41));
    assert_eq!(m.level(&scale(10)), Level::Decibels(0));
    assert_eq!(m.level(&scale(1)), Level::Decibels(20));
}

#[test]
fn meter_takes_shifted_amplitudes() {
    // 3 * 2^4 over 3 * 2^5 is one half: -6.02 dB.
    let mut m = EnergyMeter::new();
    m.add(Some(Amplitude { numer: 3, shift: 4, denom: 3, denom_shift: 5 }));
    let scale = Amplitude { numer: 0, shift: 0, denom: 3, denom_shift: 5 };
    assert_eq!(m.level(&scale), Level::Decibels(-7));
    // The largest square over the smallest scale, and the other way round.
    let mut top = EnergyMeter::new();
    top.add(Some(Amplitude { numer: i32::MIN, shift: 255, denom: 1, denom_shift: 0 }));
    let least = Amplitude { numer: 0, shift: 0, denom: 1, denom_shift: 0 };
    // 20 * log10(2^286) = 1721.9
    assert_eq!(top.level(&least), Level::Decibels(1721));
    let mut bottom = EnergyMeter::new();
    bottom.add(Some(Amplitude { numer: 1, shift: 0, denom: 1, denom_shift: 0 }));
    let most = Amplitude { numer: 0, shift: 0, denom: i32::MAX, denom_shift: 255 };
    assert_eq!(bottom.level(&most), Level::Decibels(-1722));
}

#[test]
fn rms_level_in_whole_decibels() {
    assert_eq!(calculate_rms_db(&[32767i16; 64]), Level::Decibels(0));
    assert_eq!(calculate_rms_db(&[-32767i16; 64]), Level::Decibels(0));
    assert_eq!(calculate_rms_db(&[i16::MIN; 64]), Level::Decibels(0));
    assert_eq!(calculate_rms_db(&[32766i16; 64]), Level::Decibels(-1));
    // 20 * log10(328 / 32767) = -39.99, 20 * log10(327 / 32767) = -40.02.
    assert_eq!(calculate_rms_db(&[328i16; 64]), Level::Decibels(-40));
    assert_eq!(calculate_rms_db(&[327i16; 64]), Level::Decibels(-41));
    // 20 * log10(1 / 32767) = -90.31, 20 * log10(1 / 8388607) = -138.47.
    assert_eq!(calculate_rms_db(&[1i16]), Level::Decibels(-91));
    assert_eq!(calculate_rms_db(&[1i32, -1]), Level::Decibels(-139));
    // A sine at full scale has an RMS level of -3.01 dB.
    let sine: Vec<i16> = (0..4800)
        .map(|i| (32767.0 * (2.0 * std::f64::consts::PI * i as f64 / 48.0).sin()).round() as i16)
        .collect();
    assert_eq!(calculate_rms_db(&sine), Level::Decibels(-4));
    // A container holds more than 24 bits: 2^31 / 8388607 is 48.16 dB.
    assert_eq!(calculate_rms_db(&[i32::MIN; 3]), Level::Decibels(48));
}

#[test]
fn rms_level_of_zeros_and_of_nothing() {
    assert_eq!(calculate_rms_db(&[0i16; 320]), Level::NegInfinity);
    assert_eq!(calculate_rms_db(&[0i32]), Level::NegInfinity);
    let none: [i16; 0] = [];
    assert_eq!(calculate_rms_db(&none), Level::Undefined);
    assert!(Level::NegInfinity.is_below(-40));
    assert!(Level::NegInfinity.is_below(i32::MIN));
    assert!(!Level::Undefined.is_below(-40));
    assert!(!Level::Undefined.is_below(i32::MAX));
    assert!(Level::Decibels(-41).is_below(-40));
    assert!(!Level::Decibels(-40).is_below(-40));
}

#[test]
fn rms_level_agrees_with_the_logarithm() {
    let mut a: i32 = 1;
    while a <= 32767 {
        let exact = 20.0 * (a as f64 / 32767.0).log10();
        if (exact - exact.round()).abs() > 1e-6 {
            let block = vec![a as i16; 37];
            assert_eq!(calculate_rms_db(&block), Level::Decibels(exact.floor() as i32));
            let t = SilenceThreshold::from_decibels(exact.ceil() as i32);
            assert!(is_silent(&block, &t));
            let t = SilenceThreshold::from_decibels(exact.floor() as i32);
            assert!(!is_silent(&block, &t));
        }
        a += 1 + a / 7;
    }
}

#[test]
fn classification_agrees_with_the_level() {
    let mut block: Vec<i16> = Vec::new();
    let mut x: u32 = 99;
    for _ in 0..500 {
        x = x.wrapping_mul(1664525).wrapping_add(1013904223);
        block.push((x >> 16) as i16 / 64);
    }
    let level = calculate_rms_db(&block);
    for db in -80..20 {
        assert_eq!(is_silent(&block, &SilenceThreshold::from_decibels(db)), level.is_below(db));
    }
}

#[test]
fn uniform_block_level_is_that_of_its_amplitude() {
    for &a in &[1i16, 2, 100, 327, 328, 1000, 16384, 32767, -32767, -1] {
        let one = calculate_rms_db(&[a]);
        for len in [2usize, 7, 480] {
            assert_eq!(calculate_rms_db(&vec![a; len]), one);
        }
        let exact = 20.0 * ((a as f64).abs() / 32767.0).log10();
        assert_eq!(one, Level::Decibels(exact.floor() as i32));
    }
}
