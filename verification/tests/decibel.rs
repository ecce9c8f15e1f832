use audio_splitter::bignat::BigNat;
use audio_splitter::decibel::level_of_ratio;
use audio_splitter::decibel::ratio_is_below_db;
use audio_splitter::decibel::tenth_power;
use audio_splitter::decibel::times_power_of_ten;
use audio_splitter::decibel::Level;

fn big(v: u128) -> BigNat {
    BigNat::from_u128(v)
}

fn below(p: u128, q: u128, db: i32) -> bool {
    ratio_is_below_db(&big(p), &big(q), db)
}

fn level(p: u128, q: u128) -> Level {
    level_of_ratio(&big(p), &big(q), 4)
}

fn same(a: &BigNat, b: &BigNat) -> bool {
    !a.less_than(b) && !b.less_than(a)
}

#[test]
fn big_numbers_compare_by_value() {
    let small = BigNat::from_u128(7);
    let large = BigNat::from_u128(u128::MAX);
    assert!(small.less_than(&large));
    assert!(!large.less_than(&small));
    assert!(!small.less_than(&small));
    assert!(BigNat::from_u128(0).less_than(&small));
    assert!(BigNat::from_u128(0xffff_ffff).less_than(&BigNat::from_u128(0x1_0000_0000)));
    assert!(BigNat::from_u128(1 << 64).less_than(&BigNat::from_u128((1 << 64) + 1)));
    assert!(BigNat::from_u128((1 << 96) - 1).less_than(&BigNat::from_u128(1 << 96)));
    assert!(!BigNat::from_u128(1 << 96).less_than(&BigNat::from_u128((1 << 96) - 1)));
}

#[test]
fn big_numbers_add_and_multiply() {
    let a = BigNat::from_u128(0xffff_ffff_ffff_ffff);
    assert!(same(&a.plus(&BigNat::from_u128(1)), &BigNat::from_u128(1 << 64)));
    assert!(same(&a.times_small(0), &BigNat::from_u128(0)));
    assert!(same(&a.times_small(1), &a));
    assert!(same(&a.times_small(0xffff_ffff), &BigNat::from_u128(0xffff_ffff_ffff_ffff * 0xffff_ffff)));
    assert!(same(&a.shifted(), &BigNat::from_u128(0xffff_ffff_ffff_ffff << 32)));
    assert!(same(
        &a.times(&big(0xffff_ffff_ffff_ffff)),
        &BigNat::from_u128(0xffff_ffff_ffff_ffff * 0xffff_ffff_ffff_ffff)
    ));
    assert!(same(&big(12345).times(&big(0)), &big(0)));
    assert!(same(&big(12345).times(&BigNat::zero()), &BigNat::zero()));
    assert!(same(&BigNat::zero().times(&big(12345)), &big(0)));
    assert!(BigNat::zero().is_zero());
    assert!(big(0).is_zero());
    assert!(!big(1 << 100).is_zero());
    assert!(same(&big(5).times_power_of_two(0), &big(5)));
    assert!(same(&big(5).times_power_of_two(31), &big(5 << 31)));
    assert!(same(&big(5).times_power_of_two(32), &big(5).shifted()));
    assert!(same(&big(5).times_power_of_two(100), &big(5 << 100)));
    // 2^510 = 2^126 * (2^96)^4
    let p96 = big(1 << 96);
    let p510 = big(1 << 126).times(&p96).times(&p96).times(&p96).times(&p96);
    assert!(same(&big(1).times_power_of_two(510), &p510));
}

#[test]
fn big_products_beyond_machine_words() {
    // (2^128 - 1)^2 = 2^256 - 2^129 + 1, so adding 2^129 - 1 twice over
    // the halves gives 2^256, which is 2^128 shifted by four limbs.
    let max = BigNat::from_u128(u128::MAX);
    let square = max.times(&big(u128::MAX));
    let back = square.plus(&max).plus(&max);
    let two_256 = BigNat::from_u128(1 << 127).times_small(2).shifted().shifted().shifted().shifted();
    assert!(same(&back.plus(&BigNat::from_u128(1)), &two_256));
    assert!(back.less_than(&two_256));
    assert!(square.less_than(&back));
    // Multiplication commutes and adds up.
    let x = BigNat::from_u128(0x1234_5678_9abc_def0_0fed_cba9_8765_4321);
    let y = 0xdead_beef_0000_0001_ffff_ffff_0000_0000u128;
    let z = 0x0000_0001_0000_0000_0000_0000_0000_0007u128;
    let xy = x.times(&big(y));
    let yx = big(y).times(&x);
    assert!(same(&xy, &yx));
    let sum = x.times(&big(y - z)).plus(&x.times(&big(z)));
    assert!(same(&xy, &sum));
}

#[test]
fn tenth_powers() {
    assert!(same(&tenth_power(&big(0)), &BigNat::from_u128(0)));
    assert!(same(&tenth_power(&big(1)), &BigNat::from_u128(1)));
    assert!(same(&tenth_power(&big(2)), &BigNat::from_u128(1024)));
    assert!(same(&tenth_power(&big(10)), &BigNat::from_u128(10_000_000_000)));
    assert!(same(&tenth_power(&big(6000)), &BigNat::from_u128(6000u128.pow(10))));
    // (2^64)^10 = 2^640 = 2^(32 * 20)
    let mut p = BigNat::from_u128(1);
    for _ in 0..20 {
        p = p.shifted();
    }
    assert!(same(&tenth_power(&big(1 << 64)), &p));
}

#[test]
fn powers_of_ten() {
    let one = BigNat::from_u128(1);
    assert!(same(&times_power_of_ten(&one, 0), &one));
    assert!(same(&times_power_of_ten(&BigNat::from_u128(3), 38), &BigNat::from_u128(3 * 10u128.pow(38))));
    assert!(same(&times_power_of_ten(&one, 40), &tenth_power(&big(10_000))));
    assert!(same(&times_power_of_ten(&one, 100), &tenth_power(&big(10_000_000_000))));
}

#[test]
fn ratios_against_whole_decibels() {
    // A ratio of one is 0 dB, of ten 10 dB, of a tenth -10 dB.
    assert!(!below(1, 1, 0));
    assert!(below(1, 1, 1));
    assert!(!below(10, 1, 10));
    assert!(below(10, 1, 11));
    assert!(!below(1, 10, -10));
    assert!(below(1, 10, -9));
    // A ratio of two is 3.0103 dB.
    assert!(!below(2, 1, 3));
    assert!(below(2, 1, 4));
    assert!(!below(1, 2, -4));
    assert!(below(1, 2, -3));
    // 10^0.3 = 1.99526: a ratio just over it reaches 3 dB, one just under does not.
    assert!(!below(199527, 100000, 3));
    assert!(below(199526, 100000, 3));
}

#[test]
fn ratios_at_the_ends_of_the_range() {
    assert!(!below(1, u128::MAX, -386));
    assert!(below(1, u128::MAX, -385));
    assert!(!below(u128::MAX, 1, 385));
    assert!(below(u128::MAX, 1, 386));
    assert!(!below(1, u128::MAX, i32::MIN));
    assert!(below(0, u128::MAX, i32::MIN));
    assert!(below(u128::MAX, 1, i32::MAX));
    assert!(!below(u128::MAX, 0, i32::MAX));
    assert!(!below(0, 0, 0));
    assert!(!below(0, 0, 500));
    assert!(!below(0, 0, -500));
}

#[test]
fn levels_of_ratios() {
    assert_eq!(level(1, 1), Level::Decibels(0));
    assert_eq!(level(2, 1), Level::Decibels(3));
    assert_eq!(level(1, 2), Level::Decibels(-4));
    assert_eq!(level(9, 10), Level::Decibels(-1));
    assert_eq!(level(1000, 1), Level::Decibels(30));
    assert_eq!(level(999, 1), Level::Decibels(29));
    assert_eq!(level(1, 1000), Level::Decibels(-30));
    assert_eq!(level(1, 1001), Level::Decibels(-31));
    assert_eq!(level(1, u128::MAX), Level::Decibels(-386));
    assert_eq!(level(u128::MAX, 1), Level::Decibels(385));
    assert_eq!(level(0, 5), Level::NegInfinity);
    assert_eq!(level(5, 0), Level::Undefined);
    assert_eq!(level(0, 0), Level::Undefined);
}

#[test]
fn levels_agree_with_the_logarithm() {
    let mut p: u128 = 1;
    while p < 1 << 100 {
        let mut q: u128 = 3;
        while q < 1 << 100 {
            let exact = 10.0 * (p as f64 / q as f64).log10();
            if (exact - exact.round()).abs() > 1e-6 {
                assert_eq!(level(p, q), Level::Decibels(exact.floor() as i32));
            }
            q = q * 1021 + 17;
        }
        p = p * 509 + 11;
    }
}
