use std::collections::hash_map::DefaultHasher;
use std::hash::{Hash, Hasher};

use table::{Value, F64};

fn truncate(x: f64) -> u64 {
    F64(x.to_bits()).truncate()
}

fn std_hash<T: Hash>(x: &T) -> u64 {
    let mut state = DefaultHasher::new();
    x.hash(&mut state);
    state.finish()
}

#[test]
fn truncation_of_small_numbers_is_zero() {
    assert_eq!(truncate(0.0), 0);
    assert_eq!(truncate(-0.0), 0);
    assert_eq!(truncate(0.5), 0);
    assert_eq!(truncate(0.999_999_999), 0);
    assert_eq!(truncate(5e-324), 0);
    assert_eq!(truncate(f64::MIN_POSITIVE), 0);
}

#[test]
fn truncation_drops_the_fraction() {
    assert_eq!(truncate(1.0), 1);
    assert_eq!(truncate(1.9), 1);
    assert_eq!(truncate(3.999_999_999), 3);
    assert_eq!(truncate(123_456_789.987), 123_456_789);
    assert_eq!(truncate(4_503_599_627_370_497.5), 4_503_599_627_370_498);
}

#[test]
fn truncation_of_large_numbers_is_exact() {
    assert_eq!(truncate(4_503_599_627_370_496.0), 4_503_599_627_370_496);
    assert_eq!(truncate(9_007_199_254_740_994.0), 9_007_199_254_740_994);
    assert_eq!(truncate(1e19), 10_000_000_000_000_000_000);
    assert_eq!(truncate(9_223_372_036_854_775_808.0), 9_223_372_036_854_775_808);
    assert_eq!(truncate(18_446_744_073_709_549_568.0), 18_446_744_073_709_549_568);
}

#[test]
fn truncation_saturates() {
    assert_eq!(truncate(18_446_744_073_709_551_616.0), u64::MAX);
    assert_eq!(truncate(1e300), u64::MAX);
    assert_eq!(truncate(f64::MAX), u64::MAX);
    assert_eq!(truncate(f64::INFINITY), u64::MAX);
    assert_eq!(truncate(-1.0), 0);
    assert_eq!(truncate(-1.5e10), 0);
    assert_eq!(truncate(f64::NEG_INFINITY), 0);
    assert_eq!(truncate(f64::MIN), 0);
}

#[test]
fn truncation_of_nan_is_zero() {
    assert_eq!(truncate(f64::NAN), 0);
    assert_eq!(truncate(-f64::NAN), 0);
    assert_eq!(F64(0x7ff0_0000_0000_0001).truncate(), 0);
    assert_eq!(F64(0xfff8_0000_0000_0000).truncate(), 0);
}

#[test]
fn truncation_agrees_with_the_cast() {
    let samples: Vec<f64> = vec![
        0.0, -0.0, 0.25, 1.0, 1.5, 2.0, 2.5, 7.75, 255.9, 65_536.0, 1e9, 1e15, 1e16, 1e18, 1e19,
        1.8e19, 1.9e19, 1e20, 1e308, -1e-300, -3.0, 4_294_967_295.5, 9_007_199_254_740_993.0,
        f64::EPSILON, f64::NAN, f64::INFINITY, f64::NEG_INFINITY,
    ];
    for x in samples {
        assert_eq!(truncate(x), x as u64);
    }
    let mut bits: u64 = 0x3fe0_0000_0000_0001;
    let mut n = 0;
    while n < 5000 {
        let x = f64::from_bits(bits);
        assert_eq!(F64(bits).truncate(), x as u64);
        bits = bits.wrapping_add(0x0000_7a3c_91d5_10f7);
        n += 1;
    }
}

#[test]
fn a_nan_equals_itself() {
    let a = F64(f64::NAN.to_bits());
    let b = F64(f64::NAN.to_bits());
    assert_eq!(a, b);
    assert_eq!(Value::F64(a), Value::F64(b));
    assert_eq!(Value::float(f64::NAN.to_bits()), Value::float(f64::NAN.to_bits()));
}

#[test]
fn zero_and_negative_zero_differ() {
    assert_ne!(F64(0.0f64.to_bits()), F64((-0.0f64).to_bits()));
    assert_ne!(Value::float(0.0f64.to_bits()), Value::float((-0.0f64).to_bits()));
}

#[test]
fn numbers_with_the_same_truncation_share_a_hash() {
    let a = Value::float(1.0f64.to_bits());
    let b = Value::float(1.9f64.to_bits());
    assert_ne!(a, b);
    assert_eq!(a.hash_code(), 1);
    assert_eq!(b.hash_code(), 1);
    assert_eq!(std_hash(&a), std_hash(&b));
    assert_eq!(std_hash(&F64(1.0f64.to_bits())), std_hash(&F64(1.9f64.to_bits())));
    assert_eq!(std_hash(&F64(1.0f64.to_bits())), std_hash(&1u64));
}

#[test]
fn the_bit_pattern_is_read_and_written() {
    let mut x = F64(2.5f64.to_bits());
    assert_eq!(f64::from_bits(x.0), 2.5);
    x.0 = 7.0f64.to_bits();
    assert_eq!(f64::from_bits(x.0), 7.0);
    assert_eq!(x.truncate(), 7);
}
