use montecarlo::key::{bits_from_key, key_from_bits, INFINITY_BITS, SIGN_BIT};

fn key(value: f64) -> i64 {
    key_from_bits(value.to_bits()).unwrap()
}

fn value(key: i64) -> f64 {
    f64::from_bits(bits_from_key(key).unwrap())
}

fn samples() -> Vec<f64> {
    vec![
        f64::NEG_INFINITY,
        f64::MIN,
        -1.0e300,
        -123_456.789,
        -11_000.01,
        -11_000.0,
        -2.0,
        -1.0,
        -0.5,
        -f64::MIN_POSITIVE,
        -5e-324,
        0.0,
        5e-324,
        f64::MIN_POSITIVE,
        0.1,
        0.5,
        1.0,
        1.0 + f64::EPSILON,
        2.0,
        1_240.0,
        11_000.0,
        11_000.01,
        123_456.789,
        1.0e300,
        f64::MAX,
        f64::INFINITY,
    ]
}

#[test]
fn constants_are_the_sign_bit_and_infinity() {
    assert_eq!(SIGN_BIT, (-0.0f64).to_bits());
    assert_eq!(INFINITY_BITS, f64::INFINITY.to_bits());
}

#[test]
fn keys_of_chosen_numbers() {
    assert_eq!(key(0.0), 0);
    assert_eq!(key(-0.0), 0);
    assert_eq!(key(1.0), 0x3ff0_0000_0000_0000);
    assert_eq!(key(-1.0), -0x3ff0_0000_0000_0000);
    assert_eq!(key(5e-324), 1);
    assert_eq!(key(-5e-324), -1);
    assert_eq!(key(f64::INFINITY), 0x7ff0_0000_0000_0000);
    assert_eq!(key(f64::NEG_INFINITY), -0x7ff0_0000_0000_0000);
    assert_eq!(key(f64::MAX), 0x7fef_ffff_ffff_ffff);
}

#[test]
fn what_is_not_a_number_has_no_key() {
    assert_eq!(key_from_bits(f64::NAN.to_bits()), None);
    assert_eq!(key_from_bits((-f64::NAN).to_bits()), None);
    assert_eq!(key_from_bits(0x7ff0_0000_0000_0001), None);
    assert_eq!(key_from_bits(0xfff0_0000_0000_0001), None);
    assert_eq!(key_from_bits(u64::MAX), None);
    assert_eq!(key_from_bits(0x7fff_ffff_ffff_ffff), None);
    // the infinities are the last patterns with a key
    assert!(key_from_bits(0x7ff0_0000_0000_0000).is_some());
    assert!(key_from_bits(0xfff0_0000_0000_0000).is_some());
}

#[test]
fn keys_order_as_the_numbers_do() {
    let values: Vec<f64> = samples();
    for a in values.iter() {
        for b in values.iter() {
            assert_eq!(a < b, key(*a) < key(*b), "{} < {}", a, b);
            assert_eq!(a == b, key(*a) == key(*b), "{} == {}", a, b);
            assert_eq!(a >= b, key(*a) >= key(*b), "{} >= {}", a, b);
        }
    }
}

#[test]
fn keys_have_the_sign_of_the_numbers() {
    for a in samples() {
        assert_eq!(a < 0.0, key(a) < 0, "{}", a);
        assert_eq!(a == 0.0, key(a) == 0, "{}", a);
        assert_eq!(a > 0.0, key(a) > 0, "{}", a);
    }
    assert_eq!(key(-0.0), 0);
}

#[test]
fn a_number_comes_back_from_its_key_unchanged() {
    for a in samples() {
        assert_eq!(value(key(a)).to_bits(), a.to_bits(), "{}", a);
    }
}

#[test]
fn the_negative_zero_comes_back_as_zero() {
    let back: f64 = value(key(-0.0));
    assert_eq!(back.to_bits(), 0);
    assert_eq!(back, -0.0);
}

#[test]
fn a_key_comes_back_from_its_pattern_unchanged() {
    for k in [0i64, 1, -1, 42, -42, 0x3ff0_0000_0000_0000, 0x7ff0_0000_0000_0000, -0x7ff0_0000_0000_0000] {
        assert_eq!(key_from_bits(bits_from_key(k).unwrap()), Some(k));
    }
}

#[test]
fn keys_beyond_infinity_have_no_pattern() {
    assert_eq!(bits_from_key(0x7ff0_0000_0000_0001), None);
    assert_eq!(bits_from_key(-0x7ff0_0000_0000_0001), None);
    assert_eq!(bits_from_key(i64::MAX), None);
    assert_eq!(bits_from_key(i64::MIN), None);
    assert_eq!(bits_from_key(0x7ff0_0000_0000_0000), Some(f64::INFINITY.to_bits()));
    assert_eq!(bits_from_key(-0x7ff0_0000_0000_0000), Some(f64::NEG_INFINITY.to_bits()));
    assert_eq!(bits_from_key(-1), Some(0x8000_0000_0000_0001));
}
