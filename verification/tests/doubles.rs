use daf_spk::double::{double_at_most, double_to_count, double_within, holds_nan};

fn samples() -> Vec<f64> {
    vec![
        0.0,
        -0.0,
        1.0,
        -1.0,
        0.5,
        -0.5,
        0.999999999,
        1.5,
        2.0,
        25.0,
        25.9,
        1024.0,
        4503599627370496.0,
        9007199254740992.0,
        9007199254740993.0,
        1.8446744073709552e19,
        1.8446744073709550e19,
        9.223372036854776e18,
        1e300,
        -1e300,
        5e-324,
        -5e-324,
        2.2250738585072014e-308,
        f64::MAX,
        f64::MIN,
        f64::INFINITY,
        f64::NEG_INFINITY,
        f64::NAN,
        -f64::NAN,
        -414864000.0,
        1577880000.0,
    ]
}

#[test]
fn double_to_count_is_the_cast() {
    for x in samples() {
        assert_eq!(double_to_count(x.to_bits()), x as u64, "{}", x);
    }
}

#[test]
fn double_to_count_exact_values() {
    assert_eq!(double_to_count(0f64.to_bits()), 0);
    assert_eq!(double_to_count(3f64.to_bits()), 3);
    assert_eq!(double_to_count(3.99f64.to_bits()), 3);
    assert_eq!(double_to_count((-3.0f64).to_bits()), 0);
    assert_eq!(double_to_count(f64::NAN.to_bits()), 0);
    assert_eq!(double_to_count(f64::INFINITY.to_bits()), u64::MAX);
    assert_eq!(double_to_count(1e30f64.to_bits()), u64::MAX);
    assert_eq!(double_to_count(9007199254740992f64.to_bits()), 9007199254740992);
    assert_eq!(double_to_count(9.223372036854776e18f64.to_bits()), 1u64 << 63);
}

#[test]
fn double_at_most_is_the_order_of_doubles() {
    for a in samples() {
        for b in samples() {
            assert_eq!(double_at_most(a.to_bits(), b.to_bits()), a <= b, "{} <= {}", a, b);
        }
    }
}

#[test]
fn double_within_is_a_closed_interval() {
    let (begin, end) = (-10.0f64, 20.0f64);
    for t in [-10.0f64, 20.0, 0.0, -0.0, 19.999] {
        assert!(double_within(begin.to_bits(), end.to_bits(), t.to_bits()), "{}", t);
    }
    for t in [-10.000001f64, 20.000001, f64::NAN, f64::INFINITY, f64::NEG_INFINITY] {
        assert!(!double_within(begin.to_bits(), end.to_bits(), t.to_bits()), "{}", t);
    }
    for t in samples() {
        for begin in samples() {
            for end in samples() {
                assert_eq!(
                    double_within(begin.to_bits(), end.to_bits(), t.to_bits()),
                    begin <= t && t <= end
                );
            }
        }
    }
}

#[test]
fn holds_nan_tells_what_is_no_number() {
    for x in samples() {
        assert_eq!(holds_nan(x.to_bits()), x.is_nan(), "{}", x);
    }
    assert!(holds_nan(0x7ff0_0000_0000_0001));
    assert!(holds_nan(0xfff8_0000_0000_0000));
    assert!(!holds_nan(0x7ff0_0000_0000_0000));
}
