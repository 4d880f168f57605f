use datafusion::fp::{
    f32_bits_max, f32_bits_min, f64_bits_eq, f64_bits_le, f64_bits_lt, f64_bits_max, f64_bits_min,
    i64_to_f64,
};

#[test]
fn bit_level_ordering_matches_the_hardware() {
    let pairs = [
        (1.0f64, 2.0f64),
        (-1.0, 1.0),
        (-2.5, -7.25),
        (0.0, -0.0),
        (f64::INFINITY, f64::NEG_INFINITY),
        (1.5e300, 1.5e-300),
    ];
    for (a, b) in pairs {
        let (ba, bb) = (a.to_bits(), b.to_bits());
        assert_eq!(a < b, f64_bits_lt(ba, bb), "lt on {a} {b}");
        assert_eq!(a <= b, f64_bits_le(ba, bb), "le on {a} {b}");
        assert_eq!(a == b, f64_bits_eq(ba, bb), "eq on {a} {b}");
        assert_eq!(a.min(b), f64::from_bits(f64_bits_min(ba, bb)), "min on {a} {b}");
        assert_eq!(a.max(b), f64::from_bits(f64_bits_max(ba, bb)), "max on {a} {b}");
    }
}

#[test]
fn nan_is_unordered_and_ignored_by_min_max() {
    let nan = f64::NAN.to_bits();
    let one = 1.0f64.to_bits();
    assert!(!f64_bits_lt(nan, one));
    assert!(!f64_bits_lt(one, nan));
    assert!(!f64_bits_eq(nan, nan));
    assert_eq!(one, f64_bits_min(nan, one));
    assert_eq!(one, f64_bits_min(one, nan));
    assert_eq!(one, f64_bits_max(nan, one));
}

#[test]
fn narrow_min_max_match_the_hardware() {
    let a = 3.5f32.to_bits();
    let b = (-1.25f32).to_bits();
    assert_eq!((-1.25f32).to_bits(), f32_bits_min(a, b));
    assert_eq!(3.5f32.to_bits(), f32_bits_max(a, b));
}

#[test]
fn integer_promotion_matches_the_hardware_cast() {
    let cases: [i64; 14] = [
        0,
        1,
        -1,
        3,
        -7,
        1024,
        (1 << 52) + 1,
        (1 << 53) - 1,
        (1 << 53) + 1,
        (1 << 53) + 3,
        9007199254740993,
        i64::MAX,
        i64::MIN,
        i64::MIN + 1,
    ];
    for v in cases {
        assert_eq!((v as f64).to_bits(), i64_to_f64(v), "promotion of {v}");
    }
}
