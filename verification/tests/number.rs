use zxbasic::number::Number;

fn n(x: f64) -> Number {
    Number { bits: x.to_bits() }
}

fn f(x: Number) -> f64 {
    f64::from_bits(x.bits)
}

const SAMPLES: [f64; 25] = [
    0.0,
    -0.0,
    1.0,
    -1.0,
    0.5,
    -0.5,
    1.5,
    -1.5,
    2.999,
    -2.999,
    1e-300,
    -1e-300,
    5e-324,
    255.9,
    65535.0,
    65536.5,
    2147483647.5,
    -2147483648.5,
    4294967296.0,
    9.3e18,
    -9.3e18,
    1.9e19,
    1e300,
    f64::INFINITY,
    f64::NEG_INFINITY,
];

#[test]
fn conversions_agree_with_the_hardware() {
    for x in SAMPLES {
        assert_eq!(n(x).to_i64(), x as i64, "{}", x);
        assert_eq!(n(x).to_i32(), x as i32, "{}", x);
        assert_eq!(n(x).to_u64(), x as u64, "{}", x);
        assert_eq!(n(x).to_u32(), x as u32, "{}", x);
        assert_eq!(n(x).to_u16(), x as u16, "{}", x);
        assert_eq!(n(x).to_usize(), x as usize, "{}", x);
    }
    assert_eq!(n(f64::NAN).to_i64(), 0);
    assert_eq!(n(f64::NAN).to_u16(), 0);
}

#[test]
fn rounding_agrees_with_the_hardware() {
    for x in SAMPLES {
        assert_eq!(n(x).floor().bits, x.floor().to_bits(), "{}", x);
        assert_eq!(n(x).ceil().bits, x.ceil().to_bits(), "{}", x);
        assert_eq!(n(x).abs().bits, x.abs().to_bits(), "{}", x);
        assert_eq!(n(x).negate().bits, (-x).to_bits(), "{}", x);
    }
    assert!(n(f64::NAN).floor().nan());
}

#[test]
fn order_agrees_with_the_hardware() {
    for x in SAMPLES {
        for y in SAMPLES {
            assert_eq!(n(x).less(n(y)), x < y, "{} {}", x, y);
            assert_eq!(n(x).equals(n(y)), x == y, "{} {}", x, y);
        }
        assert!(!n(x).less(n(f64::NAN)) && !n(f64::NAN).less(n(x)));
        assert!(!n(x).equals(n(f64::NAN)));
        assert_eq!(n(x).is_within(120), (0.0..=120.0).contains(&x));
    }
}

#[test]
fn whole_numbers_round_to_nearest() {
    for v in [
        0u64,
        1,
        2,
        255,
        1 << 52,
        (1 << 53) - 1,
        1 << 53,
        (1 << 53) + 1,
        (1 << 53) + 3,
        (1 << 54) + 2,
        u64::MAX,
        u64::MAX - 1024,
        0x8000_0000_0000_0400,
    ] {
        assert_eq!(Number::from_u64(v).bits, (v as f64).to_bits(), "{}", v);
    }
}

#[test]
fn fractions_of_two_to_the_fifty_third() {
    for v in [0u64, 1, 12345, 1 << 52, (1 << 53) - 1] {
        let want = v as f64 / (1u64 << 53) as f64;
        assert_eq!(f(Number::from_fraction(v)), want);
    }
}

#[test]
fn negating_twice_changes_nothing() {
    for x in SAMPLES {
        assert_eq!(n(x).negate().negate().bits, x.to_bits());
    }
    assert_eq!(f(Number::from_bool(true)), 1.0);
    assert_eq!(f(Number::from_bool(false)), 0.0);
}
