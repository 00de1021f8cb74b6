use zxbasic::calculator::{Calculator, Function, Operation};
use zxbasic::fp_format;
use zxbasic::number::Number;

struct Host;

fn f(n: Number) -> f64 {
    f64::from_bits(n.bits)
}

fn n(x: f64) -> Number {
    Number { bits: x.to_bits() }
}

impl Calculator for Host {
    fn operate(&self, op: Operation, a: Number, b: Number) -> Number {
        let (a, b) = (f(a), f(b));
        n(match op {
            Operation::Add => a + b,
            Operation::Subtract => a - b,
            Operation::Multiply => a * b,
            Operation::Divide => a / b,
            Operation::Power => a.powf(b),
        })
    }

    fn apply(&self, function: Function, x: Number) -> Number {
        let x = f(x);
        n(match function {
            Function::Sine => x.sin(),
            Function::Cosine => x.cos(),
            Function::Tangent => x.tan(),
            Function::ArcSine => x.asin(),
            Function::ArcCosine => x.acos(),
            Function::ArcTangent => x.atan(),
            Function::NaturalLog => x.ln(),
            Function::Exponential => x.exp(),
            Function::SquareRoot => x.sqrt(),
            Function::DecimalLog => x.log10(),
            Function::Round => x.round(),
        })
    }

    fn power_of_ten(&self, k: i32) -> Number {
        n(10f64.powi(k))
    }

    fn literal(&self, text: &str) -> Number {
        n(text.parse().unwrap_or(f64::NAN))
    }

    fn places(&self, x: Number, count: usize) -> String {
        format!("{:.*}", count, f(x))
    }
}

fn check(x: f64, want: &str) {
    let got = fp_format::format(n(x), &Host);
    assert_eq!(got, want, "format({}) = {:?}, want {:?}", x, got, want);
}

#[test]
fn integers() {
    check(0.0, "0");
    check(-0.0, "0");
    check(1.0, "1");
    check(-1.0, "-1");
    check(7.0, "7");
    check(42.0, "42");
    check(1000.0, "1000");
    check(-99999.0, "-99999");
}

#[test]
fn simple_fractions() {
    check(0.5, "0.5");
    check(-0.5, "-0.5");
    check(1.5, "1.5");
    check(3.14, "3.14");
}

#[test]
fn one_third() {
    // 8 significant digits.
    check(1.0 / 3.0, "0.33333333");
}

#[test]
fn small_uses_e_notation() {
    // Below 1e-4 switches to E.
    check(1e-5, "1E-5");
    check(0.00001, "1E-5");
    check(1.5e-6, "1.5E-6");
}

#[test]
fn large_uses_e_notation() {
    // 1e8 and above switches to E.
    check(1e8, "1E8");
    check(1.5e12, "1.5E12");
    check(-2e30, "-2E30");
}

#[test]
fn boundary_just_below_e() {
    // 1e-4 stays fixed; 9.9999e7 stays fixed.
    check(0.0001, "0.0001");
    check(99_999_999.0, "99999999");
}

#[test]
fn what_is_not_finite() {
    check(f64::NAN, "NaN");
    check(f64::INFINITY, "Inf");
    check(f64::NEG_INFINITY, "-Inf");
}

#[test]
fn sign_comes_before_the_digits() {
    for x in [7.0, 0.1, 0.5, 1.0 / 3.0, 12345.678, 1e-7, 2.5e10, 1e300, f64::INFINITY] {
        let text = fp_format::format(n(x), &Host);
        assert_eq!(fp_format::format(n(-x), &Host), format!("-{}", text));
        assert_eq!(text.as_bytes()[0].is_ascii_digit(), x.is_finite());
    }
    check(-0.1, "-0.1");
}

#[test]
fn trailing_zeros_and_points_go() {
    assert_eq!(fp_format::trim_fp("1.500"), "1.5");
    assert_eq!(fp_format::trim_fp("2.000"), "2");
    assert_eq!(fp_format::trim_fp("100"), "100");
    assert_eq!(fp_format::trim_fp(".0"), "0");
    assert_eq!(fp_format::trim_fp("-.0"), "0");
}

#[test]
fn rounding_to_significant_digits() {
    let r = |x: f64| f(fp_format::round_to_significant(n(x), &Host));
    assert_eq!(r(0.0), 0.0);
    assert_eq!(r(123.456789012), 123.45679);
    assert_eq!(fp_format::format_fixed(n(2.5), &Host), "2.5");
    assert_eq!(fp_format::format_scientific(n(2.5e10), &Host), "2.5E10");
}
