//! How numbers are printed.
//!
//! * Up to eight significant digits, without trailing zeros.
//! * From `0.0001` to below `100000000` in fixed notation, a whole number
//!   without a point; outside that range with an exponent, such as `1.5E12`.
//! * A `-` before a negative number, nothing before a positive one.
//! * Zero is `0`.

use vstd::prelude::*;

use crate::calculator;
use crate::calculator::{Arithmetic, Calculator, Function, Operation};
use crate::number;
use crate::number::Number;
use crate::text;

verus! {

/// The bits of the smallest number in fixed notation, a ten-thousandth.
pub const FIXED_FROM: u64 = 0x3f1a_36e2_eb1c_432d;

/// The first number above those in fixed notation.
pub const FIXED_TO: u64 = 100_000_000;

/// How many significant digits are printed.
pub const DIGITS: i32 = 8;

/// `s` without any `c` at its back.
pub open spec fn without_trailing(s: Seq<char>, c: char) -> Seq<char>
    decreases s.len(),
{
    if s.len() > 0 && s.last() == c {
        without_trailing(s.drop_last(), c)
    } else {
        s
    }
}

/// A decimal without superfluous zeros and point.
pub open spec fn trimmed(s: Seq<char>) -> Seq<char> {
    if text::index_of(s, '.') is None {
        s
    } else {
        let t = without_trailing(without_trailing(s, '0'), '.');
        if t.len() == 0 || t == "-"@ {
            "0"@
        } else {
            t
        }
    }
}

/// The exponent of the leading digit of `x`.
pub open spec fn exponent(x: Number, ar: Arithmetic) -> int {
    (ar.apply)(Function::DecimalLog, x).floored().saturated(i32::MIN as int, i32::MAX as int)
}

/// `x` rounded to the digits that are printed.
pub open spec fn significant(x: Number, ar: Arithmetic) -> Number {
    if x.magnitude() == 0 {
        Number { bits: 0 }
    } else {
        let log = (ar.apply)(Function::DecimalLog, x.absolute());
        let d = log.ceiled().saturated(i32::MIN as int, i32::MAX as int);
        let factor = (ar.power_of_ten)(
            number::clamp(DIGITS - d, i32::MIN as int, i32::MAX as int),
        );
        let scaled = (ar.apply)(Function::Round, (ar.operate)(Operation::Multiply, x, factor));
        (ar.operate)(Operation::Divide, scaled, factor)
    }
}

/// How many places behind the point a number in fixed notation has before
/// superfluous zeros go.
pub open spec fn fixed_places(x: Number, ar: Arithmetic) -> nat {
    let e = exponent(x, ar);
    if e < DIGITS - 1 {
        (DIGITS - 1 - e) as nat
    } else {
        0
    }
}

/// The mantissa of a positive number with an exponent.
pub open spec fn mantissa(x: Number, ar: Arithmetic) -> Number {
    (ar.operate)(Operation::Divide, x, (ar.power_of_ten)(exponent(x, ar)))
}

/// The host's decimals of the rounded value that a positive number is printed
/// from.
pub open spec fn decimals(x: Number, ar: Arithmetic) -> Seq<char> {
    if out_of_range(x) {
        (ar.places)(significant(mantissa(x, ar), ar), (DIGITS - 1) as nat)
    } else {
        (ar.places)(significant(x, ar), fixed_places(x, ar))
    }
}

/// A positive number in fixed notation.
pub open spec fn fixed(x: Number, ar: Arithmetic) -> Seq<char> {
    trimmed((ar.places)(significant(x, ar), fixed_places(x, ar)))
}

/// A positive number with an exponent.
pub open spec fn scientific(x: Number, ar: Arithmetic) -> Seq<char> {
    let m = significant(mantissa(x, ar), ar);
    trimmed((ar.places)(m, (DIGITS - 1) as nat)) + "E"@ + text::integer(exponent(x, ar))
}

/// Whether a positive number is printed with an exponent.
pub open spec fn out_of_range(x: Number) -> bool {
    x.below(Number { bits: FIXED_FROM }) || x.value() >= FIXED_TO * number::unit()
}

/// Whether printing `x` takes no rounded arithmetic.
pub open spec fn plain(x: Number) -> bool {
    ||| x.magnitude() == 0
    ||| x.is_nan()
    ||| x.is_infinite()
    ||| !out_of_range(x.absolute()) && x.size() % number::unit() == 0
}

/// A number as it is printed.
pub open spec fn formatted(x: Number, ar: Arithmetic) -> Seq<char> {
    let sign = if x.negative() {
        "-"@
    } else {
        ""@
    };
    let positive = x.absolute();
    if x.magnitude() == 0 {
        "0"@
    } else if x.is_nan() {
        "NaN"@
    } else if x.is_infinite() {
        if x.negative() {
            "-Inf"@
        } else {
            "Inf"@
        }
    } else if out_of_range(positive) {
        sign + scientific(positive, ar)
    } else if x.size() % number::unit() == 0 {
        sign + text::decimal((x.size() / number::unit()) as nat)
    } else {
        sign + fixed(positive, ar)
    }
}

/// Whether a text begins with a digit.
pub open spec fn digit_first(s: Seq<char>) -> bool {
    s.len() > 0 && text::is_digit(s[0])
}

/// What is left when every `c` at the back is gone.
proof fn lemma_without_trailing(s: Seq<char>, c: char, i: int)
    requires
        0 <= i < s.len(),
        s[i] != c,
    ensures
        i < without_trailing(s, c).len() <= s.len(),
        without_trailing(s, c) == s.take(without_trailing(s, c).len() as int),
    decreases s.len(),
{
    if s.last() == c {
        lemma_without_trailing(s.drop_last(), c, i);
        let t = without_trailing(s, c);
        assert(s.drop_last().take(t.len() as int) == s.take(t.len() as int));
    } else {
        assert(s.take(s.len() as int) == s);
    }
}

/// A decimal that begins with a digit still does without its superfluous zeros
/// and point.
pub proof fn lemma_trimmed_digit_first(s: Seq<char>)
    requires
        digit_first(s),
    ensures
        digit_first(trimmed(s)),
{
    reveal_strlit("0");
    reveal_strlit("-");
    if let Some(i) = text::index_of(s, '.') {
        text::lemma_index_of(s, '.');
        lemma_without_trailing(s, '0', i);
        let t = without_trailing(s, '0');
        assert(t[0] == s[0]);
        lemma_without_trailing(t, '.', 0);
        let u = without_trailing(t, '.');
        assert(u[0] == t[0]);
        assert("-"@[0] == '-');
    }
}

/// `s` without any `c` at its back.
fn strip(s: &[char], c: char) -> (r: &[char])
    ensures
        r@ == without_trailing(s@, c),
        r@.len() <= s@.len(),
{
    let mut n = s.len();
    assert(s@.take(n as int) == s@);
    while n > 0 && s[n - 1] == c
        invariant
            n <= s@.len(),
            without_trailing(s@, c) == without_trailing(s@.take(n as int), c),
        decreases n,
    {
        assert(s@.take(n as int).last() == s@[n - 1]);
        assert(s@.take(n as int).drop_last() == s@.take(n - 1));
        n -= 1;
    }
    assert(n > 0 ==> s@.take(n as int).last() == s@[n - 1]);
    text::head(s, n)
}

/// A decimal without superfluous zeros and point.
pub fn trim_fp(s: &str) -> (r: String)
    ensures
        r@ == trimmed(s@),
{
    let chars = text::chars(s);
    if text::find(chars.as_slice(), '.').is_none() {
        return text::string(chars.as_slice());
    }
    let t = strip(strip(chars.as_slice(), '0'), '.');
    proof {
        reveal_strlit("-");
    }
    if t.len() == 0 || (t.len() == 1 && t[0] == '-') {
        assert(t@.len() == 1 ==> t@ == "-"@);
        String::from_str("0")
    } else {
        text::string(t)
    }
}

fn exponent_of<C: Calculator>(x: Number, calc: &C) -> (r: i32)
    ensures
        calculator::deterministic(*calc) ==> r == exponent(x, calculator::arithmetic(*calc)),
{
    calculator::apply(calc, Function::DecimalLog, x).floor().to_i32()
}

/// `x` rounded to the digits that are printed.
pub fn round_to_significant<C: Calculator>(x: Number, calc: &C) -> (r: Number)
    ensures
        calculator::deterministic(*calc) ==> r == significant(x, calculator::arithmetic(*calc)),
{
    if x.magnitude_bits() == 0 {
        return Number { bits: 0 };
    }
    let d = calculator::apply(calc, Function::DecimalLog, x.abs()).ceil().to_i32();
    let shift = DIGITS as i64 - d as i64;
    let n = if shift > 0x7fff_ffff {
        0x7fff_ffff
    } else {
        shift as i32
    };
    let factor = calculator::power_of_ten(calc, n);
    let scaled = calculator::operate(calc, Operation::Multiply, x, factor);
    let round = calculator::apply(calc, Function::Round, scaled);
    calculator::operate(calc, Operation::Divide, round, factor)
}

/// A positive number in fixed notation.
pub fn format_fixed<C: Calculator>(x: Number, calc: &C) -> (r: String)
    ensures
        calculator::deterministic(*calc) ==> r@ == fixed(x, calculator::arithmetic(*calc)),
{
    let rounded = round_to_significant(x, calc);
    let e = exponent_of(x, calc);
    let places = if e < DIGITS - 1 {
        (DIGITS as i64 - 1 - e as i64) as usize
    } else {
        0
    };
    trim_fp(calculator::places(calc, rounded, places).as_str())
}

/// A positive number with an exponent.
pub fn format_scientific<C: Calculator>(x: Number, calc: &C) -> (r: String)
    ensures
        calculator::deterministic(*calc) ==> r@ == scientific(x, calculator::arithmetic(*calc)),
{
    let e = exponent_of(x, calc);
    let power = calculator::power_of_ten(calc, e);
    let mantissa = calculator::operate(calc, Operation::Divide, x, power);
    let rounded = round_to_significant(mantissa, calc);
    let mut r = trim_fp(calculator::places(calc, rounded, 7).as_str());
    r.append("E");
    text::push_integer(&mut r, e);
    r
}

/// The number as `PRINT` shows it.
pub fn format<C: Calculator>(x: Number, calc: &C) -> (r: String)
    ensures
        plain(x) || calculator::deterministic(*calc) ==> r@ == formatted(
            x,
            calculator::arithmetic(*calc),
        ),
{
    if x.magnitude_bits() == 0 {
        return String::from_str("0");
    }
    if x.nan() {
        return String::from_str("NaN");
    }
    if x.infinite() {
        return if x.is_negative() {
            String::from_str("-Inf")
        } else {
            String::from_str("Inf")
        };
    }
    let positive = x.abs();
    let mut r = if x.is_negative() {
        String::from_str("-")
    } else {
        String::from_str("")
    };
    if positive.less(Number { bits: FIXED_FROM }) || !positive.less(Number::from_u64(FIXED_TO)) {
        r.append(format_scientific(positive, calc).as_str());
    } else {
        let (whole, fractional) = positive.split();
        if fractional {
            r.append(format_fixed(positive, calc).as_str());
        } else {
            proof {
                vstd::arithmetic::power2::lemma_pow2_pos(1074);
                vstd::arithmetic::div_mod::lemma_multiply_divide_lt(
                    positive.size() as int,
                    number::unit() as int,
                    FIXED_TO as int,
                );
            }
            text::push_decimal(&mut r, whole);
        }
    }
    r
}

} // verus!
