//! What holds of printed numbers.

use vstd::prelude::*;
use vstd::arithmetic::power;
use vstd::arithmetic::power2;

use crate::calculator::{Arithmetic, Function, Operation};
use crate::fp_format;
use crate::number;
use crate::number::Number;
use crate::reading;
use crate::text;
use crate::text_laws;

verus! {

/// Whether a text is the decimal `n / 10^k`, with `k` places behind its point;
/// without a point where `k` is zero.
pub open spec fn denotes(s: Seq<char>, n: nat, k: nat) -> bool {
    if k == 0 {
        reading::all_digits(s) && text::decimal_value(s) == n
    } else {
        let p = s.len() - k - 1;
        &&& p > 0
        &&& s[p] == '.'
        &&& reading::all_digits(s.take(p) + s.skip(p + 1))
        &&& text::decimal_value(s.take(p) + s.skip(p + 1)) == n
    }
}

/// Zeros behind a numeral multiply by ten each.
proof fn lemma_zeros(s: Seq<char>, z: nat)
    ensures
        text::decimal_value(s + Seq::new(z, |i: int| '0')) == text::decimal_value(s) * power::pow(
            10,
            z,
        ),
    decreases z,
{
    let zeros = Seq::new(z, |i: int| '0');
    if z == 0 {
        assert(s + zeros == s);
        power::lemma_pow0(10);
    } else {
        let fewer = Seq::new((z - 1) as nat, |i: int| '0');
        lemma_zeros(s, (z - 1) as nat);
        assert((s + zeros).drop_last() == s + fewer);
        assert((s + zeros).last() == '0');
        reveal(power::pow);
        let v = text::decimal_value(s);
        let p = power::pow(10, (z - 1) as nat);
        assert(10 * (v * p) == v * (10 * p)) by (nonlinear_arith);
    }
}

/// The text up to its last character that is not `c`.
proof fn lemma_stripped(s: Seq<char>, c: char)
    ensures
        ({
            let t = fp_format::without_trailing(s, c);
            &&& t.len() <= s.len()
            &&& t == s.take(t.len() as int)
            &&& forall|i: int| t.len() <= i < s.len() ==> #[trigger] s[i] == c
            &&& t.len() > 0 ==> t.last() != c
        }),
    decreases s.len(),
{
    if s.len() > 0 && s.last() == c {
        let u = s.drop_last();
        lemma_stripped(u, c);
        let t = fp_format::without_trailing(s, c);
        assert(t == s.take(t.len() as int));
        assert forall|i: int| t.len() <= i < s.len() implies #[trigger] s[i] == c by {
            if i < u.len() {
                assert(u[i] == s[i]);
            }
        }
    } else {
        assert(s.take(s.len() as int) == s);
    }
}

/// Superfluous zeros go, and a point with nothing behind it: the text denotes
/// the same number, and no place behind its point ends in a zero.
#[verifier::rlimit(60)]
pub proof fn lemma_trimmed(s: Seq<char>, n: nat, k: nat) -> (r: (nat, nat))
    requires
        denotes(s, n, k),
    ensures
        denotes(fp_format::trimmed(s), r.0, r.1),
        r.1 <= k,
        n == r.0 * power::pow(10, (k - r.1) as nat),
        r.1 > 0 ==> fp_format::trimmed(s).last() != '0',
{
    text_laws::lemma_occurrences(s, '.');
    power::lemma_pow0(10);
    if k == 0 {
        if let Some(i) = text::index_of(s, '.') {
            assert(text::is_digit(s[i]));
        }
        assert(n == n * power::pow(10, 0)) by (nonlinear_arith)
            requires
                power::pow(10, 0) == 1,
        ;
        (n, 0)
    } else {
        let p = s.len() - k - 1;
        let all = s.take(p) + s.skip(p + 1);
        assert(s.contains('.')) by {
            assert(s[p] == '.');
        }
        assert forall|i: int| 0 <= i < s.len() && i != p implies text::is_digit(#[trigger] s[i]) by {
            if i < p {
                assert(all[i] == s[i]);
            } else {
                assert(all[i - 1] == s[i]);
            }
        }
        let t = fp_format::without_trailing(s, '0');
        lemma_stripped(s, '0');
        let q = t.len() as int;
        assert(q > p) by {
            if q <= p {
                assert(s[p] == '0');
            }
        }
        assert(t.last() == s[q - 1]);
        let u = fp_format::without_trailing(t, '.');
        lemma_stripped(t, '.');
        reveal_strlit("-");
        reveal_strlit("0");
        if q - 1 == p {
            let j = u.len() as int;
            assert(j == p) by {
                if j > p {
                    assert(u.last() == t[p]);
                }
                if j < p {
                    assert(t[j] == '.');
                    assert(t[j] == s[j]);
                }
            }
            assert(u == s.take(p));
            let zeros = Seq::new(k, |i: int| '0');
            assert(all == u + zeros) by {
                assert forall|i: int| 0 <= i < all.len() implies all[i] == (u + zeros)[i] by {
                    if i >= p {
                        assert(all[i] == s[i + 1]);
                    }
                }
            }
            lemma_zeros(u, k);
            assert(reading::all_digits(u)) by {
                assert forall|i: int| 0 <= i < u.len() implies text::is_digit(#[trigger] u[i]) by {
                    assert(u[i] == s[i]);
                }
            }
            assert(u[0] == s[0]);
            assert(u != "-"@) by {
                assert("-"@[0] == '-');
            }
            (text::decimal_value(u), 0)
        } else {
            assert(text::is_digit(s[q - 1]));
            assert(u == t) by {
                if u.len() < t.len() {
                    assert(t[t.len() - 1] == '.');
                }
            }
            let j = (q - 1 - p) as nat;
            let kept = u.take(p) + u.skip(p + 1);
            let zeros = Seq::new((k - j) as nat, |i: int| '0');
            assert(all == kept + zeros) by {
                assert(all.len() == kept.len() + zeros.len());
                assert forall|i: int| 0 <= i < all.len() implies all[i] == (kept + zeros)[i] by {
                    if i < p {
                        assert(kept[i] == s[i]);
                    } else {
                        assert(all[i] == s[i + 1]);
                        if i < kept.len() {
                            assert(kept[i] == u[i + 1]);
                        }
                    }
                }
            }
            lemma_zeros(kept, (k - j) as nat);
            assert(reading::all_digits(kept)) by {
                assert forall|i: int| 0 <= i < kept.len() implies text::is_digit(
                    #[trigger] kept[i],
                ) by {
                    assert(kept[i] == all[i]);
                }
            }
            assert(u[p] == '.');
            assert(u != "-"@) by {
                assert("-"@.len() == 1);
            }
            (text::decimal_value(kept), j)
        }
    }
}

/// The range of fixed notation: from a ten-thousandth to below a hundred
/// million.
pub proof fn lemma_fixed_range(x: Number)
    requires
        !x.negative(),
        !x.is_nan(),
    ensures
        !fp_format::out_of_range(x) <==> number::unit() <= 10000 * x.value() && x.value()
            < 100000000 * number::unit(),
{
    let c = Number { bits: 0x3f1a_36e2_eb1c_432d };
    let h = power2::pow2(1008);
    let u = number::unit();
    power2::lemma_pow2_adds(1008, 66);
    power2::lemma_pow2_pos(1008);
    power2::lemma2_to64_rest();
    power2::lemma_pow2_unfold(65);
    power2::lemma_pow2_unfold(66);
    assert(power2::pow2(66) == 0x4_0000_0000_0000_0000);
    assert(c.size() == 0x1a_36e2_eb1c_432d * h);
    let below = (0x3f1a_36e2_eb1c_432d - 1) as nat;
    assert(number::units(below) == 0x1a_36e2_eb1c_432c * h);
    number::lemma_units_increase(x.magnitude(), c.magnitude());
    number::lemma_units_increase(x.magnitude(), below);
    assert(10000 * (0x1a_36e2_eb1c_432d * h) >= u && 10000 * (0x1a_36e2_eb1c_432c * h) < u)
        by (nonlinear_arith)
        requires
            u == h * 0x4_0000_0000_0000_0000,
            h > 0,
    ;
}

/// A number whose value is whole truncates to it.
proof fn lemma_truncates(y: Number, e: int)
    requires
        !y.is_nan(),
        y.value() == e * number::unit(),
    ensures
        y.truncated() == e,
{
    number::lemma_truncated(y);
    power2::lemma_pow2_pos(1074);
    let u = number::unit() as int;
    let t = y.truncated();
    if e >= 0 {
        assert(e * u >= 0) by (nonlinear_arith)
            requires
                e >= 0,
                u > 0,
        ;
        assert(t == e) by (nonlinear_arith)
            requires
                t * u <= e * u < (t + 1) * u,
                u > 0,
        ;
    } else {
        assert(e * u <= 0) by (nonlinear_arith)
            requires
                e < 0,
                u > 0,
        ;
        assert(t == e) by (nonlinear_arith)
            requires
                (t - 1) * u < e * u <= t * u,
                u > 0,
        ;
    }
}

/// The whole part of a number between two whole numbers, and the next one.
proof fn lemma_between(y: Number, e: int, d: int)
    requires
        !y.is_nan(),
        e * number::unit() <= y.value() < (e + 1) * number::unit(),
        (d - 1) * number::unit() < y.value() <= d * number::unit(),
    ensures
        y.floored().truncated() == e,
        !y.floored().is_nan(),
        y.ceiled().truncated() == d,
        !y.ceiled().is_nan(),
{
    let u = number::unit() as int;
    power2::lemma_pow2_pos(1074);
    number::lemma_floored(y);
    number::lemma_ceiled(y);
    let f = y.floored().value();
    let c = y.ceiled().value();
    vstd::arithmetic::div_mod::lemma_fundamental_div_mod(f, u);
    vstd::arithmetic::div_mod::lemma_fundamental_div_mod(c, u);
    let a = f / u;
    let b = c / u;
    assert(a == e) by (nonlinear_arith)
        requires
            u > 0,
            u * a <= y.value() < u * a + u,
            e * u <= y.value() < (e + 1) * u,
    ;
    assert(b == d) by (nonlinear_arith)
        requires
            u > 0,
            u * b - u < y.value() <= u * b,
            (d - 1) * u < y.value() <= d * u,
    ;
    assert(u * a == e * u && u * b == d * u) by (nonlinear_arith)
        requires
            a == e,
            b == d,
    ;
    lemma_truncates(y.floored(), e);
    lemma_truncates(y.ceiled(), d);
}

/// Whether the decimal logarithm of a number lies from `e` to below `e + 1` and
/// from above `d - 1` to `d`.
pub open spec fn magnitude_is(x: Number, e: int, d: int, ar: Arithmetic) -> bool {
    let log = (ar.apply)(Function::DecimalLog, x);
    &&& !log.is_nan()
    &&& e * number::unit() <= log.value() < (e + 1) * number::unit()
    &&& (d - 1) * number::unit() < log.value() <= d * number::unit()
    &&& -1000 <= e <= 1000
    &&& -1000 <= d <= 1000
}

/// A number scaled to eight digits before the point, rounded to a whole number
/// and scaled back.
pub open spec fn to_eight_digits(x: Number, d: int, ar: Arithmetic) -> Number {
    let scale = (ar.power_of_ten)(8 - d);
    let scaled = (ar.apply)(Function::Round, (ar.operate)(Operation::Multiply, x, scale));
    (ar.operate)(Operation::Divide, scaled, scale)
}

/// Rounding keeps eight significant digits: where `d` digits stand before the
/// point, eight less `d` stand behind it. Zero stays zero.
pub proof fn lemma_significant(x: Number, e: int, d: int, ar: Arithmetic)
    requires
        x.magnitude() > 0,
        magnitude_is(x.absolute(), e, d, ar),
    ensures
        fp_format::significant(x, ar) == to_eight_digits(x, d, ar),
        fp_format::significant(Number { bits: 0 }, ar) == (Number { bits: 0 }),
{
    let log = (ar.apply)(Function::DecimalLog, x.absolute());
    lemma_between(log, e, d);
}

/// A number from 0.0001 to below 100000000 that is not whole is printed with
/// eight significant digits before superfluous zeros go: with its leading digit
/// at `10^e`, the host is asked for the rounded value with `7 - e` places. Given
/// that the host's decimals are those of the number `n / 10^(7-e)` that is
/// nearest to it, what is printed denotes that number, and so differs by at
/// most half a unit of the eighth digit.
#[verifier::rlimit(60)]
pub proof fn lemma_fixed_printed(x: Number, e: int, d: int, n: nat, ar: Arithmetic) -> (r: (nat, nat))
    requires
        !x.negative(),
        !x.is_nan(),
        number::unit() <= 10000 * x.value(),
        x.value() < 100000000 * number::unit(),
        x.value() % (number::unit() as int) != 0,
        magnitude_is(x, e, d, ar),
        e <= 7,
        denotes((ar.places)(to_eight_digits(x, d, ar), (7 - e) as nat), n, (7 - e) as nat),
        ({
            let off = n * number::unit() - x.value() * power::pow(10, (7 - e) as nat);
            -number::unit() <= 2 * off <= number::unit()
        }),
    ensures
        denotes(fp_format::formatted(x, ar), r.0, r.1),
        r.1 <= 7 - e,
        r.1 > 0 ==> fp_format::formatted(x, ar).last() != '0',
        ({
            let printed = r.0 * power::pow(10, (7 - e - r.1) as nat);
            let off = printed * number::unit() - x.value() * power::pow(10, (7 - e) as nat);
            &&& printed == n
            &&& -number::unit() <= 2 * off <= number::unit()
        }),
{
    lemma_fixed_range(x);
    assert(x.absolute() == x);
    power2::lemma_pow2_pos(1074);
    lemma_infinite_is_large(x);
    lemma_significant(x, e, d, ar);
    let log = (ar.apply)(Function::DecimalLog, x);
    lemma_between(log, e, d);
    let k = (7 - e) as nat;
    let host = (ar.places)(to_eight_digits(x, d, ar), k);
    reveal_strlit("");
    assert(""@ + fp_format::trimmed(host) == fp_format::trimmed(host));
    lemma_trimmed(host, n, k)
}

/// Infinity counts as more than any number in fixed notation.
proof fn lemma_infinite_is_large(x: Number)
    requires
        !x.negative(),
    ensures
        x.is_infinite() ==> x.value() >= 100000000 * number::unit(),
{
    let m = 0x4200_0000_0000_0000nat;
    number::lemma_units_increase(m, x.magnitude());
    let h = power2::pow2(1055);
    power2::lemma_pow2_adds(1055, 19);
    power2::lemma_pow2_pos(1055);
    power2::lemma2_to64();
    assert(number::units(m) == 0x10_0000_0000_0000 * h);
    let u = number::unit();
    assert(0x10_0000_0000_0000 * h >= 100000000 * u) by (nonlinear_arith)
        requires
            u == h * 0x8_0000,
    ;
}

/// A number outside that range is printed as its mantissa with eight significant
/// digits, an `E` and its exponent: given that the host's decimals of the
/// rounded mantissa are those of `n / 10^7`, what stands before the `E` denotes
/// that number.
#[verifier::rlimit(60)]
pub proof fn lemma_scientific_printed(
    x: Number,
    e: int,
    f: int,
    c: int,
    d: int,
    n: nat,
    ar: Arithmetic,
) -> (r: (Seq<char>, nat, nat))
    requires
        !x.negative(),
        !x.is_nan(),
        !x.is_infinite(),
        x.magnitude() > 0,
        number::unit() > 10000 * x.value() || x.value() >= 100000000 * number::unit(),
        magnitude_is(x, e, f, ar),
        ({
            let m = (ar.operate)(Operation::Divide, x, (ar.power_of_ten)(e));
            &&& m.magnitude() > 0
            &&& magnitude_is(m.absolute(), c, d, ar)
            &&& denotes((ar.places)(to_eight_digits(m, d, ar), 7), n, 7)
        }),
    ensures
        fp_format::formatted(x, ar) == r.0 + seq!['E'] + text::integer(e),
        denotes(r.0, r.1, r.2),
        r.2 <= 7,
        r.2 > 0 ==> r.0.last() != '0',
        n == r.1 * power::pow(10, (7 - r.2) as nat),
{
    lemma_fixed_range(x);
    assert(x.absolute() == x);
    let log = (ar.apply)(Function::DecimalLog, x);
    lemma_between(log, e, f);
    let m = (ar.operate)(Operation::Divide, x, (ar.power_of_ten)(e));
    lemma_significant(m, c, d, ar);
    let host = (ar.places)(to_eight_digits(m, d, ar), 7);
    let (v, j) = lemma_trimmed(host, n, 7);
    let t = fp_format::trimmed(host);
    reveal_strlit("");
    reveal_strlit("E");
    assert("E"@ == seq!['E']);
    let all = t + "E"@ + text::integer(e);
    assert(""@ + all == all);
    (t, v, j)
}

/// A whole number from one to below 100000000 is printed as its numeral, zero as
/// `0`, what is not finite as `Inf`, `-Inf` or `NaN`.
pub proof fn lemma_plain_printed(x: Number, n: nat, ar: Arithmetic)
    ensures
        !x.is_nan() && !x.negative() && 0 < n < 100000000 && x.value() == n * number::unit()
            ==> fp_format::formatted(x, ar) == text::decimal(n),
        !x.is_nan() && x.value() == 0 ==> fp_format::formatted(x, ar) == seq!['0'],
        x.is_nan() ==> fp_format::formatted(x, ar) == seq!['N', 'a', 'N'],
        x.is_infinite() && !x.negative() ==> fp_format::formatted(x, ar) == seq!['I', 'n', 'f'],
        x.is_infinite() && x.negative() ==> fp_format::formatted(x, ar) == seq!['-', 'I', 'n', 'f'],
{
    reveal_strlit("");
    reveal_strlit("0");
    reveal_strlit("NaN");
    reveal_strlit("Inf");
    reveal_strlit("-Inf");
    assert("0"@ == seq!['0']);
    assert("NaN"@ == seq!['N', 'a', 'N']);
    assert("Inf"@ == seq!['I', 'n', 'f']);
    assert("-Inf"@ == seq!['-', 'I', 'n', 'f']);
    let u = number::unit();
    power2::lemma_pow2_pos(1074);
    if !x.is_nan() && x.value() == 0 {
        number::lemma_units_increase(0, x.magnitude());
    }
    if !x.is_nan() && !x.negative() && 0 < n < 100000000 && x.value() == n * u {
        assert(x.absolute() == x);
        assert(u <= 10000 * (n * u) && n * u < 100000000 * u && n * u > 0) by (nonlinear_arith)
            requires
                0 < n < 100000000,
                u > 0,
        ;
        lemma_fixed_range(x);
        lemma_infinite_is_large(x);
        vstd::arithmetic::div_mod::lemma_div_by_multiple(n as int, u as int);
        vstd::arithmetic::div_mod::lemma_mod_multiples_basic(n as int, u as int);
        assert(""@ + text::decimal(n) == text::decimal(n));
    }
}

} // verus!
