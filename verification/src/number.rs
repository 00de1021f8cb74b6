//! Numbers of the language: binary64 bit patterns.
//!
//! A number is held as its 64 bits. What it stands for is given in units of
//! the smallest positive number, so that every finite number is a whole
//! count of units and one is `unit()` of them. Ordering, truncation, rounding
//! down and the sign are worked out here on the bits. Rounded arithmetic is
//! the business of a `Calculator`.

use vstd::prelude::*;
use vstd::arithmetic::power2;

verus! {

/// The sign bit.
pub const SIGN: u64 = 0x8000_0000_0000_0000;

/// The magnitude of infinity; larger magnitudes are not numbers.
pub const INFINITE: u64 = 0x7ff0_0000_0000_0000;

/// The weight of the lowest exponent bit.
pub const STEP: u64 = 0x0010_0000_0000_0000;

/// A binary64 number.
#[derive(Clone, Copy, Debug)]
pub struct Number {
    pub bits: u64,
}

/// Numbers are equal where they have the same value: the two zeros are, and
/// what is not a number equals nothing.
impl PartialEq for Number {
    fn eq(&self, other: &Number) -> (r: bool) {
        self.equals(*other)
    }
}

impl vstd::std_specs::cmp::PartialEqSpecImpl for Number {
    open spec fn obeys_eq_spec() -> bool {
        true
    }

    open spec fn eq_spec(&self, other: &Number) -> bool {
        self.same_value(*other)
    }
}

/// How many units one is.
pub open spec fn unit() -> nat {
    power2::pow2(1074)
}

/// How many units the magnitude `m` stands for. Infinity counts as the next
/// number after the largest.
pub open spec fn units(m: nat) -> nat {
    if m < STEP {
        m
    } else {
        ((STEP + m % (STEP as nat)) * power2::pow2((m / (STEP as nat) - 1) as nat)) as nat
    }
}

/// `v`, or the nearer end of the range where it lies outside.
pub open spec fn clamp(v: int, low: int, high: int) -> int {
    if v < low {
        low
    } else if v > high {
        high
    } else {
        v
    }
}

/// How many halvings bring `n` under 53 bits.
pub open spec fn excess(n: nat) -> nat
    decreases n,
{
    if n < 2 * STEP {
        0
    } else {
        1 + excess(n / 2)
    }
}

/// `n` rounded to 53 significant bits, ties to even.
pub open spec fn rounded(n: nat) -> nat {
    let p = power2::pow2(excess(n));
    let q = n / p;
    let r = n % p;
    if 2 * r > p || (2 * r == p && q % 2 == 1) {
        (q + 1) * p
    } else {
        q * p
    }
}

impl Number {
    /// One for true, zero for false.
    pub open spec fn truth(b: bool) -> Number {
        if b {
            Number { bits: 0x3ff0_0000_0000_0000 }
        } else {
            Number { bits: 0 }
        }
    }

    pub open spec fn negative(self) -> bool {
        self.bits >= SIGN
    }

    /// The bits below the sign.
    pub open spec fn magnitude(self) -> nat {
        (self.bits % SIGN) as nat
    }

    pub open spec fn is_nan(self) -> bool {
        self.magnitude() > INFINITE
    }

    pub open spec fn is_infinite(self) -> bool {
        self.magnitude() == INFINITE
    }

    /// The absolute value, in units.
    pub open spec fn size(self) -> nat {
        units(self.magnitude())
    }

    /// The value, in units.
    pub open spec fn value(self) -> int {
        if self.negative() {
            -(self.size() as int)
        } else {
            self.size() as int
        }
    }

    /// The value without its fraction.
    pub open spec fn truncated(self) -> int {
        if self.negative() {
            -((self.size() / unit()) as int)
        } else {
            (self.size() / unit()) as int
        }
    }

    /// The value without its fraction, brought into a range; zero for what
    /// is not a number.
    pub open spec fn saturated(self, low: int, high: int) -> int {
        if self.is_nan() {
            0
        } else {
            clamp(self.truncated(), low, high)
        }
    }

    /// Both are numbers and the first is the smaller.
    pub open spec fn below(self, other: Number) -> bool {
        !self.is_nan() && !other.is_nan() && self.value() < other.value()
    }

    /// Both are numbers, of one value.
    pub open spec fn same_value(self, other: Number) -> bool {
        !self.is_nan() && !other.is_nan() && self.value() == other.value()
    }

    /// Lies between the whole numbers `low` and `high`, both included.
    pub open spec fn within(self, low: int, high: int) -> bool {
        !self.is_nan() && low * unit() <= self.value() <= high * unit()
    }

    pub open spec fn negated(self) -> Number {
        if self.negative() {
            Number { bits: (self.bits - SIGN) as u64 }
        } else {
            Number { bits: (self.bits + SIGN) as u64 }
        }
    }

    pub open spec fn absolute(self) -> Number {
        Number { bits: self.bits % SIGN }
    }

    /// `r` is the largest whole number not above this one, with this sign.
    pub open spec fn floors_to(self, r: Number) -> bool {
        if self.is_nan() {
            r == self
        } else {
            &&& !r.is_nan()
            &&& r.negative() == self.negative()
            &&& r.value() == (self.value() / (unit() as int)) * unit()
        }
    }

    /// The largest whole number not above this one.
    pub open spec fn floored(self) -> Number {
        choose|r: Number| self.floors_to(r)
    }

    /// The smallest whole number not below this one.
    pub open spec fn ceiled(self) -> Number {
        self.negated().floored().negated()
    }

    /// This is the number nearest to the whole number `n`, ties to even.
    pub open spec fn is_nearest(self, n: nat) -> bool {
        &&& !self.negative()
        &&& !self.is_nan()
        &&& self.value() == rounded(n) * unit()
    }

    /// The number nearest to the whole number `n`, ties to even.
    pub open spec fn whole(n: nat) -> Number {
        choose|r: Number| r.is_nearest(n)
    }

    /// This is `v / 2^53`.
    pub open spec fn is_fraction(self, v: nat) -> bool {
        &&& !self.negative()
        &&& !self.is_nan()
        &&& self.value() * (2 * STEP) == v * unit()
    }

    /// `v / 2^53`.
    pub open spec fn fraction(v: nat) -> Number {
        choose|r: Number| r.is_fraction(v)
    }
}

/// A number is determined by its sign and its value.
pub proof fn lemma_determined(a: Number, b: Number)
    requires
        !a.is_nan(),
        !b.is_nan(),
        a.negative() == b.negative(),
        a.value() == b.value(),
    ensures
        a == b,
{
    lemma_units_increase(a.magnitude(), b.magnitude());
}

/// The number one more unit stands for is larger.
proof fn lemma_units_step(m: nat)
    ensures
        units(m) < units(m + 1),
{
    let s = STEP as nat;
    if m + 1 == s {
        power2::lemma2_to64();
        assert(units(m + 1) == s) by {
            assert((m + 1) % s == 0 && (m + 1) / s == 1) by (nonlinear_arith)
                requires
                    m + 1 == s,
                    s > 0,
            ;
        }
    } else if m >= s {
        let e = m / s;
        let f = m % s;
        let p = power2::pow2((e - 1) as nat);
        assert(m == s * e + f) by {
            vstd::arithmetic::div_mod::lemma_fundamental_div_mod(m as int, s as int);
        }
        assert(e >= 1) by (nonlinear_arith)
            requires
                m == s * e + f,
                f < s,
                m >= s,
        ;
        power2::lemma_pow2_pos((e - 1) as nat);
        if f + 1 < s {
            vstd::arithmetic::div_mod::lemma_fundamental_div_mod_converse(
                (m + 1) as int,
                s as int,
                e as int,
                (f + 1) as int,
            );
            assert((s + f + 1) * p > (s + f) * p) by (nonlinear_arith)
                requires
                    p > 0,
            ;
        } else {
            assert(m + 1 == s * (e + 1)) by (nonlinear_arith)
                requires
                    m == s * e + f,
                    f + 1 == s,
            ;
            vstd::arithmetic::div_mod::lemma_fundamental_div_mod_converse(
                (m + 1) as int,
                s as int,
                (e + 1) as int,
                0,
            );
            power2::lemma_pow2_unfold(e);
            assert(s * (2 * p) > (s + f) * p) by (nonlinear_arith)
                requires
                    p > 0,
                    f < s,
            ;
        }
    }
}

/// A larger magnitude stands for more units.
pub proof fn lemma_units_increase(a: nat, b: nat)
    ensures
        a < b ==> units(a) < units(b),
        a == b ==> units(a) == units(b),
        a > b ==> units(a) > units(b),
    decreases a + b,
{
    if a < b {
        lemma_units_step((b - 1) as nat);
        lemma_units_increase(a, (b - 1) as nat);
    } else if a > b {
        lemma_units_step((a - 1) as nat);
        lemma_units_increase(b, (a - 1) as nat);
    }
}

/// `a * 2^(e-1)` units, split at one.
proof fn lemma_split(a: nat, e: nat)
    requires
        1 <= e,
    ensures
        e <= 1075 ==> {
            let p = power2::pow2((1075 - e) as nat);
            let q = power2::pow2((e - 1) as nat);
            &&& p > 0
            &&& q > 0
            &&& unit() == q * p
            &&& (a * q) / unit() == a / p
            &&& (a * q) % unit() == q * (a % p)
        },
        e >= 1075 ==> {
            let p = power2::pow2((e - 1075) as nat);
            &&& p > 0
            &&& a * power2::pow2((e - 1) as nat) == a * p * unit()
            &&& (a * power2::pow2((e - 1) as nat)) / unit() == a * p
            &&& (a * power2::pow2((e - 1) as nat)) % unit() == 0
        },
        unit() > 0,
{
    power2::lemma_pow2_pos(1074);
    let q = power2::pow2((e - 1) as nat);
    power2::lemma_pow2_pos((e - 1) as nat);
    if e <= 1075 {
        let p = power2::pow2((1075 - e) as nat);
        power2::lemma_pow2_pos((1075 - e) as nat);
        power2::lemma_pow2_adds((e - 1) as nat, (1075 - e) as nat);
        vstd::arithmetic::div_mod::lemma_div_multiples_vanish_quotient(
            q as int,
            a as int,
            p as int,
        );
        vstd::arithmetic::div_mod::lemma_truncate_middle(a as int, q as int, p as int);
        assert(a * q == q * a) by (nonlinear_arith);
    }
    if e >= 1075 {
        let p = power2::pow2((e - 1075) as nat);
        power2::lemma_pow2_pos((e - 1075) as nat);
        power2::lemma_pow2_adds((e - 1075) as nat, 1074);
        assert(q == p * unit());
        assert(a * (p * unit()) == a * p * unit()) by (nonlinear_arith);
        vstd::arithmetic::div_mod::lemma_div_by_multiple((a * p) as int, unit() as int);
        vstd::arithmetic::div_mod::lemma_mod_multiples_basic((a * p) as int, unit() as int);
    }
}

/// Exponent and fraction of a magnitude at or above `STEP`.
proof fn lemma_fields(m: nat)
    requires
        STEP <= m < SIGN,
    ensures
        1 <= m / (STEP as nat) <= 2047,
        m == STEP * (m / (STEP as nat)) + m % (STEP as nat),
        m % (STEP as nat) < STEP,
        units(m) == (STEP + m % (STEP as nat)) * power2::pow2((m / (STEP as nat) - 1) as nat),
{
}

proof fn lemma_whole_part(n: nat)
    ensures
        n / unit() >= 0,
{
    power2::lemma_pow2_pos(1074);
    vstd::arithmetic::div_mod::lemma_div_pos_is_pos(n as int, unit() as int);
}

impl Number {
    /// The bits below the sign.
    pub fn magnitude_bits(self) -> (r: u64)
        ensures
            r == self.magnitude(),
            r < SIGN,
    {
        self.bits % SIGN
    }

    /// One for true, zero for false.
    pub fn from_bool(b: bool) -> (r: Number)
        ensures
            r == Number::truth(b),
    {
        if b {
            Number { bits: 0x3ff0_0000_0000_0000 }
        } else {
            Number { bits: 0 }
        }
    }

    pub fn is_negative(self) -> (r: bool)
        ensures
            r == self.negative(),
    {
        self.bits >= SIGN
    }

    pub fn nan(self) -> (r: bool)
        ensures
            r == self.is_nan(),
    {
        self.magnitude_bits() > INFINITE
    }

    pub fn infinite(self) -> (r: bool)
        ensures
            r == self.is_infinite(),
    {
        self.magnitude_bits() == INFINITE
    }

    /// The number of the opposite sign.
    pub fn negate(self) -> (r: Number)
        ensures
            r == self.negated(),
            r.value() == -self.value(),
            r.is_nan() == self.is_nan(),
    {
        if self.bits >= SIGN {
            Number { bits: self.bits - SIGN }
        } else {
            Number { bits: self.bits + SIGN }
        }
    }

    /// The number without its sign.
    pub fn abs(self) -> (r: Number)
        ensures
            r == self.absolute(),
            r.value() == self.size(),
            !r.negative(),
            r.is_nan() == self.is_nan(),
    {
        Number { bits: self.bits % SIGN }
    }

    /// Whether this number is below `other`.
    pub fn less(self, other: Number) -> (r: bool)
        ensures
            r == self.below(other),
    {
        let a = self.magnitude_bits();
        let b = other.magnitude_bits();
        proof {
            lemma_units_increase(a as nat, b as nat);
            lemma_units_increase(0, a as nat);
            lemma_units_increase(0, b as nat);
        }
        if a > INFINITE || b > INFINITE {
            false
        } else if self.is_negative() {
            if other.is_negative() {
                b < a
            } else {
                a > 0 || b > 0
            }
        } else {
            !other.is_negative() && a < b
        }
    }

    /// Whether the two have one value.
    pub fn equals(self, other: Number) -> (r: bool)
        ensures
            r == self.same_value(other),
    {
        let a = self.magnitude_bits();
        let b = other.magnitude_bits();
        proof {
            lemma_units_increase(a as nat, b as nat);
            lemma_units_increase(0, a as nat);
            lemma_units_increase(0, b as nat);
        }
        if a > INFINITE || b > INFINITE {
            false
        } else if self.is_negative() == other.is_negative() {
            a == b
        } else {
            a == 0 && b == 0
        }
    }

    /// The whole part of the absolute value, as far as 64 bits reach, and
    /// whether there is a fraction.
    pub fn split(self) -> (r: (u64, bool))
        requires
            !self.is_nan(),
        ensures
            r.0 == clamp((self.size() / unit()) as int, 0, u64::MAX as int),
            r.1 == (self.size() % unit() != 0),
    {
        let m = self.magnitude_bits();
        proof {
            power2::lemma_pow2_pos(1074);
            power2::lemma_pow2_strictly_increases(52, 1074);
            power2::lemma2_to64();
            power2::lemma2_to64_rest();
        }
        if m < STEP {
            proof {
                vstd::arithmetic::div_mod::lemma_small_mod(m as nat, unit());
                vstd::arithmetic::div_mod::lemma_basic_div(m as int, unit() as int);
            }
            return (0, m != 0);
        }
        let e = m / STEP;
        let a = STEP + m % STEP;
        proof {
            lemma_fields(m as nat);
            lemma_split(a as nat, e as nat);
        }
        if e < 1023 {
            proof {
                let p = power2::pow2((1075 - e) as nat);
                let q = power2::pow2((e - 1) as nat);
                if e < 1022 {
                    power2::lemma_pow2_strictly_increases(53, (1075 - e) as nat);
                }
                assert(a < p);
                vstd::arithmetic::div_mod::lemma_small_mod(a as nat, p);
                vstd::arithmetic::div_mod::lemma_basic_div(a as int, p as int);
                assert(q * (a as nat % p) > 0) by (nonlinear_arith)
                    requires
                        q > 0,
                        a as nat % p == a,
                        a > 0,
                ;
            }
            (0, true)
        } else if e <= 1075 {
            let k = 1075 - e;
            let w = a >> k;
            proof {
                let q = power2::pow2((e - 1) as nat);
                let p = power2::pow2(k as nat);
                vstd::bits::lemma_u64_shr_is_div(a, k);
                vstd::bits::lemma_u64_pow2_no_overflow(k as nat);
                vstd::bits::lemma_u64_shl_is_mul(1, k);
                assert(1 * p == p);
                let r = a as nat % p;
                assert(q * r == 0 <==> r == 0) by (nonlinear_arith)
                    requires
                        q > 0,
                ;
            }
            (w, a % (1u64 << k) != 0)
        } else if e <= 1086 {
            let k = e - 1075;
            proof {
                let p = power2::pow2(k as nat);
                if k < 11 {
                    power2::lemma_pow2_strictly_increases(k as nat, 11);
                }
                assert(a * p <= u64::MAX) by (nonlinear_arith)
                    requires
                        a < 2 * STEP,
                        p <= 2048,
                        STEP == 0x0010_0000_0000_0000,
                ;
                vstd::bits::lemma_u64_shl_is_mul(a, k);
            }
            (a << k, false)
        } else {
            proof {
                let p = power2::pow2((e - 1075) as nat);
                if e > 1087 {
                    power2::lemma_pow2_strictly_increases(12, (e - 1075) as nat);
                }
                assert(a * p > u64::MAX) by (nonlinear_arith)
                    requires
                        a >= STEP,
                        p >= 4096,
                        STEP == 0x0010_0000_0000_0000,
                ;
            }
            (u64::MAX, false)
        }
    }

    /// Truncated to a signed 64-bit integer.
    pub fn to_i64(self) -> (r: i64)
        ensures
            r == self.saturated(i64::MIN as int, i64::MAX as int),
    {
        proof {
            lemma_whole_part(self.size());
        }
        if self.nan() {
            return 0;
        }
        let w = self.split().0;
        if self.is_negative() {
            if w >= 0x8000_0000_0000_0000 {
                i64::MIN
            } else {
                -(w as i64)
            }
        } else if w > 0x7fff_ffff_ffff_ffff {
            i64::MAX
        } else {
            w as i64
        }
    }

    /// Truncated to a signed 32-bit integer.
    pub fn to_i32(self) -> (r: i32)
        ensures
            r == self.saturated(i32::MIN as int, i32::MAX as int),
    {
        let v = self.to_i64();
        if v < -0x8000_0000 {
            i32::MIN
        } else if v > 0x7fff_ffff {
            i32::MAX
        } else {
            v as i32
        }
    }

    /// Truncated to an unsigned 64-bit integer.
    pub fn to_u64(self) -> (r: u64)
        ensures
            r == self.saturated(0, u64::MAX as int),
    {
        proof {
            lemma_whole_part(self.size());
        }
        if self.nan() || self.is_negative() {
            0
        } else {
            self.split().0
        }
    }

    /// Truncated to a size.
    pub fn to_usize(self) -> (r: usize)
        ensures
            r == self.saturated(0, usize::MAX as int),
    {
        let v = self.to_u64();
        if v > usize::MAX as u64 {
            usize::MAX
        } else {
            v as usize
        }
    }

    /// Truncated to an unsigned 32-bit integer.
    pub fn to_u32(self) -> (r: u32)
        ensures
            r == self.saturated(0, u32::MAX as int),
    {
        let v = self.to_u64();
        if v > 0xffff_ffff {
            u32::MAX
        } else {
            v as u32
        }
    }

    /// Truncated to an unsigned 16-bit integer.
    pub fn to_u16(self) -> (r: u16)
        ensures
            r == self.saturated(0, u16::MAX as int),
    {
        let v = self.to_u64();
        if v > 0xffff {
            u16::MAX
        } else {
            v as u16
        }
    }
}

/// The fields of `e` steps and a fraction `f`.
proof fn lemma_assembled(e: nat, f: nat)
    requires
        1 <= e,
        f < STEP,
    ensures
        units((STEP * e + f) as nat) == (STEP + f) * power2::pow2((e - 1) as nat),
        STEP * e + f >= STEP,
{
    let m = (STEP * e + f) as nat;
    vstd::arithmetic::div_mod::lemma_fundamental_div_mod_converse(
        m as int,
        STEP as int,
        e as int,
        f as int,
    );
}

/// Clearing the lowest `k` bits of a magnitude takes away what they stand
/// for; the next multiple of `2^k` stands for `2^k` more.
proof fn lemma_cleared(m: nat, k: nat)
    requires
        STEP <= m < SIGN,
        1 <= k <= 52,
    ensures
        ({
            let s = STEP as nat;
            let p = power2::pow2(k);
            let q = power2::pow2((m / s - 1) as nat);
            let a = (s + m % s) as nat;
            let low = m % p;
            &&& p > 0
            &&& low < p
            &&& a % p == low
            &&& a == (a / p) * p + low
            &&& units((m - low) as nat) == ((a / p) * p) * q
            &&& units((m - low + p) as nat) == ((a / p + 1) * p) * q
        }),
{
    let s = STEP as nat;
    let p = power2::pow2(k);
    let h = power2::pow2((52 - k) as nat);
    let e = m / s;
    let f = m % s;
    let a = (s + f) as nat;
    let low = m % p;
    let q = power2::pow2((e - 1) as nat);
    lemma_fields(m);
    power2::lemma_pow2_pos(k);
    power2::lemma_pow2_pos((52 - k) as nat);
    power2::lemma_pow2_adds(k, (52 - k) as nat);
    power2::lemma2_to64_rest();
    assert(s == p * h);
    let g = f / p;
    let fr = f % p;
    vstd::arithmetic::div_mod::lemma_fundamental_div_mod(f as int, p as int);
    vstd::arithmetic::div_mod::lemma_mod_bound(f as int, p as int);
    assert(m == (h * e + g) * p + fr) by (nonlinear_arith)
        requires
            m == s * e + f,
            s == p * h,
            f == p * g + fr,
    ;
    vstd::arithmetic::div_mod::lemma_fundamental_div_mod_converse(
        m as int,
        p as int,
        (h * e + g) as int,
        fr as int,
    );
    assert(a == (h + g) * p + fr) by (nonlinear_arith)
        requires
            a == s + f,
            s == p * h,
            f == p * g + fr,
    ;
    vstd::arithmetic::div_mod::lemma_fundamental_div_mod_converse(
        a as int,
        p as int,
        (h + g) as int,
        fr as int,
    );
    assert(a == (a / p) * p + low) by (nonlinear_arith)
        requires
            a == (h + g) * p + fr,
            a / p == h + g,
            low == fr,
    ;
    assert((a / p) * p == s + (f - low)) by (nonlinear_arith)
        requires
            a == s + f,
            a == (a / p) * p + low,
    ;
    lemma_assembled(e, (f - low) as nat);
    assert(m - low == s * e + (f - low));
    assert((a / p + 1) * p == s + (f - low + p)) by (nonlinear_arith)
        requires
            (a / p) * p == s + (f - low),
    ;
    assert(f - low + p <= s) by (nonlinear_arith)
        requires
            f == p * g + fr,
            low == fr,
            s == p * h,
            f < s,
            p > 0,
    ;
    if f - low + p < s {
        lemma_assembled(e, (f - low + p) as nat);
    } else {
        lemma_assembled(e + 1, 0);
        assert(m - low + p == s * (e + 1)) by (nonlinear_arith)
            requires
                m - low == s * e + (f - low),
                f - low + p == s,
        ;
        power2::lemma_pow2_unfold(e);
        assert(s * (2 * q) == (s + s) * q) by (nonlinear_arith);
    }
}

/// Rounding `n` units down to a whole number, and `-n` units.
proof fn lemma_floor_units(n: nat, w: nat, fractional: bool)
    requires
        w == n / unit(),
        fractional == (n % unit() != 0),
    ensures
        (n as int / unit() as int) * unit() == w * unit(),
        fractional ==> (-n / unit() as int) * unit() == -((w + 1) * unit()),
        !fractional ==> (-n / unit() as int) * unit() == -(w * unit()),
{
    let u = unit() as int;
    power2::lemma_pow2_pos(1074);
    vstd::arithmetic::div_mod::lemma_fundamental_div_mod(n as int, u);
    vstd::arithmetic::div_mod::lemma_mod_bound(n as int, u);
    let r = n as int % u;
    if fractional {
        assert(-n == u * (-w - 1) + (u - r)) by (nonlinear_arith)
            requires
                n == u * w + r,
        ;
        vstd::arithmetic::div_mod::lemma_fundamental_div_mod_converse(
            -n,
            u,
            -w - 1,
            u - r,
        );
        assert((-w - 1) * u == -((w + 1) * u)) by (nonlinear_arith);
    } else {
        assert(-n == u * (-w)) by (nonlinear_arith)
            requires
                n == u * w,
        ;
        vstd::arithmetic::div_mod::lemma_fundamental_div_mod_converse(-n, u, -w, 0);
        assert((-w) * u == -(w * u)) by (nonlinear_arith);
    }
}

/// There is a number of `a * 2^(x-1)` units.
proof fn lemma_assemblable(a: nat, x: nat) -> (r: Number)
    requires
        0 < a < 2 * STEP,
        1 <= x <= 2046,
        a * power2::pow2((x - 1) as nat) >= STEP,
    ensures
        !r.negative(),
        !r.is_nan(),
        r.size() == a * power2::pow2((x - 1) as nat),
    decreases x,
{
    if a >= STEP {
        lemma_assembled(x, (a - STEP) as nat);
        assert(STEP * x + (a - STEP) < INFINITE) by (nonlinear_arith)
            requires
                x <= 2046,
                a < 2 * STEP,
                STEP == 0x0010_0000_0000_0000,
                INFINITE == 0x7ff0_0000_0000_0000,
        ;
        let r = Number { bits: (STEP * x + (a - STEP)) as u64 };
        assert(r.magnitude() == STEP * x + (a - STEP));
        r
    } else {
        power2::lemma2_to64();
        assert(x > 1) by {
            assert(a * 1 == a);
        }
        power2::lemma_pow2_unfold((x - 1) as nat);
        let y = power2::pow2((x - 2) as nat);
        assert((2 * a) * y == a * (2 * y)) by (nonlinear_arith);
        lemma_assemblable(2 * a, (x - 1) as nat)
    }
}

/// Every count of `2^53`ths below one is a number.
pub proof fn lemma_fraction(v: nat)
    requires
        v < 2 * STEP,
    ensures
        Number::fraction(v).is_fraction(v),
{
    if v == 0 {
        let zero = Number { bits: 0 };
        assert(0 * unit() == 0);
        assert(zero.is_fraction(v));
    } else {
        power2::lemma_pow2_adds(53, 1021);
        power2::lemma2_to64_rest();
        power2::lemma_pow2_strictly_increases(52, 1021);
        let h = power2::pow2(1021);
        assert(v * h >= STEP) by (nonlinear_arith)
            requires
                v >= 1,
                h > STEP,
        ;
        let r = lemma_assemblable(v, 1022);
        assert((v * h) * (2 * STEP) == v * (2 * STEP * h)) by (nonlinear_arith);
        assert(r.is_fraction(v));
    }
}

/// `v * 2^(e-1)` units.
fn assemble(v: u64, e: u64) -> (r: Number)
    requires
        0 < v < 2 * STEP,
        54 <= e <= 2046,
    ensures
        !r.negative(),
        !r.is_nan(),
        r.size() == v * power2::pow2((e - 1) as nat),
{
    let mut a = v;
    let mut x = e;
    proof {
        power2::lemma2_to64();
    }
    let ghost mut j: nat = 0;
    while a < STEP
        invariant
            0 < v < 2 * STEP,
            54 <= e <= 2046,
            0 < a < 2 * STEP,
            x == e - j,
            j <= 52,
            a == v * power2::pow2(j),
            a * power2::pow2((x - 1) as nat) == v * power2::pow2((e - 1) as nat),
        decreases x,
    {
        proof {
            if j == 52 {
                power2::lemma2_to64_rest();
                assert(v * power2::pow2(j) >= STEP) by (nonlinear_arith)
                    requires
                        v >= 1,
                        power2::pow2(j) == STEP,
                ;
            }
            power2::lemma_pow2_unfold(j + 1);
            power2::lemma_pow2_unfold((x - 1) as nat);
            assert(2 * a == v * (2 * power2::pow2(j))) by (nonlinear_arith)
                requires
                    a == v * power2::pow2(j),
            ;
            let y = power2::pow2((x - 2) as nat);
            assert((2 * a) * y == a * (2 * y)) by (nonlinear_arith);
            j = j + 1;
        }
        a = 2 * a;
        x = x - 1;
    }
    proof {
        lemma_assembled(x as nat, (a - STEP) as nat);
        assert(STEP * x + (a - STEP) < INFINITE) by (nonlinear_arith)
            requires
                x <= 2046,
                a < 2 * STEP,
                STEP == 0x0010_0000_0000_0000,
                INFINITE == 0x7ff0_0000_0000_0000,
        ;
    }
    Number { bits: STEP * x + (a - STEP) }
}

/// Small whole numbers are not rounded.
pub proof fn lemma_rounded_small(n: nat)
    requires
        n <= 2 * STEP,
    ensures
        rounded(n) == n,
{
    power2::lemma2_to64();
    if n == 2 * STEP {
        assert(excess(STEP as nat) == 0);
        assert(excess(n) == 1);
    } else {
        assert(excess(n) == 0);
    }
    assert(rounded(n) == n);
}

impl Number {
    /// The largest whole number not above this one.
    pub fn floor(self) -> (r: Number)
        ensures
            self.floors_to(r),
            r == self.floored(),
    {
        let r = self.rounded_down();
        proof {
            assert(self.floors_to(self.floored()));
            if !self.is_nan() {
                lemma_determined(r, self.floored());
            }
        }
        r
    }

    /// The smallest whole number not below this one.
    pub fn ceil(self) -> (r: Number)
        ensures
            r == self.ceiled(),
    {
        self.negate().floor().negate()
    }

    fn rounded_down(self) -> (r: Number)
        ensures
            self.floors_to(r),
    {
        let m = self.magnitude_bits();
        if m > INFINITE {
            return self;
        }
        let sign = self.bits - m;
        let (w, fractional) = self.split();
        let ghost whole = self.size() / unit();
        proof {
            power2::lemma_pow2_pos(1074);
            lemma_floor_units(self.size(), whole, fractional);
            lemma_units_increase(0, m as nat);
            lemma_whole_part(self.size());
            vstd::arithmetic::div_mod::lemma_fundamental_div_mod(
                self.size() as int,
                unit() as int,
            );
        }
        if !fractional {
            assert(unit() * whole == whole * unit()) by (nonlinear_arith);
            return self;
        }
        if w == 0 {
            proof {
                assert(0 * unit() == 0);
                assert(1 * unit() == unit());
                lemma_assembled(1023, 0);
                power2::lemma_pow2_adds(52, 1022);
                power2::lemma2_to64_rest();
            }
            if self.is_negative() {
                return Number { bits: 0xbff0_0000_0000_0000 };
            }
            return Number { bits: 0 };
        }
        let e = m / STEP;
        let ghost a = (STEP + m % STEP) as nat;
        proof {
            if m < STEP {
                power2::lemma_pow2_strictly_increases(52, 1074);
                power2::lemma2_to64_rest();
                vstd::arithmetic::div_mod::lemma_basic_div(m as int, unit() as int);
            }
            lemma_fields(m as nat);
            lemma_split(a, e as nat);
            if e < 1023 {
                power2::lemma2_to64_rest();
                if e < 1022 {
                    power2::lemma_pow2_strictly_increases(53, (1075 - e) as nat);
                }
                vstd::arithmetic::div_mod::lemma_basic_div(a as int, power2::pow2((1075 - e) as nat) as int);
            }
            assert(1023 <= e < 1075);
        }
        let k = 1075 - e;
        let p = 1u64 << k;
        proof {
            vstd::bits::lemma_u64_pow2_no_overflow(k as nat);
            vstd::bits::lemma_u64_shl_is_mul(1, k);
            assert(1 * power2::pow2(k as nat) == power2::pow2(k as nat));
            if k < 52 {
                power2::lemma_pow2_strictly_increases(k as nat, 52);
            }
            power2::lemma2_to64_rest();
            lemma_cleared(m as nat, k as nat);
            let q = power2::pow2((e - 1) as nat);
            assert(((a / (p as nat)) * p) * q == whole * (q * p)) by (nonlinear_arith)
                requires
                    whole == a / (p as nat),
            ;
            assert(((a / (p as nat) + 1) * p) * q == (whole + 1) * (q * p)) by (nonlinear_arith)
                requires
                    whole == a / (p as nat),
            ;
            assert(m as int / STEP as int * STEP <= m);
        }
        let low = m % p;
        if self.is_negative() {
            assert(m - low + p < INFINITE);
            Number { bits: sign + (m - low + p) }
        } else {
            Number { bits: sign + (m - low) }
        }
    }

    /// The number nearest to a whole number, ties to even.
    pub fn from_u64(n: u64) -> (r: Number)
        ensures
            r.is_nearest(n as nat),
            r == Number::whole(n as nat),
            n <= 2 * STEP ==> r.value() == n * unit(),
    {
        let r = Number::nearest(n);
        proof {
            if n <= 2 * STEP {
                lemma_rounded_small(n as nat);
            }
            assert(Number::whole(n as nat).is_nearest(n as nat));
            lemma_determined(r, Number::whole(n as nat));
        }
        r
    }

    fn nearest(n: u64) -> (r: Number)
        ensures
            r.is_nearest(n as nat),
    {
        proof {
            power2::lemma2_to64();
        }
        if n == 0 {
            assert(rounded(0) == 0) by {
                lemma_rounded_small(0);
            }
            assert(0 * unit() == 0);
            return Number { bits: 0 };
        }
        let mut q = n;
        let mut p: u64 = 1;
        let mut k: u64 = 0;
        proof {
            assert(n as nat / power2::pow2(0) == n);
        }
        while q >= 2 * STEP
            invariant
                0 < n,
                0 < q,
                k <= 11,
                p == power2::pow2(k as nat),
                p <= 2048,
                q == n as nat / p as nat,
                excess(n as nat) == k + excess(q as nat),
                q * p <= n,
            decreases q,
        {
            proof {
                power2::lemma2_to64();
                if k >= 11 {
                    assert(q * p >= 2 * STEP * 2048) by (nonlinear_arith)
                        requires
                            q >= 2 * STEP,
                            p == 2048,
                    ;
                }
                power2::lemma_pow2_unfold((k + 1) as nat);
                vstd::arithmetic::div_mod::lemma_div_denominator(n as int, p as int, 2);
                assert((q / 2) * (2 * p) <= q * p) by (nonlinear_arith)
                    requires
                        p >= 0,
                ;
                assert(p <= 1024) by {
                    if k < 10 {
                        power2::lemma_pow2_strictly_increases(k as nat, 10);
                    }
                }
            }
            q = q / 2;
            p = 2 * p;
            k = k + 1;
        }
        let r = n % p;
        if 2 * r > p || (2 * r == p && q % 2 == 1) {
            q = q + 1;
        }
        proof {
            assert(q * p == rounded(n as nat));
            power2::lemma_pow2_adds(k as nat, 1074);
            assert(q * (p * unit()) == (q * p) * unit()) by (nonlinear_arith);
        }
        if q == 2 * STEP {
            proof {
                power2::lemma_pow2_unfold((1075 + k) as nat);
                assert(STEP * (2 * (p * unit())) == q * (p * unit())) by (nonlinear_arith)
                    requires
                        q == 2 * STEP,
                ;
            }
            assemble(STEP, 1076 + k)
        } else {
            assemble(q, 1075 + k)
        }
    }

    /// `v / 2^53`.
    pub fn from_fraction(v: u64) -> (r: Number)
        requires
            v < 2 * STEP,
        ensures
            r.is_fraction(v as nat),
            r == Number::fraction(v as nat),
    {
        let r = Number::scaled(v);
        proof {
            let f = Number::fraction(v as nat);
            assert(f.is_fraction(v as nat));
            assert(r.value() == f.value()) by (nonlinear_arith)
                requires
                    r.value() * (2 * STEP) == f.value() * (2 * STEP),
            ;
            lemma_determined(r, f);
        }
        r
    }

    fn scaled(v: u64) -> (r: Number)
        requires
            v < 2 * STEP,
        ensures
            r.is_fraction(v as nat),
    {
        if v == 0 {
            assert(0 * unit() == 0);
            assert(0 * (2 * STEP) == 0);
            return Number { bits: 0 };
        }
        proof {
            power2::lemma_pow2_adds(53, 1021);
            power2::lemma2_to64_rest();
            let h = power2::pow2(1021);
            assert((v * h) * (2 * STEP) == v * (2 * STEP * h)) by (nonlinear_arith);
        }
        assemble(v, 1022)
    }

    /// Whether the number lies between zero and `high`.
    pub fn is_within(self, high: u64) -> (r: bool)
        requires
            high <= STEP,
        ensures
            r == self.within(0, high as int),
    {
        let zero = Number { bits: 0 };
        let top = Number::from_u64(high);
        assert(0 * unit() == 0);
        !self.nan() && !self.less(zero) && !top.less(self)
    }
}

/// Of two numbers exactly one is below the other or both have one value; the
/// order is transitive.
pub proof fn lemma_order(a: Number, b: Number, c: Number)
    requires
        !a.is_nan(),
        !b.is_nan(),
        !c.is_nan(),
    ensures
        a.below(b) || a.same_value(b) || b.below(a),
        !(a.below(b) && b.below(a)),
        !(a.below(b) && a.same_value(b)),
        a.below(b) && b.below(c) ==> a.below(c),
        a.same_value(b) && b.below(c) ==> a.below(c),
{
}

/// Negating twice changes nothing, and negating turns the order round.
pub proof fn lemma_negated(a: Number, b: Number)
    ensures
        a.negated().negated() == a,
        a.negated().value() == -a.value(),
        a.negated().is_nan() == a.is_nan(),
        a.below(b) == b.negated().below(a.negated()),
{
    assert(a.negated().magnitude() == a.magnitude());
    assert(b.negated().magnitude() == b.magnitude());
}

/// The whole number that `floor` gives is at most the number and within one
/// of it.
pub proof fn lemma_floor_close(x: Number, r: Number)
    requires
        !x.is_nan(),
        x.floors_to(r),
    ensures
        r.value() <= x.value() < r.value() + unit(),
        r.value() % (unit() as int) == 0,
{
    power2::lemma_pow2_pos(1074);
    let u = unit() as int;
    vstd::arithmetic::div_mod::lemma_fundamental_div_mod(x.value(), u);
    vstd::arithmetic::div_mod::lemma_mod_multiples_basic(x.value() / u, u);
    assert((x.value() / u) * u == u * (x.value() / u)) by (nonlinear_arith);
}

/// A whole number up to two to the power 53 truncates to itself.
pub proof fn lemma_whole_truncates(n: nat, x: Number)
    requires
        n <= 2 * STEP,
        x.is_nearest(n),
    ensures
        x.truncated() == n,
        x.saturated(0, u64::MAX as int) == n,
        x.size() % unit() == 0,
        x.size() / unit() == n,
{
    lemma_rounded_small(n);
    power2::lemma_pow2_pos(1074);
    vstd::arithmetic::div_mod::lemma_div_by_multiple(n as int, unit() as int);
    vstd::arithmetic::div_mod::lemma_mod_multiples_basic(n as int, unit() as int);
}

/// There is a number of `n` for every whole number of up to 53 bits.
proof fn lemma_count(n: nat) -> (r: Number)
    requires
        n <= 2 * STEP,
    ensures
        !r.negative(),
        !r.is_nan(),
        r.value() == n * unit(),
{
    power2::lemma_pow2_strictly_increases(52, 1074);
    power2::lemma2_to64_rest();
    let u = power2::pow2(1074);
    if n == 0 {
        assert(0 * u == 0);
        Number { bits: 0 }
    } else if n < 2 * STEP {
        assert(n * u >= STEP) by (nonlinear_arith)
            requires
                n >= 1,
                u > STEP,
        ;
        lemma_assemblable(n, 1075)
    } else {
        power2::lemma_pow2_unfold(1075);
        let v = power2::pow2(1075);
        assert(STEP * v >= STEP) by (nonlinear_arith)
            requires
                v >= 1,
        ;
        assert(STEP * v == n * u) by (nonlinear_arith)
            requires
                v == 2 * u,
                n == 2 * STEP,
        ;
        lemma_assemblable(STEP as nat, 1076)
    }
}

/// The number of a whole number of up to 53 bits is that number.
pub proof fn lemma_whole(n: nat)
    requires
        n <= 2 * STEP,
    ensures
        Number::whole(n).value() == n * unit(),
        !Number::whole(n).is_nan(),
        !Number::whole(n).negative(),
{
    let r = lemma_count(n);
    lemma_rounded_small(n);
    assert(r.is_nearest(n));
}

/// The floor of a number is the largest whole number that is not above it: it
/// is at most the number and less than one below it.
pub proof fn lemma_floored(x: Number)
    requires
        !x.is_nan(),
    ensures
        x.floors_to(x.floored()),
        !x.floored().is_nan(),
        x.floored().negative() == x.negative(),
        x.floored().value() <= x.value() < x.floored().value() + unit(),
        x.floored().value() % (unit() as int) == 0,
{
    let n = x.size();
    let w = n / unit();
    let m = x.magnitude();
    let fractional = n % unit() != 0;
    power2::lemma_pow2_pos(1074);
    lemma_floor_units(n, w, fractional);
    vstd::arithmetic::div_mod::lemma_fundamental_div_mod(n as int, unit() as int);
    lemma_whole_part(n);
    if !fractional {
        assert(unit() * w == w * unit()) by (nonlinear_arith);
        assert(x.floors_to(x));
    } else {
        power2::lemma_pow2_strictly_increases(52, 1074);
        power2::lemma2_to64_rest();
        if m < STEP {
            vstd::arithmetic::div_mod::lemma_basic_div(m as int, unit() as int);
        } else {
            lemma_fields(m);
            let e = m / (STEP as nat);
            let a = (STEP + m % (STEP as nat)) as nat;
            lemma_split(a, e);
            let p = power2::pow2((1075 - e) as nat);
            vstd::arithmetic::div_mod::lemma_div_is_ordered_by_denominator(a as int, 1, p as int);
            assert(a as int / 1 == a);
        }
        let v = if x.negative() {
            w + 1
        } else {
            w
        };
        let r = lemma_count(v);
        lemma_negated(r, r);
        if x.negative() {
            assert(r.negated().magnitude() == r.magnitude());
            assert(x.floors_to(r.negated()));
        } else {
            assert(x.floors_to(r));
        }
    }
    lemma_floor_close(x, x.floored());
}

/// The ceiling of a number is the smallest whole number that is not below it.
pub proof fn lemma_ceiled(x: Number)
    requires
        !x.is_nan(),
    ensures
        !x.ceiled().is_nan(),
        x.ceiled().value() - unit() < x.value() <= x.ceiled().value(),
        x.ceiled().value() % (unit() as int) == 0,
{
    let y = x.negated();
    lemma_negated(x, x);
    lemma_floored(y);
    lemma_negated(y.floored(), y.floored());
    let u = unit() as int;
    power2::lemma_pow2_pos(1074);
    let v = y.floored().value();
    vstd::arithmetic::div_mod::lemma_fundamental_div_mod(v, u);
    assert(-v == u * (-(v / u))) by (nonlinear_arith)
        requires
            v == u * (v / u),
    ;
    vstd::arithmetic::div_mod::lemma_fundamental_div_mod_converse(-v, u, -(v / u), 0);
}

/// Truncating goes to the whole number next to a number, towards zero.
pub proof fn lemma_truncated(x: Number)
    requires
        !x.is_nan(),
    ensures
        x.value() >= 0 ==> 0 <= x.truncated() * unit() <= x.value() < (x.truncated() + 1) * unit(),
        x.value() <= 0 ==> (x.truncated() - 1) * unit() < x.value() <= x.truncated() * unit() <= 0,
{
    let u = unit() as int;
    power2::lemma_pow2_pos(1074);
    let n = x.size() as int;
    vstd::arithmetic::div_mod::lemma_fundamental_div_mod(n, u);
    vstd::arithmetic::div_mod::lemma_mod_bound(n, u);
    lemma_whole_part(x.size());
    let q = n / u;
    assert(0 <= q * u <= n < (q + 1) * u) by (nonlinear_arith)
        requires
            n == u * q + n % u,
            0 <= n % u < u,
            q >= 0,
    ;
    assert((-q) * u == -(q * u) && (-q - 1) * u == -((q + 1) * u)) by (nonlinear_arith);
    if n == 0 {
        assert(q == 0) by (nonlinear_arith)
            requires
                0 <= q * u <= 0,
                u > 0,
        ;
    }
}

/// Saturating truncates, and goes to the end of the range that the number is
/// beyond; what is not a number counts as zero.
pub proof fn lemma_saturated(x: Number, low: int, high: int)
    requires
        low <= 0 <= high,
    ensures
        x.is_nan() ==> x.saturated(low, high) == 0,
        !x.is_nan() && x.truncated() < low ==> x.saturated(low, high) == low,
        !x.is_nan() && low <= x.truncated() <= high ==> x.saturated(low, high) == x.truncated(),
        !x.is_nan() && x.truncated() > high ==> x.saturated(low, high) == high,
{
}

/// The scale of the numbers: up to two to the power 53 units each magnitude is
/// one unit, and from there each step of the exponent doubles. One is the
/// magnitude with exponent 1023.
pub proof fn lemma_scale(m: nat)
    ensures
        m < 2 * STEP ==> units(m) == m,
        m >= STEP ==> units((m + STEP) as nat) == 2 * units(m),
        Number::truth(true).value() == unit(),
        Number::truth(false).value() == 0,
{
    let s = STEP as nat;
    if m >= s {
        let e = m / s;
        let f = m % s;
        vstd::arithmetic::div_mod::lemma_fundamental_div_mod(m as int, s as int);
        assert(e >= 1) by (nonlinear_arith)
            requires
                m == s * e + f,
                f < s,
                m >= s,
        ;
        vstd::arithmetic::div_mod::lemma_fundamental_div_mod_converse(
            (m + s) as int,
            s as int,
            (e + 1) as int,
            f as int,
        );
        power2::lemma_pow2_unfold(e);
        let q = power2::pow2((e - 1) as nat);
        assert((s + f) * (2 * q) == 2 * ((s + f) * q)) by (nonlinear_arith);
        if m < 2 * s {
            assert(e == 1) by (nonlinear_arith)
                requires
                    m == s * e + f,
                    m < 2 * s,
                    e >= 1,
                    f >= 0,
            ;
            power2::lemma2_to64();
        }
    }
    lemma_assembled(1023, 0);
    power2::lemma_pow2_adds(52, 1022);
    power2::lemma2_to64_rest();
}

/// The absolute value has the same size and no sign.
pub proof fn lemma_absolute(x: Number)
    ensures
        x.absolute().is_nan() == x.is_nan(),
        !x.absolute().negative(),
        x.value() >= 0 ==> x.absolute().value() == x.value(),
        x.value() <= 0 ==> x.absolute().value() == -x.value(),
{
    assert(x.absolute().magnitude() == x.magnitude());
}

/// A whole number is rounded to the nearest multiple of the power of two that
/// leaves it 53 bits, to the even one of two that are as near.
pub proof fn lemma_rounded(n: nat)
    ensures
        ({
            let p = power2::pow2(excess(n)) as int;
            let r = rounded(n) as int;
            &&& p > 0
            &&& n / (p as nat) < 2 * STEP
            &&& excess(n) > 0 ==> n / (p as nat) >= STEP
            &&& r % p == 0
            &&& -p <= 2 * (r - n) <= p
            &&& 2 * (r - n) == p || 2 * (n - r) == p ==> (r / p) % 2 == 0
        }),
{
    lemma_excess(n);
    let p = power2::pow2(excess(n)) as int;
    power2::lemma_pow2_pos(excess(n));
    let q = n as int / p;
    let d = n as int % p;
    vstd::arithmetic::div_mod::lemma_fundamental_div_mod(n as int, p);
    vstd::arithmetic::div_mod::lemma_mod_bound(n as int, p);
    assert(q * p == p * q && (q + 1) * p == p * q + p) by (nonlinear_arith);
    let k = rounded(n) as int / p;
    vstd::arithmetic::div_mod::lemma_mod_multiples_basic(q, p);
    vstd::arithmetic::div_mod::lemma_mod_multiples_basic(q + 1, p);
    vstd::arithmetic::div_mod::lemma_div_by_multiple(q, p);
    vstd::arithmetic::div_mod::lemma_div_by_multiple(q + 1, p);
}

/// The halvings that bring a number under 53 bits, and no more.
proof fn lemma_excess(n: nat)
    ensures
        n / power2::pow2(excess(n)) < 2 * STEP,
        excess(n) > 0 ==> n / power2::pow2(excess(n)) >= STEP,
    decreases n,
{
    power2::lemma2_to64();
    if n >= 2 * STEP {
        lemma_excess(n / 2);
        let k = excess(n / 2);
        power2::lemma_pow2_pos(k);
        power2::lemma_pow2_unfold(k + 1);
        vstd::arithmetic::div_mod::lemma_div_denominator(n as int, 2, power2::pow2(k) as int);
        if k == 0 {
            assert(power2::pow2(0) == 1);
        }
    }
}

/// The order of two numbers is that of their values, and so is their equality;
/// what is not a number has neither. A number is within a range where it is not
/// below its lower end and not above its upper end.
pub proof fn lemma_compared(x: Number, y: Number, low: int, high: int)
    ensures
        x.below(y) <==> !x.is_nan() && !y.is_nan() && x.value() < y.value(),
        x.same_value(y) <==> !x.is_nan() && !y.is_nan() && x.value() == y.value(),
        x.within(low, high) <==> !x.is_nan() && low * unit() <= x.value() && x.value() <= high
            * unit(),
        x.is_nan() <==> x.bits % 0x8000_0000_0000_0000 > 0x7ff0_0000_0000_0000,
        x.is_infinite() <==> x.bits % 0x8000_0000_0000_0000 == 0x7ff0_0000_0000_0000,
        x.negative() <==> x.bits >= 0x8000_0000_0000_0000,
        x.value() == (if x.negative() {
            -(units((x.bits % 0x8000_0000_0000_0000) as nat) as int)
        } else {
            units((x.bits % 0x8000_0000_0000_0000) as nat) as int
        }),
        unit() == power2::pow2(1074),
{
}

} // verus!
