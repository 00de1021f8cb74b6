//! The built-in functions and the environment that programs run in.

use vstd::prelude::*;
use vstd::arithmetic::power2;

use crate::calculator;
use crate::calculator::{Arithmetic, Calculator, Function};
use crate::env;
use crate::env::{Called, CalledView, Env, EnvView, UserFn, UserFnView};
use crate::fp_format;
use crate::number;
use crate::number::Number;
use crate::table::{Names, Table};
use crate::text;
use crate::value;
use crate::value::{Value, ValueView};

verus! {

/// The bits of `PI`.
pub const PI: u64 = 0x4009_21fb_5444_2d18;

/// The bits of one.
pub const ONE: u64 = 0x3ff0_0000_0000_0000;

/// The bits of minus one.
pub const MINUS_ONE: u64 = 0xbff0_0000_0000_0000;

/// The step of the random numbers and their first state.
pub const SEED: u64 = 0x9e37_79b9_7f4a_7c15;

/// The state of the random numbers behind `seed`.
pub open spec fn advanced(seed: u64) -> u64 {
    seed.wrapping_add(SEED)
}

/// The bits that a state of the random numbers gives.
pub open spec fn scrambled(state: u64) -> u64 {
    let a = (state ^ (state >> 30)).wrapping_mul(0xbf58_476d_1ce4_e5b9);
    let b = (a ^ (a >> 27)).wrapping_mul(0x94d0_49bb_1331_11eb);
    b ^ (b >> 31)
}

/// The random number that a state gives.
pub open spec fn random(state: u64) -> Number {
    Number::fraction((scrambled(state) >> 11) as nat)
}

/// The sign of a number as a number.
pub open spec fn sign(x: Number) -> Number {
    if Number::truth(false).below(x) {
        Number { bits: ONE }
    } else if x.below(Number::truth(false)) {
        Number { bits: MINUS_ONE }
    } else {
        Number { bits: 0 }
    }
}

/// The character code that a number stands for.
pub open spec fn char_code(x: Number) -> u8 {
    (x.saturated(i64::MIN as int, i64::MAX as int) % 256) as u8
}

/// The function that the calculator works out for a name.
pub open spec fn worked_out(name: Seq<char>) -> Option<Function> {
    if name == "SIN"@ {
        Some(Function::Sine)
    } else if name == "COS"@ {
        Some(Function::Cosine)
    } else if name == "TAN"@ {
        Some(Function::Tangent)
    } else if name == "ASN"@ {
        Some(Function::ArcSine)
    } else if name == "ACS"@ {
        Some(Function::ArcCosine)
    } else if name == "ATN"@ {
        Some(Function::ArcTangent)
    } else if name == "LN"@ {
        Some(Function::NaturalLog)
    } else if name == "EXP"@ {
        Some(Function::Exponential)
    } else if name == "SQR"@ {
        Some(Function::SquareRoot)
    } else {
        None
    }
}

/// A function of a number.
pub open spec fn of_number(name: Seq<char>, x: Number, ar: Arithmetic) -> Option<ValueView> {
    if worked_out(name) is Some {
        Some(ValueView::Num((ar.apply)(worked_out(name)->0, x)))
    } else if name == "INT"@ {
        Some(ValueView::Num(x.floored()))
    } else if name == "ABS"@ {
        Some(ValueView::Num(x.absolute()))
    } else if name == "SGN"@ {
        Some(ValueView::Num(sign(x)))
    } else if name == "CHR$"@ {
        Some(ValueView::Str(seq![char_code(x)]))
    } else if name == "STR$"@ {
        Some(ValueView::Str(vstd::utf8::encode_utf8(fp_format::formatted(x, ar))))
    } else {
        None
    }
}

/// A function of a string.
pub open spec fn of_string(name: Seq<char>, s: Seq<u8>) -> Option<CalledView> {
    if name == "LEN"@ {
        Some(CalledView::Value(ValueView::Num(Number::whole(s.len()))))
    } else if name == "CODE"@ {
        let code = if s.len() == 0 {
            0
        } else {
            s[0]
        };
        Some(CalledView::Value(ValueView::Num(Number::whole(code as nat))))
    } else if name == "VAL"@ && vstd::utf8::valid_utf8(s) {
        Some(CalledView::Evaluate(vstd::utf8::decode_utf8(s)))
    } else {
        None
    }
}

/// The answer to a call of a built-in function and the state of the random
/// numbers after it.
pub open spec fn builtin(name: Seq<char>, args: Seq<ValueView>, seed: u64, ar: Arithmetic) -> (
    Option<CalledView>,
    u64,
) {
    if args.len() == 0 && name == "PI"@ {
        (Some(CalledView::Value(ValueView::Num(Number { bits: PI }))), seed)
    } else if args.len() == 0 && name == "RND"@ {
        let after = advanced(seed);
        (Some(CalledView::Value(ValueView::Num(random(after)))), after)
    } else if args.len() == 1 {
        match args[0] {
            ValueView::Num(x) => (
                match of_number(name, x, ar) {
                    Some(v) => Some(CalledView::Value(v)),
                    None => None,
                },
                seed,
            ),
            ValueView::Str(s) => (of_string(name, s), seed),
        }
    } else {
        (None, seed)
    }
}

/// An element of an array; arrays count from one.
pub open spec fn element(arrays: Names<Seq<Number>>, name: Seq<char>, index: Number) -> Option<
    ValueView,
> {
    let i = index.saturated(i64::MIN as int, i64::MAX as int);
    if arrays.contains_key(name) && 1 <= i <= arrays[name].len() {
        Some(ValueView::Num(arrays[name][i - 1]))
    } else {
        None
    }
}

/// The lookups of a program with these variables, arrays and functions.
pub open spec fn lookups(
    vars: Names<ValueView>,
    arrays: Names<Seq<Number>>,
    fns: Names<UserFnView>,
    ar: Arithmetic,
) -> EnvView {
    EnvView {
        var: |name: Seq<char>|
            if vars.contains_key(name) {
                Some(vars[name])
            } else {
                None
            },
        element: |name: Seq<char>, index: Number| element(arrays, name, index),
        user_fn: |name: Seq<char>|
            if fns.contains_key(name) {
                Some(fns[name])
            } else {
                None
            },
        call: |name: Seq<char>, args: Seq<ValueView>, seed: u64| builtin(name, args, seed, ar),
    }
}

/// A random number is at least zero and below one.
pub proof fn lemma_random_range(state: u64)
    ensures
        !random(state).is_nan(),
        0 <= random(state).value() < number::unit(),
{
    let z = scrambled(state);
    let v = (z >> 11) as nat;
    assert(z >> 11 < 0x20_0000_0000_0000) by (bit_vector);
    number::lemma_fraction(v);
    power2::lemma_pow2_pos(1074);
    let r = random(state).value();
    let u = number::unit();
    assert(0 <= r < u) by (nonlinear_arith)
        requires
            r * 0x20_0000_0000_0000 == v * u,
            0 <= v < 0x20_0000_0000_0000,
            u > 0,
    ;
}

/// The next random number; `state` moves on.
pub fn rnd_next(state: &mut u64) -> (r: Number)
    ensures
        *final(state) == advanced(*old(state)),
        r == random(*final(state)),
{
    let s = state.wrapping_add(SEED);
    *state = s;
    let a = (s ^ (s >> 30)).wrapping_mul(0xbf58_476d_1ce4_e5b9);
    let b = (a ^ (a >> 27)).wrapping_mul(0x94d0_49bb_1331_11eb);
    let z = b ^ (b >> 31);
    assert(z >> 11 < 0x20_0000_0000_0000) by (bit_vector);
    Number::from_fraction(z >> 11)
}

/// The variables, arrays and functions of a running program.
pub struct SysEnv<'a, C: Calculator> {
    pub vars: &'a Table<Value>,
    pub arrays: &'a Table<Vec<Number>>,
    pub user_fns: &'a Table<UserFn>,
    pub calc: &'a C,
}

fn function_named(name: &str) -> (r: Option<Function>)
    ensures
        r == worked_out(name@),
{
    if text::same(name, "SIN") {
        Some(Function::Sine)
    } else if text::same(name, "COS") {
        Some(Function::Cosine)
    } else if text::same(name, "TAN") {
        Some(Function::Tangent)
    } else if text::same(name, "ASN") {
        Some(Function::ArcSine)
    } else if text::same(name, "ACS") {
        Some(Function::ArcCosine)
    } else if text::same(name, "ATN") {
        Some(Function::ArcTangent)
    } else if text::same(name, "LN") {
        Some(Function::NaturalLog)
    } else if text::same(name, "EXP") {
        Some(Function::Exponential)
    } else if text::same(name, "SQR") {
        Some(Function::SquareRoot)
    } else {
        None
    }
}

/// The character code that a number stands for.
fn to_char_code(x: Number) -> (r: u8)
    ensures
        r == char_code(x),
{
    let n = x.to_i64();
    if n >= 0 {
        (n as u64 % 256) as u8
    } else {
        let k = (-(n + 1)) as u64;
        (255 - k % 256) as u8
    }
}

fn call_on_number<C: Calculator>(name: &str, x: Number, calc: &C) -> (r: Option<Value>)
    ensures
        calculator::deterministic(*calc) ==> value::option_view(r) == of_number(
            name@,
            x,
            calculator::arithmetic(*calc),
        ),
{
    if let Some(f) = function_named(name) {
        return Some(Value::Num(calculator::apply(calc, f, x)));
    }
    if text::same(name, "INT") {
        Some(Value::Num(x.floor()))
    } else if text::same(name, "ABS") {
        Some(Value::Num(x.abs()))
    } else if text::same(name, "SGN") {
        let zero = Number { bits: 0 };
        Some(
            Value::Num(
                if zero.less(x) {
                    Number { bits: ONE }
                } else if x.less(zero) {
                    Number { bits: MINUS_ONE }
                } else {
                    zero
                },
            ),
        )
    } else if text::same(name, "CHR$") {
        let mut s: Vec<u8> = Vec::new();
        s.push(to_char_code(x));
        assert(s@ == seq![char_code(x)]);
        Some(Value::Str(s))
    } else if text::same(name, "STR$") {
        Some(Value::Str(fp_format::format(x, calc).as_str().as_bytes_vec()))
    } else {
        None
    }
}

fn call_on_string(name: &str, s: &Vec<u8>) -> (r: Option<Called>)
    ensures
        env::called_view(r) == of_string(name@, s@),
{
    if text::same(name, "LEN") {
        Some(Called::Value(Value::Num(Number::from_u64(s.len() as u64))))
    } else if text::same(name, "CODE") {
        let code = if s.len() == 0 {
            0
        } else {
            s[0]
        };
        Some(Called::Value(Value::Num(Number::from_u64(code as u64))))
    } else if text::same(name, "VAL") {
        match text::utf8_text(s.as_slice()) {
            Some(t) => Some(Called::Evaluate(t)),
            None => None,
        }
    } else {
        None
    }
}

impl<'a, C: Calculator> Env for SysEnv<'a, C> {
    open spec fn lawful(&self) -> bool {
        calculator::deterministic(*self.calc)
    }

    open spec fn model(&self) -> EnvView {
        lookups(self.vars@, self.arrays@, self.user_fns@, calculator::arithmetic(*self.calc))
    }

    fn get_var(&self, name: &str) -> (r: Option<Value>) {
        match self.vars.get(name) {
            Some(v) => Some(v.duplicate()),
            None => None,
        }
    }

    fn get_array(&self, name: &str, index: Number) -> (r: Option<Value>) {
        match self.arrays.get(name) {
            Some(a) => {
                let i = index.to_i64();
                if i < 1 || i as u64 > a.len() as u64 {
                    None
                } else {
                    Some(Value::Num(a[i as usize - 1]))
                }
            },
            None => None,
        }
    }

    fn get_user_fn(&self, name: &str) -> (r: Option<UserFn>) {
        match self.user_fns.get(name) {
            Some(f) => Some(
                UserFn {
                    param: String::from_str(f.param.as_str()),
                    body: String::from_str(f.body.as_str()),
                },
            ),
            None => None,
        }
    }

    fn call_fn(&self, name: &str, args: &[Value], seed: &mut u64) -> (r: Option<Called>) {
        proof {
            assert(env::values_view(args@).len() == args@.len());
            if args@.len() == 1 {
                assert(env::values_view(args@)[0] == args@[0]@);
            }
        }
        if args.len() == 0 {
            if text::same(name, "PI") {
                Some(Called::Value(Value::Num(Number { bits: PI })))
            } else if text::same(name, "RND") {
                Some(Called::Value(Value::Num(rnd_next(seed))))
            } else {
                None
            }
        } else if args.len() == 1 {
            match &args[0] {
                Value::Num(x) => match call_on_number(name, *x, self.calc) {
                    Some(v) => Some(Called::Value(v)),
                    None => None,
                },
                Value::Str(s) => call_on_string(name, s),
            }
        } else {
            None
        }
    }
}

} // verus!
