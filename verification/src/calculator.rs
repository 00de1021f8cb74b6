//! The host's floating-point unit.
//!
//! The interpreter decides which operation is due and on which numbers; a
//! `Calculator` works the operation out. Nothing is taken for granted of an
//! implementation: a contract that depends on results is stated over
//! `arithmetic`, the operations as functions, and holds of every calculator
//! whose results depend on the arguments alone.

use vstd::prelude::*;

use crate::number::Number;

verus! {

/// Operations on two numbers.
#[derive(Clone, Copy, Debug, PartialEq, Eq, Structural)]
pub enum Operation {
    Add,
    Subtract,
    Multiply,
    Divide,
    Power,
}

/// Functions of one number.
#[derive(Clone, Copy, Debug, PartialEq, Eq, Structural)]
pub enum Function {
    Sine,
    Cosine,
    Tangent,
    ArcSine,
    ArcCosine,
    ArcTangent,
    NaturalLog,
    Exponential,
    SquareRoot,
    /// The logarithm to base ten.
    DecimalLog,
    /// To the nearest whole number, halves away from zero.
    Round,
}

/// Rounded arithmetic on numbers.
pub trait Calculator {
    /// The result of `op` on `a` and `b`.
    fn operate(&self, op: Operation, a: Number, b: Number) -> Number;

    /// The value of `f` at `x`.
    fn apply(&self, f: Function, x: Number) -> Number;

    /// Ten to the power `n`.
    fn power_of_ten(&self, n: i32) -> Number;

    /// The number nearest to the decimal literal `text`: digits, then at most
    /// one point with digits behind it, then at most one exponent.
    fn literal(&self, text: &str) -> Number;

    /// `x` in decimal notation, rounded to `count` places after the point.
    fn places(&self, x: Number, count: usize) -> String;
}

/// The operations of a calculator as functions.
pub struct Arithmetic {
    pub operate: spec_fn(Operation, Number, Number) -> Number,
    pub apply: spec_fn(Function, Number) -> Number,
    pub power_of_ten: spec_fn(int) -> Number,
    pub literal: spec_fn(Seq<char>) -> Number,
    pub places: spec_fn(Number, nat) -> Seq<char>,
}

/// `r` is a result that `c.literal` can have for a text with these characters.
pub open spec fn reads<C: Calculator>(c: C, text: Seq<char>, r: Number) -> bool {
    exists|t: &str| t@ == text && #[trigger] call_ensures(C::literal, (&c, t), r)
}

/// `text` is a result that `c.places` can have.
pub open spec fn writes<C: Calculator>(c: C, x: Number, count: nat, text: Seq<char>) -> bool {
    exists|n: usize, t: String|
        n == count && t@ == text && #[trigger] call_ensures(C::places, (&c, x, n), t)
}

/// `r` is a result that `c.power_of_ten` can have.
pub open spec fn raises<C: Calculator>(c: C, n: int, r: Number) -> bool {
    exists|k: i32| k == n && #[trigger] call_ensures(C::power_of_ten, (&c, k), r)
}

/// The results of `c` depend on the arguments alone.
pub open spec fn deterministic<C: Calculator>(c: C) -> bool {
    &&& forall|op: Operation, a: Number, b: Number, r: Number, q: Number|
        #[trigger] call_ensures(C::operate, (&c, op, a, b), r) && #[trigger] call_ensures(
            C::operate,
            (&c, op, a, b),
            q,
        ) ==> r == q
    &&& forall|f: Function, x: Number, r: Number, q: Number|
        #[trigger] call_ensures(C::apply, (&c, f, x), r) && #[trigger] call_ensures(
            C::apply,
            (&c, f, x),
            q,
        ) ==> r == q
    &&& forall|n: int, r: Number, q: Number|
        #[trigger] raises(c, n, r) && #[trigger] raises(c, n, q) ==> r == q
    &&& forall|t: Seq<char>, r: Number, q: Number|
        #[trigger] reads(c, t, r) && #[trigger] reads(c, t, q) ==> r == q
    &&& forall|x: Number, n: nat, r: Seq<char>, q: Seq<char>|
        #[trigger] writes(c, x, n, r) && #[trigger] writes(c, x, n, q) ==> r == q
}

/// What the operations of `c` give.
pub open spec fn arithmetic<C: Calculator>(c: C) -> Arithmetic {
    Arithmetic {
        operate: |op: Operation, a: Number, b: Number|
            choose|r: Number| call_ensures(C::operate, (&c, op, a, b), r),
        apply: |f: Function, x: Number| choose|r: Number| call_ensures(C::apply, (&c, f, x), r),
        power_of_ten: |n: int| choose|r: Number| raises(c, n, r),
        literal: |t: Seq<char>| choose|r: Number| reads(c, t, r),
        places: |x: Number, n: nat| choose|t: Seq<char>| writes(c, x, n, t),
    }
}

/// Have `c` work out `op` on `a` and `b`.
pub fn operate<C: Calculator>(c: &C, op: Operation, a: Number, b: Number) -> (r: Number)
    ensures
        deterministic(*c) ==> r == (arithmetic(*c).operate)(op, a, b),
{
    let r = c.operate(op, a, b);
    assert(call_ensures(C::operate, (c, op, a, b), r));
    r
}

/// Have `c` work out `f` at `x`.
pub fn apply<C: Calculator>(c: &C, f: Function, x: Number) -> (r: Number)
    ensures
        deterministic(*c) ==> r == (arithmetic(*c).apply)(f, x),
{
    let r = c.apply(f, x);
    assert(call_ensures(C::apply, (c, f, x), r));
    r
}

/// Have `c` raise ten to the power `n`.
pub fn power_of_ten<C: Calculator>(c: &C, n: i32) -> (r: Number)
    ensures
        deterministic(*c) ==> r == (arithmetic(*c).power_of_ten)(n as int),
{
    let r = c.power_of_ten(n);
    assert(call_ensures(C::power_of_ten, (c, n), r));
    assert(raises(*c, n as int, r));
    r
}

/// Have `c` read the decimal literal `text`.
pub fn literal<C: Calculator>(c: &C, text: &str) -> (r: Number)
    ensures
        deterministic(*c) ==> r == (arithmetic(*c).literal)(text@),
{
    let r = c.literal(text);
    assert(call_ensures(C::literal, (c, text), r));
    assert(reads(*c, text@, r));
    r
}

/// Have `c` write `x` to `count` places.
pub fn places<C: Calculator>(c: &C, x: Number, count: usize) -> (r: String)
    ensures
        deterministic(*c) ==> r@ == (arithmetic(*c).places)(x, count as nat),
{
    let r = c.places(x, count);
    assert(call_ensures(C::places, (c, x, count), r));
    assert(writes(*c, x, count as nat, r@));
    r
}

/// The results of `c` are those that `ar` gives.
pub open spec fn follows<C: Calculator>(c: C, ar: Arithmetic) -> bool {
    &&& forall|op: Operation, a: Number, b: Number, r: Number| #[trigger]
        call_ensures(C::operate, (&c, op, a, b), r) ==> r == (ar.operate)(op, a, b)
    &&& forall|f: Function, x: Number, r: Number| #[trigger]
        call_ensures(C::apply, (&c, f, x), r) ==> r == (ar.apply)(f, x)
    &&& forall|n: int, r: Number| #[trigger] raises(c, n, r) ==> r == (ar.power_of_ten)(n)
    &&& forall|t: Seq<char>, r: Number| #[trigger] reads(c, t, r) ==> r == (ar.literal)(t)
    &&& forall|x: Number, n: nat, t: Seq<char>| #[trigger]
        writes(c, x, n, t) ==> t == (ar.places)(x, n)
}

/// A calculator whose results are given by functions is deterministic, and
/// every result that it can have is the one that `arithmetic` names.
pub proof fn lemma_functions_determine<C: Calculator>(c: C, ar: Arithmetic)
    requires
        follows(c, ar),
    ensures
        deterministic(c),
        forall|op: Operation, a: Number, b: Number, r: Number| #[trigger]
            call_ensures(C::operate, (&c, op, a, b), r) ==> (arithmetic(c).operate)(op, a, b)
                == (ar.operate)(op, a, b),
        forall|f: Function, x: Number, r: Number| #[trigger]
            call_ensures(C::apply, (&c, f, x), r) ==> (arithmetic(c).apply)(f, x) == (ar.apply)(
                f,
                x,
            ),
{
}

} // verus!
