//! What expressions evaluate to.

use vstd::prelude::*;

use crate::calculator;
use crate::calculator::{Arithmetic, Calculator, Operation};
use crate::env::{CalledView, Env, EnvView};
use crate::grammar;
use crate::grammar::{Mistake, Relation, Tree};
use crate::number::Number;
use crate::value::ValueView;

verus! {

/// How deep `VAL` and `FN` may nest. Each level evaluates a text of its own;
/// a call below the last level is answered like one of an unknown function.
/// Calls nest on the stack of the thread, which has an end. A level takes about
/// a kilobyte of it and every bracket some more, so that a thread's usual stack
/// holds these levels and not many others.
pub const NESTING: usize = 1000;

/// A parameter of a function with its argument.
pub struct Binding {
    pub name: Seq<char>,
    pub value: ValueView,
}

/// How two values of one type stand to each other.
#[derive(Clone, Copy, PartialEq, Eq, Structural)]
pub enum Standing {
    Below,
    Same,
    Above,
}

/// The order of two numbers; what is not a number counts as equal to all.
pub open spec fn number_standing(a: Number, b: Number) -> Standing {
    if a.below(b) {
        Standing::Below
    } else if b.below(a) {
        Standing::Above
    } else {
        Standing::Same
    }
}

/// The order of two strings by their first differing byte.
pub open spec fn bytes_standing(a: Seq<u8>, b: Seq<u8>) -> Standing
    decreases a.len(),
{
    if a.len() == 0 {
        if b.len() == 0 {
            Standing::Same
        } else {
            Standing::Below
        }
    } else if b.len() == 0 {
        Standing::Above
    } else if a[0] < b[0] {
        Standing::Below
    } else if a[0] > b[0] {
        Standing::Above
    } else {
        bytes_standing(a.drop_first(), b.drop_first())
    }
}

/// Whether values that stand like this are in the relation.
pub open spec fn holds(relation: Relation, s: Standing) -> bool {
    match relation {
        Relation::Equal => s is Same,
        Relation::NotEqual => !(s is Same),
        Relation::Less => s is Below,
        Relation::Greater => s is Above,
        Relation::AtMost => !(s is Above),
        Relation::AtLeast => !(s is Below),
    }
}

/// The result of a comparison.
pub open spec fn compared(relation: Relation, a: ValueView, b: ValueView) -> Result<
    ValueView,
    Mistake,
> {
    match (a, b) {
        (ValueView::Num(x), ValueView::Num(y)) => Ok(
            ValueView::Num(Number::truth(holds(relation, number_standing(x, y)))),
        ),
        (ValueView::Str(x), ValueView::Str(y)) => Ok(
            ValueView::Num(Number::truth(holds(relation, bytes_standing(x, y)))),
        ),
        _ => Err(Mistake::TypeMismatch),
    }
}

/// The result of an operation.
pub open spec fn combined(op: Operation, a: ValueView, b: ValueView, ar: Arithmetic) -> Result<
    ValueView,
    Mistake,
> {
    match (a, b) {
        (ValueView::Num(x), ValueView::Num(y)) => Ok(ValueView::Num((ar.operate)(op, x, y))),
        (ValueView::Str(x), ValueView::Str(y)) => if op is Add {
            Ok(ValueView::Str(x + y))
        } else {
            Err(Mistake::TypeMismatch)
        },
        _ => Err(Mistake::TypeMismatch),
    }
}

/// The outcome of an evaluation and the state of the random numbers after it.
pub type Outcome = (Result<ValueView, Mistake>, u64);

/// The outcome of a text that was evaluated on behalf of the function `name`:
/// whatever goes wrong there is reported against the function.
pub open spec fn on_behalf(name: Seq<char>, inner: Outcome) -> Outcome {
    match inner.0 {
        Ok(v) => (Ok(v), inner.1),
        Err(_) => (Err(Mistake::UnknownFunction(name)), inner.1),
    }
}

/// The value of a tree. `depth` is how many further levels may be entered.
pub open spec fn eval(
    t: Tree,
    env: EnvView,
    local: Option<Binding>,
    ar: Arithmetic,
    depth: nat,
    seed: u64,
) -> Outcome
    decreases depth, t,
{
    match t {
        Tree::Number(x) => (Ok(ValueView::Num((ar.literal)(x))), seed),
        Tree::Text(x) => (Ok(ValueView::Str(vstd::utf8::encode_utf8(x))), seed),
        Tree::Variable(name) => if local is Some && local->0.name == name {
            (Ok(local->0.value), seed)
        } else {
            match (env.var)(name) {
                Some(v) => (Ok(v), seed),
                None => (Err(Mistake::UnknownVariable(name)), seed),
            }
        },
        Tree::Element(name, index) => match eval(*index, env, local, ar, depth, seed) {
            (Ok(ValueView::Num(n)), after) => match (env.element)(name, n) {
                Some(v) => (Ok(v), after),
                None => (Err(Mistake::UnknownVariable(name)), after),
            },
            (Ok(_), after) => (Err(Mistake::TypeMismatch), after),
            (Err(e), after) => (Err(e), after),
        },
        Tree::Constant(name) => {
            let (called, after) = (env.call)(name, Seq::empty(), seed);
            match called {
                Some(CalledView::Value(v)) => (Ok(v), after),
                Some(CalledView::Evaluate(src)) if depth > 0 => on_behalf(
                    name,
                    eval(grammar::parse(src), env, None, ar, (depth - 1) as nat, after),
                ),
                _ => (Err(Mistake::UnknownFunction(name)), after),
            }
        },
        Tree::Call(name, arg) => match eval(*arg, env, local, ar, depth, seed) {
            (Ok(v), middle) => {
                let (called, after) = (env.call)(name, seq![v], middle);
                match called {
                    Some(CalledView::Value(v)) => (Ok(v), after),
                    Some(CalledView::Evaluate(src)) if depth > 0 => on_behalf(
                        name,
                        eval(grammar::parse(src), env, None, ar, (depth - 1) as nat, after),
                    ),
                    _ => (Err(Mistake::UnknownFunction(name)), after),
                }
            },
            (Err(e), after) => (Err(e), after),
        },
        Tree::UserCall(name, arg) => match eval(*arg, env, local, ar, depth, seed) {
            (Ok(v), after) => match (env.user_fn)(name) {
                Some(f) if depth > 0 => on_behalf(
                    name,
                    eval(
                        grammar::parse(f.body),
                        env,
                        Some(Binding { name: f.param, value: v }),
                        ar,
                        (depth - 1) as nat,
                        after,
                    ),
                ),
                _ => (Err(Mistake::UnknownFunction(name)), after),
            },
            (Err(e), after) => (Err(e), after),
        },
        Tree::Negate(inner) => match eval(*inner, env, local, ar, depth, seed) {
            (Ok(ValueView::Num(n)), after) => (Ok(ValueView::Num(n.negated())), after),
            (Ok(_), after) => (Err(Mistake::TypeMismatch), after),
            (Err(e), after) => (Err(e), after),
        },
        Tree::Binary(op, lhs, rhs) => match eval(*lhs, env, local, ar, depth, seed) {
            (Ok(a), middle) => match eval(*rhs, env, local, ar, depth, middle) {
                (Ok(b), after) => (combined(op, a, b, ar), after),
                (Err(e), after) => (Err(e), after),
            },
            (Err(e), after) => (Err(e), after),
        },
        Tree::Compare(relation, lhs, rhs) => match eval(*lhs, env, local, ar, depth, seed) {
            (Ok(a), middle) => match eval(*rhs, env, local, ar, depth, middle) {
                (Ok(b), after) => (compared(relation, a, b), after),
                (Err(e), after) => (Err(e), after),
            },
            (Err(e), after) => (Err(e), after),
        },
        Tree::Fail(e) => (Err(e), seed),
        Tree::Spoiled(inner, e) => match eval(*inner, env, local, ar, depth, seed) {
            (Ok(_), after) => (Err(e), after),
            (Err(f), after) => (Err(f), after),
        },
    }
}

/// The outcome of evaluating a text.
pub open spec fn evaluation(src: Seq<char>, env: EnvView, ar: Arithmetic, seed: u64) -> Outcome {
    eval(grammar::parse(src), env, None, ar, NESTING as nat, seed)
}

/// The outcome of evaluating a text that must be numeric.
pub open spec fn number_evaluation(src: Seq<char>, env: EnvView, ar: Arithmetic, seed: u64) -> (
    Result<Number, Mistake>,
    u64,
) {
    match evaluation(src, env, ar, seed) {
        (Ok(ValueView::Num(n)), after) => (Ok(n), after),
        (Ok(ValueView::Str(_)), after) => (Err(Mistake::TypeMismatch), after),
        (Err(e), after) => (Err(e), after),
    }
}

/// Whether the lookups and the arithmetic are functions of their arguments.
pub open spec fn settled<E: Env, C: Calculator>(env: E, calc: C) -> bool {
    env.lawful() && calculator::deterministic(calc)
}

/// An operation fails exactly on operands of different types and, but for
/// `+`, on strings; otherwise the result has the type of the operands.
pub proof fn lemma_operation_types(op: Operation, a: ValueView, b: ValueView, ar: Arithmetic)
    ensures
        combined(op, a, b, ar) is Err <==> (a is Num) != (b is Num) || (a is Str && !(op is Add)),
        combined(op, a, b, ar) matches Err(e) ==> e == Mistake::TypeMismatch,
        combined(op, a, b, ar) matches Ok(v) ==> (v is Num) == (a is Num),
        a is Str && b is Str && op is Add ==> combined(op, a, b, ar) == Ok::<ValueView, Mistake>(
            ValueView::Str(a->Str_0 + b->Str_0),
        ),
{
}

/// A comparison fails exactly on operands of different types; otherwise the
/// result is one or zero, and opposite comparisons have opposite results.
pub proof fn lemma_comparison(a: ValueView, b: ValueView)
    ensures
        forall|q: Relation| #[trigger]
            compared(q, a, b) is Err <==> (a is Num) != (b is Num),
        forall|q: Relation| #[trigger]
            compared(q, a, b) is Ok ==> exists|t: bool|
                compared(q, a, b) == Ok::<ValueView, Mistake>(
                    ValueView::Num(#[trigger] Number::truth(t)),
                ),
        compared(Relation::Equal, a, b) is Ok ==> {
            &&& compared(Relation::Equal, a, b) != compared(Relation::NotEqual, a, b)
            &&& compared(Relation::Less, a, b) != compared(Relation::AtLeast, a, b)
            &&& compared(Relation::Greater, a, b) != compared(Relation::AtMost, a, b)
        },
{
    assert forall|q: Relation| #[trigger] compared(q, a, b) is Ok implies exists|t: bool|
        compared(q, a, b) == Ok::<ValueView, Mistake>(
            ValueView::Num(#[trigger] Number::truth(t)),
        ) by {
        assert(compared(q, a, b) == Ok::<ValueView, Mistake>(ValueView::Num(Number::truth(true)))
            || compared(q, a, b) == Ok::<ValueView, Mistake>(
            ValueView::Num(Number::truth(false)),
        ));
    }
}

/// Exchanging two strings turns their order round; they stand alike exactly
/// where they are the same.
pub proof fn lemma_strings_turned(a: Seq<u8>, b: Seq<u8>)
    ensures
        bytes_standing(a, b) is Below <==> bytes_standing(b, a) is Above,
        bytes_standing(a, b) is Same <==> a == b,
    decreases a.len(),
{
    if a.len() == 0 && b.len() == 0 {
        assert(a == b);
    }
    if a.len() > 0 && b.len() > 0 && a[0] == b[0] {
        lemma_strings_turned(a.drop_first(), b.drop_first());
        if a.drop_first() == b.drop_first() {
            assert(a == seq![a[0]] + a.drop_first());
            assert(b == seq![b[0]] + b.drop_first());
        }
    }
}

/// The order of strings is transitive.
pub proof fn lemma_strings_ordered(a: Seq<u8>, b: Seq<u8>, c: Seq<u8>)
    requires
        bytes_standing(a, b) is Below,
        bytes_standing(b, c) is Below,
    ensures
        bytes_standing(a, c) is Below,
    decreases a.len(),
{
    if a.len() > 0 && b.len() > 0 && c.len() > 0 && a[0] == b[0] && b[0] == c[0] {
        lemma_strings_ordered(a.drop_first(), b.drop_first(), c.drop_first());
    }
}

/// A string comes before what it is lengthened to.
pub proof fn lemma_prefix_first(a: Seq<u8>, more: Seq<u8>)
    requires
        more.len() > 0,
    ensures
        bytes_standing(a, a + more) is Below,
    decreases a.len(),
{
    if a.len() > 0 {
        assert((a + more).drop_first() == a.drop_first() + more);
        lemma_prefix_first(a.drop_first(), more);
    }
}

/// A parameter hides a variable of the same name; other variables show.
pub proof fn lemma_parameter_hides(
    name: Seq<char>,
    env: EnvView,
    b: Binding,
    ar: Arithmetic,
    depth: nat,
    seed: u64,
)
    ensures
        name == b.name ==> eval(Tree::Variable(name), env, Some(b), ar, depth, seed) == (
            Ok::<ValueView, Mistake>(b.value),
            seed,
        ),
        name != b.name ==> eval(Tree::Variable(name), env, Some(b), ar, depth, seed) == eval(
            Tree::Variable(name),
            env,
            None,
            ar,
            depth,
            seed,
        ),
{
}

} // verus!
