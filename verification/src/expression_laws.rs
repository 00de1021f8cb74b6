//! What expressions are worth.

use vstd::prelude::*;
use vstd::arithmetic::power2;

use crate::builtins;
use crate::calculator::{Arithmetic, Function, Operation};
use crate::env::{CalledView, EnvView, UserFnView};
use crate::expression;
use crate::fp_format;
use crate::grammar;
use crate::grammar::{Mistake, Relation, Tree};
use crate::number;
use crate::number::Number;
use crate::reading;
use crate::semantics;
use crate::semantics::Binding;
use crate::syntax;
use crate::table::Names;
use crate::value::ValueView;

verus! {

/// An operation takes the values of its operands, the left one first. Of two
/// numbers it is just what the calculator makes of them; `+` joins two strings;
/// anything else does not go together. The first mistake is that of the whole.
pub proof fn lemma_operation(
    op: Operation,
    a: Tree,
    b: Tree,
    env: EnvView,
    local: Option<Binding>,
    ar: Arithmetic,
    depth: nat,
    seed: u64,
)
    ensures
        ({
            let (x, middle) = semantics::eval(a, env, local, ar, depth, seed);
            let (y, after) = semantics::eval(b, env, local, ar, depth, middle);
            let r = semantics::eval(
                Tree::Binary(op, Box::new(a), Box::new(b)),
                env,
                local,
                ar,
                depth,
                seed,
            );
            match (x, y) {
                (Err(e), _) => r == (Err::<ValueView, Mistake>(e), middle),
                (_, Err(e)) => r == (Err::<ValueView, Mistake>(e), after),
                (Ok(ValueView::Num(m)), Ok(ValueView::Num(n))) => r == (
                    Ok::<ValueView, Mistake>(ValueView::Num((ar.operate)(op, m, n))),
                    after,
                ),
                (Ok(ValueView::Str(m)), Ok(ValueView::Str(n))) => r.1 == after && (if op is Add {
                    r.0 == Ok::<ValueView, Mistake>(ValueView::Str(m + n))
                } else {
                    r.0 == Err::<ValueView, Mistake>(Mistake::TypeMismatch)
                }),
                _ => r == (Err::<ValueView, Mistake>(Mistake::TypeMismatch), after),
            }
        }),
{
}

/// The text of two numeric expressions with `+`, `-`, `*`, `/` or `^` between
/// them is worth exactly the calculator's sum, difference, product, quotient or
/// power of what the two texts are worth.
#[verifier::rlimit(60)]
pub proof fn lemma_operation_of_texts(
    op: Operation,
    a: Tree,
    b: Tree,
    env: EnvView,
    ar: Arithmetic,
    seed: u64,
    x: Number,
    y: Number,
)
    requires
        reading::writable(a),
        reading::writable(b),
        semantics::evaluation(reading::written(a), env, ar, seed).0 == Ok::<ValueView, Mistake>(
            ValueView::Num(x),
        ),
        semantics::evaluation(
            reading::written(b),
            env,
            ar,
            semantics::evaluation(reading::written(a), env, ar, seed).1,
        ).0 == Ok::<ValueView, Mistake>(ValueView::Num(y)),
    ensures
        ({
            let sign = match op {
                Operation::Add => '+',
                Operation::Subtract => '-',
                Operation::Multiply => '*',
                Operation::Divide => '/',
                Operation::Power => '^',
            };
            semantics::evaluation(
                reading::written(a) + seq![sign] + reading::written(b),
                env,
                ar,
                seed,
            ).0 == Ok::<ValueView, Mistake>(ValueView::Num((ar.operate)(op, x, y)))
        }),
{
    reading::lemma_operation_read(a, op, b);
    reading::lemma_written_reads_back(a);
    reading::lemma_written_reads_back(b);
    lemma_operation(op, a, b, env, None, ar, semantics::NESTING as nat, seed);
}

/// Whether a string comes before another: where they first differ its byte is
/// the smaller one, or it ends there.
pub open spec fn precedes(a: Seq<u8>, b: Seq<u8>) -> bool {
    exists|k: int|
        {
            &&& 0 <= k <= a.len()
            &&& k < b.len()
            &&& #[trigger] a.take(k) == b.take(k)
            &&& k == a.len() || a[k] < b[k]
        }
}

/// Whether a comparison of two numbers holds.
pub open spec fn numbers_related(q: Relation, x: Number, y: Number) -> bool {
    match q {
        Relation::Equal => x.value() == y.value(),
        Relation::NotEqual => x.value() != y.value(),
        Relation::Less => x.value() < y.value(),
        Relation::Greater => x.value() > y.value(),
        Relation::AtMost => x.value() <= y.value(),
        Relation::AtLeast => x.value() >= y.value(),
    }
}

/// Whether a comparison of two strings holds.
pub open spec fn strings_related(q: Relation, x: Seq<u8>, y: Seq<u8>) -> bool {
    match q {
        Relation::Equal => x == y,
        Relation::NotEqual => x != y,
        Relation::Less => precedes(x, y),
        Relation::Greater => precedes(y, x),
        Relation::AtMost => precedes(x, y) || x == y,
        Relation::AtLeast => precedes(y, x) || x == y,
    }
}

/// The order of strings goes by their first difference.
proof fn lemma_precedes(a: Seq<u8>, b: Seq<u8>)
    ensures
        semantics::bytes_standing(a, b) is Below <==> precedes(a, b),
    decreases a.len(),
{
    if a.len() == 0 {
        if b.len() > 0 {
            assert(a.take(0) == b.take(0));
        }
    } else if b.len() == 0 {
    } else if a[0] != b[0] {
        if a[0] < b[0] {
            assert(a.take(0) == b.take(0));
        }
        if precedes(a, b) {
            let k = choose|k: int|
                {
                    &&& 0 <= k <= a.len()
                    &&& k < b.len()
                    &&& #[trigger] a.take(k) == b.take(k)
                    &&& k == a.len() || a[k] < b[k]
                };
            if k > 0 {
                assert(a.take(k)[0] == b.take(k)[0]);
            }
        }
    } else {
        let c = a.drop_first();
        let d = b.drop_first();
        lemma_precedes(c, d);
        if precedes(c, d) {
            let k = choose|k: int|
                {
                    &&& 0 <= k <= c.len()
                    &&& k < d.len()
                    &&& #[trigger] c.take(k) == d.take(k)
                    &&& k == c.len() || c[k] < d[k]
                };
            assert(a.take(k + 1) == seq![a[0]] + c.take(k));
            assert(b.take(k + 1) == seq![b[0]] + d.take(k));
        }
        if precedes(a, b) {
            let k = choose|k: int|
                {
                    &&& 0 <= k <= a.len()
                    &&& k < b.len()
                    &&& #[trigger] a.take(k) == b.take(k)
                    &&& k == a.len() || a[k] < b[k]
                };
            if k > 0 {
                assert(c.take(k - 1) == a.take(k).drop_first());
                assert(d.take(k - 1) == b.take(k).drop_first());
            }
        }
    }
}

/// A comparison is worth one where it holds and zero where it does not: of
/// numbers by their values, of strings by their bytes. What is not a number
/// counts as equal to all. A string and a number cannot be compared.
pub proof fn lemma_comparison(
    q: Relation,
    a: Tree,
    b: Tree,
    env: EnvView,
    local: Option<Binding>,
    ar: Arithmetic,
    depth: nat,
    seed: u64,
)
    ensures
        ({
            let (x, middle) = semantics::eval(a, env, local, ar, depth, seed);
            let (y, after) = semantics::eval(b, env, local, ar, depth, middle);
            let r = semantics::eval(
                Tree::Compare(q, Box::new(a), Box::new(b)),
                env,
                local,
                ar,
                depth,
                seed,
            );
            match (x, y) {
                (Err(e), _) => r == (Err::<ValueView, Mistake>(e), middle),
                (_, Err(e)) => r == (Err::<ValueView, Mistake>(e), after),
                (Ok(ValueView::Num(m)), Ok(ValueView::Num(n))) => r.1 == after && (!m.is_nan()
                    && !n.is_nan() ==> r.0 == Ok::<ValueView, Mistake>(
                    ValueView::Num(Number::truth(numbers_related(q, m, n))),
                )) && (m.is_nan() || n.is_nan() ==> r.0 == Ok::<ValueView, Mistake>(
                    ValueView::Num(Number::truth(q is Equal || q is AtMost || q is AtLeast)),
                )),
                (Ok(ValueView::Str(m)), Ok(ValueView::Str(n))) => r == (
                    Ok::<ValueView, Mistake>(
                        ValueView::Num(Number::truth(strings_related(q, m, n))),
                    ),
                    after,
                ),
                _ => r == (Err::<ValueView, Mistake>(Mistake::TypeMismatch), after),
            }
        }),
{
    let (x, middle) = semantics::eval(a, env, local, ar, depth, seed);
    let (y, after) = semantics::eval(b, env, local, ar, depth, middle);
    if let (Ok(ValueView::Str(m)), Ok(ValueView::Str(n))) = (x, y) {
        lemma_precedes(m, n);
        lemma_precedes(n, m);
        semantics::lemma_strings_turned(m, n);
        semantics::lemma_strings_turned(n, m);
    }
}

/// One stands for true and zero for false.
pub proof fn lemma_truth()
    ensures
        Number::truth(true).value() == number::unit(),
        Number::truth(false).value() == 0,
        !Number::truth(true).is_nan() && !Number::truth(false).is_nan(),
{
    number::lemma_scale(0);
}

/// A `-` before a number gives the number of the opposite value; strings have
/// none.
pub proof fn lemma_negation(
    a: Tree,
    env: EnvView,
    local: Option<Binding>,
    ar: Arithmetic,
    depth: nat,
    seed: u64,
)
    ensures
        ({
            let (x, after) = semantics::eval(a, env, local, ar, depth, seed);
            let r = semantics::eval(Tree::Negate(Box::new(a)), env, local, ar, depth, seed);
            &&& r.1 == after
            &&& x matches Err(e) ==> r.0 == Err::<ValueView, Mistake>(e)
            &&& x matches Ok(ValueView::Str(_)) ==> r.0 == Err::<ValueView, Mistake>(
                Mistake::TypeMismatch,
            )
            &&& x matches Ok(ValueView::Num(m)) ==> (r.0 matches Ok(ValueView::Num(n))
                && n.value() == -m.value() && n.is_nan() == m.is_nan() && n.negative()
                == !m.negative())
        }),
{
    let (x, after) = semantics::eval(a, env, local, ar, depth, seed);
    if let Ok(ValueView::Num(m)) = x {
        number::lemma_negated(m, m);
    }
}

/// A numeric literal is worth what the calculator reads it as, with no digit
/// changed; a string literal is worth its own text.
pub proof fn lemma_literals(
    x: Seq<char>,
    env: EnvView,
    local: Option<Binding>,
    ar: Arithmetic,
    depth: nat,
    seed: u64,
)
    ensures
        semantics::eval(Tree::Number(x), env, local, ar, depth, seed) == (
            Ok::<ValueView, Mistake>(ValueView::Num((ar.literal)(x))),
            seed,
        ),
        semantics::eval(Tree::Text(x), env, local, ar, depth, seed) == (
            Ok::<ValueView, Mistake>(ValueView::Str(vstd::utf8::encode_utf8(x))),
            seed,
        ),
{
}

/// A name is worth the parameter of that name, else the variable of that name;
/// an element of an array is worth what is stored at the value of its index.
pub proof fn lemma_names(
    name: Seq<char>,
    index: Tree,
    env: EnvView,
    local: Option<Binding>,
    ar: Arithmetic,
    depth: nat,
    seed: u64,
)
    ensures
        ({
            let r = semantics::eval(Tree::Variable(name), env, local, ar, depth, seed);
            &&& r.1 == seed
            &&& (local matches Some(b) && b.name == name) ==> r.0 == Ok::<ValueView, Mistake>(
                local->0.value,
            )
            &&& !(local matches Some(b) && b.name == name) ==> match (env.var)(name) {
                Some(v) => r.0 == Ok::<ValueView, Mistake>(v),
                None => r.0 == Err::<ValueView, Mistake>(Mistake::UnknownVariable(name)),
            }
        }),
        ({
            let (i, after) = semantics::eval(index, env, local, ar, depth, seed);
            let r = semantics::eval(
                Tree::Element(name, Box::new(index)),
                env,
                local,
                ar,
                depth,
                seed,
            );
            &&& r.1 == after
            &&& match i {
                Ok(ValueView::Num(n)) => match (env.element)(name, n) {
                    Some(v) => r.0 == Ok::<ValueView, Mistake>(v),
                    None => r.0 == Err::<ValueView, Mistake>(Mistake::UnknownVariable(name)),
                },
                Ok(ValueView::Str(_)) => r.0 == Err::<ValueView, Mistake>(Mistake::TypeMismatch),
                Err(e) => r.0 == Err::<ValueView, Mistake>(e),
            }
        }),
{
}

/// A built-in function is worth what it answers to the value of its argument.
/// Where it answers with a text, the text is evaluated with the variables of
/// the program; whatever is wrong with it counts against the function.
pub proof fn lemma_call(
    name: Seq<char>,
    a: Tree,
    env: EnvView,
    local: Option<Binding>,
    ar: Arithmetic,
    depth: nat,
    seed: u64,
)
    requires
        depth > 0,
    ensures
        ({
            let (x, middle) = semantics::eval(a, env, local, ar, depth, seed);
            let r = semantics::eval(
                Tree::Call(name, Box::new(a)),
                env,
                local,
                ar,
                depth,
                seed,
            );
            match x {
                Err(e) => r == (Err::<ValueView, Mistake>(e), middle),
                Ok(v) => {
                    let (answer, after) = (env.call)(name, seq![v], middle);
                    match answer {
                        Some(CalledView::Value(w)) => r == (Ok::<ValueView, Mistake>(w), after),
                        Some(CalledView::Evaluate(src)) => {
                            let inner = semantics::eval(
                                grammar::parse(src),
                                env,
                                None,
                                ar,
                                (depth - 1) as nat,
                                after,
                            );
                            &&& r.1 == inner.1
                            &&& inner.0 is Ok ==> r.0 == inner.0
                            &&& inner.0 is Err ==> r.0 == Err::<ValueView, Mistake>(
                                Mistake::UnknownFunction(name),
                            )
                        },
                        None => r == (
                            Err::<ValueView, Mistake>(Mistake::UnknownFunction(name)),
                            after,
                        ),
                    }
                },
            }
        }),
        ({
            let (answer, after) = (env.call)(name, Seq::<ValueView>::empty(), seed);
            answer matches Some(CalledView::Value(w)) ==> semantics::eval(
                Tree::Constant(name),
                env,
                local,
                ar,
                depth,
                seed,
            ) == (Ok::<ValueView, Mistake>(w), after)
        }),
{
}

/// A function that was made with `DEF FN` is worth what its text is worth where
/// its parameter stands for the value of the argument; a function that was not
/// made is unknown.
pub proof fn lemma_user_call(
    name: Seq<char>,
    f: UserFnView,
    body: Tree,
    a: Tree,
    env: EnvView,
    local: Option<Binding>,
    ar: Arithmetic,
    depth: nat,
    seed: u64,
    v: ValueView,
    after: u64,
)
    requires
        depth > 0,
        reading::writable(body),
        f.body == reading::written(body),
        semantics::eval(a, env, local, ar, depth, seed) == (Ok::<ValueView, Mistake>(v), after),
    ensures
        ({
            let r = semantics::eval(
                Tree::UserCall(name, Box::new(a)),
                env,
                local,
                ar,
                depth,
                seed,
            );
            let inner = semantics::eval(
                body,
                env,
                Some(Binding { name: f.param, value: v }),
                ar,
                (depth - 1) as nat,
                after,
            );
            &&& (env.user_fn)(name) == Some(f) && inner.0 is Ok ==> r == inner
            &&& (env.user_fn)(name) == Some(f) && inner.0 is Err ==> r == (
                Err::<ValueView, Mistake>(Mistake::UnknownFunction(name)),
                inner.1,
            )
            &&& (env.user_fn)(name) is None ==> r == (
                Err::<ValueView, Mistake>(Mistake::UnknownFunction(name)),
                after,
            )
        }),
{
    reading::lemma_written_reads_back(body);
}

/// A text is worth what the expression is worth that it writes. A text that is
/// wrong is worth nothing, even where the part before the mistake is right.
pub proof fn lemma_texts(
    t: Tree,
    e: Mistake,
    env: EnvView,
    local: Option<Binding>,
    ar: Arithmetic,
    depth: nat,
    seed: u64,
)
    requires
        reading::writable(t),
    ensures
        semantics::evaluation(reading::written(t), env, ar, seed) == semantics::eval(
            t,
            env,
            None,
            ar,
            1000,
            seed,
        ),
        semantics::eval(Tree::Fail(e), env, local, ar, depth, seed) == (
            Err::<ValueView, Mistake>(e),
            seed,
        ),
        ({
            let inner = semantics::eval(t, env, local, ar, depth, seed);
            let r = semantics::eval(
                Tree::Spoiled(Box::new(t), e),
                env,
                local,
                ar,
                depth,
                seed,
            );
            &&& r.1 == inner.1
            &&& inner.0 is Ok ==> r.0 == Err::<ValueView, Mistake>(e)
            &&& inner.0 is Err ==> r.0 == inner.0
        }),
{
    reading::lemma_written_reads_back(t);
}

/// The letters that tell the names of the built-in functions apart.
proof fn lemma_letters()
    ensures
        "RND"@.len() == 3 && "RND"@[0] == 'R',
        "PI"@.len() == 2 && "PI"@[0] == 'P',
        "SIN"@.len() == 3 && "SIN"@[0] == 'S' && "SIN"@[1] == 'I',
        "COS"@.len() == 3 && "COS"@[0] == 'C' && "COS"@[1] == 'O',
        "TAN"@.len() == 3 && "TAN"@[0] == 'T',
        "ASN"@.len() == 3 && "ASN"@[0] == 'A' && "ASN"@[1] == 'S',
        "ACS"@.len() == 3 && "ACS"@[0] == 'A' && "ACS"@[1] == 'C',
        "ATN"@.len() == 3 && "ATN"@[0] == 'A' && "ATN"@[1] == 'T',
        "LN"@.len() == 2 && "LN"@[0] == 'L',
        "EXP"@.len() == 3 && "EXP"@[0] == 'E',
        "INT"@.len() == 3 && "INT"@[0] == 'I',
        "ABS"@.len() == 3 && "ABS"@[0] == 'A' && "ABS"@[1] == 'B',
        "SQR"@.len() == 3 && "SQR"@[0] == 'S' && "SQR"@[1] == 'Q',
        "SGN"@.len() == 3 && "SGN"@[0] == 'S' && "SGN"@[1] == 'G',
        "LEN"@.len() == 3 && "LEN"@[0] == 'L',
        "CODE"@.len() == 4 && "CODE"@[0] == 'C' && "CODE"@[1] == 'O',
        "VAL"@.len() == 3 && "VAL"@[0] == 'V',
        "CHR$"@.len() == 4 && "CHR$"@[0] == 'C' && "CHR$"@[1] == 'H',
        "STR$"@.len() == 4 && "STR$"@[0] == 'S',
{
    reveal_strlit("RND");
    reveal_strlit("PI");
    reveal_strlit("SIN");
    reveal_strlit("COS");
    reveal_strlit("TAN");
    reveal_strlit("ASN");
    reveal_strlit("ACS");
    reveal_strlit("ATN");
    reveal_strlit("LN");
    reveal_strlit("EXP");
    reveal_strlit("INT");
    reveal_strlit("ABS");
    reveal_strlit("SQR");
    reveal_strlit("SGN");
    reveal_strlit("LEN");
    reveal_strlit("CODE");
    reveal_strlit("VAL");
    reveal_strlit("CHR$");
    reveal_strlit("STR$");
}

/// An answer with a number.
pub open spec fn answers(name: Seq<char>, x: Number, r: Number, ar: Arithmetic) -> bool {
    forall|seed: u64| #[trigger]
        builtins::builtin(name, seq![ValueView::Num(x)], seed, ar) == (
            Some(CalledView::Value(ValueView::Num(r))),
            seed,
        )
}

/// `SIN`, `COS`, `TAN`, `ASN`, `ACS`, `ATN`, `LN`, `EXP` and `SQR` are the
/// calculator's functions of their argument.
pub proof fn lemma_worked_out(x: Number, ar: Arithmetic)
    ensures
        answers("SIN"@, x, (ar.apply)(Function::Sine, x), ar),
        answers("COS"@, x, (ar.apply)(Function::Cosine, x), ar),
        answers("TAN"@, x, (ar.apply)(Function::Tangent, x), ar),
        answers("ASN"@, x, (ar.apply)(Function::ArcSine, x), ar),
        answers("ACS"@, x, (ar.apply)(Function::ArcCosine, x), ar),
        answers("ATN"@, x, (ar.apply)(Function::ArcTangent, x), ar),
        answers("LN"@, x, (ar.apply)(Function::NaturalLog, x), ar),
        answers("EXP"@, x, (ar.apply)(Function::Exponential, x), ar),
        answers("SQR"@, x, (ar.apply)(Function::SquareRoot, x), ar),
{
    lemma_letters();
}

/// `INT` gives the largest whole number that is not above its argument, `ABS`
/// the size of its argument, and `SGN` one, zero or minus one as its argument
/// is above, at or below zero.
pub proof fn lemma_int_abs_sgn(x: Number, ar: Arithmetic)
    requires
        !x.is_nan(),
    ensures
        exists|r: Number| #[trigger]
            answers("INT"@, x, r, ar) && !r.is_nan() && r.value() % (number::unit() as int) == 0
                && r.value() <= x.value() < r.value() + number::unit(),
        exists|r: Number| #[trigger]
            answers("ABS"@, x, r, ar) && !r.is_nan() && r.value() >= 0 && (r.value() == x.value()
                || r.value() == -x.value()),
        exists|r: Number| #[trigger]
            answers("SGN"@, x, r, ar) && !r.is_nan() && r.value() == (if x.value() > 0 {
                number::unit() as int
            } else if x.value() < 0 {
                -(number::unit() as int)
            } else {
                0
            }),
{
    lemma_letters();
    number::lemma_floored(x);
    assert(answers("INT"@, x, x.floored(), ar));
    number::lemma_absolute(x);
    assert(answers("ABS"@, x, x.absolute(), ar));
    number::lemma_scale(0);
    let one = Number::truth(true);
    let minus = Number { bits: builtins::MINUS_ONE };
    assert(minus.magnitude() == one.magnitude());
    assert(answers("SGN"@, x, builtins::sign(x), ar));
}

/// `LEN` counts the bytes of a string, and `CODE` gives its first byte, zero
/// where there is none.
pub proof fn lemma_len_code(s: Seq<u8>, seed: u64, ar: Arithmetic)
    requires
        s.len() <= 0x20_0000_0000_0000,
    ensures
        builtins::builtin("LEN"@, seq![ValueView::Str(s)], seed, ar) matches (
            Some(CalledView::Value(ValueView::Num(n))),
            after,
        ) && after == seed && !n.is_nan() && n.value() == s.len() * number::unit(),
        builtins::builtin("CODE"@, seq![ValueView::Str(s)], seed, ar) matches (
            Some(CalledView::Value(ValueView::Num(n))),
            after,
        ) && after == seed && !n.is_nan() && n.value() == (if s.len() == 0 {
            0
        } else {
            s[0] * number::unit()
        }),
{
    lemma_letters();
    number::lemma_whole(s.len());
    if s.len() > 0 {
        number::lemma_whole(s[0] as nat);
    } else {
        number::lemma_whole(0);
        assert(0 * number::unit() == 0);
    }
}

/// `CHR$` gives the one byte that its argument denotes modulo 256, and `CODE`
/// reads it back.
pub proof fn lemma_chr(x: Number, seed: u64, ar: Arithmetic)
    requires
        !x.is_nan(),
        -0x8000_0000 <= x.truncated() <= 0x7fff_ffff,
    ensures
        builtins::builtin("CHR$"@, seq![ValueView::Num(x)], seed, ar) matches (
            Some(CalledView::Value(ValueView::Str(s))),
            after,
        ) && after == seed && s.len() == 1 && (s[0] - x.truncated()) % 256 == 0 && (
        builtins::builtin("CODE"@, seq![ValueView::Str(s)], seed, ar).0 matches Some(
            CalledView::Value(ValueView::Num(n)),
        ) && n.value() == s[0] * number::unit()),
{
    lemma_letters();
    let b = builtins::char_code(x);
    let s = seq![b];
    lemma_len_code(s, seed, ar);
}

/// `STR$` gives the text that `PRINT` prints of its argument, and `VAL` has the
/// text of its argument evaluated.
pub proof fn lemma_str_val(x: Number, src: Seq<char>, seed: u64, ar: Arithmetic)
    ensures
        builtins::builtin("STR$"@, seq![ValueView::Num(x)], seed, ar) == (
            Some(
                CalledView::Value(
                    ValueView::Str(vstd::utf8::encode_utf8(fp_format::formatted(x, ar))),
                ),
            ),
            seed,
        ),
        builtins::builtin("VAL"@, seq![ValueView::Str(vstd::utf8::encode_utf8(src))], seed, ar) == (
            Some(CalledView::Evaluate(src)),
            seed,
        ),
{
    lemma_letters();
    vstd::utf8::encode_utf8_valid_utf8(src);
    vstd::utf8::encode_utf8_decode_utf8(src);
}

/// `PI` is the ratio of a circle to its diameter, to fifteen places, and leaves
/// the random numbers alone.
pub proof fn lemma_pi(seed: u64, ar: Arithmetic)
    ensures
        builtins::builtin("PI"@, Seq::<ValueView>::empty(), seed, ar) matches (
            Some(CalledView::Value(ValueView::Num(n))),
            after,
        ) && after == seed && !n.is_nan() && 3141592653589793 * number::unit() < n.value()
            * 1000000000000000 < 3141592653589794 * number::unit(),
{
    lemma_letters();
    let n = Number { bits: 0x4009_21fb_5444_2d18 };
    let u = number::unit() as int;
    let h = power2::pow2(1023) as int;
    assert(n.magnitude() == 0x4009_21fb_5444_2d18);
    assert(n.size() == 7074237752028440 * power2::pow2(1023));
    power2::lemma_pow2_adds(1023, 51);
    power2::lemma2_to64_rest();
    power2::lemma_pow2_pos(1023);
    assert(power2::pow2(51) == 0x8_0000_0000_0000);
    assert(3141592653589793 * u < (7074237752028440 * h) * 1000000000000000 < 3141592653589794 * u)
        by (nonlinear_arith)
        requires
            u == h * 0x8_0000_0000_0000,
            h > 0,
    ;
}

/// `RND` moves the random numbers on by a fixed odd step and gives a number of
/// at least zero and below one: the upper 53 bits of the scrambled state.
pub proof fn lemma_rnd(seed: u64, ar: Arithmetic)
    ensures
        builtins::builtin("RND"@, Seq::<ValueView>::empty(), seed, ar) matches (
            Some(CalledView::Value(ValueView::Num(n))),
            after,
        ) && after as int == (seed + 0x9e37_79b9_7f4a_7c15) % 0x1_0000_0000_0000_0000
            && !n.is_nan() && 0 <= n.value() < number::unit() && ({
            let a = (after ^ (after >> 30)).wrapping_mul(0xbf58_476d_1ce4_e5b9);
            let b = (a ^ (a >> 27)).wrapping_mul(0x94d0_49bb_1331_11eb);
            n.value() * 0x20_0000_0000_0000 == ((b ^ (b >> 31)) >> 11) * number::unit()
        }),
{
    lemma_letters();
    let after = builtins::advanced(seed);
    builtins::lemma_random_range(after);
    let z = builtins::scrambled(after);
    assert(z >> 11 < 0x20_0000_0000_0000) by (bit_vector);
    number::lemma_fraction((z >> 11) as nat);
}

/// Functions of numbers have no answer to a string, functions of strings none
/// to a number, and a name that is no function has none at all.
pub proof fn lemma_no_answer(name: Seq<char>, x: Number, s: Seq<u8>, seed: u64, ar: Arithmetic)
    ensures
        name != "LEN"@ && name != "CODE"@ && name != "VAL"@ ==> builtins::builtin(
            name,
            seq![ValueView::Str(s)],
            seed,
            ar,
        ) == (None::<CalledView>, seed),
        name == "LEN"@ || name == "CODE"@ || name == "VAL"@ || !grammar::is_function(name)
            ==> builtins::builtin(name, seq![ValueView::Num(x)], seed, ar) == (
            None::<CalledView>,
            seed,
        ),
{
    lemma_letters();
}

/// Expressions look a name up among the variables, the elements of the arrays,
/// which count from one, the functions made with `DEF FN` and the built-in
/// functions.
pub proof fn lemma_lookups(
    vars: Names<ValueView>,
    arrays: Names<Seq<Number>>,
    fns: Names<UserFnView>,
    ar: Arithmetic,
    name: Seq<char>,
    i: Number,
    args: Seq<ValueView>,
    seed: u64,
)
    requires
        !i.is_nan(),
        -0x8000_0000 <= i.truncated() <= 0x7fff_ffff,
    ensures
        ({
            let env = builtins::lookups(vars, arrays, fns, ar);
            let k = i.truncated();
            &&& (env.var)(name) == (if vars.contains_key(name) {
                Some(vars[name])
            } else {
                None
            })
            &&& (env.user_fn)(name) == (if fns.contains_key(name) {
                Some(fns[name])
            } else {
                None
            })
            &&& (env.element)(name, i) == (if arrays.contains_key(name) && 1 <= k <= arrays[name].len() {
                Some(ValueView::Num(arrays[name][k - 1]))
            } else {
                None
            })
            &&& (env.call)(name, args, seed) == builtins::builtin(name, args, seed, ar)
        }),
{
}

/// What is not a number has itself as its whole part and zero as its sign.
pub proof fn lemma_not_a_number(x: Number, ar: Arithmetic)
    requires
        x.is_nan(),
    ensures
        answers("INT"@, x, x, ar),
        answers("SGN"@, x, Number { bits: 0 }, ar),
        exists|r: Number| #[trigger] answers("ABS"@, x, r, ar) && r.is_nan(),
{
    lemma_letters();
    assert(x.floors_to(x));
    assert(x.floors_to(x.floored()));
    assert(answers("INT"@, x, x.floored(), ar));
    number::lemma_absolute(x);
    assert(answers("ABS"@, x, x.absolute(), ar));
}

/// Where a number is due, a string is of the wrong type and any mistake is that
/// of the whole.
pub proof fn lemma_number_due(src: Seq<char>, env: EnvView, ar: Arithmetic, seed: u64)
    ensures
        ({
            let (v, after) = semantics::evaluation(src, env, ar, seed);
            let r = semantics::number_evaluation(src, env, ar, seed);
            &&& r.1 == after
            &&& v matches Ok(ValueView::Num(n)) ==> r.0 == Ok::<Number, Mistake>(n)
            &&& v matches Ok(ValueView::Str(_)) ==> r.0 == Err::<Number, Mistake>(
                Mistake::TypeMismatch,
            )
            &&& v matches Err(e) ==> r.0 == Err::<Number, Mistake>(e)
        }),
{
}

/// The part of a text before a keyword is evaluated, and the part behind it is
/// left over; without the keyword the text makes no sense.
pub proof fn lemma_until_keyword(
    src: Seq<char>,
    word: Seq<char>,
    env: EnvView,
    ar: Arithmetic,
    seed: u64,
)
    ensures
        ({
            let r = expression::until_keyword(src, word, env, ar, seed);
            match syntax::at_word(src, word) {
                None => r == (
                    Err::<(ValueView, Seq<char>), Mistake>(Mistake::Nonsense),
                    seed,
                ),
                Some((before, behind)) => {
                    let (v, after) = semantics::evaluation(before, env, ar, seed);
                    &&& r.1 == after
                    &&& v matches Ok(x) ==> r.0 == Ok::<(ValueView, Seq<char>), Mistake>(
                        (x, behind),
                    )
                    &&& v matches Err(e) ==> r.0 == Err::<(ValueView, Seq<char>), Mistake>(e)
                },
            }
        }),
{
}

} // verus!
