//! Evaluation of expressions.
//!
//! Type rules:
//!   * `+` adds two numbers or joins two strings; a mixture is a mismatch.
//!   * `-`, `*`, `/` and `^` take numbers only.
//!   * A comparison takes two values of one type; strings compare byte by
//!     byte.
//!   * A name that ends in `$` is that of a string.

use vstd::prelude::*;

use crate::calculator;
use crate::calculator::{Arithmetic, Calculator, Operation};
use crate::env;
use crate::grammar;
use crate::grammar::{Mistake, Relation, Tree};
use crate::number::Number;
use crate::semantics;
use crate::semantics::{Binding, Outcome, Standing, NESTING};
use crate::syntax;
use crate::text;
use crate::value;
use crate::value::{Value, ValueView};

pub use crate::env::{Called, CalledView, EmptyEnv, Env, EnvView, UserFn};

verus! {

/// What can be wrong with an expression.
#[derive(Debug, PartialEq, Eq)]
pub enum EvalError {
    Nonsense,
    TrailingInput,
    MissingCloseParen,
    BadNumber,
    UnknownVariable(String),
    UnknownFunction(String),
    TypeMismatch,
    UnterminatedString,
}

impl View for EvalError {
    type V = Mistake;

    open spec fn view(&self) -> Mistake {
        match self {
            EvalError::Nonsense => Mistake::Nonsense,
            EvalError::TrailingInput => Mistake::TrailingInput,
            EvalError::MissingCloseParen => Mistake::MissingCloseParen,
            EvalError::BadNumber => Mistake::BadNumber,
            EvalError::UnknownVariable(name) => Mistake::UnknownVariable(name@),
            EvalError::UnknownFunction(name) => Mistake::UnknownFunction(name@),
            EvalError::TypeMismatch => Mistake::TypeMismatch,
            EvalError::UnterminatedString => Mistake::UnterminatedString,
        }
    }
}

/// What a result stands for.
pub open spec fn result_view(r: Result<Value, EvalError>) -> Result<ValueView, Mistake> {
    match r {
        Ok(v) => Ok(v@),
        Err(e) => Err(e@),
    }
}

/// A parameter of a function with its argument.
struct Local<'a> {
    name: &'a str,
    value: &'a Value,
}

/// Where names are looked up.
struct Scope<'a, E: Env, C: Calculator> {
    env: &'a E,
    calc: &'a C,
    local: Option<Local<'a>>,
    depth: usize,
}

impl<'a, E: Env, C: Calculator> Scope<'a, E, C> {
    spec fn lawful(&self) -> bool {
        self.env.lawful() && calculator::deterministic(*self.calc)
    }

    spec fn binding(&self) -> Option<Binding> {
        match self.local {
            Some(l) => Some(Binding { name: l.name@, value: l.value@ }),
            None => None,
        }
    }

    /// The value of a tree in this scope.
    spec fn value(&self, t: Tree, seed: u64) -> Outcome {
        semantics::eval(
            t,
            self.env.model(),
            self.binding(),
            calculator::arithmetic(*self.calc),
            self.depth as nat,
            seed,
        )
    }

    /// The outcome of a call of the built-in function `name`.
    spec fn called(&self, name: Seq<char>, args: Seq<ValueView>, seed: u64) -> Outcome {
        let (called, after) = (self.env.model().call)(name, args, seed);
        match called {
            Some(CalledView::Value(v)) => (Ok(v), after),
            Some(CalledView::Evaluate(src)) if self.depth > 0 => semantics::on_behalf(
                name,
                semantics::eval(
                    grammar::parse(src),
                    self.env.model(),
                    None,
                    calculator::arithmetic(*self.calc),
                    (self.depth - 1) as nat,
                    after,
                ),
            ),
            _ => (Err(Mistake::UnknownFunction(name)), after),
        }
    }

    /// The value of a variable.
    fn variable(&self, name: &str) -> (r: Option<Value>)
        ensures
            self.lawful() ==> value::option_view(r) == (if self.binding() is Some
                && self.binding()->0.name == name@ {
                Some(self.binding()->0.value)
            } else {
                (self.env.model().var)(name@)
            }),
    {
        match &self.local {
            Some(l) => {
                if text::same(l.name, name) {
                    return Some(l.value.duplicate());
                }
            },
            None => {},
        }
        self.env.get_var(name)
    }
}

/// An error in the left operand is that of the whole sum.
proof fn lemma_additive_error(
    s: Seq<char>,
    i: int,
    lhs: Tree,
    env: EnvView,
    local: Option<Binding>,
    ar: Arithmetic,
    depth: nat,
    seed: u64,
)
    requires
        semantics::eval(lhs, env, local, ar, depth, seed).0 is Err,
        0 <= i,
    ensures
        semantics::eval(grammar::more_additive(s, i, lhs).tree, env, local, ar, depth, seed) == semantics::eval(
            lhs,
            env,
            local,
            ar,
            depth,
            seed,
        ),
    decreases s.len() - i,
{
    let j = grammar::skip_blanks(s, i);
    grammar::lemma_skip_blanks(s, i);
    if grammar::at(s, j, '+') || grammar::at(s, j, '-') {
        let op = if grammar::at(s, j, '+') {
            Operation::Add
        } else {
            Operation::Subtract
        };
        let rhs = grammar::read_term(s, j + 1);
        let tree = Tree::Binary(op, Box::new(lhs), Box::new(rhs.tree));
        if grammar::onward(s, rhs, j) {
            lemma_additive_error(s, rhs.next, tree, env, local, ar, depth, seed);
        }
    }
}

/// An error in the left operand is that of the whole product.
proof fn lemma_term_error(
    s: Seq<char>,
    i: int,
    lhs: Tree,
    env: EnvView,
    local: Option<Binding>,
    ar: Arithmetic,
    depth: nat,
    seed: u64,
)
    requires
        semantics::eval(lhs, env, local, ar, depth, seed).0 is Err,
        0 <= i,
    ensures
        semantics::eval(grammar::more_term(s, i, lhs).tree, env, local, ar, depth, seed) == semantics::eval(
            lhs,
            env,
            local,
            ar,
            depth,
            seed,
        ),
    decreases s.len() - i,
{
    let j = grammar::skip_blanks(s, i);
    grammar::lemma_skip_blanks(s, i);
    if grammar::at(s, j, '*') || grammar::at(s, j, '/') {
        let op = if grammar::at(s, j, '*') {
            Operation::Multiply
        } else {
            Operation::Divide
        };
        let rhs = grammar::read_power(s, j + 1);
        let tree = Tree::Binary(op, Box::new(lhs), Box::new(rhs.tree));
        if grammar::onward(s, rhs, j) {
            lemma_term_error(s, rhs.next, tree, env, local, ar, depth, seed);
        }
    }
}

/// The built-in functions without an argument.
pub const FUNCS_0ARG: [&'static str; 2] = ["RND", "PI"];

/// The built-in functions of one argument that are not strings.
pub const FUNCS_1ARG_NUM: [&'static str; 15] = [
    "SIN", "COS", "TAN", "ASN", "ACS", "ATN", "LN", "EXP", "INT", "ABS", "SQR", "SGN", "LEN",
    "CODE", "VAL",
];

/// The built-in functions of one argument that are strings.
pub const FUNCS_1ARG_STR: [&'static str; 2] = ["CHR$", "STR$"];

/// Whether `name` is a built-in function without an argument.
pub fn is_func_0arg(name: &str) -> (r: bool)
    ensures
        r == grammar::is_constant(name@),
{
    is_one_of(name, FUNCS_0ARG.as_slice())
}

/// Whether `name` is a built-in function of one argument.
pub fn is_func_1arg(name: &str) -> (r: bool)
    ensures
        r == grammar::is_function(name@),
{
    is_one_of(name, FUNCS_1ARG_NUM.as_slice()) || is_one_of(name, FUNCS_1ARG_STR.as_slice())
}

/// Whether `name` is among `names`.
fn is_one_of(name: &str, names: &[&'static str]) -> (r: bool)
    ensures
        r == exists|i: int| 0 <= i < names@.len() && name@ == (#[trigger] names@[i])@,
{
    let mut i: usize = 0;
    while i < names.len()
        invariant
            i <= names@.len(),
            forall|j: int| 0 <= j < i ==> name@ != (#[trigger] names@[j])@,
        decreases names@.len() - i,
    {
        if text::same(name, names[i]) {
            return true;
        }
        i += 1;
    }
    false
}

/// The sum of two numbers, two strings joined, or a mismatch.
pub fn add<C: Calculator>(lhs: Value, rhs: Value, calc: &C) -> (r: Result<Value, EvalError>)
    ensures
        calculator::deterministic(*calc) ==> result_view(r) == semantics::combined(
            Operation::Add,
            lhs@,
            rhs@,
            calculator::arithmetic(*calc),
        ),
{
    match (lhs, rhs) {
        (Value::Num(a), Value::Num(b)) => Ok(
            Value::Num(calculator::operate(calc, Operation::Add, a, b)),
        ),
        (Value::Str(a), Value::Str(b)) => {
            let mut joined = a;
            let mut more = b;
            joined.append(&mut more);
            Ok(Value::Str(joined))
        },
        _ => Err(EvalError::TypeMismatch),
    }
}

/// An operation on two numbers; anything else is a mismatch.
fn numeric<C: Calculator>(op: Operation, lhs: Value, rhs: Value, calc: &C) -> (r: Result<
    Value,
    EvalError,
>)
    requires
        !(op is Add),
    ensures
        calculator::deterministic(*calc) ==> result_view(r) == semantics::combined(op, lhs@, rhs@, calculator::arithmetic(*calc)),
{
    match (lhs, rhs) {
        (Value::Num(a), Value::Num(b)) => Ok(Value::Num(calculator::operate(calc, op, a, b))),
        _ => Err(EvalError::TypeMismatch),
    }
}

/// The order of two strings.
fn order_bytes(a: &[u8], b: &[u8]) -> (r: Standing)
    ensures
        r == semantics::bytes_standing(a@, b@),
{
    let mut i: usize = 0;
    assert(a@.skip(0) == a@ && b@.skip(0) == b@);
    while i < a.len() && i < b.len()
        invariant
            i <= a@.len(),
            i <= b@.len(),
            semantics::bytes_standing(a@, b@) == semantics::bytes_standing(a@.skip(i as int), b@.skip(i as int)),
        decreases a@.len() - i,
    {
        assert(a@.skip(i as int)[0] == a@[i as int] && b@.skip(i as int)[0] == b@[i as int]);
        assert(a@.skip(i as int).drop_first() == a@.skip(i + 1));
        assert(b@.skip(i as int).drop_first() == b@.skip(i + 1));
        if a[i] < b[i] {
            return Standing::Below;
        }
        if a[i] > b[i] {
            return Standing::Above;
        }
        i += 1;
    }
    if i < a.len() {
        Standing::Above
    } else if i < b.len() {
        Standing::Below
    } else {
        Standing::Same
    }
}

/// Compare two values of one type.
pub fn compare(lhs: &Value, rhs: &Value, relation: Relation) -> (r: Result<Value, EvalError>)
    ensures
        result_view(r) == semantics::compared(relation, lhs@, rhs@),
{
    let standing = match (lhs, rhs) {
        (Value::Num(a), Value::Num(b)) => if a.less(*b) {
            Standing::Below
        } else if b.less(*a) {
            Standing::Above
        } else {
            Standing::Same
        },
        (Value::Str(a), Value::Str(b)) => order_bytes(a.as_slice(), b.as_slice()),
        _ => {
            return Err(EvalError::TypeMismatch);
        },
    };
    let truth = match relation {
        Relation::Equal => matches!(standing, Standing::Same),
        Relation::NotEqual => !matches!(standing, Standing::Same),
        Relation::Less => matches!(standing, Standing::Below),
        Relation::Greater => matches!(standing, Standing::Above),
        Relation::AtMost => !matches!(standing, Standing::Above),
        Relation::AtLeast => !matches!(standing, Standing::Below),
    };
    Ok(Value::Num(Number::from_bool(truth)))
}

/// An expression that is being read.
struct Parser {
    chars: Vec<char>,
    pos: usize,
    seed: u64,
}

impl Parser {
    spec fn wf(&self) -> bool {
        self.pos <= self.chars@.len() <= usize::MAX
    }

    /// The character at the current position is `c`.
    fn peek(&self, c: char) -> (r: bool)
        requires
            self.wf(),
        ensures
            r == grammar::at(self.chars@, self.pos as int, c),
    {
        self.pos < self.chars.len() && self.chars[self.pos] == c
    }

    /// The character behind the current position is `c`.
    fn peek_after(&self, c: char) -> (r: bool)
        requires
            self.wf(),
        ensures
            r == grammar::at(self.chars@, self.pos + 1, c),
    {
        self.pos < self.chars.len() && self.pos + 1 < self.chars.len() && self.chars[self.pos
            + 1] == c
    }

    fn skip_ws(&mut self)
        requires
            old(self).wf(),
        ensures
            final(self).wf(),
            final(self).chars == old(self).chars,
            final(self).seed == old(self).seed,
            final(self).pos == grammar::skip_blanks(old(self).chars@, old(self).pos as int),
    {
        let ghost start = self.pos as int;
        while self.pos < self.chars.len() && text::blank(self.chars[self.pos])
            invariant
                self.wf(),
                self.chars == old(self).chars,
                self.seed == old(self).seed,
                grammar::skip_blanks(self.chars@, start) == grammar::skip_blanks(
                    self.chars@,
                    self.pos as int,
                ),
            decreases self.chars@.len() - self.pos,
        {
            self.pos = self.pos + 1;
        }
    }

    /// The name at the current position, which holds a letter.
    fn read_identifier(&mut self) -> (r: String)
        requires
            old(self).wf(),
            old(self).pos < old(self).chars@.len(),
            text::is_letter(old(self).chars@[old(self).pos as int]),
        ensures
            final(self).wf(),
            final(self).chars == old(self).chars,
            final(self).seed == old(self).seed,
            final(self).pos > old(self).pos,
            final(self).pos == grammar::name_end(old(self).chars@, old(self).pos as int),
            r@ == grammar::name_at(old(self).chars@, old(self).pos as int),
    {
        let ghost s = self.chars@;
        let ghost start = self.pos as int;
        proof {
            grammar::lemma_name_end(s, start);
        }
        let mut name = String::new();
        while self.pos < self.chars.len() && text::alnum(self.chars[self.pos])
            invariant
                self.wf(),
                self.chars == old(self).chars,
                self.seed == old(self).seed,
                s == self.chars@,
                0 <= start <= self.pos,
                grammar::alnum_end(s, start) == grammar::alnum_end(s, self.pos as int),
                name@ == text::uppercase(s.subrange(start, self.pos as int)),
            decreases self.chars@.len() - self.pos,
        {
            name.push(text::to_upper(self.chars[self.pos]));
            self.pos = self.pos + 1;
            assert(text::uppercase(s.subrange(start, self.pos as int)) == text::uppercase(
                s.subrange(start, self.pos - 1),
            ).push(text::upper(s[self.pos - 1])));
        }
        if self.peek('$') {
            self.pos = self.pos + 1;
            name.push('$');
        }
        name
    }

    /// Move past a run of digits.
    fn skip_digits(&mut self)
        requires
            old(self).wf(),
        ensures
            final(self).wf(),
            final(self).chars == old(self).chars,
            final(self).seed == old(self).seed,
            final(self).pos == grammar::digits_end(old(self).chars@, old(self).pos as int),
            final(self).pos >= old(self).pos,
    {
        let ghost start = self.pos as int;
        while self.pos < self.chars.len() && '0' <= self.chars[self.pos] && self.chars[self.pos]
            <= '9'
            invariant
                self.wf(),
                self.chars == old(self).chars,
                self.seed == old(self).seed,
                start <= self.pos,
                grammar::digits_end(self.chars@, start) == grammar::digits_end(
                    self.chars@,
                    self.pos as int,
                ),
            decreases self.chars@.len() - self.pos,
        {
            self.pos = self.pos + 1;
        }
    }

    /// The number at the current position.
    fn number<C: Calculator>(&mut self, calc: &C) -> (r: Result<Number, EvalError>)
        requires
            old(self).wf(),
            old(self).pos < old(self).chars@.len(),
        ensures
            final(self).wf(),
            final(self).chars == old(self).chars,
            final(self).seed == old(self).seed,
            ({
                let p = grammar::read_number(old(self).chars@, old(self).pos as int);
                match r {
                    Ok(n) => p.ok && final(self).pos == p.next && p.tree is Number && (
                    calculator::deterministic(*calc) ==> n == (calculator::arithmetic(*calc).literal)(p.tree->Number_0)),
                    Err(e) => !p.ok && e is BadNumber && p.tree == Tree::Fail(Mistake::BadNumber),
                }
            }),
    {
        let start = self.pos;
        let ghost s = self.chars@;
        self.skip_digits();
        let mut has_digits = self.pos > start;
        if self.peek('.') {
            self.pos = self.pos + 1;
            let after_point = self.pos;
            self.skip_digits();
            has_digits = has_digits && self.pos > after_point;
        }
        let mantissa = self.pos;
        let digits = vstd::slice::slice_subrange(self.chars.as_slice(), start, mantissa);
        let mut literal = text::string(digits);
        if self.peek('e') || self.peek('E') {
            literal.push('e');
            self.pos = self.pos + 1;
            if self.peek('+') || self.peek('-') {
                self.pos = self.pos + 1;
            }
            let exponent = self.pos;
            self.skip_digits();
            if self.pos == exponent {
                return Err(EvalError::BadNumber);
            }
            let tail = vstd::slice::slice_subrange(
                self.chars.as_slice(),
                mantissa + 1,
                self.pos,
            );
            let tail = text::string(tail);
            literal.append(tail.as_str());
        }
        if !has_digits {
            return Err(EvalError::BadNumber);
        }
        Ok(calculator::literal(calc, literal.as_str()))
    }

    /// The string literal that opens at the current position.
    fn string_literal(&mut self) -> (r: Result<Value, EvalError>)
        requires
            old(self).wf(),
            grammar::at(old(self).chars@, old(self).pos as int, '"'),
        ensures
            final(self).wf(),
            final(self).chars == old(self).chars,
            final(self).seed == old(self).seed,
            match grammar::text_from(old(self).chars@, old(self).pos + 1, Seq::empty()) {
                Some((t, next)) => final(self).pos == next && result_view(r) == Ok::<
                    ValueView,
                    Mistake,
                >(ValueView::Str(vstd::utf8::encode_utf8(t))),
                None => r is Err && r->Err_0 is UnterminatedString,
            },
    {
        let ghost whole = grammar::text_from(self.chars@, self.pos + 1, Seq::empty());
        self.pos = self.pos + 1;
        let mut seen = String::new();
        while self.pos < self.chars.len()
            invariant
                self.wf(),
                self.chars == old(self).chars,
                self.seed == old(self).seed,
                whole == grammar::text_from(
                    old(self).chars@,
                    old(self).pos + 1,
                    Seq::<char>::empty(),
                ),
                whole == grammar::text_from(self.chars@, self.pos as int, seen@),
            decreases self.chars@.len() - self.pos,
        {
            let c = self.chars[self.pos];
            if c == '"' {
                if self.peek_after('"') {
                    self.pos = self.pos + 2;
                    seen.push('"');
                } else {
                    self.pos = self.pos + 1;
                    return Ok(Value::Str(seen.as_str().as_bytes_vec()));
                }
            } else {
                self.pos = self.pos + 1;
                seen.push(c);
            }
        }
        Err(EvalError::UnterminatedString)
    }
}

impl Parser {
    /// Move past the comparison at the current position, if there is one.
    fn relation_sign(&mut self) -> (r: Option<Relation>)
        requires
            old(self).wf(),
        ensures
            final(self).wf(),
            final(self).chars == old(self).chars,
            final(self).seed == old(self).seed,
            match grammar::relation_at(old(self).chars@, old(self).pos as int) {
                Some((relation, width)) => r == Some(relation) && final(self).pos == old(self).pos
                    + width && width > 0,
                None => r is None && final(self).pos == old(self).pos,
            },
    {
        if self.peek('<') {
            if self.peek_after('=') {
                self.pos = self.pos + 2;
                Some(Relation::AtMost)
            } else if self.peek_after('>') {
                self.pos = self.pos + 2;
                Some(Relation::NotEqual)
            } else {
                self.pos = self.pos + 1;
                Some(Relation::Less)
            }
        } else if self.peek('>') {
            if self.peek_after('=') {
                self.pos = self.pos + 2;
                Some(Relation::AtLeast)
            } else {
                self.pos = self.pos + 1;
                Some(Relation::Greater)
            }
        } else if self.peek('=') {
            self.pos = self.pos + 1;
            Some(Relation::Equal)
        } else {
            None
        }
    }

    /// `relation` of the grammar.
    fn relation<E: Env, C: Calculator>(&mut self, sc: &Scope<E, C>) -> (r: Result<Value, EvalError>)
        requires
            old(self).wf(),
        ensures
            final(self).wf(),
            final(self).chars == old(self).chars,
            ({
                let p = grammar::read_relation(old(self).chars@, old(self).pos as int);
                &&& r is Ok ==> p.ok && final(self).pos == p.next
                &&& sc.lawful() ==> (result_view(r), final(self).seed) == sc.value(
                    p.tree,
                    old(self).seed,
                )
            }),
        decreases sc.depth, old(self).chars@.len() - old(self).pos, 8int,
    {
        let ghost s = self.chars@;
        let ghost start = self.pos as int;
        proof {
            grammar::lemma_read_additive(s, start);
        }
        let lhs = match self.additive(sc) {
            Ok(v) => v,
            Err(e) => {
                return Err(e);
            },
        };
        proof {
            grammar::lemma_skip_blanks(s, self.pos as int);
        }
        self.skip_ws();
        let relation = match self.relation_sign() {
            Some(relation) => relation,
            None => {
                return Ok(lhs);
            },
        };
        let rhs = match self.additive(sc) {
            Ok(v) => v,
            Err(e) => {
                return Err(e);
            },
        };
        compare(&lhs, &rhs, relation)
    }

    /// `additive` of the grammar.
    fn additive<E: Env, C: Calculator>(&mut self, sc: &Scope<E, C>) -> (r: Result<Value, EvalError>)
        requires
            old(self).wf(),
        ensures
            final(self).wf(),
            final(self).chars == old(self).chars,
            ({
                let p = grammar::read_additive(old(self).chars@, old(self).pos as int);
                &&& r is Ok ==> p.ok && final(self).pos == p.next
                &&& sc.lawful() ==> (result_view(r), final(self).seed) == sc.value(
                    p.tree,
                    old(self).seed,
                )
            }),
        decreases sc.depth, old(self).chars@.len() - old(self).pos, 7int,
    {
        let ghost s = self.chars@;
        let ghost start = self.pos as int;
        let ghost seed = self.seed;
        let ghost whole = grammar::read_additive(s, start);
        let ghost mut tree = grammar::read_term(s, start).tree;
        proof {
            grammar::lemma_read_term(s, start);
        }
        let mut lhs = match self.term(sc) {
            Ok(v) => v,
            Err(e) => {
                proof {
                    let p = grammar::read_term(s, start);
                    if sc.lawful() && p.ok {
                        lemma_additive_error(
                            s,
                            p.next,
                            p.tree,
                            sc.env.model(),
                            sc.binding(),
                            calculator::arithmetic(*sc.calc),
                            sc.depth as nat,
                            seed,
                        );
                    }
                }
                return Err(e);
            },
        };
        loop
            invariant
                self.wf(),
                self.chars == old(self).chars,
                s == self.chars@,
                start == old(self).pos,
                start < self.pos,
                seed == old(self).seed,
                whole == grammar::read_additive(s, start),
                whole == grammar::more_additive(s, self.pos as int, tree),
                sc.lawful() ==> (Ok::<ValueView, Mistake>(lhs@), self.seed) == sc.value(
                    tree,
                    seed,
                ),
            decreases self.chars@.len() - self.pos,
        {
            proof {
                grammar::lemma_skip_blanks(s, self.pos as int);
            }
            self.skip_ws();
            let plus = self.peek('+');
            if !plus && !self.peek('-') {
                return Ok(lhs);
            }
            self.pos = self.pos + 1;
            let ghost at = self.pos as int;
            let ghost rhs_tree = grammar::read_term(s, at).tree;
            let ghost op = if plus {
                Operation::Add
            } else {
                Operation::Subtract
            };
            proof {
                grammar::lemma_read_term(s, at);
                tree = Tree::Binary(op, Box::new(tree), Box::new(rhs_tree));
            }
            let sum = match self.term(sc) {
                Ok(rhs) => if plus {
                    self::add(lhs, rhs, sc.calc)
                } else {
                    numeric(Operation::Subtract, lhs, rhs, sc.calc)
                },
                Err(e) => Err(e),
            };
            match sum {
                Ok(v) => {
                    lhs = v;
                },
                Err(e) => {
                    proof {
                        let p = grammar::read_term(s, at);
                        if sc.lawful() && p.ok {
                            lemma_additive_error(
                                s,
                                p.next,
                                tree,
                                sc.env.model(),
                                sc.binding(),
                                calculator::arithmetic(*sc.calc),
                                sc.depth as nat,
                                seed,
                            );
                        }
                    }
                    return Err(e);
                },
            }
        }
    }

    /// `term` of the grammar.
    fn term<E: Env, C: Calculator>(&mut self, sc: &Scope<E, C>) -> (r: Result<Value, EvalError>)
        requires
            old(self).wf(),
        ensures
            final(self).wf(),
            final(self).chars == old(self).chars,
            ({
                let p = grammar::read_term(old(self).chars@, old(self).pos as int);
                &&& r is Ok ==> p.ok && final(self).pos == p.next
                &&& sc.lawful() ==> (result_view(r), final(self).seed) == sc.value(
                    p.tree,
                    old(self).seed,
                )
            }),
        decreases sc.depth, old(self).chars@.len() - old(self).pos, 6int,
    {
        let ghost s = self.chars@;
        let ghost start = self.pos as int;
        let ghost seed = self.seed;
        let ghost whole = grammar::read_term(s, start);
        let ghost mut tree = grammar::read_power(s, start).tree;
        proof {
            grammar::lemma_read_power(s, start);
        }
        let mut lhs = match self.power(sc) {
            Ok(v) => v,
            Err(e) => {
                proof {
                    let p = grammar::read_power(s, start);
                    if sc.lawful() && p.ok {
                        lemma_term_error(
                            s,
                            p.next,
                            p.tree,
                            sc.env.model(),
                            sc.binding(),
                            calculator::arithmetic(*sc.calc),
                            sc.depth as nat,
                            seed,
                        );
                    }
                }
                return Err(e);
            },
        };
        loop
            invariant
                self.wf(),
                self.chars == old(self).chars,
                s == self.chars@,
                start == old(self).pos,
                start < self.pos,
                seed == old(self).seed,
                whole == grammar::read_term(s, start),
                whole == grammar::more_term(s, self.pos as int, tree),
                sc.lawful() ==> (Ok::<ValueView, Mistake>(lhs@), self.seed) == sc.value(
                    tree,
                    seed,
                ),
            decreases self.chars@.len() - self.pos,
        {
            proof {
                grammar::lemma_skip_blanks(s, self.pos as int);
            }
            self.skip_ws();
            let times = self.peek('*');
            if !times && !self.peek('/') {
                return Ok(lhs);
            }
            let op = if times {
                Operation::Multiply
            } else {
                Operation::Divide
            };
            self.pos = self.pos + 1;
            let ghost at = self.pos as int;
            let ghost rhs_tree = grammar::read_power(s, at).tree;
            proof {
                grammar::lemma_read_power(s, at);
                tree = Tree::Binary(op, Box::new(tree), Box::new(rhs_tree));
            }
            let product = match self.power(sc) {
                Ok(rhs) => numeric(op, lhs, rhs, sc.calc),
                Err(e) => Err(e),
            };
            match product {
                Ok(v) => {
                    lhs = v;
                },
                Err(e) => {
                    proof {
                        let p = grammar::read_power(s, at);
                        if sc.lawful() && p.ok {
                            lemma_term_error(
                                s,
                                p.next,
                                tree,
                                sc.env.model(),
                                sc.binding(),
                                calculator::arithmetic(*sc.calc),
                                sc.depth as nat,
                                seed,
                            );
                        }
                    }
                    return Err(e);
                },
            }
        }
    }

    /// `power` of the grammar.
    fn power<E: Env, C: Calculator>(&mut self, sc: &Scope<E, C>) -> (r: Result<Value, EvalError>)
        requires
            old(self).wf(),
        ensures
            final(self).wf(),
            final(self).chars == old(self).chars,
            ({
                let p = grammar::read_power(old(self).chars@, old(self).pos as int);
                &&& r is Ok ==> p.ok && final(self).pos == p.next
                &&& sc.lawful() ==> (result_view(r), final(self).seed) == sc.value(
                    p.tree,
                    old(self).seed,
                )
            }),
        decreases sc.depth, old(self).chars@.len() - old(self).pos, 5int,
    {
        let ghost s = self.chars@;
        proof {
            grammar::lemma_read_unary(s, self.pos as int);
        }
        let base = match self.unary(sc) {
            Ok(v) => v,
            Err(e) => {
                return Err(e);
            },
        };
        proof {
            grammar::lemma_skip_blanks(s, self.pos as int);
        }
        self.skip_ws();
        if self.peek('^') {
            self.pos = self.pos + 1;
            match self.power(sc) {
                Ok(exponent) => numeric(Operation::Power, base, exponent, sc.calc),
                Err(e) => Err(e),
            }
        } else {
            Ok(base)
        }
    }

    /// `unary` of the grammar.
    fn unary<E: Env, C: Calculator>(&mut self, sc: &Scope<E, C>) -> (r: Result<Value, EvalError>)
        requires
            old(self).wf(),
        ensures
            final(self).wf(),
            final(self).chars == old(self).chars,
            ({
                let p = grammar::read_unary(old(self).chars@, old(self).pos as int);
                &&& r is Ok ==> p.ok && final(self).pos == p.next
                &&& sc.lawful() ==> (result_view(r), final(self).seed) == sc.value(
                    p.tree,
                    old(self).seed,
                )
            }),
        decreases sc.depth, old(self).chars@.len() - old(self).pos, 4int,
    {
        proof {
            grammar::lemma_skip_blanks(self.chars@, self.pos as int);
        }
        self.skip_ws();
        if self.peek('-') {
            self.pos = self.pos + 1;
            match self.unary(sc) {
                Ok(v) => match v {
                    Value::Num(n) => Ok(Value::Num(n.negate())),
                    Value::Str(_) => Err(EvalError::TypeMismatch),
                },
                Err(e) => Err(e),
            }
        } else if self.peek('+') {
            self.pos = self.pos + 1;
            self.unary(sc)
        } else {
            self.call_or_primary(sc)
        }
    }

    /// The expression in the brackets that open at the current position.
    fn bracket<E: Env, C: Calculator>(&mut self, sc: &Scope<E, C>) -> (r: Result<Value, EvalError>)
        requires
            old(self).wf(),
            grammar::at(old(self).chars@, old(self).pos as int, '('),
        ensures
            final(self).wf(),
            final(self).chars == old(self).chars,
            ({
                let p = grammar::read_bracket(old(self).chars@, old(self).pos as int);
                &&& r is Ok ==> p.ok && final(self).pos == p.next
                &&& sc.lawful() ==> (result_view(r), final(self).seed) == sc.value(
                    p.tree,
                    old(self).seed,
                )
            }),
        decreases sc.depth, old(self).chars@.len() - old(self).pos, 0int,
    {
        self.pos = self.pos + 1;
        let v = match self.relation(sc) {
            Ok(v) => v,
            Err(e) => {
                return Err(e);
            },
        };
        self.skip_ws();
        if self.peek(')') {
            self.pos = self.pos + 1;
            Ok(v)
        } else {
            Err(EvalError::MissingCloseParen)
        }
    }

    /// `atom` of the grammar.
    fn call_or_primary<E: Env, C: Calculator>(&mut self, sc: &Scope<E, C>) -> (r: Result<
        Value,
        EvalError,
    >)
        requires
            old(self).wf(),
        ensures
            final(self).wf(),
            final(self).chars == old(self).chars,
            ({
                let p = grammar::read_atom(old(self).chars@, old(self).pos as int);
                &&& r is Ok ==> p.ok && final(self).pos == p.next
                &&& sc.lawful() ==> (result_view(r), final(self).seed) == sc.value(
                    p.tree,
                    old(self).seed,
                )
            }),
        decreases sc.depth, old(self).chars@.len() - old(self).pos, 3int,
    {
        if self.pos < self.chars.len() && text::letter(self.chars[self.pos]) {
            let name = self.read_identifier();
            if is_func_0arg(name.as_str()) {
                let args: Vec<Value> = Vec::new();
                assert(env::values_view(args@) == Seq::<ValueView>::empty());
                self.call(sc, name, args)
            } else if is_func_1arg(name.as_str()) {
                proof {
                    grammar::lemma_read_unary(self.chars@, self.pos as int);
                }
                match self.unary(sc) {
                    Ok(v) => {
                        let mut args: Vec<Value> = Vec::new();
                        let ghost arg = v@;
                        args.push(v);
                        assert(env::values_view(args@) == seq![arg]);
                        self.call(sc, name, args)
                    },
                    Err(e) => Err(e),
                }
            } else {
                proof {
                    grammar::lemma_skip_blanks(self.chars@, self.pos as int);
                }
                self.skip_ws();
                if text::same(name.as_str(), "FN") {
                    self.user_call(sc)
                } else if self.peek('(') {
                    self.element(sc, name)
                } else {
                    match sc.variable(name.as_str()) {
                        Some(v) => Ok(v),
                        None => Err(EvalError::UnknownVariable(name)),
                    }
                }
            }
        } else {
            self.primary(sc)
        }
    }

    /// The element of the array `name` whose index is in the brackets that
    /// open at the current position.
    fn element<E: Env, C: Calculator>(&mut self, sc: &Scope<E, C>, name: String) -> (r: Result<
        Value,
        EvalError,
    >)
        requires
            old(self).wf(),
            grammar::at(old(self).chars@, old(self).pos as int, '('),
        ensures
            final(self).wf(),
            final(self).chars == old(self).chars,
            ({
                let p = grammar::read_bracket(old(self).chars@, old(self).pos as int);
                &&& r is Ok ==> p.ok && final(self).pos == p.next
                &&& sc.lawful() ==> (result_view(r), final(self).seed) == sc.value(
                    Tree::Element(name@, Box::new(p.tree)),
                    old(self).seed,
                )
            }),
        decreases sc.depth, old(self).chars@.len() - old(self).pos, 1int,
    {
        match self.bracket(sc) {
            Ok(v) => match v {
                Value::Num(index) => match sc.env.get_array(name.as_str(), index) {
                    Some(v) => Ok(v),
                    None => Err(EvalError::UnknownVariable(name)),
                },
                Value::Str(_) => Err(EvalError::TypeMismatch),
            },
            Err(e) => Err(e),
        }
    }

    /// The name and the argument behind `FN`.
    fn user_call<E: Env, C: Calculator>(&mut self, sc: &Scope<E, C>) -> (r: Result<Value, EvalError>)
        requires
            old(self).wf(),
        ensures
            final(self).wf(),
            final(self).chars == old(self).chars,
            ({
                let p = grammar::read_user_call(old(self).chars@, old(self).pos as int);
                &&& r is Ok ==> p.ok && final(self).pos == p.next
                &&& sc.lawful() ==> (result_view(r), final(self).seed) == sc.value(
                    p.tree,
                    old(self).seed,
                )
            }),
        decreases sc.depth, old(self).chars@.len() - old(self).pos, 2int,
    {
        if !(self.pos < self.chars.len() && text::letter(self.chars[self.pos])) {
            return Err(EvalError::Nonsense);
        }
        let name = self.read_identifier();
        proof {
            grammar::lemma_skip_blanks(self.chars@, self.pos as int);
        }
        self.skip_ws();
        if !self.peek('(') {
            return Err(EvalError::Nonsense);
        }
        let arg = match self.bracket(sc) {
            Ok(v) => v,
            Err(e) => {
                return Err(e);
            },
        };
        match sc.env.get_user_fn(name.as_str()) {
            Some(f) => {
                if sc.depth == 0 {
                    return Err(EvalError::UnknownFunction(name));
                }
                let inner = Scope {
                    env: sc.env,
                    calc: sc.calc,
                    local: Some(Local { name: f.param.as_str(), value: &arg }),
                    depth: sc.depth - 1,
                };
                match run(text::chars(f.body.as_str()), &inner, &mut self.seed) {
                    Ok(v) => Ok(v),
                    Err(_) => Err(EvalError::UnknownFunction(name)),
                }
            },
            None => Err(EvalError::UnknownFunction(name)),
        }
    }

    /// Call the built-in function `name`.
    fn call<E: Env, C: Calculator>(&mut self, sc: &Scope<E, C>, name: String, args: Vec<Value>) -> (r:
        Result<Value, EvalError>)
        requires
            old(self).wf(),
        ensures
            final(self).wf(),
            final(self).chars == old(self).chars,
            final(self).pos == old(self).pos,
            sc.lawful() ==> (result_view(r), final(self).seed) == sc.called(
                name@,
                env::values_view(args@),
                old(self).seed,
            ),
        decreases sc.depth, old(self).chars@.len() - old(self).pos, 1int,
    {
        match sc.env.call_fn(name.as_str(), args.as_slice(), &mut self.seed) {
            Some(Called::Value(v)) => Ok(v),
            Some(Called::Evaluate(src)) => {
                if sc.depth == 0 {
                    return Err(EvalError::UnknownFunction(name));
                }
                let inner = Scope {
                    env: sc.env,
                    calc: sc.calc,
                    local: None,
                    depth: sc.depth - 1,
                };
                match run(text::chars(src.as_str()), &inner, &mut self.seed) {
                    Ok(v) => Ok(v),
                    Err(_) => Err(EvalError::UnknownFunction(name)),
                }
            },
            None => Err(EvalError::UnknownFunction(name)),
        }
    }

    /// A literal or an expression in brackets.
    fn primary<E: Env, C: Calculator>(&mut self, sc: &Scope<E, C>) -> (r: Result<Value, EvalError>)
        requires
            old(self).wf(),
            old(self).pos < old(self).chars@.len() ==> !text::is_letter(
                old(self).chars@[old(self).pos as int],
            ),
        ensures
            final(self).wf(),
            final(self).chars == old(self).chars,
            ({
                let p = grammar::read_atom(old(self).chars@, old(self).pos as int);
                &&& r is Ok ==> p.ok && final(self).pos == p.next
                &&& sc.lawful() ==> (result_view(r), final(self).seed) == sc.value(
                    p.tree,
                    old(self).seed,
                )
            }),
        decreases sc.depth, old(self).chars@.len() - old(self).pos, 2int,
    {
        if self.peek('(') {
            self.bracket(sc)
        } else if self.peek('"') {
            self.string_literal()
        } else if self.pos < self.chars.len() && (('0' <= self.chars[self.pos]
            && self.chars[self.pos] <= '9') || self.chars[self.pos] == '.') {
            match self.number(sc.calc) {
                Ok(n) => Ok(Value::Num(n)),
                Err(e) => Err(e),
            }
        } else {
            Err(EvalError::Nonsense)
        }
    }
}

/// Evaluate a text in a scope.
fn run<E: Env, C: Calculator>(src: Vec<char>, sc: &Scope<E, C>, seed: &mut u64) -> (r: Result<
    Value,
    EvalError,
>)
    ensures
        r is Ok ==> grammar::is_expression(src@),
        sc.lawful() ==> (result_view(r), *final(seed)) == sc.value(
            grammar::parse(src@),
            *old(seed),
        ),
    decreases sc.depth, src@.len(), 9int,
{
    let n = src.len();
    let mut p = Parser { chars: src, pos: 0, seed: *seed };
    let r = p.relation(sc);
    *seed = p.seed;
    match r {
        Ok(v) => {
            p.skip_ws();
            if p.pos < n {
                Err(EvalError::TrailingInput)
            } else {
                Ok(v)
            }
        },
        Err(e) => Err(e),
    }
}

/// Parse and evaluate `src` as an expression with no variables.
pub fn evaluate<C: Calculator>(src: &str, calc: &C) -> (r: Result<Value, EvalError>)
    ensures
        r is Ok ==> grammar::is_expression(src@),
        calculator::deterministic(*calc) ==> result_view(r) == semantics::evaluation(
            src@,
            EmptyEnv.model(),
            calculator::arithmetic(*calc),
            0,
        ).0,
{
    let mut seed: u64 = 0;
    evaluate_with(src, &EmptyEnv, calc, &mut seed)
}

/// Parse and evaluate `src` with the variables and functions of `env`.
/// `seed` is the state of the random numbers.
pub fn evaluate_with<E: Env, C: Calculator>(src: &str, env: &E, calc: &C, seed: &mut u64) -> (r:
    Result<Value, EvalError>)
    ensures
        r is Ok ==> grammar::is_expression(src@),
        semantics::settled(*env, *calc) ==> (result_view(r), *final(seed)) == semantics::evaluation(
            src@,
            env.model(),
            calculator::arithmetic(*calc),
            *old(seed),
        ),
{
    evaluate_chars(text::chars(src).as_slice(), env, calc, seed)
}

/// Parse and evaluate the characters `src`.
pub fn evaluate_chars<E: Env, C: Calculator>(src: &[char], env: &E, calc: &C, seed: &mut u64) -> (r:
    Result<Value, EvalError>)
    ensures
        r is Ok ==> grammar::is_expression(src@),
        semantics::settled(*env, *calc) ==> (result_view(r), *final(seed)) == semantics::evaluation(
            src@,
            env.model(),
            calculator::arithmetic(*calc),
            *old(seed),
        ),
{
    let sc = Scope { env, calc, local: None, depth: NESTING };
    run(text::copy(src), &sc, seed)
}

/// Parse and evaluate `src`, which must be numeric.
pub fn evaluate_num_with<E: Env, C: Calculator>(src: &str, env: &E, calc: &C, seed: &mut u64) -> (r:
    Result<Number, EvalError>)
    ensures
        r is Ok ==> grammar::is_expression(src@),
        semantics::settled(*env, *calc) ==> (number_view(r), *final(seed)) == semantics::number_evaluation(
            src@,
            env.model(),
            calculator::arithmetic(*calc),
            *old(seed),
        ),
{
    match evaluate_with(src, env, calc, seed) {
        Ok(v) => v.as_num(),
        Err(e) => Err(e),
    }
}

/// What the text before a keyword evaluates to, and the text behind it.
pub open spec fn until_keyword(
    src: Seq<char>,
    word: Seq<char>,
    env: EnvView,
    ar: Arithmetic,
    seed: u64,
) -> (Result<(ValueView, Seq<char>), Mistake>, u64) {
    match syntax::at_word(src, word) {
        None => (Err(Mistake::Nonsense), seed),
        Some((condition, rest)) => match semantics::evaluation(condition, env, ar, seed) {
            (Ok(v), after) => (Ok((v, rest)), after),
            (Err(e), after) => (Err(e), after),
        },
    }
}

/// What a value with the text behind it stands for.
pub open spec fn split_view(r: Result<(Value, &str), EvalError>) -> Result<
    (ValueView, Seq<char>),
    Mistake,
> {
    match r {
        Ok((v, rest)) => Ok((v@, rest@)),
        Err(e) => Err(e@),
    }
}

/// Evaluate the part of `src` before the word `stop_at`, which may be in
/// either case, and hand out the part behind it.
pub fn evaluate_until_keyword<'a, E: Env, C: Calculator>(
    src: &'a str,
    stop_at: &str,
    env: &E,
    calc: &C,
    seed: &mut u64,
) -> (r: Result<(Value, &'a str), EvalError>)
    ensures
        semantics::settled(*env, *calc) || syntax::at_word(src@, text::uppercase(stop_at@)) is None
            ==> (split_view(r), *final(seed)) == until_keyword(
            src@,
            text::uppercase(stop_at@),
            env.model(),
            calculator::arithmetic(*calc),
            *old(seed),
        ),
        r matches Ok((v, rest)) ==> (syntax::at_word(src@, text::uppercase(stop_at@)) matches Some(
            (before, behind),
        ) && rest@ == behind && grammar::is_expression(before)),
{
    let word = text::upper_chars(stop_at);
    let chars = text::chars(src);
    match syntax::find_word(chars.as_slice(), word.as_slice()) {
        None => Err(EvalError::Nonsense),
        Some(i) => {
            let n = chars.len();
            let condition = src.substring_char(0, i);
            let rest = src.substring_char(i + word.len(), n);
            match evaluate_with(condition, env, calc, seed) {
                Ok(v) => Ok((v, rest)),
                Err(e) => Err(e),
            }
        },
    }
}

/// What a numeric result stands for.
pub open spec fn number_view(r: Result<Number, EvalError>) -> Result<Number, Mistake> {
    match r {
        Ok(n) => Ok(n),
        Err(e) => Err(e@),
    }
}

} // verus!
