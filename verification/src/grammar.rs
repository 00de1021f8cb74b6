//! The grammar of expressions.
//!
//! ```text
//! expression = relation
//! relation   = additive (('=' | '<>' | '<' | '>' | '<=' | '>=') additive)?
//! additive   = term     (('+' | '-') term)*
//! term       = power    (('*' | '/') power)*
//! power      = unary    ('^' power)?
//! unary      = '-' unary | '+' unary | atom
//! atom       = FUNCTION unary? | 'FN' name '(' expression ')'
//!            | name '(' expression ')' | name
//!            | number | '"' text '"' | '(' expression ')'
//! number     = digit+ ('.' digit+)? ([eE] [+-]? digit+)?
//! ```
//!
//! An expression is evaluated while it is read, so what stands before a
//! mistake is evaluated all the same. The tree of a text therefore has its
//! first mistake as a leaf, where evaluation meets it in turn.

use vstd::prelude::*;

use crate::calculator::Operation;
use crate::text;

verus! {

/// The comparisons.
#[derive(Clone, Copy, Debug, PartialEq, Eq, Structural)]
pub enum Relation {
    Equal,
    NotEqual,
    Less,
    Greater,
    AtMost,
    AtLeast,
}

/// What can be wrong with an expression.
pub enum Mistake {
    Nonsense,
    TrailingInput,
    MissingCloseParen,
    BadNumber,
    UnknownVariable(Seq<char>),
    UnknownFunction(Seq<char>),
    TypeMismatch,
    UnterminatedString,
}

/// An expression.
pub enum Tree {
    /// A numeric literal.
    Number(Seq<char>),
    /// A string literal.
    Text(Seq<char>),
    Variable(Seq<char>),
    /// An element of an array.
    Element(Seq<char>, Box<Tree>),
    /// A built-in function without an argument.
    Constant(Seq<char>),
    /// A built-in function of one argument.
    Call(Seq<char>, Box<Tree>),
    /// A function made by `DEF FN`.
    UserCall(Seq<char>, Box<Tree>),
    Negate(Box<Tree>),
    Binary(Operation, Box<Tree>, Box<Tree>),
    Compare(Relation, Box<Tree>, Box<Tree>),
    /// A mistake in the text.
    Fail(Mistake),
    /// A mistake in the text behind an expression.
    Spoiled(Box<Tree>, Mistake),
}

/// What was read: a tree, where reading stopped, and whether it may go on.
pub struct Reading {
    pub tree: Tree,
    pub next: int,
    pub ok: bool,
}

pub open spec fn read(tree: Tree, next: int) -> Reading {
    Reading { tree, next, ok: true }
}

pub open spec fn broken(tree: Tree, next: int) -> Reading {
    Reading { tree, next, ok: false }
}

/// Whether `s` has `c` at `i`.
pub open spec fn at(s: Seq<char>, i: int, c: char) -> bool {
    0 <= i < s.len() && s[i] == c
}

/// The first position at or after `i` that holds no blank.
pub open spec fn skip_blanks(s: Seq<char>, i: int) -> int
    decreases s.len() - i,
{
    if 0 <= i < s.len() && text::is_blank(s[i]) {
        skip_blanks(s, i + 1)
    } else {
        i
    }
}

/// The end of the run of digits at `i`.
pub open spec fn digits_end(s: Seq<char>, i: int) -> int
    decreases s.len() - i,
{
    if 0 <= i < s.len() && text::is_digit(s[i]) {
        digits_end(s, i + 1)
    } else {
        i
    }
}

/// The end of the run of letters and digits at `i`.
pub open spec fn alnum_end(s: Seq<char>, i: int) -> int
    decreases s.len() - i,
{
    if 0 <= i < s.len() && text::is_alnum(s[i]) {
        alnum_end(s, i + 1)
    } else {
        i
    }
}

/// The name at `i`, in capitals: letters and digits, then at most one `$`.
pub open spec fn name_at(s: Seq<char>, i: int) -> Seq<char> {
    let e = alnum_end(s, i);
    let name = text::uppercase(s.subrange(i, e));
    if at(s, e, '$') {
        name.push('$')
    } else {
        name
    }
}

/// The end of the name at `i`.
pub open spec fn name_end(s: Seq<char>, i: int) -> int {
    let e = alnum_end(s, i);
    if at(s, e, '$') {
        e + 1
    } else {
        e
    }
}

/// The string literal whose text starts at `i`, with `seen` read already: its
/// text and the position behind the closing quote. A doubled quote stands for
/// one quote.
pub open spec fn text_from(s: Seq<char>, i: int, seen: Seq<char>) -> Option<(Seq<char>, int)>
    decreases s.len() - i,
{
    if i < 0 || i >= s.len() {
        None
    } else if s[i] != '"' {
        text_from(s, i + 1, seen.push(s[i]))
    } else if at(s, i + 1, '"') {
        text_from(s, i + 2, seen.push('"'))
    } else {
        Some((seen, i + 1))
    }
}

/// The end of the digits and the point of the number at `i`.
pub open spec fn mantissa_end(s: Seq<char>, i: int) -> int {
    let e = digits_end(s, i);
    if at(s, e, '.') {
        digits_end(s, e + 1)
    } else {
        e
    }
}

/// Whether the number at `i` has digits before its point, and behind it where
/// it has one.
pub open spec fn has_digits(s: Seq<char>, i: int) -> bool {
    let e = digits_end(s, i);
    e > i && (at(s, e, '.') ==> digits_end(s, e + 1) > e + 1)
}

/// Where the digits of an exponent that is marked at `i` begin.
pub open spec fn exponent_start(s: Seq<char>, i: int) -> int {
    if at(s, i + 1, '+') || at(s, i + 1, '-') {
        i + 2
    } else {
        i + 1
    }
}

/// The number at `i`. Its literal has a small `e` for either exponent mark.
pub open spec fn read_number(s: Seq<char>, i: int) -> Reading {
    let m = mantissa_end(s, i);
    if at(s, m, 'e') || at(s, m, 'E') {
        let d = exponent_start(s, m);
        let e = digits_end(s, d);
        if e == d || !has_digits(s, i) {
            broken(Tree::Fail(Mistake::BadNumber), e)
        } else {
            read(Tree::Number(s.subrange(i, m).push('e') + s.subrange(m + 1, e)), e)
        }
    } else if has_digits(s, i) {
        read(Tree::Number(s.subrange(i, m)), m)
    } else {
        broken(Tree::Fail(Mistake::BadNumber), m)
    }
}

/// The comparison at `i` and how many characters it takes.
pub open spec fn relation_at(s: Seq<char>, i: int) -> Option<(Relation, int)> {
    if at(s, i, '<') && at(s, i + 1, '=') {
        Some((Relation::AtMost, 2))
    } else if at(s, i, '>') && at(s, i + 1, '=') {
        Some((Relation::AtLeast, 2))
    } else if at(s, i, '<') && at(s, i + 1, '>') {
        Some((Relation::NotEqual, 2))
    } else if at(s, i, '<') {
        Some((Relation::Less, 1))
    } else if at(s, i, '>') {
        Some((Relation::Greater, 1))
    } else if at(s, i, '=') {
        Some((Relation::Equal, 1))
    } else {
        None
    }
}

/// The built-in functions without an argument.
pub open spec fn is_constant(name: Seq<char>) -> bool {
    name == "RND"@ || name == "PI"@
}

/// The built-in functions of one argument.
pub open spec fn is_function(name: Seq<char>) -> bool {
    ||| name == "SIN"@
    ||| name == "COS"@
    ||| name == "TAN"@
    ||| name == "ASN"@
    ||| name == "ACS"@
    ||| name == "ATN"@
    ||| name == "LN"@
    ||| name == "EXP"@
    ||| name == "INT"@
    ||| name == "ABS"@
    ||| name == "SQR"@
    ||| name == "SGN"@
    ||| name == "LEN"@
    ||| name == "CODE"@
    ||| name == "VAL"@
    ||| name == "CHR$"@
    ||| name == "STR$"@
}

/// Whether reading went on from `i`, inside the text.
pub open spec fn onward(s: Seq<char>, p: Reading, i: int) -> bool {
    p.ok && i < p.next <= s.len()
}

pub open spec fn read_relation(s: Seq<char>, i: int) -> Reading
    decreases s.len() - i, 8int,
{
    let lhs = read_additive(s, i);
    if onward(s, lhs, i) {
        let j = skip_blanks(s, lhs.next);
        proof {
            lemma_skip_blanks(s, lhs.next);
        }
        match relation_at(s, j) {
            None => read(lhs.tree, j),
            Some((relation, width)) => {
                let rhs = read_additive(s, j + width);
                Reading {
                    tree: Tree::Compare(relation, Box::new(lhs.tree), Box::new(rhs.tree)),
                    next: rhs.next,
                    ok: rhs.ok,
                }
            },
        }
    } else {
        broken(lhs.tree, lhs.next)
    }
}

pub open spec fn read_additive(s: Seq<char>, i: int) -> Reading
    decreases s.len() - i, 7int,
{
    let lhs = read_term(s, i);
    if onward(s, lhs, i) {
        more_additive(s, lhs.next, lhs.tree)
    } else {
        broken(lhs.tree, lhs.next)
    }
}

/// The terms behind `lhs`.
pub open spec fn more_additive(s: Seq<char>, i: int, lhs: Tree) -> Reading
    decreases s.len() - i, 0int,
{
    let j = skip_blanks(s, i);
    proof {
        lemma_skip_blanks(s, i);
    }
    if at(s, j, '+') || at(s, j, '-') {
        let op = if at(s, j, '+') {
            Operation::Add
        } else {
            Operation::Subtract
        };
        let rhs = read_term(s, j + 1);
        let tree = Tree::Binary(op, Box::new(lhs), Box::new(rhs.tree));
        if onward(s, rhs, j) {
            more_additive(s, rhs.next, tree)
        } else {
            broken(tree, rhs.next)
        }
    } else {
        read(lhs, j)
    }
}

pub open spec fn read_term(s: Seq<char>, i: int) -> Reading
    decreases s.len() - i, 6int,
{
    let lhs = read_power(s, i);
    if onward(s, lhs, i) {
        more_term(s, lhs.next, lhs.tree)
    } else {
        broken(lhs.tree, lhs.next)
    }
}

/// The factors behind `lhs`.
pub open spec fn more_term(s: Seq<char>, i: int, lhs: Tree) -> Reading
    decreases s.len() - i, 0int,
{
    let j = skip_blanks(s, i);
    proof {
        lemma_skip_blanks(s, i);
    }
    if at(s, j, '*') || at(s, j, '/') {
        let op = if at(s, j, '*') {
            Operation::Multiply
        } else {
            Operation::Divide
        };
        let rhs = read_power(s, j + 1);
        let tree = Tree::Binary(op, Box::new(lhs), Box::new(rhs.tree));
        if onward(s, rhs, j) {
            more_term(s, rhs.next, tree)
        } else {
            broken(tree, rhs.next)
        }
    } else {
        read(lhs, j)
    }
}

pub open spec fn read_power(s: Seq<char>, i: int) -> Reading
    decreases s.len() - i, 5int,
{
    let base = read_unary(s, i);
    if onward(s, base, i) {
        let j = skip_blanks(s, base.next);
        proof {
            lemma_skip_blanks(s, base.next);
        }
        if at(s, j, '^') {
            let exponent = read_power(s, j + 1);
            Reading {
                tree: Tree::Binary(
                    Operation::Power,
                    Box::new(base.tree),
                    Box::new(exponent.tree),
                ),
                next: exponent.next,
                ok: exponent.ok,
            }
        } else {
            read(base.tree, j)
        }
    } else {
        broken(base.tree, base.next)
    }
}

pub open spec fn read_unary(s: Seq<char>, i: int) -> Reading
    decreases s.len() - i, 4int,
{
    let j = skip_blanks(s, i);
    proof {
        lemma_skip_blanks(s, i);
    }
    if at(s, j, '-') {
        let p = read_unary(s, j + 1);
        Reading { tree: Tree::Negate(Box::new(p.tree)), next: p.next, ok: p.ok }
    } else if at(s, j, '+') {
        read_unary(s, j + 1)
    } else {
        read_atom(s, j)
    }
}

/// The expression in brackets that opens at `i`.
pub open spec fn read_bracket(s: Seq<char>, i: int) -> Reading
    decreases s.len() - i, 0int,
{
    if at(s, i, '(') {
        let p = read_relation(s, i + 1);
        if p.ok {
            let j = skip_blanks(s, p.next);
            if at(s, j, ')') {
                read(p.tree, j + 1)
            } else {
                broken(Tree::Spoiled(Box::new(p.tree), Mistake::MissingCloseParen), j)
            }
        } else {
            p
        }
    } else {
        broken(Tree::Fail(Mistake::Nonsense), i)
    }
}

pub open spec fn read_atom(s: Seq<char>, i: int) -> Reading
    decreases s.len() - i, 3int,
{
    if 0 <= i < s.len() && text::is_letter(s[i]) {
        let name = name_at(s, i);
        let e = name_end(s, i);
        let j = skip_blanks(s, e);
        proof {
            lemma_name_end(s, i);
            lemma_skip_blanks(s, e);
        }
        if is_constant(name) {
            read(Tree::Constant(name), e)
        } else if is_function(name) {
            let p = read_unary(s, e);
            Reading { tree: Tree::Call(name, Box::new(p.tree)), next: p.next, ok: p.ok }
        } else if name == "FN"@ {
            read_user_call(s, j)
        } else if at(s, j, '(') {
            let p = read_bracket(s, j);
            Reading { tree: Tree::Element(name, Box::new(p.tree)), next: p.next, ok: p.ok }
        } else {
            read(Tree::Variable(name), j)
        }
    } else if at(s, i, '(') {
        read_bracket(s, i)
    } else if at(s, i, '"') {
        match text_from(s, i + 1, Seq::empty()) {
            Some((text, next)) => read(Tree::Text(text), next),
            None => broken(Tree::Fail(Mistake::UnterminatedString), s.len() as int),
        }
    } else if 0 <= i < s.len() && (text::is_digit(s[i]) || s[i] == '.') {
        read_number(s, i)
    } else {
        broken(Tree::Fail(Mistake::Nonsense), i)
    }
}

/// The name and the argument that stand at `i`, behind an `FN`.
pub open spec fn read_user_call(s: Seq<char>, i: int) -> Reading
    decreases s.len() - i, 2int,
{
    if 0 <= i < s.len() && text::is_letter(s[i]) {
        let name = name_at(s, i);
        let j = skip_blanks(s, name_end(s, i));
        proof {
            lemma_name_end(s, i);
            lemma_skip_blanks(s, name_end(s, i));
        }
        if at(s, j, '(') {
            let p = read_bracket(s, j);
            Reading { tree: Tree::UserCall(name, Box::new(p.tree)), next: p.next, ok: p.ok }
        } else {
            broken(Tree::Fail(Mistake::Nonsense), j)
        }
    } else {
        broken(Tree::Fail(Mistake::Nonsense), i)
    }
}

/// The tree of a whole text.
pub open spec fn parse(s: Seq<char>) -> Tree {
    let p = read_relation(s, 0);
    if p.ok && skip_blanks(s, p.next) < s.len() {
        Tree::Spoiled(Box::new(p.tree), Mistake::TrailingInput)
    } else {
        p.tree
    }
}

/// Whether `s` is an expression of the grammar, with nothing behind it.
pub open spec fn is_expression(s: Seq<char>) -> bool {
    let p = read_relation(s, 0);
    p.ok && skip_blanks(s, p.next) >= s.len()
}

pub proof fn lemma_skip_blanks(s: Seq<char>, i: int)
    ensures
        i <= skip_blanks(s, i),
        i <= s.len() ==> skip_blanks(s, i) <= s.len(),
        0 <= skip_blanks(s, i) < s.len() ==> !text::is_blank(s[skip_blanks(s, i)]),
    decreases s.len() - i,
{
    if 0 <= i < s.len() && text::is_blank(s[i]) {
        lemma_skip_blanks(s, i + 1);
    }
}

pub proof fn lemma_digits_end(s: Seq<char>, i: int)
    ensures
        i <= digits_end(s, i),
        i <= s.len() ==> digits_end(s, i) <= s.len(),
    decreases s.len() - i,
{
    if 0 <= i < s.len() && text::is_digit(s[i]) {
        lemma_digits_end(s, i + 1);
    }
}

pub proof fn lemma_alnum_end(s: Seq<char>, i: int)
    ensures
        i <= alnum_end(s, i),
        i <= s.len() ==> alnum_end(s, i) <= s.len(),
    decreases s.len() - i,
{
    if 0 <= i < s.len() && text::is_alnum(s[i]) {
        lemma_alnum_end(s, i + 1);
    }
}

pub proof fn lemma_name_end(s: Seq<char>, i: int)
    requires
        0 <= i < s.len(),
        text::is_letter(s[i]),
    ensures
        i < alnum_end(s, i) <= name_end(s, i) <= s.len(),
{
    lemma_alnum_end(s, i + 1);
}

pub proof fn lemma_text_from(s: Seq<char>, i: int, seen: Seq<char>)
    requires
        0 <= i,
    ensures
        text_from(s, i, seen) matches Some((t, n)) ==> i < n <= s.len(),
    decreases s.len() - i,
{
    if i < s.len() {
        if s[i] != '"' {
            lemma_text_from(s, i + 1, seen.push(s[i]));
        } else if at(s, i + 1, '"') {
            lemma_text_from(s, i + 2, seen.push('"'));
        }
    }
}

proof fn lemma_read_number(s: Seq<char>, i: int)
    requires
        0 <= i < s.len(),
    ensures
        read_number(s, i).ok ==> i < read_number(s, i).next <= s.len(),
        i <= mantissa_end(s, i) <= s.len(),
{
    lemma_digits_end(s, i);
    let e = digits_end(s, i);
    lemma_digits_end(s, e + 1);
    let m = mantissa_end(s, i);
    lemma_digits_end(s, exponent_start(s, m));
}

/// Reading an expression takes at least one character and stays inside the
/// text.
pub proof fn lemma_read_relation(s: Seq<char>, i: int)
    requires
        0 <= i <= s.len(),
    ensures
        read_relation(s, i).ok ==> i < read_relation(s, i).next <= s.len(),
    decreases s.len() - i, 8int,
{
    lemma_read_additive(s, i);
    let lhs = read_additive(s, i);
    if lhs.ok {
        let j = skip_blanks(s, lhs.next);
        lemma_skip_blanks(s, lhs.next);
        if let Some((relation, width)) = relation_at(s, j) {
            lemma_read_additive(s, j + width);
        }
    }
}

pub proof fn lemma_read_additive(s: Seq<char>, i: int)
    requires
        0 <= i <= s.len(),
    ensures
        read_additive(s, i).ok ==> i < read_additive(s, i).next <= s.len(),
    decreases s.len() - i, 7int,
{
    lemma_read_term(s, i);
    let lhs = read_term(s, i);
    if lhs.ok {
        lemma_more_additive(s, lhs.next, lhs.tree);
    }
}

pub proof fn lemma_more_additive(s: Seq<char>, i: int, lhs: Tree)
    requires
        0 <= i <= s.len(),
    ensures
        more_additive(s, i, lhs).ok ==> i <= more_additive(s, i, lhs).next <= s.len(),
    decreases s.len() - i, 0int,
{
    let j = skip_blanks(s, i);
    lemma_skip_blanks(s, i);
    if at(s, j, '+') || at(s, j, '-') {
        lemma_read_term(s, j + 1);
        let rhs = read_term(s, j + 1);
        let op = if at(s, j, '+') {
            Operation::Add
        } else {
            Operation::Subtract
        };
        if rhs.ok {
            lemma_more_additive(
                s,
                rhs.next,
                Tree::Binary(op, Box::new(lhs), Box::new(rhs.tree)),
            );
        }
    }
}

pub proof fn lemma_read_term(s: Seq<char>, i: int)
    requires
        0 <= i <= s.len(),
    ensures
        read_term(s, i).ok ==> i < read_term(s, i).next <= s.len(),
    decreases s.len() - i, 6int,
{
    lemma_read_power(s, i);
    let lhs = read_power(s, i);
    if lhs.ok {
        lemma_more_term(s, lhs.next, lhs.tree);
    }
}

pub proof fn lemma_more_term(s: Seq<char>, i: int, lhs: Tree)
    requires
        0 <= i <= s.len(),
    ensures
        more_term(s, i, lhs).ok ==> i <= more_term(s, i, lhs).next <= s.len(),
    decreases s.len() - i, 0int,
{
    let j = skip_blanks(s, i);
    lemma_skip_blanks(s, i);
    if at(s, j, '*') || at(s, j, '/') {
        lemma_read_power(s, j + 1);
        let rhs = read_power(s, j + 1);
        let op = if at(s, j, '*') {
            Operation::Multiply
        } else {
            Operation::Divide
        };
        if rhs.ok {
            lemma_more_term(s, rhs.next, Tree::Binary(op, Box::new(lhs), Box::new(rhs.tree)));
        }
    }
}

pub proof fn lemma_read_power(s: Seq<char>, i: int)
    requires
        0 <= i <= s.len(),
    ensures
        read_power(s, i).ok ==> i < read_power(s, i).next <= s.len(),
    decreases s.len() - i, 5int,
{
    lemma_read_unary(s, i);
    let base = read_unary(s, i);
    if base.ok {
        let j = skip_blanks(s, base.next);
        lemma_skip_blanks(s, base.next);
        if at(s, j, '^') {
            lemma_read_power(s, j + 1);
        }
    }
}

pub proof fn lemma_read_unary(s: Seq<char>, i: int)
    requires
        0 <= i <= s.len(),
    ensures
        read_unary(s, i).ok ==> i < read_unary(s, i).next <= s.len(),
    decreases s.len() - i, 4int,
{
    let j = skip_blanks(s, i);
    lemma_skip_blanks(s, i);
    if at(s, j, '-') || at(s, j, '+') {
        lemma_read_unary(s, j + 1);
    } else {
        lemma_read_atom(s, j);
    }
}

pub proof fn lemma_read_bracket(s: Seq<char>, i: int)
    requires
        0 <= i <= s.len(),
    ensures
        read_bracket(s, i).ok ==> i < read_bracket(s, i).next <= s.len(),
    decreases s.len() - i, 0int,
{
    if at(s, i, '(') {
        lemma_read_relation(s, i + 1);
        lemma_skip_blanks(s, read_relation(s, i + 1).next);
    }
}

pub proof fn lemma_read_atom(s: Seq<char>, i: int)
    requires
        0 <= i <= s.len(),
    ensures
        read_atom(s, i).ok ==> i < read_atom(s, i).next <= s.len(),
    decreases s.len() - i, 3int,
{
    if i < s.len() && text::is_letter(s[i]) {
        lemma_name_end(s, i);
        let e = name_end(s, i);
        let j = skip_blanks(s, e);
        lemma_skip_blanks(s, e);
        lemma_read_unary(s, e);
        lemma_read_bracket(s, j);
        if j < s.len() && text::is_letter(s[j]) {
            lemma_name_end(s, j);
            let k = skip_blanks(s, name_end(s, j));
            lemma_skip_blanks(s, name_end(s, j));
            lemma_read_bracket(s, k);
        }
    } else if at(s, i, '(') {
        lemma_read_bracket(s, i);
    } else if i < s.len() {
        lemma_text_from(s, i + 1, Seq::empty());
        lemma_read_number(s, i);
    }
}

} // verus!
