//! What the grammar makes of expressions that are written out.
//!
//! `written` is one way to write an expression, with a bracket round every
//! operation. Reading it gives the expression back, and without brackets the
//! operations are grouped by rank.

use vstd::prelude::*;

use crate::calculator::Operation;
use crate::grammar;
use crate::grammar::{Mistake, Relation, Tree};
use crate::text;

verus! {

/// The sign of an operation.
pub open spec fn sign(op: Operation) -> char {
    match op {
        Operation::Add => '+',
        Operation::Subtract => '-',
        Operation::Multiply => '*',
        Operation::Divide => '/',
        Operation::Power => '^',
    }
}

/// How closely an operation binds.
pub open spec fn rank(op: Operation) -> int {
    match op {
        Operation::Add | Operation::Subtract => 1,
        Operation::Multiply | Operation::Divide => 2,
        Operation::Power => 3,
    }
}

/// The sign of a comparison.
pub open spec fn relation_sign(q: Relation) -> Seq<char> {
    match q {
        Relation::Equal => seq!['='],
        Relation::NotEqual => seq!['<', '>'],
        Relation::Less => seq!['<'],
        Relation::Greater => seq!['>'],
        Relation::AtMost => seq!['<', '='],
        Relation::AtLeast => seq!['>', '='],
    }
}

/// A capital letter, then capital letters and digits.
pub open spec fn plain_name(s: Seq<char>) -> bool {
    &&& s.len() > 0
    &&& 'A' <= s[0] <= 'Z'
    &&& forall|i: int| 0 <= i < s.len() ==> ('A' <= #[trigger] s[i] <= 'Z' || '0' <= s[i] <= '9')
}

/// A plain name with or without a `$`.
pub open spec fn is_name(s: Seq<char>) -> bool {
    plain_name(s) || (s.len() > 0 && s.last() == '$' && plain_name(s.drop_last()))
}

/// A name that is no word of the language.
pub open spec fn free_name(s: Seq<char>) -> bool {
    is_name(s) && !grammar::is_constant(s) && !grammar::is_function(s) && s != "FN"@
}

/// A numeral.
pub open spec fn all_digits(s: Seq<char>) -> bool {
    s.len() > 0 && forall|i: int| 0 <= i < s.len() ==> text::is_digit(#[trigger] s[i])
}

/// The text of a string literal, with every quote doubled.
pub open spec fn quoted(x: Seq<char>) -> Seq<char>
    decreases x.len(),
{
    if x.len() == 0 {
        Seq::empty()
    } else if x[0] == '"' {
        seq!['"', '"'] + quoted(x.drop_first())
    } else {
        seq![x[0]] + quoted(x.drop_first())
    }
}

/// Whether an expression is made of whole numbers, strings, names and the
/// operations on them.
pub open spec fn writable(t: Tree) -> bool
    decreases t,
{
    match t {
        Tree::Number(d) => all_digits(d),
        Tree::Text(x) => true,
        Tree::Variable(name) => free_name(name),
        Tree::Element(name, i) => free_name(name) && writable(*i),
        Tree::Constant(name) => is_name(name) && grammar::is_constant(name),
        Tree::Call(name, a) => is_name(name) && !grammar::is_constant(name)
            && grammar::is_function(name) && writable(*a),
        Tree::UserCall(name, a) => is_name(name) && writable(*a),
        Tree::Negate(a) => writable(*a),
        Tree::Binary(op, a, b) => writable(*a) && writable(*b),
        Tree::Compare(q, a, b) => writable(*a) && writable(*b),
        Tree::Fail(_) => false,
        Tree::Spoiled(_, _) => false,
    }
}

/// An expression written out, with a bracket round every operation.
pub open spec fn written(t: Tree) -> Seq<char>
    decreases t,
{
    match t {
        Tree::Number(d) => d,
        Tree::Text(x) => seq!['"'] + quoted(x) + seq!['"'],
        Tree::Variable(name) => name,
        Tree::Element(name, i) => name + seq!['('] + written(*i) + seq![')'],
        Tree::Constant(name) => name,
        Tree::Call(name, a) => name + seq!['('] + written(*a) + seq![')'],
        Tree::UserCall(name, a) => seq!['F', 'N', ' '] + name + seq!['('] + written(*a)
            + seq![')'],
        Tree::Negate(a) => seq!['(', '-'] + written(*a) + seq![')'],
        Tree::Binary(op, a, b) => seq!['('] + written(*a) + seq![sign(op)] + written(*b)
            + seq![')'],
        Tree::Compare(q, a, b) => seq!['('] + written(*a) + relation_sign(q) + written(*b)
            + seq![')'],
        Tree::Fail(_) => Seq::empty(),
        Tree::Spoiled(_, _) => Seq::empty(),
    }
}

/// Whether `w` stands in `s` at `i`.
pub open spec fn stands(s: Seq<char>, i: int, w: Seq<char>) -> bool {
    &&& 0 <= i
    &&& i + w.len() <= s.len()
    &&& forall|k: int| 0 <= k < w.len() ==> s[i + k] == #[trigger] w[k]
}

/// Whether an operand can end before `e`.
pub open spec fn stop(s: Seq<char>, e: int) -> bool {
    ||| e == s.len()
    ||| 0 <= e < s.len() && (s[e] == ')' || s[e] == '+' || s[e] == '-' || s[e] == '*' || s[e] == '/'
        || s[e] == '^' || s[e] == '<' || s[e] == '>' || s[e] == '=')
}

/// What an operand begins with.
pub open spec fn opener(c: char) -> bool {
    text::is_letter(c) || text::is_digit(c) || c == '(' || c == '"'
}

proof fn lemma_stands_part(s: Seq<char>, i: int, a: Seq<char>, b: Seq<char>)
    requires
        stands(s, i, a + b),
    ensures
        stands(s, i, a),
        stands(s, i + a.len(), b),
{
    let w = a + b;
    assert forall|k: int| 0 <= k < a.len() implies s[i + k] == #[trigger] a[k] by {
        assert(w[k] == a[k]);
    }
    assert forall|k: int| 0 <= k < b.len() implies s[i + a.len() + k] == #[trigger] b[k] by {
        assert(w[a.len() + k] == b[k]);
    }
}

proof fn lemma_digits(s: Seq<char>, i: int, e: int)
    requires
        0 <= i <= e <= s.len(),
        forall|k: int| i <= k < e ==> text::is_digit(#[trigger] s[k]),
        e < s.len() ==> !text::is_digit(s[e]),
    ensures
        grammar::digits_end(s, i) == e,
    decreases e - i,
{
    if i < e {
        lemma_digits(s, i + 1, e);
    }
}

proof fn lemma_alnums(s: Seq<char>, i: int, e: int)
    requires
        0 <= i <= e <= s.len(),
        forall|k: int| i <= k < e ==> text::is_alnum(#[trigger] s[k]),
        e < s.len() ==> !text::is_alnum(s[e]),
    ensures
        grammar::alnum_end(s, i) == e,
    decreases e - i,
{
    if i < e {
        lemma_alnums(s, i + 1, e);
    }
}

/// A name is read to its end.
proof fn lemma_name(s: Seq<char>, i: int, name: Seq<char>)
    requires
        is_name(name),
        stands(s, i, name),
        i + name.len() < s.len() ==> !text::is_alnum(s[i + name.len()]) && s[i + name.len()] != '$',
    ensures
        grammar::name_at(s, i) == name,
        grammar::name_end(s, i) == i + name.len(),
        text::is_letter(s[i]),
{
    let e = i + name.len();
    assert(s[i] == s[i + 0]);
    assert(s[i + 0] == name[0]);
    if plain_name(name) {
        assert forall|k: int| i <= k < e implies text::is_alnum(#[trigger] s[k]) by {
            assert(s[i + (k - i)] == name[k - i]);
        }
        lemma_alnums(s, i, e);
        let read = text::uppercase(s.subrange(i, e));
        assert forall|k: int| 0 <= k < name.len() implies #[trigger] read[k] == name[k] by {
            assert(s[i + k] == name[k]);
        }
        assert(read == name);
    } else {
        let plain = name.drop_last();
        let m = e - 1;
        assert(s[i + (name.len() - 1)] == name[name.len() - 1]);
        assert(s[i + 0] == plain[0]);
        assert forall|k: int| i <= k < m implies text::is_alnum(#[trigger] s[k]) by {
            assert(s[i + (k - i)] == name[k - i]);
            assert(name[k - i] == plain[k - i]);
        }
        lemma_alnums(s, i, m);
        let read = text::uppercase(s.subrange(i, m));
        assert forall|k: int| 0 <= k < plain.len() implies #[trigger] read[k] == plain[k] by {
            assert(s[i + k] == name[k]);
            assert(name[k] == plain[k]);
        }
        assert(read == plain);
        assert(plain.push('$') == name);
    }
}

/// The text of a string literal is read to its closing quote.
proof fn lemma_quoted(s: Seq<char>, i: int, x: Seq<char>, seen: Seq<char>)
    requires
        stands(s, i, quoted(x) + seq!['"']),
        !grammar::at(s, i + quoted(x).len() + 1, '"'),
    ensures
        grammar::text_from(s, i, seen) == Some((seen + x, (i + quoted(x).len() + 1) as int)),
    decreases x.len(),
{
    let w = quoted(x) + seq!['"'];
    if x.len() == 0 {
        assert(w[0] == '"');
        assert(s[i + 0] == w[0]);
        assert(seen + x == seen);
    } else {
        let rest = x.drop_first();
        let v = quoted(rest) + seq!['"'];
        if x[0] == '"' {
            assert(w == seq!['"', '"'] + v);
            lemma_stands_part(s, i, seq!['"', '"'], v);
            assert(s[i + 0] == seq!['"', '"'][0]);
            assert(s[i + 1] == seq!['"', '"'][1]);
            lemma_quoted(s, i + 2, rest, seen.push('"'));
            assert(seen.push('"') + rest == seen + x);
        } else {
            assert(w == seq![x[0]] + v);
            lemma_stands_part(s, i, seq![x[0]], v);
            assert(s[i + 0] == seq![x[0]][0]);
            lemma_quoted(s, i + 1, rest, seen.push(x[0]));
            assert(seen.push(x[0]) + rest == seen + x);
        }
    }
}

/// A position without a blank is not skipped.
proof fn lemma_no_blank(s: Seq<char>, e: int)
    requires
        stop(s, e) || (0 <= e < s.len() && opener(s[e])),
    ensures
        grammar::skip_blanks(s, e) == e,
{
}

/// From an atom to an operand.
proof fn lemma_to_unary(s: Seq<char>, p: int, t: Tree, e: int)
    requires
        0 <= p < s.len(),
        opener(s[p]),
        grammar::read_atom(s, p) == grammar::read(t, e),
    ensures
        grammar::read_unary(s, p) == grammar::read(t, e),
{
    lemma_no_blank(s, p);
}

proof fn lemma_to_power(s: Seq<char>, p: int, t: Tree, e: int)
    requires
        grammar::read_unary(s, p) == grammar::read(t, e),
        p < e <= s.len(),
        stop(s, e),
        !grammar::at(s, e, '^'),
    ensures
        grammar::read_power(s, p) == grammar::read(t, e),
{
    lemma_no_blank(s, e);
}

proof fn lemma_raised(s: Seq<char>, p: int, a: Tree, e: int, b: Tree, f: int)
    requires
        grammar::read_unary(s, p) == grammar::read(a, e),
        0 <= p < e < s.len(),
        s[e] == '^',
        grammar::read_power(s, e + 1) == grammar::read(b, f),
    ensures
        grammar::read_power(s, p) == grammar::read(
            Tree::Binary(Operation::Power, Box::new(a), Box::new(b)),
            f,
        ),
{
    lemma_no_blank(s, e);
}

proof fn lemma_factor_end(s: Seq<char>, e: int, t: Tree)
    requires
        stop(s, e),
        !grammar::at(s, e, '*'),
        !grammar::at(s, e, '/'),
    ensures
        grammar::more_term(s, e, t) == grammar::read(t, e),
{
    lemma_no_blank(s, e);
}

proof fn lemma_factor(s: Seq<char>, e: int, t: Tree, op: Operation, b: Tree, f: int)
    requires
        0 <= e < s.len(),
        rank(op) == 2,
        s[e] == sign(op),
        grammar::read_power(s, e + 1) == grammar::read(b, f),
        e + 1 < f <= s.len(),
    ensures
        grammar::more_term(s, e, t) == grammar::more_term(
            s,
            f,
            Tree::Binary(op, Box::new(t), Box::new(b)),
        ),
{
    lemma_no_blank(s, e);
}

proof fn lemma_to_term(s: Seq<char>, p: int, t: Tree, e: int)
    requires
        grammar::read_power(s, p) == grammar::read(t, e),
        p < e <= s.len(),
    ensures
        grammar::read_term(s, p) == grammar::more_term(s, e, t),
{
}

proof fn lemma_summand_end(s: Seq<char>, e: int, t: Tree)
    requires
        stop(s, e),
        !grammar::at(s, e, '+'),
        !grammar::at(s, e, '-'),
    ensures
        grammar::more_additive(s, e, t) == grammar::read(t, e),
{
    lemma_no_blank(s, e);
}

proof fn lemma_summand(s: Seq<char>, e: int, t: Tree, op: Operation, b: Tree, f: int)
    requires
        0 <= e < s.len(),
        rank(op) == 1,
        s[e] == sign(op),
        grammar::read_term(s, e + 1) == grammar::read(b, f),
        e + 1 < f <= s.len(),
    ensures
        grammar::more_additive(s, e, t) == grammar::more_additive(
            s,
            f,
            Tree::Binary(op, Box::new(t), Box::new(b)),
        ),
{
    lemma_no_blank(s, e);
}

proof fn lemma_to_additive(s: Seq<char>, p: int, t: Tree, e: int)
    requires
        grammar::read_term(s, p) == grammar::read(t, e),
        p < e <= s.len(),
    ensures
        grammar::read_additive(s, p) == grammar::more_additive(s, e, t),
{
}

/// Whether an operand ends at a bracket or with the text.
pub open spec fn closed_at(s: Seq<char>, e: int) -> bool {
    e == s.len() || grammar::at(s, e, ')')
}

proof fn lemma_to_relation(s: Seq<char>, p: int, t: Tree, e: int)
    requires
        grammar::read_additive(s, p) == grammar::read(t, e),
        p < e <= s.len(),
        closed_at(s, e),
    ensures
        grammar::read_relation(s, p) == grammar::read(t, e),
{
    lemma_no_blank(s, e);
}

/// Whether a sum ends at `e`.
pub open spec fn sum_ends(s: Seq<char>, e: int) -> bool {
    ||| closed_at(s, e)
    ||| grammar::at(s, e, '<')
    ||| grammar::at(s, e, '>')
    ||| grammar::at(s, e, '=')
}

/// An operand before anything but an operation is a sum.
proof fn lemma_alone(s: Seq<char>, p: int, t: Tree, e: int)
    requires
        grammar::read_unary(s, p) == grammar::read(t, e),
        p < e <= s.len(),
        sum_ends(s, e),
    ensures
        grammar::read_additive(s, p) == grammar::read(t, e),
{
    lemma_to_power(s, p, t, e);
    lemma_to_term(s, p, t, e);
    lemma_factor_end(s, e, t);
    lemma_to_additive(s, p, t, e);
    lemma_summand_end(s, e, t);
}

/// One operation between two operands.
proof fn lemma_operation(s: Seq<char>, p: int, a: Tree, e: int, op: Operation, b: Tree, f: int)
    requires
        grammar::read_unary(s, p) == grammar::read(a, e),
        grammar::read_unary(s, e + 1) == grammar::read(b, f),
        0 <= p < e,
        e + 1 < f <= s.len(),
        s[e] == sign(op),
        sum_ends(s, f),
    ensures
        grammar::read_additive(s, p) == grammar::read(
            Tree::Binary(op, Box::new(a), Box::new(b)),
            f,
        ),
{
    let t = Tree::Binary(op, Box::new(a), Box::new(b));
    lemma_to_power(s, e + 1, b, f);
    if rank(op) == 3 {
        lemma_raised(s, p, a, e, b, f);
        lemma_to_term(s, p, t, f);
        lemma_factor_end(s, f, t);
        lemma_to_additive(s, p, t, f);
        lemma_summand_end(s, f, t);
    } else if rank(op) == 2 {
        lemma_to_power(s, p, a, e);
        lemma_to_term(s, p, a, e);
        lemma_factor(s, e, a, op, b, f);
        lemma_factor_end(s, f, t);
        lemma_to_additive(s, p, t, f);
        lemma_summand_end(s, f, t);
    } else {
        lemma_to_power(s, p, a, e);
        lemma_to_term(s, p, a, e);
        lemma_factor_end(s, e, a);
        lemma_to_additive(s, p, a, e);
        lemma_to_term(s, e + 1, b, f);
        lemma_factor_end(s, f, b);
        lemma_summand(s, e, a, op, b, f);
        lemma_summand_end(s, f, t);
    }
}

/// A comparison is read at its sign.
proof fn lemma_relation_at(s: Seq<char>, e: int, q: Relation)
    requires
        stands(s, e, relation_sign(q)),
        e + relation_sign(q).len() < s.len(),
        opener(s[e + relation_sign(q).len()]),
    ensures
        grammar::relation_at(s, e) == Some((q, relation_sign(q).len() as int)),
        grammar::at(s, e, '<') || grammar::at(s, e, '>') || grammar::at(s, e, '='),
{
    let m = relation_sign(q);
    assert(s[e + 0] == m[0]);
    if m.len() == 2 {
        assert(s[e + 1] == m[1]);
    }
}

/// A comparison between two sums.
proof fn lemma_compared(
    s: Seq<char>,
    p: int,
    a: Tree,
    e: int,
    q: Relation,
    w: int,
    b: Tree,
    f: int,
)
    requires
        grammar::read_additive(s, p) == grammar::read(a, e),
        0 <= p < e <= s.len(),
        grammar::at(s, e, '<') || grammar::at(s, e, '>') || grammar::at(s, e, '='),
        grammar::relation_at(s, e) == Some((q, w)),
        grammar::read_additive(s, e + w) == grammar::read(b, f),
    ensures
        grammar::read_relation(s, p) == grammar::read(
            Tree::Compare(q, Box::new(a), Box::new(b)),
            f,
        ),
{
    lemma_no_blank(s, e);
}

/// An expression in brackets.
proof fn lemma_bracket(s: Seq<char>, i: int, t: Tree, e: int)
    requires
        0 <= i < s.len(),
        s[i] == '(',
        grammar::read_relation(s, i + 1) == grammar::read(t, e),
        grammar::at(s, e, ')'),
    ensures
        grammar::read_bracket(s, i) == grammar::read(t, e + 1),
        grammar::read_atom(s, i) == grammar::read(t, e + 1),
{
    lemma_no_blank(s, e);
}

/// A bracketed operand.
proof fn lemma_enclosed(s: Seq<char>, i: int, t: Tree)
    requires
        writable(t),
        stands(s, i, seq!['('] + written(t) + seq![')']),
    ensures
        grammar::read_bracket(s, i) == grammar::read(t, (i + written(t).len() + 2) as int),
        s[i] == '(',
    decreases t, 2int,
{
    let w = written(t);
    let p = i + 1;
    let e = p + w.len();
    assert(seq!['('] + w + seq![')'] == seq!['('] + (w + seq![')']));
    lemma_stands_part(s, i, seq!['('], w + seq![')']);
    lemma_stands_part(s, p, w, seq![')']);
    assert(s[i + 0] == seq!['('][0]);
    assert(s[e + 0] == seq![')'][0]);
    lemma_read_written(s, p, t);
    lemma_alone(s, p, t, e);
    lemma_to_relation(s, p, t, e);
    lemma_bracket(s, i, t, e);
}

proof fn lemma_reads_number(s: Seq<char>, i: int, t: Tree)
    requires
        t is Number,
        writable(t),
        stands(s, i, written(t)),
        stop(s, i + written(t).len()),
    ensures
        written(t).len() > 0,
        opener(s[i]),
        grammar::read_atom(s, i) == grammar::read(t, (i + written(t).len()) as int),
    decreases t, 0int,
{
    let w = written(t);
    let e = i + w.len();
    if let Tree::Number(d) = t {
        assert(s[i + 0] == d[0]);
        assert forall|k: int| i <= k < e implies text::is_digit(#[trigger] s[k]) by {
            assert(s[i + (k - i)] == d[k - i]);
        }
        lemma_digits(s, i, e);
        assert(s.subrange(i, e) == d);
    }
}

proof fn lemma_reads_text(s: Seq<char>, i: int, t: Tree)
    requires
        t is Text,
        writable(t),
        stands(s, i, written(t)),
        stop(s, i + written(t).len()),
    ensures
        written(t).len() > 0,
        opener(s[i]),
        grammar::read_atom(s, i) == grammar::read(t, (i + written(t).len()) as int),
    decreases t, 0int,
{
    let w = written(t);
    let e = i + w.len();
    if let Tree::Text(x) = t {
        assert(w == seq!['"'] + (quoted(x) + seq!['"']));
        lemma_stands_part(s, i, seq!['"'], quoted(x) + seq!['"']);
        assert(s[i + 0] == seq!['"'][0]);
        lemma_quoted(s, i + 1, x, Seq::empty());
        assert(Seq::<char>::empty() + x == x);
    }
}

proof fn lemma_reads_variable(s: Seq<char>, i: int, t: Tree)
    requires
        t is Variable,
        writable(t),
        stands(s, i, written(t)),
        stop(s, i + written(t).len()),
    ensures
        written(t).len() > 0,
        opener(s[i]),
        grammar::read_atom(s, i) == grammar::read(t, (i + written(t).len()) as int),
    decreases t, 0int,
{
    let w = written(t);
    let e = i + w.len();
    if let Tree::Variable(name) = t {
        lemma_name(s, i, name);
        lemma_no_blank(s, e);
    }
}

proof fn lemma_reads_constant(s: Seq<char>, i: int, t: Tree)
    requires
        t is Constant,
        writable(t),
        stands(s, i, written(t)),
        stop(s, i + written(t).len()),
    ensures
        written(t).len() > 0,
        opener(s[i]),
        grammar::read_atom(s, i) == grammar::read(t, (i + written(t).len()) as int),
    decreases t, 0int,
{
    let w = written(t);
    let e = i + w.len();
    if let Tree::Constant(name) = t {
        lemma_name(s, i, name);
    }
}

proof fn lemma_reads_element(s: Seq<char>, i: int, t: Tree)
    requires
        t is Element,
        writable(t),
        stands(s, i, written(t)),
        stop(s, i + written(t).len()),
    ensures
        written(t).len() > 0,
        opener(s[i]),
        grammar::read_atom(s, i) == grammar::read(t, (i + written(t).len()) as int),
    decreases t, 0int,
{
    let w = written(t);
    let e = i + w.len();
    if let Tree::Element(name, a) = t {
        lemma_applied(s, i, name, *a);
        lemma_no_blank(s, i + name.len());
    }
}

proof fn lemma_reads_call(s: Seq<char>, i: int, t: Tree)
    requires
        t is Call,
        writable(t),
        stands(s, i, written(t)),
        stop(s, i + written(t).len()),
    ensures
        written(t).len() > 0,
        opener(s[i]),
        grammar::read_atom(s, i) == grammar::read(t, (i + written(t).len()) as int),
    decreases t, 0int,
{
    let w = written(t);
    let e = i + w.len();
    if let Tree::Call(name, a) = t {
        lemma_applied(s, i, name, *a);
        let b = i + name.len();
        lemma_to_unary(s, b, *a, e);
    }
}

proof fn lemma_reads_user_call(s: Seq<char>, i: int, t: Tree)
    requires
        t is UserCall,
        writable(t),
        stands(s, i, written(t)),
        stop(s, i + written(t).len()),
    ensures
        written(t).len() > 0,
        opener(s[i]),
        grammar::read_atom(s, i) == grammar::read(t, (i + written(t).len()) as int),
    decreases t, 0int,
{
    let w = written(t);
    let e = i + w.len();
    if let Tree::UserCall(name, a) = t {
        let q = i + 3;
        assert(w == seq!['F', 'N', ' '] + (name + seq!['('] + written(*a) + seq![')']));
        lemma_stands_part(
            s,
            i,
            seq!['F', 'N', ' '],
            name + seq!['('] + written(*a) + seq![')'],
        );
        lemma_applied(s, q, name, *a);
        assert(s[i + 0] == seq!['F', 'N', ' '][0]);
        assert(s[i + 1] == seq!['F', 'N', ' '][1]);
        assert(s[i + 2] == seq!['F', 'N', ' '][2]);
        reveal_strlit("FN");
        let fn_name = seq!['F', 'N'];
        assert(fn_name == "FN"@);
        assert(plain_name(fn_name));
        lemma_name(s, i, fn_name);
        lemma_fn_is_free();
        assert(grammar::skip_blanks(s, i + 2) == q) by {
            assert(grammar::skip_blanks(s, q) == q);
        }
        lemma_no_blank(s, q + name.len());
    }
}

proof fn lemma_reads_negate(s: Seq<char>, i: int, t: Tree)
    requires
        t is Negate,
        writable(t),
        stands(s, i, written(t)),
        stop(s, i + written(t).len()),
    ensures
        written(t).len() > 0,
        opener(s[i]),
        grammar::read_atom(s, i) == grammar::read(t, (i + written(t).len()) as int),
    decreases t, 0int,
{
    let w = written(t);
    let e = i + w.len();
    if let Tree::Negate(a) = t {
        let p = i + 2;
        let f = p + written(*a).len();
        assert(w == seq!['(', '-'] + (written(*a) + seq![')']));
        lemma_stands_part(s, i, seq!['(', '-'], written(*a) + seq![')']);
        lemma_stands_part(s, p, written(*a), seq![')']);
        assert(s[i + 0] == seq!['(', '-'][0]);
        assert(s[i + 1] == seq!['(', '-'][1]);
        assert(s[f + 0] == seq![')'][0]);
        lemma_read_written(s, p, *a);
        assert(grammar::skip_blanks(s, i + 1) == i + 1);
        assert(grammar::read_unary(s, i + 1) == grammar::read(t, f));
        lemma_alone(s, i + 1, t, f);
        lemma_to_relation(s, i + 1, t, f);
        lemma_bracket(s, i, t, f);
    }
}

proof fn lemma_reads_binary(s: Seq<char>, i: int, t: Tree)
    requires
        t is Binary,
        writable(t),
        stands(s, i, written(t)),
        stop(s, i + written(t).len()),
    ensures
        written(t).len() > 0,
        opener(s[i]),
        grammar::read_atom(s, i) == grammar::read(t, (i + written(t).len()) as int),
    decreases t, 0int,
{
    let w = written(t);
    let e = i + w.len();
    if let Tree::Binary(op, a, b) = t {
        let p = i + 1;
        let f = p + written(*a).len();
        let g = f + 1 + written(*b).len();
        let tail = written(*b) + seq![')'];
        assert(w == seq!['('] + (written(*a) + (seq![sign(op)] + tail)));
        lemma_stands_part(s, i, seq!['('], written(*a) + (seq![sign(op)] + tail));
        lemma_stands_part(s, p, written(*a), seq![sign(op)] + tail);
        lemma_stands_part(s, f, seq![sign(op)], tail);
        lemma_stands_part(s, f + 1, written(*b), seq![')']);
        assert(s[i + 0] == seq!['('][0]);
        assert(s[f + 0] == seq![sign(op)][0]);
        assert(s[g + 0] == seq![')'][0]);
        lemma_read_written(s, p, *a);
        lemma_read_written(s, f + 1, *b);
        lemma_operation(s, p, *a, f, op, *b, g);
        lemma_to_relation(s, p, t, g);
        lemma_bracket(s, i, t, g);
    }
}

/// What stands inside a bracket with something between two parts.
proof fn lemma_between(s: Seq<char>, i: int, a: Seq<char>, m: Seq<char>, b: Seq<char>)
    requires
        stands(s, i, seq!['('] + a + m + b + seq![')']),
    ensures
        ({
            let f = i + 1 + a.len();
            let h = f + m.len();
            let g = h + b.len();
            &&& s[i] == '('
            &&& stands(s, i + 1, a)
            &&& stands(s, f, m)
            &&& stands(s, h, b)
            &&& g < s.len()
            &&& s[g] == ')'
        }),
{
    let tail = b + seq![')'];
    let f = i + 1 + a.len();
    let h = f + m.len();
    let g = h + b.len();
    assert(seq!['('] + a + m + b + seq![')'] == seq!['('] + (a + (m + tail)));
    lemma_stands_part(s, i, seq!['('], a + (m + tail));
    lemma_stands_part(s, i + 1, a, m + tail);
    lemma_stands_part(s, f, m, tail);
    lemma_stands_part(s, h, b, seq![')']);
    assert(s[i + 0] == seq!['('][0]);
    assert(s[g + 0] == seq![')'][0]);
}

/// A comparison in brackets, given where its operands end.
proof fn lemma_comparison_placed(
    s: Seq<char>,
    i: int,
    a: Tree,
    f: int,
    q: Relation,
    h: int,
    b: Tree,
    g: int,
)
    requires
        0 <= i,
        i + 1 < f < h < g < s.len(),
        s[i] == '(',
        s[g] == ')',
        grammar::read_unary(s, i + 1) == grammar::read(a, f),
        grammar::at(s, f, '<') || grammar::at(s, f, '>') || grammar::at(s, f, '='),
        grammar::relation_at(s, f) == Some((q, h - f)),
        grammar::read_unary(s, h) == grammar::read(b, g),
    ensures
        grammar::read_atom(s, i) == grammar::read(
            Tree::Compare(q, Box::new(a), Box::new(b)),
            g + 1,
        ),
{
    lemma_alone(s, i + 1, a, f);
    lemma_alone(s, h, b, g);
    lemma_compared(s, i + 1, a, f, q, h - f, b, g);
    lemma_bracket(s, i, Tree::Compare(q, Box::new(a), Box::new(b)), g);
}

proof fn lemma_reads_compare(s: Seq<char>, i: int, t: Tree)
    requires
        t is Compare,
        writable(t),
        stands(s, i, written(t)),
        stop(s, i + written(t).len()),
    ensures
        written(t).len() > 0,
        opener(s[i]),
        grammar::read_atom(s, i) == grammar::read(t, (i + written(t).len()) as int),
    decreases t, 0int,
{
    let w = written(t);
    let e = i + w.len();
    if let Tree::Compare(q, a, b) = t {
        let m = relation_sign(q);
        let p = i + 1;
        let f = p + written(*a).len();
        let h = f + m.len();
        let g = h + written(*b).len();
        lemma_between(s, i, written(*a), m, written(*b));
        lemma_read_written(s, h, *b);
        lemma_relation_at(s, f, q);
        lemma_read_written(s, p, *a);
        lemma_comparison_placed(s, i, *a, f, q, h, *b, g);
    }
}

/// An expression that is written out is read as an operand.
proof fn lemma_read_written(s: Seq<char>, i: int, t: Tree)
    requires
        writable(t),
        stands(s, i, written(t)),
        stop(s, i + written(t).len()),
    ensures
        written(t).len() > 0,
        opener(s[i]),
        grammar::read_atom(s, i) == grammar::read(t, (i + written(t).len()) as int),
        grammar::read_unary(s, i) == grammar::read(t, (i + written(t).len()) as int),
    decreases t, 1int,
{
    match t {
        Tree::Number(..) => lemma_reads_number(s, i, t),
        Tree::Text(..) => lemma_reads_text(s, i, t),
        Tree::Variable(..) => lemma_reads_variable(s, i, t),
        Tree::Constant(..) => lemma_reads_constant(s, i, t),
        Tree::Element(..) => lemma_reads_element(s, i, t),
        Tree::Call(..) => lemma_reads_call(s, i, t),
        Tree::UserCall(..) => lemma_reads_user_call(s, i, t),
        Tree::Negate(..) => lemma_reads_negate(s, i, t),
        Tree::Binary(..) => lemma_reads_binary(s, i, t),
        Tree::Compare(..) => lemma_reads_compare(s, i, t),
        _ => {},
    }
    lemma_to_unary(s, i, t, (i + written(t).len()) as int);
}

/// A name with an expression in brackets behind it.
proof fn lemma_applied(s: Seq<char>, i: int, name: Seq<char>, a: Tree)
    requires
        is_name(name),
        writable(a),
        stands(s, i, name + seq!['('] + written(a) + seq![')']),
    ensures
        grammar::name_at(s, i) == name,
        grammar::name_end(s, i) == i + name.len(),
        text::is_letter(s[i]),
        i + name.len() < s.len(),
        s[i + name.len()] == '(',
        grammar::read_bracket(s, (i + name.len()) as int) == grammar::read(
            a,
            (i + name.len() + written(a).len() + 2) as int,
        ),
        grammar::read_atom(s, (i + name.len()) as int) == grammar::read(
            a,
            (i + name.len() + written(a).len() + 2) as int,
        ),
    decreases a, 3int,
{
    let b = i + name.len();
    assert(name + seq!['('] + written(a) + seq![')'] == name + (seq!['('] + written(a) + seq![
        ')',
    ]));
    lemma_stands_part(s, i, name, seq!['('] + written(a) + seq![')']);
    lemma_enclosed(s, b, a);
    lemma_name(s, i, name);
}

/// `FN` is the name of no built-in function.
proof fn lemma_fn_is_free()
    ensures
        !grammar::is_constant("FN"@),
        !grammar::is_function("FN"@),
{
    reveal_strlit("FN");
    reveal_strlit("RND");
    reveal_strlit("PI");
    reveal_strlit("SIN");
    reveal_strlit("COS");
    reveal_strlit("TAN");
    reveal_strlit("ASN");
    reveal_strlit("ACS");
    reveal_strlit("ATN");
    reveal_strlit("LN");
    reveal_strlit("EXP");
    reveal_strlit("INT");
    reveal_strlit("ABS");
    reveal_strlit("SQR");
    reveal_strlit("SGN");
    reveal_strlit("LEN");
    reveal_strlit("CODE");
    reveal_strlit("VAL");
    reveal_strlit("CHR$");
    reveal_strlit("STR$");
    assert("FN"@[0] == 'F');
    assert("PI"@[0] == 'P');
    assert("LN"@[0] == 'L');
}

/// Reading an expression that is written out gives the expression back.
pub proof fn lemma_written_reads_back(t: Tree)
    requires
        writable(t),
    ensures
        grammar::parse(written(t)) == t,
{
    let s = written(t);
    let e = s.len() as int;
    lemma_read_written(s, 0, t);
    lemma_alone(s, 0, t, e);
    lemma_to_relation(s, 0, t, e);
}

/// Without brackets the operation of higher rank binds its operands first.
/// Of equal rank the left one goes first, except that powers go from the
/// right.
pub proof fn lemma_precedence(a: Tree, f: Operation, b: Tree, g: Operation, c: Tree)
    requires
        writable(a),
        writable(b),
        writable(c),
    ensures
        grammar::parse(written(a) + seq![sign(f)] + written(b) + seq![sign(g)] + written(c)) == (
        if rank(f) > rank(g) || (rank(f) == rank(g) && rank(f) < 3) {
            Tree::Binary(
                g,
                Box::new(Tree::Binary(f, Box::new(a), Box::new(b))),
                Box::new(c),
            )
        } else {
            Tree::Binary(
                f,
                Box::new(a),
                Box::new(Tree::Binary(g, Box::new(b), Box::new(c))),
            )
        }),
{
    let s = written(a) + seq![sign(f)] + written(b) + seq![sign(g)] + written(c);
    let e = written(a).len() as int;
    let q = e + 1;
    let h = q + written(b).len();
    let r = h + 1;
    let n = s.len() as int;
    assert(stands(s, 0, written(a)));
    assert(s[e] == sign(f));
    assert(stands(s, q, written(b)));
    assert(s[h] == sign(g));
    assert(stands(s, r, written(c)));
    lemma_read_written(s, 0, a);
    lemma_read_written(s, q, b);
    lemma_read_written(s, r, c);
    lemma_to_power(s, r, c, n);
    lemma_to_term(s, r, c, n);
    lemma_factor_end(s, n, c);
    let ab = Tree::Binary(f, Box::new(a), Box::new(b));
    let bc = Tree::Binary(g, Box::new(b), Box::new(c));
    let left = Tree::Binary(g, Box::new(ab), Box::new(c));
    let right = Tree::Binary(f, Box::new(a), Box::new(bc));
    if rank(f) == 3 && rank(g) == 3 {
        lemma_raised(s, q, b, h, c, n);
        lemma_raised(s, 0, a, e, bc, n);
        lemma_to_term(s, 0, right, n);
        lemma_factor_end(s, n, right);
        lemma_to_additive(s, 0, right, n);
        lemma_summand_end(s, n, right);
        lemma_to_relation(s, 0, right, n);
    } else if rank(f) == 3 {
        lemma_to_power(s, q, b, h);
        lemma_raised(s, 0, a, e, b, h);
        lemma_to_term(s, 0, ab, h);
        if rank(g) == 2 {
            lemma_factor(s, h, ab, g, c, n);
            lemma_factor_end(s, n, left);
            lemma_to_additive(s, 0, left, n);
            lemma_summand_end(s, n, left);
        } else {
            lemma_factor_end(s, h, ab);
            lemma_to_additive(s, 0, ab, h);
            lemma_summand(s, h, ab, g, c, n);
            lemma_summand_end(s, n, left);
        }
        lemma_to_relation(s, 0, left, n);
    } else if rank(g) == 3 {
        lemma_raised(s, q, b, h, c, n);
        lemma_to_power(s, 0, a, e);
        lemma_to_term(s, 0, a, e);
        if rank(f) == 2 {
            lemma_factor(s, e, a, f, bc, n);
            lemma_factor_end(s, n, right);
            lemma_to_additive(s, 0, right, n);
            lemma_summand_end(s, n, right);
        } else {
            lemma_factor_end(s, e, a);
            lemma_to_additive(s, 0, a, e);
            lemma_to_term(s, q, bc, n);
            lemma_factor_end(s, n, bc);
            lemma_summand(s, e, a, f, bc, n);
            lemma_summand_end(s, n, right);
        }
        lemma_to_relation(s, 0, right, n);
    } else {
        lemma_to_power(s, 0, a, e);
        lemma_to_power(s, q, b, h);
        lemma_to_term(s, 0, a, e);
        if rank(f) == 2 {
            lemma_factor(s, e, a, f, b, h);
            if rank(g) == 2 {
                lemma_factor(s, h, ab, g, c, n);
                lemma_factor_end(s, n, left);
                lemma_to_additive(s, 0, left, n);
                lemma_summand_end(s, n, left);
            } else {
                lemma_factor_end(s, h, ab);
                lemma_to_additive(s, 0, ab, h);
                lemma_summand(s, h, ab, g, c, n);
                lemma_summand_end(s, n, left);
            }
            lemma_to_relation(s, 0, left, n);
        } else {
            lemma_factor_end(s, e, a);
            lemma_to_additive(s, 0, a, e);
            lemma_to_term(s, q, b, h);
            if rank(g) == 2 {
                lemma_factor(s, h, b, g, c, n);
                lemma_factor_end(s, n, bc);
                lemma_summand(s, e, a, f, bc, n);
                lemma_summand_end(s, n, right);
                lemma_to_relation(s, 0, right, n);
            } else {
                lemma_factor_end(s, h, b);
                lemma_summand(s, e, a, f, b, h);
                lemma_summand(s, h, ab, g, c, n);
                lemma_summand_end(s, n, left);
                lemma_to_relation(s, 0, left, n);
            }
        }
    }
}

/// A comparison of two operations, given where their operands end.
proof fn lemma_operations_compared(
    s: Seq<char>,
    e: int,
    h: int,
    r: int,
    k: int,
    a: Tree,
    f: Operation,
    b: Tree,
    q: Relation,
    c: Tree,
    g: Operation,
    d: Tree,
)
    requires
        0 < e,
        e + 1 < h < r < k,
        k + 1 < s.len(),
        grammar::read_unary(s, 0) == grammar::read(a, e),
        s[e] == sign(f),
        grammar::read_unary(s, e + 1) == grammar::read(b, h),
        grammar::at(s, h, '<') || grammar::at(s, h, '>') || grammar::at(s, h, '='),
        grammar::relation_at(s, h) == Some((q, r - h)),
        grammar::read_unary(s, r) == grammar::read(c, k),
        s[k] == sign(g),
        grammar::read_unary(s, k + 1) == grammar::read(d, s.len() as int),
    ensures
        grammar::parse(s) == Tree::Compare(
            q,
            Box::new(Tree::Binary(f, Box::new(a), Box::new(b))),
            Box::new(Tree::Binary(g, Box::new(c), Box::new(d))),
        ),
{
    let n = s.len() as int;
    let ab = Tree::Binary(f, Box::new(a), Box::new(b));
    let cd = Tree::Binary(g, Box::new(c), Box::new(d));
    lemma_operation(s, 0, a, e, f, b, h);
    lemma_operation(s, r, c, k, g, d, n);
    lemma_compared(s, 0, ab, h, q, r - h, cd, n);
}

/// The parts of a text stand where they were put.
proof fn lemma_parts(
    a: Seq<char>,
    x: Seq<char>,
    b: Seq<char>,
    m: Seq<char>,
    c: Seq<char>,
    y: Seq<char>,
    d: Seq<char>,
)
    ensures
        ({
            let s = a + x + b + m + c + y + d;
            let e = (a.len() + x.len()) as int;
            let h = e + b.len();
            let r = h + m.len();
            let k = r + c.len();
            &&& stands(s, 0, a)
            &&& stands(s, a.len() as int, x)
            &&& stands(s, e, b)
            &&& stands(s, h, m)
            &&& stands(s, r, c)
            &&& stands(s, k, y)
            &&& stands(s, k + y.len(), d)
            &&& s.len() == k + y.len() + d.len()
        }),
{
}

/// A comparison is made last, with an operation on either side of it.
pub proof fn lemma_comparison_last(
    a: Tree,
    f: Operation,
    b: Tree,
    q: Relation,
    c: Tree,
    g: Operation,
    d: Tree,
)
    requires
        writable(a),
        writable(b),
        writable(c),
        writable(d),
    ensures
        grammar::parse(
            written(a) + seq![sign(f)] + written(b) + relation_sign(q) + written(c) + seq![sign(g)]
                + written(d),
        ) == Tree::Compare(
            q,
            Box::new(Tree::Binary(f, Box::new(a), Box::new(b))),
            Box::new(Tree::Binary(g, Box::new(c), Box::new(d))),
        ),
{
    let m = relation_sign(q);
    let s = written(a) + seq![sign(f)] + written(b) + m + written(c) + seq![sign(g)] + written(d);
    let e = written(a).len() as int;
    let h = e + 1 + written(b).len();
    let r = h + m.len();
    let k = r + written(c).len();
    lemma_parts(written(a), seq![sign(f)], written(b), m, written(c), seq![sign(g)], written(d));
    assert(s[e + 0] == seq![sign(f)][0]);
    assert(s[k + 0] == seq![sign(g)][0]);
    lemma_read_written(s, r, c);
    lemma_relation_at(s, h, q);
    lemma_read_written(s, 0, a);
    lemma_read_written(s, e + 1, b);
    lemma_read_written(s, k + 1, d);
    lemma_operations_compared(s, e, h, r, k, a, f, b, q, c, g, d);
}

/// The numeral of a whole number is read as a literal with these digits, and
/// behind a `-` as its negation.
pub proof fn lemma_numeral_reads_back(n: nat)
    ensures
        grammar::parse(text::decimal(n)) == Tree::Number(text::decimal(n)),
        grammar::parse(seq!['-'] + text::decimal(n)) == Tree::Negate(
            Box::new(Tree::Number(text::decimal(n))),
        ),
{
    let d = text::decimal(n);
    let t = Tree::Number(d);
    text::lemma_decimal_roundtrip(n);
    text::lemma_leading_run(d, text::Class::Digit);
    assert(all_digits(d)) by {
        assert forall|i: int| 0 <= i < d.len() implies text::is_digit(#[trigger] d[i]) by {
            assert(text::in_class(text::Class::Digit, d[i]));
        }
    }
    lemma_written_reads_back(t);
    let s = seq!['-'] + d;
    let e = s.len() as int;
    assert(stands(s, 1, written(t)));
    lemma_read_written(s, 1, t);
    assert(s[0] == '-');
    assert(grammar::skip_blanks(s, 0) == 0);
    let u = Tree::Negate(Box::new(t));
    assert(grammar::read_unary(s, 0) == grammar::read(u, e));
    lemma_alone(s, 0, u, e);
    lemma_to_relation(s, 0, u, e);
}

/// The signs of the operations and the comparisons.
pub proof fn lemma_signs()
    ensures
        sign(Operation::Add) == '+',
        sign(Operation::Subtract) == '-',
        sign(Operation::Multiply) == '*',
        sign(Operation::Divide) == '/',
        sign(Operation::Power) == '^',
        relation_sign(Relation::Equal) == seq!['='],
        relation_sign(Relation::NotEqual) == seq!['<', '>'],
        relation_sign(Relation::Less) == seq!['<'],
        relation_sign(Relation::Greater) == seq!['>'],
        relation_sign(Relation::AtMost) == seq!['<', '='],
        relation_sign(Relation::AtLeast) == seq!['>', '='],
        rank(Operation::Add) == rank(Operation::Subtract),
        rank(Operation::Subtract) < rank(Operation::Multiply),
        rank(Operation::Multiply) == rank(Operation::Divide),
        rank(Operation::Divide) < rank(Operation::Power),
{
}

/// Two expressions with the sign of an operation between them are that
/// operation on the two.
pub proof fn lemma_operation_read(a: Tree, op: Operation, b: Tree)
    requires
        writable(a),
        writable(b),
    ensures
        grammar::parse(written(a) + seq![sign(op)] + written(b)) == Tree::Binary(
            op,
            Box::new(a),
            Box::new(b),
        ),
{
    let s = written(a) + seq![sign(op)] + written(b);
    let e = written(a).len() as int;
    let n = s.len() as int;
    assert(stands(s, 0, written(a)));
    assert(s[e] == sign(op));
    assert(stands(s, e + 1, written(b)));
    lemma_read_written(s, 0, a);
    lemma_read_written(s, e + 1, b);
    lemma_operation(s, 0, a, e, op, b, n);
    lemma_to_relation(s, 0, Tree::Binary(op, Box::new(a), Box::new(b)), n);
}

/// Two expressions with the sign of a comparison between them are that
/// comparison of the two.
#[verifier::rlimit(60)]
pub proof fn lemma_comparison_read(a: Tree, q: Relation, b: Tree)
    requires
        writable(a),
        writable(b),
    ensures
        grammar::parse(written(a) + relation_sign(q) + written(b)) == Tree::Compare(
            q,
            Box::new(a),
            Box::new(b),
        ),
{
    let m = relation_sign(q);
    let s = written(a) + m + written(b);
    let e = written(a).len() as int;
    let h = e + m.len();
    let n = s.len() as int;
    assert(stands(s, 0, written(a)));
    assert(stands(s, e, m));
    assert(stands(s, h, written(b)));
    lemma_read_written(s, h, b);
    lemma_relation_at(s, e, q);
    lemma_read_written(s, 0, a);
    lemma_alone(s, 0, a, e);
    lemma_alone(s, h, b, n);
    lemma_compared(s, 0, a, e, q, m.len() as int, b, n);
}

/// A `-` before an expression negates it, a `+` leaves it as it is, and so does
/// a bracket round it.
#[verifier::rlimit(60)]
pub proof fn lemma_signed_read(a: Tree)
    requires
        writable(a),
    ensures
        grammar::parse(seq!['-'] + written(a)) == Tree::Negate(Box::new(a)),
        grammar::parse(seq!['+'] + written(a)) == a,
        grammar::parse(seq!['('] + written(a) + seq![')']) == a,
{
    let minus = seq!['-'] + written(a);
    let plus = seq!['+'] + written(a);
    let e = minus.len() as int;
    let u = Tree::Negate(Box::new(a));
    assert(stands(minus, 1, written(a)));
    assert(stands(plus, 1, written(a)));
    lemma_read_written(minus, 1, a);
    lemma_read_written(plus, 1, a);
    assert(minus[0] == '-');
    assert(plus[0] == '+');
    assert(grammar::skip_blanks(minus, 0) == 0);
    assert(grammar::skip_blanks(plus, 0) == 0);
    assert(grammar::read_unary(minus, 0) == grammar::read(u, e));
    assert(grammar::read_unary(plus, 0) == grammar::read(a, e));
    lemma_alone(minus, 0, u, e);
    lemma_to_relation(minus, 0, u, e);
    lemma_alone(plus, 0, a, e);
    lemma_to_relation(plus, 0, a, e);
    let s = seq!['('] + written(a) + seq![')'];
    let n = s.len() as int;
    assert(stands(s, 0, s));
    lemma_enclosed(s, 0, a);
    lemma_to_unary(s, 0, a, n);
    lemma_alone(s, 0, a, n);
    lemma_to_relation(s, 0, a, n);
}

/// A `-` binds closer than a power, on either side of it.
#[verifier::rlimit(60)]
pub proof fn lemma_minus_before_power(a: Tree, b: Tree)
    requires
        writable(a),
        writable(b),
    ensures
        grammar::parse(seq!['-'] + written(a) + seq!['^'] + written(b)) == Tree::Binary(
            Operation::Power,
            Box::new(Tree::Negate(Box::new(a))),
            Box::new(b),
        ),
        grammar::parse(written(a) + seq!['^', '-'] + written(b)) == Tree::Binary(
            Operation::Power,
            Box::new(a),
            Box::new(Tree::Negate(Box::new(b))),
        ),
{
    let s = seq!['-'] + written(a) + seq!['^'] + written(b);
    let e = written(a).len() as int + 1;
    let n = s.len() as int;
    let u = Tree::Negate(Box::new(a));
    assert(stands(s, 1, written(a)));
    assert(s[e] == '^');
    assert(stands(s, e + 1, written(b)));
    lemma_read_written(s, 1, a);
    lemma_read_written(s, e + 1, b);
    assert(s[0] == '-');
    assert(grammar::skip_blanks(s, 0) == 0);
    lemma_operation(s, 0, u, e, Operation::Power, b, n);
    lemma_to_relation(s, 0, Tree::Binary(Operation::Power, Box::new(u), Box::new(b)), n);
    let r = written(a) + seq!['^', '-'] + written(b);
    let f = written(a).len() as int;
    let m = r.len() as int;
    let v = Tree::Negate(Box::new(b));
    assert(stands(r, 0, written(a)));
    assert(r[f] == '^' && r[f + 1] == '-');
    assert(stands(r, f + 2, written(b)));
    lemma_read_written(r, 0, a);
    lemma_read_written(r, f + 2, b);
    assert(grammar::skip_blanks(r, f + 1) == f + 1);
    lemma_operation(r, 0, a, f, Operation::Power, v, m);
    lemma_to_relation(r, 0, Tree::Binary(Operation::Power, Box::new(a), Box::new(v)), m);
}

/// Operands behind a first one, each with the sign of its operation before it.
pub open spec fn chained(first: Tree, rest: Seq<(Operation, Tree)>) -> Seq<char>
    decreases rest.len(),
{
    if rest.len() == 0 {
        written(first)
    } else {
        chained(first, rest.drop_last()) + seq![sign(rest.last().0)] + written(rest.last().1)
    }
}

/// The operations of a chain, the left one first.
pub open spec fn folded(first: Tree, rest: Seq<(Operation, Tree)>) -> Tree
    decreases rest.len(),
{
    if rest.len() == 0 {
        first
    } else {
        Tree::Binary(
            rest.last().0,
            Box::new(folded(first, rest.drop_last())),
            Box::new(rest.last().1),
        )
    }
}

/// Whether all operations of a chain have this rank and all operands can be
/// written.
pub open spec fn of_rank(rest: Seq<(Operation, Tree)>, r: int) -> bool {
    forall|i: int|
        0 <= i < rest.len() ==> rank((#[trigger] rest[i]).0) == r && writable(rest[i].1)
}

/// What stands where in a chain.
proof fn lemma_chain_parts(first: Tree, rest: Seq<(Operation, Tree)>, i: int)
    requires
        0 <= i <= rest.len(),
    ensures
        ({
            let s = chained(first, rest);
            let p = chained(first, rest.take(i));
            &&& stands(s, 0, p)
            &&& i < rest.len() ==> p.len() < s.len() && s[p.len() as int] == sign(rest[i].0) && stands(
                s,
                p.len() as int + 1,
                written(rest[i].1),
            ) && chained(first, rest.take(i + 1)).len() == p.len() + 1 + written(rest[i].1).len()
        }),
    decreases rest.len(),
{
    let s = chained(first, rest);
    let p = chained(first, rest.take(i));
    if i == rest.len() {
        assert(rest.take(i) == rest);
    } else {
        let init = rest.drop_last();
        let q = chained(first, init);
        let w = written(rest.last().1);
        assert(s == q + seq![sign(rest.last().0)] + w);
        assert(rest.take(i) == init.take(i));
        lemma_chain_parts(first, init, i);
        assert forall|k: int| 0 <= k < p.len() implies s[0 + k] == #[trigger] p[k] by {
            assert(q[0 + k] == p[k]);
        }
        if i == init.len() {
            assert(init.take(i) == init);
            assert(rest.take(i + 1) == rest);
            assert(s[q.len() as int] == sign(rest.last().0));
            assert forall|k: int| 0 <= k < w.len() implies s[q.len() + 1 + k] == #[trigger] w[k] by {}
        } else {
            assert(rest.take(i + 1) == init.take(i + 1));
            assert(init[i] == rest[i]);
            let v = written(rest[i].1);
            assert forall|k: int| 0 <= k < v.len() implies s[p.len() + 1 + k] == #[trigger] v[k] by {
                assert(q[p.len() + 1 + k] == v[k]);
            }
            assert(s[p.len() as int] == q[p.len() as int]);
        }
    }
}

/// The sums of a chain from the `i`th on.
proof fn lemma_sums_from(first: Tree, rest: Seq<(Operation, Tree)>, i: int)
    requires
        0 <= i <= rest.len(),
        writable(first),
        of_rank(rest, 1),
    ensures
        ({
            let s = chained(first, rest);
            let p = chained(first, rest.take(i)).len() as int;
            grammar::more_additive(s, p, folded(first, rest.take(i))) == grammar::read(
                folded(first, rest),
                s.len() as int,
            )
        }),
    decreases rest.len() - i,
{
    let s = chained(first, rest);
    let p = chained(first, rest.take(i)).len() as int;
    lemma_chain_parts(first, rest, i);
    if i == rest.len() {
        assert(rest.take(i) == rest);
        lemma_summand_end(s, p, folded(first, rest));
    } else {
        let (op, b) = rest[i];
        let f = chained(first, rest.take(i + 1)).len() as int;
        assert(rank(rest[i].0) == 1 && writable(rest[i].1));
        lemma_chain_parts(first, rest, i + 1);
        if i + 1 < rest.len() {
            assert(rank(rest[i + 1].0) == 1);
        } else {
            assert(rest.take(i + 1) == rest);
        }
        lemma_read_written(s, p + 1, b);
        lemma_to_power(s, p + 1, b, f);
        lemma_to_term(s, p + 1, b, f);
        lemma_factor_end(s, f, b);
        lemma_summand(s, p, folded(first, rest.take(i)), op, b, f);
        assert(rest.take(i + 1).drop_last() == rest.take(i));
        assert(rest.take(i + 1).last() == rest[i]);
        lemma_sums_from(first, rest, i + 1);
    }
}

/// Any number of sums and differences are worked out from the left.
pub proof fn lemma_sums(first: Tree, rest: Seq<(Operation, Tree)>)
    requires
        writable(first),
        of_rank(rest, 1),
    ensures
        grammar::parse(chained(first, rest)) == folded(first, rest),
{
    let s = chained(first, rest);
    let e = written(first).len() as int;
    let n = s.len() as int;
    lemma_chain_parts(first, rest, 0);
    assert(rest.take(0) == Seq::<(Operation, Tree)>::empty());
    if rest.len() > 0 {
        assert(rank(rest[0].0) == 1);
    }
    lemma_read_written(s, 0, first);
    lemma_to_power(s, 0, first, e);
    lemma_to_term(s, 0, first, e);
    lemma_factor_end(s, e, first);
    lemma_to_additive(s, 0, first, e);
    lemma_sums_from(first, rest, 0);
    lemma_chain_parts(first, rest, rest.len() as int);
    assert(rest.take(rest.len() as int) == rest);
    lemma_chain_grows(first, rest);
    lemma_to_relation(s, 0, folded(first, rest), n);
}

proof fn lemma_chain_grows(first: Tree, rest: Seq<(Operation, Tree)>)
    ensures
        chained(first, rest).len() >= written(first).len(),
    decreases rest.len(),
{
    if rest.len() > 0 {
        lemma_chain_grows(first, rest.drop_last());
    }
}

/// The products of a chain from the `i`th on.
proof fn lemma_products_from(first: Tree, rest: Seq<(Operation, Tree)>, i: int)
    requires
        0 <= i <= rest.len(),
        writable(first),
        of_rank(rest, 2),
    ensures
        ({
            let s = chained(first, rest);
            let p = chained(first, rest.take(i)).len() as int;
            grammar::more_term(s, p, folded(first, rest.take(i))) == grammar::read(
                folded(first, rest),
                s.len() as int,
            )
        }),
    decreases rest.len() - i,
{
    let s = chained(first, rest);
    let p = chained(first, rest.take(i)).len() as int;
    lemma_chain_parts(first, rest, i);
    if i == rest.len() {
        assert(rest.take(i) == rest);
        lemma_factor_end(s, p, folded(first, rest));
    } else {
        let (op, b) = rest[i];
        let f = chained(first, rest.take(i + 1)).len() as int;
        assert(rank(rest[i].0) == 2 && writable(rest[i].1));
        lemma_chain_parts(first, rest, i + 1);
        if i + 1 < rest.len() {
            assert(rank(rest[i + 1].0) == 2);
        } else {
            assert(rest.take(i + 1) == rest);
        }
        lemma_read_written(s, p + 1, b);
        lemma_to_power(s, p + 1, b, f);
        lemma_factor(s, p, folded(first, rest.take(i)), op, b, f);
        assert(rest.take(i + 1).drop_last() == rest.take(i));
        assert(rest.take(i + 1).last() == rest[i]);
        lemma_products_from(first, rest, i + 1);
    }
}

/// Any number of products and quotients are worked out from the left.
pub proof fn lemma_products(first: Tree, rest: Seq<(Operation, Tree)>)
    requires
        writable(first),
        of_rank(rest, 2),
    ensures
        grammar::parse(chained(first, rest)) == folded(first, rest),
{
    let s = chained(first, rest);
    let e = written(first).len() as int;
    let n = s.len() as int;
    let t = folded(first, rest);
    lemma_chain_parts(first, rest, 0);
    assert(rest.take(0) == Seq::<(Operation, Tree)>::empty());
    if rest.len() > 0 {
        assert(rank(rest[0].0) == 2);
    }
    lemma_read_written(s, 0, first);
    lemma_to_power(s, 0, first, e);
    lemma_to_term(s, 0, first, e);
    lemma_products_from(first, rest, 0);
    lemma_chain_grows(first, rest);
    lemma_to_additive(s, 0, t, n);
    lemma_summand_end(s, n, t);
    lemma_to_relation(s, 0, t, n);
}

/// Expressions with the sign of a power between each and the next.
pub open spec fn towered(parts: Seq<Tree>) -> Seq<char>
    decreases parts.len(),
{
    if parts.len() == 0 {
        Seq::empty()
    } else if parts.len() == 1 {
        written(parts[0])
    } else {
        written(parts[0]) + seq!['^'] + towered(parts.drop_first())
    }
}

/// The powers of a tower, the right one first.
pub open spec fn raised(parts: Seq<Tree>) -> Tree
    recommends
        parts.len() > 0,
    decreases parts.len(),
{
    if parts.len() <= 1 {
        parts[0]
    } else {
        Tree::Binary(Operation::Power, Box::new(parts[0]), Box::new(raised(parts.drop_first())))
    }
}

proof fn lemma_tower_from(s: Seq<char>, p: int, parts: Seq<Tree>)
    requires
        parts.len() > 0,
        forall|i: int| 0 <= i < parts.len() ==> writable(#[trigger] parts[i]),
        stands(s, p, towered(parts)),
        p + towered(parts).len() == s.len(),
    ensures
        towered(parts).len() > 0,
        grammar::read_power(s, p) == grammar::read(raised(parts), s.len() as int),
    decreases parts.len(),
{
    let a = parts[0];
    let e = p + written(a).len();
    assert(writable(parts[0]));
    if parts.len() == 1 {
        lemma_read_written(s, p, a);
        lemma_to_power(s, p, a, e);
    } else {
        let rest = parts.drop_first();
        assert forall|i: int| 0 <= i < rest.len() implies writable(#[trigger] rest[i]) by {
            assert(rest[i] == parts[i + 1]);
        }
        assert(towered(parts) == written(a) + (seq!['^'] + towered(rest)));
        lemma_stands_part(s, p, written(a), seq!['^'] + towered(rest));
        lemma_stands_part(s, e, seq!['^'], towered(rest));
        assert(s[e + 0] == seq!['^'][0]);
        lemma_read_written(s, p, a);
        lemma_tower_from(s, e + 1, rest);
        lemma_raised(s, p, a, e, raised(rest), s.len() as int);
    }
}

/// Any number of powers are worked out from the right.
pub proof fn lemma_powers(parts: Seq<Tree>)
    requires
        parts.len() > 0,
        forall|i: int| 0 <= i < parts.len() ==> writable(#[trigger] parts[i]),
    ensures
        grammar::parse(towered(parts)) == raised(parts),
{
    let s = towered(parts);
    let n = s.len() as int;
    let t = raised(parts);
    assert(stands(s, 0, s));
    lemma_tower_from(s, 0, parts);
    lemma_to_term(s, 0, t, n);
    lemma_factor_end(s, n, t);
    lemma_to_additive(s, 0, t, n);
    lemma_summand_end(s, n, t);
    lemma_to_relation(s, 0, t, n);
}

/// A function without a bracket takes the operand behind it, and no more.
#[verifier::rlimit(60)]
pub proof fn lemma_function_binds(name: Seq<char>, a: Tree, op: Operation, b: Tree)
    requires
        is_name(name),
        grammar::is_function(name),
        !grammar::is_constant(name),
        writable(a),
        writable(b),
    ensures
        grammar::parse(name + seq![' '] + written(a) + seq![sign(op)] + written(b))
            == Tree::Binary(op, Box::new(Tree::Call(name, Box::new(a))), Box::new(b)),
{
    let s = name + seq![' '] + written(a) + seq![sign(op)] + written(b);
    let e = name.len() as int;
    let f = e + 1 + written(a).len();
    let n = s.len() as int;
    let t = Tree::Call(name, Box::new(a));
    assert(stands(s, 0, name));
    assert(s[e] == ' ');
    assert(stands(s, e + 1, written(a)));
    assert(s[f] == sign(op));
    assert(stands(s, f + 1, written(b)));
    lemma_read_written(s, e + 1, a);
    lemma_read_written(s, f + 1, b);
    lemma_name(s, 0, name);
    assert(grammar::skip_blanks(s, e + 1) == e + 1);
    assert(grammar::skip_blanks(s, e) == e + 1);
    assert(grammar::read_unary(s, e) == grammar::read(a, f));
    assert(s[0] == name[0]);
    assert(grammar::read_atom(s, 0) == grammar::read(t, f));
    lemma_to_unary(s, 0, t, f);
    lemma_operation(s, 0, t, f, op, b, n);
    lemma_to_relation(s, 0, Tree::Binary(op, Box::new(t), Box::new(b)), n);
}

/// Digits that end a text or stand before something else, where they begin.
proof fn lemma_digits_stand(s: Seq<char>, i: int, d: Seq<char>)
    requires
        all_digits(d),
        stands(s, i, d),
        i + d.len() < s.len() ==> !text::is_digit(s[i + d.len()]),
    ensures
        grammar::digits_end(s, i) == i + d.len(),
        text::is_digit(s[i]),
{
    assert forall|k: int| i <= k < i + d.len() implies text::is_digit(#[trigger] s[k]) by {
        assert(s[i + (k - i)] == d[k - i]);
    }
    lemma_digits(s, i, i + d.len());
}

/// A number alone is an expression.
proof fn lemma_number_alone(s: Seq<char>, d: Seq<char>)
    requires
        s.len() > 0,
        text::is_digit(s[0]),
        grammar::read_number(s, 0) == grammar::read(Tree::Number(d), s.len() as int),
    ensures
        grammar::parse(s) == Tree::Number(d),
{
    let n = s.len() as int;
    let t = Tree::Number(d);
    assert(grammar::read_atom(s, 0) == grammar::read(t, n));
    lemma_to_unary(s, 0, t, n);
    lemma_alone(s, 0, t, n);
    lemma_to_relation(s, 0, t, n);
}

/// A number with an exponent, given how its digits are read.
#[verifier::rlimit(60)]
proof fn lemma_exponent_read(m: Seq<char>, mark: char, signed: Seq<char>, x: Seq<char>)
    requires
        m.len() > 0,
        all_digits(x),
        mark == 'e' || mark == 'E',
        signed == Seq::<char>::empty() || signed == seq!['+'] || signed == seq!['-'],
        ({
            let s = m + seq![mark] + signed + x;
            &&& text::is_digit(s[0])
            &&& grammar::mantissa_end(s, 0) == m.len()
            &&& grammar::has_digits(s, 0)
        }),
    ensures
        grammar::parse(m + seq![mark] + signed + x) == Tree::Number(m + seq!['e'] + signed + x),
{
    let s = m + seq![mark] + signed + x;
    let p = m.len() as int;
    let d = p + 1 + signed.len();
    assert(s[p] == mark);
    assert(stands(s, d, x));
    lemma_digits_stand(s, d, x);
    if signed.len() > 0 {
        assert(s[p + 1] == signed[0]);
    }
    assert(grammar::exponent_start(s, p) == d);
    assert(s.subrange(0, p).push('e') + s.subrange(p + 1, s.len() as int) == m + seq!['e'] + signed
        + x);
    lemma_number_alone(s, m + seq!['e'] + signed + x);
}

/// A number without an exponent is read with all its digits, those before the
/// point and those behind it.
pub proof fn lemma_decimal_read(w: Seq<char>, f: Seq<char>)
    requires
        all_digits(w),
        all_digits(f),
    ensures
        grammar::parse(w) == Tree::Number(w),
        grammar::parse(w + seq!['.'] + f) == Tree::Number(w + seq!['.'] + f),
{
    lemma_digits_stand(w, 0, w);
    assert(w.subrange(0, w.len() as int) == w);
    lemma_number_alone(w, w);
    let s = w + seq!['.'] + f;
    let p = w.len() as int;
    assert(stands(s, 0, w));
    assert(s[p] == '.');
    assert(stands(s, p + 1, f));
    lemma_digits_stand(s, 0, w);
    lemma_digits_stand(s, p + 1, f);
    assert(s.subrange(0, s.len() as int) == s);
    lemma_number_alone(s, s);
}

/// A whole number with an exponent is read with all its digits and the sign of
/// the exponent. Either letter marks the exponent.
#[verifier::rlimit(60)]
pub proof fn lemma_scaled_read(w: Seq<char>, mark: char, signed: Seq<char>, x: Seq<char>)
    requires
        all_digits(w),
        all_digits(x),
        mark == 'e' || mark == 'E',
        signed == Seq::<char>::empty() || signed == seq!['+'] || signed == seq!['-'],
    ensures
        grammar::parse(w + seq![mark] + signed + x) == Tree::Number(w + seq!['e'] + signed + x),
{
    let p = w.len() as int;
    let t = w + seq![mark] + signed + x;
    assert(stands(t, 0, w));
    assert(t[p] == mark);
    lemma_digits_stand(t, 0, w);
    lemma_exponent_read(w, mark, signed, x);
}

/// The digits of a number on both sides of its point.
proof fn lemma_pointed_digits(w: Seq<char>, f: Seq<char>, tail: Seq<char>)
    requires
        all_digits(w),
        all_digits(f),
        tail.len() > 0,
        !text::is_digit(tail[0]),
    ensures
        ({
            let u = w + seq!['.'] + f + tail;
            &&& text::is_digit(u[0])
            &&& grammar::mantissa_end(u, 0) == w.len() + 1 + f.len()
            &&& grammar::has_digits(u, 0)
        }),
{
    let u = w + seq!['.'] + f + tail;
    let p = w.len() as int;
    assert(stands(u, 0, w));
    assert(u[p] == '.');
    assert(stands(u, p + 1, f));
    assert(u[p + 1 + f.len()] == tail[0]);
    lemma_digits_stand(u, 0, w);
    lemma_digits_stand(u, p + 1, f);
}

/// A number with a point and an exponent is read likewise.
#[verifier::spinoff_prover]
#[verifier::rlimit(60)]
pub proof fn lemma_pointed_read(
    w: Seq<char>,
    f: Seq<char>,
    mark: char,
    signed: Seq<char>,
    x: Seq<char>,
)
    requires
        all_digits(w),
        all_digits(f),
        all_digits(x),
        mark == 'e' || mark == 'E',
        signed == Seq::<char>::empty() || signed == seq!['+'] || signed == seq!['-'],
    ensures
        grammar::parse(w + seq!['.'] + f + seq![mark] + signed + x) == Tree::Number(
            w + seq!['.'] + f + seq!['e'] + signed + x,
        ),
{
    let m = w + seq!['.'] + f;
    let s = m + seq![mark] + signed + x;
    assert(text::is_digit(s[0]) && grammar::mantissa_end(s, 0) == m.len() && grammar::has_digits(
        s,
        0,
    )) by {
        let tail = seq![mark] + signed + x;
        assert(tail[0] == mark);
        assert(s == m + tail);
        lemma_pointed_digits(w, f, tail);
    }
    lemma_exponent_read(m, mark, signed, x);
}

/// A name is read in capitals, whatever case it is written in.
pub proof fn lemma_name_read(s: Seq<char>)
    requires
        s.len() > 0,
        text::is_letter(s[0]),
        forall|i: int| 0 <= i < s.len() ==> text::is_alnum(#[trigger] s[i]),
        free_name(text::uppercase(s)),
        free_name(text::uppercase(s).push('$')),
    ensures
        grammar::parse(s) == Tree::Variable(text::uppercase(s)),
        grammar::parse(s.push('$')) == Tree::Variable(text::uppercase(s).push('$')),
{
    let n = s.len() as int;
    lemma_alnums(s, 0, n);
    assert(s.subrange(0, n) == s);
    let t = Tree::Variable(text::uppercase(s));
    assert(grammar::read_atom(s, 0) == grammar::read(t, n));
    lemma_to_unary(s, 0, t, n);
    lemma_alone(s, 0, t, n);
    lemma_to_relation(s, 0, t, n);
    let r = s.push('$');
    assert forall|k: int| 0 <= k < n implies text::is_alnum(#[trigger] r[k]) by {
        assert(r[k] == s[k]);
    }
    lemma_alnums(r, 0, n);
    assert(r.subrange(0, n) == s);
    let u = Tree::Variable(text::uppercase(s).push('$'));
    assert(r[0] == s[0]);
    assert(grammar::read_atom(r, 0) == grammar::read(u, n + 1));
    lemma_to_unary(r, 0, u, n + 1);
    lemma_alone(r, 0, u, n + 1);
    lemma_to_relation(r, 0, u, n + 1);
}

/// Blanks are passed over up to the first character that is none.
pub proof fn lemma_blanks_skipped(s: Seq<char>, i: int)
    requires
        0 <= i <= s.len(),
    ensures
        ({
            let j = grammar::skip_blanks(s, i);
            &&& i <= j <= s.len()
            &&& forall|k: int| i <= k < j ==> text::is_blank(#[trigger] s[k])
            &&& j < s.len() ==> !text::is_blank(s[j])
        }),
    decreases s.len() - i,
{
    if i < s.len() && text::is_blank(s[i]) {
        lemma_blanks_skipped(s, i + 1);
    }
}

/// Blanks make no difference before an operand, an operation, a comparison or
/// a closing bracket: reading goes on as if it began behind them.
pub proof fn lemma_blanks_ignored(s: Seq<char>, i: int, t: Tree)
    requires
        0 <= i <= s.len(),
    ensures
        ({
            let j = grammar::skip_blanks(s, i);
            &&& grammar::read_unary(s, i) == grammar::read_unary(s, j)
            &&& grammar::more_term(s, i, t) == grammar::more_term(s, j, t)
            &&& grammar::more_additive(s, i, t) == grammar::more_additive(s, j, t)
        }),
{
    lemma_blanks_skipped(s, i);
    let j = grammar::skip_blanks(s, i);
    assert(grammar::skip_blanks(s, j) == j);
}

/// A text without a quote does not end a string.
proof fn lemma_open_string(s: Seq<char>, i: int, seen: Seq<char>)
    requires
        0 <= i,
        forall|k: int| i <= k < s.len() ==> #[trigger] s[k] != '"',
    ensures
        grammar::text_from(s, i, seen) is None,
    decreases s.len() - i,
{
    if i < s.len() {
        lemma_open_string(s, i + 1, seen.push(s[i]));
    }
}

/// What is wrong with a text: nothing where an expression is due, something
/// behind an expression, a bracket or a string that is not closed, a point
/// without digits behind it, and an operation without its second operand.
/// What stands before the mistake is there to be evaluated.
#[verifier::rlimit(60)]
pub proof fn lemma_mistakes_read(a: Tree, op: Operation, x: Seq<char>, w: Seq<char>)
    requires
        writable(a),
        forall|k: int| 0 <= k < x.len() ==> #[trigger] x[k] != '"',
        all_digits(w),
    ensures
        grammar::parse(Seq::<char>::empty()) == Tree::Fail(Mistake::Nonsense),
        grammar::parse(written(a) + seq![')']) == Tree::Spoiled(
            Box::new(a),
            Mistake::TrailingInput,
        ),
        grammar::parse(seq!['('] + written(a)) == Tree::Spoiled(
            Box::new(a),
            Mistake::MissingCloseParen,
        ),
        grammar::parse(seq!['"'] + x) == Tree::Fail(Mistake::UnterminatedString),
        grammar::parse(w + seq!['.']) == Tree::Fail(Mistake::BadNumber),
        grammar::parse(written(a) + seq![sign(op)]) == Tree::Binary(
            op,
            Box::new(a),
            Box::new(Tree::Fail(Mistake::Nonsense)),
        ),
{
    lemma_brackets_missing(a);
    lemma_operand_missing(a, op);
    let q = seq!['"'] + x;
    assert forall|k: int| 1 <= k < q.len() implies #[trigger] q[k] != '"' by {
        assert(q[k] == x[k - 1]);
    }
    lemma_open_string(q, 1, Seq::empty());
    assert(q[0] == '"');
    let d = w + seq!['.'];
    assert(stands(d, 0, w));
    assert(d[w.len() as int] == '.');
    lemma_digits_stand(d, 0, w);
    assert(grammar::digits_end(d, d.len() as int) == d.len());
}

proof fn lemma_brackets_missing(a: Tree)
    requires
        writable(a),
    ensures
        grammar::parse(written(a) + seq![')']) == Tree::Spoiled(
            Box::new(a),
            Mistake::TrailingInput,
        ),
        grammar::parse(seq!['('] + written(a)) == Tree::Spoiled(
            Box::new(a),
            Mistake::MissingCloseParen,
        ),
{
    let s = written(a) + seq![')'];
    let e = written(a).len() as int;
    assert(stands(s, 0, written(a)));
    assert(s[e] == ')');
    lemma_read_written(s, 0, a);
    lemma_alone(s, 0, a, e);
    lemma_to_relation(s, 0, a, e);
    lemma_no_blank(s, e);
    let t = seq!['('] + written(a);
    let n = t.len() as int;
    assert(stands(t, 1, written(a)));
    assert(t[0] == '(');
    lemma_read_written(t, 1, a);
    lemma_alone(t, 1, a, n);
    lemma_to_relation(t, 1, a, n);
    lemma_no_blank(t, n);
    lemma_no_blank(t, 0);
    assert(grammar::read_atom(t, 0) == grammar::broken(
        Tree::Spoiled(Box::new(a), Mistake::MissingCloseParen),
        n,
    ));
}

proof fn lemma_operand_missing(a: Tree, op: Operation)
    requires
        writable(a),
    ensures
        grammar::parse(written(a) + seq![sign(op)]) == Tree::Binary(
            op,
            Box::new(a),
            Box::new(Tree::Fail(Mistake::Nonsense)),
        ),
{
    let s = written(a) + seq![sign(op)];
    let e = written(a).len() as int;
    let n = s.len() as int;
    let none = Tree::Fail(Mistake::Nonsense);
    let t = Tree::Binary(op, Box::new(a), Box::new(none));
    assert(stands(s, 0, written(a)));
    assert(s[e] == sign(op));
    lemma_read_written(s, 0, a);
    lemma_no_blank(s, e);
    assert(grammar::read_unary(s, n) == grammar::broken(none, n));
    assert(grammar::read_power(s, n) == grammar::broken(none, n));
    assert(grammar::read_term(s, n) == grammar::broken(none, n));
    if rank(op) == 3 {
        assert(grammar::read_power(s, 0) == grammar::broken(t, n));
        assert(grammar::read_term(s, 0) == grammar::broken(t, n));
    } else {
        lemma_to_power(s, 0, a, e);
        if rank(op) == 2 {
            assert(grammar::more_term(s, e, a) == grammar::broken(t, n));
            assert(grammar::read_term(s, 0) == grammar::broken(t, n));
        } else {
            lemma_to_term(s, 0, a, e);
            lemma_factor_end(s, e, a);
            assert(grammar::more_additive(s, e, a) == grammar::broken(t, n));
        }
    }
    assert(grammar::read_additive(s, 0) == grammar::broken(t, n));
}

/// The built-in functions: two without an argument, and those of one argument.
pub proof fn lemma_functions(name: Seq<char>)
    ensures
        grammar::is_constant(name) <==> name == "RND"@ || name == "PI"@,
        grammar::is_function(name) <==> name == "SIN"@ || name == "COS"@ || name == "TAN"@ || name
            == "ASN"@ || name == "ACS"@ || name == "ATN"@ || name == "LN"@ || name == "EXP"@ || name
            == "INT"@ || name == "ABS"@ || name == "SQR"@ || name == "SGN"@ || name == "LEN"@ || name
            == "CODE"@ || name == "VAL"@ || name == "CHR$"@ || name == "STR$"@,
{
}

/// A comparison with something behind it that it cannot go on with.
proof fn lemma_compared_and_more(
    s: Seq<char>,
    a: Tree,
    e: int,
    q: Relation,
    h: int,
    b: Tree,
    f: int,
)
    requires
        0 < e < h < f < s.len(),
        grammar::read_unary(s, 0) == grammar::read(a, e),
        grammar::at(s, e, '<') || grammar::at(s, e, '>') || grammar::at(s, e, '='),
        grammar::relation_at(s, e) == Some((q, h - e)),
        grammar::read_unary(s, h) == grammar::read(b, f),
        grammar::at(s, f, '<') || grammar::at(s, f, '>') || grammar::at(s, f, '='),
    ensures
        grammar::parse(s) == Tree::Spoiled(
            Box::new(Tree::Compare(q, Box::new(a), Box::new(b))),
            Mistake::TrailingInput,
        ),
{
    lemma_alone(s, 0, a, e);
    lemma_alone(s, h, b, f);
    lemma_compared(s, 0, a, e, q, h - e, b, f);
    lemma_no_blank(s, f);
}

/// A comparison cannot be compared without brackets: what follows it is one
/// thing too many.
#[verifier::spinoff_prover]
#[verifier::rlimit(60)]
pub proof fn lemma_one_comparison_only(a: Tree, q: Relation, b: Tree, g: Relation, c: Tree)
    requires
        writable(a),
        writable(b),
        writable(c),
    ensures
        grammar::parse(
            written(a) + relation_sign(q) + written(b) + relation_sign(g) + written(c),
        ) == Tree::Spoiled(
            Box::new(Tree::Compare(q, Box::new(a), Box::new(b))),
            Mistake::TrailingInput,
        ),
{
    let m = relation_sign(q);
    let k = relation_sign(g);
    let none = Seq::<char>::empty();
    let s = written(a) + m + written(b) + k + written(c);
    let e = written(a).len() as int;
    let h = e + m.len();
    let f = h + written(b).len();
    lemma_parts(written(a), m, written(b), k, written(c), none, none);
    assert(s == s + none + none);
    assert(s[f + 0] == k[0]);
    lemma_read_written(s, h, b);
    lemma_relation_at(s, e, q);
    lemma_read_written(s, 0, a);
    lemma_compared_and_more(s, a, e, q, h, b, f);
}

/// A name goes up to the first character that is neither letter nor digit, with
/// a `$` that stands there, and is taken in capitals, be it a variable or a
/// function.
pub proof fn lemma_name_in_capitals(w: Seq<char>, rest: Seq<char>)
    requires
        w.len() > 0,
        forall|i: int| 0 <= i < w.len() ==> text::is_alnum(#[trigger] w[i]),
        rest.len() > 0 ==> !text::is_alnum(rest[0]) && rest[0] != '$',
    ensures
        grammar::name_at(w + rest, 0) == text::uppercase(w),
        grammar::name_end(w + rest, 0) == w.len(),
        grammar::name_at(w + seq!['$'] + rest, 0) == text::uppercase(w).push('$'),
        grammar::name_end(w + seq!['$'] + rest, 0) == w.len() + 1,
{
    let n = w.len() as int;
    let s = w + rest;
    assert forall|k: int| 0 <= k < n implies text::is_alnum(#[trigger] s[k]) by {
        assert(s[k] == w[k]);
        assert(text::is_alnum(w[k]));
    }
    if rest.len() > 0 {
        assert(s[n] == rest[0]);
    }
    lemma_alnums(s, 0, n);
    assert(s.subrange(0, n) == w);
    let r = w + seq!['$'] + rest;
    assert forall|k: int| 0 <= k < n implies text::is_alnum(#[trigger] r[k]) by {
        assert(r[k] == w[k]);
        assert(text::is_alnum(w[k]));
    }
    assert(r[n] == '$');
    lemma_alnums(r, 0, n);
    assert(r.subrange(0, n) == w);
}

} // verus!
