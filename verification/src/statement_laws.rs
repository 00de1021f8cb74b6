//! What the statements of the language do: assignments, loops, jumps and
//! definitions.

use vstd::prelude::*;

use crate::calculator::{Arithmetic, Operation};
use crate::env::UserFnView;
use crate::machine;
use crate::machine::{
    ColourKind, Fault, LoopView, Outcome, PendingView, StepResult, SystemView,
};
use crate::number::Number;
use crate::program;
use crate::semantics;
use crate::syntax;
use crate::text;
use crate::text::Class;
use crate::text_laws;
use crate::value;
use crate::value::ValueView;

verus! {

/// The letters that tell the words of the statements apart.
pub proof fn lemma_words()
    ensures
        "PRINT"@.len() == 5 && "PRINT"@[0] == 'P' && "PRINT"@[1] == 'R',
        "LET"@.len() == 3 && "LET"@[0] == 'L' && "LET"@[1] == 'E',
        "GOTO"@.len() == 4 && "GOTO"@[0] == 'G',
        "STOP"@.len() == 4 && "STOP"@[0] == 'S',
        "NEW"@.len() == 3 && "NEW"@[0] == 'N',
        "GOSUB"@.len() == 5 && "GOSUB"@[0] == 'G',
        "RETURN"@.len() == 6 && "RETURN"@[0] == 'R',
        "DEF"@.len() == 3 && "DEF"@[0] == 'D' && "DEF"@[1] == 'E',
        "DIM"@.len() == 3 && "DIM"@[0] == 'D' && "DIM"@[1] == 'I',
        "CLS"@.len() == 3 && "CLS"@[0] == 'C',
        "LIST"@.len() == 4 && "LIST"@[0] == 'L',
        "RUN"@.len() == 3 && "RUN"@[0] == 'R',
        "FOR"@.len() == 3 && "FOR"@[0] == 'F',
        "NEXT"@.len() == 4 && "NEXT"@[0] == 'N',
        "INPUT"@.len() == 5 && "INPUT"@[0] == 'I',
        "INK"@.len() == 3 && "INK"@[0] == 'I',
        "PAPER"@.len() == 5 && "PAPER"@[0] == 'P' && "PAPER"@[1] == 'A',
        "BRIGHT"@.len() == 6 && "BRIGHT"@[0] == 'B' && "BRIGHT"@[1] == 'R',
        "FLASH"@.len() == 5 && "FLASH"@[0] == 'F',
        "PLOT"@.len() == 4 && "PLOT"@[0] == 'P',
        "DRAW"@.len() == 4 && "DRAW"@[0] == 'D',
        "CIRCLE"@.len() == 6 && "CIRCLE"@[0] == 'C',
        "BORDER"@.len() == 6 && "BORDER"@[0] == 'B' && "BORDER"@[1] == 'O',
        "BEEP"@.len() == 4 && "BEEP"@[0] == 'B',
        "IF"@.len() == 2 && "IF"@[0] == 'I',
{
    reveal_strlit("PRINT");
    reveal_strlit("LET");
    reveal_strlit("GOTO");
    reveal_strlit("STOP");
    reveal_strlit("NEW");
    reveal_strlit("GOSUB");
    reveal_strlit("RETURN");
    reveal_strlit("DEF");
    reveal_strlit("DIM");
    reveal_strlit("CLS");
    reveal_strlit("LIST");
    reveal_strlit("RUN");
    reveal_strlit("FOR");
    reveal_strlit("NEXT");
    reveal_strlit("INPUT");
    reveal_strlit("INK");
    reveal_strlit("PAPER");
    reveal_strlit("BRIGHT");
    reveal_strlit("FLASH");
    reveal_strlit("PLOT");
    reveal_strlit("DRAW");
    reveal_strlit("CIRCLE");
    reveal_strlit("BORDER");
    reveal_strlit("BEEP");
    reveal_strlit("IF");
}

/// The words that statements begin with, but for `IF`.
pub open spec fn is_word(w: Seq<char>) -> bool {
    ||| w == "PRINT"@ || w == "LET"@ || w == "GOTO"@ || w == "STOP"@ || w == "NEW"@ || w == "GOSUB"@
    ||| w == "RETURN"@ || w == "DEF"@ || w == "DIM"@ || w == "CLS"@ || w == "LIST"@ || w == "RUN"@
    ||| w == "FOR"@ || w == "NEXT"@ || w == "INPUT"@ || w == "INK"@ || w == "PAPER"@ || w
        == "BRIGHT"@
    ||| w == "FLASH"@ || w == "PLOT"@ || w == "DRAW"@ || w == "CIRCLE"@ || w == "BORDER"@ || w
        == "BEEP"@
}

/// Each word is its own statement, and any other word makes no sense.
#[verifier::rlimit(60)]
pub proof fn lemma_dispatch(s: SystemView, args: Seq<char>, word: Seq<char>, ar: Arithmetic)
    ensures
        s.command("PRINT"@, args, ar) == s.print(args, ar),
        s.command("LET"@, args, ar) == s.assign(args, ar),
        s.command("GOTO"@, args, ar) == s.goto(args, ar),
        s.command("STOP"@, args, ar) == (s, StepResult::Stop),
        s.command("GOSUB"@, args, ar) == s.gosub(args, ar),
        s.command("RETURN"@, args, ar) == s.go_back(),
        s.command("DEF"@, args, ar) == s.def(args),
        s.command("DIM"@, args, ar) == s.dim(args, ar),
        s.command("CLS"@, args, ar) == (s.cls(), StepResult::Done),
        s.command("LIST"@, args, ar) == s.list(),
        s.command("RUN"@, args, ar) == s.run(args, ar),
        s.command("FOR"@, args, ar) == s.for_to(args, ar),
        s.command("NEXT"@, args, ar) == s.next(args, ar),
        s.command("INPUT"@, args, ar) == s.ask(args),
        s.command("INK"@, args, ar) == s.colour(args, ColourKind::Ink, ar),
        s.command("PAPER"@, args, ar) == s.colour(args, ColourKind::Paper, ar),
        s.command("BRIGHT"@, args, ar) == s.colour(args, ColourKind::Bright, ar),
        s.command("FLASH"@, args, ar) == s.colour(args, ColourKind::Flash, ar),
        s.command("PLOT"@, args, ar) == s.plot(args, ar),
        s.command("DRAW"@, args, ar) == s.draw(args, ar),
        s.command("CIRCLE"@, args, ar) == s.circle(args, ar),
        s.command("BORDER"@, args, ar) == s.border(args, ar),
        s.command("BEEP"@, args, ar) == s.beep(args, ar),
        !is_word(word) ==> s.command(word, args, ar) == (s, StepResult::Error(Fault::Nonsense)),
{
    lemma_words();
    reveal(SystemView::command);
}

/// A statement is its first word, in either case, with what follows it; only
/// `IF` is not a command of its own.
pub proof fn lemma_statement(
    s: SystemView,
    word: Seq<char>,
    args: Seq<char>,
    ar: Arithmetic,
)
    requires
        word.len() > 0,
        forall|i: int| 0 <= i < word.len() ==> text::is_alnum(#[trigger] word[i]),
        args.len() > 0,
        !text::is_space(args[0]),
        !text::is_space(args.last()),
    ensures
        ({
            let head = text::uppercase(word);
            let stmt = word + seq![' '] + args;
            &&& head != "IF"@ ==> s.statement(stmt, ar) == (
                s.command(head, args, ar).0,
                Outcome::Ended(s.command(head, args, ar).1),
            )
            &&& head == "IF"@ ==> s.statement(stmt, ar) == s.conditional(args, ar)
            &&& s.statement(Seq::<char>::empty(), ar) == (s, Outcome::Ended(StepResult::Done))
        }),
{
    reveal(SystemView::statement);
    let stmt = word + seq![' '] + args;
    assert(stmt[0] == word[0]);
    text::lemma_leading_is(stmt, Class::Space, 0);
    assert(text::trim_start(stmt) == stmt);
    assert(stmt.last() == args.last());
    assert(text::trim(stmt) == stmt);
    assert forall|i: int| 0 <= i < word.len() implies !text::is_blank(#[trigger] word[i]) by {
        assert(text::is_alnum(word[i]));
    }
    text_laws::lemma_first_word(word, ' ', args);
    let tail = seq![' '] + args;
    assert(tail[0] == ' ');
    assert(tail.drop_first() == args);
    text::lemma_leading_is(args, Class::Space, 0);
    assert(text::leading(tail, Class::Space) == 1);
    assert(text::trim_start(tail) == args);
    text::lemma_trim_len(Seq::<char>::empty());
}

/// `IF` and `DEF` take all of their line; any other statement ends before the
/// first colon at top level.
pub proof fn lemma_first_statement(line: Seq<char>)
    ensures
        ({
            let head = text::uppercase(syntax::at_blank(line).0);
            &&& head == "IF"@ || head == "DEF"@ ==> machine::first_statement(line) == (
                line,
                Seq::<char>::empty(),
            )
            &&& head != "IF"@ && head != "DEF"@ ==> machine::first_statement(line)
                == syntax::at_colon(line)
        }),
{
}

/// Whether a text has neither quotes nor brackets.
pub open spec fn flat(s: Seq<char>) -> bool {
    forall|i: int|
        0 <= i < s.len() ==> #[trigger] s[i] != '"' && s[i] != '(' && s[i] != ')'
}

proof fn lemma_flat(a: Seq<char>, b: Seq<char>, i: int)
    requires
        flat(a),
        i <= a.len(),
    ensures
        syntax::top_level(a + b, i),
    decreases i,
{
    if i > 0 {
        lemma_flat(a, b, i - 1);
        assert((a + b)[i - 1] == a[i - 1]);
    }
}

/// The assignment sign behind a text without one and without quotes and
/// brackets.
proof fn lemma_sign_behind(lhs: Seq<char>, rhs: Seq<char>)
    requires
        flat(lhs),
        !lhs.contains('='),
    ensures
        syntax::first_top_level(lhs + seq!['='] + rhs, '=', 0) == Some(lhs.len() as int),
{
    let s = lhs + seq!['='] + rhs;
    assert(s == lhs + (seq!['='] + rhs));
    text_laws::lemma_first_at_top_level(s, '=');
    lemma_flat(lhs, seq!['='] + rhs, lhs.len() as int);
    assert(s[lhs.len() as int] == '=');
    if let Some(i) = syntax::first_top_level(s, '=', 0) {
        if i < lhs.len() {
            assert(s[i] == lhs[i]);
        }
    }
}

/// `LET name = expression` gives the variable the value of the expression,
/// where it is of the type that the name tells, and changes no other variable.
/// Otherwise it makes no sense and changes none.
pub proof fn lemma_let_variable(s: SystemView, lhs: Seq<char>, rhs: Seq<char>, ar: Arithmetic)
    requires
        flat(lhs),
        !lhs.contains('='),
    ensures
        ({
            let name = syntax::normalised(text::trim(lhs));
            let (v, t) = s.valued(rhs, ar);
            let r = s.command("LET"@, lhs + seq!['='] + rhs, ar);
            &&& syntax::valid_name(name) && v is Some && (v->0 is Str) == (name.last() == '$')
                ==> r == (SystemView { vars: s.vars.insert(name, v->0), seed: t.seed, ..s }, StepResult::Done)
            &&& !syntax::valid_name(name) || v is None || (v->0 is Str) != (name.last() == '$')
                ==> r.1 == StepResult::Error(Fault::Nonsense) && r.0 == (SystemView {
                seed: r.0.seed,
                ..s
            })
        }),
{
    lemma_dispatch(s, lhs + seq!['='] + rhs, Seq::empty(), ar);
    reveal(SystemView::assign);
    reveal(SystemView::valued);
    lemma_sign_behind(lhs, rhs);
    let args = lhs + seq!['='] + rhs;
    assert(args.take(lhs.len() as int) == lhs);
    assert(args.skip(lhs.len() as int + 1) == rhs);
    let t = text::trim(lhs);
    text_laws::lemma_occurrences(t, '(');
    text_laws::lemma_trim(lhs);
    if let Some(i) = text::index_of(t, '(') {
        let (a, b) = choose|a: int, b: int|
            0 <= a <= b <= lhs.len() && text::trim(lhs) == #[trigger] lhs.subrange(a, b);
        assert(t[i] == lhs[a + i]);
    }
}

/// `LET name(index) = expression` stores the number in the element that the
/// whole part of the index tells, counting from one, and in no other; where
/// there is no such element the subscript is wrong and nothing changes.
#[verifier::rlimit(60)]
pub proof fn lemma_let_element(
    s: SystemView,
    before: Seq<char>,
    inside: Seq<char>,
    rhs: Seq<char>,
    ar: Arithmetic,
)
    requires
        before.len() > 0,
        forall|i: int| 0 <= i < before.len() ==> text::is_alnum(#[trigger] before[i]),
        text::is_letter(before[0]),
        ({
            let lhs = before + seq!['('] + inside + seq![')'];
            syntax::first_top_level(lhs, '=', 0) is None && syntax::top_level(lhs, lhs.len() as int)
        }),
    ensures
        ({
            let name = text::uppercase(before);
            let (i, t) = s.number(inside, ar);
            let (v, u) = t.number(rhs, ar);
            let r = s.command("LET"@, before + seq!['('] + inside + seq![')', '='] + rhs, ar);
            &&& i is None || v is None ==> r.1 == StepResult::Error(Fault::Nonsense)
            &&& i is Some && v is Some ==> {
                let k = i->0.saturated(i64::MIN as int, i64::MAX as int);
                &&& s.arrays.contains_key(name) && 1 <= k <= s.arrays[name].len() ==> r == (
                    SystemView {
                        arrays: s.arrays.insert(name, s.arrays[name].update(k - 1, v->0)),
                        seed: u.seed,
                        ..s
                    },
                    StepResult::Done,
                )
                &&& !s.arrays.contains_key(name) || !(1 <= k <= s.arrays[name].len()) ==> r.1
                    == StepResult::Error(Fault::SubscriptWrong)
            }
            &&& r.1 != StepResult::Done ==> r.0 == (SystemView { seed: r.0.seed, ..s })
        }),
{
    let lhs = before + seq!['('] + inside + seq![')'];
    let args = before + seq!['('] + inside + seq![')', '='] + rhs;
    assert(args == lhs + seq!['='] + rhs);
    lemma_dispatch(s, args, Seq::empty(), ar);
    reveal(SystemView::assign);
    reveal(SystemView::valued);
    syntax::lemma_first_behind(lhs, rhs, '=', 0);
    assert(args.take(lhs.len() as int) == lhs);
    assert(args.skip(lhs.len() as int + 1) == rhs);
    lemma_already_trimmed(lhs, before);
    lemma_brackets_parted(before, inside);
    lemma_name_kept(before);
}

/// A text that begins with a name and ends with a bracket needs no trimming.
proof fn lemma_already_trimmed(lhs: Seq<char>, before: Seq<char>)
    requires
        before.len() > 0,
        text::is_alnum(before[0]),
        lhs.len() > 0,
        lhs[0] == before[0],
        lhs.last() == ')',
    ensures
        text::trim(lhs) == lhs,
{
    text::lemma_leading_is(lhs, Class::Space, 0);
    assert(text::trim_start(lhs) == lhs);
}

/// What stands before a bracket and inside it.
proof fn lemma_brackets_parted(before: Seq<char>, inside: Seq<char>)
    requires
        forall|i: int| 0 <= i < before.len() ==> text::is_alnum(#[trigger] before[i]),
    ensures
        ({
            let lhs = before + seq!['('] + inside + seq![')'];
            let rest = inside + seq![')'];
            &&& syntax::at_char(lhs, '(') == Some((before, rest))
            &&& text::last_index_of(rest, ')') == Some(inside.len() as int)
            &&& rest.take(inside.len() as int) == inside
        }),
{
    let lhs = before + seq!['('] + inside + seq![')'];
    let rest = inside + seq![')'];
    assert(!before.contains('(')) by {
        if before.contains('(') {
            let i = choose|i: int| 0 <= i < before.len() && before[i] == '(';
            assert(text::is_alnum(before[i]));
        }
    }
    text_laws::lemma_parted(before, '(', rest);
    assert(lhs == before + seq!['('] + rest);
    text_laws::lemma_occurrences(rest, ')');
    assert(rest[inside.len() as int] == ')');
    assert(rest.take(inside.len() as int) == inside);
}

/// A name of letters and digits is trimmed and normalised to its capitals.
proof fn lemma_name_kept(before: Seq<char>)
    requires
        before.len() > 0,
        forall|i: int| 0 <= i < before.len() ==> text::is_alnum(#[trigger] before[i]),
        text::is_letter(before[0]),
    ensures
        text::trim(before) == before,
        syntax::normalised(text::trim(before)) == text::uppercase(before),
        syntax::valid_name(text::uppercase(before)),
        !value::names_string(text::uppercase(before)),
{
    assert(text::is_alnum(before[before.len() - 1]));
    text::lemma_leading_is(before, Class::Space, 0);
    assert(text::trim_start(before) == before);
    assert(text::trim(before) == before);
    text_laws::lemma_normalised(before);
    let u = text::uppercase(before);
    assert forall|i: int| 0 <= i < u.len() implies text::is_alnum(#[trigger] u[i]) by {
        assert(text::is_alnum(before[i]));
    }
    text_laws::lemma_names(u);
}

/// `DIM name(size)` makes an array of as many zeros as the whole part of the
/// size tells, from one to ten thousand, in place of any of that name; other
/// sizes are wrong.
pub proof fn lemma_dim(s: SystemView, before: Seq<char>, inside: Seq<char>, ar: Arithmetic)
    requires
        before.len() > 0,
        forall|i: int| 0 <= i < before.len() ==> text::is_alnum(#[trigger] before[i]),
        text::is_letter(before[0]),
    ensures
        ({
            let name = text::uppercase(before);
            let (n, t) = s.number(inside, ar);
            let r = s.command("DIM"@, before + seq!['('] + inside + seq![')'], ar);
            &&& n is None ==> r.1 == StepResult::Error(Fault::Nonsense)
            &&& n is Some ==> {
                let k = n->0.saturated(i64::MIN as int, i64::MAX as int);
                &&& 1 <= k <= 10000 ==> {
                    &&& r.1 == StepResult::Done
                    &&& r.0 == (SystemView {
                        arrays: s.arrays.insert(name, r.0.arrays[name]),
                        seed: t.seed,
                        ..s
                    })
                    &&& r.0.arrays[name].len() == k
                    &&& forall|i: int| 0 <= i < k ==> (#[trigger] r.0.arrays[name][i]).bits == 0
                }
                &&& !(1 <= k <= 10000) ==> r.1 == StepResult::Error(Fault::SubscriptWrong)
            }
            &&& r.1 != StepResult::Done ==> r.0 == (SystemView { seed: r.0.seed, ..s })
        }),
{
    let args = before + seq!['('] + inside + seq![')'];
    lemma_dispatch(s, args, Seq::empty(), ar);
    reveal(SystemView::dim);
    reveal(SystemView::valued);
    lemma_already_trimmed(args, before);
    lemma_brackets_parted(before, inside);
    lemma_name_kept(before);
}

/// `GOTO` goes to the line that the whole part of its argument tells; a number
/// below 0 or above 65535 is out of range. No variable changes.
pub proof fn lemma_goto(s: SystemView, args: Seq<char>, ar: Arithmetic)
    ensures
        ({
            let (n, t) = s.number(args, ar);
            let r = s.command("GOTO"@, args, ar);
            &&& r.0 == t && t == (SystemView { seed: t.seed, ..s })
            &&& n is None ==> r.1 == StepResult::Error(Fault::Nonsense)
            &&& n is Some && n->0.within(0, 65535) ==> (r.1 matches StepResult::Goto(k) && k
                == n->0.truncated())
            &&& n is Some && !n->0.within(0, 65535) ==> r.1 == StepResult::Error(
                Fault::IntegerOutOfRange,
            )
        }),
{
    lemma_dispatch(s, args, Seq::empty(), ar);
    reveal(SystemView::goto);
    reveal(SystemView::valued);
    if let Some(n) = s.number(args, ar).0 {
        if n.within(0, 65535) {
            lemma_line_number(n);
        }
    }
}

/// A number within the line numbers is its whole part as a line number.
proof fn lemma_line_number(n: Number)
    requires
        n.within(0, 65535),
    ensures
        machine::line_number(n) == n.truncated(),
        0 <= n.truncated() <= 65535,
{
    let u = crate::number::unit() as int;
    vstd::arithmetic::power2::lemma_pow2_pos(1074);
    crate::number::lemma_truncated(n);
    let t = n.truncated();
    assert(0 * u == 0);
    assert(0 <= t <= 65535) by (nonlinear_arith)
        requires
            t * u <= n.value() < (t + 1) * u,
            0 <= n.value() <= 65535 * u,
            u > 0,
    ;
}

/// `GOSUB` goes where `GOTO` would and notes the line of the call.
pub proof fn lemma_gosub(s: SystemView, args: Seq<char>, ar: Arithmetic)
    ensures
        ({
            let (n, t) = s.number(args, ar);
            let r = s.command("GOSUB"@, args, ar);
            let line = match s.line {
                Some(line) => line,
                None => 0,
            };
            &&& n is Some && n->0.within(0, 65535) ==> r.0 == (SystemView {
                returns: s.returns.push(line),
                seed: t.seed,
                ..s
            }) && (r.1 matches StepResult::Goto(k) && k == n->0.truncated())
            &&& n is None || !n->0.within(0, 65535) ==> r.0 == (SystemView { seed: t.seed, ..s })
                && r.1 == StepResult::Error(Fault::Nonsense)
        }),
{
    lemma_dispatch(s, args, Seq::empty(), ar);
    reveal(SystemView::gosub);
    reveal(SystemView::valued);
    if let Some(n) = s.number(args, ar).0 {
        if n.within(0, 65535) {
            lemma_line_number(n);
        }
    }
}

/// `RETURN` goes on after the line of the latest call and forgets that call and
/// no other; without one it fails.
pub proof fn lemma_return(s: SystemView, args: Seq<char>, ar: Arithmetic)
    ensures
        s.returns.len() > 0 ==> s.command("RETURN"@, args, ar) == (
            SystemView { returns: s.returns.take(s.returns.len() - 1), ..s },
            StepResult::After(s.returns[s.returns.len() - 1]),
        ),
        s.returns.len() == 0 ==> s.command("RETURN"@, args, ar) == (
            s,
            StepResult::Error(Fault::ReturnWithoutGosub),
        ),
{
    lemma_dispatch(s, args, Seq::empty(), ar);
    reveal(SystemView::go_back);
    if s.returns.len() > 0 {
        assert(s.returns.drop_last() == s.returns.take(s.returns.len() - 1));
    }
}

/// `FOR name = a TO b STEP c` sets the variable to the value of `a` and notes a
/// loop with the value of `b` as its end and the value of `c` as its step. A
/// step of zero makes no sense.
#[verifier::rlimit(60)]
pub proof fn lemma_for_step(
    s: SystemView,
    lhs: Seq<char>,
    a: Seq<char>,
    b: Seq<char>,
    c: Seq<char>,
    after: Seq<char>,
    rest: Seq<char>,
    ar: Arithmetic,
)
    requires
        !lhs.contains('='),
        syntax::at_word(after, "TO"@) == Some((a, rest)),
        syntax::at_word(rest, "STEP"@) == Some((b, c)),
        syntax::valid_name(syntax::normalised(text::trim(lhs))),
        !value::names_string(syntax::normalised(text::trim(lhs))),
    ensures
        ({
            let name = syntax::normalised(text::trim(lhs));
            let (x, t) = s.number(a, ar);
            let (y, u) = t.number(b, ar);
            let (z, v) = u.number(c, ar);
            let r = s.command("FOR"@, lhs + seq!['='] + after, ar);
            let line = match s.line {
                Some(line) => line,
                None => 0,
            };
            &&& x is Some && y is Some && z is Some && (z->0.is_nan() || z->0.value() != 0) ==> r == (
                SystemView {
                    vars: s.vars.insert(name, ValueView::Num(x->0)),
                    loops: s.loops.push(LoopView { var: name, end: y->0, step: z->0, line }),
                    seed: v.seed,
                    ..s
                },
                StepResult::Done,
            )
            &&& x is None || y is None || z is None || (!z->0.is_nan() && z->0.value() == 0) ==> r == (
                SystemView { seed: v.seed, ..s },
                StepResult::Error(Fault::Nonsense),
            )
        }),
{
    lemma_dispatch(s, lhs + seq!['='] + after, Seq::empty(), ar);
    reveal(SystemView::for_to);
    reveal(SystemView::valued);
    text_laws::lemma_parted(lhs, '=', after);
    crate::number::lemma_scale(0);
}

/// `FOR name = a TO b` is the same with a step of one.
pub proof fn lemma_for_one(
    s: SystemView,
    lhs: Seq<char>,
    a: Seq<char>,
    b: Seq<char>,
    after: Seq<char>,
    ar: Arithmetic,
)
    requires
        !lhs.contains('='),
        syntax::at_word(after, "TO"@) == Some((a, b)),
        syntax::at_word(b, "STEP"@) is None,
        syntax::valid_name(syntax::normalised(text::trim(lhs))),
        !value::names_string(syntax::normalised(text::trim(lhs))),
    ensures
        ({
            let name = syntax::normalised(text::trim(lhs));
            let (x, t) = s.number(a, ar);
            let (y, u) = t.number(b, ar);
            let r = s.command("FOR"@, lhs + seq!['='] + after, ar);
            let line = match s.line {
                Some(line) => line,
                None => 0,
            };
            &&& x is Some && y is Some ==> {
                let one = r.0.loops.last().step;
                &&& one.value() == crate::number::unit() && !one.is_nan()
                &&& r == (
                    SystemView {
                        vars: s.vars.insert(name, ValueView::Num(x->0)),
                        loops: s.loops.push(LoopView { var: name, end: y->0, step: one, line }),
                        seed: u.seed,
                        ..s
                    },
                    StepResult::Done,
                )
            }
            &&& x is None || y is None ==> r == (
                SystemView { seed: u.seed, ..s },
                StepResult::Error(Fault::Nonsense),
            )
        }),
{
    lemma_dispatch(s, lhs + seq!['='] + after, Seq::empty(), ar);
    reveal(SystemView::for_to);
    reveal(SystemView::valued);
    text_laws::lemma_parted(lhs, '=', after);
    crate::number::lemma_scale(0);
    vstd::arithmetic::power2::lemma_pow2_pos(1074);
}

/// `FOR` without a numeric variable, without `=` or without `TO` makes no sense.
pub proof fn lemma_for_refused(s: SystemView, lhs: Seq<char>, after: Seq<char>, ar: Arithmetic)
    requires
        !lhs.contains('='),
    ensures
        ({
            let name = syntax::normalised(text::trim(lhs));
            &&& !syntax::valid_name(name) || name.last() == '$' || syntax::at_word(after, "TO"@) is None
                ==> s.command("FOR"@, lhs + seq!['='] + after, ar) == (
                s,
                StepResult::Error(Fault::Nonsense),
            )
            &&& s.command("FOR"@, lhs, ar) == (s, StepResult::Error(Fault::Nonsense))
        }),
{
    lemma_dispatch(s, lhs + seq!['='] + after, Seq::empty(), ar);
    lemma_dispatch(s, lhs, Seq::empty(), ar);
    reveal(SystemView::for_to);
    text_laws::lemma_parted(lhs, '=', after);
}

/// `NEXT` adds the step to the variable of its loop. Going up, the loop ends
/// where the variable is above the end; going down, where it is below; otherwise
/// the program goes on after the line of the `FOR`. A loop that ends is
/// forgotten with those that were begun after it.
pub proof fn lemma_next_steps(s: SystemView, args: Seq<char>, i: int, ar: Arithmetic)
    requires
        s.next_loop(args) == Some(i),
        0 <= i < s.loops.len(),
        s.vars.contains_key(s.loops[i].var),
        s.vars[s.loops[i].var] is Num,
        !s.loops[i].step.is_nan(),
        !s.loops[i].end.is_nan(),
        !(ar.operate)(Operation::Add, s.vars[s.loops[i].var]->Num_0, s.loops[i].step).is_nan(),
    ensures
        ({
            let l = s.loops[i];
            let n = (ar.operate)(Operation::Add, s.vars[l.var]->Num_0, l.step);
            let r = s.command("NEXT"@, args, ar);
            let over = if l.step.value() > 0 {
                n.value() > l.end.value()
            } else {
                l.step.value() < 0 && n.value() < l.end.value()
            };
            let t = SystemView { vars: s.vars.insert(l.var, ValueView::Num(n)), ..s };
            &&& over ==> r == (SystemView { loops: s.loops.take(i), ..t }, StepResult::Done)
            &&& !over ==> r == (t, StepResult::After(l.line))
        }),
{
    lemma_dispatch(s, args, Seq::empty(), ar);
    reveal(SystemView::next);
    crate::number::lemma_scale(0);
}

/// `NEXT` without a loop of its variable fails and changes nothing.
pub proof fn lemma_next_refused(s: SystemView, args: Seq<char>, ar: Arithmetic)
    requires
        s.next_loop(args) is None,
    ensures
        s.command("NEXT"@, args, ar) == (s, StepResult::Error(Fault::NextWithoutFor)),
{
    lemma_dispatch(s, args, Seq::empty(), ar);
    reveal(SystemView::next);
}

/// `IF condition THEN rest`: the condition is what stands before `THEN` and must
/// be a number; where it is not zero the line goes on with the rest, which must
/// not be empty, and where it is zero the line is done.
pub proof fn lemma_if_then(
    s: SystemView,
    args: Seq<char>,
    condition: Seq<char>,
    rest: Seq<char>,
    ar: Arithmetic,
)
    requires
        syntax::at_word(args, "THEN"@) == Some((condition, rest)),
    ensures
        ({
            let (n, t) = s.number(condition, ar);
            let r = s.conditional(args, ar);
            &&& r.0 == t
            &&& n is None ==> r.1 == Outcome::Ended(StepResult::Error(Fault::Nonsense))
            &&& n is Some && !n->0.is_nan() && n->0.value() == 0 ==> r.1 == Outcome::Ended(
                StepResult::Done,
            )
            &&& n is Some && (n->0.is_nan() || n->0.value() != 0) ==> r.1 == (if text::trim(
                rest,
            ).len() == 0 {
                Outcome::Ended(StepResult::Error(Fault::Nonsense))
            } else {
                Outcome::Then(text::trim(rest))
            })
        }),
{
    reveal(SystemView::condition);
    reveal(SystemView::conditional);
    reveal(SystemView::valued);
    crate::number::lemma_scale(0);
}

/// `IF` without `THEN` makes no sense.
pub proof fn lemma_if_refused(s: SystemView, args: Seq<char>, ar: Arithmetic)
    requires
        syntax::at_word(args, "THEN"@) is None,
    ensures
        s.conditional(args, ar) == (s, Outcome::Ended(StepResult::Error(Fault::Nonsense))),
{
    reveal(SystemView::condition);
    reveal(SystemView::conditional);
}

/// `RUN line` starts at the first line from the one it names on, with no
/// variable, array, loop or call left.
pub proof fn lemma_run_from(s: SystemView, args: Seq<char>, ar: Arithmetic)
    requires
        text::trim(args).len() > 0,
    ensures
        ({
            let fresh = SystemView {
                vars: Map::empty(),
                arrays: Map::empty(),
                loops: Seq::empty(),
                returns: Seq::empty(),
                pending: None,
                ..s
            };
            let (n, t) = fresh.number(args, ar);
            let r = s.command("RUN"@, args, ar);
            &&& n is Some && n->0.within(0, 65535) ==> r == (
                SystemView {
                    pc: program::next_line(s.listing, n->0.truncated()),
                    rest: None,
                    break_requested: false,
                    seed: t.seed,
                    ..fresh
                },
                StepResult::Done,
            )
            &&& n is None || !n->0.within(0, 65535) ==> r == (
                SystemView { seed: t.seed, ..fresh },
                StepResult::Error(Fault::Nonsense),
            )
            &&& s.command("RUN"@, Seq::<char>::empty(), ar) == (
                SystemView {
                    pc: program::next_line(s.listing, 0),
                    rest: None,
                    break_requested: false,
                    ..fresh
                },
                StepResult::Done,
            )
        }),
{
    lemma_dispatch(s, args, Seq::empty(), ar);
    lemma_dispatch(s, Seq::empty(), Seq::empty(), ar);
    reveal(SystemView::run);
    reveal(SystemView::valued);
    text::lemma_trim_len(Seq::<char>::empty());
    let fresh = s.fresh();
    if let Some(n) = fresh.number(args, ar).0 {
        if n.within(0, 65535) {
            lemma_line_number(n);
        }
    }
}

/// `DEF FN name(param)=body` makes a function of that name, in capitals, with
/// the parameter in capitals and the text of the body, in place of any of that
/// name.
#[verifier::rlimit(60)]
pub proof fn lemma_def_fn(
    s: SystemView,
    name: Seq<char>,
    param: Seq<char>,
    body: Seq<char>,
    ar: Arithmetic,
)
    requires
        name.len() > 0,
        forall|i: int| 0 <= i < name.len() ==> text::is_alnum(#[trigger] name[i]),
        param.len() > 0,
        text::is_letter(param[0]),
        forall|i: int| 0 <= i < param.len() ==> text::is_alnum(#[trigger] param[i]),
        text::trim(body).len() > 0,
    ensures
        s.command(
            "DEF"@,
            seq!['F', 'N', ' '] + name + seq!['('] + param + seq![')', '='] + body,
            ar,
        ) == (
            SystemView {
                fns: s.fns.insert(
                    text::uppercase(name),
                    UserFnView { param: text::uppercase(param), body: text::trim(body) },
                ),
                ..s
            },
            StepResult::Done,
        ),
{
    let args = seq!['F', 'N', ' '] + name + seq!['('] + param + seq![')', '='] + body;
    lemma_dispatch(s, args, Seq::empty(), ar);
    reveal(SystemView::def);
    assert(args[0] == 'F' && args[1] == 'N' && args[2] == ' ');
    text::lemma_leading_is(args, Class::Space, 0);
    assert(text::trim_start(args) == args);
    reveal_strlit("FN");
    assert(text::uppercase(args).take(2) == "FN"@);
    let named = name + seq!['('] + param + seq![')', '='] + body;
    assert(args.skip(2) == seq![' '] + named);
    let spaced = seq![' '] + named;
    assert(spaced[0] == ' ');
    assert(spaced.drop_first() == named);
    assert(named[0] == name[0]);
    assert(text::is_alnum(name[0]));
    text::lemma_leading_is(named, Class::Space, 0);
    assert(text::leading(spaced, Class::Space) == 1);
    assert(text::trim_start(spaced) == named);
    let n = name.len();
    assert forall|i: int| 0 <= i < n implies text::in_class(Class::Name, #[trigger] named[i]) by {
        assert(named[i] == name[i]);
        assert(text::is_alnum(name[i]));
    }
    assert(named[n as int] == '(');
    text::lemma_leading_is(named, Class::Name, n);
    assert(named.take(n as int) == name);
    let bracket = seq!['('] + param + seq![')', '='] + body;
    assert(named.skip(n as int) == bracket);
    assert(bracket[0] == '(');
    text::lemma_leading_is(bracket, Class::Space, 0);
    assert(text::trim_start(bracket) == bracket);
    let tail = seq!['='] + body;
    let inside = param + seq![')'] + tail;
    assert(bracket.skip(1) == inside);
    assert(!param.contains(')')) by {
        if param.contains(')') {
            let i = choose|i: int| 0 <= i < param.len() && param[i] == ')';
            assert(text::is_alnum(param[i]));
        }
    }
    text_laws::lemma_parted(param, ')', tail);
    text_laws::lemma_occurrences(inside, ')');
    assert(inside[param.len() as int] == ')');
    assert(text::index_of(inside, ')') == Some(param.len() as int)) by {
        let i = text::index_of(inside, ')')->0;
        if i < param.len() {
            assert(inside[i] == param[i]);
        }
    }
    assert(inside.take(param.len() as int) == param);
    assert(inside.skip(param.len() as int + 1) == tail);
    assert(tail[0] == '=');
    text::lemma_leading_is(tail, Class::Space, 0);
    assert(text::trim_start(tail) == tail);
    assert(tail.skip(1) == body);
    lemma_name_kept(param);
}

/// `INPUT name` waits for a line for that variable; outside a program, or
/// without a name, it makes no sense.
pub proof fn lemma_input(s: SystemView, args: Seq<char>, ar: Arithmetic)
    ensures
        ({
            let name = syntax::normalised(text::trim(args));
            let r = s.command("INPUT"@, args, ar);
            &&& s.line is Some && syntax::valid_name(name) ==> r == (
                SystemView { pending: Some(PendingView { var: name, line: s.line->0 }), ..s },
                StepResult::AwaitInput,
            )
            &&& s.line is None || !syntax::valid_name(name) ==> r == (
                s,
                StepResult::Error(Fault::Nonsense),
            )
        }),
{
    lemma_dispatch(s, args, Seq::empty(), ar);
    reveal(SystemView::ask);
}

/// The value of a text is that of the expression, looked up among what the
/// machine holds; a text that is wrong has none. Evaluating moves the random
/// numbers on and changes nothing else.
pub proof fn lemma_value_of_text(s: SystemView, src: Seq<char>, ar: Arithmetic)
    ensures
        ({
            let (r, seed) = semantics::evaluation(
                src,
                crate::builtins::lookups(s.vars, s.arrays, s.fns, ar),
                ar,
                s.seed,
            );
            &&& s.valued(src, ar).1 == (SystemView { seed, ..s })
            &&& s.number(src, ar).1 == (SystemView { seed, ..s })
            &&& r matches Ok(v) ==> s.valued(src, ar).0 == Some(v)
            &&& r is Err ==> s.valued(src, ar).0 is None
            &&& r matches Ok(ValueView::Num(n)) ==> s.number(src, ar).0 == Some(n)
            &&& !(r matches Ok(ValueView::Num(_))) ==> s.number(src, ar).0 is None
        }),
{
    reveal(SystemView::valued);
}

/// A loop whose step, end or variable is not a number goes on for ever.
pub proof fn lemma_next_not_a_number(s: SystemView, args: Seq<char>, i: int, ar: Arithmetic)
    requires
        s.next_loop(args) == Some(i),
        0 <= i < s.loops.len(),
        s.vars.contains_key(s.loops[i].var),
        s.vars[s.loops[i].var] is Num,
        ({
            let n = (ar.operate)(Operation::Add, s.vars[s.loops[i].var]->Num_0, s.loops[i].step);
            s.loops[i].step.is_nan() || s.loops[i].end.is_nan() || n.is_nan()
        }),
    ensures
        ({
            let l = s.loops[i];
            let n = (ar.operate)(Operation::Add, s.vars[l.var]->Num_0, l.step);
            s.command("NEXT"@, args, ar) == (
                SystemView { vars: s.vars.insert(l.var, ValueView::Num(n)), ..s },
                StepResult::After(l.line),
            )
        }),
{
    lemma_dispatch(s, args, Seq::empty(), ar);
    reveal(SystemView::next);
}

/// `NEXT` of a loop whose variable is gone or holds a string makes no sense.
pub proof fn lemma_next_without_variable(s: SystemView, args: Seq<char>, i: int, ar: Arithmetic)
    requires
        s.next_loop(args) == Some(i),
        0 <= i < s.loops.len(),
        !s.vars.contains_key(s.loops[i].var) || s.vars[s.loops[i].var] is Str,
    ensures
        s.command("NEXT"@, args, ar) == (s, StepResult::Error(Fault::Nonsense)),
{
    lemma_dispatch(s, args, Seq::empty(), ar);
    reveal(SystemView::next);
}

/// `LET` without an assignment sign makes no sense, nor does `LET` of an element
/// whose bracket is not closed or whose name is none. Nothing changes.
pub proof fn lemma_let_refused(
    s: SystemView,
    args: Seq<char>,
    before: Seq<char>,
    inside: Seq<char>,
    rhs: Seq<char>,
    ar: Arithmetic,
)
    requires
        syntax::first_top_level(args, '=', 0) is None,
        !inside.contains(')') || !syntax::valid_name(syntax::normalised(text::trim(before))),
    ensures
        s.command("LET"@, args, ar) == (s, StepResult::Error(Fault::Nonsense)),
        s.set_element(before, inside, rhs, ar) == (s, StepResult::Error(Fault::Nonsense)),
{
    lemma_dispatch(s, args, Seq::empty(), ar);
    reveal(SystemView::assign);
    text_laws::lemma_occurrences(inside, ')');
}

/// `DIM` without brackets makes no sense, nor does `DIM` of a string.
pub proof fn lemma_dim_refused(
    s: SystemView,
    args: Seq<char>,
    before: Seq<char>,
    inside: Seq<char>,
    ar: Arithmetic,
)
    requires
        !text::trim(args).contains('('),
        !before.contains('('),
        text::trim(before + seq!['('] + inside) == before + seq!['('] + inside,
        ({
            let name = syntax::normalised(text::trim(before));
            !inside.contains(')') || !syntax::valid_name(name) || name.last() == '$'
        }),
    ensures
        s.command("DIM"@, args, ar) == (s, StepResult::Error(Fault::Nonsense)),
        s.command("DIM"@, before + seq!['('] + inside, ar) == (
            s,
            StepResult::Error(Fault::Nonsense),
        ),
{
    lemma_dispatch(s, args, Seq::empty(), ar);
    lemma_dispatch(s, before + seq!['('] + inside, Seq::empty(), ar);
    reveal(SystemView::dim);
    text_laws::lemma_parted(text::trim(args), '(', inside);
    text_laws::lemma_parted(before, '(', inside);
    text_laws::lemma_occurrences(inside, ')');
}

/// What `DEF` takes: `FN` in either case, a blank, a name, a parameter in
/// brackets, `=` and a text. Anything else makes no sense and changes nothing.
#[verifier::rlimit(60)]
pub proof fn lemma_def_only(s: SystemView, args: Seq<char>, ar: Arithmetic)
    ensures
        machine::definition(args) is None ==> s.command("DEF"@, args, ar) == (
            s,
            StepResult::Error(Fault::Nonsense),
        ),
        machine::definition(args) matches Some((name, f)) ==> {
            let t = text::trim_start(args);
            &&& s.command("DEF"@, args, ar) == (
                SystemView { fns: s.fns.insert(name, f), ..s },
                StepResult::Done,
            )
            &&& t.len() > 2 && text::upper(t[0]) == 'F' && text::upper(t[1]) == 'N'
                && text::is_blank(t[2])
            &&& name.len() > 0
            &&& syntax::valid_name(f.param)
            &&& f.body.len() > 0
            &&& !text::is_space(f.body[0]) && !text::is_space(f.body.last())
            &&& t.contains('(') && t.contains(')') && t.contains('=')
        },
{
    lemma_dispatch(s, args, Seq::empty(), ar);
    reveal(SystemView::def);
    reveal_strlit("FN");
    if let Some((name, f)) = machine::definition(args) {
        let t = text::trim_start(args);
        let u = text::uppercase(t);
        assert(u.take(2)[0] == 'F' && u.take(2)[1] == 'N');
        let rest = t.skip(2);
        let named = text::trim_start(rest);
        let n = text::leading(named, Class::Name) as int;
        let tail = named.skip(n);
        let bracket = text::trim_start(tail);
        let inside = bracket.skip(1);
        text::lemma_leading_bound(rest, Class::Space);
        text::lemma_leading_bound(named, Class::Name);
        text::lemma_leading_bound(tail, Class::Space);
        let a = 2 + text::leading(rest, Class::Space) + n + text::leading(tail, Class::Space);
        assert(bracket == t.skip(a));
        assert(t[a] == bracket[0]);
        let close = text::index_of(inside, ')')->0;
        text::lemma_index_of(inside, ')');
        assert(t[a + 1 + close] == inside[close]);
        let behind = inside.skip(close + 1);
        text::lemma_leading_bound(behind, Class::Space);
        let b = a + 2 + close + text::leading(behind, Class::Space);
        let sign = text::trim_start(behind);
        assert(sign == t.skip(b));
        assert(t[b] == sign[0]);
        text_laws::lemma_trim(sign.skip(1));
    }
}

} // verus!
