//! What holds of the machine across statements, keys and frames.

use vstd::prelude::*;

use crate::builtins;
use crate::calculator::{Arithmetic, Operation};
use crate::display;
use crate::display::{CHAR_W, INPUT_ROW};
use crate::fp_format;
use crate::grammar;
use crate::grammar::Tree;
use crate::machine;
use crate::machine::{
    ColourKind, Fault, Key, LoopView, Outcome, PendingView, StepResult, SystemView, INPUT_LIMIT,
};
use crate::number;
use crate::number::Number;
use crate::program;
use crate::reading;
use crate::syntax;
use crate::table::Names;
use crate::text;
use crate::text::Class;
use crate::value;
use crate::value::ValueView;

verus! {

/// Evaluating an expression changes nothing but the state of the random
/// numbers.
pub proof fn lemma_evaluation_changes_nothing(s: SystemView, src: Seq<char>, ar: Arithmetic)
    ensures
        s.valued(src, ar).1 == (SystemView { seed: s.valued(src, ar).1.seed, ..s }),
        s.number(src, ar).1 == (SystemView { seed: s.number(src, ar).1.seed, ..s }),
{
    reveal(SystemView::valued);
}

/// `NEW` leaves no program, variable, array, function, loop or call, and
/// changes nothing else but that a line that has been begun goes no further.
pub proof fn lemma_new(s: SystemView, args: Seq<char>, ar: Arithmetic)
    ensures
        s.command("NEW"@, args, ar) == (
            SystemView {
                listing: Map::empty(),
                vars: Map::empty(),
                arrays: Map::empty(),
                fns: Map::empty(),
                loops: Seq::empty(),
                returns: Seq::empty(),
                pending: None,
                rest: None,
                ..s
            },
            StepResult::Done,
        ),
{
    reveal(SystemView::command);
    reveal_strlit("NEW");
    reveal_strlit("PRINT");
    reveal_strlit("LET");
    reveal_strlit("GOTO");
    reveal_strlit("STOP");
    assert("LET"@[0] != "NEW"@[0]);
}

/// `RETURN` undoes `GOSUB`: it goes on after the line of the call, that is at
/// the first line from the next number on, with the same calls open as before.
/// Without a call it is an error, and there still is none.
pub proof fn lemma_return_undoes_gosub(s: SystemView, args: Seq<char>, t: SystemView, ar: Arithmetic)
    ensures
        s.gosub(args, ar).1 is Goto && t.returns == s.gosub(args, ar).0.returns ==> t.go_back() == (
            SystemView { returns: s.returns, ..t },
            StepResult::After(s.here()),
        ),
        s.here() < u16::MAX ==> forall|line: u16| #[trigger]
            t.concluded(StepResult::After(s.here()), line) == t.concluded(
                StepResult::Goto((s.here() + 1) as u16),
                line,
            ),
        t.returns.len() == 0 ==> t.go_back() == (
            t,
            StepResult::Error(Fault::ReturnWithoutGosub),
        ),
{
    reveal(SystemView::concluded);
    reveal(SystemView::gosub);
    reveal(SystemView::go_back);
    reveal(SystemView::valued);
    assert(s.returns.push(s.here()).drop_last() == s.returns);
}

/// A failed `GOSUB` opens no call, and `RETURN` without a call changes
/// nothing.
pub proof fn lemma_failed_calls(s: SystemView, args: Seq<char>, ar: Arithmetic)
    ensures
        s.gosub(args, ar).1 is Error ==> s.gosub(args, ar).0.returns == s.returns,
        s.returns.len() == 0 ==> s.go_back() == s.failed(Fault::ReturnWithoutGosub),
{
    reveal(SystemView::gosub);
    reveal(SystemView::go_back);
    reveal(SystemView::valued);
}

/// `FOR` sets its variable to the start and notes the loop with the line that
/// it stands in.
pub proof fn lemma_for(s: SystemView, args: Seq<char>, ar: Arithmetic)
    requires
        s.for_to(args, ar).1 == StepResult::Done,
    ensures
        ({
            let t = s.for_to(args, ar).0;
            let l = t.loops.last();
            &&& t.loops == s.loops.push(l)
            &&& l.line == s.here()
            &&& syntax::valid_name(l.var) && !value::names_string(l.var)
            &&& !l.step.same_value(Number::truth(false))
            &&& t.vars.contains_key(l.var)
            &&& t.vars[l.var] is Num
            &&& t.vars == s.vars.insert(l.var, t.vars[l.var])
        }),
{
    reveal(SystemView::for_to);
    reveal(SystemView::valued);
}

/// `NEXT` steps the variable of its loop. The loop ends, with all loops that
/// were begun inside it, once the variable has passed the end in the
/// direction of the step; otherwise the program goes on after the `FOR`.
pub proof fn lemma_next(s: SystemView, args: Seq<char>, i: int, ar: Arithmetic)
    requires
        s.next_loop(args) == Some(i),
        0 <= i < s.loops.len(),
        s.vars.contains_key(s.loops[i].var),
        s.vars[s.loops[i].var] is Num,
    ensures
        ({
            let l = s.loops[i];
            let n = (ar.operate)(Operation::Add, s.vars[l.var]->Num_0, l.step);
            let (t, r) = s.next(args, ar);
            &&& t.vars == s.vars.insert(l.var, ValueView::Num(n))
            &&& machine::passed(l, n) ==> r == StepResult::Done && t.loops == s.loops.take(i)
            &&& !machine::passed(l, n) ==> r == StepResult::After(l.line) && t.loops == s.loops
        }),
{
    reveal(SystemView::next);
}

/// `NEXT` with a name takes the latest loop with this variable; without one
/// the latest loop.
pub proof fn lemma_next_loop(s: SystemView, args: Seq<char>)
    ensures
        match s.next_loop(args) {
            Some(i) => {
                &&& 0 <= i < s.loops.len()
                &&& syntax::normalised(text::trim(args)).len() == 0 ==> i == s.loops.len() - 1
                &&& syntax::normalised(text::trim(args)).len() > 0 ==> s.loops[i].var
                    == syntax::normalised(text::trim(args)) && forall|j: int|
                    i < j < s.loops.len() ==> #[trigger] s.loops[j].var != s.loops[i].var
            },
            None => s.loops.len() == 0 || forall|j: int|
                0 <= j < s.loops.len() ==> #[trigger] s.loops[j].var != syntax::normalised(
                    text::trim(args),
                ),
        },
{
    let var = syntax::normalised(text::trim(args));
    lemma_loop_index(s.loops, var);
}

/// `loop_index` finds the last loop with the variable.
proof fn lemma_loop_index(loops: Seq<LoopView>, var: Seq<char>)
    ensures
        match machine::loop_index(loops, var) {
            Some(i) => 0 <= i < loops.len() && loops[i].var == var && forall|j: int|
                i < j < loops.len() ==> #[trigger] loops[j].var != var,
            None => forall|j: int| 0 <= j < loops.len() ==> #[trigger] loops[j].var != var,
        },
    decreases loops.len(),
{
    if loops.len() > 0 && loops.last().var != var {
        let rest = loops.drop_last();
        lemma_loop_index(rest, var);
        assert forall|j: int| 0 <= j < loops.len() - 1 implies loops[j] == rest[j] by {}
        match machine::loop_index(rest, var) {
            Some(i) => {
                assert forall|j: int| i < j < loops.len() implies #[trigger] loops[j].var != var by {
                    if j < rest.len() {
                        assert(rest[j].var != var);
                    }
                }
            },
            None => {
                assert forall|j: int| 0 <= j < loops.len() implies #[trigger] loops[j].var != var by {
                    if j < rest.len() {
                        assert(rest[j].var != var);
                    }
                }
            },
        }
    }
}

/// Where a program goes on: after a jump at the first line from the target
/// on, after `NEXT` and `RETURN` at the first line behind the one they name.
/// Where there is no such line it ends well.
pub proof fn lemma_where_next(s: SystemView, n: u16, line: u16)
    ensures
        ({
            let t = s.concluded(StepResult::Goto(n), line);
            match t.pc {
                Some(k) => n <= k && s.listing.contains_key(k) && forall|j: u16| #[trigger]
                    s.listing.contains_key(j) && n <= j ==> k <= j,
                None => t.status == machine::report(0, "OK"@, line as nat, 1) && forall|j: u16|
                    #[trigger] s.listing.contains_key(j) ==> j < n,
            }
        }),
        ({
            let t = s.concluded(StepResult::After(n), line);
            match t.pc {
                Some(k) => n < k && s.listing.contains_key(k) && forall|j: u16| #[trigger]
                    s.listing.contains_key(j) && n < j ==> k <= j,
                None => t.status == machine::report(0, "OK"@, line as nat, 1) && forall|j: u16|
                    #[trigger] s.listing.contains_key(j) ==> j <= n,
            }
        }),
{
    reveal(SystemView::concluded);
    program::lemma_next_line(s.listing, n as int);
    program::lemma_next_line(s.listing, n + 1);
}

/// A line that ends well is followed by the first line after it.
pub proof fn lemma_falls_through(s: SystemView, line: u16)
    ensures
        s.concluded(StepResult::Done, line) == s.concluded(StepResult::After(line), line),
{
    reveal(SystemView::concluded);
}

/// BREAK stops a running program at the next frame, before another statement
/// runs, be it of the same line:
/// with the report, without its tones, and with the variables as they were.
pub proof fn lemma_break(s: SystemView, line: u16, ar: Arithmetic)
    requires
        s.pc == Some(line),
        s.break_requested,
    ensures
        s.frame(ar) == s.broken_off(line).redrawn(),
        s.frame(ar).pc is None,
        s.frame(ar).rest is None,
        s.frame(ar).status == machine::report(13, "BREAK into program"@, line as nat, 1),
        s.frame(ar).beeps == Seq::<(Number, Number)>::empty(),
        s.frame(ar).audio_cancel,
        !s.frame(ar).break_requested,
        s.frame(ar).vars == s.vars,
        s.frame(ar).listing == s.listing,
{
    reveal(SystemView::redrawn);
    let w = SystemView {
        wait: if s.wait > 0 {
            (s.wait - 1) as u32
        } else {
            0
        },
        ..s
    };
    assert(w.broken_off(line) == s.broken_off(line));
}

/// While a tone plays a program does not run: a frame only counts the tone
/// down and redraws the lower screen.
pub proof fn lemma_tone_blocks(s: SystemView, ar: Arithmetic)
    requires
        s.pc is Some,
        s.wait > 1,
        !s.break_requested,
    ensures
        s.frame(ar) == (SystemView { wait: (s.wait - 1) as u32, ..s }).redrawn(),
{
}

/// A tone holds up the next statement, be it of the same line: none runs as
/// long as there are frames to wait.
pub proof fn lemma_tone_holds_statements(s: SystemView, n: nat, ar: Arithmetic)
    requires
        s.wait > 0,
        !s.break_requested,
    ensures
        s.statements_run(n, ar) == s,
{
}

/// A program runs one statement at a time: the first of a line, and where it
/// ends well what follows the colon is next, in the same line.
pub proof fn lemma_statement_by_statement(
    s: SystemView,
    line: u16,
    a: Seq<char>,
    b: Seq<char>,
    ar: Arithmetic,
)
    requires
        s.ahead(line) == a + seq![':'] + b,
        syntax::first_top_level(a, ':', 0) is None,
        syntax::top_level(a, a.len() as int),
        ({
            let head = text::uppercase(syntax::at_blank(a + seq![':'] + b).0);
            head != "IF"@ && head != "DEF"@
        }),
        text::trim_start(b).len() > 0,
    ensures
        ({
            let begun = SystemView { last_line: line, line: Some(line), rest: None, ..s };
            let run = s.statement_run(line, ar);
            match begun.statement(a, ar) {
                (t, Outcome::Ended(StepResult::Done)) => {
                    &&& run == (SystemView { pc: Some(line), rest: run.rest, ..t })
                    &&& run.ahead(line) == text::trim_start(b)
                },
                (t, Outcome::Ended(r)) => run == t.concluded(r, line),
                (t, Outcome::Then(then)) => run.ahead(line) == then,
            }
        }),
{
    reveal(SystemView::statement_run);
    syntax::lemma_split_at_colon(a, b);
}

/// A frame without a running program changes nothing but the lower screen,
/// the count of a tone and a BREAK that nothing was there to heed.
pub proof fn lemma_idle_frame(s: SystemView, ar: Arithmetic)
    requires
        s.pc is None,
    ensures
        s.frame(ar) == (SystemView {
            display: s.frame(ar).display,
            wait: s.frame(ar).wait,
            break_requested: false,
            ..s
        }),
{
    reveal(SystemView::redrawn);
}

/// Redrawing the lower screen changes no pixel of the print area.
pub proof fn lemma_redraw_keeps_print_area(s: SystemView, k: int)
    requires
        s.wf(),
        0 <= k < 6144,
        display::row_of(k) != INPUT_ROW,
    ensures
        s.redrawn().display.bits[k] == s.display.bits[k],
        s.redrawn().display.col == s.display.col,
        s.redrawn().display.row == s.display.row,
        s.redrawn() == (SystemView { display: s.redrawn().display, ..s }),
{
    reveal(SystemView::redrawn);
    let prompt = if s.pending is Some {
        "?"@
    } else {
        ""@
    };
    let typed = machine::visible(prompt + s.input);
    s.display.lemma_input_line_keeps(""@, CHAR_W as int, typed, typed.len() as int);
    s.display.lemma_input_line_keeps(s.status, CHAR_W as int, typed, typed.len() as int);
    s.display.lemma_input_line_keeps(typed, typed.len() as int, ""@, 0);
}

/// Backspace takes back the last typed character.
pub proof fn lemma_backspace_undoes(s: SystemView, b: u8, ar: Arithmetic)
    requires
        32 <= b <= 126,
        s.input.len() < INPUT_LIMIT,
    ensures
        s.pressed(Key::Char(b), ar).input == s.input.push(b as char),
        s.pressed(Key::Char(b), ar).pressed(Key::Backspace, ar).input == s.input,
{
    reveal(SystemView::redrawn);
    assert(s.input.push(b as char).drop_last() == s.input);
}

/// A character that cannot be typed is ignored, and so is one too many.
pub proof fn lemma_ignored_keys(s: SystemView, b: u8, ar: Arithmetic)
    ensures
        !(32 <= b <= 126) ==> s.pressed(Key::Char(b), ar) == s.redrawn(),
        s.input.len() >= INPUT_LIMIT ==> s.pressed(Key::Char(b), ar).input == s.input,
{
    reveal(SystemView::redrawn);
}

/// BREAK from the keyboard is only noted; the next frame heeds it.
pub proof fn lemma_break_key(s: SystemView, ar: Arithmetic)
    ensures
        s.pressed(Key::Break, ar) == (SystemView { break_requested: true, ..s }).redrawn(),
{
}

/// Statements with a colon between them are executed one after the other, the
/// second only where the first ends well.
pub proof fn lemma_colon_sequences(s: SystemView, a: Seq<char>, b: Seq<char>, ar: Arithmetic)
    requires
        syntax::first_top_level(a, ':', 0) is None,
        syntax::top_level(a, a.len() as int),
        ({
            let head = text::uppercase(syntax::at_blank(a + seq![':'] + b).0);
            head != "IF"@ && head != "DEF"@
        }),
    ensures
        s.statements(a + seq![':'] + b, ar) == (match s.statement(a, ar) {
            (t, Outcome::Ended(StepResult::Done)) => t.statements(text::trim_start(b), ar),
            (t, Outcome::Ended(r)) => (t, r),
            (t, Outcome::Then(then)) => t.statements(then, ar),
        }),
{
    syntax::lemma_split_at_colon(a, b);
    if let (t, Outcome::Ended(StepResult::Done)) = s.statement(a, ar) {
        if text::trim_start(b).len() == 0 {
            assert(t.statements(text::trim_start(b), ar) == t.done());
        }
    }
}

/// `IF` goes on with the text behind `THEN` where the condition is not zero
/// and passes it over where it is.
pub proof fn lemma_if(s: SystemView, args: Seq<char>, ar: Arithmetic)
    requires
        s.condition(args, ar).0 is Some,
    ensures
        ({
            let (n, rest) = s.condition(args, ar).0->0;
            let t = s.condition(args, ar).1;
            &&& t == (SystemView { seed: t.seed, ..s })
            &&& n.same_value(Number::truth(false)) ==> s.conditional(args, ar) == (
                t,
                Outcome::Ended(StepResult::Done),
            )
            &&& !n.same_value(Number::truth(false)) && text::trim(rest).len() > 0
                ==> s.conditional(args, ar) == (t, Outcome::Then(text::trim(rest)))
        }),
{
    reveal(SystemView::condition);
    reveal(SystemView::conditional);
}

/// `LET` gives one variable a value of its type and changes nothing else but
/// the random numbers; where the types differ it changes no variable.
pub proof fn lemma_let(s: SystemView, lhs: Seq<char>, rhs: Seq<char>, ar: Arithmetic)
    ensures
        ({
            let name = syntax::normalised(lhs);
            let (t, r) = s.set_variable(lhs, rhs, ar);
            &&& t == (SystemView { vars: t.vars, seed: t.seed, ..s })
            &&& r == StepResult::Done || r == StepResult::Error(Fault::Nonsense)
            &&& r == StepResult::Done ==> t.vars == s.vars.insert(name, t.vars[name])
                && (t.vars[name] is Str) == value::names_string(name) && s.valued(rhs, ar).0
                == Some(t.vars[name])
            &&& r != StepResult::Done ==> t.vars == s.vars
            &&& syntax::valid_name(name) && (s.valued(rhs, ar).0 matches Some(v) && (v is Str)
                == value::names_string(name)) ==> r == StepResult::Done
        }),
{
    lemma_evaluation_changes_nothing(s, rhs, ar);
}

/// What is stored in an element is read from it, and from no other.
pub proof fn lemma_element_read_back(
    arrays: Names<Seq<Number>>,
    name: Seq<char>,
    i: int,
    v: Number,
    other: Seq<char>,
    j: Number,
)
    requires
        arrays.contains_key(name),
        1 <= i <= arrays[name].len(),
    ensures
        ({
            let after = arrays.insert(name, arrays[name].update(i - 1, v));
            let at = j.saturated(i64::MIN as int, i64::MAX as int);
            &&& other == name && at == i ==> builtins::element(after, other, j) == Some(
                ValueView::Num(v),
            )
            &&& other != name || at != i ==> builtins::element(after, other, j)
                == builtins::element(arrays, other, j)
        }),
{
}

/// The elements that `DIM` makes are zero, and there are no others.
pub proof fn lemma_dim_zeros(arrays: Names<Seq<Number>>, name: Seq<char>, n: nat, j: Number)
    ensures
        ({
            let after = arrays.insert(name, Seq::new(n, |i: int| Number { bits: 0 }));
            let at = j.saturated(i64::MIN as int, i64::MAX as int);
            builtins::element(after, name, j) == (if 1 <= at <= n {
                Some(ValueView::Num(Number { bits: 0 }))
            } else {
                None
            })
        }),
{
}

/// A function is there to be called once `DEF FN` has made it, and no
/// variable has changed.
pub proof fn lemma_def_defines(s: SystemView, args: Seq<char>, ar: Arithmetic)
    requires
        machine::definition(args) is Some,
    ensures
        ({
            let (name, f) = machine::definition(args)->0;
            let t = s.def(args).0;
            &&& s.def(args).1 == StepResult::Done
            &&& (t.lookups(ar).user_fn)(name) == Some(f)
            &&& t.vars == s.vars
        }),
{
    reveal(SystemView::def);
}

/// `RUN` forgets variables, arrays, loops and calls, keeps the program and its
/// functions, and starts at the first line from the one it names on.
pub proof fn lemma_run(s: SystemView, args: Seq<char>, ar: Arithmetic)
    ensures
        ({
            let (t, r) = s.run(args, ar);
            &&& t.vars == Map::<Seq<char>, ValueView>::empty()
            &&& t.arrays == Map::<Seq<char>, Seq<Number>>::empty()
            &&& t.loops.len() == 0 && t.returns.len() == 0 && t.pending is None
            &&& t.listing == s.listing && t.fns == s.fns
            &&& r == StepResult::Done || r == StepResult::Error(Fault::Nonsense)
            &&& r == StepResult::Error(Fault::Nonsense) ==> t.pc == s.pc
            &&& text::trim(args).len() == 0 ==> r == StepResult::Done && t.pc
                == program::next_line(s.listing, 0)
        }),
{
    reveal(SystemView::run);
    lemma_evaluation_changes_nothing(s.fresh(), args, ar);
}

/// How a program runs does not depend on how its statements are shared out
/// among frames.
pub proof fn lemma_statements_run_split(s: SystemView, m: nat, n: nat, ar: Arithmetic)
    ensures
        s.statements_run(m + n, ar) == s.statements_run(m, ar).statements_run(n, ar),
    decreases m,
{
    match s.pc {
        Some(line) if m > 0 && !s.break_requested && s.wait == 0 => {
            let t = s.statement_run(line, ar);
            lemma_statements_run_split(t, (m - 1) as nat, n, ar);
            assert((m + n - 1) as nat == (m - 1) as nat + n);
        },
        _ => {},
    }
}

/// `INPUT` stops the program until a line is typed; what follows it in its line
/// is passed over.
pub proof fn lemma_input_suspends(s: SystemView, args: Seq<char>, line: u16)
    requires
        s.line == Some(line),
        syntax::valid_name(syntax::normalised(text::trim(args))),
    ensures
        ({
            let (t, r) = s.ask(args);
            let p = PendingView {
                var: syntax::normalised(text::trim(args)),
                line,
            };
            &&& r == StepResult::AwaitInput
            &&& t == (SystemView { pending: Some(p), ..s })
            &&& t.concluded(r, line) == (SystemView {
                pc: None,
                rest: None,
                line: None,
                ..t
            })
        }),
{
    reveal(SystemView::ask);
    reveal(SystemView::concluded);
}

/// The typed line goes to the variable of the `INPUT`, as it is to a string
/// and evaluated to a number, and the program goes on at the first line after
/// the `INPUT`.
pub proof fn lemma_input_resumes(s: SystemView, p: PendingView, ar: Arithmetic)
    requires
        s.pending == Some(p),
    ensures
        ({
            let t = s.entered(ar);
            let asked = SystemView { input: Seq::empty(), pending: None, ..s.attended() };
            &&& t.pending is None
            &&& t.input.len() == 0
            &&& value::names_string(p.var) ==> t.vars == s.vars.insert(
                p.var,
                ValueView::Str(vstd::utf8::encode_utf8(s.input)),
            ) && t.pc == program::next_line(s.listing, p.line + 1)
            &&& !value::names_string(p.var) ==> match asked.number(s.input, ar).0 {
                Some(n) => t.vars == s.vars.insert(p.var, ValueView::Num(n)) && t.pc
                    == program::next_line(s.listing, p.line + 1),
                None => t.vars == s.vars && t.pc == s.pc,
            }
        }),
{
    reveal(SystemView::answered);
    let asked = SystemView { input: Seq::empty(), pending: None, ..s.attended() };
    lemma_evaluation_changes_nothing(asked, s.input, ar);
}

/// A line as `LIST` prints it is stored as it was.
pub proof fn lemma_listed_line_stores(s: SystemView, n: u16, body: Seq<char>)
    requires
        text::trim(body).len() > 0,
        text::trim_start(body) == body,
    ensures
        s.stored(machine::numbered(n, body)).listing == s.listing.insert(n, body),
{
    reveal(SystemView::stored);
    reveal_strlit(" ");
    let digits = text::decimal(n as nat);
    let line = machine::numbered(n, body);
    let k = digits.len() as int;
    text::lemma_decimal_roundtrip(n as nat);
    text::lemma_leading_run(digits, Class::Digit);
    assert forall|i: int| 0 <= i < k implies text::in_class(Class::Digit, #[trigger] line[i]) by {
        assert(line[i] == digits[i]);
    }
    assert(line[k] == ' ');
    text::lemma_leading_is(line, Class::Digit, k as nat);
    assert(line.take(k) == digits);
    let rest = line.skip(k);
    assert(rest[0] == ' ');
    assert(rest.drop_first() == body);
    text::lemma_trim_len(body);
    text::lemma_leading_bound(body, Class::Space);
    assert(text::leading(body, Class::Space) == 0);
    assert(text::leading(rest, Class::Space) == 1 + text::leading(body, Class::Space));
    assert(text::trim_start(rest) == body);
}

/// A line number alone deletes the line.
pub proof fn lemma_number_deletes(s: SystemView, n: u16)
    ensures
        s.stored(text::decimal(n as nat)).listing == s.listing.remove(n),
{
    reveal(SystemView::stored);
    let digits = text::decimal(n as nat);
    text::lemma_decimal_roundtrip(n as nat);
    assert(digits.take(digits.len() as int) == digits);
    let rest = digits.skip(digits.len() as int);
    assert(rest.len() == 0);
    text::lemma_trim_len(rest);
}

/// The colours can be read back from an attribute byte.
pub proof fn lemma_attribute_decodes(ink: u8, paper: u8, bright: bool, flash: bool)
    requires
        ink <= 7,
        paper <= 7,
    ensures
        ({
            let a = machine::attribute(ink, paper, bright, flash);
            &&& a % 8 == ink
            &&& (a / 8) % 8 == paper
            &&& ((a / 64) % 2 == 1) == bright
            &&& (a / 128 == 1) == flash
        }),
{
}

/// A whole number in the range of fixed notation is printed as its numeral,
/// with a `-` where it is negative, and reading that gives the literal of the
/// same digits.
pub proof fn lemma_whole_number_printed(x: Number, ar: Arithmetic)
    requires
        !x.is_nan(),
        !x.is_infinite(),
        x.magnitude() > 0,
        !fp_format::out_of_range(x.absolute()),
        x.size() % number::unit() == 0,
    ensures
        ({
            let digits = text::decimal((x.size() / number::unit()) as nat);
            &&& text::decimal_value(digits) == x.size() / number::unit()
            &&& grammar::parse(fp_format::formatted(x, ar)) == (if x.negative() {
                Tree::Negate(Box::new(Tree::Number(digits)))
            } else {
                Tree::Number(digits)
            })
        }),
{
    let n = (x.size() / number::unit()) as nat;
    vstd::arithmetic::power2::lemma_pow2_pos(1074);
    text::lemma_decimal_roundtrip(n);
    reading::lemma_numeral_reads_back(n);
    reveal_strlit("-");
    reveal_strlit("");
    assert("-"@ == seq!['-']);
    assert(""@ + text::decimal(n) == text::decimal(n));
}

/// Whether an item of `PRINT` is neither `AT` nor `TAB`.
pub open spec fn value_item(item: Seq<char>) -> bool {
    let upper = text::uppercase(item);
    &&& item.len() > 0
    &&& !(text::starts_with(upper, "AT"@) && machine::set_off(item, 2))
    &&& !(text::starts_with(upper, "TAB"@) && machine::set_off(item, 3))
}

/// `PRINT` of one expression prints its value and ends the line, unless a
/// comma ends the statement.
pub proof fn lemma_print_one(s: SystemView, args: Seq<char>, ar: Arithmetic)
    requires
        syntax::first_semicolon(args, 0) is None,
        text::trim(args).len() > 0,
        value_item(text::trim(args)),
        s.valued(text::trim(args), ar).0 is Some,
        text::trim_end(args).last() != ';',
    ensures
        ({
            let (v, t) = s.valued(text::trim(args), ar);
            let shown = t.shown(machine::value_text(v->0, ar));
            s.print(args, ar) == (if text::trim_end(args).last() == ',' {
                shown.done()
            } else {
                shown.shown("\n"@).done()
            })
        }),
{
    reveal(SystemView::print);
    reveal_with_fuel(SystemView::print_items, 2);
    assert(syntax::items(args) == seq![args]);
    assert(syntax::items(args)[0] == args);
}

/// `PRINT` of two expressions with a semicolon between them prints both values,
/// one behind the other, and ends the line.
pub proof fn lemma_print_two(s: SystemView, a: Seq<char>, b: Seq<char>, ar: Arithmetic)
    requires
        syntax::first_semicolon(a, 0) is None,
        !syntax::in_string(a, a.len() as int),
        syntax::first_semicolon(b, 0) is None,
        value_item(text::trim(a)),
        value_item(text::trim(b)),
        ({
            let args = a + seq![';'] + b;
            &&& text::trim(args).len() > 0
            &&& text::trim_end(args).last() != ';'
            &&& text::trim_end(args).last() != ','
        }),
        s.valued(text::trim(a), ar).0 is Some,
        ({
            let (v, t) = s.valued(text::trim(a), ar);
            t.shown(machine::value_text(v->0, ar)).valued(text::trim(b), ar).0 is Some
        }),
    ensures
        ({
            let (v, t) = s.valued(text::trim(a), ar);
            let (w, u) = t.shown(machine::value_text(v->0, ar)).valued(text::trim(b), ar);
            s.print(a + seq![';'] + b, ar) == u.shown(machine::value_text(w->0, ar)).shown(
                "\n"@,
            ).done()
        }),
{
    reveal(SystemView::print);
    let args = a + seq![';'] + b;
    syntax::lemma_items_joined(a, b);
    assert(syntax::items(b) == seq![b]);
    let all = syntax::items(args);
    assert(all == seq![a, b]);
    let (v, t) = s.valued(text::trim(a), ar);
    let first = t.shown(machine::value_text(v->0, ar));
    let (w, u) = first.valued(text::trim(b), ar);
    let second = u.shown(machine::value_text(w->0, ar));
    assert(s.print_items(all, 0, false, ar) == first.print_items(all, 1, true, ar));
    assert(first.print_items(all, 1, true, ar) == second.print_items(all, 2, true, ar));
    assert(second.print_items(all, 2, true, ar) == (Ok::<bool, StepResult>(true), second));
}

/// `INK`, `PAPER`, `BRIGHT` and `FLASH` each change their own colour and no
/// other, and only to one that exists.
pub proof fn lemma_colour_changes_one(
    s: SystemView,
    args: Seq<char>,
    kind: ColourKind,
    ar: Arithmetic,
)
    ensures
        ({
            let (t, r) = s.colour(args, kind, ar);
            &&& r != StepResult::Done ==> t == (SystemView { seed: t.seed, ..s })
            &&& r == StepResult::Done && kind is Ink ==> t.ink <= 7 && t == (SystemView {
                ink: t.ink,
                seed: t.seed,
                ..s
            })
            &&& r == StepResult::Done && kind is Paper ==> t.paper <= 7 && t == (SystemView {
                paper: t.paper,
                seed: t.seed,
                ..s
            })
            &&& r == StepResult::Done && kind is Bright ==> t == (SystemView {
                bright: t.bright,
                seed: t.seed,
                ..s
            })
            &&& r == StepResult::Done && kind is Flash ==> t == (SystemView {
                flash: t.flash,
                seed: t.seed,
                ..s
            })
        }),
{
    reveal(SystemView::colour);
    lemma_evaluation_changes_nothing(s, args, ar);
}

/// `BEEP` queues a tone and makes the program wait for it.
pub proof fn lemma_beep_waits(s: SystemView, args: Seq<char>, ar: Arithmetic)
    ensures
        ({
            let (t, r) = s.beep(args, ar);
            &&& r == StepResult::Done ==> t.wait > 0 && t.beeps.len() == s.beeps.len() + 1
                && t.beeps.take(s.beeps.len() as int) == s.beeps
            &&& r != StepResult::Done ==> t.wait == s.wait && t.beeps == s.beeps
        }),
{
    reveal(SystemView::beep);
    if let Some((a, b)) = syntax::at_char(args, ',') {
        lemma_evaluation_changes_nothing(s, a, ar);
        lemma_evaluation_changes_nothing(s.number(a, ar).1, b, ar);
    }
}

/// The value that `LET` gave a variable is what its name evaluates to.
pub proof fn lemma_let_reads_back(s: SystemView, lhs: Seq<char>, rhs: Seq<char>, ar: Arithmetic)
    requires
        reading::free_name(syntax::normalised(lhs)),
        s.set_variable(lhs, rhs, ar).1 == StepResult::Done,
    ensures
        ({
            let name = syntax::normalised(lhs);
            s.set_variable(lhs, rhs, ar).0.valued(name, ar).0 == s.valued(rhs, ar).0
        }),
{
    let name = syntax::normalised(lhs);
    reading::lemma_written_reads_back(Tree::Variable(name));
    lemma_let(s, lhs, rhs, ar);
    reveal(SystemView::valued);
}

/// A string is printed as the text that it was written as.
pub proof fn lemma_string_printed(x: Seq<char>, ar: Arithmetic)
    ensures
        machine::value_text(ValueView::Str(vstd::utf8::encode_utf8(x)), ar) == x,
{
    vstd::utf8::encode_utf8_valid_utf8(x);
    vstd::utf8::encode_utf8_decode_utf8(x);
}

/// A negative number is printed like its absolute value, with a `-` before it.
pub proof fn lemma_negative_printed(x: Number, ar: Arithmetic)
    requires
        !x.negative(),
        !x.is_nan(),
        x.magnitude() > 0,
    ensures
        fp_format::formatted(x.negated(), ar) == seq!['-'] + fp_format::formatted(x, ar),
{
    reveal_strlit("-");
    reveal_strlit("");
    reveal_strlit("Inf");
    reveal_strlit("-Inf");
    let y = x.negated();
    assert(y.magnitude() == x.magnitude());
    assert(y.absolute() == x.absolute());
    assert("-"@ == seq!['-']);
    assert("-Inf"@ == seq!['-'] + "Inf"@);
    assert(""@ == Seq::<char>::empty());
    let n = (x.size() / number::unit()) as nat;
    assert(""@ + text::decimal(n) == text::decimal(n));
    let fixed = fp_format::fixed(x.absolute(), ar);
    assert(""@ + fixed == fixed);
    let scientific = fp_format::scientific(x.absolute(), ar);
    assert(""@ + scientific == scientific);
}

/// A finite number that is not negative is printed with a digit first, given
/// that the host's decimals of its rounded value begin with a digit.
pub proof fn lemma_digit_first(x: Number, ar: Arithmetic)
    requires
        !x.negative(),
        !x.is_nan(),
        !x.is_infinite(),
        fp_format::plain(x) || fp_format::digit_first(fp_format::decimals(x, ar)),
    ensures
        fp_format::digit_first(fp_format::formatted(x, ar)),
{
    reveal_strlit("");
    reveal_strlit("0");
    reveal_strlit("E");
    assert(x.absolute() == x);
    let n = (x.size() / number::unit()) as nat;
    text::lemma_decimal_roundtrip(n);
    text::lemma_leading_run(text::decimal(n), Class::Digit);
    assert(text::in_class(Class::Digit, text::decimal(n)[0]));
    assert(""@ + text::decimal(n) == text::decimal(n));
    let d = fp_format::decimals(x, ar);
    if fp_format::digit_first(d) {
        fp_format::lemma_trimmed_digit_first(d);
    }
    let fixed = fp_format::fixed(x, ar);
    assert(""@ + fixed == fixed);
    let scientific = fp_format::scientific(x, ar);
    assert(""@ + scientific == scientific);
    if fp_format::digit_first(d) && fp_format::out_of_range(x) {
        assert(scientific[0] == fp_format::trimmed(d)[0]);
    }
}

} // verus!
