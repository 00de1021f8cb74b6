//! What holds of a session: keys, frames, reports and the stored program.

use vstd::prelude::*;

use crate::calculator::Arithmetic;
use crate::display::DisplayView;
use crate::laws;
use crate::machine;
use crate::machine::{Fault, Key, Outcome, PendingView, StepResult, SystemView};
use crate::number::Number;
use crate::program;
use crate::text;
use crate::text::Class;
use crate::value;
use crate::value::ValueView;

verus! {

/// A report is its code, a blank, its message, a comma, a blank, the line, a
/// colon and the statement. Codes up to nine are digits, those above letters
/// from `A` on.
pub proof fn lemma_report(code: int, message: Seq<char>, line: nat, stmt: nat)
    requires
        0 <= code <= 21,
    ensures
        ({
            let r = machine::report(code, message, line, stmt);
            &&& r == seq![r[0]] + seq![' '] + message + seq![',', ' '] + text::decimal(line) + seq![
                ':',
            ] + text::decimal(stmt)
            &&& r.len() > 0
            &&& r[0] as u32 == (if code < 10 {
                48 + code
            } else {
                65 + (code - 10)
            })
        }),
{
    reveal(machine::report);
    reveal_strlit(" ");
    reveal_strlit(", ");
    reveal_strlit(":");
    assert(" "@ == seq![' ']);
    assert(", "@ == seq![',', ' ']);
    assert(":"@ == seq![':']);
    let r = machine::report(code, message, line, stmt);
    assert(r[0] == machine::code_char(code));
}

/// The messages of the faults.
pub proof fn lemma_messages()
    ensures
        machine::message(Fault::Nonsense) == "Nonsense in BASIC"@,
        machine::message(Fault::IntegerOutOfRange) == "Integer out of range"@,
        machine::message(Fault::SubscriptWrong) == "Subscript wrong"@,
        machine::message(Fault::NextWithoutFor) == "NEXT without FOR"@,
        machine::message(Fault::ReturnWithoutGosub) == "RETURN without GOSUB"@,
{
}

/// How a program is left: `STOP` and errors with their reports, `INPUT` without
/// one. Variables, arrays and the listing stay.
pub proof fn lemma_program_left(s: SystemView, f: Fault, line: u16)
    ensures
        ({
            let left = SystemView { pc: None, rest: None, line: None, ..s };
            &&& s.concluded(StepResult::Stop, line) == (SystemView {
                status: machine::report(9, "STOP statement"@, line as nat, 1),
                ..left
            })
            &&& s.concluded(StepResult::Error(f), line) == (SystemView {
                status: machine::report(1, machine::message(f), line as nat, 1),
                ..left
            })
            &&& s.concluded(StepResult::AwaitInput, line) == left
        }),
{
    reveal(SystemView::concluded);
}

/// A jump changes nothing but where the program goes on; a program that has no
/// line there is at its end, with a report.
pub proof fn lemma_program_goes_on(s: SystemView, n: u16, line: u16)
    ensures
        ({
            let t = s.concluded(StepResult::Goto(n), line);
            let u = s.concluded(StepResult::After(n), line);
            &&& t.pc is Some ==> t == (SystemView { pc: t.pc, rest: None, ..s })
            &&& u.pc is Some ==> u == (SystemView { pc: u.pc, rest: None, ..s })
            &&& t.pc is None ==> t == (SystemView {
                pc: None,
                rest: None,
                line: None,
                status: machine::report(0, "OK"@, line as nat, 1),
                ..s
            })
            &&& u.pc is None ==> u == (SystemView {
                pc: None,
                rest: None,
                line: None,
                status: machine::report(0, "OK"@, line as nat, 1),
                ..s
            })
        }),
{
    reveal(SystemView::concluded);
}

/// One statement of a program: what is left of the line, or the line from its
/// start, less its first statement. It knows which line it is in.
pub proof fn lemma_program_statement(s: SystemView, line: u16, ar: Arithmetic)
    ensures
        ({
            let ahead = match s.rest {
                Some(left) => left,
                None => if s.listing.contains_key(line) {
                    text::trim(s.listing[line])
                } else {
                    Seq::empty()
                },
            };
            let (this, next) = machine::first_statement(ahead);
            let left = text::trim_start(next);
            let begun = SystemView { last_line: line, line: Some(line), rest: None, ..s };
            let run = s.statement_run(line, ar);
            match begun.statement(this, ar) {
                (t, Outcome::Ended(StepResult::Done)) => if left.len() > 0 {
                    run == (SystemView { pc: Some(line), rest: Some(left), ..t })
                } else {
                    run == t.concluded(StepResult::After(line), line)
                },
                (t, Outcome::Ended(r)) => run == t.concluded(r, line),
                (t, Outcome::Then(then)) => run == (SystemView {
                    pc: Some(line),
                    rest: Some(then),
                    ..t
                }),
            }
        }),
{
    reveal(SystemView::statement_run);
    text::lemma_trim_len(Seq::<char>::empty());
    let begun = SystemView { last_line: line, line: Some(line), rest: None, ..s };
    assert(text::trim(Seq::<char>::empty()) == Seq::<char>::empty());
    if let (t, Outcome::Ended(StepResult::Done)) = begun.statement(
        machine::first_statement(s.ahead(line)).0,
        ar,
    ) {
        laws::lemma_falls_through(t, line);
    }
}

/// Running a number of statements is running one and then the others, as long as
/// the program runs and neither BREAK nor a tone holds it.
pub proof fn lemma_statements_counted(s: SystemView, line: u16, n: nat, ar: Arithmetic)
    ensures
        s.pc == Some(line) && !s.break_requested && s.wait == 0 ==> s.statements_run(n + 1, ar)
            == s.statement_run(line, ar).statements_run(n, ar),
        s.statements_run(0, ar) == s,
        s.pc is None ==> s.statements_run(n, ar) == s,
{
    assert((n + 1 - 1) as nat == n);
}

/// A frame takes one off the wait for a tone; a program that need not wait any
/// more runs five thousand statements, and then the lower screen is drawn.
pub proof fn lemma_frame(s: SystemView, ar: Arithmetic)
    ensures
        s.pc is Some && !s.break_requested && s.wait <= 1 ==> s.frame(ar) == (SystemView {
            wait: 0,
            ..s
        }).statements_run(5000, ar).redrawn(),
        s.pc is Some && !s.break_requested && s.wait > 1 ==> s.frame(ar) == (SystemView {
            wait: (s.wait - 1) as u32,
            ..s
        }).redrawn(),
        s.pc is None && s.wait > 0 ==> s.frame(ar) == (SystemView {
            wait: (s.wait - 1) as u32,
            break_requested: false,
            ..s
        }).redrawn(),
        s.pc is None && s.wait == 0 ==> s.frame(ar) == (SystemView {
            break_requested: false,
            ..s
        }).redrawn(),
{
}

/// A typed character is added to the line, up to 255 of them, Backspace takes the
/// last one away, and both clear the report. BREAK is only noted.
pub proof fn lemma_keys(s: SystemView, b: u8, ar: Arithmetic)
    ensures
        ({
            let attended = SystemView { typing: true, status: Seq::empty(), ..s };
            &&& 32 <= b <= 126 && s.input.len() < 255 ==> s.pressed(Key::Char(b), ar) == (
            SystemView { input: s.input.push(b as char), ..attended }).redrawn()
            &&& 32 <= b <= 126 && s.input.len() >= 255 ==> s.pressed(Key::Char(b), ar)
                == attended.redrawn()
            &&& !(32 <= b <= 126) ==> s.pressed(Key::Char(b), ar) == s.redrawn()
            &&& s.input.len() > 0 ==> s.pressed(Key::Backspace, ar) == (SystemView {
                input: s.input.take(s.input.len() - 1),
                ..attended
            }).redrawn()
            &&& s.input.len() == 0 ==> s.pressed(Key::Backspace, ar) == attended.redrawn()
            &&& s.pressed(Key::Break, ar) == (SystemView { break_requested: true, ..s }).redrawn()
        }),
{
    if s.input.len() > 0 {
        assert(s.input.drop_last() == s.input.take(s.input.len() - 1));
    }
}

/// Enter hands the typed line to the `INPUT` that waits for it, else it is
/// obeyed; either way a new line begins.
pub proof fn lemma_enter(s: SystemView, ar: Arithmetic)
    ensures
        ({
            let t = SystemView {
                typing: true,
                status: Seq::empty(),
                input: Seq::empty(),
                pending: None,
                ..s
            };
            &&& s.pending matches Some(p) ==> s.pressed(Key::Enter, ar) == t.answered(
                p,
                s.input,
                ar,
            ).redrawn()
            &&& s.pending is None ==> s.pressed(Key::Enter, ar) == t.obeyed(s.input, ar).redrawn()
        }),
{
}

/// The answer to `INPUT` goes to its variable, as its text to a string and by
/// its value to a number, and the program goes on after the line of the `INPUT`.
/// An answer without a value is refused with a message and the program is left.
pub proof fn lemma_answer(s: SystemView, p: PendingView, line: Seq<char>, ar: Arithmetic)
    ensures
        ({
            let t = s.answered(p, line, ar);
            let (n, u) = s.number(line, ar);
            let resumed = SystemView {
                pc: program::next_line(s.listing, p.line + 1),
                rest: None,
                ..s
            };
            &&& p.var.len() > 0 && p.var.last() == '$' ==> t == (SystemView {
                vars: s.vars.insert(p.var, ValueView::Str(vstd::utf8::encode_utf8(line))),
                ..resumed
            })
            &&& !(p.var.len() > 0 && p.var.last() == '$') && n is Some ==> t == (SystemView {
                vars: s.vars.insert(p.var, ValueView::Num(n->0)),
                seed: u.seed,
                ..resumed
            })
            &&& !(p.var.len() > 0 && p.var.last() == '$') && n is None ==> t == (SystemView {
                display: s.display.printed("Nonsense in BASIC"@ + seq!['\n']),
                seed: u.seed,
                ..s
            })
        }),
{
    reveal(SystemView::answered);
    laws::lemma_evaluation_changes_nothing(s, line, ar);
    lemma_line_printed(s.display, "Nonsense in BASIC"@);
}

/// A printed line is its text and a line feed.
proof fn lemma_line_printed(d: DisplayView, s: Seq<char>)
    ensures
        d.printed_line(s) == d.printed(s + seq!['\n']),
{
    d.lemma_printed_joined(s, seq!['\n']);
    let e = d.printed(s);
    assert(seq!['\n'].drop_last() == Seq::<char>::empty());
    assert(e.printed(Seq::empty()) == e);
    assert(e.printed(seq!['\n']) == e.newline());
}

/// A typed line with a number at its front is stored under it, without the white
/// space behind the number, and shown; a number above 65535 is refused.
pub proof fn lemma_stored(s: SystemView, digits: Seq<char>, body: Seq<char>)
    requires
        digits.len() > 0,
        forall|i: int| 0 <= i < digits.len() ==> text::is_digit(#[trigger] digits[i]),
        body.len() > 0,
        !text::is_digit(body[0]),
        text::trim(text::trim_start(body)).len() > 0,
    ensures
        ({
            let t = s.stored(digits + body);
            let n = text::decimal_value(digits);
            let kept = text::trim_start(body);
            &&& n <= 65535 ==> t == (SystemView {
                listing: s.listing.insert(n as u16, kept),
                display: s.display.printed(text::decimal(n) + seq![' '] + kept + seq!['\n']),
                ..s
            })
            &&& n > 65535 ==> t == (SystemView {
                display: s.display.printed("Nonsense in BASIC"@ + seq!['\n']),
                ..s
            })
        }),
{
    reveal(SystemView::stored);
    let line = digits + body;
    let k = digits.len();
    assert forall|i: int| 0 <= i < k implies text::in_class(Class::Digit, #[trigger] line[i]) by {
        assert(line[i] == digits[i]);
        assert(text::is_digit(digits[i]));
    }
    assert(line[k as int] == body[0]);
    text::lemma_leading_is(line, Class::Digit, k);
    assert(line.take(k as int) == digits);
    assert(line.skip(k as int) == body);
    let kept = text::trim_start(body);
    text::lemma_trim_len(kept);
    lemma_line_printed(s.display, "Nonsense in BASIC"@);
    reveal_strlit(" ");
    assert(" "@ == seq![' ']);
    let n = text::decimal_value(digits);
    if n <= 65535 {
        lemma_line_printed(s.display, machine::numbered(n as u16, kept));
        assert(machine::numbered(n as u16, kept) == text::decimal(n) + seq![' '] + kept);
    }
}

/// A typed line that begins with a digit is stored and leaves no report. Any
/// other is executed, and the report tells how it ended: `RUN` leaves none, and a
/// jump or an `INPUT` makes no sense outside a program.
pub proof fn lemma_obeyed(s: SystemView, line: Seq<char>, ar: Arithmetic)
    requires
        text::trim(line).len() > 0,
    ensures
        ({
            let t = text::trim(line);
            let u = s.obeyed(line, ar);
            &&& text::is_digit(t[0]) ==> u == (SystemView { status: Seq::empty(), ..s.stored(t) })
            &&& !text::is_digit(t[0]) ==> {
                let (v, r) = s.execute(t, ar);
                match r {
                    StepResult::Done => if v.pc is Some {
                        u == (SystemView { status: Seq::empty(), ..v })
                    } else {
                        u == (SystemView { status: machine::report(0, "OK"@, 0, 1), ..v })
                    },
                    StepResult::Stop => u == (SystemView {
                        status: machine::report(9, "STOP statement"@, 0, 1),
                        ..v
                    }),
                    StepResult::Error(f) => u == (SystemView {
                        status: machine::report(1, machine::message(f), 0, 1),
                        ..v
                    }),
                    _ => u == (SystemView {
                        pending: None,
                        status: machine::report(1, "Nonsense in BASIC"@, 0, 1),
                        ..v
                    }),
                }
            }
        }),
{
    reveal(SystemView::obeyed);
}

/// All statements of a typed line are executed, one after the other, up to the
/// first that does not end well; each begins with what the ones before it left.
pub proof fn lemma_executed(s: SystemView, rest: Seq<char>, ar: Arithmetic)
    requires
        rest.len() > 0,
    ensures
        ({
            let (this, next) = machine::first_statement(rest);
            let left = text::trim_start(next);
            match s.statement(this, ar) {
                (t, Outcome::Ended(StepResult::Done)) => s.statements(rest, ar) == t.statements(
                    left,
                    ar,
                ),
                (t, Outcome::Ended(r)) => s.statements(rest, ar) == (t, r),
                (t, Outcome::Then(then)) => s.statements(rest, ar) == t.statements(then, ar),
            }
        }),
        s.statements(Seq::empty(), ar) == (s, StepResult::Done),
        s.execute(rest, ar) == s.statements(text::trim(rest), ar),
{
    reveal(SystemView::execute);
    let (this, next) = machine::first_statement(rest);
    let left = text::trim_start(next);
    if let (t, Outcome::Ended(StepResult::Done)) = s.statement(this, ar) {
        if left.len() == 0 {
            assert(left == Seq::<char>::empty());
            assert(t.statements(left, ar) == (t, StepResult::Done));
        }
    }
}

/// The machine as it is switched on: nothing stored and nothing running, black on
/// white with a white border, and the copyright in the lower screen.
pub proof fn lemma_switched_on()
    ensures
        ({
            let s = SystemView::booted();
            &&& s.vars == Map::<Seq<char>, ValueView>::empty() && s.listing == Map::<
                u16,
                Seq<char>,
            >::empty()
            &&& s.arrays == Map::<Seq<char>, Seq<Number>>::empty() && s.loops.len() == 0
                && s.returns.len() == 0
            &&& s.fns.dom() == Set::<Seq<char>>::empty()
            &&& s.input.len() == 0 && s.pending is None && s.pc is None && s.rest is None
            &&& s.ink == 0 && s.paper == 7 && !s.bright && !s.flash && s.border == 7
            &&& s.pen_x == 0 && s.pen_y == 0 && s.wait == 0 && s.beeps.len() == 0
            &&& !s.break_requested && !s.audio_cancel
            &&& s.seed == 0x9e37_79b9_7f4a_7c15
            &&& s.status == "\u{a9} 1982 Sinclair Research Ltd"@
            &&& s.display == DisplayView::blank().input_line(s.status, 32)
        }),
{
    reveal(SystemView::redrawn);
    reveal_strlit("\u{a9} 1982 Sinclair Research Ltd");
}

/// Names of strings end in `$`.
pub proof fn lemma_string_names(name: Seq<char>)
    ensures
        value::names_string(name) <==> name.len() > 0 && name.last() == '$',
{
}

/// A line number with nothing but white space behind it deletes the line and
/// shows nothing. A blank line does nothing.
pub proof fn lemma_deleted(s: SystemView, digits: Seq<char>, line: Seq<char>, ar: Arithmetic)
    requires
        digits.len() > 0,
        forall|i: int| 0 <= i < digits.len() ==> text::is_digit(#[trigger] digits[i]),
        text::decimal_value(digits) <= 65535,
        text::trim(line).len() == 0,
    ensures
        s.stored(digits) == (SystemView {
            listing: s.listing.remove(text::decimal_value(digits) as u16),
            ..s
        }),
        s.obeyed(line, ar) == s,
{
    reveal(SystemView::stored);
    reveal(SystemView::obeyed);
    let k = digits.len();
    assert forall|i: int| 0 <= i < k implies text::in_class(Class::Digit, #[trigger] digits[i]) by {
        assert(text::is_digit(digits[i]));
    }
    text::lemma_leading_is(digits, Class::Digit, k);
    assert(digits.take(k as int) == digits);
    let rest = digits.skip(k as int);
    assert(rest.len() == 0);
    text::lemma_trim_len(rest);
}

/// BREAK leaves a program and its tones and changes nothing else: it reports the
/// line, empties the queue of tones and asks the host to be silent.
pub proof fn lemma_broken_off(s: SystemView, line: u16, ar: Arithmetic)
    requires
        s.pc == Some(line),
        s.break_requested,
    ensures
        s.frame(ar) == (SystemView {
            pc: None,
            rest: None,
            line: None,
            break_requested: false,
            beeps: Seq::empty(),
            wait: 0,
            audio_cancel: true,
            status: machine::report(13, "BREAK into program"@, line as nat, 1),
            ..s
        }).redrawn(),
{
    laws::lemma_break(s, line, ar);
}

} // verus!
