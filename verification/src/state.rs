//! The state of the machine and what all statements do with it.

use vstd::prelude::*;

use crate::builtins::{SysEnv, SEED};
use crate::calculator;
use crate::calculator::Calculator;
use crate::display::{Display, CHAR_W};
use crate::env::UserFn;
use crate::expression;
use crate::fp_format;
use crate::machine;
use crate::machine::{
    DrawingView, Fault, LoopView, Outcome, PendingView, StepResult, SystemView,
};
use crate::number::Number;
use crate::program::Program;
use crate::table::Table;
use crate::text;
use crate::value;
use crate::value::Value;

verus! {

/// A loop that is under way.
pub struct ForFrame {
    pub var: String,
    pub end: Number,
    pub step: Number,
    /// The line of the `FOR`. `NEXT` goes on at the first line after it.
    pub return_line: u16,
}

impl View for ForFrame {
    type V = LoopView;

    open spec fn view(&self) -> LoopView {
        LoopView { var: self.var@, end: self.end, step: self.step, line: self.return_line }
    }
}

/// What a typed line is waited for.
pub struct PendingInput {
    pub var: String,
    /// The line of the `INPUT`. The program goes on at the first line after it.
    pub line: u16,
}

impl View for PendingInput {
    type V = PendingView;

    open spec fn view(&self) -> PendingView {
        PendingView { var: self.var@, line: self.line }
    }
}

/// Work on the screen that is left to the host: colours, which the pixel grid
/// has no room for, and graphics. An `attr` is a Spectrum attribute byte.
#[derive(Debug)]
pub enum Drawing {
    /// Text that was printed from a cell on.
    Text { col: usize, row: usize, text: String, attr: u8 },
    /// The screen was cleared.
    Clear { attr: u8 },
    /// The lower screen changes its colours.
    Lower { attr: u8 },
    Plot { x: i32, y: i32, attr: u8 },
    Line { x0: i32, y0: i32, x1: i32, y1: i32, attr: u8 },
    Circle { x: i32, y: i32, r: i32, attr: u8 },
}

impl View for Drawing {
    type V = DrawingView;

    open spec fn view(&self) -> DrawingView {
        match self {
            Drawing::Text { col, row, text, attr } => DrawingView::Text {
                col: *col as int,
                row: *row as int,
                text: text@,
                attr: *attr,
            },
            Drawing::Clear { attr } => DrawingView::Clear { attr: *attr },
            Drawing::Lower { attr } => DrawingView::Lower { attr: *attr },
            Drawing::Plot { x, y, attr } => DrawingView::Plot { x: *x, y: *y, attr: *attr },
            Drawing::Line { x0, y0, x1, y1, attr } => DrawingView::Line {
                x0: *x0,
                y0: *y0,
                x1: *x1,
                y1: *y1,
                attr: *attr,
            },
            Drawing::Circle { x, y, r, attr } => DrawingView::Circle {
                x: *x,
                y: *y,
                r: *r,
                attr: *attr,
            },
        }
    }
}

/// How a statement ended, or the text that it goes on with.
pub enum Step {
    Ended(StepResult),
    Then(Vec<char>),
}

impl View for Step {
    type V = Outcome;

    open spec fn view(&self) -> Outcome {
        match self {
            Step::Ended(r) => Outcome::Ended(*r),
            Step::Then(s) => Outcome::Then(s@),
        }
    }
}

/// The machine.
pub struct State {
    pub display: Display,
    pub input_line: Vec<char>,
    pub vars: Table<Value>,
    pub program: Program,
    pub prng: u64,
    pub for_stack: Vec<ForFrame>,
    /// The lines that `RETURN` goes back to, the latest last.
    pub gosub_stack: Vec<u16>,
    pub user_fns: Table<UserFn>,
    pub arrays: Table<Vec<Number>>,
    /// The line that runs.
    pub current_line: Option<u16>,
    /// While set, the next typed line goes to `INPUT`.
    pub pending_input: Option<PendingInput>,
    pub current_ink: u8,
    pub current_paper: u8,
    pub current_bright: bool,
    pub current_flash: bool,
    /// Position of the pen, from the bottom left of the screen.
    pub pen_x: i32,
    pub pen_y: i32,
    pub current_border: u8,
    /// The report in the lower screen; the copyright after switching on.
    pub status_line: String,
    pub last_run_line: u16,
    pub started_typing: bool,
    /// Durations and frequencies of the tones to be played.
    pub pending_beeps: Vec<(Number, Number)>,
    /// The line to run next, while a program runs.
    pub pc: Option<u16>,
    /// What is left of that line, once its first statement has run.
    pub rest: Option<Vec<char>>,
    pub break_requested: bool,
    /// How many frames the tones still take.
    pub beep_frames_remaining: u32,
    pub audio_cancel_requested: bool,
    pub pending_drawings: Vec<Drawing>,
}

impl View for State {
    type V = SystemView;

    open spec fn view(&self) -> SystemView {
        SystemView {
            display: self.display@,
            input: self.input_line@,
            vars: self.vars@,
            listing: self.program@,
            seed: self.prng,
            loops: self.for_stack@.map_values(|f: ForFrame| f@),
            returns: self.gosub_stack@,
            fns: self.user_fns@,
            arrays: self.arrays@,
            line: self.current_line,
            pending: match self.pending_input {
                Some(p) => Some(p@),
                None => None,
            },
            ink: self.current_ink,
            paper: self.current_paper,
            bright: self.current_bright,
            flash: self.current_flash,
            pen_x: self.pen_x,
            pen_y: self.pen_y,
            border: self.current_border,
            status: self.status_line@,
            last_line: self.last_run_line,
            typing: self.started_typing,
            beeps: self.pending_beeps@,
            pc: self.pc,
            rest: match self.rest {
                Some(left) => Some(left@),
                None => None,
            },
            break_requested: self.break_requested,
            wait: self.beep_frames_remaining,
            audio_cancel: self.audio_cancel_requested,
            drawings: self.pending_drawings@.map_values(|d: Drawing| d@),
        }
    }
}

/// The attribute byte of a combination of colours.
pub fn make_attr(ink: u8, paper: u8, bright: bool, flash: bool) -> (r: u8)
    requires
        ink <= 7,
        paper <= 7,
    ensures
        r == machine::attribute(ink, paper, bright, flash),
{
    let mut r = ink + 8 * paper;
    if bright {
        r = r + 64;
    }
    if flash {
        r = r + 128;
    }
    r
}

/// The text of a fault.
pub fn fault_message(f: Fault) -> (r: &'static str)
    ensures
        r@ == machine::message(f),
{
    match f {
        Fault::Nonsense => "Nonsense in BASIC",
        Fault::IntegerOutOfRange => "Integer out of range",
        Fault::SubscriptWrong => "Subscript wrong",
        Fault::NextWithoutFor => "NEXT without FOR",
        Fault::ReturnWithoutGosub => "RETURN without GOSUB",
    }
}

/// How a value is printed.
pub fn format_value<C: Calculator>(v: &Value, calc: &C) -> (r: String)
    ensures
        v@ is Str || calculator::deterministic(*calc) ==> r@ == machine::value_text(
            v@,
            calculator::arithmetic(*calc),
        ),
{
    match v {
        Value::Num(n) => fp_format::format(*n, calc),
        Value::Str(s) => text::utf8_lossy(s.as_slice()),
    }
}

/// A line with its number.
pub fn numbered_line(line: u16, body: &str) -> (r: String)
    ensures
        r@ == machine::numbered(line, body@),
{
    let mut r = String::new();
    text::push_decimal(&mut r, line as u64);
    r.append(" ");
    r.append(body);
    assert(r@ == machine::numbered(line, body@));
    r
}

/// `n` blanks.
pub fn blanks(n: usize) -> (r: String)
    ensures
        r@ == machine::blanks(n as int),
{
    let mut r = String::new();
    let mut i: usize = 0;
    while i < n
        invariant
            i <= n,
            r@ == machine::blanks(i as int),
        decreases n - i,
    {
        r.push(' ');
        i += 1;
        assert(r@ == machine::blanks(i as int));
    }
    r
}

impl State {
    /// The machine is consistent and the lines of the program are in order.
    pub open spec fn wf(&self) -> bool {
        self@.consistent() && self.program.wf()
    }

    /// The machine as it is switched on.
    pub fn new() -> (r: Self)
        ensures
            r.wf(),
            r@ == SystemView::booted(),
    {
        let mut r = State {
            display: Display::new(),
            input_line: Vec::new(),
            vars: Table::new(),
            program: Program::new(),
            prng: SEED,
            for_stack: Vec::new(),
            gosub_stack: Vec::new(),
            user_fns: Table::new(),
            arrays: Table::new(),
            current_line: None,
            pending_input: None,
            current_ink: 0,
            current_paper: 7,
            current_bright: false,
            current_flash: false,
            pen_x: 0,
            pen_y: 0,
            current_border: 7,
            status_line: String::from_str("\u{a9} 1982 Sinclair Research Ltd"),
            last_run_line: 0,
            started_typing: false,
            pending_beeps: Vec::new(),
            pc: None,
            rest: None,
            break_requested: false,
            beep_frames_remaining: 0,
            audio_cancel_requested: false,
            pending_drawings: Vec::new(),
        };
        assert(r@.loops == Seq::<LoopView>::empty());
        assert(r@.drawings == Seq::<DrawingView>::empty());
        r.redraw_input();
        r
    }

    pub fn current_attr(&self) -> (r: u8)
        requires
            self.wf(),
        ensures
            r == self@.attr(),
    {
        make_attr(self.current_ink, self.current_paper, self.current_bright, self.current_flash)
    }

    /// Bring the lower screen up to date.
    pub fn redraw_input(&mut self)
        requires
            old(self).wf(),
        ensures
            final(self).wf(),
            final(self)@ == old(self)@.redrawn(),
    {
        proof {
            reveal(SystemView::redrawn);
        }
        if self.pc.is_some() || self.beep_frames_remaining > 0 {
            self.display.print_input("", CHAR_W);
            return;
        }
        proof {
            reveal_strlit("");
            reveal_strlit("?");
        }
        if self.status_line.as_str().unicode_len() > 0 {
            self.display.print_input(self.status_line.as_str(), CHAR_W);
            return;
        }
        let mut typed: Vec<char> = Vec::new();
        if self.pending_input.is_some() {
            typed.push('?');
        }
        let ghost prompt = typed@;
        let mut i: usize = 0;
        while i < self.input_line.len()
            invariant
                i <= self.input_line@.len(),
                typed@ == prompt + self.input_line@.take(i as int),
            decreases self.input_line@.len() - i,
        {
            typed.push(self.input_line[i]);
            i += 1;
            assert(typed@ == prompt + self.input_line@.take(i as int));
        }
        assert(self.input_line@.take(self.input_line@.len() as int) == self.input_line@);
        assert(prompt == (if self@.pending is Some {
            "?"@
        } else {
            ""@
        }));
        let n = typed.len();
        let seen = if n >= CHAR_W {
            text::tail(typed.as_slice(), n - (CHAR_W - 1))
        } else {
            typed.as_slice()
        };
        assert(seen@ == machine::visible(typed@));
        let cursor = seen.len();
        let line = text::string(seen);
        self.display.print_input(line.as_str(), cursor);
    }

    /// Set the report: code, message, line and statement.
    pub fn set_report(&mut self, code: i32, message: &str, line: u16, stmt: u16)
        requires
            old(self).wf(),
        ensures
            final(self).wf(),
            final(self)@ == (SystemView {
                status: machine::report(code as int, message@, line as nat, stmt as nat),
                ..old(self)@
            }),
    {
        proof {
            reveal(machine::report);
        }
        let c = if 0 <= code && code < 10 {
            (48 + code as u8) as char
        } else if 10 <= code && code <= 21 {
            (55 + code as u8) as char
        } else {
            '?'
        };
        let mut r = String::new();
        r.push(c);
        r.append(" ");
        r.append(message);
        r.append(", ");
        text::push_decimal(&mut r, line as u64);
        r.append(":");
        text::push_decimal(&mut r, stmt as u64);
        assert(r@ == machine::report(code as int, message@, line as nat, stmt as nat));
        self.status_line = r;
    }

    /// The value of an expression.
    pub fn evaluate<C: Calculator>(&mut self, src: &[char], calc: &C) -> (r: Option<Value>)
        requires
            old(self).wf(),
        ensures
            final(self).wf(),
            final(self)@ == (SystemView { seed: final(self)@.seed, ..old(self)@ }),
            calculator::deterministic(*calc) ==> (value::option_view(r), final(self)@) == old(
                self,
            )@.valued(src@, calculator::arithmetic(*calc)),
    {
        proof {
            reveal(SystemView::valued);
        }
        let env = SysEnv {
            vars: &self.vars,
            arrays: &self.arrays,
            user_fns: &self.user_fns,
            calc,
        };
        let mut seed = self.prng;
        let r = expression::evaluate_chars(src, &env, calc, &mut seed);
        self.prng = seed;
        match r {
            Ok(v) => Some(v),
            Err(_) => None,
        }
    }

    /// The value of a numeric expression.
    pub fn evaluate_number<C: Calculator>(&mut self, src: &[char], calc: &C) -> (r: Option<Number>)
        requires
            old(self).wf(),
        ensures
            final(self).wf(),
            final(self)@ == (SystemView { seed: final(self)@.seed, ..old(self)@ }),
            calculator::deterministic(*calc) ==> (r, final(self)@) == old(self)@.number(
                src@,
                calculator::arithmetic(*calc),
            ),
    {
        match self.evaluate(src, calc) {
            Some(Value::Num(n)) => Some(n),
            _ => None,
        }
    }

    /// The values of two numeric expressions, one evaluated after the other.
    pub fn evaluate_pair<C: Calculator>(&mut self, a: &[char], b: &[char], calc: &C) -> (r: Option<
        (Number, Number),
    >)
        requires
            old(self).wf(),
        ensures
            final(self).wf(),
            final(self)@ == (SystemView { seed: final(self)@.seed, ..old(self)@ }),
            calculator::deterministic(*calc) ==> (r, final(self)@) == old(self)@.numbers(
                a@,
                b@,
                calculator::arithmetic(*calc),
            ),
    {
        let x = self.evaluate_number(a, calc);
        let y = self.evaluate_number(b, calc);
        match (x, y) {
            (Some(x), Some(y)) => Some((x, y)),
            _ => None,
        }
    }

    /// Leave work on the screen to the host.
    pub fn draw(&mut self, d: Drawing)
        requires
            old(self).wf(),
        ensures
            final(self).wf(),
            final(self)@ == old(self)@.drawn(d@),
    {
        let ghost before = self@;
        self.pending_drawings.push(d);
        assert(self@.drawings == before.drawings.push(d@));
    }

    /// Print text at the cursor in the current colours.
    pub fn show(&mut self, s: &str)
        requires
            old(self).wf(),
        ensures
            final(self).wf(),
            final(self)@ == old(self)@.shown(s@),
    {
        let attr = self.current_attr();
        let (col, row) = self.display.print_cursor();
        self.display.print(s);
        self.draw(Drawing::Text { col, row, text: String::from_str(s), attr });
    }

    /// Print a line of text.
    pub fn show_line(&mut self, s: &str)
        requires
            old(self).wf(),
        ensures
            final(self).wf(),
            final(self)@ == old(self)@.shown_line(s@),
    {
        self.display.println(s);
    }

    /// The line that runs; zero outside a program.
    pub fn here(&self) -> (r: u16)
        ensures
            r == self@.here(),
    {
        match self.current_line {
            Some(n) => n,
            None => 0,
        }
    }

    /// Forget what a run leaves behind.
    pub fn refresh(&mut self)
        requires
            old(self).wf(),
        ensures
            final(self).wf(),
            final(self)@ == old(self)@.fresh(),
    {
        self.vars.clear();
        self.for_stack.clear();
        self.gosub_stack.clear();
        self.arrays.clear();
        self.pending_input = None;
        assert(self@.loops == Seq::<LoopView>::empty());
    }
}

} // verus!
