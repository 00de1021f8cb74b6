//! What every statement, key and frame does to the state of the machine.

use vstd::prelude::*;

use crate::builtins;
use crate::calculator::{Arithmetic, Operation};
use crate::display::{DisplayView, CHAR_W};
use crate::env::{EnvView, UserFnView};
use crate::expression;
use crate::fp_format;
use crate::number::Number;
use crate::program;
use crate::program::Listing;
use crate::semantics;
use crate::syntax;
use crate::table::Names;
use crate::text;
use crate::text::Class;
use crate::value;
use crate::value::ValueView;

verus! {

/// How many statements of a program one frame runs at most.
pub const STATEMENTS_PER_FRAME: usize = 5000;

/// How many characters the line that is being typed can hold.
pub const INPUT_LIMIT: usize = 255;

/// How many elements an array can have.
pub const ARRAY_LIMIT: i64 = 10_000;

/// How many seconds a tone can last.
pub const BEEP_LIMIT: u64 = 120;

/// The largest line number.
pub const LINE_LIMIT: u64 = 65535;

/// The bits of 440, the frequency of the A above middle C.
pub const CONCERT_PITCH: u64 = 0x407b_8000_0000_0000;

/// The bits of nine, the semitones from middle C to that A.
pub const CONCERT_SEMITONE: u64 = 0x4022_0000_0000_0000;

/// The bits of two, the ratio of an octave.
pub const OCTAVE: u64 = 0x4000_0000_0000_0000;

/// The bits of twelve, the semitones of an octave.
pub const SEMITONES: u64 = 0x4028_0000_0000_0000;

/// The bits of sixty, the frames of a second.
pub const FRAMES: u64 = 0x404e_0000_0000_0000;

/// Keys that the host feeds.
#[derive(Clone, Copy, Debug, PartialEq, Eq, Structural)]
pub enum Key {
    Char(u8),
    Enter,
    Backspace,
    /// BREAK, which interrupts a running program.
    Break,
}

/// Why a statement failed.
#[derive(Clone, Copy, Debug, PartialEq, Eq, Structural)]
pub enum Fault {
    Nonsense,
    IntegerOutOfRange,
    SubscriptWrong,
    NextWithoutFor,
    ReturnWithoutGosub,
}

/// How a statement ended.
#[derive(Clone, Copy, Debug, PartialEq, Eq, Structural)]
pub enum StepResult {
    Done,
    Stop,
    /// Go on at the first line from this number on.
    Goto(u16),
    /// Go on at the first line after this number.
    After(u16),
    Error(Fault),
    /// The program waits for a line to be typed.
    AwaitInput,
}

/// The colours that a statement can set.
#[derive(Clone, Copy, Debug, PartialEq, Eq, Structural)]
pub enum ColourKind {
    Ink,
    Paper,
    Bright,
    Flash,
}

/// Work on the screen that is left to the host: colours, which the pixel grid
/// has no room for, and graphics. An `attr` is a Spectrum attribute byte.
pub enum DrawingView {
    /// Text that was printed from a cell on.
    Text { col: int, row: int, text: Seq<char>, attr: u8 },
    /// The screen was cleared.
    Clear { attr: u8 },
    /// The lower screen changes its colours.
    Lower { attr: u8 },
    Plot { x: i32, y: i32, attr: u8 },
    Line { x0: i32, y0: i32, x1: i32, y1: i32, attr: u8 },
    Circle { x: i32, y: i32, r: i32, attr: u8 },
}

/// A loop that is under way.
pub struct LoopView {
    pub var: Seq<char>,
    pub end: Number,
    pub step: Number,
    /// The line of the `FOR`.
    pub line: u16,
}

/// What a typed line is waited for.
pub struct PendingView {
    pub var: Seq<char>,
    /// The line of the `INPUT`. The program goes on at the first line after it.
    pub line: u16,
}

/// The state of the machine.
#[verifier::ext_equal]
pub struct SystemView {
    pub display: DisplayView,
    pub input: Seq<char>,
    pub vars: Names<ValueView>,
    pub listing: Listing,
    pub seed: u64,
    pub loops: Seq<LoopView>,
    /// The lines that `RETURN` goes back to, the latest last.
    pub returns: Seq<u16>,
    pub fns: Names<UserFnView>,
    pub arrays: Names<Seq<Number>>,
    /// The line that runs.
    pub line: Option<u16>,
    pub pending: Option<PendingView>,
    pub ink: u8,
    pub paper: u8,
    pub bright: bool,
    pub flash: bool,
    pub pen_x: i32,
    pub pen_y: i32,
    pub border: u8,
    pub status: Seq<char>,
    pub last_line: u16,
    pub typing: bool,
    /// Durations and frequencies of the tones to be played.
    pub beeps: Seq<(Number, Number)>,
    /// The line to run next, while a program runs.
    pub pc: Option<u16>,
    /// What is left of that line, once its first statement has run.
    pub rest: Option<Seq<char>>,
    pub break_requested: bool,
    /// How many frames the tones still take.
    pub wait: u32,
    pub audio_cancel: bool,
    pub drawings: Seq<DrawingView>,
}

/// A state and how the statement that led to it ended.
pub type Effect = (SystemView, StepResult);

/// How a statement ended, or the text that it goes on with.
pub enum Outcome {
    Ended(StepResult),
    Then(Seq<char>),
}

/// A statement that ended.
pub open spec fn ended(e: Effect) -> (SystemView, Outcome) {
    (e.0, Outcome::Ended(e.1))
}

/// What became of an item of `PRINT`.
pub enum Item {
    /// A value was printed.
    Value,
    /// The cursor was moved.
    Placed,
    /// The statement ends here.
    End(StepResult),
}

/// The text of a fault.
pub open spec fn message(f: Fault) -> Seq<char> {
    match f {
        Fault::Nonsense => "Nonsense in BASIC"@,
        Fault::IntegerOutOfRange => "Integer out of range"@,
        Fault::SubscriptWrong => "Subscript wrong"@,
        Fault::NextWithoutFor => "NEXT without FOR"@,
        Fault::ReturnWithoutGosub => "RETURN without GOSUB"@,
    }
}

/// The character of a report code: a digit up to nine, then a letter.
pub open spec fn code_char(code: int) -> char {
    if 0 <= code < 10 {
        (48 + code) as u8 as char
    } else if 10 <= code <= 21 {
        (55 + code) as u8 as char
    } else {
        '?'
    }
}

/// A report: code, message, line and statement.
#[verifier::opaque]
pub open spec fn report(code: int, message: Seq<char>, line: nat, stmt: nat) -> Seq<char> {
    seq![code_char(code)] + " "@ + message + ", "@ + text::decimal(line) + ":"@ + text::decimal(
        stmt,
    )
}

/// A line with its number.
pub open spec fn numbered(line: u16, body: Seq<char>) -> Seq<char> {
    text::decimal(line as nat) + " "@ + body
}

/// The attribute byte of a combination of colours.
pub open spec fn attribute(ink: u8, paper: u8, bright: bool, flash: bool) -> u8 {
    (ink + 8 * paper + (if bright {
        64int
    } else {
        0
    }) + (if flash {
        128int
    } else {
        0
    })) as u8
}

/// How a value is printed.
pub open spec fn value_text(v: ValueView, ar: Arithmetic) -> Seq<char> {
    match v {
        ValueView::Num(n) => fp_format::formatted(n, ar),
        ValueView::Str(s) => text::printable(s),
    }
}

/// Whether what follows the first `k` characters is set off from them.
pub open spec fn set_off(s: Seq<char>, k: int) -> bool {
    k < s.len() && (text::is_blank(s[k]) || s[k] == '(')
}

/// `n` blanks.
pub open spec fn blanks(n: int) -> Seq<char> {
    Seq::new(n as nat, |i: int| ' ')
}

/// A screen with lines of a program listed on it.
pub open spec fn listed(d: DisplayView, lines: Seq<(u16, Seq<char>)>) -> DisplayView
    decreases lines.len(),
{
    if lines.len() == 0 {
        d
    } else {
        listed(d, lines.drop_last()).printed_line(numbered(lines.last().0, lines.last().1))
    }
}

/// The last loop with the variable `var`.
pub open spec fn loop_index(loops: Seq<LoopView>, var: Seq<char>) -> Option<int>
    decreases loops.len(),
{
    if loops.len() == 0 {
        None
    } else if loops.last().var == var {
        Some(loops.len() - 1)
    } else {
        loop_index(loops.drop_last(), var)
    }
}

/// Whether a loop ends with its variable at `n`.
pub open spec fn passed(l: LoopView, n: Number) -> bool {
    ||| Number::truth(false).below(l.step) && l.end.below(n)
    ||| l.step.below(Number::truth(false)) && n.below(l.end)
}

/// The part of a typed line that fits the screen with its cursor.
pub open spec fn visible(s: Seq<char>) -> Seq<char> {
    if s.len() >= CHAR_W {
        s.skip(s.len() - (CHAR_W - 1))
    } else {
        s
    }
}

/// The function and its name that `args` of `DEF` make.
pub open spec fn definition(args: Seq<char>) -> Option<(Seq<char>, UserFnView)> {
    let t = text::trim_start(args);
    let named = text::trim_start(t.skip(2));
    let n = text::leading(named, Class::Name) as int;
    let name = text::uppercase(named.take(n));
    let bracket = text::trim_start(named.skip(n));
    let inside = bracket.skip(1);
    if !text::starts_with(text::uppercase(t), "FN"@) || t.len() == 2 || !text::is_blank(t[2]) {
        None
    } else if name.len() == 0 || bracket.len() == 0 || bracket[0] != '(' {
        None
    } else {
        match text::index_of(inside, ')') {
            None => None,
            Some(close) => {
                let param = text::uppercase(text::trim(inside.take(close)));
                let rest = text::trim_start(inside.skip(close + 1));
                let body = text::trim(rest.skip(1));
                if !syntax::valid_name(param) || rest.len() == 0 || rest[0] != '=' || body.len()
                    == 0 {
                    None
                } else {
                    Some((name, UserFnView { param, body }))
                }
            },
        }
    }
}

/// The first statement of a line and what follows it. `IF` and `DEF` take the
/// rest of the line.
pub open spec fn first_statement(line: Seq<char>) -> (Seq<char>, Seq<char>) {
    let head = text::uppercase(syntax::at_blank(line).0);
    if head == "IF"@ || head == "DEF"@ {
        (line, Seq::empty())
    } else {
        syntax::at_colon(line)
    }
}

impl SystemView {
    /// What the rest of the state relies on.
    pub open spec fn wf(self) -> bool {
        &&& self.display.wf()
        &&& self.input.len() <= INPUT_LIMIT
        &&& self.ink <= 7
        &&& self.paper <= 7
        &&& self.border <= 7
    }

    /// The attribute byte of the current colours.
    pub open spec fn attr(self) -> u8 {
        attribute(self.ink, self.paper, self.bright, self.flash)
    }

    /// What expressions look their names up in.
    pub open spec fn lookups(self, ar: Arithmetic) -> EnvView {
        builtins::lookups(self.vars, self.arrays, self.fns, ar)
    }

    /// The statement made no sense.
    pub open spec fn nonsense(self) -> Effect {
        (self, StepResult::Error(Fault::Nonsense))
    }

    /// The statement failed.
    pub open spec fn failed(self, f: Fault) -> Effect {
        (self, StepResult::Error(f))
    }

    /// The statement ended well.
    pub open spec fn done(self) -> Effect {
        (self, StepResult::Done)
    }

    /// The value of an expression.
    #[verifier::opaque]
    pub open spec fn valued(self, src: Seq<char>, ar: Arithmetic) -> (
        Option<ValueView>,
        SystemView,
    ) {
        let (r, seed) = semantics::evaluation(src, self.lookups(ar), ar, self.seed);
        let after = SystemView { seed, ..self };
        match r {
            Ok(v) => (Some(v), after),
            Err(_) => (None, after),
        }
    }

    /// The value of a numeric expression.
    pub open spec fn number(self, src: Seq<char>, ar: Arithmetic) -> (
        Option<Number>,
        SystemView,
    ) {
        match self.valued(src, ar) {
            (Some(ValueView::Num(n)), s) => (Some(n), s),
            (_, s) => (None, s),
        }
    }

    /// The values of two numeric expressions, one evaluated after the other.
    pub open spec fn numbers(self, a: Seq<char>, b: Seq<char>, ar: Arithmetic) -> (
        Option<(Number, Number)>,
        SystemView,
    ) {
        let (x, s) = self.number(a, ar);
        let (y, t) = s.number(b, ar);
        match (x, y) {
            (Some(x), Some(y)) => (Some((x, y)), t),
            _ => (None, t),
        }
    }

    /// With work on the screen left to the host.
    pub open spec fn drawn(self, d: DrawingView) -> SystemView {
        SystemView { drawings: self.drawings.push(d), ..self }
    }

    /// With text printed at the cursor.
    pub open spec fn shown(self, s: Seq<char>) -> SystemView {
        let d = DrawingView::Text {
            col: self.display.col,
            row: self.display.row,
            text: s,
            attr: self.attr(),
        };
        SystemView { display: self.display.printed(s), ..self }.drawn(d)
    }

    /// With a line of text printed at the cursor.
    pub open spec fn shown_line(self, s: Seq<char>) -> SystemView {
        SystemView { display: self.display.printed_line(s), ..self }
    }

    /// With a report on the first statement of a line.
    pub open spec fn reported(self, code: int, message: Seq<char>, line: u16) -> SystemView {
        SystemView { status: report(code, message, line as nat, 1), ..self }
    }

    /// `PRINT` of the value of `src`, where there is one.
    pub open spec fn value_shown(self, src: Seq<char>, ar: Arithmetic) -> (bool, SystemView) {
        match self.valued(src, ar) {
            (Some(v), s) => (true, s.shown(value_text(v, ar))),
            (None, s) => (false, s),
        }
    }

    /// With the cursor moved on to a column by blanks, to that of the next
    /// row where it is beyond already.
    pub open spec fn tabbed(self, col: int) -> SystemView {
        if col >= self.display.col {
            self.shown(blanks(col - self.display.col))
        } else {
            self.shown("\n"@).shown(blanks(col))
        }
    }

    /// One item of `PRINT`: `AT` or `TAB` where the word is set off from what
    /// follows it, else a value.
    pub open spec fn print_item(self, item: Seq<char>, ar: Arithmetic) -> (Item, SystemView) {
        let upper = text::uppercase(item);
        if text::starts_with(upper, "AT"@) && set_off(item, 2) {
            match syntax::at_char(item.skip(2), ',') {
                None => (Item::End(StepResult::Error(Fault::Nonsense)), self),
                Some((row, col)) => match self.numbers(row, col, ar) {
                    (Some((r, c)), s) => (
                        Item::Placed,
                        SystemView {
                            display: s.display.moved(
                                c.saturated(0, usize::MAX as int),
                                r.saturated(0, usize::MAX as int),
                            ),
                            ..s
                        },
                    ),
                    (None, s) => (Item::End(StepResult::Error(Fault::Nonsense)), s),
                },
            }
        } else if text::starts_with(upper, "TAB"@) && set_off(item, 3) {
            match self.number(item.skip(3), ar) {
                (Some(n), s) => (
                    Item::Placed,
                    s.tabbed(n.saturated(0, usize::MAX as int) % (CHAR_W as int)),
                ),
                (None, s) => (Item::End(StepResult::Error(Fault::Nonsense)), s),
            }
        } else {
            match self.value_shown(item, ar) {
                (true, s) => (Item::Value, s),
                (false, s) => (Item::End(StepResult::Error(Fault::Nonsense)), s),
            }
        }
    }

    /// The items of `PRINT` from `i` on: how the statement ended early, or
    /// whether a value was printed.
    pub open spec fn print_items(
        self,
        items: Seq<Seq<char>>,
        i: int,
        printed: bool,
        ar: Arithmetic,
    ) -> (Result<bool, StepResult>, SystemView)
        decreases items.len() - i,
    {
        if i < 0 || i >= items.len() {
            (Ok(printed), self)
        } else {
            let item = text::trim(items[i]);
            if item.len() == 0 {
                self.print_items(items, i + 1, printed, ar)
            } else {
                match self.print_item(item, ar) {
                    (Item::Value, s) => s.print_items(items, i + 1, true, ar),
                    (Item::Placed, s) => s.print_items(items, i + 1, printed, ar),
                    (Item::End(r), s) => (Err(r), s),
                }
            }
        }
    }

    /// `PRINT`: a line feed alone, or the items and a line feed behind the last value
    /// unless a separator ends the statement.
    #[verifier::opaque]
    pub open spec fn print(self, args: Seq<char>, ar: Arithmetic) -> Effect {
        if text::trim(args).len() == 0 {
            self.shown("\n"@).done()
        } else {
            match self.print_items(syntax::items(args), 0, false, ar) {
                (Err(r), s) => (s, r),
                (Ok(printed), s) => {
                    let last = text::trim_end(args).last();
                    if printed && last != ';' && last != ',' {
                        s.shown("\n"@).done()
                    } else {
                        s.done()
                    }
                },
            }
        }
    }

    /// `INK`, `PAPER`, `BRIGHT` and `FLASH`.
    #[verifier::opaque]
    pub open spec fn colour(self, args: Seq<char>, kind: ColourKind, ar: Arithmetic) -> Effect {
        match self.number(args, ar) {
            (None, s) => s.nonsense(),
            (Some(x), s) => {
                let n = x.saturated(i32::MIN as int, i32::MAX as int);
                match kind {
                    ColourKind::Ink if 0 <= n <= 7 => (SystemView { ink: n as u8, ..s }).done(),
                    ColourKind::Paper if 0 <= n <= 7 => (SystemView { paper: n as u8, ..s }).done(),
                    ColourKind::Bright if 0 <= n <= 1 => (SystemView {
                        bright: n == 1,
                        ..s
                    }).done(),
                    ColourKind::Flash if 0 <= n <= 1 => (SystemView { flash: n == 1, ..s }).done(),
                    _ => s.failed(Fault::IntegerOutOfRange),
                }
            },
        }
    }

    /// `BORDER`: the border and the lower screen, black on light colours and white
    /// on dark ones.
    #[verifier::opaque]
    pub open spec fn border(self, args: Seq<char>, ar: Arithmetic) -> Effect {
        match self.number(args, ar) {
            (None, s) => s.nonsense(),
            (Some(x), s) => {
                let n = x.saturated(i32::MIN as int, i32::MAX as int);
                if 0 <= n <= 7 {
                    let ink = if n >= 4 {
                        0
                    } else {
                        7
                    };
                    let attr = attribute(ink, n as u8, false, false);
                    (SystemView { border: n as u8, ..s }).drawn(DrawingView::Lower { attr }).done()
                } else {
                    s.failed(Fault::IntegerOutOfRange)
                }
            },
        }
    }

    /// `BEEP`: a tone, and the wait for its end.
    #[verifier::opaque]
    pub open spec fn beep(self, args: Seq<char>, ar: Arithmetic) -> Effect {
        match syntax::at_char(args, ',') {
            None => self.nonsense(),
            Some((duration, pitch)) => match self.numbers(duration, pitch, ar) {
                (None, s) => s.nonsense(),
                (Some((d, p)), s) => if d.within(0, BEEP_LIMIT as int) {
                    (SystemView {
                        beeps: s.beeps.push((d, frequency(p, ar))),
                        wait: lengthened(s.wait, d, ar),
                        ..s
                    }).done()
                } else {
                    s.failed(Fault::IntegerOutOfRange)
                },
            },
        }
    }

    /// `PLOT`: a point, and the pen there.
    #[verifier::opaque]
    pub open spec fn plot(self, args: Seq<char>, ar: Arithmetic) -> Effect {
        match syntax::at_char(args, ',') {
            None => self.nonsense(),
            Some((a, b)) => match self.numbers(a, b, ar) {
                (None, s) => s.nonsense(),
                (Some((x, y)), s) => {
                    let x = coordinate(x);
                    let y = coordinate(y);
                    (SystemView { pen_x: x, pen_y: y, ..s }).drawn(
                        DrawingView::Plot { x, y, attr: s.attr() },
                    ).done()
                },
            },
        }
    }

    /// `DRAW`: a line from the pen, and the pen at its end.
    #[verifier::opaque]
    pub open spec fn draw(self, args: Seq<char>, ar: Arithmetic) -> Effect {
        match syntax::at_char(args, ',') {
            None => self.nonsense(),
            Some((a, b)) => match self.numbers(a, b, ar) {
                (None, s) => s.nonsense(),
                (Some((dx, dy)), s) => {
                    let x1 = s.pen_x + coordinate(dx);
                    let y1 = s.pen_y + coordinate(dy);
                    if i32::MIN <= x1 <= i32::MAX && i32::MIN <= y1 <= i32::MAX {
                        (SystemView { pen_x: x1 as i32, pen_y: y1 as i32, ..s }).drawn(
                            DrawingView::Line {
                                x0: s.pen_x,
                                y0: s.pen_y,
                                x1: x1 as i32,
                                y1: y1 as i32,
                                attr: s.attr(),
                            },
                        ).done()
                    } else {
                        s.failed(Fault::IntegerOutOfRange)
                    }
                },
            },
        }
    }

    /// `CIRCLE`: a circle, and the pen at its centre.
    #[verifier::opaque]
    pub open spec fn circle(self, args: Seq<char>, ar: Arithmetic) -> Effect {
        match syntax::at_char(args, ',') {
            None => self.nonsense(),
            Some((a, rest)) => match syntax::at_char(rest, ',') {
                None => self.nonsense(),
                Some((b, c)) => {
                    let (centre, s) = self.numbers(a, b, ar);
                    let (radius, t) = s.number(c, ar);
                    match (centre, radius) {
                        (Some((x, y)), Some(r)) => {
                            let x = coordinate(x);
                            let y = coordinate(y);
                            (SystemView { pen_x: x, pen_y: y, ..t }).drawn(
                                DrawingView::Circle { x, y, r: coordinate(r), attr: t.attr() },
                            ).done()
                        },
                        _ => t.nonsense(),
                    }
                },
            },
        }
    }

    /// `LET` of an element of an array: `before` and `inside` are the text on
    /// either side of the opening bracket.
    pub open spec fn set_element(
        self,
        before: Seq<char>,
        inside: Seq<char>,
        rhs: Seq<char>,
        ar: Arithmetic,
    ) -> Effect {
        let name = syntax::normalised(text::trim(before));
        match text::last_index_of(inside, ')') {
            Some(close) if syntax::valid_name(name) => match self.numbers(
                inside.take(close),
                rhs,
                ar,
            ) {
                (None, s) => s.nonsense(),
                (Some((index, value)), s) => {
                    let i = index.saturated(i64::MIN as int, i64::MAX as int);
                    if s.arrays.contains_key(name) && 1 <= i <= s.arrays[name].len() {
                        let a = s.arrays[name].update(i - 1, value);
                        (SystemView { arrays: s.arrays.insert(name, a), ..s }).done()
                    } else {
                        s.failed(Fault::SubscriptWrong)
                    }
                },
            },
            _ => self.nonsense(),
        }
    }

    /// `LET` of a variable.
    pub open spec fn set_variable(self, lhs: Seq<char>, rhs: Seq<char>, ar: Arithmetic) -> Effect {
        let name = syntax::normalised(lhs);
        if syntax::valid_name(name) {
            match self.valued(rhs, ar) {
                (Some(v), s) if (v is Str) == value::names_string(name) => (SystemView {
                    vars: s.vars.insert(name, v),
                    ..s
                }).done(),
                (_, s) => s.nonsense(),
            }
        } else {
            self.nonsense()
        }
    }

    /// `LET`.
    #[verifier::opaque]
    pub open spec fn assign(self, args: Seq<char>, ar: Arithmetic) -> Effect {
        match syntax::first_top_level(args, '=', 0) {
            None => self.nonsense(),
            Some(i) => {
                let lhs = text::trim(args.take(i));
                let rhs = args.skip(i + 1);
                match syntax::at_char(lhs, '(') {
                    Some((before, inside)) => self.set_element(before, inside, rhs, ar),
                    None => self.set_variable(lhs, rhs, ar),
                }
            },
        }
    }

    /// `DIM`: an array of zeros.
    #[verifier::opaque]
    pub open spec fn dim(self, args: Seq<char>, ar: Arithmetic) -> Effect {
        match syntax::at_char(text::trim(args), '(') {
            None => self.nonsense(),
            Some((before, inside)) => {
                let name = syntax::normalised(text::trim(before));
                match text::last_index_of(inside, ')') {
                    Some(close) if syntax::valid_name(name) && !value::names_string(
                        name,
                    ) => match self.number(inside.take(close), ar) {
                        (None, s) => s.nonsense(),
                        (Some(x), s) => {
                            let n = x.saturated(i64::MIN as int, i64::MAX as int);
                            if 1 <= n <= ARRAY_LIMIT {
                                let a = Seq::new(n as nat, |i: int| Number { bits: 0 });
                                (SystemView { arrays: s.arrays.insert(name, a), ..s }).done()
                            } else {
                                s.failed(Fault::SubscriptWrong)
                            }
                        },
                    },
                    _ => self.nonsense(),
                }
            },
        }
    }

    /// `GOTO`.
    #[verifier::opaque]
    pub open spec fn goto(self, args: Seq<char>, ar: Arithmetic) -> Effect {
        match self.number(args, ar) {
            (None, s) => s.nonsense(),
            (Some(n), s) => if n.within(0, LINE_LIMIT as int) {
                (s, StepResult::Goto(line_number(n)))
            } else {
                s.failed(Fault::IntegerOutOfRange)
            },
        }
    }

    /// `LIST`.
    #[verifier::opaque]
    pub open spec fn list(self) -> Effect {
        (SystemView {
            display: listed(self.display, program::lines_from(self.listing, 0)),
            ..self
        }).done()
    }

    /// Without anything that a run leaves behind.
    pub open spec fn fresh(self) -> SystemView {
        SystemView {
            vars: Map::empty(),
            loops: Seq::empty(),
            returns: Seq::empty(),
            arrays: Map::empty(),
            pending: None,
            ..self
        }
    }

    /// Ready to run from a line on.
    pub open spec fn started(self, line: u16) -> SystemView {
        SystemView {
            pc: program::next_line(self.listing, line as int),
            rest: None,
            break_requested: false,
            ..self
        }
    }

    /// `RUN`.
    #[verifier::opaque]
    pub open spec fn run(self, args: Seq<char>, ar: Arithmetic) -> Effect {
        if text::trim(args).len() == 0 {
            self.fresh().started(0).done()
        } else {
            match self.fresh().number(args, ar) {
                (Some(n), s) if n.within(0, LINE_LIMIT as int) => s.started(
                    line_number(n),
                ).done(),
                (_, s) => s.nonsense(),
            }
        }
    }

    /// `NEW`: without a program and all that belongs to it.
    pub open spec fn erased(self) -> SystemView {
        SystemView { listing: Map::empty(), fns: Map::empty(), rest: None, ..self.fresh() }
    }

    /// `CLS`.
    pub open spec fn cls(self) -> SystemView {
        SystemView { display: self.display.cleared(), ..self }.drawn(
            DrawingView::Clear { attr: self.attr() },
        )
    }

    /// `FOR` with the variable `var`, start, end and step.
    pub open spec fn looped(self, var: Seq<char>, start: Number, end: Number, step: Number)
     -> SystemView {
        SystemView {
            vars: self.vars.insert(var, ValueView::Num(start)),
            loops: self.loops.push(LoopView { var, end, step, line: self.here() }),
            ..self
        }
    }

    /// The line that runs; zero outside a program.
    pub open spec fn here(self) -> u16 {
        match self.line {
            Some(n) => n,
            None => 0,
        }
    }

    /// `FOR`.
    #[verifier::opaque]
    pub open spec fn for_to(self, args: Seq<char>, ar: Arithmetic) -> Effect {
        match syntax::at_char(args, '=') {
            None => self.nonsense(),
            Some((lhs, after)) => {
                let var = syntax::normalised(text::trim(lhs));
                match syntax::at_word(after, "TO"@) {
                    Some((start, rest)) if syntax::valid_name(var) && !value::names_string(var) => {
                        let (end, step) = match syntax::at_word(rest, "STEP"@) {
                            Some((end, step)) => (end, Some(step)),
                            None => (rest, None),
                        };
                        let (bounds, s) = self.numbers(start, end, ar);
                        let (by, t) = match step {
                            Some(src) => s.number(src, ar),
                            None => (Some(Number::truth(true)), s),
                        };
                        match (bounds, by) {
                            (Some((from, to)), Some(by)) if !by.same_value(
                                Number::truth(false),
                            ) => t.looped(var, from, to, by).done(),
                            _ => t.nonsense(),
                        }
                    },
                    _ => self.nonsense(),
                }
            },
        }
    }

    /// The loop that `NEXT` goes on with.
    pub open spec fn next_loop(self, args: Seq<char>) -> Option<int> {
        let var = syntax::normalised(text::trim(args));
        if var.len() > 0 {
            loop_index(self.loops, var)
        } else if self.loops.len() > 0 {
            Some(self.loops.len() - 1)
        } else {
            None
        }
    }

    /// `NEXT`.
    #[verifier::opaque]
    pub open spec fn next(self, args: Seq<char>, ar: Arithmetic) -> Effect {
        match self.next_loop(args) {
            None => self.failed(Fault::NextWithoutFor),
            Some(i) => {
                let l = self.loops[i];
                if !self.vars.contains_key(l.var) || self.vars[l.var] is Str {
                    self.nonsense()
                } else {
                    let n = (ar.operate)(Operation::Add, self.vars[l.var]->Num_0, l.step);
                    let s = SystemView { vars: self.vars.insert(l.var, ValueView::Num(n)), ..self };
                    if passed(l, n) {
                        (SystemView { loops: self.loops.take(i), ..s }).done()
                    } else {
                        (s, StepResult::After(l.line))
                    }
                }
            },
        }
    }

    /// `GOSUB`.
    #[verifier::opaque]
    pub open spec fn gosub(self, args: Seq<char>, ar: Arithmetic) -> Effect {
        match self.number(args, ar) {
            (Some(n), s) if n.within(0, LINE_LIMIT as int) => (
                SystemView { returns: s.returns.push(s.here()), ..s },
                StepResult::Goto(line_number(n)),
            ),
            (_, s) => s.nonsense(),
        }
    }

    /// `RETURN`.
    #[verifier::opaque]
    pub open spec fn go_back(self) -> Effect {
        if self.returns.len() == 0 {
            self.failed(Fault::ReturnWithoutGosub)
        } else {
            (
                SystemView { returns: self.returns.drop_last(), ..self },
                StepResult::After(self.returns.last()),
            )
        }
    }

    /// `DEF FN`.
    #[verifier::opaque]
    pub open spec fn def(self, args: Seq<char>) -> Effect {
        match definition(args) {
            Some((name, f)) => (SystemView { fns: self.fns.insert(name, f), ..self }).done(),
            None => self.nonsense(),
        }
    }

    /// `INPUT`.
    #[verifier::opaque]
    pub open spec fn ask(self, args: Seq<char>) -> Effect {
        let var = syntax::normalised(text::trim(args));
        match self.line {
            Some(n) if syntax::valid_name(var) => (
                SystemView { pending: Some(PendingView { var, line: n }), ..self },
                StepResult::AwaitInput,
            ),
            _ => self.nonsense(),
        }
    }

    /// The statement that the word `head` stands for.
    #[verifier::opaque]
    pub open spec fn command(self, head: Seq<char>, args: Seq<char>, ar: Arithmetic) -> Effect {
        if head == "PRINT"@ {
            self.print(args, ar)
        } else if head == "LET"@ {
            self.assign(args, ar)
        } else if head == "GOTO"@ {
            self.goto(args, ar)
        } else if head == "STOP"@ {
            (self, StepResult::Stop)
        } else if head == "NEW"@ {
            self.erased().done()
        } else if head == "GOSUB"@ {
            self.gosub(args, ar)
        } else if head == "RETURN"@ {
            self.go_back()
        } else if head == "DEF"@ {
            self.def(args)
        } else if head == "DIM"@ {
            self.dim(args, ar)
        } else if head == "CLS"@ {
            self.cls().done()
        } else if head == "LIST"@ {
            self.list()
        } else if head == "RUN"@ {
            self.run(args, ar)
        } else if head == "FOR"@ {
            self.for_to(args, ar)
        } else if head == "NEXT"@ {
            self.next(args, ar)
        } else if head == "INPUT"@ {
            self.ask(args)
        } else if head == "INK"@ {
            self.colour(args, ColourKind::Ink, ar)
        } else if head == "PAPER"@ {
            self.colour(args, ColourKind::Paper, ar)
        } else if head == "BRIGHT"@ {
            self.colour(args, ColourKind::Bright, ar)
        } else if head == "FLASH"@ {
            self.colour(args, ColourKind::Flash, ar)
        } else if head == "PLOT"@ {
            self.plot(args, ar)
        } else if head == "DRAW"@ {
            self.draw(args, ar)
        } else if head == "CIRCLE"@ {
            self.circle(args, ar)
        } else if head == "BORDER"@ {
            self.border(args, ar)
        } else if head == "BEEP"@ {
            self.beep(args, ar)
        } else {
            self.nonsense()
        }
    }

    /// The value of the condition of `IF` and the text behind `THEN`.
    #[verifier::opaque]
    pub open spec fn condition(self, args: Seq<char>, ar: Arithmetic) -> (
        Option<(Number, Seq<char>)>,
        SystemView,
    ) {
        let (r, seed) = expression::until_keyword(args, "THEN"@, self.lookups(ar), ar, self.seed);
        let s = SystemView { seed, ..self };
        match r {
            Ok((ValueView::Num(n), rest)) => (Some((n, rest)), s),
            _ => (None, s),
        }
    }

    /// `IF`: on with the text behind `THEN` where the condition is not zero.
    #[verifier::opaque]
    pub open spec fn conditional(self, args: Seq<char>, ar: Arithmetic) -> (SystemView, Outcome) {
        match self.condition(args, ar) {
            (Some((n, rest)), s) => {
                let then = text::trim(rest);
                if n.same_value(Number::truth(false)) {
                    ended(s.done())
                } else if then.len() == 0 {
                    ended(s.nonsense())
                } else {
                    (s, Outcome::Then(then))
                }
            },
            (None, s) => ended(s.nonsense()),
        }
    }

    /// One statement.
    #[verifier::opaque]
    pub open spec fn statement(self, stmt: Seq<char>, ar: Arithmetic) -> (SystemView, Outcome) {
        let t = text::trim(stmt);
        let head = text::uppercase(syntax::at_blank(t).0);
        let args = syntax::at_blank(t).1;
        if t.len() == 0 {
            ended(self.done())
        } else if head == "IF"@ {
            self.conditional(args, ar)
        } else {
            ended(self.command(head, args, ar))
        }
    }

    /// The first of the statements `rest`. Where it ends well and others
    /// follow, the line goes on with them.
    pub open spec fn stepped(self, rest: Seq<char>, ar: Arithmetic) -> (SystemView, Outcome) {
        let (this, next) = first_statement(rest);
        let left = text::trim_start(next);
        match self.statement(this, ar) {
            (s, Outcome::Ended(StepResult::Done)) if left.len() > 0 => (s, Outcome::Then(left)),
            other => other,
        }
    }

    /// The statements of a line from `rest` on, up to the first that does not
    /// end well.
    pub open spec fn statements(self, rest: Seq<char>, ar: Arithmetic) -> Effect
        decreases rest.len(),
    {
        if rest.len() == 0 {
            self.done()
        } else {
            proof {
                self.lemma_stepped(rest, ar);
            }
            match self.stepped(rest, ar) {
                (s, Outcome::Ended(r)) => (s, r),
                (s, Outcome::Then(left)) => s.statements(left, ar),
            }
        }
    }

    /// What a line goes on with is shorter than the line, and not empty.
    pub proof fn lemma_stepped(self, rest: Seq<char>, ar: Arithmetic)
        requires
            rest.len() > 0,
        ensures
            self.stepped(rest, ar) matches (_, Outcome::Then(left)) ==> 0 < left.len() < rest.len(),
    {
        let (this, next) = first_statement(rest);
        syntax::lemma_at_colon(rest);
        text::lemma_trim_len(next);
        self.lemma_then(this, ar);
    }

    /// What stands behind `THEN` is shorter than the statement.
    pub proof fn lemma_then(self, stmt: Seq<char>, ar: Arithmetic)
        ensures
            self.statement(stmt, ar) matches (_, Outcome::Then(then)) ==> 0 < then.len()
                < stmt.len(),
    {
        reveal(SystemView::statement);
        reveal(SystemView::conditional);
        reveal(SystemView::condition);
        let t = text::trim(stmt);
        let args = syntax::at_blank(t).1;
        text::lemma_trim_len(stmt);
        syntax::lemma_at_blank(t);
        reveal_strlit("THEN");
        syntax::lemma_at_word(args, "THEN"@);
        if let Some((before, rest)) = syntax::at_word(args, "THEN"@) {
            text::lemma_trim_len(rest);
        }
    }

    /// A line of statements.
    #[verifier::opaque]
    pub open spec fn execute(self, line: Seq<char>, ar: Arithmetic) -> Effect {
        self.statements(text::trim(line), ar)
    }

    /// The program has stopped.
    pub open spec fn halted(self) -> SystemView {
        SystemView { pc: None, rest: None, line: None, ..self }
    }

    /// BREAK has stopped the program and its tones.
    pub open spec fn broken_off(self, line: u16) -> SystemView {
        SystemView {
            break_requested: false,
            beeps: Seq::empty(),
            wait: 0,
            audio_cancel: true,
            ..self.reported(13, "BREAK into program"@, line).halted()
        }
    }

    /// On to the line `next`; where there is none, the program is at its end.
    pub open spec fn onto(self, next: Option<u16>, line: u16) -> SystemView {
        let s = SystemView { pc: next, rest: None, ..self };
        if next is None {
            SystemView { line: None, ..s.reported(0, "OK"@, line) }
        } else {
            s
        }
    }

    /// The text of a line; nothing where there is none.
    pub open spec fn text_of(self, line: u16) -> Seq<char> {
        if self.listing.contains_key(line) {
            self.listing[line]
        } else {
            Seq::empty()
        }
    }

    /// The program after a line that ended like this.
    #[verifier::opaque]
    pub open spec fn concluded(self, r: StepResult, line: u16) -> SystemView {
        match r {
            StepResult::Done => self.onto(program::next_line(self.listing, line + 1), line),
            StepResult::Stop => self.reported(9, "STOP statement"@, line).halted(),
            StepResult::Goto(n) => self.onto(program::next_line(self.listing, n as int), line),
            StepResult::After(n) => self.onto(program::next_line(self.listing, n + 1), line),
            StepResult::AwaitInput => self.halted(),
            StepResult::Error(f) => self.reported(1, message(f), line).halted(),
        }
    }

    /// What is to run of a line: what is left of it, or all of it.
    pub open spec fn ahead(self, line: u16) -> Seq<char> {
        match self.rest {
            Some(left) => left,
            None => text::trim(self.text_of(line)),
        }
    }

    /// One statement of a program run. Whatever it does, the line goes on where
    /// there is more of it and the statement ended well.
    #[verifier::opaque]
    pub open spec fn statement_run(self, line: u16, ar: Arithmetic) -> SystemView {
        let begun = SystemView { last_line: line, line: Some(line), rest: None, ..self };
        match begun.stepped(self.ahead(line), ar) {
            (s, Outcome::Ended(r)) => s.concluded(r, line),
            (s, Outcome::Then(left)) => SystemView { pc: Some(line), rest: Some(left), ..s },
        }
    }

    /// At most `n` statements of a program run. BREAK and tones are heeded
    /// before each of them.
    pub open spec fn statements_run(self, n: nat, ar: Arithmetic) -> SystemView
        decreases n,
    {
        match self.pc {
            Some(line) if n > 0 => if self.break_requested {
                self.broken_off(line)
            } else if self.wait > 0 {
                self
            } else {
                self.statement_run(line, ar).statements_run((n - 1) as nat, ar)
            },
            _ => self,
        }
    }

    /// The share of one frame in running the program.
    pub open spec fn ticked(self, ar: Arithmetic) -> SystemView {
        match self.pc {
            None => SystemView { break_requested: false, ..self },
            Some(line) => if self.wait == 0 {
                self.statements_run(STATEMENTS_PER_FRAME as nat, ar)
            } else if self.break_requested {
                self.broken_off(line)
            } else {
                self
            },
        }
    }

    /// With the lower screen up to date: blank while a program runs, else the
    /// report, else the line that is being typed with its cursor.
    #[verifier::opaque]
    pub open spec fn redrawn(self) -> SystemView {
        let prompt = if self.pending is Some {
            "?"@
        } else {
            ""@
        };
        let typed = visible(prompt + self.input);
        let display = if self.pc is Some || self.wait > 0 {
            self.display.input_line(""@, CHAR_W as int)
        } else if self.status.len() > 0 {
            self.display.input_line(self.status, CHAR_W as int)
        } else {
            self.display.input_line(typed, typed.len() as int)
        };
        SystemView { display, ..self }
    }

    /// One frame: a tone counts down, the program runs, the lower screen follows.
    pub open spec fn frame(self, ar: Arithmetic) -> SystemView {
        let wait = if self.wait > 0 {
            (self.wait - 1) as u32
        } else {
            0
        };
        (SystemView { wait, ..self }).ticked(ar).redrawn()
    }

    /// With a typed line stored in the program.
    #[verifier::opaque]
    pub open spec fn stored(self, line: Seq<char>) -> SystemView {
        let n = text::leading(line, Class::Digit) as int;
        let number = text::decimal_value(line.take(n));
        let body = text::trim_start(line.skip(n));
        if n == 0 || number > LINE_LIMIT {
            self.shown_line(message(Fault::Nonsense))
        } else {
            let number = number as u16;
            let s = if body.len() == 0 {
                self
            } else {
                self.shown_line(numbered(number, body))
            };
            SystemView {
                listing: if text::trim(body).len() == 0 {
                    s.listing.remove(number)
                } else {
                    s.listing.insert(number, body)
                },
                ..s
            }
        }
    }

    /// With a typed line obeyed: stored where it begins with a digit, else
    /// executed at once, with all its statements.
    #[verifier::opaque]
    pub open spec fn obeyed(self, line: Seq<char>, ar: Arithmetic) -> SystemView {
        let t = text::trim(line);
        if t.len() == 0 {
            self
        } else if text::is_digit(t[0]) {
            SystemView { status: Seq::empty(), ..self.stored(t) }
        } else {
            let (s, r) = self.execute(t, ar);
            match r {
                StepResult::Done => if s.pc is Some {
                    SystemView { status: Seq::empty(), ..s }
                } else {
                    s.reported(0, "OK"@, 0)
                },
                StepResult::Stop => s.reported(9, "STOP statement"@, 0),
                StepResult::Error(f) => s.reported(1, message(f), 0),
                _ => (SystemView { pending: None, ..s }).reported(1, message(Fault::Nonsense), 0),
            }
        }
    }

    /// With a typed line given to the `INPUT` that waits for it.
    #[verifier::opaque]
    pub open spec fn answered(self, p: PendingView, line: Seq<char>, ar: Arithmetic) -> SystemView {
        let (v, s) = if value::names_string(p.var) {
            (Some(ValueView::Str(vstd::utf8::encode_utf8(line))), self)
        } else {
            match self.number(line, ar) {
                (Some(n), s) => (Some(ValueView::Num(n)), s),
                (None, s) => (None, s),
            }
        };
        match v {
            Some(v) => SystemView {
                vars: s.vars.insert(p.var, v),
                pc: program::next_line(s.listing, p.line + 1),
                rest: None,
                ..s
            },
            None => s.shown_line(message(Fault::Nonsense)),
        }
    }

    /// The user is at the keyboard: any report goes away.
    pub open spec fn attended(self) -> SystemView {
        SystemView { typing: true, status: Seq::empty(), ..self }
    }

    /// The Enter key: the typed line goes to `INPUT` or is obeyed.
    pub open spec fn entered(self, ar: Arithmetic) -> SystemView {
        let s = SystemView { input: Seq::empty(), pending: None, ..self.attended() };
        match self.pending {
            Some(p) => s.answered(p, self.input, ar),
            None => s.obeyed(self.input, ar),
        }
    }

    /// A key.
    pub open spec fn pressed(self, key: Key, ar: Arithmetic) -> SystemView {
        let s = match key {
            Key::Char(b) => if 32 <= b <= 126 {
                let s = self.attended();
                if s.input.len() < INPUT_LIMIT {
                    SystemView { input: s.input.push(b as char), ..s }
                } else {
                    s
                }
            } else {
                self
            },
            Key::Backspace => {
                let s = self.attended();
                if s.input.len() > 0 {
                    SystemView { input: s.input.drop_last(), ..s }
                } else {
                    s
                }
            },
            Key::Enter => self.entered(ar),
            Key::Break => SystemView { break_requested: true, ..self },
        };
        s.redrawn()
    }

    /// The machine as it is switched on.
    pub open spec fn booted() -> SystemView {
        SystemView {
            display: DisplayView::blank(),
            input: Seq::empty(),
            vars: Map::empty(),
            listing: Map::empty(),
            seed: builtins::SEED,
            loops: Seq::empty(),
            returns: Seq::empty(),
            fns: Map::empty(),
            arrays: Map::empty(),
            line: None,
            pending: None,
            ink: 0,
            paper: 7,
            bright: false,
            flash: false,
            pen_x: 0,
            pen_y: 0,
            border: 7,
            status: "\u{a9} 1982 Sinclair Research Ltd"@,
            last_line: 0,
            typing: false,
            beeps: Seq::empty(),
            pc: None,
            rest: None,
            break_requested: false,
            wait: 0,
            audio_cancel: false,
            drawings: Seq::empty(),
        }.redrawn()
    }
}

/// The frequency of a pitch in semitones from middle C.
pub open spec fn frequency(pitch: Number, ar: Arithmetic) -> Number {
    let above = (ar.operate)(Operation::Subtract, pitch, Number { bits: CONCERT_SEMITONE });
    let octaves = (ar.operate)(Operation::Divide, above, Number { bits: SEMITONES });
    let ratio = (ar.operate)(Operation::Power, Number { bits: OCTAVE }, octaves);
    (ar.operate)(Operation::Multiply, Number { bits: CONCERT_PITCH }, ratio)
}

/// The frames to wait with a further tone of `d` seconds.
pub open spec fn lengthened(wait: u32, d: Number, ar: Arithmetic) -> u32 {
    let frames = (ar.operate)(Operation::Multiply, d, Number { bits: FRAMES }).ceiled().saturated(
        0,
        u32::MAX as int,
    );
    if wait + frames + 1 <= u32::MAX {
        (wait + frames + 1) as u32
    } else {
        u32::MAX
    }
}

/// A number as a coordinate on the screen.
pub open spec fn coordinate(n: Number) -> i32 {
    n.saturated(i32::MIN as int, i32::MAX as int) as i32
}

/// A number as a line number.
pub open spec fn line_number(n: Number) -> u16 {
    n.saturated(0, u16::MAX as int) as u16
}

} // verus!
