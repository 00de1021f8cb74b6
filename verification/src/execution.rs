//! How lines and programs are executed.

use vstd::prelude::*;

use crate::calculator;
use crate::calculator::Calculator;
use crate::machine;
use crate::machine::{
    ColourKind, Fault, Outcome, StepResult, SystemView, STATEMENTS_PER_FRAME,
};
use crate::state;
use crate::state::{State, Step};
use crate::syntax;
use crate::text;

verus! {

impl State {
    /// Execute the statement that the word `head` stands for.
    pub fn execute_command<C: Calculator>(&mut self, head: &str, args: &[char], calc: &C) -> (r:
        StepResult)
        requires
            old(self).wf(),
        ensures
            final(self).wf(),
            calculator::deterministic(*calc) ==> (final(self)@, r) == old(self)@.command(
                head@,
                args@,
                calculator::arithmetic(*calc),
            ),
    {
        proof {
            reveal(SystemView::command);
        }
        if text::same(head, "PRINT") {
            self.cmd_print(args, calc)
        } else if text::same(head, "LET") {
            self.cmd_let(args, calc)
        } else if text::same(head, "GOTO") {
            self.cmd_goto(args, calc)
        } else if text::same(head, "STOP") {
            StepResult::Stop
        } else if text::same(head, "NEW") {
            self.cmd_new()
        } else if text::same(head, "GOSUB") {
            self.cmd_gosub(args, calc)
        } else if text::same(head, "RETURN") {
            self.cmd_return()
        } else if text::same(head, "DEF") {
            self.cmd_def(args)
        } else if text::same(head, "DIM") {
            self.cmd_dim(args, calc)
        } else if text::same(head, "CLS") {
            self.cmd_cls()
        } else if text::same(head, "LIST") {
            self.cmd_list()
        } else if text::same(head, "RUN") {
            self.cmd_run(args, calc)
        } else if text::same(head, "FOR") {
            self.cmd_for(args, calc)
        } else if text::same(head, "NEXT") {
            self.cmd_next(args, calc)
        } else if text::same(head, "INPUT") {
            self.cmd_input(args)
        } else if text::same(head, "INK") {
            self.cmd_set_colour(args, ColourKind::Ink, calc)
        } else if text::same(head, "PAPER") {
            self.cmd_set_colour(args, ColourKind::Paper, calc)
        } else if text::same(head, "BRIGHT") {
            self.cmd_set_colour(args, ColourKind::Bright, calc)
        } else if text::same(head, "FLASH") {
            self.cmd_set_colour(args, ColourKind::Flash, calc)
        } else if text::same(head, "PLOT") {
            self.cmd_plot(args, calc)
        } else if text::same(head, "DRAW") {
            self.cmd_draw(args, calc)
        } else if text::same(head, "CIRCLE") {
            self.cmd_circle(args, calc)
        } else if text::same(head, "BORDER") {
            self.cmd_border(args, calc)
        } else if text::same(head, "BEEP") {
            self.cmd_beep(args, calc)
        } else {
            StepResult::Error(Fault::Nonsense)
        }
    }

    /// Execute one statement.
    pub fn execute_one<C: Calculator>(&mut self, stmt: &[char], calc: &C) -> (r: Step)
        requires
            old(self).wf(),
        ensures
            final(self).wf(),
            r@ matches Outcome::Then(then) ==> 0 < then.len() < stmt@.len(),
            calculator::deterministic(*calc) ==> (final(self)@, r@) == old(self)@.statement(
                stmt@,
                calculator::arithmetic(*calc),
            ),
    {
        proof {
            reveal(SystemView::statement);
        }
        let t = text::trimmed(stmt);
        if t.len() == 0 {
            return Step::Ended(StepResult::Done);
        }
        let (word, args) = syntax::split_first_word(t);
        proof {
            syntax::lemma_at_blank(t@);
        }
        let head = text::upper_string(word);
        if text::same(head.as_str(), "IF") {
            self.cmd_if(args, calc)
        } else {
            Step::Ended(self.execute_command(head.as_str(), args, calc))
        }
    }

    /// Execute the first of the `:`-separated statements `rest`.
    pub fn execute_first<C: Calculator>(&mut self, rest: &[char], calc: &C) -> (r: Step)
        requires
            old(self).wf(),
        ensures
            final(self).wf(),
            r@ matches Outcome::Then(left) ==> 0 < left.len() < rest@.len(),
            calculator::deterministic(*calc) ==> (final(self)@, r@) == old(self)@.stepped(
                rest@,
                calculator::arithmetic(*calc),
            ),
    {
        let n = rest.len();
        let head = syntax::first_word_uppercase(rest);
        let (this, next) = if text::same(head.as_str(), "IF") || text::same(head.as_str(), "DEF") {
            (rest, text::tail(rest, n))
        } else {
            syntax::split_top_level_colon(rest)
        };
        proof {
            assert((this@, next@) == machine::first_statement(rest@));
            syntax::lemma_at_colon(rest@);
            text::lemma_trim_len(next@);
        }
        let r = self.execute_one(this, calc);
        let left = text::without_leading(next);
        match r {
            Step::Ended(StepResult::Done) => {
                if left.len() > 0 {
                    Step::Then(text::copy(left))
                } else {
                    Step::Ended(StepResult::Done)
                }
            },
            other => other,
        }
    }

    /// Execute the `:`-separated statements of a line, up to the first that
    /// does not end well.
    pub fn execute_statement<C: Calculator>(&mut self, line: &[char], calc: &C) -> (r: StepResult)
        requires
            old(self).wf(),
        ensures
            final(self).wf(),
            calculator::deterministic(*calc) ==> (final(self)@, r) == old(self)@.execute(
                line@,
                calculator::arithmetic(*calc),
            ),
    {
        proof {
            reveal(SystemView::execute);
        }
        let ghost start = self@;
        let ghost ar = calculator::arithmetic(*calc);
        let mut rest = text::copy(text::trimmed(line));
        while rest.len() > 0
            invariant
                self.wf(),
                start == old(self)@,
                ar == calculator::arithmetic(*calc),
                calculator::deterministic(*calc) ==> start.execute(line@, ar) == self@.statements(
                    rest@,
                    ar,
                ),
            decreases rest@.len(),
        {
            match self.execute_first(rest.as_slice(), calc) {
                Step::Ended(r) => {
                    return r;
                },
                Step::Then(left) => {
                    rest = left;
                },
            }
        }
        StepResult::Done
    }

    /// The program has stopped.
    pub fn halt(&mut self)
        requires
            old(self).wf(),
        ensures
            final(self).wf(),
            final(self)@ == old(self)@.halted(),
    {
        self.pc = None;
        self.rest = None;
        self.current_line = None;
    }

    /// BREAK has stopped the program and its tones.
    pub fn break_off(&mut self, line: u16)
        requires
            old(self).wf(),
        ensures
            final(self).wf(),
            final(self)@ == old(self)@.broken_off(line),
    {
        self.set_report(13, "BREAK into program", line, 1);
        self.halt();
        self.break_requested = false;
        self.pending_beeps.clear();
        self.beep_frames_remaining = 0;
        self.audio_cancel_requested = true;
    }

    /// Go on to the line `next`; where there is none, the program is at its
    /// end.
    pub fn go_on(&mut self, next: Option<u16>, line: u16)
        requires
            old(self).wf(),
        ensures
            final(self).wf(),
            final(self)@ == old(self)@.onto(next, line),
    {
        self.pc = next;
        self.rest = None;
        if next.is_none() {
            self.set_report(0, "OK", line, 1);
            self.current_line = None;
        }
    }

    /// Bring the program to where it is after a line that ended like this.
    pub fn conclude(&mut self, r: StepResult, line: u16)
        requires
            old(self).wf(),
        ensures
            final(self).wf(),
            final(self)@ == old(self)@.concluded(r, line),
    {
        proof {
            reveal(SystemView::concluded);
        }
        match r {
            StepResult::Done => {
                let next = self.program.next_after(line);
                self.go_on(next, line);
            },
            StepResult::Stop => {
                self.set_report(9, "STOP statement", line, 1);
                self.halt();
            },
            StepResult::Goto(n) => {
                let next = self.program.next_at_or_after(n);
                self.go_on(next, line);
            },
            StepResult::After(n) => {
                let next = self.program.next_after(n);
                self.go_on(next, line);
            },
            StepResult::AwaitInput => {
                self.halt();
            },
            StepResult::Error(f) => {
                self.set_report(1, state::fault_message(f), line, 1);
                self.halt();
            },
        }
    }

    /// Run one statement of the program, of the line `line`.
    pub fn run_statement<C: Calculator>(&mut self, line: u16, calc: &C)
        requires
            old(self).wf(),
        ensures
            final(self).wf(),
            calculator::deterministic(*calc) ==> final(self)@ == old(self)@.statement_run(
                line,
                calculator::arithmetic(*calc),
            ),
    {
        proof {
            reveal(SystemView::statement_run);
        }
        self.last_run_line = line;
        self.current_line = Some(line);
        let mut left: Option<Vec<char>> = None;
        std::mem::swap(&mut left, &mut self.rest);
        let ahead = match left {
            Some(left) => left,
            None => match self.program.get(line) {
                Some(s) => text::copy(text::trimmed(text::chars(s).as_slice())),
                None => Vec::new(),
            },
        };
        proof {
            text::lemma_trim_len(Seq::<char>::empty());
            assert(ahead@ == old(self)@.ahead(line));
        }
        match self.execute_first(ahead.as_slice(), calc) {
            Step::Ended(r) => self.conclude(r, line),
            Step::Then(left) => {
                self.pc = Some(line);
                self.rest = Some(left);
            },
        }
    }

    /// Run the program for one frame, `STATEMENTS_PER_FRAME` statements at most.
    /// BREAK and tones are heeded before every statement.
    pub fn tick_run<C: Calculator>(&mut self, calc: &C)
        requires
            old(self).wf(),
        ensures
            final(self).wf(),
            calculator::deterministic(*calc) || old(self)@.pc is None || old(self)@.break_requested
                || old(self)@.wait > 0 ==> final(self)@ == old(self)@.ticked(
                calculator::arithmetic(*calc),
            ),
    {
        let ghost start = self@;
        let ghost ar = calculator::arithmetic(*calc);
        match self.pc {
            None => {
                self.break_requested = false;
                return;
            },
            Some(line) => {
                if self.beep_frames_remaining > 0 {
                    if self.break_requested {
                        self.break_off(line);
                    }
                    return;
                }
            },
        }
        let mut n: usize = STATEMENTS_PER_FRAME;
        while n > 0
            invariant
                self.wf(),
                ar == calculator::arithmetic(*calc),
                start == old(self)@,
                start.pc is Some,
                start.wait == 0,
                start.break_requested ==> self@ == start && n == STATEMENTS_PER_FRAME,
                calculator::deterministic(*calc) ==> start.ticked(ar) == self@.statements_run(
                    n as nat,
                    ar,
                ),
            decreases n,
        {
            let line = match self.pc {
                Some(line) => line,
                None => return,
            };
            if self.break_requested {
                self.break_off(line);
                return;
            }
            if self.beep_frames_remaining > 0 {
                return;
            }
            self.run_statement(line, calc);
            n -= 1;
        }
    }

    /// One frame of the host's screen has passed.
    pub fn frame<C: Calculator>(&mut self, calc: &C)
        requires
            old(self).wf(),
        ensures
            final(self).wf(),
            calculator::deterministic(*calc) || old(self)@.pc is None || old(self)@.break_requested
                || old(self)@.wait > 1 ==> final(self)@ == old(self)@.frame(
                calculator::arithmetic(*calc),
            ),
    {
        if self.beep_frames_remaining > 0 {
            self.beep_frames_remaining = self.beep_frames_remaining - 1;
        }
        self.tick_run(calc);
        self.redraw_input();
    }
}

} // verus!
