//! What typed keys and lines do.

use vstd::prelude::*;

use crate::calculator;
use crate::calculator::Calculator;
use crate::machine::{Key, StepResult, SystemView, INPUT_LIMIT};
use crate::state;
use crate::state::{PendingInput, State};
use crate::syntax;
use crate::text;
use crate::text::Class;
use crate::value;
use crate::value::Value;

verus! {

impl State {
    /// Store a typed line in the program.
    pub fn store_program_line(&mut self, line: &[char])
        requires
            old(self).wf(),
        ensures
            final(self).wf(),
            final(self)@ == old(self)@.stored(line@),
    {
        proof {
            reveal(SystemView::stored);
            text::lemma_leading_bound(line@, Class::Digit);
        }
        let (digits, rest) = syntax::split_leading_number(line);
        let n = match text::parse_u16(digits) {
            Some(n) => n,
            None => {
                self.show_line("Nonsense in BASIC");
                return;
            },
        };
        let body = text::string(text::without_leading(rest));
        if body.as_str().unicode_len() > 0 {
            let shown = state::numbered_line(n, body.as_str());
            self.show_line(shown.as_str());
        }
        self.program.upsert(n, body);
    }

    /// Obey a typed line: store it where it begins with a digit, else execute
    /// it at once.
    pub fn dispatch_input<C: Calculator>(&mut self, line: &[char], calc: &C)
        requires
            old(self).wf(),
        ensures
            final(self).wf(),
            calculator::deterministic(*calc) ==> final(self)@ == old(self)@.obeyed(
                line@,
                calculator::arithmetic(*calc),
            ),
    {
        proof {
            reveal(SystemView::obeyed);
        }
        let t = text::trimmed(line);
        if t.len() == 0 {
            return;
        }
        if '0' <= t[0] && t[0] <= '9' {
            self.store_program_line(t);
            self.status_line = String::new();
            return;
        }
        match self.execute_statement(t, calc) {
            StepResult::Done => {
                if self.pc.is_some() {
                    self.status_line = String::new();
                } else {
                    self.set_report(0, "OK", 0, 1);
                }
            },
            StepResult::Stop => {
                self.set_report(9, "STOP statement", 0, 1);
            },
            StepResult::Error(f) => {
                self.set_report(1, state::fault_message(f), 0, 1);
            },
            StepResult::Goto(_) | StepResult::After(_) | StepResult::AwaitInput => {
                self.pending_input = None;
                self.set_report(1, "Nonsense in BASIC", 0, 1);
            },
        }
    }

    /// Give a typed line to the `INPUT` that waits for it.
    pub fn resolve_pending_input<C: Calculator>(&mut self, pending: PendingInput, raw: &[char], calc: &C)
        requires
            old(self).wf(),
            syntax::valid_name(pending@.var),
        ensures
            final(self).wf(),
            calculator::deterministic(*calc) ==> final(self)@ == old(self)@.answered(
                pending@,
                raw@,
                calculator::arithmetic(*calc),
            ),
    {
        proof {
            reveal(SystemView::answered);
        }
        let v = if value::is_string_name(pending.var.as_str()) {
            Some(Value::Str(text::string(raw).as_str().as_bytes_vec()))
        } else {
            match self.evaluate_number(raw, calc) {
                Some(n) => Some(Value::Num(n)),
                None => None,
            }
        };
        match v {
            Some(v) => {
                self.vars.insert(pending.var, v);
                self.pc = self.program.next_after(pending.line);
                self.rest = None;
            },
            None => {
                self.show_line("Nonsense in BASIC");
            },
        }
    }

    /// The user is at the keyboard: any report goes away.
    pub fn attend(&mut self)
        requires
            old(self).wf(),
        ensures
            final(self).wf(),
            final(self)@ == old(self)@.attended(),
    {
        self.started_typing = true;
        self.status_line = String::new();
    }

    /// Take a key from the keyboard.
    pub fn feed_key<C: Calculator>(&mut self, key: Key, calc: &C)
        requires
            old(self).wf(),
        ensures
            final(self).wf(),
            calculator::deterministic(*calc) || key != Key::Enter ==> final(self)@ == old(
                self,
            )@.pressed(key, calculator::arithmetic(*calc)),
    {
        match key {
            Key::Char(b) => {
                if 32 <= b && b <= 126 {
                    self.attend();
                    if self.input_line.len() < INPUT_LIMIT {
                        self.input_line.push(b as char);
                    }
                }
            },
            Key::Backspace => {
                self.attend();
                self.input_line.pop();
            },
            Key::Enter => {
                self.attend();
                let mut line: Vec<char> = Vec::new();
                std::mem::swap(&mut line, &mut self.input_line);
                let mut pending: Option<PendingInput> = None;
                std::mem::swap(&mut pending, &mut self.pending_input);
                match pending {
                    Some(p) => self.resolve_pending_input(p, line.as_slice(), calc),
                    None => self.dispatch_input(line.as_slice(), calc),
                }
            },
            Key::Break => {
                self.break_requested = true;
            },
        }
        self.redraw_input();
    }
}

} // verus!
