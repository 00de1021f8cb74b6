//! Statements that decide which line comes next.

use vstd::prelude::*;

use crate::calculator;
use crate::calculator::Calculator;
use crate::machine;
use crate::builtins::SysEnv;
use crate::calculator::Operation;
use crate::expression;
use crate::machine::{Fault, Outcome, StepResult, SystemView, LINE_LIMIT};
use crate::number::Number;
use crate::state::{ForFrame, State, Step};
use crate::syntax;
use crate::text;
use crate::value;
use crate::value::Value;

verus! {

/// The words that `FOR` is split at are in capitals.
proof fn lemma_keywords()
    ensures
        text::uppercase("TO"@) == "TO"@,
        text::uppercase("STEP"@) == "STEP"@,
        text::uppercase("THEN"@) == "THEN"@,
{
    reveal_strlit("TO");
    reveal_strlit("STEP");
    reveal_strlit("THEN");
    assert(text::uppercase("TO"@) == "TO"@);
    assert(text::uppercase("STEP"@) == "STEP"@);
    assert(text::uppercase("THEN"@) == "THEN"@);
}

impl State {
    /// `GOTO line`.
    pub fn cmd_goto<C: Calculator>(&mut self, args: &[char], calc: &C) -> (r: StepResult)
        requires
            old(self).wf(),
        ensures
            final(self).wf(),
            calculator::deterministic(*calc) ==> (final(self)@, r) == old(self)@.goto(
                args@,
                calculator::arithmetic(*calc),
            ),
    {
        proof {
            reveal(SystemView::goto);
        }
        match self.evaluate_number(args, calc) {
            Some(n) => {
                if n.is_within(LINE_LIMIT) {
                    StepResult::Goto(n.to_u16())
                } else {
                    StepResult::Error(Fault::IntegerOutOfRange)
                }
            },
            None => StepResult::Error(Fault::Nonsense),
        }
    }

    /// `NEW`: forget the program and all that belongs to it.
    pub fn cmd_new(&mut self) -> (r: StepResult)
        requires
            old(self).wf(),
        ensures
            final(self).wf(),
            (final(self)@, r) == old(self)@.erased().done(),
    {
        self.program.clear();
        self.user_fns.clear();
        self.rest = None;
        self.refresh();
        StepResult::Done
    }

    /// `RUN` or `RUN line`: get ready to run. The frames do the running.
    pub fn cmd_run<C: Calculator>(&mut self, args: &[char], calc: &C) -> (r: StepResult)
        requires
            old(self).wf(),
        ensures
            final(self).wf(),
            calculator::deterministic(*calc) ==> (final(self)@, r) == old(self)@.run(
                args@,
                calculator::arithmetic(*calc),
            ),
    {
        proof {
            reveal(SystemView::run);
        }
        self.refresh();
        let start = if text::trimmed(args).len() == 0 {
            0
        } else {
            match self.evaluate_number(args, calc) {
                Some(n) => {
                    if !n.is_within(LINE_LIMIT) {
                        return StepResult::Error(Fault::Nonsense);
                    }
                    n.to_u16()
                },
                None => return StepResult::Error(Fault::Nonsense),
            }
        };
        self.pc = self.program.next_at_or_after(start);
        self.rest = None;
        self.break_requested = false;
        StepResult::Done
    }

    /// `FOR name = start TO end` or `FOR name = start TO end STEP step`.
    pub fn cmd_for<C: Calculator>(&mut self, args: &[char], calc: &C) -> (r: StepResult)
        requires
            old(self).wf(),
        ensures
            final(self).wf(),
            calculator::deterministic(*calc) ==> (final(self)@, r) == old(self)@.for_to(
                args@,
                calculator::arithmetic(*calc),
            ),
    {
        proof {
            reveal(SystemView::for_to);
        }
        proof {
            lemma_keywords();
        }
        let (lhs, after) = match syntax::split_once(args, '=') {
            Some(p) => p,
            None => return StepResult::Error(Fault::Nonsense),
        };
        let var = syntax::normalise_var_name(text::trimmed(lhs));
        if !syntax::is_valid_var_name(var.as_str()) || value::is_string_name(var.as_str()) {
            return StepResult::Error(Fault::Nonsense);
        }
        let (start, rest) = match syntax::split_whole_word_ci(after, "TO") {
            Some(p) => p,
            None => return StepResult::Error(Fault::Nonsense),
        };
        let (end, step) = match syntax::split_whole_word_ci(rest, "STEP") {
            Some((end, step)) => (end, Some(step)),
            None => (rest, None),
        };
        let bounds = self.evaluate_pair(start, end, calc);
        let by = match step {
            Some(src) => self.evaluate_number(src, calc),
            None => Some(Number::from_bool(true)),
        };
        match (bounds, by) {
            (Some((from, to)), Some(by)) => {
                if by.equals(Number::from_bool(false)) {
                    return StepResult::Error(Fault::Nonsense);
                }
                self.begin_loop(var, from, to, by);
                StepResult::Done
            },
            _ => StepResult::Error(Fault::Nonsense),
        }
    }

    /// Set the variable of a loop to its start and note the loop.
    pub fn begin_loop(&mut self, var: String, start: Number, end: Number, step: Number)
        requires
            old(self).wf(),
            syntax::valid_name(var@),
            !value::names_string(var@),
            !step.same_value(Number::truth(false)),
        ensures
            final(self).wf(),
            final(self)@ == old(self)@.looped(var@, start, end, step),
    {
        let ghost before = self@;
        let return_line = self.here();
        self.vars.insert(String::from_str(var.as_str()), Value::Num(start));
        let frame = ForFrame { var, end, step, return_line };
        self.for_stack.push(frame);
        assert(self@.loops == before.loops.push(frame@));
    }

    /// The last loop with the variable `var`.
    pub fn find_loop(&self, var: &str) -> (r: Option<usize>)
        ensures
            match r {
                Some(i) => machine::loop_index(self@.loops, var@) == Some(i as int) && i
                    < self@.loops.len(),
                None => machine::loop_index(self@.loops, var@) is None,
            },
    {
        let mut n = self.for_stack.len();
        let ghost loops = self@.loops;
        assert(loops.take(n as int) == loops);
        while n > 0
            invariant
                n <= self.for_stack@.len(),
                loops == self@.loops,
                loops == self.for_stack@.map_values(|f: ForFrame| f@),
                machine::loop_index(loops, var@) == machine::loop_index(loops.take(n as int), var@),
            decreases n,
        {
            proof {
                assert(loops.take(n as int).last() == self.for_stack@[n - 1]@);
                assert(loops.take(n as int).drop_last() == loops.take(n - 1));
            }
            if text::same(self.for_stack[n - 1].var.as_str(), var) {
                return Some(n - 1);
            }
            n -= 1;
        }
        None
    }

    /// `NEXT` or `NEXT name`.
    pub fn cmd_next<C: Calculator>(&mut self, args: &[char], calc: &C) -> (r: StepResult)
        requires
            old(self).wf(),
        ensures
            final(self).wf(),
            calculator::deterministic(*calc) ==> (final(self)@, r) == old(self)@.next(
                args@,
                calculator::arithmetic(*calc),
            ),
    {
        proof {
            reveal(SystemView::next);
        }
        let ghost before = self@;
        let want = syntax::normalise_var_name(text::trimmed(args));
        let found = if want.as_str().unicode_len() > 0 {
            self.find_loop(want.as_str())
        } else if self.for_stack.len() > 0 {
            Some(self.for_stack.len() - 1)
        } else {
            None
        };
        let i = match found {
            Some(i) => i,
            None => return StepResult::Error(Fault::NextWithoutFor),
        };
        assert(before.loops[i as int] == self.for_stack@[i as int]@);
        let var = String::from_str(self.for_stack[i].var.as_str());
        let end = self.for_stack[i].end;
        let step = self.for_stack[i].step;
        let return_line = self.for_stack[i].return_line;
        let current = match self.vars.get(var.as_str()) {
            Some(Value::Num(n)) => *n,
            _ => return StepResult::Error(Fault::Nonsense),
        };
        let n = calculator::operate(calc, Operation::Add, current, step);
        self.vars.insert(var, Value::Num(n));
        let zero = Number::from_bool(false);
        if (zero.less(step) && end.less(n)) || (step.less(zero) && n.less(end)) {
            self.for_stack.truncate(i);
            assert(self@.loops == before.loops.take(i as int));
            StepResult::Done
        } else {
            StepResult::After(return_line)
        }
    }

    /// `GOSUB line`.
    pub fn cmd_gosub<C: Calculator>(&mut self, args: &[char], calc: &C) -> (r: StepResult)
        requires
            old(self).wf(),
        ensures
            final(self).wf(),
            match r {
                StepResult::Goto(_) => final(self)@.returns == old(self)@.returns.push(
                    old(self)@.here(),
                ),
                StepResult::Error(f) => f == Fault::Nonsense && final(self)@.returns == old(
                    self,
                )@.returns,
                _ => false,
            },
            calculator::deterministic(*calc) ==> (final(self)@, r) == old(self)@.gosub(
                args@,
                calculator::arithmetic(*calc),
            ),
    {
        proof {
            reveal(SystemView::gosub);
        }
        match self.evaluate_number(args, calc) {
            Some(n) => {
                if !n.is_within(LINE_LIMIT) {
                    return StepResult::Error(Fault::Nonsense);
                }
                let caller = self.here();
                self.gosub_stack.push(caller);
                StepResult::Goto(n.to_u16())
            },
            None => StepResult::Error(Fault::Nonsense),
        }
    }

    /// `RETURN`.
    pub fn cmd_return(&mut self) -> (r: StepResult)
        requires
            old(self).wf(),
        ensures
            final(self).wf(),
            (final(self)@, r) == old(self)@.go_back(),
    {
        proof {
            reveal(SystemView::go_back);
        }
        match self.gosub_stack.pop() {
            Some(caller) => StepResult::After(caller),
            None => StepResult::Error(Fault::ReturnWithoutGosub),
        }
    }

    /// The value of the condition of `IF` and the text behind `THEN`.
    pub fn evaluate_condition<C: Calculator>(&mut self, args: &[char], calc: &C) -> (r: Option<
        (Number, Vec<char>),
    >)
        requires
            old(self).wf(),
        ensures
            final(self).wf(),
            r matches Some((n, rest)) ==> rest@.len() < args@.len(),
            calculator::deterministic(*calc) ==> ({
                let (c, s) = old(self)@.condition(args@, calculator::arithmetic(*calc));
                &&& final(self)@ == s
                &&& match r {
                    Some((n, rest)) => c == Some((n, rest@)),
                    None => c is None,
                }
            }),
    {
        proof {
            reveal(SystemView::condition);
            lemma_keywords();
            reveal_strlit("THEN");
            syntax::lemma_at_word(args@, "THEN"@);
        }
        let src = text::string(args);
        let env = SysEnv {
            vars: &self.vars,
            arrays: &self.arrays,
            user_fns: &self.user_fns,
            calc,
        };
        let mut seed = self.prng;
        let r = expression::evaluate_until_keyword(src.as_str(), "THEN", &env, calc, &mut seed);
        self.prng = seed;
        match r {
            Ok((Value::Num(n), rest)) => Some((n, text::chars(rest))),
            _ => None,
        }
    }

    /// `IF condition THEN statements`.
    pub fn cmd_if<C: Calculator>(&mut self, args: &[char], calc: &C) -> (r: Step)
        requires
            old(self).wf(),
        ensures
            final(self).wf(),
            r@ matches Outcome::Then(then) ==> 0 < then.len() < args@.len(),
            calculator::deterministic(*calc) ==> (final(self)@, r@) == old(self)@.conditional(
                args@,
                calculator::arithmetic(*calc),
            ),
    {
        proof {
            reveal(SystemView::conditional);
        }
        let (condition, rest) = match self.evaluate_condition(args, calc) {
            Some(p) => p,
            None => return Step::Ended(StepResult::Error(Fault::Nonsense)),
        };
        if condition.equals(Number::from_bool(false)) {
            return Step::Ended(StepResult::Done);
        }
        let then = text::trimmed(rest.as_slice());
        if then.len() == 0 {
            return Step::Ended(StepResult::Error(Fault::Nonsense));
        }
        Step::Then(text::copy(then))
    }
}

} // verus!
