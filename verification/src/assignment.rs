//! Statements that give names a meaning: `LET`, `DIM`, `DEF FN` and `INPUT`.

use vstd::prelude::*;

use crate::calculator;
use crate::calculator::Calculator;
use crate::machine;
use crate::env::UserFn;
use crate::machine::{Fault, StepResult, SystemView, ARRAY_LIMIT};
use crate::number::Number;
use crate::state::{PendingInput, State};
use crate::syntax;
use crate::text;
use crate::value;

verus! {

/// `n` zeros.
fn zeros(n: usize) -> (r: Vec<Number>)
    ensures
        r@ == Seq::new(n as nat, |i: int| Number { bits: 0 }),
{
    let mut r: Vec<Number> = Vec::new();
    let mut i: usize = 0;
    while i < n
        invariant
            i <= n,
            r@.len() == i,
            forall|j: int| 0 <= j < i ==> #[trigger] r@[j] == (Number { bits: 0 }),
        decreases n - i,
    {
        r.push(Number { bits: 0 });
        i += 1;
    }
    assert(r@ == Seq::new(n as nat, |i: int| Number { bits: 0 }));
    r
}

/// The function and its name that the arguments of `DEF` make.
pub fn parse_definition(args: &[char]) -> (r: Option<(String, UserFn)>)
    ensures
        match r {
            Some((name, f)) => machine::definition(args@) == Some((name@, f@)),
            None => machine::definition(args@) is None,
        },
{
    proof {
        reveal_strlit("FN");
    }
    let t = text::without_leading(args);
    if !text::upper_starts_with(t, "FN") || t.len() == 2 || !text::blank(t[2]) {
        return None;
    }
    let (name, after) = syntax::split_identifier(text::without_leading(text::tail(t, 2)));
    let bracket = text::without_leading(after);
    if name.len() == 0 || bracket.len() == 0 || bracket[0] != '(' {
        return None;
    }
    let inside = text::tail(bracket, 1);
    let n = inside.len();
    let close = match text::find(inside, ')') {
        Some(i) => i,
        None => return None,
    };
    let param = text::upper_string(text::trimmed(text::head(inside, close)));
    let rest = text::without_leading(text::tail(inside, close + 1));
    if !syntax::is_valid_var_name(param.as_str()) || rest.len() == 0 || rest[0] != '=' {
        return None;
    }
    let body = text::trimmed(text::tail(rest, 1));
    if body.len() == 0 {
        return None;
    }
    Some((text::upper_string(name), UserFn { param, body: text::string(body) }))
}

impl State {
    /// Assign to an element of an array. `before` and `inside` are the text
    /// on either side of the opening bracket.
    pub fn let_element<C: Calculator>(
        &mut self,
        before: &[char],
        inside: &[char],
        rhs: &[char],
        calc: &C,
    ) -> (r: StepResult)
        requires
            old(self).wf(),
        ensures
            final(self).wf(),
            calculator::deterministic(*calc) ==> (final(self)@, r) == old(self)@.set_element(
                before@,
                inside@,
                rhs@,
                calculator::arithmetic(*calc),
            ),
    {
        let name = syntax::normalise_var_name(text::trimmed(before));
        if !syntax::is_valid_var_name(name.as_str()) {
            return StepResult::Error(Fault::Nonsense);
        }
        let close = match text::rfind(inside, ')') {
            Some(i) => i,
            None => return StepResult::Error(Fault::Nonsense),
        };
        let (index, value) = match self.evaluate_pair(text::head(inside, close), rhs, calc) {
            Some(p) => p,
            None => return StepResult::Error(Fault::Nonsense),
        };
        let len = match self.arrays.get(name.as_str()) {
            Some(a) => a.len(),
            None => return StepResult::Error(Fault::SubscriptWrong),
        };
        let i = index.to_i64();
        if i < 1 || i as u64 > len as u64 {
            return StepResult::Error(Fault::SubscriptWrong);
        }
        self.arrays.set_element(name.as_str(), i as usize - 1, value);
        StepResult::Done
    }

    /// Assign to a variable.
    pub fn let_variable<C: Calculator>(&mut self, lhs: &[char], rhs: &[char], calc: &C) -> (r:
        StepResult)
        requires
            old(self).wf(),
        ensures
            final(self).wf(),
            calculator::deterministic(*calc) ==> (final(self)@, r) == old(self)@.set_variable(
                lhs@,
                rhs@,
                calculator::arithmetic(*calc),
            ),
    {
        let name = syntax::normalise_var_name(lhs);
        if !syntax::is_valid_var_name(name.as_str()) {
            return StepResult::Error(Fault::Nonsense);
        }
        match self.evaluate(rhs, calc) {
            Some(v) => {
                if v.is_str() != value::is_string_name(name.as_str()) {
                    return StepResult::Error(Fault::Nonsense);
                }
                self.vars.insert(name, v);
                StepResult::Done
            },
            None => StepResult::Error(Fault::Nonsense),
        }
    }

    /// `LET name = value` or `LET name(index) = value`.
    pub fn cmd_let<C: Calculator>(&mut self, args: &[char], calc: &C) -> (r: StepResult)
        requires
            old(self).wf(),
        ensures
            final(self).wf(),
            calculator::deterministic(*calc) ==> (final(self)@, r) == old(self)@.assign(
                args@,
                calculator::arithmetic(*calc),
            ),
    {
        proof {
            reveal(SystemView::assign);
        }
        let n = args.len();
        let i = match syntax::find_top_level_assignment_eq(args) {
            Some(i) => i,
            None => return StepResult::Error(Fault::Nonsense),
        };
        let lhs = text::trimmed(text::head(args, i));
        let rhs = text::tail(args, i + 1);
        match syntax::split_once(lhs, '(') {
            Some((before, inside)) => self.let_element(before, inside, rhs, calc),
            None => self.let_variable(lhs, rhs, calc),
        }
    }

    /// `DIM name(size)`: an array of zeros.
    pub fn cmd_dim<C: Calculator>(&mut self, args: &[char], calc: &C) -> (r: StepResult)
        requires
            old(self).wf(),
        ensures
            final(self).wf(),
            calculator::deterministic(*calc) ==> (final(self)@, r) == old(self)@.dim(
                args@,
                calculator::arithmetic(*calc),
            ),
    {
        proof {
            reveal(SystemView::dim);
        }
        let (before, inside) = match syntax::split_once(text::trimmed(args), '(') {
            Some(p) => p,
            None => return StepResult::Error(Fault::Nonsense),
        };
        let name = syntax::normalise_var_name(text::trimmed(before));
        if !syntax::is_valid_var_name(name.as_str()) || value::is_string_name(name.as_str()) {
            return StepResult::Error(Fault::Nonsense);
        }
        let close = match text::rfind(inside, ')') {
            Some(i) => i,
            None => return StepResult::Error(Fault::Nonsense),
        };
        let n = match self.evaluate_number(text::head(inside, close), calc) {
            Some(x) => x.to_i64(),
            None => return StepResult::Error(Fault::Nonsense),
        };
        if n < 1 || n > ARRAY_LIMIT {
            return StepResult::Error(Fault::SubscriptWrong);
        }
        let a = zeros(n as usize);
        self.arrays.insert(name, a);
        StepResult::Done
    }

    /// `DEF FN name(parameter) = expression`.
    pub fn cmd_def(&mut self, args: &[char]) -> (r: StepResult)
        requires
            old(self).wf(),
        ensures
            final(self).wf(),
            (final(self)@, r) == old(self)@.def(args@),
    {
        proof {
            reveal(SystemView::def);
        }
        match parse_definition(args) {
            Some((name, f)) => {
                self.user_fns.insert(name, f);
                StepResult::Done
            },
            None => StepResult::Error(Fault::Nonsense),
        }
    }

    /// `INPUT name`: wait for a line to be typed.
    pub fn cmd_input(&mut self, args: &[char]) -> (r: StepResult)
        requires
            old(self).wf(),
        ensures
            final(self).wf(),
            (final(self)@, r) == old(self)@.ask(args@),
    {
        proof {
            reveal(SystemView::ask);
        }
        let var = syntax::normalise_var_name(text::trimmed(args));
        if !syntax::is_valid_var_name(var.as_str()) {
            return StepResult::Error(Fault::Nonsense);
        }
        match self.current_line {
            Some(n) => {
                self.pending_input = Some(PendingInput { var, line: n });
                StepResult::AwaitInput
            },
            None => StepResult::Error(Fault::Nonsense),
        }
    }
}

} // verus!
