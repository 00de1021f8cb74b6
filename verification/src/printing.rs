//! Statements that print: `PRINT`, `LIST` and `CLS`.

use vstd::prelude::*;

use crate::calculator;
use crate::calculator::Calculator;
use crate::machine;
use crate::display::{Display, CHAR_W};
use crate::machine::{Fault, Item, StepResult, SystemView};
use crate::state;
use crate::state::{Drawing, State};
use crate::syntax;
use crate::text;

verus! {

/// Whether what follows the first `k` characters is set off from them.
fn set_off(s: &[char], k: usize) -> (r: bool)
    ensures
        r == machine::set_off(s@, k as int),
{
    k < s.len() && (text::blank(s[k]) || s[k] == '(')
}

/// Print lines of a program with their numbers.
fn list_lines(display: &mut Display, lines: &Vec<(u16, &str)>)
    requires
        old(display)@.wf(),
    ensures
        final(display)@.wf(),
        final(display)@ == machine::listed(
            old(display)@,
            lines@.map_values(|l: (u16, &str)| (l.0, l.1@)),
        ),
{
    let ghost start = display@;
    let ghost all = lines@.map_values(|l: (u16, &str)| (l.0, l.1@));
    let mut i: usize = 0;
    while i < lines.len()
        invariant
            display@.wf(),
            i <= lines@.len(),
            all == lines@.map_values(|l: (u16, &str)| (l.0, l.1@)),
            display@ == machine::listed(start, all.take(i as int)),
        decreases lines@.len() - i,
    {
        let (n, body) = lines[i];
        let line = state::numbered_line(n, body);
        display.println(line.as_str());
        i += 1;
        proof {
            assert(all.take(i as int).drop_last() == all.take(i - 1));
            assert(all.take(i as int).last() == (n, body@));
        }
    }
    assert(all.take(all.len() as int) == all);
}

impl State {
    /// Print the value of `src`, where there is one.
    pub fn print_value_item<C: Calculator>(&mut self, src: &[char], calc: &C) -> (r: bool)
        requires
            old(self).wf(),
        ensures
            final(self).wf(),
            calculator::deterministic(*calc) ==> (r, final(self)@) == old(self)@.value_shown(
                src@,
                calculator::arithmetic(*calc),
            ),
    {
        match self.evaluate(src, calc) {
            Some(v) => {
                let s = state::format_value(&v, calc);
                self.show(s.as_str());
                true
            },
            None => false,
        }
    }

    /// Move the cursor on to a column by blanks.
    pub fn tab(&mut self, col: usize)
        requires
            old(self).wf(),
        ensures
            final(self).wf(),
            final(self)@ == old(self)@.tabbed(col as int),
    {
        let (current, _) = self.display.print_cursor();
        if col >= current {
            let pad = state::blanks(col - current);
            self.show(pad.as_str());
        } else {
            self.show("\n");
            let pad = state::blanks(col);
            self.show(pad.as_str());
        }
    }

    /// Print one item.
    pub fn print_item<C: Calculator>(&mut self, item: &[char], calc: &C) -> (r: Item)
        requires
            old(self).wf(),
        ensures
            final(self).wf(),
            calculator::deterministic(*calc) ==> (r, final(self)@) == old(self)@.print_item(
                item@,
                calculator::arithmetic(*calc),
            ),
    {
        proof {
            reveal_strlit("AT");
            reveal_strlit("TAB");
        }
        if text::upper_starts_with(item, "AT") && set_off(item, 2) {
            match syntax::split_once(text::tail(item, 2), ',') {
                None => Item::End(StepResult::Error(Fault::Nonsense)),
                Some((row, col)) => match self.evaluate_pair(row, col, calc) {
                    Some((r, c)) => {
                        self.display.set_print_cursor(c.to_usize(), r.to_usize());
                        Item::Placed
                    },
                    None => Item::End(StepResult::Error(Fault::Nonsense)),
                },
            }
        } else if text::upper_starts_with(item, "TAB") && set_off(item, 3) {
            match self.evaluate_number(text::tail(item, 3), calc) {
                Some(n) => {
                    let col = n.to_usize() % CHAR_W;
                    self.tab(col);
                    Item::Placed
                },
                None => Item::End(StepResult::Error(Fault::Nonsense)),
            }
        } else if self.print_value_item(item, calc) {
            Item::Value
        } else {
            Item::End(StepResult::Error(Fault::Nonsense))
        }
    }

    /// Print items up to the first that ends the statement: how it ended it,
    /// or whether a value was printed.
    pub fn print_items<C: Calculator>(&mut self, items: &Vec<&[char]>, calc: &C) -> (r: Result<
        bool,
        StepResult,
    >)
        requires
            old(self).wf(),
        ensures
            final(self).wf(),
            calculator::deterministic(*calc) ==> (r, final(self)@) == old(self)@.print_items(
                items@.map_values(|x: &[char]| x@),
                0,
                false,
                calculator::arithmetic(*calc),
            ),
    {
        let ghost start = self@;
        let ghost ar = calculator::arithmetic(*calc);
        let ghost all = items@.map_values(|x: &[char]| x@);
        let mut printed = false;
        let mut i: usize = 0;
        while i < items.len()
            invariant
                self.wf(),
                i <= items@.len(),
                ar == calculator::arithmetic(*calc),
                all == items@.map_values(|x: &[char]| x@),
                start == old(self)@,
                calculator::deterministic(*calc) ==> start.print_items(all, 0, false, ar)
                    == self@.print_items(all, i as int, printed, ar),
            decreases items@.len() - i,
        {
            let item = text::trimmed(items[i]);
            assert(all[i as int] == items@[i as int]@);
            if item.len() > 0 {
                match self.print_item(item, calc) {
                    Item::Value => {
                        printed = true;
                    },
                    Item::Placed => {},
                    Item::End(r) => {
                        return Err(r);
                    },
                }
            }
            i += 1;
        }
        Ok(printed)
    }

    /// `PRINT`: items between semicolons, `AT row, col` and `TAB col` among them.
    pub fn cmd_print<C: Calculator>(&mut self, args: &[char], calc: &C) -> (r: StepResult)
        requires
            old(self).wf(),
        ensures
            final(self).wf(),
            calculator::deterministic(*calc) ==> (final(self)@, r) == old(self)@.print(
                args@,
                calculator::arithmetic(*calc),
            ),
    {
        proof {
            reveal(SystemView::print);
        }
        if text::trimmed(args).len() == 0 {
            self.show("\n");
            return StepResult::Done;
        }
        let items = syntax::split_print_items(args);
        let printed = match self.print_items(&items, calc) {
            Ok(printed) => printed,
            Err(r) => return r,
        };
        let end = text::without_trailing(args);
        proof {
            text::lemma_trimmed_end(args@);
        }
        let last = end[end.len() - 1];
        if printed && last != ';' && last != ',' {
            self.show("\n");
        }
        StepResult::Done
    }

    /// `LIST`: the lines of the program with their numbers.
    pub fn cmd_list(&mut self) -> (r: StepResult)
        requires
            old(self).wf(),
        ensures
            final(self).wf(),
            (final(self)@, r) == old(self)@.list(),
    {
        proof {
            reveal(SystemView::list);
        }
        let lines = self.program.iter();
        list_lines(&mut self.display, &lines);
        StepResult::Done
    }

    /// `CLS`: clear the screen.
    pub fn cmd_cls(&mut self) -> (r: StepResult)
        requires
            old(self).wf(),
        ensures
            final(self).wf(),
            (final(self)@, r) == old(self)@.cls().done(),
    {
        let attr = self.current_attr();
        self.display.clear();
        self.draw(Drawing::Clear { attr });
        StepResult::Done
    }
}

} // verus!
