//! Statements for colours, graphics and sound.

use vstd::prelude::*;

use crate::calculator;
use crate::calculator::Calculator;
use crate::calculator::Operation;
use crate::machine::{
    ColourKind, Fault, StepResult, SystemView, BEEP_LIMIT, CONCERT_PITCH, CONCERT_SEMITONE, FRAMES,
    OCTAVE, SEMITONES,
};
use crate::number::Number;
use crate::state;
use crate::state::{Drawing, State};
use crate::syntax;

verus! {

impl State {
    /// `INK`, `PAPER`, `BRIGHT` and `FLASH`.
    pub fn cmd_set_colour<C: Calculator>(&mut self, args: &[char], kind: ColourKind, calc: &C) -> (r:
        StepResult)
        requires
            old(self).wf(),
        ensures
            final(self).wf(),
            calculator::deterministic(*calc) ==> (final(self)@, r) == old(self)@.colour(
                args@,
                kind,
                calculator::arithmetic(*calc),
            ),
    {
        proof {
            reveal(SystemView::colour);
        }
        let n = match self.evaluate_number(args, calc) {
            Some(x) => x.to_i32(),
            None => return StepResult::Error(Fault::Nonsense),
        };
        let high = match kind {
            ColourKind::Ink | ColourKind::Paper => 7,
            ColourKind::Bright | ColourKind::Flash => 1,
        };
        if n < 0 || n > high {
            return StepResult::Error(Fault::IntegerOutOfRange);
        }
        match kind {
            ColourKind::Ink => self.current_ink = n as u8,
            ColourKind::Paper => self.current_paper = n as u8,
            ColourKind::Bright => self.current_bright = n == 1,
            ColourKind::Flash => self.current_flash = n == 1,
        }
        StepResult::Done
    }

    /// `BORDER colour`. The lower screen takes the colour too, with an ink that
    /// shows on it.
    pub fn cmd_border<C: Calculator>(&mut self, args: &[char], calc: &C) -> (r: StepResult)
        requires
            old(self).wf(),
        ensures
            final(self).wf(),
            calculator::deterministic(*calc) ==> (final(self)@, r) == old(self)@.border(
                args@,
                calculator::arithmetic(*calc),
            ),
    {
        proof {
            reveal(SystemView::border);
        }
        let n = match self.evaluate_number(args, calc) {
            Some(x) => x.to_i32(),
            None => return StepResult::Error(Fault::Nonsense),
        };
        if n < 0 || n > 7 {
            return StepResult::Error(Fault::IntegerOutOfRange);
        }
        self.current_border = n as u8;
        let ink = if n >= 4 {
            0
        } else {
            7
        };
        let attr = state::make_attr(ink, n as u8, false, false);
        self.draw(Drawing::Lower { attr });
        StepResult::Done
    }

    /// `BEEP seconds, semitones`, counted from middle C.
    pub fn cmd_beep<C: Calculator>(&mut self, args: &[char], calc: &C) -> (r: StepResult)
        requires
            old(self).wf(),
        ensures
            final(self).wf(),
            calculator::deterministic(*calc) ==> (final(self)@, r) == old(self)@.beep(
                args@,
                calculator::arithmetic(*calc),
            ),
    {
        proof {
            reveal(SystemView::beep);
        }
        let (duration, pitch) = match syntax::split_once(args, ',') {
            Some(p) => p,
            None => return StepResult::Error(Fault::Nonsense),
        };
        let (d, p) = match self.evaluate_pair(duration, pitch, calc) {
            Some(p) => p,
            None => return StepResult::Error(Fault::Nonsense),
        };
        if !d.is_within(BEEP_LIMIT) {
            return StepResult::Error(Fault::IntegerOutOfRange);
        }
        let above = calculator::operate(
            calc,
            Operation::Subtract,
            p,
            Number { bits: CONCERT_SEMITONE },
        );
        let octaves = calculator::operate(
            calc,
            Operation::Divide,
            above,
            Number { bits: SEMITONES },
        );
        let ratio = calculator::operate(calc, Operation::Power, Number { bits: OCTAVE }, octaves);
        let frequency = calculator::operate(
            calc,
            Operation::Multiply,
            Number { bits: CONCERT_PITCH },
            ratio,
        );
        self.pending_beeps.push((d, frequency));
        let length = calculator::operate(calc, Operation::Multiply, d, Number { bits: FRAMES });
        let frames = length.ceil().to_u32();
        let wait = self.beep_frames_remaining as u64 + frames as u64 + 1;
        self.beep_frames_remaining = if wait <= 0xffff_ffff {
            wait as u32
        } else {
            u32::MAX
        };
        StepResult::Done
    }

    /// `PLOT x, y`: a point, and the pen there.
    pub fn cmd_plot<C: Calculator>(&mut self, args: &[char], calc: &C) -> (r: StepResult)
        requires
            old(self).wf(),
        ensures
            final(self).wf(),
            calculator::deterministic(*calc) ==> (final(self)@, r) == old(self)@.plot(
                args@,
                calculator::arithmetic(*calc),
            ),
    {
        proof {
            reveal(SystemView::plot);
        }
        let (a, b) = match syntax::split_once(args, ',') {
            Some(p) => p,
            None => return StepResult::Error(Fault::Nonsense),
        };
        match self.evaluate_pair(a, b, calc) {
            Some((x, y)) => {
                let x = x.to_i32();
                let y = y.to_i32();
                let attr = self.current_attr();
                self.draw(Drawing::Plot { x, y, attr });
                self.pen_x = x;
                self.pen_y = y;
                StepResult::Done
            },
            None => StepResult::Error(Fault::Nonsense),
        }
    }

    /// `DRAW dx, dy`: a line from the pen, and the pen at its end.
    pub fn cmd_draw<C: Calculator>(&mut self, args: &[char], calc: &C) -> (r: StepResult)
        requires
            old(self).wf(),
        ensures
            final(self).wf(),
            calculator::deterministic(*calc) ==> (final(self)@, r) == old(self)@.draw(
                args@,
                calculator::arithmetic(*calc),
            ),
    {
        proof {
            reveal(SystemView::draw);
        }
        let (a, b) = match syntax::split_once(args, ',') {
            Some(p) => p,
            None => return StepResult::Error(Fault::Nonsense),
        };
        match self.evaluate_pair(a, b, calc) {
            Some((dx, dy)) => {
                let x1 = self.pen_x as i64 + dx.to_i32() as i64;
                let y1 = self.pen_y as i64 + dy.to_i32() as i64;
                if x1 < i32::MIN as i64 || x1 > i32::MAX as i64 || y1 < i32::MIN as i64 || y1
                    > i32::MAX as i64 {
                    return StepResult::Error(Fault::IntegerOutOfRange);
                }
                let attr = self.current_attr();
                let (x0, y0) = (self.pen_x, self.pen_y);
                let (x1, y1) = (x1 as i32, y1 as i32);
                self.draw(Drawing::Line { x0, y0, x1, y1, attr });
                self.pen_x = x1;
                self.pen_y = y1;
                StepResult::Done
            },
            None => StepResult::Error(Fault::Nonsense),
        }
    }

    /// `CIRCLE x, y, r`: a circle, and the pen at its centre.
    pub fn cmd_circle<C: Calculator>(&mut self, args: &[char], calc: &C) -> (r: StepResult)
        requires
            old(self).wf(),
        ensures
            final(self).wf(),
            calculator::deterministic(*calc) ==> (final(self)@, r) == old(self)@.circle(
                args@,
                calculator::arithmetic(*calc),
            ),
    {
        proof {
            reveal(SystemView::circle);
        }
        let (a, rest) = match syntax::split_once(args, ',') {
            Some(p) => p,
            None => return StepResult::Error(Fault::Nonsense),
        };
        let (b, c) = match syntax::split_once(rest, ',') {
            Some(p) => p,
            None => return StepResult::Error(Fault::Nonsense),
        };
        let centre = self.evaluate_pair(a, b, calc);
        let radius = self.evaluate_number(c, calc);
        match (centre, radius) {
            (Some((x, y)), Some(r)) => {
                let x = x.to_i32();
                let y = y.to_i32();
                let attr = self.current_attr();
                self.draw(Drawing::Circle { x, y, r: r.to_i32(), attr });
                self.pen_x = x;
                self.pen_y = y;
                StepResult::Done
            },
            _ => StepResult::Error(Fault::Nonsense),
        }
    }
}

} // verus!
