//! The whole machine behind one owner: keys and frames go in, a screen and
//! tones come out.

use vstd::prelude::*;

use crate::calculator;
use crate::calculator::Calculator;
use crate::display::FRAME_RGBA_LEN;
use crate::machine::{DrawingView, SystemView};
use crate::number::Number;
use crate::program;
use crate::state::State;
use crate::value::{Value, ValueView};

pub use crate::machine::Key;
pub use crate::state::Drawing;

verus! {

/// The machine.
pub struct System {
    state: State,
}

impl View for System {
    type V = SystemView;

    closed spec fn view(&self) -> SystemView {
        self.state@
    }
}

impl System {
    /// Length of an RGBA frame in bytes.
    pub const FRAME_RGBA_LEN: usize = 196608;

    /// The machine is consistent and the lines of the program are in order.
    pub closed spec fn wf(&self) -> bool {
        self.state.wf()
    }

    /// The machine as it is switched on.
    pub fn new() -> (r: Self)
        ensures
            r.wf(),
            r@ == SystemView::booted(),
            r@.consistent(),
    {
        System { state: State::new() }
    }

    /// Take a key from the keyboard.
    pub fn feed_key<C: Calculator>(&mut self, key: Key, calc: &C)
        requires
            old(self).wf(),
        ensures
            final(self).wf(),
            calculator::deterministic(*calc) || key != Key::Enter ==> final(self)@ == old(
                self,
            )@.pressed(key, calculator::arithmetic(*calc)),
            final(self)@.consistent(),
    {
        self.state.feed_key(key, calc);
    }

    /// One frame of the host's screen has passed.
    pub fn frame<C: Calculator>(&mut self, calc: &C)
        requires
            old(self).wf(),
        ensures
            final(self).wf(),
            calculator::deterministic(*calc) || old(self)@.pc is None || old(self)@.break_requested
                || old(self)@.wait > 1 ==> final(self)@ == old(self)@.frame(
                calculator::arithmetic(*calc),
            ),
            final(self)@.consistent(),
    {
        self.state.frame(calc);
    }

    /// Render the screen into an RGBA buffer of `FRAME_RGBA_LEN` bytes.
    pub fn render_into(&self, out: &mut [u8])
        requires
            self.wf(),
            old(out)@.len() == FRAME_RGBA_LEN,
        ensures
            final(out)@ == self@.display.rendered(),
    {
        self.state.display.render_into(out);
    }

    /// Whether a program runs.
    pub fn is_running(&self) -> (r: bool)
        ensures
            r == (self@.pc is Some),
    {
        self.state.pc.is_some()
    }

    /// Whether a program waits for a line to be typed.
    pub fn is_waiting(&self) -> (r: bool)
        ensures
            r == (self@.pending is Some),
    {
        self.state.pending_input.is_some()
    }

    /// The report in the lower screen.
    pub fn status(&self) -> (r: &str)
        ensures
            r@ == self@.status,
    {
        self.state.status_line.as_str()
    }

    /// The value of a variable.
    pub fn variable(&self, name: &str) -> (r: Option<&Value>)
        ensures
            match r {
                Some(v) => self@.vars.contains_key(name@) && self@.vars[name@] == v@,
                None => !self@.vars.contains_key(name@),
            },
    {
        self.state.vars.get(name)
    }

    /// Whether there is no variable.
    pub fn has_no_variables(&self) -> (r: bool)
        ensures
            r == (self@.vars == Map::<Seq<char>, ValueView>::empty()),
    {
        self.state.vars.is_empty()
    }

    /// The elements of an array.
    pub fn array(&self, name: &str) -> (r: Option<&[Number]>)
        ensures
            match r {
                Some(a) => self@.arrays.contains_key(name@) && self@.arrays[name@] == a@,
                None => !self@.arrays.contains_key(name@),
            },
    {
        match self.state.arrays.get(name) {
            Some(a) => Some(a.as_slice()),
            None => None,
        }
    }

    /// The lines of the program in order.
    pub fn lines(&self) -> (r: Vec<(u16, &str)>)
        requires
            self.wf(),
        ensures
            r@.map_values(|l: (u16, &str)| (l.0, l.1@)) == program::lines_from(self@.listing, 0),
    {
        self.state.program.iter()
    }

    /// How many `GOSUB`s have not returned.
    pub fn gosub_depth(&self) -> (r: usize)
        ensures
            r == self@.returns.len(),
    {
        self.state.gosub_stack.len()
    }

    /// Column and row of the print cursor.
    pub fn print_cursor(&self) -> (r: (usize, usize))
        ensures
            r.0 == self@.display.col,
            r.1 == self@.display.row,
    {
        self.state.display.print_cursor()
    }

    /// Whether playing tones are to be cut off; asking answers the request.
    pub fn take_audio_cancel(&mut self) -> (r: bool)
        ensures
            r == old(self)@.audio_cancel,
            final(self)@ == (SystemView { audio_cancel: false, ..old(self)@ }),
            old(self).wf() ==> final(self).wf() && final(self)@.consistent(),
    {
        let r = self.state.audio_cancel_requested;
        self.state.audio_cancel_requested = false;
        r
    }

    /// The tones to be played, as seconds and hertz; they leave the queue.
    pub fn drain_beeps(&mut self) -> (r: Vec<(Number, Number)>)
        ensures
            r@ == old(self)@.beeps,
            final(self)@ == (SystemView { beeps: Seq::empty(), ..old(self)@ }),
            old(self).wf() ==> final(self).wf() && final(self)@.consistent(),
    {
        let mut r: Vec<(Number, Number)> = Vec::new();
        std::mem::swap(&mut r, &mut self.state.pending_beeps);
        r
    }

    /// The work on the screen that is left to the host, in order; it leaves
    /// the queue.
    pub fn drain_drawings(&mut self) -> (r: Vec<Drawing>)
        ensures
            r@.map_values(|d: Drawing| d@) == old(self)@.drawings,
            final(self)@ == (SystemView { drawings: Seq::empty(), ..old(self)@ }),
            old(self).wf() ==> final(self).wf() && final(self)@.consistent(),
    {
        let mut r: Vec<Drawing> = Vec::new();
        std::mem::swap(&mut r, &mut self.state.pending_drawings);
        assert(self@.drawings == Seq::<DrawingView>::empty());
        r
    }

    /// The colour of the border in a palette of the eight colours.
    pub fn border_rgb(&self, palette: &[[u8; 3]; 8]) -> (r: [u8; 3])
        requires
            self.wf(),
        ensures
            r == palette@[self@.border as int],
    {
        palette[self.state.current_border as usize]
    }
}

impl Default for System {
    fn default() -> (r: Self)
        ensures
            r.wf(),
            r@ == SystemView::booted(),
            r@.consistent(),
    {
        System::new()
    }
}

} // verus!
