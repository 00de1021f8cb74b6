//! The machine as a browser drives it: one call a frame, one call a key.

use vstd::prelude::*;

use crate::calculator;
use crate::calculator::Calculator;
use crate::display::{FRAME_RGBA_LEN, PIXEL_H, PIXEL_W};
use crate::machine::SystemView;
use crate::system;
use crate::system::Key;

verus! {

/// A machine with its calculator and its frame buffer.
pub struct System<C: Calculator> {
    inner: system::System,
    frame_buf: Vec<u8>,
    calc: C,
}

impl<C: Calculator> View for System<C> {
    type V = SystemView;

    closed spec fn view(&self) -> SystemView {
        self.inner@
    }
}

impl<C: Calculator> System<C> {
    /// The machine is in order and the frame buffer has its size.
    pub closed spec fn wf(&self) -> bool {
        self.inner.wf() && self.frame_buf@.len() == FRAME_RGBA_LEN
    }

    /// The calculator of the machine.
    pub closed spec fn calculator(&self) -> C {
        self.calc
    }

    /// A machine as it is switched on, with an empty frame.
    pub fn new(calc: C) -> (r: Self)
        ensures
            r.wf(),
            r@ == SystemView::booted(),
            r@.consistent(),
            r.calculator() == calc,
    {
        System { inner: system::System::new(), frame_buf: vec![0; FRAME_RGBA_LEN], calc }
    }

    /// Width in pixels of the frames that `render` returns.
    pub fn pixel_w(&self) -> (r: usize)
        ensures
            r == PIXEL_W,
    {
        PIXEL_W
    }

    /// Height in pixels of the frames that `render` returns.
    pub fn pixel_h(&self) -> (r: usize)
        ensures
            r == PIXEL_H,
    {
        PIXEL_H
    }

    /// Let one frame pass and return it as RGBA bytes.
    pub fn render(&mut self) -> (r: Vec<u8>)
        requires
            old(self).wf(),
        ensures
            final(self).wf(),
            final(self)@.consistent(),
            final(self).calculator() == old(self).calculator(),
            r@ == final(self)@.display.rendered(),
            calculator::deterministic(old(self).calculator()) || old(self)@.pc is None || old(
                self,
            )@.break_requested || old(self)@.wait > 1 ==> final(self)@ == old(self)@.frame(
                calculator::arithmetic(old(self).calculator()),
            ),
    {
        self.inner.frame(&self.calc);
        self.inner.render_into(self.frame_buf.as_mut_slice());
        self.frame_buf.clone()
    }

    /// Feed a printable ASCII byte. Other bytes are ignored.
    pub fn feed_char(&mut self, b: u8)
        requires
            old(self).wf(),
        ensures
            final(self).wf(),
            final(self)@.consistent(),
            final(self).calculator() == old(self).calculator(),
            final(self)@ == old(self)@.pressed(
                Key::Char(b),
                calculator::arithmetic(old(self).calculator()),
            ),
    {
        self.inner.feed_key(Key::Char(b), &self.calc);
    }

    /// Feed the Enter key.
    pub fn feed_enter(&mut self)
        requires
            old(self).wf(),
        ensures
            final(self).wf(),
            final(self)@.consistent(),
            final(self).calculator() == old(self).calculator(),
            calculator::deterministic(old(self).calculator()) ==> final(self)@ == old(
                self,
            )@.pressed(Key::Enter, calculator::arithmetic(old(self).calculator())),
    {
        self.inner.feed_key(Key::Enter, &self.calc);
    }

    /// Feed the Backspace key.
    pub fn feed_backspace(&mut self)
        requires
            old(self).wf(),
        ensures
            final(self).wf(),
            final(self)@.consistent(),
            final(self).calculator() == old(self).calculator(),
            final(self)@ == old(self)@.pressed(
                Key::Backspace,
                calculator::arithmetic(old(self).calculator()),
            ),
    {
        self.inner.feed_key(Key::Backspace, &self.calc);
    }
}

} // verus!
