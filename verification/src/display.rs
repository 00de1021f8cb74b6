//! The Spectrum screen: a 256x192 pixel grid and its rendering as RGBA.
//!
//! Characters are 8x8 glyphs on a grid of 32 by 24 cells. The rows down to
//! `PRINT_BOTTOM` are the print area, which scrolls; `INPUT_ROW`, at the foot
//! of the screen, holds the line that is being typed.

use vstd::prelude::*;

use crate::charset::{FONT, FONT_FIRST_CHAR, FONT_GLYPH_COUNT};
use crate::text;

verus! {

/// Width of the screen in pixels.
pub const PIXEL_W: usize = 256;

/// Height of the screen in pixels.
pub const PIXEL_H: usize = 192;

/// Width of a character cell in pixels.
pub const CELL_W: usize = 8;

/// Height of a character cell in pixels.
pub const CELL_H: usize = 8;

/// Width of the screen in character cells.
pub const CHAR_W: usize = 32;

/// Height of the screen in character cells.
pub const CHAR_H: usize = 24;

/// Width of the attribute grid in cells.
pub const ATTR_W: usize = CHAR_W;

/// Height of the attribute grid in cells.
pub const ATTR_H: usize = CHAR_H;

/// The row of the line that is being typed.
pub const INPUT_ROW: usize = 23;

/// Bottom row of the print area.
pub const PRINT_BOTTOM: usize = 21;

/// Length of an RGBA frame in bytes.
pub const FRAME_RGBA_LEN: usize = 196608;

/// Bytes in a row of pixels.
const STRIDE_BYTES: usize = 32;

/// Bytes in a row of character cells.
const ROW_BYTES: usize = 256;

/// 24-bit RGB colour.
#[derive(Clone, Copy, Debug, PartialEq, Eq, Structural)]
pub struct Rgb(pub u8, pub u8, pub u8);

/// A monochrome pixel grid with a print cursor.
pub struct Display {
    bits: [u8; 6144],
    ink: Rgb,
    paper: Rgb,
    /// Column and row of the print cursor, always inside the print area.
    print_cursor: (usize, usize),
}

/// What a `Display` stands for.
#[verifier::ext_equal]
pub struct DisplayView {
    /// The pixels, eight to a byte, row by row from the top left.
    pub bits: Seq<u8>,
    pub ink: Rgb,
    pub paper: Rgb,
    pub col: int,
    pub row: int,
}

/// The pixel rows of the glyph for `c`; a blank where the font has none.
pub open spec fn glyph(c: char) -> Seq<u8> {
    if FONT_FIRST_CHAR <= c as u32 && (c as u32) < FONT_FIRST_CHAR + FONT_GLYPH_COUNT {
        FONT@[c as u32 - FONT_FIRST_CHAR]@
    } else {
        FONT@[0]@
    }
}

/// The column of the cell that byte `k` of the screen lies in.
pub open spec fn col_of(k: int) -> int {
    k % 32
}

/// The row of the cell that byte `k` of the screen lies in.
pub open spec fn row_of(k: int) -> int {
    k / 256
}

/// Which row of its cell byte `k` of the screen is.
pub open spec fn line_of(k: int) -> int {
    (k / 32) % 8
}

/// The pixels with `c` drawn in a cell.
pub open spec fn with_char(bits: Seq<u8>, col: int, row: int, c: char) -> Seq<u8> {
    Seq::new(
        bits.len(),
        |k: int|
            if col_of(k) == col && row_of(k) == row {
                glyph(c)[line_of(k)]
            } else {
                bits[k]
            },
    )
}

/// The pixels with `s` drawn along a row, cut off at the right edge.
pub open spec fn with_text(bits: Seq<u8>, col: int, row: int, s: Seq<char>) -> Seq<u8> {
    Seq::new(
        bits.len(),
        |k: int|
            if row_of(k) == row && col <= col_of(k) < col + s.len() {
                glyph(s[col_of(k) - col])[line_of(k)]
            } else {
                bits[k]
            },
    )
}

/// The pixels with a row blank.
pub open spec fn with_blank_row(bits: Seq<u8>, row: int) -> Seq<u8> {
    Seq::new(
        bits.len(),
        |k: int|
            if row_of(k) == row {
                0
            } else {
                bits[k]
            },
    )
}

/// The pixels with the print area one row further up and its last row blank.
pub open spec fn scrolled(bits: Seq<u8>) -> Seq<u8> {
    Seq::new(
        bits.len(),
        |k: int|
            if row_of(k) < PRINT_BOTTOM {
                bits[k + 256]
            } else if row_of(k) == PRINT_BOTTOM {
                0
            } else {
                bits[k]
            },
    )
}

/// Whether pixel `p` is set, counting from the top left along the rows.
pub open spec fn lit(bits: Seq<u8>, p: int) -> bool {
    (bits[p / 8] >> ((7 - p % 8) as u8)) & 1 == 1
}

/// Channel `n` of a colour: red, green, blue and full opacity.
pub open spec fn channel(colour: Rgb, n: int) -> u8 {
    if n == 0 {
        colour.0
    } else if n == 1 {
        colour.1
    } else if n == 2 {
        colour.2
    } else {
        0xff
    }
}

impl DisplayView {
    /// A blank screen, black on white, with the cursor at the top left.
    pub open spec fn blank() -> DisplayView {
        DisplayView {
            bits: Seq::new(6144, |k: int| 0u8),
            ink: Rgb(0, 0, 0),
            paper: Rgb(0xff, 0xff, 0xff),
            col: 0,
            row: 0,
        }
    }

    /// Without a pixel set, cursor at the top left.
    pub open spec fn cleared(self) -> DisplayView {
        DisplayView { bits: Seq::new(6144, |k: int| 0u8), col: 0, row: 0, ..self }
    }

    /// With `c` in a cell; unchanged outside the screen.
    pub open spec fn put(self, col: int, row: int, c: char) -> DisplayView {
        if col < CHAR_W && row < CHAR_H {
            DisplayView { bits: with_char(self.bits, col, row, c), ..self }
        } else {
            self
        }
    }

    /// With `s` along a row; unchanged outside the screen.
    pub open spec fn put_text(self, col: int, row: int, s: Seq<char>) -> DisplayView {
        if row < CHAR_H {
            DisplayView { bits: with_text(self.bits, col, row, s), ..self }
        } else {
            self
        }
    }

    /// With a row blank.
    pub open spec fn blanked(self, row: int) -> DisplayView {
        DisplayView { bits: with_blank_row(self.bits, row), ..self }
    }

    /// With the cursor at a cell, or the nearest cell of the print area.
    pub open spec fn moved(self, col: int, row: int) -> DisplayView {
        DisplayView {
            col: if col < CHAR_W {
                col
            } else {
                CHAR_W - 1
            },
            row: if row < PRINT_BOTTOM {
                row
            } else {
                PRINT_BOTTOM as int
            },
            ..self
        }
    }

    /// With the cursor at the start of the next row, scrolled if there is none.
    pub open spec fn newline(self) -> DisplayView {
        if self.row < PRINT_BOTTOM {
            DisplayView { col: 0, row: self.row + 1, ..self }
        } else {
            DisplayView { bits: scrolled(self.bits), col: 0, ..self }
        }
    }

    /// With one character printed at the cursor.
    pub open spec fn typed(self, c: char) -> DisplayView {
        if c == '\n' {
            self.newline()
        } else {
            let after = DisplayView {
                bits: with_char(self.bits, self.col, self.row, c),
                col: self.col + 1,
                ..self
            };
            if after.col >= CHAR_W {
                after.newline()
            } else {
                after
            }
        }
    }

    /// With `s` printed at the cursor.
    pub open spec fn printed(self, s: Seq<char>) -> DisplayView
        decreases s.len(),
    {
        if s.len() == 0 {
            self
        } else {
            self.printed(s.drop_last()).typed(s.last())
        }
    }

    /// With `s` and a new line printed at the cursor.
    pub open spec fn printed_line(self, s: Seq<char>) -> DisplayView {
        self.printed(s).newline()
    }

    /// With `s` as the line that is being typed and a cursor in a column of
    /// it; a column outside the screen shows no cursor.
    pub open spec fn input_line(self, s: Seq<char>, cursor: int) -> DisplayView {
        self.blanked(INPUT_ROW as int).put_text(0, INPUT_ROW as int, s).put(
            cursor,
            INPUT_ROW as int,
            '_',
        )
    }

    /// The screen as RGBA bytes.
    pub open spec fn rendered(self) -> Seq<u8> {
        Seq::new(
            196608,
            |i: int|
                channel(
                    if lit(self.bits, i / 4) {
                        self.ink
                    } else {
                        self.paper
                    },
                    i % 4,
                ),
        )
    }

    /// The cursor is in the print area.
    pub open spec fn wf(self) -> bool {
        &&& self.bits.len() == 6144
        &&& 0 <= self.col < CHAR_W
        &&& 0 <= self.row <= PRINT_BOTTOM
    }
}

impl View for Display {
    type V = DisplayView;

    closed spec fn view(&self) -> DisplayView {
        DisplayView {
            bits: self.bits@,
            ink: self.ink,
            paper: self.paper,
            col: self.print_cursor.0 as int,
            row: self.print_cursor.1 as int,
        }
    }
}

/// The pixel rows of the glyph for `ch`; a blank where the font has none.
pub fn glyph_for(ch: char) -> (r: [u8; 8])
    ensures
        r@ == glyph(ch),
{
    let cp = ch as u32;
    if cp >= 32 && cp <= 127 {
        FONT[(cp - 32) as usize]
    } else {
        FONT[0]
    }
}

impl Display {
    /// A display in the boot colours, black on white, with the print cursor
    /// at the top left.
    pub fn new() -> (r: Self)
        ensures
            r@ == DisplayView::blank(),
            r@.wf(),
    {
        let r = Display {
            bits: [0; 6144],
            ink: Rgb(0, 0, 0),
            paper: Rgb(0xff, 0xff, 0xff),
            print_cursor: (0, 0),
        };
        assert(r@.bits == DisplayView::blank().bits);
        r
    }

    /// Clear all pixels and send the print cursor home.
    pub fn clear(&mut self)
        ensures
            final(self)@ == old(self)@.cleared(),
    {
        self.bits = [0; 6144];
        self.print_cursor = (0, 0);
        assert(self@.bits == old(self)@.cleared().bits);
    }

    /// Column and row of the print cursor.
    pub fn print_cursor(&self) -> (r: (usize, usize))
        ensures
            r.0 == self@.col,
            r.1 == self@.row,
    {
        self.print_cursor
    }

    /// Draw the glyph of `ch` in a cell over whatever was there.
    pub fn print_at(&mut self, col: usize, row: usize, ch: char)
        requires
            old(self)@.wf(),
        ensures
            final(self)@ == old(self)@.put(col as int, row as int, ch),
            final(self)@.wf(),
    {
        if col >= CHAR_W || row >= CHAR_H {
            return;
        }
        let shape = glyph_for(ch);
        let ghost start = self@;
        let mut dy: usize = 0;
        while dy < CELL_H
            invariant
                col < CHAR_W,
                row < CHAR_H,
                dy <= CELL_H,
                shape@ == glyph(ch),
                start.wf(),
                self@.wf(),
                self@ == (DisplayView { bits: self.bits@, ..start }),
                forall|k: int|
                    0 <= k < 6144 ==> #[trigger] self.bits@[k] == (if col_of(k) == col && row_of(k)
                        == row && line_of(k) < dy {
                        glyph(ch)[line_of(k)]
                    } else {
                        start.bits[k]
                    }),
            decreases CELL_H - dy,
        {
            let k = (row * CELL_H + dy) * STRIDE_BYTES + col;
            self.bits[k] = shape[dy];
            dy += 1;
        }
        assert(self@.bits == with_char(start.bits, col as int, row as int, ch));
    }
}

impl Display {
    /// Write a string along a row, cut off at the right edge.
    pub fn print_str(&mut self, col: usize, row: usize, s: &str)
        requires
            old(self)@.wf(),
        ensures
            final(self)@ == old(self)@.put_text(col as int, row as int, s@),
            final(self)@.wf(),
    {
        let chars = text::chars(s);
        let ghost start = self@;
        let mut i: usize = 0;
        assert(self@ == start.put_text(col as int, row as int, s@.take(0)));
        while i < chars.len() && col < CHAR_W && i < CHAR_W - col
            invariant
                i <= chars@.len(),
                i <= CHAR_W,
                chars@ == s@,
                start.wf(),
                self@.wf(),
                self@ == start.put_text(col as int, row as int, s@.take(i as int)),
            decreases chars@.len() - i,
        {
            self.print_at(col + i, row, chars[i]);
            i += 1;
            proof {
                let done = s@.take(i as int);
                assert(done.drop_last() == s@.take(i - 1));
                assert(self@ == start.put_text(col as int, row as int, done));
            }
        }
        assert(self@ == start.put_text(col as int, row as int, s@));
    }

    /// Make a row blank.
    pub fn clear_row(&mut self, row: usize)
        requires
            old(self)@.wf(),
        ensures
            final(self)@ == old(self)@.blanked(row as int),
            final(self)@.wf(),
    {
        let ghost start = self@;
        if row >= CHAR_H {
            assert(self@ == start.blanked(row as int));
            return;
        }
        let first = row * ROW_BYTES;
        let mut n: usize = 0;
        while n < ROW_BYTES
            invariant
                row < CHAR_H,
                first == row * ROW_BYTES,
                n <= ROW_BYTES,
                start.wf(),
                self@.wf(),
                self@ == (DisplayView { bits: self.bits@, ..start }),
                forall|k: int|
                    0 <= k < 6144 ==> #[trigger] self.bits@[k] == (if first <= k < first + n {
                        0
                    } else {
                        start.bits[k]
                    }),
            decreases ROW_BYTES - n,
        {
            self.bits[first + n] = 0;
            n += 1;
        }
        assert(self@.bits == with_blank_row(start.bits, row as int));
    }

    /// Move the print cursor, keeping it inside the print area.
    pub fn set_print_cursor(&mut self, col: usize, row: usize)
        requires
            old(self)@.wf(),
        ensures
            final(self)@ == old(self)@.moved(col as int, row as int),
            final(self)@.wf(),
    {
        let c = if col < CHAR_W {
            col
        } else {
            CHAR_W - 1
        };
        let r = if row < PRINT_BOTTOM {
            row
        } else {
            PRINT_BOTTOM
        };
        self.print_cursor = (c, r);
    }

    /// Print a string at the cursor. A line feed and a full row go on to the
    /// next row; at the bottom the print area scrolls.
    pub fn print(&mut self, s: &str)
        requires
            old(self)@.wf(),
        ensures
            final(self)@ == old(self)@.printed(s@),
            final(self)@.wf(),
    {
        let ghost start = self@;
        for c in it: s.chars()
            invariant
                start.wf(),
                self@.wf(),
                it.seq() == s@,
                self@ == start.printed(s@.take(it.index() as int)),
        {
            proof {
                let done = s@.take(it.index() + 1);
                assert(done.drop_last() == s@.take(it.index() as int));
                assert(done.last() == c);
            }
            if c == '\n' {
                self.advance_newline();
            } else {
                let (col, row) = self.print_cursor;
                self.print_at(col, row, c);
                self.print_cursor = (col + 1, row);
                if col + 1 >= CHAR_W {
                    self.advance_newline();
                }
            }
        }
        assert(s@.take(s@.len() as int) == s@);
    }

    /// Print a string and a new line.
    pub fn println(&mut self, s: &str)
        requires
            old(self)@.wf(),
        ensures
            final(self)@ == old(self)@.printed_line(s@),
            final(self)@.wf(),
    {
        self.print(s);
        self.advance_newline();
    }

    /// Send the cursor to the start of the next row, scrolling at the bottom.
    pub fn advance_newline(&mut self)
        requires
            old(self)@.bits.len() == 6144,
            0 <= old(self)@.row <= PRINT_BOTTOM,
        ensures
            final(self)@ == old(self)@.newline(),
            final(self)@.wf(),
    {
        let (col, row) = self.print_cursor;
        if row < PRINT_BOTTOM {
            self.print_cursor = (0, row + 1);
        } else {
            self.print_cursor = (0, row);
            self.scroll_print_area_up();
        }
    }

    /// Move the print area up by one row. What is below it stays as it is.
    pub fn scroll_print_area_up(&mut self)
        requires
            old(self)@.wf(),
        ensures
            final(self)@ == (DisplayView { bits: scrolled(old(self)@.bits), ..old(self)@ }),
            final(self)@.wf(),
    {
        let ghost start = self@;
        let mut n: usize = 0;
        while n < PRINT_BOTTOM * ROW_BYTES
            invariant
                n <= PRINT_BOTTOM * ROW_BYTES,
                start.wf(),
                self@.wf(),
                self@ == (DisplayView { bits: self.bits@, ..start }),
                forall|k: int|
                    0 <= k < 6144 ==> #[trigger] self.bits@[k] == (if k < n {
                        start.bits[k + 256]
                    } else {
                        start.bits[k]
                    }),
            decreases PRINT_BOTTOM * ROW_BYTES - n,
        {
            self.bits[n] = self.bits[n + ROW_BYTES];
            n += 1;
        }
        self.clear_row(PRINT_BOTTOM);
        assert(self@.bits == scrolled(start.bits));
    }

    /// Redraw the input row with `text` and a cursor in column `cursor_col`.
    /// Characters beyond the right edge are dropped, and so is a cursor there.
    pub fn print_input(&mut self, text: &str, cursor_col: usize)
        requires
            old(self)@.wf(),
        ensures
            final(self)@ == old(self)@.input_line(text@, cursor_col as int),
            final(self)@.wf(),
    {
        self.clear_row(INPUT_ROW);
        self.print_str(0, INPUT_ROW, text);
        if cursor_col < CHAR_W {
            self.print_at(cursor_col, INPUT_ROW, '_');
        }
    }

    /// Render the screen into an RGBA buffer of `FRAME_RGBA_LEN` bytes.
    pub fn render_into(&self, out: &mut [u8])
        requires
            self@.wf(),
            old(out)@.len() == FRAME_RGBA_LEN,
        ensures
            final(out)@ == self@.rendered(),
    {
        let mut p: usize = 0;
        while p < PIXEL_W * PIXEL_H
            invariant
                p <= PIXEL_W * PIXEL_H,
                self@.wf(),
                out@.len() == 196608,
                forall|i: int| 0 <= i < 4 * p ==> #[trigger] out@[i] == self@.rendered()[i],
            decreases PIXEL_W * PIXEL_H - p,
        {
            let byte = self.bits[p / 8];
            let shift = (7 - p % 8) as u8;
            let Rgb(r, g, b) = if (byte >> shift) & 1 == 1 {
                self.ink
            } else {
                self.paper
            };
            let i = 4 * p;
            out[i] = r;
            out[i + 1] = g;
            out[i + 2] = b;
            out[i + 3] = 0xff;
            p += 1;
        }
        assert(out@ == self@.rendered());
    }
}

impl DisplayView {
    /// Printing keeps the cursor inside the print area and leaves all rows below
    /// it and the colours as they are.
    pub proof fn lemma_printed_keeps(self, s: Seq<char>)
        requires
            self.wf(),
        ensures
            self.printed(s).wf(),
            self.printed(s).ink == self.ink,
            self.printed(s).paper == self.paper,
            forall|k: int|
                0 <= k < 6144 && row_of(k) > PRINT_BOTTOM ==> #[trigger] self.printed(s).bits[k]
                    == self.bits[k],
        decreases s.len(),
    {
        if s.len() > 0 {
            self.lemma_printed_keeps(s.drop_last());
        }
    }

    /// Printing two texts one after the other is printing them joined.
    pub proof fn lemma_printed_joined(self, a: Seq<char>, b: Seq<char>)
        ensures
            self.printed(a + b) == self.printed(a).printed(b),
        decreases b.len(),
    {
        if b.len() == 0 {
            assert(a + b == a);
        } else {
            assert((a + b).drop_last() == a + b.drop_last());
            assert((a + b).last() == b.last());
            self.lemma_printed_joined(a, b.drop_last());
        }
    }

    /// Text that ends before the right edge stands in the row of the cursor,
    /// and the cursor behind it.
    pub proof fn lemma_printed_in_row(self, s: Seq<char>)
        requires
            self.wf(),
            self.col + s.len() < CHAR_W,
            forall|i: int| 0 <= i < s.len() ==> #[trigger] s[i] != '\n',
        ensures
            self.printed(s) == (DisplayView {
                bits: with_text(self.bits, self.col, self.row, s),
                col: self.col + s.len(),
                ..self
            }),
        decreases s.len(),
    {
        if s.len() == 0 {
            assert(with_text(self.bits, self.col, self.row, s) == self.bits);
        } else {
            let t = s.drop_last();
            assert forall|i: int| 0 <= i < t.len() implies #[trigger] t[i] != '\n' by {
                assert(s[i] != '\n');
            }
            self.lemma_printed_in_row(t);
            assert(s[s.len() - 1] != '\n');
            let before = with_text(self.bits, self.col, self.row, t);
            assert(with_char(before, self.col + t.len(), self.row, s.last()) == with_text(
                self.bits,
                self.col,
                self.row,
                s,
            ));
        }
    }

    /// Text that ends at the right edge sends the cursor to the start of the
    /// next row.
    pub proof fn lemma_printed_wraps(self, s: Seq<char>)
        requires
            self.wf(),
            self.col + s.len() == CHAR_W,
            forall|i: int| 0 <= i < s.len() ==> #[trigger] s[i] != '\n',
        ensures
            self.printed(s).col == 0,
            self.printed(s).row == (if self.row < PRINT_BOTTOM {
                self.row + 1
            } else {
                self.row
            }),
    {
        let t = s.drop_last();
        assert forall|i: int| 0 <= i < t.len() implies #[trigger] t[i] != '\n' by {
            assert(s[i] != '\n');
        }
        assert(s[s.len() - 1] != '\n');
        self.lemma_printed_in_row(t);
    }

    /// The line that is being typed leaves the print area and the cursor as
    /// they are, and redrawing it leaves no trace of what was typed before.
    pub proof fn lemma_input_line_keeps(self, s: Seq<char>, cursor: int, t: Seq<char>, at: int)
        requires
            self.wf(),
        ensures
            self.input_line(s, cursor).wf(),
            self.input_line(s, cursor).col == self.col,
            self.input_line(s, cursor).row == self.row,
            forall|k: int|
                0 <= k < 6144 && row_of(k) != INPUT_ROW ==> #[trigger] self.input_line(
                    s,
                    cursor,
                ).bits[k] == self.bits[k],
            self.input_line(s, cursor).input_line(t, at) == self.input_line(t, at),
    {
        assert(self.input_line(s, cursor).blanked(INPUT_ROW as int) == self.blanked(
            INPUT_ROW as int,
        ));
    }

    /// A cleared screen renders as paper all over.
    pub proof fn lemma_cleared_renders_paper(self, i: int)
        requires
            0 <= i < FRAME_RGBA_LEN,
        ensures
            self.cleared().rendered()[i] == channel(self.paper, i % 4),
    {
        let p = i / 4;
        let shift = (7 - p % 8) as u8;
        assert((0u8 >> shift) & 1 == 0) by (bit_vector);
        assert(self.cleared().bits[p / 8] == 0);
    }
}

impl Default for Display {
    fn default() -> (r: Self)
        ensures
            r@ == DisplayView::blank(),
            r@.wf(),
    {
        Display::new()
    }
}

} // verus!
