//! What holds of the screen.

use vstd::prelude::*;

use crate::charset::FONT;
use crate::display;
use crate::display::{DisplayView, Rgb};
use crate::machine;
use crate::machine::SystemView;

verus! {

/// The byte that holds row `l` of the cell in column `c` and row `r`.
pub open spec fn byte_at(c: int, r: int, l: int) -> int {
    256 * r + 32 * l + c
}

/// A character that does not end its row sets the eight bytes of the cell at
/// the cursor to the rows of its glyph and no other byte, and the cursor goes on
/// by one column.
pub proof fn lemma_char_printed(d: DisplayView, c: char, x: int, y: int, l: int)
    requires
        d.wf(),
        c != '\n',
        d.col < 31,
        0 <= x < 32,
        0 <= y < 24,
        0 <= l < 8,
    ensures
        ({
            let e = d.printed(seq![c]);
            &&& e.col == d.col + 1 && e.row == d.row && e.ink == d.ink && e.paper == d.paper
            &&& e.bits.len() == 6144
            &&& e.bits[byte_at(x, y, l)] == (if x == d.col && y == d.row {
                display::glyph(c)[l]
            } else {
                d.bits[byte_at(x, y, l)]
            })
        }),
{
    assert(seq![c].drop_last() == Seq::<char>::empty());
    assert(d.printed(Seq::empty()) == d);
    assert(d.printed(seq![c]) == d.typed(c));
}

/// A character in the last column is drawn there, and the cursor goes to the
/// start of the next row, as it does after a line feed.
pub proof fn lemma_last_column(d: DisplayView, c: char)
    requires
        d.wf(),
        c != '\n',
        d.col == 31,
    ensures
        d.printed(seq![c]) == (DisplayView {
            bits: display::with_char(d.bits, 31, d.row, c),
            ..d
        }).printed(seq!['\n']),
{
    let e = DisplayView { bits: display::with_char(d.bits, 31, d.row, c), ..d };
    assert(seq![c].drop_last() == Seq::<char>::empty());
    assert(seq!['\n'].drop_last() == Seq::<char>::empty());
    assert(d.printed(Seq::empty()) == d);
    assert(e.printed(Seq::empty()) == e);
    assert(d.printed(seq![c]) == d.typed(c));
    assert(e.printed(seq!['\n']) == e.newline());
}

/// A line feed goes to the start of the next row. In the last row of the print
/// area, every row of it moves up by one, the last becomes blank, and the rows
/// below stay.
pub proof fn lemma_line_feed(d: DisplayView, x: int, y: int, l: int)
    requires
        d.wf(),
        0 <= x < 32,
        0 <= y < 24,
        0 <= l < 8,
    ensures
        ({
            let e = d.printed(seq!['\n']);
            let k = byte_at(x, y, l);
            &&& e.col == 0 && e.ink == d.ink && e.paper == d.paper
            &&& d.row < 21 ==> e.row == d.row + 1 && e.bits == d.bits
            &&& d.row == 21 ==> e.row == 21 && e.bits[k] == (if y < 21 {
                d.bits[byte_at(x, y + 1, l)]
            } else if y == 21 {
                0
            } else {
                d.bits[k]
            })
        }),
{
    assert(seq!['\n'].drop_last() == Seq::<char>::empty());
    assert(d.printed(Seq::empty()) == d);
    assert(d.printed(seq!['\n']) == d.newline());
    assert(byte_at(x, y + 1, l) == byte_at(x, y, l) + 256);
}

/// The typed line stands in the last row from the left, with a `_` at the
/// cursor and nothing behind them. Other rows stay, and so does the print
/// cursor.
pub proof fn lemma_typed_line(d: DisplayView, s: Seq<char>, cursor: int, x: int, y: int, l: int)
    requires
        d.wf(),
        0 <= cursor,
        0 <= x < 32,
        0 <= y < 24,
        0 <= l < 8,
    ensures
        ({
            let e = d.input_line(s, cursor);
            let k = byte_at(x, y, l);
            &&& e == (DisplayView { bits: e.bits, ..d })
            &&& y != 23 ==> e.bits[k] == d.bits[k]
            &&& y == 23 ==> e.bits[k] == (if x == cursor {
                display::glyph('_')[l]
            } else if x < s.len() {
                display::glyph(s[x])[l]
            } else {
                0
            })
        }),
{
}

/// Text that is put somewhere stands there, cut off at the right edge; a
/// character in its cell; a blanked row is blank.
pub proof fn lemma_put(
    d: DisplayView,
    s: Seq<char>,
    c: char,
    col: int,
    row: int,
    x: int,
    y: int,
    l: int,
)
    requires
        d.wf(),
        0 <= col,
        0 <= row < 24,
        0 <= x < 32,
        0 <= y < 24,
        0 <= l < 8,
    ensures
        ({
            let k = byte_at(x, y, l);
            &&& d.put_text(col, row, s).bits[k] == (if y == row && col <= x < col + s.len() {
                display::glyph(s[x - col])[l]
            } else {
                d.bits[k]
            })
            &&& d.put(col, row, c).bits[k] == (if y == row && x == col {
                display::glyph(c)[l]
            } else {
                d.bits[k]
            })
            &&& d.blanked(row).bits[k] == (if y == row {
                0
            } else {
                d.bits[k]
            })
        }),
{
}

/// The cursor moves to a cell, or to the last column and the last row of the
/// print area; a cleared screen has no pixel set and the cursor at the top left.
pub proof fn lemma_cursor(d: DisplayView, col: int, row: int)
    requires
        0 <= col,
        0 <= row,
    ensures
        col <= 31 ==> d.moved(col, row).col == col,
        col > 31 ==> d.moved(col, row).col == 31,
        row <= 21 ==> d.moved(col, row).row == row,
        row > 21 ==> d.moved(col, row).row == 21,
        d.moved(col, row).bits == d.bits,
        d.cleared().col == 0 && d.cleared().row == 0,
        forall|k: int| 0 <= k < 6144 ==> #[trigger] d.cleared().bits[k] == 0,
        DisplayView::blank() == (DisplayView {
            ink: Rgb(0, 0, 0),
            paper: Rgb(255, 255, 255),
            ..d.cleared()
        }),
{
}

/// A pixel is rendered in the ink where its bit is set and in the paper where it
/// is not, with full opacity. The bits of a byte go from the highest to the
/// lowest along a row.
pub proof fn lemma_pixel(d: DisplayView, x: int, y: int)
    requires
        0 <= x < 256,
        0 <= y < 192,
    ensures
        ({
            let byte = d.bits[32 * y + x / 8];
            let colour = if (byte >> ((7 - x % 8) as u8)) & 1 == 1 {
                d.ink
            } else {
                d.paper
            };
            let i = 4 * (256 * y + x);
            &&& d.rendered().len() == 4 * 256 * 192
            &&& d.rendered()[i] == colour.0
            &&& d.rendered()[i + 1] == colour.1
            &&& d.rendered()[i + 2] == colour.2
            &&& d.rendered()[i + 3] == 255
        }),
{
    let i = 4 * (256 * y + x);
    let p = 256 * y + x;
    assert(i / 4 == p && (i + 1) / 4 == p && (i + 2) / 4 == p && (i + 3) / 4 == p);
    assert(p / 8 == 32 * y + x / 8 && p % 8 == x % 8);
}

/// The characters from the blank on have the glyphs of the font in order; those
/// that it has none for are drawn like a blank.
pub proof fn lemma_glyph(c: char)
    ensures
        32 <= c as u32 <= 127 ==> display::glyph(c) == FONT@[c as u32 - 32]@,
        !(32 <= c as u32 <= 127) ==> display::glyph(c) == display::glyph(' '),
{
}

/// The lower screen is blank while a program runs or a tone plays. Else it shows
/// the report, and without one the typed line, behind a `?` where the program
/// waits for it, with the cursor behind it.
pub proof fn lemma_lower_screen(s: SystemView)
    ensures
        ({
            let typed = if s.pending is Some {
                seq!['?'] + s.input
            } else {
                s.input
            };
            let shown = if typed.len() >= 32 {
                typed.skip(typed.len() - 31)
            } else {
                typed
            };
            &&& s.redrawn() == (SystemView { display: s.redrawn().display, ..s })
            &&& s.pc is Some || s.wait > 0 ==> s.redrawn().display == s.display.input_line(
                Seq::empty(),
                32,
            )
            &&& s.pc is None && s.wait == 0 && s.status.len() > 0 ==> s.redrawn().display
                == s.display.input_line(s.status, 32)
            &&& s.pc is None && s.wait == 0 && s.status.len() == 0 ==> s.redrawn().display
                == s.display.input_line(shown, shown.len() as int)
        }),
{
    reveal(SystemView::redrawn);
    reveal_strlit("?");
    reveal_strlit("");
    assert("?"@ == seq!['?']);
    assert(""@ == Seq::<char>::empty());
    assert(""@ + s.input == s.input);
    assert("?"@ + s.input == seq!['?'] + s.input);
}

/// Nothing is put outside the screen.
pub proof fn lemma_outside(d: DisplayView, s: Seq<char>, c: char, col: int, row: int)
    requires
        d.wf(),
    ensures
        row >= 24 ==> d.put_text(col, row, s) == d && d.put(col, row, c) == d && d.blanked(row).bits
            == d.bits,
        col >= 32 ==> d.put(col, row, c) == d,
{
}

/// A blank has no pixel set.
pub proof fn lemma_blank_glyph(l: int)
    requires
        0 <= l < 8,
    ensures
        display::glyph(' ')[l] == 0,
{
    assert(FONT@[0]@ == seq![0u8, 0u8, 0u8, 0u8, 0u8, 0u8, 0u8, 0u8]);
}

} // verus!
