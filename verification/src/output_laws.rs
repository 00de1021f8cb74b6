//! What the statements that print, draw and sound do.

use vstd::prelude::*;
use vstd::arithmetic::power2;

use crate::calculator::{Arithmetic, Operation};
use crate::display;
use crate::display::DisplayView;
use crate::laws;
use crate::machine;
use crate::machine::{ColourKind, DrawingView, Fault, Item, StepResult, SystemView};
use crate::number;
use crate::number::Number;
use crate::program;
use crate::statement_laws;
use crate::syntax;
use crate::text;
use crate::text_laws;
use crate::text_laws::{joined, one_item};
use crate::value::ValueView;

verus! {

/// Printing puts a text on the screen at the cursor and tells the host what was
/// printed, from which cell on and in which colours; nothing else changes.
pub proof fn lemma_shown(s: SystemView, t: Seq<char>)
    ensures
        s.shown(t) == (SystemView {
            display: s.display.printed(t),
            drawings: s.drawings.push(
                DrawingView::Text {
                    col: s.display.col,
                    row: s.display.row,
                    text: t,
                    attr: s.attr(),
                },
            ),
            ..s
        }),
        s.shown_line(t) == (SystemView { display: s.display.printed(t).printed(seq!['\n']), ..s }),
        s.attr() == machine::attribute(s.ink, s.paper, s.bright, s.flash),
{
    let d = s.display.printed(t);
    assert(seq!['\n'].drop_last() == Seq::<char>::empty());
    assert(d.printed(Seq::empty()) == d);
    assert(d.printed(seq!['\n']) == d.newline());
}

/// A number is printed as its numeral, and a string as its text.
pub proof fn lemma_value_text(n: Number, x: Seq<char>, ar: Arithmetic)
    ensures
        machine::value_text(ValueView::Num(n), ar) == crate::fp_format::formatted(n, ar),
        machine::value_text(ValueView::Str(vstd::utf8::encode_utf8(x)), ar) == x,
{
    laws::lemma_string_printed(x, ar);
}

/// The machine once the values of some texts have been evaluated and printed,
/// one after the other; nothing where one of them has no value.
pub open spec fn values_shown(s: SystemView, parts: Seq<Seq<char>>, ar: Arithmetic) -> Option<
    SystemView,
>
    decreases parts.len(),
{
    if parts.len() == 0 {
        Some(s)
    } else {
        let (v, t) = s.valued(text::trim(parts[0]), ar);
        match v {
            Some(v) => values_shown(
                t.shown(machine::value_text(v, ar)),
                parts.drop_first(),
                ar,
            ),
            None => None,
        }
    }
}

/// The items of `PRINT` from one on are the items of the list without those
/// before it.
proof fn lemma_items_from(
    s: SystemView,
    items: Seq<Seq<char>>,
    i: int,
    printed: bool,
    ar: Arithmetic,
)
    requires
        0 <= i <= items.len(),
    ensures
        s.print_items(items, i, printed, ar) == s.print_items(items.skip(i), 0, printed, ar),
    decreases items.len() - i,
{
    let rest = items.skip(i);
    if i < items.len() {
        let item = text::trim(items[i]);
        assert(rest[0] == items[i]);
        assert(rest.skip(1) == items.skip(i + 1));
        if item.len() == 0 {
            lemma_items_from(s, items, i + 1, printed, ar);
            lemma_items_from(s, rest, 1, printed, ar);
        } else {
            match s.print_item(item, ar) {
                (Item::Value, t) => {
                    lemma_items_from(t, items, i + 1, true, ar);
                    lemma_items_from(t, rest, 1, true, ar);
                },
                (Item::Placed, t) => {
                    lemma_items_from(t, items, i + 1, printed, ar);
                    lemma_items_from(t, rest, 1, printed, ar);
                },
                (Item::End(r), t) => {},
            }
        }
    }
}

/// Printing an item and others behind it is printing the item and then the
/// others, whatever the item is; one that fails ends the statement.
pub proof fn lemma_item_then_others(
    s: SystemView,
    a: Seq<char>,
    rest: Seq<Seq<char>>,
    printed: bool,
    ar: Arithmetic,
)
    ensures
        ({
            let item = text::trim(a);
            let r = s.print_items(seq![a] + rest, 0, printed, ar);
            if item.len() == 0 {
                r == s.print_items(rest, 0, printed, ar)
            } else {
                match s.print_item(item, ar) {
                    (Item::Value, t) => r == t.print_items(rest, 0, true, ar),
                    (Item::Placed, t) => r == t.print_items(rest, 0, printed, ar),
                    (Item::End(e), t) => r == (Err::<bool, StepResult>(e), t),
                }
            }
        }),
        s.print_items(Seq::empty(), 0, printed, ar) == (Ok::<bool, StepResult>(printed), s),
{
    let all = seq![a] + rest;
    assert(all[0] == a);
    assert(all.skip(1) == rest);
    let item = text::trim(a);
    lemma_items_from(s, all, 1, printed, ar);
    if item.len() > 0 {
        match s.print_item(item, ar) {
            (Item::Value, t) => lemma_items_from(t, all, 1, true, ar),
            (Item::Placed, t) => lemma_items_from(t, all, 1, printed, ar),
            (Item::End(e), t) => {},
        }
    }
}

/// All values of a list are printed.
proof fn lemma_values(s: SystemView, parts: Seq<Seq<char>>, printed: bool, ar: Arithmetic)
    requires
        forall|i: int| 0 <= i < parts.len() ==> laws::value_item(text::trim(#[trigger] parts[i])),
        values_shown(s, parts, ar) is Some,
    ensures
        s.print_items(parts, 0, printed, ar) == (
            Ok::<bool, StepResult>(printed || parts.len() > 0),
            values_shown(s, parts, ar)->0,
        ),
    decreases parts.len(),
{
    if parts.len() > 0 {
        let rest = parts.drop_first();
        assert(parts == seq![parts[0]] + rest);
        lemma_item_then_others(s, parts[0], rest, printed, ar);
        let (v, t) = s.valued(text::trim(parts[0]), ar);
        assert forall|i: int| 0 <= i < rest.len() implies laws::value_item(
            text::trim(#[trigger] rest[i]),
        ) by {
            assert(rest[i] == parts[i + 1]);
        }
        lemma_values(t.shown(machine::value_text(v->0, ar)), rest, true, ar);
    }
}

/// `PRINT` of any number of expressions with semicolons between them prints all
/// their values in order, one behind the other, and then ends the line.
#[verifier::rlimit(60)]
pub proof fn lemma_print_values(s: SystemView, parts: Seq<Seq<char>>, ar: Arithmetic)
    requires
        parts.len() > 0,
        forall|i: int|
            0 <= i < parts.len() ==> one_item(#[trigger] parts[i]) && laws::value_item(
                text::trim(parts[i]),
            ),
        values_shown(s, parts, ar) is Some,
        text::trim(joined(parts)).len() > 0,
        text::trim_end(joined(parts)).last() != ';',
        text::trim_end(joined(parts)).last() != ',',
    ensures
        s.command("PRINT"@, joined(parts), ar) == (
            values_shown(s, parts, ar)->0.shown(seq!['\n']),
            StepResult::Done,
        ),
{
    statement_laws::lemma_dispatch(s, joined(parts), Seq::empty(), ar);
    reveal(SystemView::print);
    reveal_strlit("\n");
    assert("\n"@ == seq!['\n']);
    assert forall|i: int| 0 <= i < parts.len() implies one_item(#[trigger] parts[i]) by {}
    text_laws::lemma_items_of_joined(parts);
    assert forall|i: int| 0 <= i < parts.len() implies laws::value_item(
        text::trim(#[trigger] parts[i]),
    ) by {
        assert(one_item(parts[i]));
    }
    lemma_values(s, parts, false, ar);
}

/// With a semicolon at its end, `PRINT` prints the same and leaves the cursor
/// behind the last value.
#[verifier::rlimit(60)]
pub proof fn lemma_print_values_open(s: SystemView, parts: Seq<Seq<char>>, ar: Arithmetic)
    requires
        parts.len() > 0,
        forall|i: int|
            0 <= i < parts.len() ==> one_item(#[trigger] parts[i]) && laws::value_item(
                text::trim(parts[i]),
            ),
        values_shown(s, parts, ar) is Some,
        text::trim(joined(parts.push(Seq::empty()))).len() > 0,
        text::trim_end(joined(parts.push(Seq::empty()))).last() == ';',
    ensures
        s.command("PRINT"@, joined(parts.push(Seq::empty())), ar) == (
            values_shown(s, parts, ar)->0,
            StepResult::Done,
        ),
{
    let all = parts.push(Seq::empty());
    statement_laws::lemma_dispatch(s, joined(all), Seq::empty(), ar);
    reveal(SystemView::print);
    assert forall|i: int| 0 <= i < all.len() implies one_item(#[trigger] all[i]) by {
        if i < parts.len() {
            assert(all[i] == parts[i]);
        }
    }
    text_laws::lemma_items_of_joined(all);
    assert forall|i: int| 0 <= i < parts.len() implies laws::value_item(
        text::trim(#[trigger] parts[i]),
    ) by {
        assert(one_item(parts[i]));
    }
    lemma_values_and_nothing(s, parts, false, ar);
}

/// An empty item behind the others prints nothing.
proof fn lemma_values_and_nothing(
    s: SystemView,
    parts: Seq<Seq<char>>,
    printed: bool,
    ar: Arithmetic,
)
    requires
        forall|i: int| 0 <= i < parts.len() ==> laws::value_item(text::trim(#[trigger] parts[i])),
        values_shown(s, parts, ar) is Some,
    ensures
        s.print_items(parts.push(Seq::empty()), 0, printed, ar) == (
            Ok::<bool, StepResult>(printed || parts.len() > 0),
            values_shown(s, parts, ar)->0,
        ),
    decreases parts.len(),
{
    let all = parts.push(Seq::empty());
    if parts.len() > 0 {
        let rest = parts.drop_first();
        assert(all == seq![parts[0]] + rest.push(Seq::empty()));
        lemma_item_then_others(s, parts[0], rest.push(Seq::empty()), printed, ar);
        let (v, t) = s.valued(text::trim(parts[0]), ar);
        assert forall|i: int| 0 <= i < rest.len() implies laws::value_item(
            text::trim(#[trigger] rest[i]),
        ) by {
            assert(rest[i] == parts[i + 1]);
        }
        lemma_values_and_nothing(t.shown(machine::value_text(v->0, ar)), rest, true, ar);
    } else {
        let none = Seq::<char>::empty();
        assert(all == seq![none] + Seq::<Seq<char>>::empty());
        text::lemma_trim_len(none);
        lemma_item_then_others(s, none, Seq::empty(), printed, ar);
    }
}

/// `PRINT` alone ends the line. An item that has no value ends the statement
/// with what was printed before it.
pub proof fn lemma_print_nothing(s: SystemView, a: Seq<char>, ar: Arithmetic)
    requires
        one_item(a),
        laws::value_item(text::trim(a)),
        s.valued(text::trim(a), ar).0 is None,
    ensures
        s.command("PRINT"@, Seq::<char>::empty(), ar) == (s.shown(seq!['\n']), StepResult::Done),
        s.command("PRINT"@, a, ar) == (
            s.valued(text::trim(a), ar).1,
            StepResult::Error(Fault::Nonsense),
        ),
{
    statement_laws::lemma_dispatch(s, Seq::empty(), Seq::empty(), ar);
    statement_laws::lemma_dispatch(s, a, Seq::empty(), ar);
    reveal(SystemView::print);
    reveal_strlit("\n");
    assert("\n"@ == seq!['\n']);
    text::lemma_trim_len(Seq::<char>::empty());
    let parts = seq![a];
    assert(joined(parts) == a);
    assert forall|i: int| 0 <= i < parts.len() implies one_item(#[trigger] parts[i]) by {}
    text_laws::lemma_items_of_joined(parts);
    assert(parts == seq![a] + Seq::<Seq<char>>::empty());
    lemma_item_then_others(s, a, Seq::empty(), false, ar);
}

/// The lesser of two.
pub open spec fn at_most(n: int, top: int) -> int {
    if n < top {
        n
    } else {
        top
    }
}

/// `AT row, column` moves the cursor to that cell, to the last row or column of
/// the print area where it is beyond; a negative number counts as zero. Nothing
/// is printed.
#[verifier::rlimit(60)]
pub proof fn lemma_print_at(s: SystemView, row: Seq<char>, col: Seq<char>, ar: Arithmetic)
    requires
        !row.contains(','),
    ensures
        ({
            let (r, t) = s.number(seq![' '] + row, ar);
            let (c, u) = t.number(col, ar);
            let p = s.print_item(seq!['A', 'T', ' '] + row + seq![','] + col, ar);
            &&& r is Some && c is Some ==> {
                let x = c->0.saturated(0, usize::MAX as int);
                let y = r->0.saturated(0, usize::MAX as int);
                p == (
                    Item::Placed,
                    SystemView {
                        display: DisplayView { col: at_most(x, 31), row: at_most(y, 21), ..s.display },
                        seed: u.seed,
                        ..s
                    },
                )
            }
            &&& r is None || c is None ==> p == (
                Item::End(StepResult::Error(Fault::Nonsense)),
                SystemView { seed: u.seed, ..s },
            )
        }),
{
    let item = seq!['A', 'T', ' '] + row + seq![','] + col;
    let padded = seq![' '] + row;
    assert(text::starts_with(text::uppercase(item), "AT"@) && machine::set_off(item, 2)) by {
        reveal_strlit("AT");
        assert(item[0] == 'A' && item[1] == 'T' && item[2] == ' ');
        assert(text::uppercase(item).take(2) == "AT"@);
    }
    assert(syntax::at_char(item.skip(2), ',') == Some((padded, col))) by {
        assert(item.skip(2) == padded + seq![','] + col);
        assert(!padded.contains(',')) by {
            if padded.contains(',') {
                let i = choose|i: int| 0 <= i < padded.len() && padded[i] == ',';
                assert(i > 0);
                assert(row[i - 1] == ',');
            }
        }
        text_laws::lemma_parted(padded, ',', col);
    }
    laws::lemma_evaluation_changes_nothing(s, padded, ar);
    laws::lemma_evaluation_changes_nothing(s.number(padded, ar).1, col, ar);
}

/// Going on to a column: in the same row where it is not behind the cursor
/// already, else in the next. The cells that are passed over become blank.
#[verifier::rlimit(60)]
pub proof fn lemma_tabbed(s: SystemView, k: int)
    requires
        s.display.wf(),
        0 <= k < 32,
    ensures
        ({
            let t = s.tabbed(k);
            let d = t.display;
            &&& d.col == k
            &&& k >= s.display.col ==> d.row == s.display.row && d.bits == display::with_text(
                s.display.bits,
                s.display.col,
                s.display.row,
                Seq::new((k - s.display.col) as nat, |i: int| ' '),
            )
            &&& k < s.display.col ==> d.row == at_most(s.display.row + 1, 21)
            &&& t == (SystemView { display: d, drawings: t.drawings, ..s })
        }),
{
    let d = s.display;
    if k >= d.col {
        d.lemma_printed_in_row(machine::blanks(k - d.col));
    } else {
        reveal_strlit("\n");
        assert("\n"@ == seq!['\n']);
        assert(seq!['\n'].drop_last() == Seq::<char>::empty());
        assert(d.printed(Seq::empty()) == d);
        assert(d.printed(seq!['\n']) == d.newline());
        d.newline().lemma_printed_in_row(machine::blanks(k));
    }
}

/// `TAB column` goes on to that column, counted round at 32.
#[verifier::rlimit(60)]
pub proof fn lemma_print_tab(s: SystemView, src: Seq<char>, ar: Arithmetic)
    ensures
        ({
            let (n, t) = s.number(seq![' '] + src, ar);
            let p = s.print_item(seq!['T', 'A', 'B', ' '] + src, ar);
            &&& n is None ==> p == (Item::End(StepResult::Error(Fault::Nonsense)), t)
            &&& n is Some ==> p == (
                Item::Placed,
                t.tabbed(n->0.saturated(0, usize::MAX as int) % 32),
            )
        }),
{
    reveal_strlit("AT");
    reveal_strlit("TAB");
    let item = seq!['T', 'A', 'B', ' '] + src;
    assert(item[0] == 'T' && item[1] == 'A' && item[2] == 'B' && item[3] == ' ');
    let upper = text::uppercase(item);
    assert(upper[0] == 'T' && upper[1] == 'A' && upper[2] == 'B');
    assert(upper.take(3) == "TAB"@);
    assert(!text::starts_with(upper, "AT"@)) by {
        assert(upper.take(2)[0] == 'T');
        assert("AT"@[0] == 'A');
    }
    assert(item.skip(3) == seq![' '] + src);
}

/// `INK` and `PAPER` take a colour from 0 to 7, `BRIGHT` and `FLASH` 0 or 1, by
/// the whole part of their argument; each sets its own colour to it, and other
/// numbers are out of range.
pub proof fn lemma_colours(s: SystemView, args: Seq<char>, ar: Arithmetic)
    ensures
        ({
            let (x, t) = s.number(args, ar);
            let ink = s.command("INK"@, args, ar);
            let paper = s.command("PAPER"@, args, ar);
            let bright = s.command("BRIGHT"@, args, ar);
            let flash = s.command("FLASH"@, args, ar);
            &&& x is None ==> ink == (t, StepResult::Error(Fault::Nonsense)) && paper == ink && bright
                == ink && flash == ink
            &&& x is Some ==> {
                let n = x->0.saturated(i32::MIN as int, i32::MAX as int);
                &&& 0 <= n <= 7 ==> ink == (SystemView { ink: n as u8, ..t }, StepResult::Done)
                    && paper == (SystemView { paper: n as u8, ..t }, StepResult::Done)
                &&& !(0 <= n <= 7) ==> ink == (t, StepResult::Error(Fault::IntegerOutOfRange))
                    && paper == ink
                &&& 0 <= n <= 1 ==> bright == (
                    SystemView { bright: n == 1, ..t },
                    StepResult::Done,
                ) && flash == (SystemView { flash: n == 1, ..t }, StepResult::Done)
                &&& !(0 <= n <= 1) ==> bright == (t, StepResult::Error(Fault::IntegerOutOfRange))
                    && flash == bright
            }
        }),
{
    statement_laws::lemma_dispatch(s, args, Seq::empty(), ar);
    reveal(SystemView::colour);
}

/// `BORDER` takes a colour from 0 to 7. The lower screen gets it as its paper,
/// with white ink on the dark colours up to 3 and black ink on the others.
pub proof fn lemma_border(s: SystemView, args: Seq<char>, ar: Arithmetic)
    ensures
        ({
            let (x, t) = s.number(args, ar);
            let r = s.command("BORDER"@, args, ar);
            &&& x is None ==> r == (t, StepResult::Error(Fault::Nonsense))
            &&& x is Some ==> {
                let n = x->0.saturated(i32::MIN as int, i32::MAX as int);
                &&& 0 <= n <= 7 ==> r == (
                    SystemView {
                        border: n as u8,
                        drawings: t.drawings.push(
                            DrawingView::Lower {
                                attr: (8 * n + (if n <= 3 {
                                    7int
                                } else {
                                    0
                                })) as u8,
                            },
                        ),
                        ..t
                    },
                    StepResult::Done,
                )
                &&& !(0 <= n <= 7) ==> r == (t, StepResult::Error(Fault::IntegerOutOfRange))
            }
        }),
{
    statement_laws::lemma_dispatch(s, args, Seq::empty(), ar);
    reveal(SystemView::border);
}

/// A coordinate: the whole part of a number.
pub open spec fn pixel(n: Number) -> i32 {
    n.saturated(i32::MIN as int, i32::MAX as int) as i32
}

/// `PLOT x, y` draws a point there in the current colours and leaves the pen
/// there.
pub proof fn lemma_plot(s: SystemView, a: Seq<char>, b: Seq<char>, ar: Arithmetic)
    requires
        !a.contains(','),
    ensures
        ({
            let (x, t) = s.number(a, ar);
            let (y, u) = t.number(b, ar);
            let r = s.command("PLOT"@, a + seq![','] + b, ar);
            &&& x is Some && y is Some ==> r == (
                SystemView {
                    pen_x: pixel(x->0),
                    pen_y: pixel(y->0),
                    drawings: s.drawings.push(
                        DrawingView::Plot { x: pixel(x->0), y: pixel(y->0), attr: s.attr() },
                    ),
                    seed: u.seed,
                    ..s
                },
                StepResult::Done,
            )
            &&& x is None || y is None ==> r == (
                SystemView { seed: u.seed, ..s },
                StepResult::Error(Fault::Nonsense),
            )
        }),
{
    statement_laws::lemma_dispatch(s, a + seq![','] + b, Seq::empty(), ar);
    reveal(SystemView::plot);
    reveal(SystemView::valued);
    text_laws::lemma_parted(a, ',', b);
}

/// `DRAW dx, dy` draws a line from the pen to the point that is `dx` to the right
/// of it and `dy` above it, in the current colours, and leaves the pen at that
/// point. Where there is no such point, it is out of range and nothing changes.
pub proof fn lemma_draw(s: SystemView, a: Seq<char>, b: Seq<char>, ar: Arithmetic)
    requires
        !a.contains(','),
    ensures
        ({
            let (dx, t) = s.number(a, ar);
            let (dy, u) = t.number(b, ar);
            let r = s.command("DRAW"@, a + seq![','] + b, ar);
            &&& dx is Some && dy is Some ==> {
                let x = s.pen_x + pixel(dx->0);
                let y = s.pen_y + pixel(dy->0);
                let reached = i32::MIN <= x <= i32::MAX && i32::MIN <= y <= i32::MAX;
                &&& reached ==> {
                    &&& r.1 == StepResult::Done
                    &&& r.0.pen_x == x && r.0.pen_y == y
                    &&& r.0.drawings == s.drawings.push(
                        DrawingView::Line {
                            x0: s.pen_x,
                            y0: s.pen_y,
                            x1: r.0.pen_x,
                            y1: r.0.pen_y,
                            attr: s.attr(),
                        },
                    )
                    &&& r.0 == (SystemView {
                        pen_x: r.0.pen_x,
                        pen_y: r.0.pen_y,
                        drawings: r.0.drawings,
                        seed: u.seed,
                        ..s
                    })
                }
                &&& !reached ==> r == (
                    SystemView { seed: u.seed, ..s },
                    StepResult::Error(Fault::IntegerOutOfRange),
                )
            }
            &&& dx is None || dy is None ==> r == (
                SystemView { seed: u.seed, ..s },
                StepResult::Error(Fault::Nonsense),
            )
        }),
{
    statement_laws::lemma_dispatch(s, a + seq![','] + b, Seq::empty(), ar);
    reveal(SystemView::draw);
    reveal(SystemView::valued);
    text_laws::lemma_parted(a, ',', b);
}

/// A second `DRAW` starts where the first one ended.
pub proof fn lemma_draw_goes_on(s: SystemView, first: Seq<char>, second: Seq<char>, ar: Arithmetic)
    requires
        s.draw(first, ar).1 == StepResult::Done,
        s.draw(first, ar).0.draw(second, ar).1 == StepResult::Done,
    ensures
        ({
            let t = s.draw(first, ar).0;
            let u = t.draw(second, ar).0;
            match (t.drawings.last(), u.drawings.last()) {
                (
                    DrawingView::Line { x0, y0, x1, y1, attr },
                    DrawingView::Line { x0: x2, y0: y2, x1: x3, y1: y3, attr: other },
                ) => {
                    &&& x0 == s.pen_x && y0 == s.pen_y
                    &&& x2 == x1 && y2 == y1
                    &&& u.pen_x == x3 && u.pen_y == y3
                    &&& u.drawings == s.drawings.push(t.drawings.last()).push(u.drawings.last())
                },
                _ => false,
            }
        }),
{
    reveal(SystemView::draw);
    reveal(SystemView::valued);
}

/// `CIRCLE x, y, r` draws a circle round that point with that radius, in the
/// current colours, and leaves the pen at its centre.
pub proof fn lemma_circle(s: SystemView, a: Seq<char>, b: Seq<char>, c: Seq<char>, ar: Arithmetic)
    requires
        !a.contains(','),
        !b.contains(','),
    ensures
        ({
            let (x, t) = s.number(a, ar);
            let (y, u) = t.number(b, ar);
            let (z, v) = u.number(c, ar);
            let r = s.command("CIRCLE"@, a + seq![','] + b + seq![','] + c, ar);
            &&& x is Some && y is Some && z is Some ==> r == (
                SystemView {
                    pen_x: pixel(x->0),
                    pen_y: pixel(y->0),
                    drawings: s.drawings.push(
                        DrawingView::Circle {
                            x: pixel(x->0),
                            y: pixel(y->0),
                            r: pixel(z->0),
                            attr: s.attr(),
                        },
                    ),
                    seed: v.seed,
                    ..s
                },
                StepResult::Done,
            )
            &&& x is None || y is None || z is None ==> r == (
                SystemView { seed: v.seed, ..s },
                StepResult::Error(Fault::Nonsense),
            )
        }),
{
    let rest = b + seq![','] + c;
    let args = a + seq![','] + b + seq![','] + c;
    assert(args == a + seq![','] + rest);
    statement_laws::lemma_dispatch(s, args, Seq::empty(), ar);
    reveal(SystemView::circle);
    reveal(SystemView::valued);
    text_laws::lemma_parted(a, ',', rest);
    text_laws::lemma_parted(b, ',', c);
}

/// A statement that needs a comma makes no sense without one.
pub proof fn lemma_comma_missing(s: SystemView, a: Seq<char>, b: Seq<char>, ar: Arithmetic)
    requires
        !a.contains(','),
        !b.contains(','),
    ensures
        s.command("PLOT"@, a, ar) == (s, StepResult::Error(Fault::Nonsense)),
        s.command("DRAW"@, a, ar) == (s, StepResult::Error(Fault::Nonsense)),
        s.command("BEEP"@, a, ar) == (s, StepResult::Error(Fault::Nonsense)),
        s.command("CIRCLE"@, a, ar) == (s, StepResult::Error(Fault::Nonsense)),
        s.command("CIRCLE"@, a + seq![','] + b, ar) == (s, StepResult::Error(Fault::Nonsense)),
{
    statement_laws::lemma_dispatch(s, a, Seq::empty(), ar);
    statement_laws::lemma_dispatch(s, a + seq![','] + b, Seq::empty(), ar);
    reveal(SystemView::plot);
    reveal(SystemView::draw);
    reveal(SystemView::beep);
    reveal(SystemView::circle);
    text_laws::lemma_parted(a, ',', b);
    text_laws::lemma_parted(b, ',', a);
}

/// The bits of a whole number are those of its value.
proof fn lemma_is_whole(n: Number, v: nat, e: nat, k: nat)
    requires
        v <= 1000,
        !n.negative(),
        !n.is_nan(),
        n.size() == (v * k) * power2::pow2(e),
        e <= 1074,
        k == power2::pow2((1074 - e) as nat),
    ensures
        n == Number::whole(v),
{
    power2::lemma_pow2_adds((1074 - e) as nat, e);
    let p = power2::pow2(e);
    assert((v * k) * p == v * (k * p)) by (nonlinear_arith);
    number::lemma_whole(v);
    number::lemma_determined(n, Number::whole(v));
}

/// The numbers that tones are worked out with.
proof fn lemma_tone_numbers()
    ensures
        (Number { bits: machine::CONCERT_PITCH }) == Number::whole(440),
        (Number { bits: machine::CONCERT_SEMITONE }) == Number::whole(9),
        (Number { bits: machine::SEMITONES }) == Number::whole(12),
        (Number { bits: machine::OCTAVE }) == Number::whole(2),
        (Number { bits: machine::FRAMES }) == Number::whole(60),
{
    power2::lemma2_to64_rest();
    power2::lemma2_to64();
    lemma_is_whole(Number { bits: 0x407b_8000_0000_0000 }, 440, 1030, 0x1000_0000_0000);
    lemma_is_whole(Number { bits: 0x4022_0000_0000_0000 }, 9, 1025, 0x2_0000_0000_0000);
    lemma_is_whole(Number { bits: 0x4028_0000_0000_0000 }, 12, 1025, 0x2_0000_0000_0000);
    lemma_is_whole(Number { bits: 0x4000_0000_0000_0000 }, 2, 1023, 0x8_0000_0000_0000);
    lemma_is_whole(Number { bits: 0x404e_0000_0000_0000 }, 60, 1027, 0x8000_0000_0000);
}

/// `BEEP duration, pitch` queues a tone of that many seconds, from 0 to 120. Its
/// frequency is 440 times two to the power of a twelfth of the pitch less nine.
/// The program waits for it: sixty frames a second, a begun frame counts, and
/// one more.
#[verifier::rlimit(60)]
pub proof fn lemma_beep(s: SystemView, a: Seq<char>, b: Seq<char>, ar: Arithmetic)
    requires
        !a.contains(','),
    ensures
        ({
            let (d, t) = s.number(a, ar);
            let (p, u) = t.number(b, ar);
            let r = s.command("BEEP"@, a + seq![','] + b, ar);
            &&& d is Some && p is Some && d->0.within(0, 120) ==> {
                let octaves = (ar.operate)(
                    Operation::Divide,
                    (ar.operate)(Operation::Subtract, p->0, Number::whole(9)),
                    Number::whole(12),
                );
                let hertz = (ar.operate)(
                    Operation::Multiply,
                    Number::whole(440),
                    (ar.operate)(Operation::Power, Number::whole(2), octaves),
                );
                let frames = (ar.operate)(Operation::Multiply, d->0, Number::whole(60)).ceiled();
                let wait = s.wait + frames.saturated(0, u32::MAX as int) + 1;
                r == (
                    SystemView {
                        beeps: s.beeps.push((d->0, hertz)),
                        wait: at_most(wait, u32::MAX as int) as u32,
                        seed: u.seed,
                        ..s
                    },
                    StepResult::Done,
                )
            }
            &&& d is Some && p is Some && !d->0.within(0, 120) ==> r == (
                SystemView { seed: u.seed, ..s },
                StepResult::Error(Fault::IntegerOutOfRange),
            )
            &&& d is None || p is None ==> r == (
                SystemView { seed: u.seed, ..s },
                StepResult::Error(Fault::Nonsense),
            )
        }),
{
    statement_laws::lemma_dispatch(s, a + seq![','] + b, Seq::empty(), ar);
    reveal(SystemView::beep);
    reveal(SystemView::valued);
    text_laws::lemma_parted(a, ',', b);
    lemma_tone_numbers();
}

/// `CLS` leaves no pixel set and the cursor at the top left, and tells the host
/// in which colours.
pub proof fn lemma_cls(s: SystemView, args: Seq<char>, ar: Arithmetic)
    ensures
        ({
            let r = s.command("CLS"@, args, ar);
            &&& r.1 == StepResult::Done
            &&& r.0.display.bits == Seq::new(6144, |k: int| 0u8)
            &&& r.0 == (SystemView {
                display: DisplayView { bits: r.0.display.bits, col: 0, row: 0, ..s.display },
                drawings: s.drawings.push(DrawingView::Clear { attr: s.attr() }),
                ..s
            })
        }),
{
    statement_laws::lemma_dispatch(s, args, Seq::empty(), ar);
}

/// Lines of a program as text, each with its number, a blank and a line feed.
pub open spec fn listing_text(lines: Seq<(u16, Seq<char>)>) -> Seq<char>
    decreases lines.len(),
{
    if lines.len() == 0 {
        Seq::empty()
    } else {
        listing_text(lines.drop_last()) + text::decimal(lines.last().0 as nat) + seq![' ']
            + lines.last().1 + seq!['\n']
    }
}

proof fn lemma_listed(d: DisplayView, lines: Seq<(u16, Seq<char>)>)
    ensures
        machine::listed(d, lines) == d.printed(listing_text(lines)),
    decreases lines.len(),
{
    if lines.len() > 0 {
        lemma_listed(d, lines.drop_last());
        let before = listing_text(lines.drop_last());
        let line = machine::numbered(lines.last().0, lines.last().1);
        reveal_strlit(" ");
        assert(" "@ == seq![' ']);
        assert(listing_text(lines) == before + (line + seq!['\n']));
        d.lemma_printed_joined(before, line + seq!['\n']);
        let e = d.printed(before);
        e.lemma_printed_joined(line, seq!['\n']);
        let f = e.printed(line);
        assert(seq!['\n'].drop_last() == Seq::<char>::empty());
        assert(f.printed(Seq::empty()) == f);
        assert(f.printed(seq!['\n']) == f.newline());
    }
}

/// `LIST` prints every line of the program with its number, in ascending order,
/// each on lines of its own, and changes nothing else.
pub proof fn lemma_list(s: SystemView, args: Seq<char>, ar: Arithmetic)
    ensures
        ({
            let lines = program::lines_from(s.listing, 0);
            &&& s.command("LIST"@, args, ar) == (
                SystemView { display: s.display.printed(listing_text(lines)), ..s },
                StepResult::Done,
            )
            &&& forall|i: int, j: int| 0 <= i < j < lines.len() ==> (#[trigger] lines[i]).0 < (
            #[trigger] lines[j]).0
            &&& forall|i: int|
                0 <= i < lines.len() ==> s.listing.contains_key((#[trigger] lines[i]).0)
                    && s.listing[lines[i].0] == lines[i].1
            &&& forall|k: u16| #[trigger]
                s.listing.contains_key(k) ==> lines.contains((k, s.listing[k]))
        }),
{
    statement_laws::lemma_dispatch(s, args, Seq::empty(), ar);
    reveal(SystemView::list);
    lemma_listed(s.display, program::lines_from(s.listing, 0));
    program::lemma_lines_in_order(s.listing, 0);
}

} // verus!
