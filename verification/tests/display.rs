use zxbasic::display::{glyph_for, Display, CHAR_W, FRAME_RGBA_LEN, PRINT_BOTTOM};

#[test]
fn print_advances_cursor() {
    let mut d = Display::new();
    d.print("HI");
    assert_eq!(d.print_cursor(), (2, 0));
}

#[test]
fn print_wraps_on_width() {
    let mut d = Display::new();
    d.print(&"X".repeat(CHAR_W));
    // After exactly CHAR_W characters the wrap moves us to column 0, row 1.
    assert_eq!(d.print_cursor(), (0, 1));
}

#[test]
fn print_scrolls_at_bottom() {
    let mut d = Display::new();
    d.set_print_cursor(0, PRINT_BOTTOM);
    d.print("Z\n");
    // Wrote on the last row, then newline: scroll. The cursor stays on the row.
    assert_eq!(d.print_cursor(), (0, PRINT_BOTTOM));
}

#[test]
fn print_area_ends_two_rows_above_the_foot() {
    let mut d = Display::new();
    d.print("top\n\n");
    for row in 2..22 {
        assert_eq!(d.print_cursor(), (0, row));
        d.print("\n");
    }
    // The newline in the last row has scrolled the first one out.
    assert_eq!(d.print_cursor(), (0, 21));
    assert!(frame(&d) == frame(&Display::new()));
    let mut d = Display::new();
    d.print(&"\n".repeat(22));
    assert_eq!(d.print_cursor(), (0, 21));
}

fn frame(d: &Display) -> Vec<u8> {
    let mut out = vec![0; FRAME_RGBA_LEN];
    d.render_into(&mut out);
    out
}

/// The bytes of a frame above the input row.
fn above_input(d: &Display) -> Vec<u8> {
    frame(d)[..23 * 8 * 256 * 4].to_vec()
}

/// The bytes of the rows below the print area.
fn below_print_area(d: &Display) -> Vec<u8> {
    frame(d)[22 * 8 * 256 * 4..].to_vec()
}

/// The bytes of the input row.
fn input_row(d: &Display) -> Vec<u8> {
    frame(d)[23 * 8 * 256 * 4..].to_vec()
}

#[test]
fn printing_leaves_the_rows_below_alone() {
    let mut d = Display::new();
    d.print_str(0, 22, "between");
    d.print_input("typed", 5);
    let before = below_print_area(&d);
    for _ in 0..40 {
        d.println("a line that scrolls");
    }
    assert!(below_print_area(&d) == before);
}

#[test]
fn typing_leaves_the_print_area_alone() {
    let mut d = Display::new();
    d.print("text");
    let before = above_input(&d);
    d.print_input("first", 5);
    d.print_input("2", 1);
    assert!(above_input(&d) == before);
    assert_eq!(d.print_cursor(), (4, 0));
    let mut e = Display::new();
    e.print_input("2", 1);
    assert!(input_row(&d) == input_row(&e));
}

#[test]
fn joined_texts_print_alike() {
    let mut d = Display::new();
    d.print("one\ntwo");
    let mut e = Display::new();
    e.print("one\nt");
    e.print("wo");
    assert!(frame(&d) == frame(&e));
    assert_eq!(d.print_cursor(), e.print_cursor());
}

#[test]
fn clearing_leaves_paper() {
    let mut d = Display::default();
    d.print("text");
    d.clear();
    assert!(frame(&d).iter().all(|b| *b == 0xff));
    assert_eq!(d.print_cursor(), (0, 0));
}

#[test]
fn scrolling_moves_rows_up() {
    let mut d = Display::new();
    d.set_print_cursor(0, 1);
    d.print("X");
    let mut e = Display::new();
    e.print("X");
    d.scroll_print_area_up();
    assert!(frame(&d) == frame(&e));
}

#[test]
fn cells_outside_the_screen_are_ignored() {
    let mut d = Display::new();
    d.print_at(32, 0, 'X');
    d.print_at(0, 24, 'X');
    d.print_str(30, 0, "");
    d.clear_row(24);
    assert!(frame(&d) == frame(&Display::new()));
    d.print_str(30, 0, "XYZ");
    let mut e = Display::new();
    e.print_at(30, 0, 'X');
    e.print_at(31, 0, 'Y');
    assert!(frame(&d) == frame(&e));
    d.clear_row(0);
    assert!(frame(&d) == frame(&Display::new()));
    d.set_print_cursor(99, 99);
    assert_eq!(d.print_cursor(), (31, 21));
}

#[test]
fn characters_without_a_glyph_are_blank() {
    assert_eq!(glyph_for('\u{a9}'), [0; 8]);
    assert_eq!(glyph_for('\n'), [0; 8]);
    assert_eq!(glyph_for('!'), [0, 16, 16, 16, 16, 0, 16, 0]);
}
