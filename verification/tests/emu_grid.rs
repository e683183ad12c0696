//! Grid, cursor and escape-sequence behavior of the terminal emulator.

use ptycore::emu::{Cell, Emu, Rgba};

fn cell_at(e: &Emu, x: usize, y: usize) -> Cell {
    e.grid[y * e.cols + x]
}

fn default_cell() -> Cell {
    Cell::default()
}

#[test]
fn new_grid_is_blank_with_clamped_dimensions() {
    let e = Emu::new(3, 2);
    assert_eq!(e.cols, 3);
    assert_eq!(e.rows, 2);
    assert_eq!(e.grid.len(), 6);
    assert_eq!(e.cur_x, 0);
    assert_eq!(e.cur_y, 0);
    for c in &e.grid {
        assert_eq!(*c, default_cell());
    }
    let tiny = Emu::new(0, 0);
    assert_eq!(tiny.cols, 1);
    assert_eq!(tiny.rows, 1);
    assert_eq!(tiny.grid.len(), 1);
}

#[test]
fn default_cell_is_a_space_in_default_colors() {
    let c = Cell::default();
    assert_eq!(c.ch, ' ');
    assert_eq!(c.fg, Rgba(0xD6, 0xEF, 0xFF, 0xFF));
    assert_eq!(c.bg, Rgba(0x07, 0x12, 0x1A, 0xFF));
}

#[test]
fn resize_discards_content_and_homes_cursor() {
    let mut e = Emu::new(3, 2);
    e.on_bytes(b"AB\nA");
    e.resize(4, 3);
    assert_eq!(e.cols, 4);
    assert_eq!(e.rows, 3);
    assert_eq!(e.grid.len(), 12);
    assert_eq!((e.cur_x, e.cur_y), (0, 0));
    for c in &e.grid {
        assert_eq!(*c, default_cell());
    }
    e.resize(0, 5);
    assert_eq!((e.cols, e.rows), (1, 5));
}

#[test]
fn printable_ascii_fills_cells_in_order() {
    let mut e = Emu::new(4, 2);
    e.on_bytes(b"hi!");
    assert_eq!(cell_at(&e, 0, 0).ch, 'h');
    assert_eq!(cell_at(&e, 1, 0).ch, 'i');
    assert_eq!(cell_at(&e, 2, 0).ch, '!');
    assert_eq!(cell_at(&e, 3, 0), default_cell());
    assert_eq!((e.cur_x, e.cur_y), (3, 0));
}

#[test]
fn full_row_wraps_immediately() {
    let mut e = Emu::new(3, 2);
    e.on_bytes(b"abc");
    // the last write of the row wraps the cursor at once
    assert_eq!((e.cur_x, e.cur_y), (0, 1));
    assert_eq!(cell_at(&e, 0, 0).ch, 'a');
    assert_eq!(cell_at(&e, 1, 0).ch, 'b');
    assert_eq!(cell_at(&e, 2, 0).ch, 'c');
    e.on_bytes(b"d");
    assert_eq!(cell_at(&e, 0, 1).ch, 'd');
    assert_eq!((e.cur_x, e.cur_y), (1, 1));
}

#[test]
fn wrap_on_last_row_scrolls() {
    let mut e = Emu::new(2, 2);
    e.on_bytes(b"abcd");
    // "ab" filled row 0 and wrapped; "cd" filled the last row, whose wrap
    // scrolled the grid once
    assert_eq!(cell_at(&e, 0, 0).ch, 'c');
    assert_eq!(cell_at(&e, 1, 0).ch, 'd');
    assert_eq!(cell_at(&e, 0, 1), default_cell());
    assert_eq!((e.cur_x, e.cur_y), (0, 1));
    e.on_bytes(b"e");
    assert_eq!(cell_at(&e, 0, 1).ch, 'e');
    assert_eq!((e.cur_x, e.cur_y), (1, 1));
}

#[test]
fn newline_carriage_return_backspace() {
    let mut e = Emu::new(4, 3);
    e.on_bytes(b"ab\ncd\rx");
    assert_eq!(cell_at(&e, 0, 0).ch, 'a');
    assert_eq!(cell_at(&e, 1, 0).ch, 'b');
    // newline moved to column 0 of row 1; "cd" written; CR; 'x' overwrites 'c'
    assert_eq!(cell_at(&e, 0, 1).ch, 'x');
    assert_eq!(cell_at(&e, 1, 1).ch, 'd');
    assert_eq!((e.cur_x, e.cur_y), (1, 1));
    e.on_bytes(b"\x08\x08y");
    // two backspaces stop at column 0
    assert_eq!(cell_at(&e, 0, 1).ch, 'y');
    assert_eq!((e.cur_x, e.cur_y), (1, 1));
}

#[test]
fn other_control_bytes_are_ignored() {
    let mut e = Emu::new(4, 2);
    e.on_bytes(b"a\x00\x01\x07\x7fb");
    assert_eq!(cell_at(&e, 0, 0).ch, 'a');
    assert_eq!(cell_at(&e, 1, 0).ch, 'b');
    assert_eq!((e.cur_x, e.cur_y), (2, 0));
}

#[test]
fn newline_on_last_row_scrolls_rows_up() {
    let mut e = Emu::new(3, 3);
    e.on_bytes(b"ab\ncd\nef");
    assert_eq!(cell_at(&e, 0, 0).ch, 'a');
    assert_eq!(cell_at(&e, 0, 2).ch, 'e');
    e.on_bytes(b"\n");
    // row 0 ("ab") discarded, rows shifted up, last row blank
    assert_eq!(cell_at(&e, 0, 0).ch, 'c');
    assert_eq!(cell_at(&e, 1, 0).ch, 'd');
    assert_eq!(cell_at(&e, 0, 1).ch, 'e');
    assert_eq!(cell_at(&e, 1, 1).ch, 'f');
    assert_eq!(cell_at(&e, 0, 2), default_cell());
    assert_eq!(cell_at(&e, 1, 2), default_cell());
    assert_eq!((e.cur_x, e.cur_y), (0, 2));
}

#[test]
fn scroll_up_on_single_row_grid_is_a_no_op() {
    let mut e = Emu::new(3, 1);
    e.on_bytes(b"ab");
    e.scroll_up();
    assert_eq!(cell_at(&e, 0, 0).ch, 'a');
    assert_eq!(cell_at(&e, 1, 0).ch, 'b');
    assert_eq!((e.cur_x, e.cur_y), (2, 0));
}

#[test]
fn scroll_up_shifts_every_row() {
    let mut e = Emu::new(3, 3);
    e.on_bytes(b"ab\ncd\nef");
    e.scroll_up();
    assert_eq!(cell_at(&e, 0, 0).ch, 'c');
    assert_eq!(cell_at(&e, 1, 0).ch, 'd');
    assert_eq!(cell_at(&e, 0, 1).ch, 'e');
    assert_eq!(cell_at(&e, 1, 1).ch, 'f');
    assert_eq!(cell_at(&e, 0, 2), default_cell());
}

#[test]
fn full_row_on_one_row_grid_keeps_the_row() {
    let mut e = Emu::new(3, 1);
    e.on_bytes(b"abc");
    // the wrap's scroll is a no-op on a one-row grid: the characters stay
    // and the cursor returns to the row's start
    assert_eq!(cell_at(&e, 0, 0).ch, 'a');
    assert_eq!(cell_at(&e, 1, 0).ch, 'b');
    assert_eq!(cell_at(&e, 2, 0).ch, 'c');
    assert_eq!((e.cur_x, e.cur_y), (0, 0));
}

#[test]
fn chunk_boundaries_are_invisible() {
    let text: &[u8] = "h\u{e9}llo \u{4f60}\u{597d}\r\n\x1b]0;t\x07\x1b[2;2Hx".as_bytes();
    for split in 0..=text.len() {
        let mut whole = Emu::new(8, 3);
        whole.on_bytes(text);
        let mut parts = Emu::new(8, 3);
        parts.on_bytes(&text[..split]);
        parts.on_bytes(&text[split..]);
        assert_eq!((whole.cur_x, whole.cur_y), (parts.cur_x, parts.cur_y));
        assert_eq!(whole.grid, parts.grid);
    }
}

#[test]
fn multibyte_characters_are_reassembled() {
    let mut e = Emu::new(6, 2);
    let bytes = "\u{e9}".as_bytes();
    e.on_bytes(&bytes[..1]);
    // incomplete character: nothing drawn yet
    assert_eq!((e.cur_x, e.cur_y), (0, 0));
    e.on_bytes(&bytes[1..]);
    assert_eq!(cell_at(&e, 0, 0).ch, '\u{e9}');
    assert_eq!((e.cur_x, e.cur_y), (1, 0));
}

#[test]
fn wide_character_advances_two_columns() {
    let mut e = Emu::new(4, 2);
    e.on_bytes("\u{4f60}a".as_bytes());
    assert_eq!(cell_at(&e, 0, 0).ch, '\u{4f60}');
    assert_eq!(cell_at(&e, 2, 0).ch, 'a');
    assert_eq!((e.cur_x, e.cur_y), (3, 0));
}

#[test]
fn wide_character_reaching_the_edge_wraps() {
    let mut e = Emu::new(2, 2);
    e.on_bytes("\u{4f60}".as_bytes());
    assert_eq!(cell_at(&e, 0, 0).ch, '\u{4f60}');
    assert_eq!((e.cur_x, e.cur_y), (0, 1));
}

#[test]
fn invalid_utf8_draws_replacement_character() {
    let mut e = Emu::new(6, 2);
    // stray continuation byte, then an overlong encoding of '/'
    e.on_bytes(&[0x80, 0xC0, 0xAF, b'z']);
    assert_eq!(cell_at(&e, 0, 0).ch, '\u{fffd}');
    assert_eq!(cell_at(&e, 1, 0).ch, '\u{fffd}');
    assert_eq!(cell_at(&e, 2, 0).ch, 'z');
}

#[test]
fn cursor_position_moves_and_clamps() {
    let mut e = Emu::new(5, 5);
    e.on_bytes(b"\x1b[3;4H");
    assert_eq!((e.cur_x, e.cur_y), (3, 2));
    e.on_bytes(b"\x1b[99;99H");
    assert_eq!((e.cur_x, e.cur_y), (4, 4));
    e.on_bytes(b"\x1b[H");
    assert_eq!((e.cur_x, e.cur_y), (0, 0));
    e.on_bytes(b"\x1b[;3H");
    assert_eq!((e.cur_x, e.cur_y), (2, 0));
    e.on_bytes(b"\x1b[2;3f");
    assert_eq!((e.cur_x, e.cur_y), (2, 1));
}

#[test]
fn erase_display_scenario() {
    let mut e = Emu::new(3, 2);
    e.on_bytes(b"AB");
    assert_eq!((e.cur_x, e.cur_y), (2, 0));
    assert_eq!(cell_at(&e, 0, 0).ch, 'A');
    assert_eq!(cell_at(&e, 1, 0).ch, 'B');
    e.on_bytes(b"\x1b[2J");
    for c in &e.grid {
        assert_eq!(*c, default_cell());
    }
    assert_eq!((e.cur_x, e.cur_y), (0, 0));
}

#[test]
fn erase_display_other_parameters_do_nothing() {
    let mut e = Emu::new(3, 2);
    e.on_bytes(b"AB\x1b[0J\x1b[1J");
    assert_eq!(cell_at(&e, 0, 0).ch, 'A');
    assert_eq!(cell_at(&e, 1, 0).ch, 'B');
    assert_eq!((e.cur_x, e.cur_y), (2, 0));
}

#[test]
fn cursor_position_then_write_scenario() {
    let mut e = Emu::new(5, 5);
    e.on_bytes(b"\x1b[2;3H");
    assert_eq!((e.cur_x, e.cur_y), (2, 1));
    e.on_bytes(b"*");
    assert_eq!(cell_at(&e, 2, 1).ch, '*');
    assert_eq!((e.cur_x, e.cur_y), (3, 1));
}

#[test]
fn unrecognized_sequences_are_consumed_silently() {
    let mut e = Emu::new(6, 2);
    e.on_bytes(b"a\x1b[31mb\x1b[5Xc\x1b(Bd");
    assert_eq!(cell_at(&e, 0, 0).ch, 'a');
    assert_eq!(cell_at(&e, 1, 0).ch, 'b');
    assert_eq!(cell_at(&e, 2, 0).ch, 'c');
    // the charset designation ESC ( B is consumed whole
    assert_eq!(cell_at(&e, 3, 0).ch, 'd');
    assert_eq!((e.cur_x, e.cur_y), (4, 0));
}

#[test]
fn title_string_sequences_are_consumed_whole() {
    let mut e = Emu::new(8, 2);
    // terminated by the bell
    e.on_bytes(b"a\x1b]0;My Title\x07b");
    assert_eq!(cell_at(&e, 0, 0).ch, 'a');
    assert_eq!(cell_at(&e, 1, 0).ch, 'b');
    assert_eq!((e.cur_x, e.cur_y), (2, 0));
    // terminated by the two-byte string terminator
    e.on_bytes(b"\x1b]2;more\x1b\\c");
    assert_eq!(cell_at(&e, 2, 0).ch, 'c');
    assert_eq!((e.cur_x, e.cur_y), (3, 0));
}

#[test]
fn device_control_strings_are_consumed_whole() {
    let mut e = Emu::new(6, 2);
    e.on_bytes(b"a\x1bPq#0;1\x1b\\b");
    assert_eq!(cell_at(&e, 0, 0).ch, 'a');
    assert_eq!(cell_at(&e, 1, 0).ch, 'b');
    assert_eq!((e.cur_x, e.cur_y), (2, 0));
}

#[test]
fn control_bytes_inside_a_sequence_act_at_once() {
    let mut e = Emu::new(4, 2);
    // a carriage return in the middle of a control sequence moves the
    // cursor before the (unrecognized) sequence is discarded
    e.on_bytes(b"a\x1b[\rKz");
    assert_eq!(cell_at(&e, 0, 0).ch, 'z');
    assert_eq!((e.cur_x, e.cur_y), (1, 0));
}

#[test]
fn graphic_rendition_reset_keeps_default_colors() {
    let mut e = Emu::new(4, 2);
    e.on_bytes(b"\x1b[0ma\x1b[mb");
    assert_eq!(cell_at(&e, 0, 0), Cell { ch: 'a', ..Cell::default() });
    assert_eq!(cell_at(&e, 1, 0), Cell { ch: 'b', ..Cell::default() });
}

#[test]
fn draw_char_directly() {
    let mut e = Emu::new(3, 2);
    e.draw_char('q');
    assert_eq!(cell_at(&e, 0, 0).ch, 'q');
    e.draw_char('\n');
    assert_eq!((e.cur_x, e.cur_y), (0, 1));
}
