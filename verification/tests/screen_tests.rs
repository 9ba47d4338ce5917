use nhterm::screen::ScreenBuffer;
use nhterm::window::CharSource;
use nhterm::window::ExtractError;

fn cell(s: &nhterm::screen::ScreenBuffer, row: usize, col: usize) -> char {
    s.char_at(row + 1, col + 1).expect("cell in bounds")
}

fn cursor(s: &ScreenBuffer) -> (usize, usize) {
    let p = s.cursor_pos();
    (p.y, p.x)
}

#[test]
fn printable_fills_left_to_right() {
    let mut s = ScreenBuffer::new(5, 3);
    s.update(b"abc");
    assert_eq!(cell(&s, 0, 0), 'a');
    assert_eq!(cell(&s, 0, 1), 'b');
    assert_eq!(cell(&s, 0, 2), 'c');
    assert_eq!(cursor(&s), (0, 3));
    assert_eq!(cell(&s, 0, 3), '\0');
}

#[test]
fn printable_wraps_at_width() {
    let mut s = ScreenBuffer::new(4, 3);
    s.update(b"abcdef");
    assert_eq!(cell(&s, 0, 3), 'd');
    assert_eq!(cell(&s, 1, 0), 'e');
    assert_eq!(cell(&s, 1, 1), 'f');
    assert_eq!(cursor(&s), (1, 2));
}

#[test]
fn printable_wraps_to_top_without_scrollback() {
    let mut s = ScreenBuffer::new(3, 2);
    s.update(b"abcdefZ");
    // the seventh character lands back on the top row, overwriting 'a'
    assert_eq!(cell(&s, 0, 0), 'Z');
    assert_eq!(cell(&s, 0, 1), 'b');
    assert_eq!(cell(&s, 1, 2), 'f');
}

#[test]
fn lf_moves_down_and_clamps() {
    let mut s = ScreenBuffer::new(5, 3);
    s.update(b"ab\n");
    assert_eq!(cursor(&s), (1, 2));
    s.update(b"\n\n\n\n");
    assert_eq!(cursor(&s), (2, 2));
}

#[test]
fn cr_returns_to_column_zero() {
    let mut s = ScreenBuffer::new(5, 3);
    s.update(b"abc\r");
    assert_eq!(cursor(&s), (0, 0));
    assert_eq!(cell(&s, 0, 0), 'a');
}

#[test]
fn bs_at_column_zero_is_noop() {
    let mut s = ScreenBuffer::new(5, 3);
    s.update(b"\x08");
    assert_eq!(cursor(&s), (0, 0));
    s.update(b"\n\x08\x08");
    assert_eq!(cursor(&s), (1, 0));
}

#[test]
fn bs_blanks_the_previous_cell() {
    let mut s = ScreenBuffer::new(5, 3);
    s.update(b"ab\x08");
    assert_eq!(cursor(&s), (0, 1));
    assert_eq!(cell(&s, 0, 1), ' ');
    assert_eq!(cell(&s, 0, 0), 'a');
}

#[test]
fn erase_display_blanks_grid_and_homes_cursor() {
    let mut s = ScreenBuffer::new(5, 3);
    s.update(b"hello\nworld");
    s.update(b"\x1b[2J");
    assert_eq!(cursor(&s), (0, 0));
    for r in 0..3 {
        for c in 0..5 {
            assert_eq!(cell(&s, r, c), '\0');
        }
    }
}

#[test]
fn set_position_is_one_based_and_clamped() {
    let mut s = ScreenBuffer::new(80, 24);
    s.update(b"\x1b[5;10H");
    assert_eq!(cursor(&s), (4, 9));
    let mut t = ScreenBuffer::new(3, 3);
    t.update(b"\x1b[5;10H");
    assert_eq!(cursor(&t), (2, 2));
    t.update(b"\x1b[H");
    assert_eq!(cursor(&t), (0, 0));
}

#[test]
fn save_and_restore_bring_back_cursor_and_charset() {
    let mut s = ScreenBuffer::new(10, 5);
    s.update(b"\x1b[3;4H\x1b7");
    s.update(b"\x1b[1;1H\x1b(0");
    // while the VT graphics map is active, a 'q' renders as a bar
    s.update(b"q");
    assert_eq!(cell(&s, 0, 0), '\u{2500}');
    s.update(b"\x1b8");
    assert_eq!(cursor(&s), (2, 3));
    // the restored G0 map is the standard one again
    s.update(b"q");
    assert_eq!(cell(&s, 2, 3), 'q');
}

#[test]
fn vt_graphics_map_draws_borders() {
    let mut s = ScreenBuffer::new(10, 5);
    s.update(b"\x1b(0lqk\x1b(Blqk");
    assert_eq!(cell(&s, 0, 0), '\u{250c}');
    assert_eq!(cell(&s, 0, 1), '\u{2500}');
    assert_eq!(cell(&s, 0, 2), '\u{2510}');
    assert_eq!(cell(&s, 0, 3), 'l');
    assert_eq!(cell(&s, 0, 4), 'q');
    assert_eq!(cell(&s, 0, 5), 'k');
}

#[test]
fn can_aborts_a_pending_escape() {
    let mut s = ScreenBuffer::new(10, 3);
    s.update(b"\x1b[2\x18J");
    // the sequence was aborted, so the J is plain text
    assert_eq!(cell(&s, 0, 0), 'J');
}

#[test]
fn osc_payload_is_discarded() {
    let mut s = ScreenBuffer::new(10, 3);
    s.update(b"\x1b]0;some title\x1b\\A");
    assert_eq!(cell(&s, 0, 0), 'A');
    assert_eq!(cell(&s, 0, 1), '\0');
}

#[test]
fn erase_line_modes() {
    let mut s = ScreenBuffer::new(5, 2);
    s.update(b"abcde\x1b[1;3H\x1b[0K");
    assert_eq!(cell(&s, 0, 0), 'a');
    assert_eq!(cell(&s, 0, 1), 'b');
    assert_eq!(cell(&s, 0, 2), '\0');
    assert_eq!(cell(&s, 0, 4), '\0');
    // an empty parameter field defaults to 1: erase from the line start
    // through the cursor
    let mut u = ScreenBuffer::new(5, 2);
    u.update(b"abcde\x1b[1;3H\x1b[K");
    assert_eq!(cell(&u, 0, 0), '\0');
    assert_eq!(cell(&u, 0, 2), '\0');
    assert_eq!(cell(&u, 0, 3), 'd');
    assert_eq!(cell(&u, 0, 4), 'e');
    let mut t = ScreenBuffer::new(5, 2);
    t.update(b"abcde\x1b[1;3H\x1b[2K");
    for c in 0..5 {
        assert_eq!(cell(&t, 0, c), '\0');
    }
}

#[test]
fn erase_chars_writes_spaces_and_advances() {
    let mut s = ScreenBuffer::new(6, 2);
    s.update(b"abcdef\x1b[1;2H\x1b[3X");
    assert_eq!(cell(&s, 0, 0), 'a');
    assert_eq!(cell(&s, 0, 1), ' ');
    assert_eq!(cell(&s, 0, 2), ' ');
    assert_eq!(cell(&s, 0, 3), ' ');
    assert_eq!(cell(&s, 0, 4), 'e');
    // the cursor advanced with each erased cell
    assert_eq!(cursor(&s), (0, 4));
}

#[test]
fn cursor_moves_clamp_at_edges() {
    let mut s = ScreenBuffer::new(4, 4);
    s.update(b"\x1b[2;2H\x1b[9A");
    assert_eq!(cursor(&s), (0, 1));
    s.update(b"\x1b[9B");
    assert_eq!(cursor(&s), (3, 1));
    s.update(b"\x1b[9C");
    assert_eq!(cursor(&s), (3, 3));
    s.update(b"\x1b[9D");
    assert_eq!(cursor(&s), (3, 0));
}

#[test]
fn out_of_bounds_read_is_reported() {
    let s = ScreenBuffer::new(4, 4);
    assert_eq!(s.char_at(0, 1), Err(ExtractError::OutOfBounds(0, 1)));
    assert_eq!(s.char_at(1, 5), Err(ExtractError::OutOfBounds(1, 5)));
    assert_eq!(s.char_at(1, 1), Ok('\0'));
}

#[test]
fn overlong_escape_is_aborted() {
    let mut s = ScreenBuffer::new(80, 4);
    let mut bytes: Vec<u8> = Vec::new();
    bytes.extend_from_slice(b"\x1b[");
    bytes.extend_from_slice(&vec![b'1'; 300]);
    bytes.push(b'm');
    s.update(&bytes);
    // the pending buffer holds ESC, the bracket, and 254 digits when the
    // cap of 256 is hit; the digit that hits it is dropped with the
    // sequence, and the remaining 45 digits and the final are plain text
    assert_eq!(cell(&s, 0, 0), '1');
    assert_eq!(cell(&s, 0, 44), '1');
    assert_eq!(cell(&s, 0, 45), 'm');
    assert_eq!(cell(&s, 0, 46), '\0');
}

#[test]
fn stray_bytes_inside_sequences_are_absorbed() {
    // a byte without a matching rule is accumulated and ignored
    let mut s = ScreenBuffer::new(10, 3);
    s.update(b"\x1b]title\x1bstill\x1b\\A");
    assert_eq!(cell(&s, 0, 0), 'A');
}
