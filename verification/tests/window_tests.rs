use nhterm::screen::ScreenBuffer;
use nhterm::window::{CharSource, ExtractError, SubWindow, get_subwindows, trace_border};

/// Writes `text` at zero-based `(row, col)`, through the VT graphics map
/// when `vt` is set.
fn put_at(s: &mut ScreenBuffer, row: usize, col: usize, vt: bool, text: &str) {
    let mut bytes: Vec<u8> = Vec::new();
    bytes.extend_from_slice(format!("\x1b[{};{}H", row + 1, col + 1).as_bytes());
    if vt {
        bytes.extend_from_slice(b"\x1b(0");
    } else {
        bytes.extend_from_slice(b"\x1b(B");
    }
    bytes.extend_from_slice(text.as_bytes());
    s.update(&bytes);
}

/// Draws a closed box whose interior is `ih` rows by `iw` columns, with
/// the border corner at zero-based `(top, left)`.
fn draw_box(s: &mut ScreenBuffer, top: usize, left: usize, ih: usize, iw: usize) {
    put_at(s, top, left, true, &format!("l{}k", "q".repeat(iw)));
    for r in 0..ih {
        put_at(s, top + 1 + r, left, true, "x");
        put_at(s, top + 1 + r, left + 1 + iw, true, "x");
    }
    put_at(s, top + ih + 1, left, true, &format!("m{}j", "q".repeat(iw)));
}

fn lines_of(w: &SubWindow) -> Vec<String> {
    w.get_lines().expect("line extraction succeeds")
}

#[test]
fn closed_box_yields_exactly_its_interior() {
    let mut s = ScreenBuffer::new(12, 6);
    draw_box(&mut s, 0, 0, 2, 5);
    put_at(&mut s, 1, 1, false, "hello");
    put_at(&mut s, 2, 1, false, "there");
    let ws = get_subwindows(&s).expect("extraction succeeds");
    assert_eq!(ws.len(), 1);
    let w = &ws[0];
    let origin = w.get_origin();
    assert_eq!((origin.y, origin.x), (1, 1));
    assert_eq!(w.get_size(), (2, 5));
    assert_eq!(lines_of(w), vec!["hello".to_string(), "there".to_string()]);
}

#[test]
fn broken_border_yields_no_window_for_that_candidate() {
    let mut s = ScreenBuffer::new(12, 6);
    draw_box(&mut s, 0, 0, 2, 5);
    put_at(&mut s, 1, 1, false, "hello");
    // overwrite one border cell with plain text
    put_at(&mut s, 0, 3, false, "X");
    let ws = get_subwindows(&s).expect("extraction succeeds");
    assert_eq!(ws.len(), 0);
}

#[test]
fn broken_candidate_does_not_abort_the_others() {
    let mut s = ScreenBuffer::new(20, 10);
    draw_box(&mut s, 0, 0, 1, 3);
    draw_box(&mut s, 0, 8, 1, 3);
    put_at(&mut s, 1, 9, false, "ok");
    // break the first box's bottom border
    put_at(&mut s, 2, 2, false, "X");
    let ws = get_subwindows(&s).expect("extraction succeeds");
    assert_eq!(ws.len(), 1);
    let origin = ws[0].get_origin();
    assert_eq!((origin.y, origin.x), (1, 9));
    assert_eq!(lines_of(&ws[0]), vec!["ok".to_string()]);
}

#[test]
fn implicit_top_left_window_is_returned_last() {
    let mut s = ScreenBuffer::new(12, 8);
    put_at(&mut s, 0, 0, false, "msg");
    draw_box(&mut s, 2, 4, 1, 2);
    let ws = get_subwindows(&s).expect("extraction succeeds");
    assert_eq!(ws.len(), 2);
    // the boxed window comes first, in scan order
    let origin = ws[0].get_origin();
    assert_eq!((origin.y, origin.x), (3, 5));
    // the implicit window spans the rows above and columns left of the
    // least candidate origin
    let origin = ws[1].get_origin();
    assert_eq!((origin.y, origin.x), (0, 0));
    assert_eq!(ws[1].get_size(), (2, 4));
    assert_eq!(lines_of(&ws[1]), vec!["msg".to_string(), "".to_string()]);
}

#[test]
fn no_implicit_window_when_a_box_touches_the_edge() {
    let mut s = ScreenBuffer::new(12, 8);
    draw_box(&mut s, 0, 2, 1, 2);
    let ws = get_subwindows(&s).expect("extraction succeeds");
    assert_eq!(ws.len(), 1);
    let origin = ws[0].get_origin();
    assert_eq!((origin.y, origin.x), (1, 3));
}

#[test]
fn nested_boxes_each_yield_a_window() {
    let mut s = ScreenBuffer::new(14, 10);
    draw_box(&mut s, 0, 0, 6, 10);
    draw_box(&mut s, 2, 2, 1, 3);
    let ws = get_subwindows(&s).expect("extraction succeeds");
    assert_eq!(ws.len(), 2);
    assert_eq!(ws[0].get_size(), (6, 10));
    assert_eq!(ws[1].get_size(), (1, 3));
}

#[test]
fn trace_border_reports_invalid_origin() {
    let mut s = ScreenBuffer::new(8, 4);
    put_at(&mut s, 0, 0, false, "a");
    assert_eq!(trace_border(&s, 1, 1), Err(ExtractError::InvalidBoxOrigin(1, 1)));
    assert_eq!(trace_border(&s, 9, 1), Err(ExtractError::OutOfBounds(9, 1)));
}

#[test]
fn trace_border_reports_broken_and_out_of_bounds() {
    let mut s = ScreenBuffer::new(8, 4);
    draw_box(&mut s, 0, 0, 1, 2);
    assert_eq!(trace_border(&s, 1, 1), Ok((1, 2)));
    put_at(&mut s, 2, 3, false, "X");
    assert_eq!(trace_border(&s, 1, 1), Err(ExtractError::BrokenBorder));
    // a lone corner runs off the right edge
    let mut t = ScreenBuffer::new(4, 2);
    put_at(&mut t, 0, 3, true, "l");
    assert_eq!(trace_border(&t, 1, 4), Err(ExtractError::OutOfBounds(1, 5)));
}

#[test]
fn get_lines_trims_trailing_blanks_and_keeps_gaps() {
    let mut s = ScreenBuffer::new(12, 6);
    draw_box(&mut s, 0, 0, 2, 8);
    put_at(&mut s, 1, 1, false, "ab");
    put_at(&mut s, 1, 6, false, "c");
    put_at(&mut s, 2, 1, false, "xy");
    let ws = get_subwindows(&s).expect("extraction succeeds");
    assert_eq!(ws.len(), 1);
    // inner NUL cells render as spaces; the blank tail is dropped
    assert_eq!(lines_of(&ws[0]), vec!["ab   c".to_string(), "xy".to_string()]);
}

#[test]
fn get_lines_is_idempotent() {
    let mut s = ScreenBuffer::new(12, 6);
    draw_box(&mut s, 0, 0, 2, 5);
    put_at(&mut s, 1, 1, false, "hi");
    let ws = get_subwindows(&s).expect("extraction succeeds");
    let first = lines_of(&ws[0]);
    let second = lines_of(&ws[0]);
    assert_eq!(first, second);
    let third = lines_of(&ws[0]);
    assert_eq!(first, third);
}

#[test]
fn subwindow_reads_are_bounds_checked() {
    let mut s = ScreenBuffer::new(12, 6);
    draw_box(&mut s, 0, 0, 2, 5);
    put_at(&mut s, 1, 1, false, "hi");
    let ws = get_subwindows(&s).expect("extraction succeeds");
    let w = &ws[0];
    assert_eq!(w.char_at(1, 1), Ok('h'));
    assert_eq!(w.char_at(1, 2), Ok('i'));
    assert_eq!(w.char_at(3, 1), Err(ExtractError::OutOfBounds(3, 1)));
    assert_eq!(w.char_at(1, 6), Err(ExtractError::OutOfBounds(1, 6)));
}
