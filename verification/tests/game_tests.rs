use nhterm::game::NetHackData;
use nhterm::screen::ScreenBuffer;
use nhterm::status::{Align, CharLevel, Class};

/// Writes `text` at zero-based `(row, col)`, through the VT graphics map
/// when `vt` is set.
fn put_at(s: &mut ScreenBuffer, row: usize, col: usize, vt: bool, text: &str) {
    let mut bytes: Vec<u8> = Vec::new();
    bytes.extend_from_slice(format!("\x1b[{};{}H", row + 1, col + 1).as_bytes());
    if vt {
        bytes.extend_from_slice(b"\x1b(0");
    } else {
        bytes.extend_from_slice(b"\x1b(B");
    }
    bytes.extend_from_slice(text.as_bytes());
    s.update(&bytes);
}

/// Draws a closed box whose interior is `ih` rows by `iw` columns.
fn draw_box(s: &mut ScreenBuffer, top: usize, left: usize, ih: usize, iw: usize) {
    put_at(s, top, left, true, &format!("l{}k", "q".repeat(iw)));
    for r in 0..ih {
        put_at(s, top + 1 + r, left, true, "x");
        put_at(s, top + 1 + r, left + 1 + iw, true, "x");
    }
    put_at(s, top + ih + 1, left, true, &format!("m{}j", "q".repeat(iw)));
}

#[test]
fn update_collects_windows_and_parses_the_status_panel() {
    let mut s = ScreenBuffer::new(80, 12);
    // a map panel of height three and a status panel of height two
    draw_box(&mut s, 0, 0, 3, 20);
    put_at(&mut s, 1, 1, false, "somewhere a dog");
    draw_box(&mut s, 6, 0, 2, 76);
    put_at(&mut s, 7, 1, false, "Agnar the Stripling  St:18/03 Dx:14");
    put_at(&mut s, 8, 1, false, "Dlvl:3 $:57 HP:12(14) Pw:5(5) AC:6 Xp:2/35 T:840 Lawful");
    let mut nd = NetHackData::new();
    nd.update(&s).expect("update succeeds");
    assert_eq!(nd.windows.len(), 2);
    assert_eq!(nd.windows[0].get_size(), (3, 20));
    assert_eq!(nd.windows[1].get_size(), (2, 76));
    assert_eq!(nd.status.dlvl, 3);
    assert_eq!(nd.status.gold, 57);
    assert_eq!(nd.status.hp, 12);
    assert_eq!(nd.status.maxhp, 14);
    assert_eq!(nd.status.armour_class, 6);
    assert!(matches!(nd.status.level, CharLevel::XLvlwExp(2, 35)));
    assert_eq!(nd.status.turns, Some(840));
    assert!(matches!(nd.status.align, Align::Lawful));
    assert_eq!(nd.status.name, "Agnar");
    assert!(matches!(nd.status.rank, Class::Rank(ref t) if t == "Stripling"));
}

#[test]
fn update_replaces_the_previous_window_list() {
    let mut s = ScreenBuffer::new(40, 8);
    draw_box(&mut s, 0, 0, 1, 3);
    let mut nd = NetHackData::new();
    nd.update(&s).expect("update succeeds");
    assert_eq!(nd.windows.len(), 1);
    s.update(b"\x1b[2J");
    draw_box(&mut s, 0, 0, 1, 3);
    draw_box(&mut s, 0, 10, 1, 3);
    nd.update(&s).expect("update succeeds");
    assert_eq!(nd.windows.len(), 2);
}

#[test]
fn update_without_status_panel_keeps_the_record() {
    let mut s = ScreenBuffer::new(40, 8);
    draw_box(&mut s, 0, 0, 3, 10);
    let mut nd = NetHackData::new();
    nd.update(&s).expect("update succeeds");
    assert_eq!(nd.status.dlvl, 1);
    assert_eq!(nd.status.name, "luser");
}

#[test]
fn debug_describes_each_window() {
    let mut s = ScreenBuffer::new(40, 8);
    draw_box(&mut s, 0, 0, 1, 5);
    put_at(&mut s, 1, 1, false, "hey");
    draw_box(&mut s, 3, 0, 1, 5);
    put_at(&mut s, 4, 1, false, "you");
    let mut nd = NetHackData::new();
    nd.update(&s).expect("update succeeds");
    let lines = nd.debug();
    assert_eq!(
        lines,
        vec![
            "this is the 1th window".to_string(),
            "hey".to_string(),
            "this is the 2th window".to_string(),
            "you".to_string(),
        ]
    );
}

#[test]
fn a_fresh_record_is_empty() {
    let nd = NetHackData::new();
    assert_eq!(nd.windows.len(), 0);
    assert_eq!(nd.inventory.len(), 0);
    assert_eq!(nd.status.hp, 1);
}
