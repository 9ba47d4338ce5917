use nhterm::screen::ScreenBuffer;
use nhterm::status::{Align, CharLevel, Class, NHStats, Strength};
use nhterm::window::{SubWindow, get_subwindows};

/// Writes `text` at zero-based `(row, col)`, through the VT graphics map
/// when `vt` is set.
fn put_at(s: &mut ScreenBuffer, row: usize, col: usize, vt: bool, text: &str) {
    let mut bytes: Vec<u8> = Vec::new();
    bytes.extend_from_slice(format!("\x1b[{};{}H", row + 1, col + 1).as_bytes());
    if vt {
        bytes.extend_from_slice(b"\x1b(0");
    } else {
        bytes.extend_from_slice(b"\x1b(B");
    }
    bytes.extend_from_slice(text.as_bytes());
    s.update(&bytes);
}

/// Builds a two-row sub-window holding the two given lines of text.
fn status_window(line1: &str, line2: &str) -> SubWindow {
    let width = line1.len().max(line2.len()).max(1);
    let mut s = ScreenBuffer::new(width + 2, 4);
    put_at(&mut s, 0, 0, true, &format!("l{}k", "q".repeat(width)));
    put_at(&mut s, 1, 0, true, "x");
    put_at(&mut s, 1, width + 1, true, "x");
    put_at(&mut s, 2, 0, true, "x");
    put_at(&mut s, 2, width + 1, true, "x");
    put_at(&mut s, 3, 0, true, &format!("m{}j", "q".repeat(width)));
    put_at(&mut s, 1, 1, false, line1);
    put_at(&mut s, 2, 1, false, line2);
    let mut ws = get_subwindows(&s).expect("extraction succeeds");
    assert_eq!(ws.len(), 1);
    assert_eq!(ws[0].get_size().0, 2);
    ws.remove(0)
}

#[test]
fn full_status_line_parses_every_field() {
    let w = status_window(
        "Dlvl:1 $:0 HP:10(10) Pw:5(5) AC:10 Xp:1/0 T:1 Agnar the Stripling Neutral",
        "",
    );
    let mut st = NHStats::new();
    st.read_statusline(&w).expect("parse succeeds");
    assert_eq!(st.dlvl, 1);
    assert_eq!(st.gold, 0);
    assert_eq!(st.hp, 10);
    assert_eq!(st.maxhp, 10);
    assert_eq!(st.pw, 5);
    assert_eq!(st.maxpw, 5);
    assert_eq!(st.armour_class, 10);
    assert!(matches!(st.level, CharLevel::XLvlwExp(1, 0)));
    assert_eq!(st.turns, Some(1));
    assert_eq!(st.name, "Agnar");
    assert!(matches!(st.rank, Class::Rank(ref t) if t == "Stripling"));
    assert!(matches!(st.align, Align::Neutral));
}

#[test]
fn defaults_of_a_fresh_record() {
    let st = NHStats::new();
    assert_eq!(st.dlvl, 1);
    assert_eq!(st.gold, 0);
    assert_eq!(st.hp, 1);
    assert_eq!(st.maxhp, 10);
    assert_eq!(st.pw, 5);
    assert_eq!(st.maxpw, 10);
    assert_eq!(st.armour_class, 10);
    assert!(matches!(st.level, CharLevel::XLvl(1)));
    assert_eq!(st.turns, None);
    assert_eq!(st.score, None);
    assert!(matches!(st.ability.strength, Strength::Normal(10)));
    assert!(matches!(st.align, Align::Unaligned));
    assert_eq!(st.name, "luser");
    assert!(matches!(st.rank, Class::Rank(ref t) if t == "windows hacker"));
}

#[test]
fn hit_dice_level_makes_the_title_a_polyform() {
    let w = status_window("HD:7 AC:-2 Grunt the Werewolf Chaotic", "T:123 S:456");
    let mut st = NHStats::new();
    st.read_statusline(&w).expect("parse succeeds");
    assert!(matches!(st.level, CharLevel::HD(7)));
    assert_eq!(st.armour_class, -2);
    assert_eq!(st.turns, Some(123));
    assert_eq!(st.score, Some(456));
    assert_eq!(st.name, "Grunt");
    assert!(matches!(st.rank, Class::Polyform(ref t) if t == "Werewolf"));
    assert!(matches!(st.align, Align::Chaotic));
}

#[test]
fn strength_forms() {
    let mut st = NHStats::new();
    st.read_statusline(&status_window("St:17", "")).expect("parse succeeds");
    assert!(matches!(st.ability.strength, Strength::Normal(17)));
    st.read_statusline(&status_window("St:18/03", "")).expect("parse succeeds");
    assert!(matches!(st.ability.strength, Strength::Percentile(18, 3)));
    st.read_statusline(&status_window("St:18/**", "")).expect("parse succeeds");
    assert!(matches!(st.ability.strength, Strength::Percentile(18, 100)));
}

#[test]
fn ability_scores_parse() {
    let w = status_window("St:12 Dx:13 Co:14 In:15 Wi:16 Ch:17", "");
    let mut st = NHStats::new();
    st.read_statusline(&w).expect("parse succeeds");
    assert!(matches!(st.ability.strength, Strength::Normal(12)));
    assert_eq!(st.ability.dexterity, 13);
    assert_eq!(st.ability.constitution, 14);
    assert_eq!(st.ability.intelligence, 15);
    assert_eq!(st.ability.wisdom, 16);
    assert_eq!(st.ability.charisma, 17);
}

#[test]
fn unparsable_values_leave_fields_untouched() {
    let w = status_window("Dlvl:abc HP:9 Pw:x(y) AC:+- Xp:2/zz", "");
    let mut st = NHStats::new();
    st.read_statusline(&w).expect("parse succeeds");
    assert_eq!(st.dlvl, 1);
    // an HP value without parentheses has no current/maximum halves
    assert_eq!(st.hp, 1);
    assert_eq!(st.maxhp, 10);
    assert_eq!(st.pw, 5);
    assert_eq!(st.maxpw, 10);
    assert_eq!(st.armour_class, 10);
    assert!(matches!(st.level, CharLevel::XLvl(1)));
}

#[test]
fn half_parsable_hp_updates_only_the_current_half() {
    let w = status_window("HP:7(zz)", "");
    let mut st = NHStats::new();
    st.read_statusline(&w).expect("parse succeeds");
    assert_eq!(st.hp, 7);
    assert_eq!(st.maxhp, 10);
}

#[test]
fn plain_xp_level_without_points() {
    let w = status_window("Xp:4", "");
    let mut st = NHStats::new();
    st.read_statusline(&w).expect("parse succeeds");
    assert!(matches!(st.level, CharLevel::XLvl(4)));
}

#[test]
fn last_plain_token_stays_when_it_names_no_alignment() {
    // a trailing token that is no alignment word is kept, so the name
    // scan still sees the title after `the`
    let w = status_window("Agnar the Stripling", "");
    let mut st = NHStats::new();
    st.read_statusline(&w).expect("parse succeeds");
    assert!(matches!(st.align, Align::Unaligned));
    assert_eq!(st.name, "Agnar");
    assert!(matches!(st.rank, Class::Rank(ref t) if t == "Stripling"));
}

#[test]
fn trailing_the_is_ignored() {
    let w = status_window("Agnar the Stripling Lawful", "");
    let mut st = NHStats::new();
    st.read_statusline(&w).expect("parse succeeds");
    assert!(matches!(st.align, Align::Lawful));
    assert_eq!(st.name, "Agnar");
    assert!(matches!(st.rank, Class::Rank(ref t) if t == "Stripling"));
    // with the alignment popped, a `the` that ends the remaining tokens
    // names nobody
    let w2 = status_window("Somebody the Unaligned", "");
    let mut st2 = NHStats::new();
    st2.read_statusline(&w2).expect("parse succeeds");
    assert!(matches!(st2.align, Align::Unaligned));
    assert_eq!(st2.name, "luser");
}

#[test]
fn stale_hit_dice_level_does_not_make_a_polyform() {
    let mut st = NHStats::new();
    st.read_statusline(&status_window("HD:5", "")).expect("parse succeeds");
    assert!(matches!(st.level, CharLevel::HD(5)));
    // a later call without a hit-dice token classifies titles as ranks,
    // even though the level still holds the old hit dice
    st.read_statusline(&status_window("Agnar the Stripling Lawful", "")).expect("parse succeeds");
    assert!(matches!(st.level, CharLevel::HD(5)));
    assert!(matches!(st.rank, Class::Rank(ref t) if t == "Stripling"));
}

#[test]
fn overflowing_numbers_are_rejected() {
    let w = status_window("Dlvl:99999999999999999999 T:4294967295 S:4294967296", "");
    let mut st = NHStats::new();
    st.read_statusline(&w).expect("parse succeeds");
    assert_eq!(st.dlvl, 1);
    assert_eq!(st.turns, Some(4294967295));
    assert_eq!(st.score, None);
}

#[test]
fn no_break_space_splits_tokens() {
    let mut s = ScreenBuffer::new(14, 4);
    put_at(&mut s, 0, 0, true, &format!("l{}k", "q".repeat(12)));
    put_at(&mut s, 1, 0, true, "x");
    put_at(&mut s, 1, 13, true, "x");
    put_at(&mut s, 2, 0, true, "x");
    put_at(&mut s, 2, 13, true, "x");
    put_at(&mut s, 3, 0, true, &format!("m{}j", "q".repeat(12)));
    put_at(&mut s, 1, 1, false, "Dlvl:4");
    // the raw byte 0xa0 reaches the grid as a no-break space, which is
    // whitespace to the tokenizer like any other
    s.update(&[0xa0]);
    s.update(b"$:9");
    let ws = get_subwindows(&s).expect("extraction succeeds");
    assert_eq!(ws.len(), 1);
    let mut st = NHStats::new();
    st.read_statusline(&ws[0]).expect("parse succeeds");
    assert_eq!(st.dlvl, 4);
    assert_eq!(st.gold, 9);
}
