//! The status-line parser.
//!
//! The two-row status window's text is tokenized on whitespace; each
//! token is split at its first `:` and matched against a fixed field
//! table, mutating a persistent `NHStats` record in place.  Tokens
//! without a colon are buffered; afterwards, a last buffered token that
//! names the alignment sets it and is removed, and a literal `the` among
//! the remaining tokens marks the character's name and title.  An unparsable token leaves the prior field value
//! untouched; the parser itself never fails.

use vstd::prelude::*;

use crate::lines::{chars_to_string, lines_chars, lines_spec};
use crate::screen::rows_view;
use crate::window::{ExtractError, SubWindow};

verus! {

/// Experience level: plain, with experience points, or the hit dice of a
/// polymorphed form.
#[derive(Clone, Copy, Debug, PartialEq, Eq, Structural)]
pub enum CharLevel {
    XLvl(u32),
    XLvlwExp(u32, u32),
    HD(u32),
}

/// Strength, which the game reports either plain or as `18/percentile`.
#[derive(Clone, Copy, Debug, PartialEq, Eq, Structural)]
pub enum Strength {
    Normal(u32),
    Percentile(u32, u32),
}

/// The six ability scores.
#[derive(Clone, Copy, Debug, PartialEq, Eq, Structural)]
pub struct AbilityScores {
    pub strength: Strength,
    pub dexterity: u32,
    pub constitution: u32,
    pub intelligence: u32,
    pub wisdom: u32,
    pub charisma: u32,
}

/// The character's title: a rank while in own form, or the name of the
/// creature while polymorphed.
#[derive(Clone, Debug)]
pub enum Class {
    Rank(String),
    Polyform(String),
}

/// Alignment.
#[derive(Clone, Copy, Debug, PartialEq, Eq, Structural)]
pub enum Align {
    Lawful,
    Neutral,
    Chaotic,
    Unaligned,
}

/// The persistent record of character vitals, mutated field by field on
/// each parse; it reflects the most recent status line only.
#[derive(Clone, Debug)]
pub struct NHStats {
    pub dlvl: u32,
    pub gold: u32,
    pub hp: u32,
    pub maxhp: u32,
    pub pw: u32,
    pub maxpw: u32,
    pub armour_class: i32,
    pub level: CharLevel,
    pub turns: Option<u32>,
    pub score: Option<u32>,
    pub ability: AbilityScores,
    pub align: Align,
    pub name: String,
    pub rank: Class,
}

/// The mathematical value of `Class`.
pub ghost enum ClassV {
    Rank(Seq<char>),
    Polyform(Seq<char>),
}

/// The mathematical value of `NHStats`.
pub ghost struct NHModel {
    pub dlvl: u32,
    pub gold: u32,
    pub hp: u32,
    pub maxhp: u32,
    pub pw: u32,
    pub maxpw: u32,
    pub armour_class: i32,
    pub level: CharLevel,
    pub turns: Option<u32>,
    pub score: Option<u32>,
    pub ability: AbilityScores,
    pub align: Align,
    pub name: Seq<char>,
    pub rank: ClassV,
}

impl View for NHStats {
    type V = NHModel;

    open spec fn view(&self) -> NHModel {
        NHModel {
            dlvl: self.dlvl,
            gold: self.gold,
            hp: self.hp,
            maxhp: self.maxhp,
            pw: self.pw,
            maxpw: self.maxpw,
            armour_class: self.armour_class,
            level: self.level,
            turns: self.turns,
            score: self.score,
            ability: self.ability,
            align: self.align,
            name: self.name@,
            rank: match self.rank {
                Class::Rank(s) => ClassV::Rank(s@),
                Class::Polyform(s) => ClassV::Polyform(s@),
            },
        }
    }
}

/// The record a fresh `NHStats` holds.
pub open spec fn init_stats() -> NHModel {
    NHModel {
        dlvl: 1,
        gold: 0,
        hp: 1,
        maxhp: 10,
        pw: 5,
        maxpw: 10,
        armour_class: 10,
        level: CharLevel::XLvl(1),
        turns: None,
        score: None,
        ability: AbilityScores {
            strength: Strength::Normal(10),
            dexterity: 10,
            constitution: 10,
            intelligence: 10,
            wisdom: 10,
            charisma: 10,
        },
        align: Align::Unaligned,
        name: "luser"@,
        rank: ClassV::Rank("windows hacker"@),
    }
}

/// Whitespace, on which tokens split: the ASCII whitespace characters
/// plus the next line and no-break space characters, which are the only
/// other whitespace a byte written to the grid can become.
pub open spec fn is_ws(c: char) -> bool {
    c == ' ' || c == '\t' || c == '\n' || c == '\r' || c == '\u{b}' || c == '\u{c}' || c
        == '\u{85}' || c == '\u{a0}'
}

/// The whitespace-separated tokens of a line; `cur` is the token
/// gathered so far.
pub open spec fn toks_rec(s: Seq<char>, cur: Seq<char>) -> Seq<Seq<char>>
    decreases s.len(),
{
    if s.len() == 0 {
        if cur.len() > 0 {
            seq![cur]
        } else {
            Seq::empty()
        }
    } else if is_ws(s[0]) {
        (if cur.len() > 0 {
            seq![cur]
        } else {
            Seq::empty()
        }) + toks_rec(s.subrange(1, s.len() as int), Seq::empty())
    } else {
        toks_rec(s.subrange(1, s.len() as int), cur.push(s[0]))
    }
}

/// The tokens of one line.
pub open spec fn tokens_of_line(s: Seq<char>) -> Seq<Seq<char>> {
    toks_rec(s, Seq::empty())
}

/// The tokens of all lines, in order.
pub open spec fn tokens_of_lines(ls: Seq<Seq<char>>) -> Seq<Seq<char>>
    decreases ls.len(),
{
    if ls.len() == 0 {
        Seq::empty()
    } else {
        tokens_of_line(ls[0]) + tokens_of_lines(ls.subrange(1, ls.len() as int))
    }
}

/// An ASCII decimal digit.
pub open spec fn is_digit(c: char) -> bool {
    48 <= c as u32 <= 57
}

/// Every character a digit.
pub open spec fn all_digits(s: Seq<char>) -> bool {
    forall|i: int| 0 <= i < s.len() ==> is_digit(#[trigger] s[i])
}

/// The number a sequence of decimal digits writes.
pub open spec fn digits_val(s: Seq<char>) -> int
    decreases s.len(),
{
    if s.len() == 0 {
        0
    } else {
        digits_val(s.drop_last()) * 10 + (s.last() as u32 - 48)
    }
}

/// What `str::parse::<u32>` accepts: an optional leading `+`, then one or
/// more digits, the value in range.
pub open spec fn parse_u32_spec(s: Seq<char>) -> Option<u32> {
    let body = if s.len() > 0 && s[0] == '+' {
        s.subrange(1, s.len() as int)
    } else {
        s
    };
    if body.len() > 0 && all_digits(body) && digits_val(body) <= u32::MAX {
        Some(digits_val(body) as u32)
    } else {
        None
    }
}

/// What `str::parse::<i32>` accepts: an optional sign, then one or more
/// digits, the value in range.
pub open spec fn parse_i32_spec(s: Seq<char>) -> Option<i32> {
    if s.len() > 0 && (s[0] == '+' || s[0] == '-') {
        let body = s.subrange(1, s.len() as int);
        if body.len() > 0 && all_digits(body) {
            if s[0] == '-' {
                if digits_val(body) <= 0x8000_0000 {
                    Some((-digits_val(body)) as i32)
                } else {
                    None
                }
            } else {
                if digits_val(body) <= i32::MAX {
                    Some(digits_val(body) as i32)
                } else {
                    None
                }
            }
        } else {
            None
        }
    } else {
        if s.len() > 0 && all_digits(s) && digits_val(s) <= i32::MAX {
            Some(digits_val(s) as i32)
        } else {
            None
        }
    }
}

/// The index of the first occurrence of `ch`, or the length if none.
pub open spec fn first_idx(s: Seq<char>, ch: char) -> int
    decreases s.len(),
{
    if s.len() == 0 {
        0
    } else if s[0] == ch {
        0
    } else {
        1 + first_idx(s.subrange(1, s.len() as int), ch)
    }
}

/// Splitting at the first occurrence of `ch` only: one part if `ch` does
/// not occur, else the parts before and after it.
pub open spec fn split2(s: Seq<char>, ch: char) -> Seq<Seq<char>> {
    let i = first_idx(s, ch);
    if i >= s.len() {
        seq![s]
    } else {
        seq![s.subrange(0, i), s.subrange(i + 1, s.len() as int)]
    }
}

/// Splitting on every `(` and `)`, keeping empty parts, as the current
/// and maximum hit point fields are written `cur(max)`.
pub open spec fn split_parens_rec(s: Seq<char>, cur: Seq<char>) -> Seq<Seq<char>>
    decreases s.len(),
{
    if s.len() == 0 {
        seq![cur]
    } else if s[0] == '(' || s[0] == ')' {
        seq![cur] + split_parens_rec(s.subrange(1, s.len() as int), Seq::empty())
    } else {
        split_parens_rec(s.subrange(1, s.len() as int), cur.push(s[0]))
    }
}

pub open spec fn split_parens(s: Seq<char>) -> Seq<Seq<char>> {
    split_parens_rec(s, Seq::empty())
}

/// The fixed field table.
#[derive(Clone, Copy, Debug, PartialEq, Eq, Structural)]
pub enum FieldKind {
    Dlvl,
    Gold,
    Hp,
    Pw,
    Ac,
    Hd,
    Xp,
    Turns,
    Score,
    St,
    Dx,
    Co,
    In,
    Wi,
    Ch,
    Unknown,
}

/// Matches a field name against the table.
pub open spec fn field_kind_spec(f: Seq<char>) -> FieldKind {
    if f.len() == 1 {
        if f[0] == '$' {
            FieldKind::Gold
        } else if f[0] == 'T' {
            FieldKind::Turns
        } else if f[0] == 'S' {
            FieldKind::Score
        } else {
            FieldKind::Unknown
        }
    } else if f.len() == 2 {
        if f[0] == 'H' && f[1] == 'P' {
            FieldKind::Hp
        } else if f[0] == 'P' && f[1] == 'w' {
            FieldKind::Pw
        } else if f[0] == 'A' && f[1] == 'C' {
            FieldKind::Ac
        } else if f[0] == 'H' && f[1] == 'D' {
            FieldKind::Hd
        } else if f[0] == 'X' && f[1] == 'p' {
            FieldKind::Xp
        } else if f[0] == 'S' && f[1] == 't' {
            FieldKind::St
        } else if f[0] == 'D' && f[1] == 'x' {
            FieldKind::Dx
        } else if f[0] == 'C' && f[1] == 'o' {
            FieldKind::Co
        } else if f[0] == 'I' && f[1] == 'n' {
            FieldKind::In
        } else if f[0] == 'W' && f[1] == 'i' {
            FieldKind::Wi
        } else if f[0] == 'C' && f[1] == 'h' {
            FieldKind::Ch
        } else {
            FieldKind::Unknown
        }
    } else if f.len() == 4 && f[0] == 'D' && f[1] == 'l' && f[2] == 'v' && f[3] == 'l' {
        FieldKind::Dlvl
    } else {
        FieldKind::Unknown
    }
}

/// The parser's running state: the record, the buffered plain tokens, and
/// whether the level was last set through a hit-dice field in this call.
pub ghost struct ParseState {
    pub m: NHModel,
    pub saved: Seq<Seq<char>>,
    pub hd: bool,
}

/// The `cur(max)` update shared by hit points and power: both halves are
/// parsed independently, and each failure leaves its field alone.
pub open spec fn pair_vals(value: Seq<char>) -> (Option<u32>, Option<u32>) {
    let ps = split_parens(value);
    if ps.len() >= 2 {
        (parse_u32_spec(ps[0]), parse_u32_spec(ps[1]))
    } else {
        (None, None)
    }
}

/// One token's effect on the state.
pub open spec fn proc_token_spec(st: ParseState, tok: Seq<char>) -> ParseState {
    let ci = first_idx(tok, ':');
    if ci >= tok.len() {
        ParseState { saved: st.saved.push(tok), ..st }
    } else {
        let field = tok.subrange(0, ci);
        let value = tok.subrange(ci + 1, tok.len() as int);
        match field_kind_spec(field) {
            FieldKind::Dlvl => match parse_u32_spec(value) {
                Some(n) => ParseState { m: NHModel { dlvl: n, ..st.m }, ..st },
                None => st,
            },
            FieldKind::Gold => match parse_u32_spec(value) {
                Some(n) => ParseState { m: NHModel { gold: n, ..st.m }, ..st },
                None => st,
            },
            FieldKind::Hp => {
                let hm = pair_vals(value);
                let m1 = match hm.0 {
                    Some(n) => NHModel { hp: n, ..st.m },
                    None => st.m,
                };
                let m2 = match hm.1 {
                    Some(n) => NHModel { maxhp: n, ..m1 },
                    None => m1,
                };
                ParseState { m: m2, ..st }
            },
            FieldKind::Pw => {
                let hm = pair_vals(value);
                let m1 = match hm.0 {
                    Some(n) => NHModel { pw: n, ..st.m },
                    None => st.m,
                };
                let m2 = match hm.1 {
                    Some(n) => NHModel { maxpw: n, ..m1 },
                    None => m1,
                };
                ParseState { m: m2, ..st }
            },
            FieldKind::Ac => match parse_i32_spec(value) {
                Some(n) => ParseState { m: NHModel { armour_class: n, ..st.m }, ..st },
                None => st,
            },
            FieldKind::Hd => match parse_u32_spec(value) {
                Some(n) => ParseState {
                    m: NHModel { level: CharLevel::HD(n), ..st.m },
                    hd: true,
                    ..st
                },
                None => st,
            },
            FieldKind::Xp => {
                let ps = split2(value, '/');
                if ps.len() == 1 {
                    match parse_u32_spec(ps[0]) {
                        Some(n) => ParseState {
                            m: NHModel { level: CharLevel::XLvl(n), ..st.m },
                            hd: false,
                            ..st
                        },
                        None => st,
                    }
                } else {
                    match (parse_u32_spec(ps[0]), parse_u32_spec(ps[1])) {
                        (Some(n), Some(xp)) => ParseState {
                            m: NHModel { level: CharLevel::XLvlwExp(n, xp), ..st.m },
                            hd: false,
                            ..st
                        },
                        _ => st,
                    }
                }
            },
            FieldKind::Turns => match parse_u32_spec(value) {
                Some(n) => ParseState { m: NHModel { turns: Some(n), ..st.m }, ..st },
                None => st,
            },
            FieldKind::Score => match parse_u32_spec(value) {
                Some(n) => ParseState { m: NHModel { score: Some(n), ..st.m }, ..st },
                None => st,
            },
            FieldKind::St => {
                let ps = split2(value, '/');
                if ps.len() == 1 {
                    match parse_u32_spec(ps[0]) {
                        Some(n) => ParseState {
                            m: NHModel {
                                ability: AbilityScores {
                                    strength: Strength::Normal(n),
                                    ..st.m.ability
                                },
                                ..st.m
                            },
                            ..st
                        },
                        None => st,
                    }
                } else {
                    match parse_u32_spec(ps[0]) {
                        Some(n) => {
                            if ps[1].len() == 2 && ps[1][0] == '*' && ps[1][1] == '*' {
                                ParseState {
                                    m: NHModel {
                                        ability: AbilityScores {
                                            strength: Strength::Percentile(n, 100),
                                            ..st.m.ability
                                        },
                                        ..st.m
                                    },
                                    ..st
                                }
                            } else {
                                match parse_u32_spec(ps[1]) {
                                    Some(p) => ParseState {
                                        m: NHModel {
                                            ability: AbilityScores {
                                                strength: Strength::Percentile(n, p),
                                                ..st.m.ability
                                            },
                                            ..st.m
                                        },
                                        ..st
                                    },
                                    None => st,
                                }
                            }
                        },
                        None => st,
                    }
                }
            },
            FieldKind::Dx => match parse_u32_spec(value) {
                Some(n) => ParseState {
                    m: NHModel {
                        ability: AbilityScores { dexterity: n, ..st.m.ability },
                        ..st.m
                    },
                    ..st
                },
                None => st,
            },
            FieldKind::Co => match parse_u32_spec(value) {
                Some(n) => ParseState {
                    m: NHModel {
                        ability: AbilityScores { constitution: n, ..st.m.ability },
                        ..st.m
                    },
                    ..st
                },
                None => st,
            },
            FieldKind::In => match parse_u32_spec(value) {
                Some(n) => ParseState {
                    m: NHModel {
                        ability: AbilityScores { intelligence: n, ..st.m.ability },
                        ..st.m
                    },
                    ..st
                },
                None => st,
            },
            FieldKind::Wi => match parse_u32_spec(value) {
                Some(n) => ParseState {
                    m: NHModel { ability: AbilityScores { wisdom: n, ..st.m.ability }, ..st.m },
                    ..st
                },
                None => st,
            },
            FieldKind::Ch => match parse_u32_spec(value) {
                Some(n) => ParseState {
                    m: NHModel {
                        ability: AbilityScores { charisma: n, ..st.m.ability },
                        ..st.m
                    },
                    ..st
                },
                None => st,
            },
            FieldKind::Unknown => ParseState { saved: st.saved.push(tok), ..st },
        }
    }
}

/// All tokens, left to right.
pub open spec fn proc_tokens_spec(st: ParseState, toks: Seq<Seq<char>>) -> ParseState
    decreases toks.len(),
{
    if toks.len() == 0 {
        st
    } else {
        proc_tokens_spec(proc_token_spec(st, toks[0]), toks.subrange(1, toks.len() as int))
    }
}

/// The alignment a token names, if any.
pub open spec fn align_of_token(t: Seq<char>, cur: Align) -> Align {
    if t.len() == 6 && t[0] == 'L' && t[1] == 'a' && t[2] == 'w' && t[3] == 'f' && t[4] == 'u'
        && t[5] == 'l' {
        Align::Lawful
    } else if t.len() == 7 && t[0] == 'N' && t[1] == 'e' && t[2] == 'u' && t[3] == 't' && t[4]
        == 'r' && t[5] == 'a' && t[6] == 'l' {
        Align::Neutral
    } else if t.len() == 7 && t[0] == 'C' && t[1] == 'h' && t[2] == 'a' && t[3] == 'o' && t[4]
        == 't' && t[5] == 'i' && t[6] == 'c' {
        Align::Chaotic
    } else if t.len() == 9 && t[0] == 'U' && t[1] == 'n' && t[2] == 'a' && t[3] == 'l' && t[4]
        == 'i' && t[5] == 'g' && t[6] == 'n' && t[7] == 'e' && t[8] == 'd' {
        Align::Unaligned
    } else {
        cur
    }
}

/// Whether a token names one of the four alignments.
pub open spec fn is_align_token(t: Seq<char>) -> bool {
    ||| t.len() == 6 && t[0] == 'L' && t[1] == 'a' && t[2] == 'w' && t[3] == 'f' && t[4] == 'u'
        && t[5] == 'l'
    ||| t.len() == 7 && t[0] == 'N' && t[1] == 'e' && t[2] == 'u' && t[3] == 't' && t[4] == 'r'
        && t[5] == 'a' && t[6] == 'l'
    ||| t.len() == 7 && t[0] == 'C' && t[1] == 'h' && t[2] == 'a' && t[3] == 'o' && t[4] == 't'
        && t[5] == 'i' && t[6] == 'c'
    ||| t.len() == 9 && t[0] == 'U' && t[1] == 'n' && t[2] == 'a' && t[3] == 'l' && t[4] == 'i'
        && t[5] == 'g' && t[6] == 'n' && t[7] == 'e' && t[8] == 'd'
}

/// When the last buffered plain token names an alignment, it is set and
/// the token is removed; any other last token stays and takes part in
/// the name scan.
pub open spec fn pop_align_spec(st: ParseState) -> ParseState {
    if st.saved.len() > 0 && is_align_token(st.saved.last()) {
        ParseState {
            m: NHModel { align: align_of_token(st.saved.last(), st.m.align), ..st.m },
            saved: st.saved.drop_last(),
            ..st
        }
    } else {
        st
    }
}

/// The literal token `the`.
pub open spec fn is_the(t: Seq<char>) -> bool {
    t.len() == 3 && t[0] == 't' && t[1] == 'h' && t[2] == 'e'
}

/// One position of the name scan: at an inner `the`, the token before is
/// the character's name and the token after the title, a polyform title
/// when the level came from hit dice this call.  A leading or trailing
/// `the` names no one.
pub open spec fn the_scan_step(m: NHModel, toks: Seq<Seq<char>>, hd: bool, i: int) -> NHModel {
    if 1 <= i && i + 1 < toks.len() && is_the(toks[i]) {
        NHModel {
            name: toks[i - 1],
            rank: if hd {
                ClassV::Polyform(toks[i + 1])
            } else {
                ClassV::Rank(toks[i + 1])
            },
            ..m
        }
    } else {
        m
    }
}

/// The whole scan, left to right; a later match overwrites an earlier
/// one.
pub open spec fn the_scan_rec(m: NHModel, toks: Seq<Seq<char>>, hd: bool, i: int) -> NHModel
    decreases toks.len() - i,
{
    if i < 0 || i >= toks.len() {
        m
    } else {
        the_scan_rec(the_scan_step(m, toks, hd, i), toks, hd, i + 1)
    }
}

/// The complete effect of one status-line parse on the record.
pub open spec fn read_statusline_spec(m: NHModel, lines: Seq<Seq<char>>) -> NHModel {
    let st0 = ParseState { m, saved: Seq::empty(), hd: false };
    let st1 = proc_tokens_spec(st0, tokens_of_lines(lines));
    let st2 = pop_align_spec(st1);
    the_scan_rec(st2.m, st2.saved, st2.hd, 0)
}

proof fn lemma_first_idx_at(s: Seq<char>, ch: char, i: int)
    requires
        0 <= i <= s.len(),
        forall|j: int| 0 <= j < i ==> s[j] != ch,
        i < s.len() ==> s[i] == ch,
    ensures
        first_idx(s, ch) == i,
    decreases s.len(),
{
    if s.len() == 0 {
    } else if i == 0 {
    } else {
        lemma_first_idx_at(s.subrange(1, s.len() as int), ch, i - 1);
    }
}

/// Copies the characters at indices `a` up to `b`.
fn sub_chars(v: &Vec<char>, a: usize, b: usize) -> (r: Vec<char>)
    requires
        a <= b <= v@.len(),
    ensures
        r@ == v@.subrange(a as int, b as int),
{
    let mut r: Vec<char> = Vec::new();
    let mut i: usize = a;
    while i < b
        invariant
            a <= i <= b <= v@.len(),
            r@ =~= v@.subrange(a as int, i as int),
        decreases b - i,
    {
        r.push(v[i]);
        proof {
            assert(r@ =~= v@.subrange(a as int, i + 1));
        }
        i = i + 1;
    }
    r
}

/// The index of the first occurrence of `ch`, or the length.
fn first_ch(v: &Vec<char>, ch: char) -> (r: usize)
    ensures
        r == first_idx(v@, ch),
        r <= v@.len(),
{
    let mut i: usize = 0;
    while i < v.len()
        invariant
            i <= v@.len(),
            forall|j: int| 0 <= j < i ==> v@[j] != ch,
        decreases v@.len() - i,
    {
        if v[i] == ch {
            proof {
                lemma_first_idx_at(v@, ch, i as int);
            }
            return i;
        }
        i = i + 1;
    }
    proof {
        lemma_first_idx_at(v@, ch, v@.len() as int);
    }
    i
}

/// Accumulates the decimal value of `v` from index `from` on, saturated
/// just past the 32-bit range so that overflow is detectable.
fn digits_acc(v: &Vec<char>, from: usize) -> (r: Option<u64>)
    requires
        from <= v@.len(),
    ensures
        ({
            let body = v@.subrange(from as int, v@.len() as int);
            match r {
                Some(acc) => body.len() > 0 && all_digits(body) && ((digits_val(body)
                    <= 0xffff_ffff && acc == digits_val(body)) || (digits_val(body) > 0xffff_ffff
                    && acc == 0x1_0000_0000)),
                None => body.len() == 0 || !all_digits(body),
            }
        }),
{
    let ghost body = v@.subrange(from as int, v@.len() as int);
    if from == v.len() {
        return None;
    }
    let mut acc: u64 = 0;
    let mut i: usize = from;
    proof {
        assert(v@.subrange(from as int, from as int) =~= Seq::<char>::empty());
    }
    while i < v.len()
        invariant
            from <= i <= v@.len(),
            body == v@.subrange(from as int, v@.len() as int),
            forall|j: int| from <= j < i ==> is_digit(#[trigger] v@[j]),
            acc <= 0x1_0000_0000,
            digits_val(v@.subrange(from as int, i as int)) <= 0xffff_ffff ==> acc == digits_val(
                v@.subrange(from as int, i as int),
            ),
            digits_val(v@.subrange(from as int, i as int)) > 0xffff_ffff ==> acc == 0x1_0000_0000,
        decreases v@.len() - i,
    {
        let u = v[i] as u32;
        if u < 48 || u > 57 {
            proof {
                assert(!is_digit(body[i - from]));
            }
            return None;
        }
        let d = (u - 48) as u64;
        proof {
            assert(v@.subrange(from as int, i + 1).drop_last() =~= v@.subrange(
                from as int,
                i as int,
            ));
            assert(v@.subrange(from as int, i + 1).last() == v@[i as int]);
        }
        let acc2 = acc * 10 + d;
        acc = if acc2 > 0xffff_ffff {
            0x1_0000_0000
        } else {
            acc2
        };
        i = i + 1;
    }
    proof {
        assert(v@.subrange(from as int, v@.len() as int) =~= body);
        assert forall|j: int| 0 <= j < body.len() implies is_digit(#[trigger] body[j]) by {
            assert(body[j] == v@[from + j]);
        }
    }
    Some(acc)
}

/// What `str::parse::<u32>` returns on these characters (see
/// `parse_u32_spec`).
fn parse_u32(v: &Vec<char>) -> (r: Option<u32>)
    ensures
        r == parse_u32_spec(v@),
{
    let from: usize = if v.len() > 0 && v[0] == '+' {
        1
    } else {
        0
    };
    proof {
        if from == 0 {
            assert(v@.subrange(0, v@.len() as int) =~= v@);
        }
    }
    match digits_acc(v, from) {
        Some(acc) => {
            if acc <= 0xffff_ffff {
                Some(acc as u32)
            } else {
                None
            }
        },
        None => None,
    }
}

/// What `str::parse::<i32>` returns on these characters (see
/// `parse_i32_spec`).
fn parse_i32(v: &Vec<char>) -> (r: Option<i32>)
    ensures
        r == parse_i32_spec(v@),
{
    let neg: bool = v.len() > 0 && v[0] == '-';
    let from: usize = if v.len() > 0 && (v[0] == '+' || v[0] == '-') {
        1
    } else {
        0
    };
    proof {
        if from == 0 {
            assert(v@.subrange(0, v@.len() as int) =~= v@);
        }
    }
    match digits_acc(v, from) {
        Some(acc) => {
            if neg {
                if acc <= 0x8000_0000 {
                    Some((-(acc as i64)) as i32)
                } else {
                    None
                }
            } else {
                if acc <= 0x7fff_ffff {
                    Some(acc as i32)
                } else {
                    None
                }
            }
        },
        None => None,
    }
}

/// Matches a field name against the table (see `field_kind_spec`).
fn field_kind(f: &Vec<char>) -> (k: FieldKind)
    ensures
        k == field_kind_spec(f@),
{
    if f.len() == 1 {
        if f[0] == '$' {
            FieldKind::Gold
        } else if f[0] == 'T' {
            FieldKind::Turns
        } else if f[0] == 'S' {
            FieldKind::Score
        } else {
            FieldKind::Unknown
        }
    } else if f.len() == 2 {
        if f[0] == 'H' && f[1] == 'P' {
            FieldKind::Hp
        } else if f[0] == 'P' && f[1] == 'w' {
            FieldKind::Pw
        } else if f[0] == 'A' && f[1] == 'C' {
            FieldKind::Ac
        } else if f[0] == 'H' && f[1] == 'D' {
            FieldKind::Hd
        } else if f[0] == 'X' && f[1] == 'p' {
            FieldKind::Xp
        } else if f[0] == 'S' && f[1] == 't' {
            FieldKind::St
        } else if f[0] == 'D' && f[1] == 'x' {
            FieldKind::Dx
        } else if f[0] == 'C' && f[1] == 'o' {
            FieldKind::Co
        } else if f[0] == 'I' && f[1] == 'n' {
            FieldKind::In
        } else if f[0] == 'W' && f[1] == 'i' {
            FieldKind::Wi
        } else if f[0] == 'C' && f[1] == 'h' {
            FieldKind::Ch
        } else {
            FieldKind::Unknown
        }
    } else if f.len() == 4 && f[0] == 'D' && f[1] == 'l' && f[2] == 'v' && f[3] == 'l' {
        FieldKind::Dlvl
    } else {
        FieldKind::Unknown
    }
}

/// Splits on every `(` and `)`, keeping empty parts (see `split_parens`).
fn split_parens_exec(v: &Vec<char>) -> (parts: Vec<Vec<char>>)
    ensures
        rows_view(parts@) == split_parens(v@),
{
    let mut parts: Vec<Vec<char>> = Vec::new();
    let mut cur: Vec<char> = Vec::new();
    let mut i: usize = 0;
    proof {
        assert(v@.subrange(0, v@.len() as int) =~= v@);
        assert(rows_view(parts@) =~= Seq::<Seq<char>>::empty());
    }
    while i < v.len()
        invariant
            i <= v@.len(),
            split_parens(v@) =~= rows_view(parts@) + split_parens_rec(
                v@.subrange(i as int, v@.len() as int),
                cur@,
            ),
        decreases v@.len() - i,
    {
        let ch = v[i];
        proof {
            assert(v@.subrange(i as int, v@.len() as int)[0] == v@[i as int]);
            assert(v@.subrange(i as int, v@.len() as int).subrange(
                1,
                v@.len() - i,
            ) =~= v@.subrange(i + 1, v@.len() as int));
        }
        if ch == '(' || ch == ')' {
            let ghost pre = parts@;
            parts.push(cur);
            cur = Vec::new();
            proof {
                assert(cur@ =~= Seq::<char>::empty());
                assert(rows_view(parts@) =~= rows_view(pre) + seq![parts@.last()@]);
                assert(split_parens(v@) =~= rows_view(parts@) + split_parens_rec(
                    v@.subrange(i + 1, v@.len() as int),
                    cur@,
                ));
            }
        } else {
            cur.push(ch);
            proof {
                assert(split_parens(v@) =~= rows_view(parts@) + split_parens_rec(
                    v@.subrange(i + 1, v@.len() as int),
                    cur@,
                ));
            }
        }
        i = i + 1;
    }
    proof {
        assert(v@.subrange(v@.len() as int, v@.len() as int) =~= Seq::<char>::empty());
    }
    let ghost pre = parts@;
    parts.push(cur);
    proof {
        assert(rows_view(parts@) =~= rows_view(pre) + seq![parts@.last()@]);
        assert(rows_view(parts@) =~= split_parens(v@));
    }
    parts
}

/// Splits this crate's text lines into whitespace-separated tokens (see
/// `tokens_of_lines`).
fn tokenize_lines(lines: &Vec<Vec<char>>) -> (toks: Vec<Vec<char>>)
    ensures
        rows_view(toks@) == tokens_of_lines(rows_view(lines@)),
{
    let ghost ls = rows_view(lines@);
    let mut toks: Vec<Vec<char>> = Vec::new();
    let mut li: usize = 0;
    proof {
        assert(ls.subrange(0, ls.len() as int) =~= ls);
        assert(rows_view(toks@) =~= Seq::<Seq<char>>::empty());
    }
    while li < lines.len()
        invariant
            li <= lines@.len(),
            ls == rows_view(lines@),
            tokens_of_lines(ls) =~= rows_view(toks@) + tokens_of_lines(
                ls.subrange(li as int, ls.len() as int),
            ),
        decreases lines@.len() - li,
    {
        let n = lines[li].len();
        let mut cur: Vec<char> = Vec::new();
        let mut ci: usize = 0;
        proof {
            assert(ls.subrange(li as int, ls.len() as int)[0] == ls[li as int]);
            assert(ls.subrange(li as int, ls.len() as int).subrange(
                1,
                ls.len() - li,
            ) =~= ls.subrange(li + 1, ls.len() as int));
            assert(ls[li as int].subrange(0, ls[li as int].len() as int) =~= ls[li as int]);
        }
        while ci < n
            invariant
                li < lines@.len(),
                ls == rows_view(lines@),
                n == lines@[li as int]@.len(),
                ci <= n,
                tokens_of_lines(ls) =~= rows_view(toks@) + toks_rec(
                    ls[li as int].subrange(ci as int, n as int),
                    cur@,
                ) + tokens_of_lines(ls.subrange(li + 1, ls.len() as int)),
            decreases n - ci,
        {
            let ch = lines[li][ci];
            proof {
                assert(ls[li as int].subrange(ci as int, n as int)[0] == ls[li as int][ci as int]);
                assert(ls[li as int].subrange(ci as int, n as int).subrange(
                    1,
                    n - ci,
                ) =~= ls[li as int].subrange(ci + 1, n as int));
            }
            if ch == ' ' || ch == '\t' || ch == '\n' || ch == '\r' || ch == '\u{b}' || ch
                == '\u{c}' || ch == '\u{85}' || ch == '\u{a0}' {
                if cur.len() > 0 {
                    let ghost pre = toks@;
                    toks.push(cur);
                    cur = Vec::new();
                    proof {
                        assert(rows_view(toks@) =~= rows_view(pre) + seq![toks@.last()@]);
                    }
                }
                proof {
                    assert(cur@ =~= Seq::<char>::empty());
                    assert(tokens_of_lines(ls) =~= rows_view(toks@) + toks_rec(
                        ls[li as int].subrange(ci + 1, n as int),
                        cur@,
                    ) + tokens_of_lines(ls.subrange(li + 1, ls.len() as int)));
                }
            } else {
                cur.push(ch);
                proof {
                    assert(tokens_of_lines(ls) =~= rows_view(toks@) + toks_rec(
                        ls[li as int].subrange(ci + 1, n as int),
                        cur@,
                    ) + tokens_of_lines(ls.subrange(li + 1, ls.len() as int)));
                }
            }
            ci = ci + 1;
        }
        proof {
            assert(ls[li as int].subrange(n as int, n as int) =~= Seq::<char>::empty());
        }
        if cur.len() > 0 {
            let ghost pre = toks@;
            toks.push(cur);
            proof {
                assert(rows_view(toks@) =~= rows_view(pre) + seq![toks@.last()@]);
            }
        }
        proof {
            assert(tokens_of_lines(ls) =~= rows_view(toks@) + tokens_of_lines(
                ls.subrange(li + 1, ls.len() as int),
            ));
        }
        li = li + 1;
    }
    proof {
        assert(ls.subrange(ls.len() as int, ls.len() as int) =~= Seq::<Seq<char>>::empty());
        assert(rows_view(toks@) =~= tokens_of_lines(ls));
    }
    toks
}

/// Whether a token names one of the four alignments (see
/// `is_align_token`).
fn is_align_exec(t: &Vec<char>) -> (r: bool)
    ensures
        r == is_align_token(t@),
{
    (t.len() == 6 && t[0] == 'L' && t[1] == 'a' && t[2] == 'w' && t[3] == 'f' && t[4] == 'u'
        && t[5] == 'l') || (t.len() == 7 && t[0] == 'N' && t[1] == 'e' && t[2] == 'u' && t[3]
        == 't' && t[4] == 'r' && t[5] == 'a' && t[6] == 'l') || (t.len() == 7 && t[0] == 'C'
        && t[1] == 'h' && t[2] == 'a' && t[3] == 'o' && t[4] == 't' && t[5] == 'i' && t[6]
        == 'c') || (t.len() == 9 && t[0] == 'U' && t[1] == 'n' && t[2] == 'a' && t[3] == 'l'
        && t[4] == 'i' && t[5] == 'g' && t[6] == 'n' && t[7] == 'e' && t[8] == 'd')
}

/// The alignment a token names (see `align_of_token`).
fn align_of_exec(t: &Vec<char>, cur: Align) -> (a: Align)
    ensures
        a == align_of_token(t@, cur),
{
    if t.len() == 6 && t[0] == 'L' && t[1] == 'a' && t[2] == 'w' && t[3] == 'f' && t[4] == 'u'
        && t[5] == 'l' {
        Align::Lawful
    } else if t.len() == 7 && t[0] == 'N' && t[1] == 'e' && t[2] == 'u' && t[3] == 't' && t[4]
        == 'r' && t[5] == 'a' && t[6] == 'l' {
        Align::Neutral
    } else if t.len() == 7 && t[0] == 'C' && t[1] == 'h' && t[2] == 'a' && t[3] == 'o' && t[4]
        == 't' && t[5] == 'i' && t[6] == 'c' {
        Align::Chaotic
    } else if t.len() == 9 && t[0] == 'U' && t[1] == 'n' && t[2] == 'a' && t[3] == 'l' && t[4]
        == 'i' && t[5] == 'g' && t[6] == 'n' && t[7] == 'e' && t[8] == 'd' {
        Align::Unaligned
    } else {
        cur
    }
}

/// One token's effect on the record and the buffered plain tokens (see
/// `proc_token_spec`).
fn proc_one(stats: &mut NHStats, saved: &mut Vec<Vec<char>>, hd: &mut bool, tok: &Vec<char>)
    ensures
        (ParseState { m: final(stats)@, saved: rows_view(final(saved)@), hd: *final(hd) })
            == proc_token_spec(
            ParseState { m: old(stats)@, saved: rows_view(old(saved)@), hd: *old(hd) },
            tok@,
        ),
{
    let ci = first_ch(tok, ':');
    if ci == tok.len() {
        let ghost pre = saved@;
        let copy = sub_chars(tok, 0, tok.len());
        proof {
            assert(copy@ =~= tok@);
        }
        saved.push(copy);
        proof {
            assert(rows_view(saved@) =~= rows_view(pre).push(tok@));
        }
        return ;
    }
    let field = sub_chars(tok, 0, ci);
    let value = sub_chars(tok, ci + 1, tok.len());
    match field_kind(&field) {
        FieldKind::Dlvl => {
            if let Some(n) = parse_u32(&value) {
                stats.dlvl = n;
            }
        },
        FieldKind::Gold => {
            if let Some(n) = parse_u32(&value) {
                stats.gold = n;
            }
        },
        FieldKind::Hp => {
            let parts = split_parens_exec(&value);
            if parts.len() >= 2 {
                proof {
                    assert(parts@[0]@ == split_parens(value@)[0]);
                    assert(parts@[1]@ == split_parens(value@)[1]);
                }
                if let Some(n) = parse_u32(&parts[0]) {
                    stats.hp = n;
                }
                if let Some(n) = parse_u32(&parts[1]) {
                    stats.maxhp = n;
                }
            }
        },
        FieldKind::Pw => {
            let parts = split_parens_exec(&value);
            if parts.len() >= 2 {
                proof {
                    assert(parts@[0]@ == split_parens(value@)[0]);
                    assert(parts@[1]@ == split_parens(value@)[1]);
                }
                if let Some(n) = parse_u32(&parts[0]) {
                    stats.pw = n;
                }
                if let Some(n) = parse_u32(&parts[1]) {
                    stats.maxpw = n;
                }
            }
        },
        FieldKind::Ac => {
            if let Some(n) = parse_i32(&value) {
                stats.armour_class = n;
            }
        },
        FieldKind::Hd => {
            if let Some(n) = parse_u32(&value) {
                stats.level = CharLevel::HD(n);
                *hd = true;
            }
        },
        FieldKind::Xp => {
            let si = first_ch(&value, '/');
            if si == value.len() {
                proof {
                    assert(split2(value@, '/')[0] == value@);
                }
                if let Some(n) = parse_u32(&value) {
                    stats.level = CharLevel::XLvl(n);
                    *hd = false;
                }
            } else {
                let a = sub_chars(&value, 0, si);
                let b = sub_chars(&value, si + 1, value.len());
                let na = parse_u32(&a);
                let nb = parse_u32(&b);
                if let Some(n) = na {
                    if let Some(xp) = nb {
                        stats.level = CharLevel::XLvlwExp(n, xp);
                        *hd = false;
                    }
                }
            }
        },
        FieldKind::Turns => {
            if let Some(n) = parse_u32(&value) {
                stats.turns = Some(n);
            }
        },
        FieldKind::Score => {
            if let Some(n) = parse_u32(&value) {
                stats.score = Some(n);
            }
        },
        FieldKind::St => {
            let si = first_ch(&value, '/');
            if si == value.len() {
                proof {
                    assert(split2(value@, '/')[0] == value@);
                }
                if let Some(n) = parse_u32(&value) {
                    stats.ability.strength = Strength::Normal(n);
                }
            } else {
                let a = sub_chars(&value, 0, si);
                let b = sub_chars(&value, si + 1, value.len());
                if let Some(n) = parse_u32(&a) {
                    if b.len() == 2 && b[0] == '*' && b[1] == '*' {
                        stats.ability.strength = Strength::Percentile(n, 100);
                    } else {
                        if let Some(p) = parse_u32(&b) {
                            stats.ability.strength = Strength::Percentile(n, p);
                        }
                    }
                }
            }
        },
        FieldKind::Dx => {
            if let Some(n) = parse_u32(&value) {
                stats.ability.dexterity = n;
            }
        },
        FieldKind::Co => {
            if let Some(n) = parse_u32(&value) {
                stats.ability.constitution = n;
            }
        },
        FieldKind::In => {
            if let Some(n) = parse_u32(&value) {
                stats.ability.intelligence = n;
            }
        },
        FieldKind::Wi => {
            if let Some(n) = parse_u32(&value) {
                stats.ability.wisdom = n;
            }
        },
        FieldKind::Ch => {
            if let Some(n) = parse_u32(&value) {
                stats.ability.charisma = n;
            }
        },
        FieldKind::Unknown => {
            let ghost pre = saved@;
            let copy = sub_chars(tok, 0, tok.len());
            proof {
                assert(copy@ =~= tok@);
            }
            saved.push(copy);
            proof {
                assert(rows_view(saved@) =~= rows_view(pre).push(tok@));
            }
        },
    }
}

/// The literal token `the` (see `is_the`).
fn is_the_exec(t: &Vec<char>) -> (r: bool)
    ensures
        r == is_the(t@),
{
    t.len() == 3 && t[0] == 't' && t[1] == 'h' && t[2] == 'e'
}

impl NHStats {
    /// A fresh record with the defaults a just-started character shows.
    pub fn new() -> (r: NHStats)
        ensures
            r@ == init_stats(),
    {
        NHStats {
            dlvl: 1,
            gold: 0,
            hp: 1,
            maxhp: 10,
            pw: 5,
            maxpw: 10,
            armour_class: 10,
            level: CharLevel::XLvl(1),
            turns: None,
            score: None,
            ability: AbilityScores {
                strength: Strength::Normal(10),
                dexterity: 10,
                constitution: 10,
                intelligence: 10,
                wisdom: 10,
                charisma: 10,
            },
            align: Align::Unaligned,
            name: String::from_str("luser"),
            rank: Class::Rank(String::from_str("windows hacker")),
        }
    }

    /// Parses one status window into the record (see
    /// `read_statusline_spec`).  Unrecognized or unparsable tokens leave
    /// the prior values untouched; the call itself always succeeds.
    pub fn read_statusline(&mut self, window: &SubWindow) -> (res: Result<(), ExtractError>)
        requires
            window.wf(),
        ensures
            res is Ok,
            final(self)@ == read_statusline_spec(old(self)@, lines_spec(window@.rows)),
    {
        let rows = lines_chars(window);
        proof {
            assert(rows_view(rows@) =~~= lines_spec(window@.rows));
        }
        let toks = tokenize_lines(&rows);
        let ghost tseq = tokens_of_lines(lines_spec(window@.rows));
        proof {
            assert(rows_view(toks@) == tseq);
        }
        let mut saved: Vec<Vec<char>> = Vec::new();
        let mut hd: bool = false;
        let ghost st0 = ParseState { m: old(self)@, saved: Seq::empty(), hd: false };
        let mut i: usize = 0;
        proof {
            assert(rows_view(saved@) =~= Seq::<Seq<char>>::empty());
            assert(tseq.subrange(0, tseq.len() as int) =~= tseq);
        }
        while i < toks.len()
            invariant
                i <= toks@.len(),
                rows_view(toks@) == tseq,
                proc_tokens_spec(st0, tseq) == proc_tokens_spec(
                    ParseState { m: self@, saved: rows_view(saved@), hd: hd },
                    tseq.subrange(i as int, tseq.len() as int),
                ),
            decreases toks@.len() - i,
        {
            proof {
                assert(tseq.subrange(i as int, tseq.len() as int)[0] == tseq[i as int]);
                assert(tseq[i as int] == toks@[i as int]@);
                assert(tseq.subrange(i as int, tseq.len() as int).subrange(
                    1,
                    tseq.len() - i,
                ) =~= tseq.subrange(i + 1, tseq.len() as int));
            }
            proc_one(self, &mut saved, &mut hd, &toks[i]);
            i = i + 1;
        }
        let ghost st1 = proc_tokens_spec(st0, tseq);
        proof {
            assert(tseq.subrange(tseq.len() as int, tseq.len() as int) =~= Seq::<
                Seq<char>,
            >::empty());
            assert(st1 == (ParseState { m: self@, saved: rows_view(saved@), hd: hd }));
        }
        if saved.len() > 0 && is_align_exec(&saved[saved.len() - 1]) {
            let ghost pre = saved@;
            let last = match saved.pop() {
                Some(t) => t,
                None => {
                    proof {
                        assert(false);
                    }
                    Vec::new()
                },
            };
            self.align = align_of_exec(&last, self.align);
            proof {
                assert(rows_view(saved@) =~= rows_view(pre).drop_last());
                assert(last@ == rows_view(pre).last());
            }
        }
        let ghost st2 = pop_align_spec(st1);
        proof {
            assert(st2 == (ParseState { m: self@, saved: rows_view(saved@), hd: hd }));
        }
        let mut k: usize = 0;
        while k < saved.len()
            invariant
                k <= saved@.len(),
                rows_view(saved@) == st2.saved,
                hd == st2.hd,
                the_scan_rec(st2.m, st2.saved, st2.hd, 0) == the_scan_rec(
                    self@,
                    st2.saved,
                    st2.hd,
                    k as int,
                ),
            decreases saved@.len() - k,
        {
            if k >= 1 && k + 1 < saved.len() {
                if is_the_exec(&saved[k]) {
                    self.name = chars_to_string(&saved[k - 1]);
                    if hd {
                        self.rank = Class::Polyform(chars_to_string(&saved[k + 1]));
                    } else {
                        self.rank = Class::Rank(chars_to_string(&saved[k + 1]));
                    }
                }
            }
            k = k + 1;
        }
        Ok(())
    }
}

} // verus!
