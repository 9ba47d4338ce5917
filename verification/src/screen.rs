//! The screen buffer and its escape-sequence decoder.
//!
//! A `ScreenBuffer` owns a fixed `height x width` grid of characters and
//! consumes a raw byte stream.  Ordinary bytes are written at the cursor
//! through the G0 glyph map; control bytes and ESC-prefixed sequences move
//! the cursor, erase cells, select charsets, and save or restore state.
//!
//! The whole decoder is mirrored by spec functions over `ScreenModel`;
//! `update` is proved to take the buffer through exactly those transitions.

use vstd::prelude::*;

verus! {

/// Zero-based grid coordinates.
#[derive(Clone, Copy, Debug, PartialEq, Eq, Structural)]
pub struct Position {
    pub x: usize,
    pub y: usize,
}

/// Grid dimensions.
#[derive(Clone, Copy, Debug, PartialEq, Eq, Structural)]
pub struct ScrSize {
    pub width: usize,
    pub height: usize,
}

/// A selectable glyph-mapping table.
#[derive(Clone, Copy, Debug, PartialEq, Eq, Structural)]
pub enum CharMap {
    IsoStandard,
    Utf8,
    VtGraphics,
    Null,
    User,
}

/// Sub-state of a control sequence: parameter bytes, then intermediates.
#[derive(Clone, Copy, Debug, PartialEq, Eq, Structural)]
pub enum CsiState {
    Parameters,
    Intermediates,
}

/// The kind of escape sequence being accumulated.
#[derive(Clone, Copy, Debug, PartialEq, Eq, Structural)]
pub enum EscType {
    Simple,
    Csi(CsiState),
    Osc,
    EsqOsc,
}

/// Decoder state.  `Utf8` carries a pending-continuation count; it is part
/// of the data model but no transition rule enters it, so a buffer never
/// reaches it from its initial state.
#[derive(Clone, Copy, Debug, PartialEq, Eq, Structural)]
pub enum EntryMode {
    Normal,
    Utf8(u32),
    Escape(EscType),
}

/// A saved snapshot of cursor and charset state, for the save and restore
/// escapes.
#[derive(Clone, Copy, Debug, PartialEq, Eq, Structural)]
pub struct ScreenState {
    pub cursor: Position,
    pub charset: CharMap,
    pub g0: CharMap,
    pub g1: CharMap,
}

/// Hard cap on the pending-escape buffer: a longer sequence is aborted, so
/// garbled input cannot grow memory without bound.
pub const ESC_MAX: usize = 256;

/// The mathematical state of a screen buffer.
pub ghost struct ScreenModel {
    pub grid: Seq<Seq<char>>,
    pub cursor: Position,
    pub size: ScrSize,
    pub mode: EntryMode,
    pub esc: Seq<u8>,
    pub charset: CharMap,
    pub g0: CharMap,
    pub g1: CharMap,
    pub saved: ScreenState,
}

/// Well-formedness: the grid fills the declared size and both the live and
/// the saved cursor sit strictly inside it.
pub open spec fn wf_model(m: ScreenModel) -> bool {
    &&& 1 <= m.size.width < usize::MAX
    &&& 1 <= m.size.height < usize::MAX
    &&& m.grid.len() == m.size.height
    &&& forall|r: int| 0 <= r < m.grid.len() ==> (#[trigger] m.grid[r]).len() == m.size.width
    &&& m.cursor.x < m.size.width
    &&& m.cursor.y < m.size.height
    &&& m.saved.cursor.x < m.size.width
    &&& m.saved.cursor.y < m.size.height
    &&& m.esc.len() <= ESC_MAX
    &&& (m.mode matches EntryMode::Escape(EscType::Simple) ==> m.esc.len() >= 1)
    &&& (m.mode matches EntryMode::Escape(EscType::Csi(_)) ==> m.esc.len() >= 2)
}

/// The state of a freshly allocated buffer: a NUL-filled grid, cursor at
/// the top-left corner, plain decoding mode, ISO charsets everywhere.
pub open spec fn init_model(width: usize, height: usize) -> ScreenModel {
    ScreenModel {
        grid: Seq::new(height as nat, |r: int| Seq::new(width as nat, |c: int| '\0')),
        cursor: Position { x: 0, y: 0 },
        size: ScrSize { width, height },
        mode: EntryMode::Normal,
        esc: Seq::empty(),
        charset: CharMap::IsoStandard,
        g0: CharMap::IsoStandard,
        g1: CharMap::IsoStandard,
        saved: ScreenState {
            cursor: Position { x: 0, y: 0 },
            charset: CharMap::IsoStandard,
            g0: CharMap::IsoStandard,
            g1: CharMap::IsoStandard,
        },
    }
}

/// The VT-graphics glyph table; characters outside it pass unchanged.
pub open spec fn vt_graphics_spec(ch: char) -> char {
    if ch == 'a' {
        '\u{2592}'
    } else if ch == 'j' {
        '\u{2518}'
    } else if ch == 'k' {
        '\u{2510}'
    } else if ch == 'l' {
        '\u{250c}'
    } else if ch == 'm' {
        '\u{2514}'
    } else if ch == 'n' {
        '\u{253c}'
    } else if ch == 'q' {
        '\u{2500}'
    } else if ch == 't' {
        '\u{251c}'
    } else if ch == 'u' {
        '\u{2524}'
    } else if ch == 'v' {
        '\u{2534}'
    } else if ch == 'w' {
        '\u{252c}'
    } else if ch == 'x' {
        '\u{2502}'
    } else if ch == '~' {
        '\u{00b7}'
    } else {
        ch
    }
}

/// Applies one glyph map to a character.  Only the VT-graphics table
/// remaps anything; every other map is the identity.
pub open spec fn map_char_spec(map: CharMap, ch: char) -> char {
    match map {
        CharMap::VtGraphics => vt_graphics_spec(ch),
        _ => ch,
    }
}

/// Writes `ch` (mapped through G0 only; the active charset selector and G1
/// are tracked but never consulted when rendering) at the cursor, then
/// advances: right one cell, wrapping to the next row at the right edge and
/// to the top row at the bottom edge.  There is no scrollback.
pub open spec fn put_char_spec(m: ScreenModel, ch: char) -> ScreenModel {
    let mc = map_char_spec(m.g0, ch);
    let x = m.cursor.x as int;
    let y = m.cursor.y as int;
    let grid = m.grid.update(y, m.grid[y].update(x, mc));
    let cursor = if x + 1 >= m.size.width {
        if y + 1 >= m.size.height {
            Position { x: 0, y: 0 }
        } else {
            Position { x: 0, y: (y + 1) as usize }
        }
    } else {
        Position { x: (x + 1) as usize, y: m.cursor.y }
    };
    ScreenModel { grid, cursor, ..m }
}

/// Line feed: one row down, clamped at the bottom edge.
pub open spec fn lf_spec(m: ScreenModel) -> ScreenModel {
    let y = m.cursor.y as int;
    let cursor = if y + 1 >= m.size.height {
        m.cursor
    } else {
        Position { x: m.cursor.x, y: (y + 1) as usize }
    };
    ScreenModel { cursor, ..m }
}

/// Carriage return: column zero.
pub open spec fn cr_spec(m: ScreenModel) -> ScreenModel {
    ScreenModel { cursor: Position { x: 0, y: m.cursor.y }, ..m }
}

/// Backspace: at column zero a no-op; otherwise one cell back, which is
/// blanked with a space.
pub open spec fn bs_spec(m: ScreenModel) -> ScreenModel {
    if m.cursor.x == 0 {
        m
    } else {
        let x = (m.cursor.x - 1) as usize;
        let y = m.cursor.y as int;
        ScreenModel {
            grid: m.grid.update(y, m.grid[y].update(x as int, ' ')),
            cursor: Position { x, y: m.cursor.y },
            ..m
        }
    }
}

/// Cursor up by `n`, clamped at the top edge.
pub open spec fn cursor_up_spec(m: ScreenModel, n: u32) -> ScreenModel {
    let y = if m.cursor.y >= n { (m.cursor.y - n) as usize } else { 0 };
    ScreenModel { cursor: Position { x: m.cursor.x, y }, ..m }
}

/// Cursor down by `n`, clamped at the bottom edge.
pub open spec fn cursor_down_spec(m: ScreenModel, n: u32) -> ScreenModel {
    let y = if m.cursor.y + n >= m.size.height {
        (m.size.height - 1) as usize
    } else {
        (m.cursor.y + n) as usize
    };
    ScreenModel { cursor: Position { x: m.cursor.x, y }, ..m }
}

/// Cursor forward by `n`, clamped at the right edge.
pub open spec fn cursor_fwd_spec(m: ScreenModel, n: u32) -> ScreenModel {
    let x = if m.cursor.x + n >= m.size.width {
        (m.size.width - 1) as usize
    } else {
        (m.cursor.x + n) as usize
    };
    ScreenModel { cursor: Position { x, y: m.cursor.y }, ..m }
}

/// Cursor back by `n`, clamped at the left edge.
pub open spec fn cursor_back_spec(m: ScreenModel, n: u32) -> ScreenModel {
    let x = if m.cursor.x >= n { (m.cursor.x - n) as usize } else { 0 };
    ScreenModel { cursor: Position { x, y: m.cursor.y }, ..m }
}

/// Sets the column from a one-based parameter, clamped to the grid.
pub open spec fn set_col_spec(m: ScreenModel, n: u32) -> ScreenModel {
    let t = if n == 0 { 0int } else { n - 1 };
    let x = if t >= m.size.width { (m.size.width - 1) as usize } else { t as usize };
    ScreenModel { cursor: Position { x, y: m.cursor.y }, ..m }
}

/// Sets the row from a one-based parameter, clamped to the grid.
pub open spec fn set_row_spec(m: ScreenModel, n: u32) -> ScreenModel {
    let t = if n == 0 { 0int } else { n - 1 };
    let y = if t >= m.size.height { (m.size.height - 1) as usize } else { t as usize };
    ScreenModel { cursor: Position { x: m.cursor.x, y }, ..m }
}

/// Whether erase-display mode `mode` blanks cell `(r, c)` under cursor
/// `cur`: mode 0 from the cursor (inclusive) to the end of the screen,
/// mode 1 from the start through the cursor, modes 2 and 3 everything.
pub open spec fn display_erased(mode: u32, cur: Position, r: int, c: int) -> bool {
    if mode == 0 {
        r > cur.y || (r == cur.y && c >= cur.x)
    } else if mode == 1 {
        r < cur.y || (r == cur.y && c <= cur.x)
    } else {
        mode == 2 || mode == 3
    }
}

/// Erase in display: blanks the selected region with NUL, restoring those
/// cells to their initial state; modes 2 and 3 also reset the cursor to
/// the top-left corner.  Other modes do nothing.
pub open spec fn erase_display_spec(m: ScreenModel, mode: u32) -> ScreenModel {
    if mode <= 3 {
        let grid = Seq::new(
            m.grid.len(),
            |r: int|
                Seq::new(
                    m.grid[r].len(),
                    |c: int| if display_erased(mode, m.cursor, r, c) { '\0' } else { m.grid[r][c] },
                ),
        );
        let cursor = if mode == 2 || mode == 3 { Position { x: 0, y: 0 } } else { m.cursor };
        ScreenModel { grid, cursor, ..m }
    } else {
        m
    }
}

/// Whether erase-line mode `mode` blanks column `c` of the cursor row.
pub open spec fn line_erased(mode: u32, cur: Position, c: int) -> bool {
    if mode == 0 {
        c >= cur.x
    } else if mode == 1 {
        c <= cur.x
    } else {
        mode == 2
    }
}

/// Erase in line: blanks part of the cursor row with NUL; the cursor does
/// not move.  Modes above 2 do nothing.
pub open spec fn erase_inline_spec(m: ScreenModel, mode: u32) -> ScreenModel {
    if mode <= 2 {
        let y = m.cursor.y as int;
        let row = Seq::new(
            m.grid[y].len(),
            |c: int| if line_erased(mode, m.cursor, c) { '\0' } else { m.grid[y][c] },
        );
        ScreenModel { grid: m.grid.update(y, row), ..m }
    } else {
        m
    }
}

/// Erase characters: overwrites `n` cells with spaces by the ordinary
/// write path, so the cursor advances and wraps exactly as when printing.
pub open spec fn erase_chars_spec(m: ScreenModel, n: nat) -> ScreenModel
    decreases n,
{
    if n == 0 {
        m
    } else {
        put_char_spec(erase_chars_spec(m, (n - 1) as nat), ' ')
    }
}

/// Whether `b` is an ASCII decimal digit.
pub open spec fn is_digit_byte(b: u8) -> bool {
    0x30 <= b <= 0x39
}

/// The number written by a sequence of decimal digit bytes.
pub open spec fn digits_val_bytes(s: Seq<u8>) -> int
    decreases s.len(),
{
    if s.len() == 0 {
        0
    } else {
        digits_val_bytes(s.drop_last()) * 10 + (s.last() - 0x30)
    }
}

/// The value of one control-sequence parameter field: its decimal value if
/// it is all digits and fits; an empty or unparsable field defaults to 1.
pub open spec fn field_val(f: Seq<u8>) -> u32 {
    if f.len() > 0 && (forall|i: int| 0 <= i < f.len() ==> is_digit_byte(#[trigger] f[i]))
        && digits_val_bytes(f) <= u32::MAX {
        digits_val_bytes(f) as u32
    } else {
        1
    }
}

/// Splits parameter bytes on `;` into field values; `cur` is the field
/// gathered so far.  Even an empty byte string yields one (defaulted) field.
pub open spec fn fields_rec(s: Seq<u8>, cur: Seq<u8>) -> Seq<u32>
    decreases s.len(),
{
    if s.len() == 0 {
        seq![field_val(cur)]
    } else if s[0] == 0x3b {
        seq![field_val(cur)] + fields_rec(s.subrange(1, s.len() as int), Seq::empty())
    } else {
        fields_rec(s.subrange(1, s.len() as int), cur.push(s[0]))
    }
}

/// Pads a parameter list to length at least two with the default 1.
pub open spec fn pad2(ps: Seq<u32>) -> Seq<u32> {
    if ps.len() >= 2 {
        ps
    } else if ps.len() == 1 {
        ps.push(1)
    } else {
        seq![1u32, 1u32]
    }
}

/// The parameters of a complete control sequence: everything between the
/// leading `ESC [` and the final byte, split on `;`, padded to length two.
pub open spec fn csi_params(esc: Seq<u8>) -> Seq<u32> {
    pad2(fields_rec(esc.subrange(2, esc.len() - 1), Seq::empty()))
}

/// Dispatches a complete control sequence on its final byte.  Unknown
/// finals, and `m` (graphic rendition) deliberately, do nothing.
pub open spec fn csi_apply_spec(m: ScreenModel) -> ScreenModel {
    if m.esc.len() < 3 {
        m
    } else {
        let fin = m.esc.last();
        let ps = csi_params(m.esc);
        let n0 = ps[0];
        let n1 = ps[1];
        if fin == 0x41 {  // A
            cursor_up_spec(m, n0)
        } else if fin == 0x42 {  // B
            cursor_down_spec(m, n0)
        } else if fin == 0x43 {  // C
            cursor_fwd_spec(m, n0)
        } else if fin == 0x44 {  // D
            cursor_back_spec(m, n0)
        } else if fin == 0x45 {  // E
            cr_spec(cursor_down_spec(m, n0))
        } else if fin == 0x46 {  // F
            cr_spec(cursor_up_spec(m, n0))
        } else if fin == 0x47 {  // G
            set_col_spec(m, n0)
        } else if fin == 0x64 {  // d
            set_row_spec(m, n0)
        } else if fin == 0x48 || fin == 0x66 {  // H, f
            set_col_spec(set_row_spec(m, n0), n1)
        } else if fin == 0x4a {  // J
            erase_display_spec(m, n0)
        } else if fin == 0x4b {  // K
            erase_inline_spec(m, n0)
        } else if fin == 0x58 {  // X
            erase_chars_spec(m, n0 as nat)
        } else {
            m
        }
    }
}

/// Charset selection from a designator byte; unknown bytes keep `cur`.
pub open spec fn charmap_sel(arg: u8, cur: CharMap) -> CharMap {
    if arg == 0x42 {  // B
        CharMap::IsoStandard
    } else if arg == 0x30 {  // 0
        CharMap::VtGraphics
    } else if arg == 0x55 {  // U
        CharMap::Null
    } else if arg == 0x4b {  // K
        CharMap::User
    } else {
        cur
    }
}

/// Dispatches a complete simple escape.  The byte after ESC selects the
/// command; `7` and `8` save and restore state, `%` selects the active
/// charset, `(` and `)` designate G0 and G1.  The rest are no-ops.
pub open spec fn simple_apply_spec(m: ScreenModel) -> ScreenModel {
    if m.esc.len() < 2 {
        m
    } else {
        let cmd = m.esc[1];
        let arg: u8 = if m.esc.len() >= 3 { m.esc[2] } else { 0 };
        if cmd == 0x37 {  // 7
            ScreenModel {
                saved: ScreenState { cursor: m.cursor, charset: m.charset, g0: m.g0, g1: m.g1 },
                ..m
            }
        } else if cmd == 0x38 {  // 8
            ScreenModel {
                cursor: m.saved.cursor,
                charset: m.saved.charset,
                g0: m.saved.g0,
                g1: m.saved.g1,
                ..m
            }
        } else if cmd == 0x25 {  // %
            if arg == 0x40 {  // @
                ScreenModel { charset: CharMap::IsoStandard, ..m }
            } else if arg == 0x47 || arg == 0x38 {  // G, 8
                ScreenModel { charset: CharMap::Utf8, ..m }
            } else {
                m
            }
        } else if cmd == 0x28 {  // (
            ScreenModel { g0: charmap_sel(arg, m.g0), ..m }
        } else if cmd == 0x29 {  // )
            ScreenModel { g1: charmap_sel(arg, m.g1), ..m }
        } else {
            m
        }
    }
}

/// Forgets the pending escape and returns to plain decoding.
pub open spec fn clear_esc_spec(m: ScreenModel) -> ScreenModel {
    ScreenModel { esc: Seq::empty(), mode: EntryMode::Normal, ..m }
}

/// One byte in plain decoding mode.
pub open spec fn normal_step_spec(m: ScreenModel, b: u8) -> ScreenModel {
    if b == 0x0a {
        lf_spec(m)
    } else if b == 0x0d {
        cr_spec(m)
    } else if b == 0x08 {
        bs_spec(m)
    } else if b == 0x1b {
        ScreenModel { esc: seq![0x1bu8], mode: EntryMode::Escape(EscType::Simple), ..m }
    } else {
        put_char_spec(m, b as char)
    }
}

/// One byte while an escape sequence is pending.  CAN and SUB abort from
/// any state, as does an escape that would outgrow `ESC_MAX`; every other
/// byte is appended, and a byte without a matching rule changes nothing
/// else.
pub open spec fn esc_step_spec(m: ScreenModel, t: EscType, b: u8) -> ScreenModel {
    if b == 0x18 || b == 0x1a {
        clear_esc_spec(m)
    } else if m.esc.len() >= ESC_MAX {
        clear_esc_spec(m)
    } else {
        let m2 = ScreenModel { esc: m.esc.push(b), ..m };
        match t {
            EscType::Simple => {
                if b == 0x5b {  // [
                    ScreenModel { mode: EntryMode::Escape(EscType::Csi(CsiState::Parameters)), ..m2 }
                } else if b == 0x5d {  // ]
                    ScreenModel { mode: EntryMode::Escape(EscType::Osc), ..m2 }
                } else if 0x30 <= b <= 0x7e {
                    clear_esc_spec(simple_apply_spec(m2))
                } else {
                    m2
                }
            }
            EscType::Csi(CsiState::Parameters) => {
                if 0x30 <= b <= 0x3f {
                    m2
                } else if 0x20 <= b <= 0x2f {
                    ScreenModel {
                        mode: EntryMode::Escape(EscType::Csi(CsiState::Intermediates)),
                        ..m2
                    }
                } else if 0x40 <= b <= 0x7e {
                    clear_esc_spec(csi_apply_spec(m2))
                } else {
                    m2
                }
            }
            EscType::Csi(CsiState::Intermediates) => {
                if 0x20 <= b <= 0x2f {
                    m2
                } else if 0x40 <= b <= 0x7e {
                    clear_esc_spec(csi_apply_spec(m2))
                } else {
                    m2
                }
            }
            EscType::Osc => {
                if b == 0x1b {
                    ScreenModel { mode: EntryMode::Escape(EscType::EsqOsc), ..m2 }
                } else {
                    m2
                }
            }
            EscType::EsqOsc => {
                if b == 0x5c {  // \ -- the payload is discarded
                    clear_esc_spec(m2)
                } else {
                    m2
                }
            }
        }
    }
}

/// One byte of input.  The `Utf8` decoder state has no entering rule;
/// were a model ever in it, a byte would be handled as in plain mode.
pub open spec fn step_spec(m: ScreenModel, b: u8) -> ScreenModel {
    match m.mode {
        EntryMode::Escape(t) => esc_step_spec(m, t, b),
        _ => normal_step_spec(m, b),
    }
}

/// The first `n` bytes of `s`, applied in order.
pub open spec fn run_spec(m: ScreenModel, s: Seq<u8>, n: int) -> ScreenModel
    decreases n,
{
    if n <= 0 {
        m
    } else {
        step_spec(run_spec(m, s, n - 1), s[n - 1])
    }
}

/// A whole byte sequence, applied in order.
pub open spec fn update_spec(m: ScreenModel, s: Seq<u8>) -> ScreenModel {
    run_spec(m, s, s.len() as int)
}

/// Erasing characters neither reads nor writes the pending-escape state,
/// so it commutes with clearing it.
proof fn lemma_erase_chars_frame(m: ScreenModel, n: nat)
    ensures
        erase_chars_spec(ScreenModel { esc: Seq::empty(), mode: EntryMode::Normal, ..m }, n)
            == (ScreenModel {
            esc: Seq::empty(),
            mode: EntryMode::Normal,
            ..erase_chars_spec(m, n)
        }),
    decreases n,
{
    if n > 0 {
        lemma_erase_chars_frame(m, (n - 1) as nat);
    }
}

/// A printable byte arriving in plain decoding mode under the standard
/// glyph map is placed at the cursor as itself, and the cursor advances
/// one cell: left to right, wrapping to the next row at the right edge
/// and to the top row at the bottom edge.  Nothing else changes and no
/// content scrolls.
pub proof fn lemma_printable_step(m: ScreenModel, b: u8)
    requires
        wf_model(m),
        m.mode == EntryMode::Normal,
        0x20 <= b <= 0x7e,
        m.g0 == CharMap::IsoStandard,
    ensures
        step_spec(m, b).grid == m.grid.update(
            m.cursor.y as int,
            m.grid[m.cursor.y as int].update(m.cursor.x as int, b as char),
        ),
        m.cursor.x + 1 < m.size.width ==> step_spec(m, b).cursor == (Position {
            x: (m.cursor.x + 1) as usize,
            y: m.cursor.y,
        }),
        m.cursor.x + 1 == m.size.width && m.cursor.y + 1 < m.size.height ==> step_spec(
            m,
            b,
        ).cursor == (Position { x: 0, y: (m.cursor.y + 1) as usize }),
        m.cursor.x + 1 == m.size.width && m.cursor.y + 1 == m.size.height ==> step_spec(
            m,
            b,
        ).cursor == (Position { x: 0, y: 0 }),
        step_spec(m, b).mode == EntryMode::Normal,
        step_spec(m, b).size == m.size,
{
}

/// A whole run of printable bytes that fits in the cursor row is laid
/// down left to right, one cell per byte, starting at the cursor; the
/// cursor ends just past the text and nothing else changes.  Together
/// with the wrap clauses of `lemma_printable_step` this pins the
/// left-to-right, top-to-bottom placement of printable input.
pub proof fn lemma_printable_run(m: ScreenModel, s: Seq<u8>, n: int)
    requires
        wf_model(m),
        m.mode == EntryMode::Normal,
        m.g0 == CharMap::IsoStandard,
        forall|k: int| 0 <= k < s.len() ==> 0x20 <= #[trigger] s[k] <= 0x7e,
        0 <= n <= s.len(),
        m.cursor.x + s.len() < m.size.width,
    ensures
        ({
            let m2 = run_spec(m, s, n);
            &&& m2.cursor == (Position { x: (m.cursor.x + n) as usize, y: m.cursor.y })
            &&& m2.grid.len() == m.grid.len()
            &&& forall|k: int|
                0 <= k < n ==> #[trigger] m2.grid[m.cursor.y as int][m.cursor.x + k] == (s[
                    k
                ] as char)
            &&& forall|r: int| 0 <= r < m.grid.len() && r != m.cursor.y ==> #[trigger] m2.grid[r]
                == m.grid[r]
            &&& m2.grid[m.cursor.y as int].len() == m.grid[m.cursor.y as int].len()
            &&& forall|c: int|
                0 <= c < m.grid[m.cursor.y as int].len() && !(m.cursor.x <= c < m.cursor.x + n)
                    ==> #[trigger] m2.grid[m.cursor.y as int][c] == m.grid[m.cursor.y as int][c]
            &&& m2.mode == m.mode
            &&& m2.esc == m.esc
            &&& m2.size == m.size
            &&& m2.charset == m.charset
            &&& m2.g0 == m.g0
            &&& m2.g1 == m.g1
            &&& m2.saved == m.saved
        }),
    decreases n,
{
    if n > 0 {
        lemma_printable_run(m, s, n - 1);
        let m1 = run_spec(m, s, n - 1);
        lemma_printable_step(m1, s[n - 1]);
    }
}

/// The plain control bytes: line feed moves one row down and stops at
/// the bottom edge, carriage return sets the column to zero, and a
/// backspace at column zero changes nothing at all.  None of them write
/// into the grid.
pub proof fn lemma_control_steps(m: ScreenModel)
    requires
        wf_model(m),
        m.mode == EntryMode::Normal,
    ensures
        step_spec(m, 0x0a).cursor.x == m.cursor.x,
        m.cursor.y + 1 < m.size.height ==> step_spec(m, 0x0a).cursor.y == m.cursor.y + 1,
        m.cursor.y + 1 == m.size.height ==> step_spec(m, 0x0a).cursor.y == m.cursor.y,
        step_spec(m, 0x0a).grid == m.grid,
        step_spec(m, 0x0d).cursor == (Position { x: 0, y: m.cursor.y }),
        step_spec(m, 0x0d).grid == m.grid,
        m.cursor.x == 0 ==> step_spec(m, 0x08) == m,
{
}

/// The erase-display sequence with argument 2 blanks the whole grid and
/// homes the cursor, from any plain-mode state.  The plain-mode
/// hypothesis is necessary: a stream that ended mid-escape leaves the
/// decoder accumulating, and the sequence would be absorbed into the
/// pending buffer instead.
#[verifier::rlimit(60)]
pub proof fn lemma_erase_all(m: ScreenModel)
    requires
        wf_model(m),
        m.mode == EntryMode::Normal,
    ensures
        ({
            let m2 = update_spec(m, seq![0x1bu8, 0x5bu8, 0x32u8, 0x4au8]);
            &&& m2.cursor == (Position { x: 0, y: 0 })
            &&& m2.grid.len() == m.grid.len()
            &&& forall|r: int, c: int|
                0 <= r < m2.grid.len() && 0 <= c < m2.grid[r].len() ==> #[trigger] m2.grid[r][c]
                    == '\0'
            &&& m2.mode == EntryMode::Normal
        }),
{
    reveal_with_fuel(run_spec, 6);
    reveal_with_fuel(fields_rec, 4);
    reveal_with_fuel(digits_val_bytes, 4);
    let s = seq![0x1bu8, 0x5bu8, 0x32u8, 0x4au8];
    assert(s[0] == 0x1b && s[1] == 0x5b && s[2] == 0x32 && s[3] == 0x4a);
    let m1 = step_spec(m, 0x1b);
    let m2 = step_spec(m1, 0x5b);
    let m3 = step_spec(m2, 0x32);
    let m4 = step_spec(m3, 0x4a);
    assert(run_spec(m, s, 1) == m1);
    assert(run_spec(m, s, 2) == m2);
    assert(run_spec(m, s, 3) == m3);
    assert(run_spec(m, s, 4) == m4);
    assert(m3.esc =~= seq![0x1bu8, 0x5bu8, 0x32u8]);
    let e4 = m3.esc.push(0x4a);
    assert(e4.subrange(2, e4.len() - 1) =~= seq![0x32u8]);
    assert(fields_rec(seq![0x32u8], Seq::empty()) =~= seq![field_val(seq![0x32u8])]) by {
        assert(seq![0x32u8].subrange(1, 1) =~= Seq::<u8>::empty());
    }
    assert(digits_val_bytes(seq![0x32u8]) == 2) by {
        assert(seq![0x32u8].drop_last() =~= Seq::<u8>::empty());
    }
    assert(field_val(seq![0x32u8]) == 2);
    assert(csi_params(e4) =~= seq![2u32, 1u32]);
}

/// The set-position sequence for one-based row 5, column 10 puts the
/// cursor at zero-based row 4, column 9, clamped to the grid; the grid
/// itself is untouched.
#[verifier::rlimit(100)]
pub proof fn lemma_set_position(m: ScreenModel)
    requires
        wf_model(m),
        m.mode == EntryMode::Normal,
    ensures
        ({
            let m2 = update_spec(
                m,
                seq![0x1bu8, 0x5bu8, 0x35u8, 0x3bu8, 0x31u8, 0x30u8, 0x48u8],
            );
            &&& m2.cursor.y == (if 4 < m.size.height {
                4int
            } else {
                m.size.height - 1
            })
            &&& m2.cursor.x == (if 9 < m.size.width {
                9int
            } else {
                m.size.width - 1
            })
            &&& m2.grid == m.grid
            &&& m2.mode == EntryMode::Normal
        }),
{
    reveal_with_fuel(run_spec, 9);
    reveal_with_fuel(fields_rec, 6);
    reveal_with_fuel(digits_val_bytes, 4);
    let s = seq![0x1bu8, 0x5bu8, 0x35u8, 0x3bu8, 0x31u8, 0x30u8, 0x48u8];
    assert(s[0] == 0x1b && s[1] == 0x5b && s[2] == 0x35 && s[3] == 0x3b && s[4] == 0x31 && s[5]
        == 0x30 && s[6] == 0x48);
    let m1 = step_spec(m, 0x1b);
    let m2 = step_spec(m1, 0x5b);
    let m3 = step_spec(m2, 0x35);
    let m4 = step_spec(m3, 0x3b);
    let m5 = step_spec(m4, 0x31);
    let m6 = step_spec(m5, 0x30);
    let m7 = step_spec(m6, 0x48);
    assert(run_spec(m, s, 1) == m1);
    assert(run_spec(m, s, 2) == m2);
    assert(run_spec(m, s, 3) == m3);
    assert(run_spec(m, s, 4) == m4);
    assert(run_spec(m, s, 5) == m5);
    assert(run_spec(m, s, 6) == m6);
    assert(run_spec(m, s, 7) == m7);
    assert(m6.esc =~= seq![0x1bu8, 0x5bu8, 0x35u8, 0x3bu8, 0x31u8, 0x30u8]);
    let e7 = m6.esc.push(0x48);
    assert(e7.subrange(2, e7.len() - 1) =~= seq![0x35u8, 0x3bu8, 0x31u8, 0x30u8]);
    let ps = seq![0x35u8, 0x3bu8, 0x31u8, 0x30u8];
    assert(ps.subrange(1, 4) =~= seq![0x3bu8, 0x31u8, 0x30u8]);
    assert(seq![0x3bu8, 0x31u8, 0x30u8].subrange(1, 3) =~= seq![0x31u8, 0x30u8]);
    assert(seq![0x31u8, 0x30u8].subrange(1, 2) =~= seq![0x30u8]);
    assert(seq![0x30u8].subrange(1, 1) =~= Seq::<u8>::empty());
    assert(digits_val_bytes(seq![0x35u8]) == 5) by {
        assert(seq![0x35u8].drop_last() =~= Seq::<u8>::empty());
    }
    assert(digits_val_bytes(seq![0x31u8, 0x30u8]) == 10) by {
        assert(seq![0x31u8, 0x30u8].drop_last() =~= seq![0x31u8]);
        assert(seq![0x31u8].drop_last() =~= Seq::<u8>::empty());
    }
    assert(field_val(seq![0x35u8]) == 5);
    assert(field_val(seq![0x31u8, 0x30u8]) == 10);
    assert(fields_rec(ps, Seq::empty()) =~= seq![5u32, 10u32]) by {
        assert(fields_rec(seq![0x30u8], seq![0x31u8]) =~= seq![field_val(seq![0x31u8, 0x30u8])])
            by {
            assert(seq![0x31u8].push(0x30) =~= seq![0x31u8, 0x30u8]);
            assert(seq![0x30u8].subrange(1, 1) =~= Seq::<u8>::empty());
        }
        assert(Seq::<u8>::empty().push(0x35) =~= seq![0x35u8]);
        assert(Seq::<u8>::empty().push(0x31) =~= seq![0x31u8]);
    }
    assert(csi_params(e7) =~= seq![5u32, 10u32]);
}

/// The save escape records exactly the cursor, the active charset
/// selector, and both glyph maps; nothing else moves.
pub proof fn lemma_save_records(m: ScreenModel)
    requires
        wf_model(m),
        m.mode == EntryMode::Normal,
    ensures
        ({
            let m2 = update_spec(m, seq![0x1bu8, 0x37u8]);
            &&& m2.saved == (ScreenState {
                cursor: m.cursor,
                charset: m.charset,
                g0: m.g0,
                g1: m.g1,
            })
            &&& m2.grid == m.grid
            &&& m2.cursor == m.cursor
            &&& m2.charset == m.charset
            &&& m2.g0 == m.g0
            &&& m2.g1 == m.g1
            &&& m2.mode == EntryMode::Normal
        }),
{
    reveal_with_fuel(run_spec, 4);
    let s = seq![0x1bu8, 0x37u8];
    assert(s[0] == 0x1b && s[1] == 0x37);
    let m1 = step_spec(m, 0x1b);
    assert(run_spec(m, s, 1) == m1);
    assert(run_spec(m, s, 2) == step_spec(m1, 0x37));
}

/// The restore escape applies exactly the saved snapshot to the cursor,
/// the charset selector, and both glyph maps; the grid is untouched.
pub proof fn lemma_restore_applies(m: ScreenModel)
    requires
        wf_model(m),
        m.mode == EntryMode::Normal,
    ensures
        ({
            let m2 = update_spec(m, seq![0x1bu8, 0x38u8]);
            &&& m2.cursor == m.saved.cursor
            &&& m2.charset == m.saved.charset
            &&& m2.g0 == m.saved.g0
            &&& m2.g1 == m.saved.g1
            &&& m2.grid == m.grid
            &&& m2.saved == m.saved
            &&& m2.mode == EntryMode::Normal
        }),
{
    reveal_with_fuel(run_spec, 4);
    let s = seq![0x1bu8, 0x38u8];
    assert(s[0] == 0x1b && s[1] == 0x38);
    let m1 = step_spec(m, 0x1b);
    assert(run_spec(m, s, 1) == m1);
    assert(run_spec(m, s, 2) == step_spec(m1, 0x38));
}

/// Saving, mutating cursor and charset state in any way that leaves the
/// saved snapshot alone, and restoring brings back the exact state from
/// the moment of the save.
pub proof fn lemma_save_then_restore(m: ScreenModel, mid: ScreenModel)
    requires
        wf_model(m),
        m.mode == EntryMode::Normal,
        wf_model(mid),
        mid.mode == EntryMode::Normal,
        mid.saved == update_spec(m, seq![0x1bu8, 0x37u8]).saved,
    ensures
        ({
            let m2 = update_spec(mid, seq![0x1bu8, 0x38u8]);
            &&& m2.cursor == m.cursor
            &&& m2.charset == m.charset
            &&& m2.g0 == m.g0
            &&& m2.g1 == m.g1
        }),
{
    lemma_save_records(m);
    lemma_restore_applies(mid);
}

/// The character rows held by a vector of row vectors.
pub open spec fn rows_view(g: Seq<Vec<char>>) -> Seq<Seq<char>> {
    Seq::new(g.len(), |i: int| g[i]@)
}

/// A fixed-size character grid fed by a raw byte stream.
pub struct ScreenBuffer {
    grid: Vec<Vec<char>>,
    cursor: Position,
    size: ScrSize,
    mode: EntryMode,
    esc: Vec<u8>,
    charset: CharMap,
    g0: CharMap,
    g1: CharMap,
    saved: ScreenState,
}

impl View for ScreenBuffer {
    type V = ScreenModel;

    closed spec fn view(&self) -> ScreenModel {
        ScreenModel {
            grid: rows_view(self.grid@),
            cursor: self.cursor,
            size: self.size,
            mode: self.mode,
            esc: self.esc@,
            charset: self.charset,
            g0: self.g0,
            g1: self.g1,
            saved: self.saved,
        }
    }
}

impl ScreenBuffer {
    /// Well-formedness of the underlying model; established by `new` and
    /// preserved by every method.
    pub open spec fn wf(&self) -> bool {
        wf_model(self@)
    }

    /// Allocates a NUL-filled grid with the cursor at the top-left
    /// corner.  The bounds keep every one-past-the-edge coordinate
    /// representable; no real terminal comes near them.
    pub fn new(width: usize, height: usize) -> (r: ScreenBuffer)
        requires
            1 <= width < usize::MAX,
            1 <= height < usize::MAX,
        ensures
            r@ == init_model(width, height),
            r.wf(),
    {
        let mut grid: Vec<Vec<char>> = Vec::new();
        let mut ri: usize = 0;
        while ri < height
            invariant
                ri <= height,
                grid@.len() == ri,
                forall|i: int| 0 <= i < ri ==> (#[trigger] grid@[i])@ =~= Seq::new(
                    width as nat,
                    |c: int| '\0',
                ),
            decreases height - ri,
        {
            let mut row: Vec<char> = Vec::new();
            let mut c: usize = 0;
            while c < width
                invariant
                    c <= width,
                    row@.len() == c,
                    forall|j: int| 0 <= j < c ==> row@[j] == '\0',
                decreases width - c,
            {
                row.push('\0');
                c = c + 1;
            }
            proof {
                assert(row@ =~= Seq::new(width as nat, |c: int| '\0'));
            }
            grid.push(row);
            ri = ri + 1;
        }
        let buf = ScreenBuffer {
            grid,
            cursor: Position { x: 0, y: 0 },
            size: ScrSize { width, height },
            mode: EntryMode::Normal,
            esc: Vec::new(),
            charset: CharMap::IsoStandard,
            g0: CharMap::IsoStandard,
            g1: CharMap::IsoStandard,
            saved: ScreenState {
                cursor: Position { x: 0, y: 0 },
                charset: CharMap::IsoStandard,
                g0: CharMap::IsoStandard,
                g1: CharMap::IsoStandard,
            },
        };
        proof {
            assert(buf@.grid =~~= init_model(width, height).grid);
            assert(buf@ == init_model(width, height));
        }
        buf
    }

    /// The grid dimensions as `(height, width)`.
    pub fn get_size(&self) -> (r: (usize, usize))
        ensures
            r.0 == self@.size.height,
            r.1 == self@.size.width,
    {
        (self.size.height, self.size.width)
    }

    /// The cursor, in zero-based coordinates.
    pub fn cursor_pos(&self) -> (r: Position)
        ensures
            r == self@.cursor,
    {
        self.cursor
    }

    /// Applies one glyph map to a character (see `map_char_spec`).
    fn map_char(map: CharMap, ch: char) -> (r: char)
        ensures
            r == map_char_spec(map, ch),
    {
        match map {
            CharMap::VtGraphics => {
                if ch == 'a' {
                    '\u{2592}'
                } else if ch == 'j' {
                    '\u{2518}'
                } else if ch == 'k' {
                    '\u{2510}'
                } else if ch == 'l' {
                    '\u{250c}'
                } else if ch == 'm' {
                    '\u{2514}'
                } else if ch == 'n' {
                    '\u{253c}'
                } else if ch == 'q' {
                    '\u{2500}'
                } else if ch == 't' {
                    '\u{251c}'
                } else if ch == 'u' {
                    '\u{2524}'
                } else if ch == 'v' {
                    '\u{2534}'
                } else if ch == 'w' {
                    '\u{252c}'
                } else if ch == 'x' {
                    '\u{2502}'
                } else if ch == '~' {
                    '\u{00b7}'
                } else {
                    ch
                }
            }
            _ => ch,
        }
    }

    /// Writes one character at the cursor and advances it (see
    /// `put_char_spec`).
    fn put_char(&mut self, ch: char)
        requires
            wf_model(old(self)@),
        ensures
            final(self)@ == put_char_spec(old(self)@, ch),
            wf_model(final(self)@),
    {
        let mc = Self::map_char(self.g0, ch);
        let x = self.cursor.x;
        let y = self.cursor.y;
        self.grid[y].set(x, mc);
        proof {
            assert(self@.grid =~~= old(self)@.grid.update(
                y as int,
                old(self)@.grid[y as int].update(x as int, mc),
            ));
        }
        if x + 1 >= self.size.width {
            if y + 1 >= self.size.height {
                self.cursor = Position { x: 0, y: 0 };
            } else {
                self.cursor = Position { x: 0, y: y + 1 };
            }
        } else {
            self.cursor = Position { x: x + 1, y };
        }
    }

    /// Line feed (see `lf_spec`).
    fn lf(&mut self)
        requires
            wf_model(old(self)@),
        ensures
            final(self)@ == lf_spec(old(self)@),
            wf_model(final(self)@),
    {
        let y = self.cursor.y;
        if y + 1 < self.size.height {
            self.cursor = Position { x: self.cursor.x, y: y + 1 };
        }
    }

    /// Carriage return (see `cr_spec`).
    fn cr(&mut self)
        requires
            wf_model(old(self)@),
        ensures
            final(self)@ == cr_spec(old(self)@),
            wf_model(final(self)@),
    {
        self.cursor = Position { x: 0, y: self.cursor.y };
    }

    /// Backspace (see `bs_spec`).
    fn bs(&mut self)
        requires
            wf_model(old(self)@),
        ensures
            final(self)@ == bs_spec(old(self)@),
            wf_model(final(self)@),
    {
        if self.cursor.x > 0 {
            let x = self.cursor.x - 1;
            let y = self.cursor.y;
            self.grid[y].set(x, ' ');
            self.cursor = Position { x, y };
            proof {
                assert(self@.grid =~~= old(self)@.grid.update(
                    y as int,
                    old(self)@.grid[y as int].update(x as int, ' '),
                ));
            }
        }
    }

    /// Cursor up by `n` (see `cursor_up_spec`).
    fn cursor_up(&mut self, n: u32)
        requires
            wf_model(old(self)@),
        ensures
            final(self)@ == cursor_up_spec(old(self)@, n),
            wf_model(final(self)@),
    {
        let y64 = self.cursor.y as u64;
        let n64 = n as u64;
        if y64 >= n64 {
            self.cursor = Position { x: self.cursor.x, y: (y64 - n64) as usize };
        } else {
            self.cursor = Position { x: self.cursor.x, y: 0 };
        }
    }

    /// Cursor down by `n` (see `cursor_down_spec`).
    fn cursor_down(&mut self, n: u32)
        requires
            wf_model(old(self)@),
        ensures
            final(self)@ == cursor_down_spec(old(self)@, n),
            wf_model(final(self)@),
    {
        let room = self.size.height - 1 - self.cursor.y;
        let n64 = n as u64;
        if n64 > room as u64 {
            self.cursor = Position { x: self.cursor.x, y: self.size.height - 1 };
        } else {
            self.cursor = Position { x: self.cursor.x, y: self.cursor.y + (n64 as usize) };
        }
    }

    /// Cursor forward by `n` (see `cursor_fwd_spec`).
    fn cursor_fwd(&mut self, n: u32)
        requires
            wf_model(old(self)@),
        ensures
            final(self)@ == cursor_fwd_spec(old(self)@, n),
            wf_model(final(self)@),
    {
        let room = self.size.width - 1 - self.cursor.x;
        let n64 = n as u64;
        if n64 > room as u64 {
            self.cursor = Position { x: self.size.width - 1, y: self.cursor.y };
        } else {
            self.cursor = Position { x: self.cursor.x + (n64 as usize), y: self.cursor.y };
        }
    }

    /// Cursor back by `n` (see `cursor_back_spec`).
    fn cursor_back(&mut self, n: u32)
        requires
            wf_model(old(self)@),
        ensures
            final(self)@ == cursor_back_spec(old(self)@, n),
            wf_model(final(self)@),
    {
        let x64 = self.cursor.x as u64;
        let n64 = n as u64;
        if x64 >= n64 {
            self.cursor = Position { x: (x64 - n64) as usize, y: self.cursor.y };
        } else {
            self.cursor = Position { x: 0, y: self.cursor.y };
        }
    }

    /// Sets the column from a one-based parameter (see `set_col_spec`).
    fn set_col(&mut self, n: u32)
        requires
            wf_model(old(self)@),
        ensures
            final(self)@ == set_col_spec(old(self)@, n),
            wf_model(final(self)@),
    {
        let t64: u64 = if n == 0 { 0 } else { (n - 1) as u64 };
        if t64 >= self.size.width as u64 {
            self.cursor = Position { x: self.size.width - 1, y: self.cursor.y };
        } else {
            self.cursor = Position { x: t64 as usize, y: self.cursor.y };
        }
    }

    /// Sets the row from a one-based parameter (see `set_row_spec`).
    fn set_row(&mut self, n: u32)
        requires
            wf_model(old(self)@),
        ensures
            final(self)@ == set_row_spec(old(self)@, n),
            wf_model(final(self)@),
    {
        let t64: u64 = if n == 0 { 0 } else { (n - 1) as u64 };
        if t64 >= self.size.height as u64 {
            self.cursor = Position { x: self.cursor.x, y: self.size.height - 1 };
        } else {
            self.cursor = Position { x: self.cursor.x, y: t64 as usize };
        }
    }

    /// Erase in display (see `erase_display_spec`).
    fn erase_display(&mut self, mode: u32)
        requires
            wf_model(old(self)@),
        ensures
            final(self)@ == erase_display_spec(old(self)@, mode),
            wf_model(final(self)@),
    {
        if mode > 3 {
            return ;
        }
        let h = self.size.height;
        let w = self.size.width;
        let cur = self.cursor;
        let mut r: usize = 0;
        while r < h
            invariant
                r <= h,
                mode <= 3,
                h == old(self)@.size.height,
                w == old(self)@.size.width,
                cur == old(self)@.cursor,
                wf_model(old(self)@),
                self.cursor == old(self)@.cursor,
                self.size == old(self)@.size,
                self.mode == old(self)@.mode,
                self@.esc == old(self)@.esc,
                self.charset == old(self)@.charset,
                self.g0 == old(self)@.g0,
                self.g1 == old(self)@.g1,
                self.saved == old(self)@.saved,
                self@.grid.len() == old(self)@.grid.len(),
                forall|rr: int| 0 <= rr < self@.grid.len() ==> (#[trigger] self@.grid[rr]).len()
                    == old(self)@.grid[rr].len(),
                forall|rr: int, cc: int|
                    0 <= rr < r && 0 <= cc < old(self)@.grid[rr].len() ==> #[trigger] self@.grid[rr][cc]
                        == (if display_erased(mode, cur, rr, cc) {
                        '\0'
                    } else {
                        old(self)@.grid[rr][cc]
                    }),
                forall|rr: int|
                    r <= rr < self@.grid.len() ==> #[trigger] self@.grid[rr] == old(self)@.grid[rr],
            decreases h - r,
        {
            let mut c: usize = 0;
            while c < w
                invariant
                    r < h,
                    c <= w,
                    mode <= 3,
                    h == old(self)@.size.height,
                    w == old(self)@.size.width,
                    cur == old(self)@.cursor,
                    wf_model(old(self)@),
                    self.cursor == old(self)@.cursor,
                    self.size == old(self)@.size,
                    self.mode == old(self)@.mode,
                    self@.esc == old(self)@.esc,
                    self.charset == old(self)@.charset,
                    self.g0 == old(self)@.g0,
                    self.g1 == old(self)@.g1,
                    self.saved == old(self)@.saved,
                    self@.grid.len() == old(self)@.grid.len(),
                    forall|rr: int| 0 <= rr < self@.grid.len() ==> (#[trigger] self@.grid[rr]).len()
                        == old(self)@.grid[rr].len(),
                    forall|rr: int, cc: int|
                        0 <= rr < r && 0 <= cc < old(self)@.grid[rr].len() ==> #[trigger] self@.grid[rr][cc]
                            == (if display_erased(mode, cur, rr, cc) {
                            '\0'
                        } else {
                            old(self)@.grid[rr][cc]
                        }),
                    forall|cc: int|
                        0 <= cc < c ==> #[trigger] self@.grid[r as int][cc] == (if display_erased(
                            mode,
                            cur,
                            r as int,
                            cc,
                        ) {
                            '\0'
                        } else {
                            old(self)@.grid[r as int][cc]
                        }),
                    forall|cc: int|
                        c <= cc < old(self)@.grid[r as int].len() ==> #[trigger] self@.grid[r as int][cc]
                            == old(self)@.grid[r as int][cc],
                    forall|rr: int|
                        r < rr < self@.grid.len() ==> #[trigger] self@.grid[rr] == old(self)@.grid[rr],
                decreases w - c,
            {
                let erase: bool = if mode == 0 {
                    r > cur.y || (r == cur.y && c >= cur.x)
                } else if mode == 1 {
                    r < cur.y || (r == cur.y && c <= cur.x)
                } else {
                    true
                };
                if erase {
                    let ghost pre = self@;
                    proof {
                        assert(old(self)@.grid[r as int].len() == w);
                        assert(self@.grid[r as int].len() == w);
                        assert(self.grid@[r as int]@ == self@.grid[r as int]);
                    }
                    self.grid[r].set(c, '\0');
                    proof {
                        assert(self@.grid =~~= pre.grid.update(
                            r as int,
                            pre.grid[r as int].update(c as int, '\0'),
                        ));
                    }
                }
                c = c + 1;
            }
            r = r + 1;
        }
        if mode >= 2 {
            self.cursor = Position { x: 0, y: 0 };
        }
        proof {
            assert(self@.grid =~~= erase_display_spec(old(self)@, mode).grid);
            assert(self@ == erase_display_spec(old(self)@, mode));
        }
    }

    /// Erase in line (see `erase_inline_spec`).
    fn erase_inline(&mut self, mode: u32)
        requires
            wf_model(old(self)@),
        ensures
            final(self)@ == erase_inline_spec(old(self)@, mode),
            wf_model(final(self)@),
    {
        if mode > 2 {
            return ;
        }
        let w = self.size.width;
        let y = self.cursor.y;
        let cur = self.cursor;
        let mut c: usize = 0;
        while c < w
            invariant
                c <= w,
                mode <= 2,
                w == old(self)@.size.width,
                y == old(self)@.cursor.y,
                cur == old(self)@.cursor,
                wf_model(old(self)@),
                self.cursor == old(self)@.cursor,
                self.size == old(self)@.size,
                self.mode == old(self)@.mode,
                self@.esc == old(self)@.esc,
                self.charset == old(self)@.charset,
                self.g0 == old(self)@.g0,
                self.g1 == old(self)@.g1,
                self.saved == old(self)@.saved,
                self@.grid.len() == old(self)@.grid.len(),
                forall|rr: int|
                    0 <= rr < self@.grid.len() && rr != y ==> #[trigger] self@.grid[rr] == old(
                        self,
                    )@.grid[rr],
                self@.grid[y as int].len() == old(self)@.grid[y as int].len(),
                forall|cc: int|
                    0 <= cc < c ==> #[trigger] self@.grid[y as int][cc] == (if line_erased(
                        mode,
                        cur,
                        cc,
                    ) {
                        '\0'
                    } else {
                        old(self)@.grid[y as int][cc]
                    }),
                forall|cc: int|
                    c <= cc < old(self)@.grid[y as int].len() ==> #[trigger] self@.grid[y as int][cc]
                        == old(self)@.grid[y as int][cc],
            decreases w - c,
        {
            let erase: bool = if mode == 0 {
                c >= cur.x
            } else if mode == 1 {
                c <= cur.x
            } else {
                true
            };
            if erase {
                let ghost pre = self@;
                proof {
                    assert(old(self)@.grid[y as int].len() == w);
                    assert(self@.grid[y as int].len() == w);
                    assert(self.grid@[y as int]@ == self@.grid[y as int]);
                }
                self.grid[y].set(c, '\0');
                proof {
                    assert(self@.grid =~~= pre.grid.update(
                        y as int,
                        pre.grid[y as int].update(c as int, '\0'),
                    ));
                }
            }
            c = c + 1;
        }
        proof {
            assert(self@.grid =~~= erase_inline_spec(old(self)@, mode).grid);
            assert(self@ == erase_inline_spec(old(self)@, mode));
        }
    }

    /// Erase characters: `n` spaces through the ordinary write path (see
    /// `erase_chars_spec`).
    fn erase_chars(&mut self, n: u32)
        requires
            wf_model(old(self)@),
        ensures
            final(self)@ == erase_chars_spec(old(self)@, n as nat),
            wf_model(final(self)@),
    {
        let mut i: u32 = 0;
        while i < n
            invariant
                i <= n,
                self@ == erase_chars_spec(old(self)@, i as nat),
                wf_model(self@),
            decreases n - i,
        {
            self.put_char(' ');
            i = i + 1;
        }
    }

    /// Parses one parameter field (see `field_val`).
    fn field_val_exec(f: &Vec<u8>) -> (r: u32)
        ensures
            r == field_val(f@),
    {
        if f.len() == 0 {
            return 1;
        }
        let mut acc: u64 = 0;
        let mut i: usize = 0;
        proof {
            assert(f@.subrange(0, 0) =~= Seq::<u8>::empty());
        }
        while i < f.len()
            invariant
                i <= f@.len(),
                f@.len() > 0,
                forall|j: int| 0 <= j < i ==> is_digit_byte(#[trigger] f@[j]),
                acc <= 0x1_0000_0000,
                digits_val_bytes(f@.subrange(0, i as int)) <= u32::MAX ==> acc == digits_val_bytes(
                    f@.subrange(0, i as int),
                ),
                digits_val_bytes(f@.subrange(0, i as int)) > u32::MAX ==> acc == 0x1_0000_0000,
            decreases f@.len() - i,
        {
            let b = f[i];
            if b < 0x30 || b > 0x39 {
                return 1;
            }
            let d = (b - 0x30) as u64;
            proof {
                assert(f@.subrange(0, i + 1).drop_last() =~= f@.subrange(0, i as int));
                assert(f@.subrange(0, i + 1).last() == f@[i as int]);
            }
            let acc2 = acc * 10 + d;
            acc = if acc2 > 0xffff_ffff { 0x1_0000_0000 } else { acc2 };
            i = i + 1;
        }
        proof {
            assert(f@.subrange(0, f@.len() as int) =~= f@);
        }
        if acc > 0xffff_ffff {
            1
        } else {
            acc as u32
        }
    }

    /// Splits the parameter bytes of a pending control sequence into field
    /// values (see `csi_params`).
    fn parse_params(esc: &Vec<u8>) -> (ps: Vec<u32>)
        requires
            esc@.len() >= 3,
        ensures
            ps@ == csi_params(esc@),
    {
        let ghost s: Seq<u8> = esc@.subrange(2, esc@.len() - 1);
        let n = esc.len() - 1;
        let mut out: Vec<u32> = Vec::new();
        let mut cur: Vec<u8> = Vec::new();
        let mut i: usize = 2;
        proof {
            assert(s.subrange(0, s.len() as int) =~= s);
        }
        while i < n
            invariant
                2 <= i <= n,
                n == esc@.len() - 1,
                esc@.len() >= 3,
                s == esc@.subrange(2, esc@.len() - 1),
                fields_rec(s, Seq::empty()) =~= out@ + fields_rec(
                    s.subrange(i - 2, s.len() as int),
                    cur@,
                ),
            decreases n - i,
        {
            let b = esc[i];
            proof {
                assert(s.subrange(i - 2, s.len() as int)[0] == s[i - 2]);
                assert(s[i - 2] == esc@[i as int]);
                assert(s.subrange(i - 2, s.len() as int).subrange(
                    1,
                    s.subrange(i - 2, s.len() as int).len() as int,
                ) =~= s.subrange(i - 1, s.len() as int));
            }
            if b == 0x3b {
                let fv = Self::field_val_exec(&cur);
                out.push(fv);
                cur = Vec::new();
                proof {
                    assert(fields_rec(s, Seq::empty()) =~= out@ + fields_rec(
                        s.subrange(i + 1 - 2, s.len() as int),
                        cur@,
                    ));
                }
            } else {
                cur.push(b);
                proof {
                    assert(fields_rec(s, Seq::empty()) =~= out@ + fields_rec(
                        s.subrange(i + 1 - 2, s.len() as int),
                        cur@,
                    ));
                }
            }
            i = i + 1;
        }
        proof {
            assert(s.subrange(n - 2, s.len() as int) =~= Seq::<u8>::empty());
        }
        let fv = Self::field_val_exec(&cur);
        out.push(fv);
        proof {
            assert(out@ =~= fields_rec(s, Seq::empty()));
        }
        if out.len() == 1 {
            out.push(1);
        }
        proof {
            assert(out@ =~= csi_params(esc@));
        }
        out
    }

    /// Aborts any pending escape and returns to plain decoding.
    fn abort_esc(&mut self)
        ensures
            final(self)@ == clear_esc_spec(old(self)@),
    {
        self.esc.clear();
        self.mode = EntryMode::Normal;
        proof {
            assert(self@.esc =~= Seq::<u8>::empty());
        }
    }

    /// Dispatches a complete simple escape (see `simple_apply_spec`), then
    /// clears the pending buffer.
    fn finish_simple(&mut self)
        requires
            wf_model(old(self)@),
            old(self)@.esc.len() >= 2,
        ensures
            final(self)@ == clear_esc_spec(simple_apply_spec(old(self)@)),
            wf_model(final(self)@),
    {
        let cmd = self.esc[1];
        let arg: u8 = if self.esc.len() >= 3 { self.esc[2] } else { 0 };
        if cmd == 0x37 {
            self.saved = ScreenState {
                cursor: self.cursor,
                charset: self.charset,
                g0: self.g0,
                g1: self.g1,
            };
        } else if cmd == 0x38 {
            self.cursor = self.saved.cursor;
            self.charset = self.saved.charset;
            self.g0 = self.saved.g0;
            self.g1 = self.saved.g1;
        } else if cmd == 0x25 {
            if arg == 0x40 {
                self.charset = CharMap::IsoStandard;
            } else if arg == 0x47 || arg == 0x38 {
                self.charset = CharMap::Utf8;
            }
        } else if cmd == 0x28 {
            self.g0 = Self::charmap_sel_exec(arg, self.g0);
        } else if cmd == 0x29 {
            self.g1 = Self::charmap_sel_exec(arg, self.g1);
        }
        self.esc.clear();
        self.mode = EntryMode::Normal;
        proof {
            assert(self@.esc =~= Seq::<u8>::empty());
        }
    }

    /// Charset selection from a designator byte (see `charmap_sel`).
    fn charmap_sel_exec(arg: u8, cur: CharMap) -> (r: CharMap)
        ensures
            r == charmap_sel(arg, cur),
    {
        if arg == 0x42 {
            CharMap::IsoStandard
        } else if arg == 0x30 {
            CharMap::VtGraphics
        } else if arg == 0x55 {
            CharMap::Null
        } else if arg == 0x4b {
            CharMap::User
        } else {
            cur
        }
    }

    /// Dispatches a complete control sequence (see `csi_apply_spec`), then
    /// clears the pending buffer.
    fn finish_csi(&mut self)
        requires
            wf_model(old(self)@),
            old(self)@.esc.len() >= 3,
        ensures
            final(self)@ == clear_esc_spec(csi_apply_spec(old(self)@)),
            wf_model(final(self)@),
    {
        let ps = Self::parse_params(&self.esc);
        let fin = self.esc[self.esc.len() - 1];
        let n0 = ps[0];
        let n1 = ps[1];
        proof {
            assert(csi_params(old(self)@.esc).len() >= 2);
        }
        self.esc.clear();
        self.mode = EntryMode::Normal;
        proof {
            assert(self@.esc =~= Seq::<u8>::empty());
        }
        if fin == 0x41 {
            self.cursor_up(n0);
        } else if fin == 0x42 {
            self.cursor_down(n0);
        } else if fin == 0x43 {
            self.cursor_fwd(n0);
        } else if fin == 0x44 {
            self.cursor_back(n0);
        } else if fin == 0x45 {
            self.cursor_down(n0);
            self.cr();
        } else if fin == 0x46 {
            self.cursor_up(n0);
            self.cr();
        } else if fin == 0x47 {
            self.set_col(n0);
        } else if fin == 0x64 {
            self.set_row(n0);
        } else if fin == 0x48 || fin == 0x66 {
            self.set_row(n0);
            self.set_col(n1);
        } else if fin == 0x4a {
            self.erase_display(n0);
        } else if fin == 0x4b {
            self.erase_inline(n0);
        } else if fin == 0x58 {
            proof {
                lemma_erase_chars_frame(old(self)@, n0 as nat);
            }
            self.erase_chars(n0);
        }
    }

    /// Feeds one byte to the decoder (see `step_spec`).
    fn step_byte(&mut self, b: u8)
        requires
            wf_model(old(self)@),
        ensures
            final(self)@ == step_spec(old(self)@, b),
            wf_model(final(self)@),
    {
        let mode = self.mode;
        match mode {
            EntryMode::Escape(t) => {
                if b == 0x18 || b == 0x1a {
                    self.abort_esc();
                } else if self.esc.len() >= ESC_MAX {
                    self.abort_esc();
                } else {
                    self.esc.push(b);
                    match t {
                        EscType::Simple => {
                            if b == 0x5b {
                                self.mode = EntryMode::Escape(EscType::Csi(CsiState::Parameters));
                            } else if b == 0x5d {
                                self.mode = EntryMode::Escape(EscType::Osc);
                            } else if 0x30 <= b && b <= 0x7e {
                                self.finish_simple();
                            }
                        }
                        EscType::Csi(CsiState::Parameters) => {
                            if 0x30 <= b && b <= 0x3f {
                            } else if 0x20 <= b && b <= 0x2f {
                                self.mode = EntryMode::Escape(
                                    EscType::Csi(CsiState::Intermediates),
                                );
                            } else if 0x40 <= b && b <= 0x7e {
                                self.finish_csi();
                            }
                        }
                        EscType::Csi(CsiState::Intermediates) => {
                            if 0x20 <= b && b <= 0x2f {
                            } else if 0x40 <= b && b <= 0x7e {
                                self.finish_csi();
                            }
                        }
                        EscType::Osc => {
                            if b == 0x1b {
                                self.mode = EntryMode::Escape(EscType::EsqOsc);
                            }
                        }
                        EscType::EsqOsc => {
                            if b == 0x5c {
                                self.esc.clear();
                                self.mode = EntryMode::Normal;
                                proof {
                                    assert(self@.esc =~= Seq::<u8>::empty());
                                }
                            }
                        }
                    }
                }
            }
            _ => {
                if b == 0x0a {
                    self.lf();
                } else if b == 0x0d {
                    self.cr();
                } else if b == 0x08 {
                    self.bs();
                } else if b == 0x1b {
                    self.esc.clear();
                    self.esc.push(0x1b);
                    self.mode = EntryMode::Escape(EscType::Simple);
                    proof {
                        assert(self@.esc =~= seq![0x1bu8]);
                    }
                } else {
                    self.put_char(b as char);
                }
            }
        }
    }

    /// Processes a byte sequence in order, with no suspension: the buffer
    /// ends in exactly the state the transition function assigns to it.
    pub fn update(&mut self, bytes: &[u8])
        requires
            old(self).wf(),
        ensures
            final(self).wf(),
            final(self)@ == update_spec(old(self)@, bytes@),
    {
        let n = bytes.len();
        let mut i: usize = 0;
        while i < n
            invariant
                i <= n,
                n == bytes@.len(),
                wf_model(self@),
                self@ == run_spec(old(self)@, bytes@, i as int),
            decreases n - i,
        {
            let b = bytes[i];
            self.step_byte(b);
            i = i + 1;
        }
    }

    /// Reads the cell at zero-based coordinates.
    pub fn cell(&self, r: usize, c: usize) -> (ch: char)
        requires
            self.wf(),
            r < self@.size.height,
            c < self@.size.width,
        ensures
            ch == self@.grid[r as int][c as int],
    {
        proof {
            assert(self.grid@[r as int]@ == self@.grid[r as int]);
        }
        self.grid[r][c]
    }
}

} // verus!
