//! The per-game record: the extracted windows, the inventory data model,
//! and the persistent status record, refreshed from a screen buffer.

use vstd::prelude::*;

use crate::lines::lines_spec;
use crate::screen::ScreenBuffer;
use crate::status::{NHModel, NHStats, read_statusline_spec};
use crate::window::{ExtractError, SubWindow, WinView, extract_spec, win_views};

verus! {

/// The inventory classes the game groups items under.
#[derive(Clone, Copy, Debug, PartialEq, Eq, Structural)]
pub enum ItemClass {
    Weapons,
    Armour,
    Comestibles,
    Wands,
    Rings,
    Potions,
    Scrolls,
    Spellbooks,
    Tools,
    GemsnStones,
}

/// Beatitude of an item.
#[derive(Clone, Copy, Debug, PartialEq, Eq, Structural)]
pub enum Buc {
    Blessed,
    Uncursed,
    Cursed,
}

/// The way an item erodes.
#[derive(Clone, Copy, Debug, PartialEq, Eq, Structural)]
pub enum WearType {
    Corroded,
    Rusty,
    Burnt,
    Rotted,
}

/// How far erosion has gone.
#[derive(Clone, Copy, Debug, PartialEq, Eq, Structural)]
pub enum WearExtent {
    Untouched,
    Somewhat,
    Very,
    Thoroughly,
}

/// An item's erosion state.
#[derive(Clone, Copy, Debug, PartialEq, Eq, Structural)]
pub struct Wear {
    pub e_type: WearType,
    pub e_extent: WearExtent,
}

/// One inventory slot.
#[derive(Clone, Debug)]
pub struct NHInvItem {
    pub item: ItemClass,
    pub inventory_letter: char,
    pub beatitude: Option<Buc>,
    pub erosion: Wear,
    pub charges: Option<u32>,
    pub enchantment: Option<u32>,
    pub fooproofed: bool,
    pub greased: bool,
    pub description: String,
    pub name: String,
}

/// Everything the game knows from the most recent screen: the extracted
/// windows, the inventory, and the status record.
pub struct NetHackData {
    pub windows: Vec<SubWindow>,
    pub inventory: Vec<NHInvItem>,
    pub status: NHStats,
}

/// The status record after walking the window list from index `i` on:
/// every window of height two is parsed as a status line, in order.
pub open spec fn status_after(m: NHModel, wins: Seq<WinView>, i: int) -> NHModel
    decreases wins.len() - i,
{
    if i < 0 || i >= wins.len() {
        m
    } else {
        status_after(
            if wins[i].size.height == 2 {
                read_statusline_spec(m, lines_spec(wins[i].rows))
            } else {
                m
            },
            wins,
            i + 1,
        )
    }
}

/// The views of a sequence of strings.
pub open spec fn str_views(s: Seq<String>) -> Seq<Seq<char>> {
    Seq::new(s.len(), |i: int| s[i]@)
}

/// The decimal digit character for `d`.
pub open spec fn digit_char(d: int) -> char {
    if d == 0 {
        '0'
    } else if d == 1 {
        '1'
    } else if d == 2 {
        '2'
    } else if d == 3 {
        '3'
    } else if d == 4 {
        '4'
    } else if d == 5 {
        '5'
    } else if d == 6 {
        '6'
    } else if d == 7 {
        '7'
    } else if d == 8 {
        '8'
    } else {
        '9'
    }
}

/// The decimal spelling of a non-negative number.
pub open spec fn dec_str(n: int) -> Seq<char>
    decreases n,
{
    if n < 10 {
        seq![digit_char(n)]
    } else {
        dec_str(n / 10).push(digit_char(n % 10))
    }
}

/// The description `debug` writes for the window list from index `i` on:
/// a heading with the one-based window number, followed by the window's
/// text lines.
pub open spec fn debug_rec(wins: Seq<WinView>, i: int) -> Seq<Seq<char>>
    decreases wins.len() - i,
{
    if i < 0 || i >= wins.len() {
        Seq::empty()
    } else {
        seq![debug_heading(i + 1)] + lines_spec(wins[i].rows) + debug_rec(wins, i + 1)
    }
}

/// The heading line for the `n`th window.
pub open spec fn debug_heading(n: int) -> Seq<char> {
    "this is the "@ + dec_str(n) + "th window"@
}

/// The decimal spelling of a number, as characters.
fn dec_chars(n: usize) -> (r: Vec<char>)
    ensures
        r@ == dec_str(n as int),
    decreases n,
{
    let d = n % 10;
    let dc: char = if d == 0 {
        '0'
    } else if d == 1 {
        '1'
    } else if d == 2 {
        '2'
    } else if d == 3 {
        '3'
    } else if d == 4 {
        '4'
    } else if d == 5 {
        '5'
    } else if d == 6 {
        '6'
    } else if d == 7 {
        '7'
    } else if d == 8 {
        '8'
    } else {
        '9'
    };
    if n < 10 {
        let mut r: Vec<char> = Vec::new();
        r.push(dc);
        proof {
            assert(r@ =~= seq![digit_char(n as int)]);
        }
        r
    } else {
        let mut r = dec_chars(n / 10);
        r.push(dc);
        r
    }
}

impl NetHackData {
    /// Whether every extracted window is well formed; every method keeps
    /// it so.
    pub open spec fn wf(&self) -> bool {
        forall|i: int| 0 <= i < self.windows@.len() ==> (#[trigger] self.windows@[i]).wf()
    }

    /// An empty record with default status values.
    pub fn new() -> (r: NetHackData)
        ensures
            r.windows@.len() == 0,
            r.inventory@.len() == 0,
            r.status@ == crate::status::init_stats(),
            r.wf(),
    {
        NetHackData { windows: Vec::new(), inventory: Vec::new(), status: NHStats::new() }
    }

    /// Replaces the window list with a fresh extraction from the screen
    /// and parses every two-row window into the status record, in order.
    /// The inventory is untouched.
    pub fn update(&mut self, term: &ScreenBuffer) -> (res: Result<(), ExtractError>)
        requires
            term.wf(),
        ensures
            res is Ok,
            win_views(final(self).windows@) == extract_spec(
                term@.grid,
                term@.size.width as int,
            ),
            final(self).status@ == status_after(
                old(self).status@,
                extract_spec(term@.grid, term@.size.width as int),
                0,
            ),
            final(self).inventory == old(self).inventory,
            final(self).wf(),
    {
        let ws = match term.get_subwindows() {
            Ok(w) => w,
            Err(e) => {
                proof {
                    assert(false);
                }
                return Err(e);
            },
        };
        let ghost wv = win_views(ws@);
        let mut i: usize = 0;
        while i < ws.len()
            invariant
                wv == win_views(ws@),
                forall|k: int| 0 <= k < ws@.len() ==> (#[trigger] ws@[k]).wf(),
                i <= ws@.len(),
                status_after(old(self).status@, wv, 0) == status_after(
                    self.status@,
                    wv,
                    i as int,
                ),
                self.inventory == old(self).inventory,
            decreases ws@.len() - i,
        {
            let (height, _width) = ws[i].get_size();
            if height == 2 {
                let res = self.status.read_statusline(&ws[i]);
                proof {
                    assert(res is Ok);
                }
            }
            i = i + 1;
        }
        self.windows = ws;
        Ok(())
    }

    /// Describes every window: a heading with its one-based number, and
    /// its text lines (see `debug_rec`).
    pub fn debug(&self) -> (r: Vec<String>)
        requires
            self.wf(),
        ensures
            str_views(r@) == debug_rec(win_views(self.windows@), 0),
    {
        let ghost wv = win_views(self.windows@);
        let mut out: Vec<String> = Vec::new();
        let mut i: usize = 0;
        proof {
            assert(str_views(out@) =~= Seq::<Seq<char>>::empty());
        }
        while i < self.windows.len()
            invariant
                self.wf(),
                wv == win_views(self.windows@),
                i <= self.windows@.len(),
                debug_rec(wv, 0) =~= str_views(out@) + debug_rec(wv, i as int),
            decreases self.windows@.len() - i,
        {
            let ghost pre = out@;
            let num = dec_chars(i + 1);
            let numstr = crate::lines::chars_to_string(&num);
            let mut heading = String::from_str("this is the ");
            heading.append(numstr.as_str());
            heading.append("th window");
            proof {
                assert(heading@ == debug_heading(i + 1));
            }
            out.push(heading);
            let lines = match self.windows[i].get_lines() {
                Ok(ls) => ls,
                Err(e) => {
                    proof {
                        assert(false);
                    }
                    Vec::new()
                },
            };
            let mut j: usize = 0;
            proof {
                assert(str_views(out@) =~= str_views(pre) + seq![debug_heading(i + 1)]);
            }
            while j < lines.len()
                invariant
                    self.wf(),
                    wv == win_views(self.windows@),
                    i < self.windows@.len(),
                    j <= lines@.len(),
                    lines@.len() == lines_spec(wv[i as int].rows).len(),
                    forall|k: int| 0 <= k < lines@.len() ==> (#[trigger] lines@[k])@ == lines_spec(
                        wv[i as int].rows,
                    )[k],
                    str_views(out@) =~= str_views(pre) + seq![debug_heading(i + 1)] + lines_spec(
                        wv[i as int].rows,
                    ).subrange(0, j as int),
                decreases lines@.len() - j,
            {
                let ghost mid = out@;
                let line = lines[j].clone();
                out.push(line);
                proof {
                    assert(str_views(out@) =~= str_views(mid).push(lines@[j as int]@));
                    assert(lines_spec(wv[i as int].rows).subrange(0, j + 1) =~= lines_spec(
                        wv[i as int].rows,
                    ).subrange(0, j as int).push(lines@[j as int]@));
                }
                j = j + 1;
            }
            proof {
                assert(lines_spec(wv[i as int].rows).subrange(
                    0,
                    lines_spec(wv[i as int].rows).len() as int,
                ) =~= lines_spec(wv[i as int].rows));
                assert(str_views(out@) =~= str_views(pre) + (seq![debug_heading(i + 1)]
                    + lines_spec(wv[i as int].rows)));
                assert(debug_rec(wv, 0) =~= str_views(out@) + debug_rec(wv, i + 1));
            }
            i = i + 1;
        }
        proof {
            assert(str_views(out@) =~= debug_rec(wv, 0));
        }
        out
    }
}

} // verus!
