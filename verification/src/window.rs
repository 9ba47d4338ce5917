//! Window extraction: finding box-drawn rectangles in a character grid.
//!
//! The remote application frames its panels with the border glyphs
//! `┌ ┐ └ ┘ ─ │`.  A candidate is any `┌` cell; its perimeter is followed
//! clockwise and, when it closes, the interior is copied into an owned
//! `SubWindow`.  The top-left region above and left of every candidate is
//! returned as one extra, unbordered window when it is non-empty.

use vstd::prelude::*;

use crate::screen::{Position, ScrSize, ScreenBuffer};

verus! {

/// Border glyphs.
pub open spec fn tl_corner() -> char {
    '\u{250c}'
}

pub open spec fn tr_corner() -> char {
    '\u{2510}'
}

pub open spec fn bl_corner() -> char {
    '\u{2514}'
}

pub open spec fn br_corner() -> char {
    '\u{2518}'
}

pub open spec fn horiz_bar() -> char {
    '\u{2500}'
}

pub open spec fn vert_bar() -> char {
    '\u{2502}'
}

/// Extraction failures.  All of them are recoverable at the level of one
/// candidate: the scan skips the candidate and goes on.
#[derive(Clone, Copy, Debug, PartialEq, Eq, Structural)]
pub enum ExtractError {
    /// The walk was started on a cell that is no top-left corner.
    InvalidBoxOrigin(usize, usize),
    /// A perimeter cell did not hold the expected border glyph.
    BrokenBorder,
    /// A read at these one-based coordinates lies outside the grid.
    OutOfBounds(usize, usize),
}

/// Anything that can report its size and hand out cells: the full screen
/// grid and an extracted sub-grid both do.
pub trait CharSource {
    /// The character rows of this source.
    spec fn cells(&self) -> Seq<Seq<char>>;

    /// The common length of all rows.
    spec fn src_width(&self) -> int;

    /// The source's own well-formedness.
    spec fn src_wf(&self) -> bool;

    /// A well-formed source is a rectangle of machine-addressable size,
    /// small enough that one-past-the-edge coordinates stay representable.
    proof fn lemma_src_wf(&self)
        requires
            self.src_wf(),
        ensures
            0 <= self.src_width() < usize::MAX,
            self.cells().len() < usize::MAX,
            forall|r: int|
                0 <= r < self.cells().len() ==> (#[trigger] self.cells()[r]).len()
                    == self.src_width(),
    ;

    /// The dimensions as `(height, width)`.
    fn size(&self) -> (r: (usize, usize))
        requires
            self.src_wf(),
        ensures
            r.0 == self.cells().len(),
            r.1 == self.src_width(),
    ;

    /// Bounds-checked, one-indexed cell read.
    fn char_at(&self, row: usize, col: usize) -> (res: Result<char, ExtractError>)
        requires
            self.src_wf(),
        ensures
            match res {
                Ok(ch) => 1 <= row <= self.cells().len() && 1 <= col <= self.src_width() && ch
                    == self.cells()[row - 1][col - 1],
                Err(e) => e == ExtractError::OutOfBounds(row, col) && !(1 <= row
                    <= self.cells().len() && 1 <= col <= self.src_width()),
            },
    ;
}

impl CharSource for ScreenBuffer {
    open spec fn cells(&self) -> Seq<Seq<char>> {
        self@.grid
    }

    open spec fn src_width(&self) -> int {
        self@.size.width as int
    }

    open spec fn src_wf(&self) -> bool {
        self.wf()
    }

    proof fn lemma_src_wf(&self) {
    }

    fn size(&self) -> (r: (usize, usize)) {
        self.get_size()
    }

    fn char_at(&self, row: usize, col: usize) -> (res: Result<char, ExtractError>) {
        let (h, w) = self.get_size();
        if 1 <= row && row <= h && 1 <= col && col <= w {
            Ok(self.cell(row - 1, col - 1))
        } else {
            Err(ExtractError::OutOfBounds(row, col))
        }
    }
}

/// The mathematical value of a sub-window: where it sits, how large it is,
/// and the characters it holds.
pub ghost struct WinView {
    pub origin: Position,
    pub size: ScrSize,
    pub rows: Seq<Seq<char>>,
}

/// An owned rectangular region copied out of a grid.  Created by
/// extraction and never mutated afterwards.
pub struct SubWindow {
    origin: Position,
    size: ScrSize,
    grid: Vec<Vec<char>>,
}

impl View for SubWindow {
    type V = WinView;

    closed spec fn view(&self) -> WinView {
        WinView {
            origin: self.origin,
            size: self.size,
            rows: Seq::new(self.grid@.len(), |i: int| self.grid@[i]@),
        }
    }
}

/// Well-formedness of a window view: the rows fill the declared size,
/// which stays below the addressing limit.
pub open spec fn win_wf(w: WinView) -> bool {
    &&& w.rows.len() == w.size.height
    &&& w.size.width < usize::MAX
    &&& w.size.height < usize::MAX
    &&& forall|r: int| 0 <= r < w.rows.len() ==> (#[trigger] w.rows[r]).len() == w.size.width
}

impl SubWindow {
    /// Well-formedness; every extracted window satisfies it.
    pub open spec fn wf(&self) -> bool {
        win_wf(self@)
    }

    /// The window's top-left cell in the source grid, zero-based.
    pub fn get_origin(&self) -> (r: Position)
        ensures
            r == self@.origin,
    {
        self.origin
    }

    /// The window dimensions as `(height, width)`.
    pub fn get_size(&self) -> (r: (usize, usize))
        ensures
            r.0 == self@.size.height,
            r.1 == self@.size.width,
    {
        (self.size.height, self.size.width)
    }
}

impl CharSource for SubWindow {
    open spec fn cells(&self) -> Seq<Seq<char>> {
        self@.rows
    }

    open spec fn src_width(&self) -> int {
        self@.size.width as int
    }

    open spec fn src_wf(&self) -> bool {
        self.wf()
    }

    proof fn lemma_src_wf(&self) {
    }

    fn size(&self) -> (r: (usize, usize)) {
        (self.size.height, self.size.width)
    }

    fn char_at(&self, row: usize, col: usize) -> (res: Result<char, ExtractError>) {
        if 1 <= row && row <= self.size.height && 1 <= col && col <= self.size.width {
            proof {
                assert(self.grid@[row - 1]@ == self@.rows[row - 1]);
            }
            Ok(self.grid[row - 1][col - 1])
        } else {
            Err(ExtractError::OutOfBounds(row, col))
        }
    }
}

/// A closed box border with top-left corner `(r, c)` and an interior of
/// `bh` rows and `bw` columns, entirely inside a grid of width `gw`.
pub open spec fn valid_box(g: Seq<Seq<char>>, gw: int, r: int, c: int, bh: int, bw: int) -> bool {
    &&& 0 <= r
    &&& 0 <= c
    &&& 0 <= bh
    &&& 0 <= bw
    &&& r + bh + 1 < g.len()
    &&& c + bw + 1 < gw
    &&& g[r][c] == tl_corner()
    &&& g[r][c + bw + 1] == tr_corner()
    &&& g[r + bh + 1][c] == bl_corner()
    &&& g[r + bh + 1][c + bw + 1] == br_corner()
    &&& forall|j: int| c + 1 <= j <= c + bw ==> #[trigger] g[r][j] == horiz_bar()
    &&& forall|j: int| c + 1 <= j <= c + bw ==> #[trigger] g[r + bh + 1][j] == horiz_bar()
    &&& forall|i: int| r + 1 <= i <= r + bh ==> #[trigger] g[i][c] == vert_bar()
    &&& forall|i: int| r + 1 <= i <= r + bh ==> #[trigger] g[i][c + bw + 1] == vert_bar()
}

/// Whether some closed box starts at `(r, c)`.
pub open spec fn box_ok(g: Seq<Seq<char>>, gw: int, r: int, c: int) -> bool {
    exists|d: (int, int)| valid_box(g, gw, r, c, d.0, d.1)
}

/// The dimensions of the box starting at `(r, c)`; meaningful only under
/// `box_ok`, where they are unique.
pub open spec fn box_dims(g: Seq<Seq<char>>, gw: int, r: int, c: int) -> (int, int) {
    choose|d: (int, int)| valid_box(g, gw, r, c, d.0, d.1)
}

/// A box's dimensions are determined by its top-left corner: the top edge
/// runs to the first cell that is no bar, which must be the top-right
/// corner, and the right edge likewise.
pub proof fn lemma_box_unique(
    g: Seq<Seq<char>>,
    gw: int,
    r: int,
    c: int,
    h1: int,
    w1: int,
    h2: int,
    w2: int,
)
    requires
        valid_box(g, gw, r, c, h1, w1),
        valid_box(g, gw, r, c, h2, w2),
    ensures
        h1 == h2,
        w1 == w2,
{
    if w1 < w2 {
        assert(g[r][c + w1 + 1] == horiz_bar());
        assert(false);
    } else if w2 < w1 {
        assert(g[r][c + w2 + 1] == horiz_bar());
        assert(false);
    }
    if h1 < h2 {
        assert(g[r + h1 + 1][c + w1 + 1] == vert_bar());
        assert(false);
    } else if h2 < h1 {
        assert(g[r + h2 + 1][c + w2 + 1] == vert_bar());
        assert(false);
    }
}

/// With the top edge known (bars from the origin to a corner at column
/// `j0`), any box at the origin has its top-right corner exactly there.
proof fn lemma_top_pins_bw(
    g: Seq<Seq<char>>,
    gw: int,
    r0: int,
    c0: int,
    j0: int,
    bh: int,
    bw: int,
)
    requires
        valid_box(g, gw, r0, c0, bh, bw),
        c0 + 1 <= j0,
        g[r0][j0] == tr_corner(),
        forall|t: int| c0 + 1 <= t < j0 ==> #[trigger] g[r0][t] == horiz_bar(),
    ensures
        c0 + bw + 1 == j0,
{
    if c0 + bw + 1 < j0 {
        assert(g[r0][c0 + bw + 1] == horiz_bar());
        assert(false);
    } else if c0 + bw + 1 > j0 {
        assert(g[r0][j0] == horiz_bar());
        assert(false);
    }
}

/// With the right edge known as well (bars from below the top-right
/// corner to a corner at row `i0`), any box at the origin has its
/// bottom-right corner exactly there.
proof fn lemma_right_pins_bh(
    g: Seq<Seq<char>>,
    gw: int,
    r0: int,
    c0: int,
    j0: int,
    i0: int,
    bh: int,
    bw: int,
)
    requires
        valid_box(g, gw, r0, c0, bh, bw),
        c0 + 1 <= j0,
        g[r0][j0] == tr_corner(),
        forall|t: int| c0 + 1 <= t < j0 ==> #[trigger] g[r0][t] == horiz_bar(),
        r0 + 1 <= i0,
        g[i0][j0] == br_corner(),
        forall|t: int| r0 + 1 <= t < i0 ==> #[trigger] g[t][j0] == vert_bar(),
    ensures
        c0 + bw + 1 == j0,
        r0 + bh + 1 == i0,
{
    lemma_top_pins_bw(g, gw, r0, c0, j0, bh, bw);
    if r0 + bh + 1 < i0 {
        assert(g[r0 + bh + 1][j0] == vert_bar());
        assert(false);
    } else if r0 + bh + 1 > i0 {
        assert(g[i0][j0] == vert_bar());
        assert(false);
    }
}

/// The first zero-based column at or past `j` in row `r` that holds no
/// horizontal bar, or `gw` when the bars reach the row's end.
pub open spec fn bar_end_right(g: Seq<Seq<char>>, r: int, j: int, gw: int) -> int
    decreases gw - j,
{
    if j >= gw {
        gw
    } else if g[r][j] != horiz_bar() {
        j
    } else {
        bar_end_right(g, r, j + 1, gw)
    }
}

/// The first zero-based row at or past `i` in column `c` that holds no
/// vertical bar, or the grid height when the bars reach the bottom.
pub open spec fn bar_end_down(g: Seq<Seq<char>>, i: int, c: int) -> int
    decreases g.len() - i,
{
    if i >= g.len() {
        g.len() as int
    } else if g[i][c] != vert_bar() {
        i
    } else {
        bar_end_down(g, i + 1, c)
    }
}

/// The first zero-based column at or before `j` in row `r` that holds no
/// horizontal bar, or `-1` when the bars reach the row's start.
pub open spec fn bar_end_left(g: Seq<Seq<char>>, r: int, j: int) -> int
    decreases j + 1,
{
    if j < 0 {
        -1
    } else if g[r][j] != horiz_bar() {
        j
    } else {
        bar_end_left(g, r, j - 1)
    }
}

/// The first zero-based row at or before `i` in column `c` that holds no
/// vertical bar, stopping at `stop` (the origin row) on success.
pub open spec fn bar_end_up(g: Seq<Seq<char>>, c: int, i: int, stop: int) -> int
    decreases i - stop,
{
    if i <= stop {
        stop
    } else if g[i][c] != vert_bar() {
        i
    } else {
        bar_end_up(g, c, i - 1, stop)
    }
}

/// The border walk's exact outcome: the perimeter is followed clockwise
/// from the top-left corner; a read past the grid extents fails with
/// `OutOfBounds` at the offending one-based coordinates, and a wrong
/// glyph on the path fails with `BrokenBorder`.
pub open spec fn trace_spec(g: Seq<Seq<char>>, gw: int, row: usize, col: usize) -> Result<
    (usize, usize),
    ExtractError,
> {
    if !(1 <= row <= g.len() && 1 <= col <= gw) {
        Err(ExtractError::OutOfBounds(row, col))
    } else if g[row - 1][col - 1] != tl_corner() {
        Err(ExtractError::InvalidBoxOrigin(row, col))
    } else {
        let jr = bar_end_right(g, row - 1, col as int, gw);
        if jr >= gw {
            Err(ExtractError::OutOfBounds(row, (gw + 1) as usize))
        } else if g[row - 1][jr] != tr_corner() {
            Err(ExtractError::BrokenBorder)
        } else {
            let ib = bar_end_down(g, row as int, jr);
            if ib >= g.len() {
                Err(ExtractError::OutOfBounds((g.len() + 1) as usize, (jr + 1) as usize))
            } else if g[ib][jr] != br_corner() {
                Err(ExtractError::BrokenBorder)
            } else {
                let jl = bar_end_left(g, ib, jr - 1);
                if jl < 0 {
                    Err(ExtractError::OutOfBounds((ib + 1) as usize, 0))
                } else if g[ib][jl] != bl_corner() || jl != col - 1 {
                    Err(ExtractError::BrokenBorder)
                } else {
                    let iu = bar_end_up(g, col - 1, ib - 1, row - 1);
                    if iu > row - 1 {
                        Err(ExtractError::BrokenBorder)
                    } else {
                        Ok((((ib - row) as usize), ((jr - col) as usize)))
                    }
                }
            }
        }
    }
}

proof fn lemma_bar_end_right_at(g: Seq<Seq<char>>, r: int, start: int, gw: int, j: int)
    requires
        start <= j <= gw,
        forall|t: int| start <= t < j ==> #[trigger] g[r][t] == horiz_bar(),
        j < gw ==> g[r][j] != horiz_bar(),
    ensures
        bar_end_right(g, r, start, gw) == j,
    decreases j - start,
{
    if start < j {
        lemma_bar_end_right_at(g, r, start + 1, gw, j);
    }
}

proof fn lemma_bar_end_down_at(g: Seq<Seq<char>>, c: int, start: int, i: int)
    requires
        start <= i <= g.len(),
        forall|t: int| start <= t < i ==> #[trigger] g[t][c] == vert_bar(),
        i < g.len() ==> g[i][c] != vert_bar(),
    ensures
        bar_end_down(g, start, c) == i,
    decreases i - start,
{
    if start < i {
        lemma_bar_end_down_at(g, c, start + 1, i);
    }
}

proof fn lemma_bar_end_left_at(g: Seq<Seq<char>>, r: int, start: int, j: int)
    requires
        -1 <= j <= start,
        forall|t: int| j < t <= start ==> #[trigger] g[r][t] == horiz_bar(),
        j >= 0 ==> g[r][j] != horiz_bar(),
    ensures
        bar_end_left(g, r, start) == j,
    decreases start - j,
{
    if j < start {
        lemma_bar_end_left_at(g, r, start - 1, j);
    }
}

proof fn lemma_bar_end_up_at(g: Seq<Seq<char>>, c: int, start: int, stop: int, i: int)
    requires
        stop <= i,
        i <= start || i == stop,
        forall|t: int| i < t <= start ==> #[trigger] g[t][c] == vert_bar(),
        i > stop ==> g[i][c] != vert_bar(),
    ensures
        bar_end_up(g, c, start, stop) == i,
    decreases start - i,
{
    if i < start {
        lemma_bar_end_up_at(g, c, start - 1, stop, i);
    }
}

/// Walks rightwards from just past the origin across bars until the
/// top-right corner; returns its one-based column.
fn walk_right<T: CharSource>(src: &T, row: usize, col: usize) -> (res: Result<usize, ExtractError>)
    requires
        src.src_wf(),
        1 <= row <= src.cells().len(),
        1 <= col <= src.src_width(),
    ensures
        match res {
            Ok(j) => col + 1 <= j <= src.src_width() && src.cells()[row - 1][j - 1] == tr_corner()
                && (forall|t: int|
                    col <= t < j - 1 ==> #[trigger] src.cells()[row - 1][t] == horiz_bar())
                && bar_end_right(src.cells(), row - 1, col as int, src.src_width()) == j - 1,
            Err(e) => (forall|bh: int, bw: int|
                !(#[trigger] valid_box(src.cells(), src.src_width(), row - 1, col - 1, bh, bw)))
                && ({
                let jr = bar_end_right(src.cells(), row - 1, col as int, src.src_width());
                &&& (jr >= src.src_width() ==> e == ExtractError::OutOfBounds(
                    row,
                    (src.src_width() + 1) as usize,
                ))
                &&& (jr < src.src_width() ==> src.cells()[row - 1][jr] != tr_corner() && e
                    == ExtractError::BrokenBorder)
            }),
        },
{
    let ghost g = src.cells();
    let ghost gw = src.src_width();
    proof {
        src.lemma_src_wf();
    }
    let mut j: usize = col + 1;
    loop
        invariant
            src.src_wf(),
            g == src.cells(),
            gw == src.src_width(),
            0 <= gw < usize::MAX,
            1 <= row <= g.len(),
            1 <= col <= gw,
            col + 1 <= j <= gw + 1,
            forall|t: int| col <= t < j - 1 ==> #[trigger] g[row - 1][t] == horiz_bar(),
        decreases gw + 1 - j,
    {
        let cur = match src.char_at(row, j) {
            Ok(ch) => ch,
            Err(e) => {
                proof {
                    assert(j == gw + 1);
                    lemma_bar_end_right_at(g, row - 1, col as int, gw, gw);
                    assert forall|bh: int, bw: int|
                        !(#[trigger] valid_box(g, gw, row - 1, col - 1, bh, bw)) by {
                        if valid_box(g, gw, row - 1, col - 1, bh, bw) {
                            assert(col - 1 + bw + 1 < gw);
                            assert(g[row - 1][col - 1 + bw + 1] == horiz_bar());
                        }
                    }
                }
                return Err(e);
            },
        };
        if cur == '\u{2510}' {
            proof {
                lemma_bar_end_right_at(g, row - 1, col as int, gw, j - 1);
            }
            return Ok(j);
        } else if cur == '\u{2500}' {
            j = j + 1;
        } else {
            proof {
                lemma_bar_end_right_at(g, row - 1, col as int, gw, j - 1);
                assert forall|bh: int, bw: int|
                !(#[trigger] valid_box(g, gw, row - 1, col - 1, bh, bw)) by {
                    if valid_box(g, gw, row - 1, col - 1, bh, bw) {
                        if col - 1 + bw + 1 < j - 1 {
                            assert(g[row - 1][col - 1 + bw + 1] == horiz_bar());
                        } else if col - 1 + bw + 1 == j - 1 {
                            assert(g[row - 1][j - 1] == tr_corner());
                        } else {
                            assert(g[row - 1][j - 1] == horiz_bar());
                        }
                    }
                }
            }
            return Err(ExtractError::BrokenBorder);
        }
    }
}

/// Walks downwards from just below the top-right corner across bars until
/// the bottom-right corner; returns its one-based row.
fn walk_down<T: CharSource>(src: &T, row: usize, col: usize, trc: usize) -> (res: Result<
    usize,
    ExtractError,
>)
    requires
        src.src_wf(),
        1 <= row <= src.cells().len(),
        1 <= col <= src.src_width(),
        col + 1 <= trc <= src.src_width(),
        src.cells()[row - 1][trc - 1] == tr_corner(),
        forall|t: int| col <= t < trc - 1 ==> #[trigger] src.cells()[row - 1][t] == horiz_bar(),
    ensures
        match res {
            Ok(i) => row + 1 <= i <= src.cells().len() && src.cells()[i - 1][trc - 1]
                == br_corner() && (forall|t: int|
                row <= t < i - 1 ==> #[trigger] src.cells()[t][trc - 1] == vert_bar())
                && bar_end_down(src.cells(), row as int, trc - 1) == i - 1,
            Err(e) => (forall|bh: int, bw: int|
                !(#[trigger] valid_box(src.cells(), src.src_width(), row - 1, col - 1, bh, bw)))
                && ({
                let ib = bar_end_down(src.cells(), row as int, trc - 1);
                &&& (ib >= src.cells().len() ==> e == ExtractError::OutOfBounds(
                    (src.cells().len() + 1) as usize,
                    trc,
                ))
                &&& (ib < src.cells().len() ==> src.cells()[ib][trc - 1] != br_corner() && e
                    == ExtractError::BrokenBorder)
            }),
        },
{
    let ghost g = src.cells();
    let ghost gw = src.src_width();
    proof {
        src.lemma_src_wf();
    }
    let mut i: usize = row + 1;
    loop
        invariant
            src.src_wf(),
            g == src.cells(),
            gw == src.src_width(),
            0 <= gw < usize::MAX,
            g.len() < usize::MAX,
            1 <= row <= g.len(),
            1 <= col <= gw,
            col + 1 <= trc <= gw,
            g[row - 1][trc - 1] == tr_corner(),
            forall|t: int| col <= t < trc - 1 ==> #[trigger] g[row - 1][t] == horiz_bar(),
            row + 1 <= i <= g.len() + 1,
            forall|t: int| row <= t < i - 1 ==> #[trigger] g[t][trc - 1] == vert_bar(),
        decreases g.len() + 1 - i,
    {
        let cur = match src.char_at(i, trc) {
            Ok(ch) => ch,
            Err(e) => {
                proof {
                    assert(i == g.len() + 1);
                    lemma_bar_end_down_at(g, trc - 1, row as int, g.len() as int);
                    assert forall|bh: int, bw: int|
                        !(#[trigger] valid_box(g, gw, row - 1, col - 1, bh, bw)) by {
                        if valid_box(g, gw, row - 1, col - 1, bh, bw) {
                            lemma_top_pins_bw(g, gw, row - 1, col - 1, trc - 1, bh, bw);
                            assert(g[row - 1 + bh + 1][trc - 1] == vert_bar());
                        }
                    }
                }
                return Err(e);
            },
        };
        if cur == '\u{2518}' {
            proof {
                lemma_bar_end_down_at(g, trc - 1, row as int, i - 1);
            }
            return Ok(i);
        } else if cur == '\u{2502}' {
            i = i + 1;
        } else {
            proof {
                lemma_bar_end_down_at(g, trc - 1, row as int, i - 1);
                assert forall|bh: int, bw: int|
                !(#[trigger] valid_box(g, gw, row - 1, col - 1, bh, bw)) by {
                    if valid_box(g, gw, row - 1, col - 1, bh, bw) {
                        lemma_top_pins_bw(g, gw, row - 1, col - 1, trc - 1, bh, bw);
                        if row - 1 + bh + 1 < i - 1 {
                            assert(g[row - 1 + bh + 1][trc - 1] == vert_bar());
                        } else if row - 1 + bh + 1 == i - 1 {
                            assert(g[i - 1][trc - 1] == br_corner());
                        } else {
                            assert(g[i - 1][trc - 1] == vert_bar());
                        }
                    }
                }
            }
            return Err(ExtractError::BrokenBorder);
        }
    }
}

/// Walks leftwards from just before the bottom-right corner across bars
/// until the bottom-left corner, which must sit exactly below the origin.
fn walk_left<T: CharSource>(src: &T, row: usize, col: usize, trc: usize, brr: usize) -> (res:
    Result<usize, ExtractError>)
    requires
        src.src_wf(),
        1 <= row <= src.cells().len(),
        1 <= col <= src.src_width(),
        col + 1 <= trc <= src.src_width(),
        forall|t: int| col <= t < trc - 1 ==> #[trigger] src.cells()[row - 1][t] == horiz_bar(),
        src.cells()[row - 1][trc - 1] == tr_corner(),
        row + 1 <= brr <= src.cells().len(),
        src.cells()[brr - 1][trc - 1] == br_corner(),
        forall|t: int| row <= t < brr - 1 ==> #[trigger] src.cells()[t][trc - 1] == vert_bar(),
    ensures
        match res {
            Ok(k) => k == col && src.cells()[brr - 1][col - 1] == bl_corner() && (forall|t: int|
                col <= t < trc - 1 ==> #[trigger] src.cells()[brr - 1][t] == horiz_bar())
                && bar_end_left(src.cells(), brr - 1, trc - 2) == col - 1,
            Err(e) => (forall|bh: int, bw: int|
                !(#[trigger] valid_box(src.cells(), src.src_width(), row - 1, col - 1, bh, bw)))
                && ({
                let jl = bar_end_left(src.cells(), brr - 1, trc - 2);
                &&& (jl < 0 ==> e == ExtractError::OutOfBounds(brr, 0))
                &&& (jl >= 0 ==> (src.cells()[brr - 1][jl] != bl_corner() || jl != col - 1) && e
                    == ExtractError::BrokenBorder)
            }),
        },
{
    let ghost g = src.cells();
    let ghost gw = src.src_width();
    proof {
        src.lemma_src_wf();
    }
    let mut k: usize = trc - 1;
    loop
        invariant
            src.src_wf(),
            g == src.cells(),
            gw == src.src_width(),
            0 <= gw < usize::MAX,
            g.len() < usize::MAX,
            1 <= row <= g.len(),
            1 <= col <= gw,
            col + 1 <= trc <= gw,
            forall|t: int| col <= t < trc - 1 ==> #[trigger] g[row - 1][t] == horiz_bar(),
            g[row - 1][trc - 1] == tr_corner(),
            row + 1 <= brr <= g.len(),
            g[brr - 1][trc - 1] == br_corner(),
            forall|t: int| row <= t < brr - 1 ==> #[trigger] g[t][trc - 1] == vert_bar(),
            k <= trc - 1,
            forall|t: int| k <= t < trc - 1 ==> #[trigger] g[brr - 1][t] == horiz_bar(),
        decreases k,
    {
        let cur = match src.char_at(brr, k) {
            Ok(ch) => ch,
            Err(e) => {
                proof {
                    assert(k < 1);
                    lemma_bar_end_left_at(g, brr - 1, trc - 2, -1);
                    assert forall|bh: int, bw: int|
                        !(#[trigger] valid_box(g, gw, row - 1, col - 1, bh, bw)) by {
                        if valid_box(g, gw, row - 1, col - 1, bh, bw) {
                            lemma_right_pins_bh(
                                g,
                                gw,
                                row - 1,
                                col - 1,
                                trc - 1,
                                brr - 1,
                                bh,
                                bw,
                            );
                            assert(g[brr - 1][col - 1] == bl_corner());
                            assert(g[brr - 1][col - 1] == horiz_bar());
                        }
                    }
                }
                return Err(e);
            },
        };
        if cur == '\u{2514}' {
            proof {
                lemma_bar_end_left_at(g, brr - 1, trc - 2, k - 1);
            }
            if k == col {
                return Ok(k);
            } else {
                proof {
                    assert forall|bh: int, bw: int|
                        !(#[trigger] valid_box(g, gw, row - 1, col - 1, bh, bw)) by {
                        if valid_box(g, gw, row - 1, col - 1, bh, bw) {
                            lemma_right_pins_bh(
                                g,
                                gw,
                                row - 1,
                                col - 1,
                                trc - 1,
                                brr - 1,
                                bh,
                                bw,
                            );
                            if k > col {
                                assert(g[brr - 1][k - 1] == horiz_bar());
                            } else {
                                assert(g[brr - 1][col - 1] == horiz_bar());
                                assert(g[brr - 1][col - 1] == bl_corner());
                            }
                        }
                    }
                }
                return Err(ExtractError::BrokenBorder);
            }
        } else if cur == '\u{2500}' {
            k = k - 1;
        } else {
            proof {
                lemma_bar_end_left_at(g, brr - 1, trc - 2, k - 1);
                assert forall|bh: int, bw: int|
                    !(#[trigger] valid_box(g, gw, row - 1, col - 1, bh, bw)) by {
                    if valid_box(g, gw, row - 1, col - 1, bh, bw) {
                        lemma_right_pins_bh(g, gw, row - 1, col - 1, trc - 1, brr - 1, bh, bw);
                        if k - 1 == col - 1 {
                            assert(g[brr - 1][col - 1] == bl_corner());
                        } else if k - 1 > col - 1 {
                            assert(g[brr - 1][k - 1] == horiz_bar());
                        } else {
                            assert(g[brr - 1][col - 1] == horiz_bar());
                            assert(g[brr - 1][col - 1] == bl_corner());
                        }
                    }
                }
            }
            return Err(ExtractError::BrokenBorder);
        }
    }
}

/// Walks upwards from just above the bottom-left corner across bars back
/// to the origin, closing the perimeter.
fn walk_up<T: CharSource>(src: &T, row: usize, col: usize, trc: usize, brr: usize) -> (res: Result<
    (),
    ExtractError,
>)
    requires
        src.src_wf(),
        1 <= row <= src.cells().len(),
        1 <= col <= src.src_width(),
        col + 1 <= trc <= src.src_width(),
        forall|t: int| col <= t < trc - 1 ==> #[trigger] src.cells()[row - 1][t] == horiz_bar(),
        src.cells()[row - 1][trc - 1] == tr_corner(),
        row + 1 <= brr <= src.cells().len(),
        src.cells()[brr - 1][trc - 1] == br_corner(),
        forall|t: int| row <= t < brr - 1 ==> #[trigger] src.cells()[t][trc - 1] == vert_bar(),
    ensures
        match res {
            Ok(u) => (forall|t: int|
                row <= t < brr - 1 ==> #[trigger] src.cells()[t][col - 1] == vert_bar())
                && bar_end_up(src.cells(), col - 1, brr - 2, row - 1) == row - 1,
            Err(e) => (forall|bh: int, bw: int|
                !(#[trigger] valid_box(src.cells(), src.src_width(), row - 1, col - 1, bh, bw)))
                && ({
                let iu = bar_end_up(src.cells(), col - 1, brr - 2, row - 1);
                &&& iu > row - 1
                &&& src.cells()[iu][col - 1] != vert_bar()
                &&& e == ExtractError::BrokenBorder
            }),
        },
{
    let ghost g = src.cells();
    let ghost gw = src.src_width();
    proof {
        src.lemma_src_wf();
    }
    let mut t: usize = brr - 1;
    while t > row
        invariant
            src.src_wf(),
            g == src.cells(),
            gw == src.src_width(),
            0 <= gw < usize::MAX,
            g.len() < usize::MAX,
            1 <= row <= g.len(),
            1 <= col <= gw,
            col + 1 <= trc <= gw,
            forall|tt: int| col <= tt < trc - 1 ==> #[trigger] g[row - 1][tt] == horiz_bar(),
            g[row - 1][trc - 1] == tr_corner(),
            row + 1 <= brr <= g.len(),
            g[brr - 1][trc - 1] == br_corner(),
            forall|tt: int| row <= tt < brr - 1 ==> #[trigger] g[tt][trc - 1] == vert_bar(),
            row <= t <= brr - 1,
            forall|s: int| t <= s < brr - 1 ==> #[trigger] g[s][col - 1] == vert_bar(),
        decreases t,
    {
        let cur = match src.char_at(t, col) {
            Ok(ch) => ch,
            Err(e) => {
                proof {
                    assert(false);
                }
                return Err(e);
            },
        };
        if cur == '\u{2502}' {
            t = t - 1;
        } else {
            proof {
                lemma_bar_end_up_at(g, col - 1, brr - 2, row - 1, t - 1);
                assert forall|bh: int, bw: int|
                    !(#[trigger] valid_box(g, gw, row - 1, col - 1, bh, bw)) by {
                    if valid_box(g, gw, row - 1, col - 1, bh, bw) {
                        lemma_right_pins_bh(g, gw, row - 1, col - 1, trc - 1, brr - 1, bh, bw);
                        assert(g[t - 1][col - 1] == vert_bar());
                    }
                }
            }
            return Err(ExtractError::BrokenBorder);
        }
    }
    proof {
        lemma_bar_end_up_at(g, col - 1, brr - 2, row - 1, row - 1);
    }
    Ok(())
}

/// Follows the perimeter of a candidate box clockwise from its top-left
/// corner at one-based `(row, col)`.  On success the interior dimensions
/// `(height, width)` come back, and the border has been verified whole; on
/// failure no closed box starts at that cell.  The outcome, error kinds
/// and coordinates included, is exactly `trace_spec`: a non-`┌` start is
/// `InvalidBoxOrigin`, a read past the extents is `OutOfBounds` at those
/// coordinates, and a wrong glyph on the path is `BrokenBorder`.
pub fn trace_border<T: CharSource>(src: &T, row: usize, col: usize) -> (res: Result<
    (usize, usize),
    ExtractError,
>)
    requires
        src.src_wf(),
    ensures
        match res {
            Ok(d) => valid_box(
                src.cells(),
                src.src_width(),
                row - 1,
                col - 1,
                d.0 as int,
                d.1 as int,
            ),
            Err(e) => forall|bh: int, bw: int|
                !(#[trigger] valid_box(src.cells(), src.src_width(), row - 1, col - 1, bh, bw)),
        },
        res == trace_spec(src.cells(), src.src_width(), row, col),
{
    let ghost g = src.cells();
    let ghost gw = src.src_width();
    proof {
        src.lemma_src_wf();
    }
    let start = match src.char_at(row, col) {
        Ok(ch) => ch,
        Err(e) => {
            proof {
                assert forall|bh: int, bw: int|
                    !(#[trigger] valid_box(g, gw, row - 1, col - 1, bh, bw)) by {
                    if valid_box(g, gw, row - 1, col - 1, bh, bw) {
                        assert(0 <= row - 1 && row - 1 + bh + 1 < g.len());
                        assert(0 <= col - 1 && col - 1 + bw + 1 < gw);
                    }
                }
            }
            return Err(e);
        },
    };
    if start != '\u{250c}' {
        return Err(ExtractError::InvalidBoxOrigin(row, col));
    }
    let trc = match walk_right(src, row, col) {
        Ok(j) => j,
        Err(e) => {
            proof {
                assert(Err::<(usize, usize), ExtractError>(e) == trace_spec(g, gw, row, col));
            }
            return Err(e);
        },
    };
    let brr = match walk_down(src, row, col, trc) {
        Ok(i) => i,
        Err(e) => {
            proof {
                assert(bar_end_right(g, row - 1, col as int, gw) == trc - 1);
                assert(Err::<(usize, usize), ExtractError>(e) == trace_spec(g, gw, row, col));
            }
            return Err(e);
        },
    };
    match walk_left(src, row, col, trc, brr) {
        Ok(k) => k,
        Err(e) => {
            proof {
                assert(bar_end_right(g, row - 1, col as int, gw) == trc - 1);
                assert(bar_end_down(g, row as int, trc - 1) == brr - 1);
                assert(Err::<(usize, usize), ExtractError>(e) == trace_spec(g, gw, row, col));
            }
            return Err(e);
        },
    };
    match walk_up(src, row, col, trc, brr) {
        Ok(u) => u,
        Err(e) => {
            proof {
                assert(bar_end_right(g, row - 1, col as int, gw) == trc - 1);
                assert(bar_end_down(g, row as int, trc - 1) == brr - 1);
                assert(bar_end_left(g, brr - 1, trc - 2) == col - 1);
                assert(Err::<(usize, usize), ExtractError>(e) == trace_spec(g, gw, row, col));
            }
            return Err(e);
        },
    };
    let bh = brr - row - 1;
    let bw = trc - col - 1;
    proof {
        assert(valid_box(g, gw, row - 1, col - 1, bh as int, bw as int));
        assert(bar_end_right(g, row - 1, col as int, gw) == trc - 1);
        assert(bar_end_down(g, row as int, trc - 1) == brr - 1);
        assert(bar_end_left(g, brr - 1, trc - 2) == col - 1);
        assert(bar_end_up(g, col - 1, brr - 2, row - 1) == row - 1);
        assert(Ok::<(usize, usize), ExtractError>((bh, bw)) == trace_spec(g, gw, row, col));
    }
    Ok((bh, bw))
}

/// The interior of a box: `bh` rows of `bw` cells, offset one past the
/// border corner.
pub open spec fn interior(g: Seq<Seq<char>>, r: int, c: int, bh: int, bw: int) -> Seq<Seq<char>> {
    Seq::new(bh as nat, |i: int| Seq::new(bw as nat, |j: int| g[r + 1 + i][c + 1 + j]))
}

/// The sub-window extracted from the box at `(r, c)`: its interior, with
/// the interior's top-left cell as origin.
pub open spec fn box_win(g: Seq<Seq<char>>, gw: int, r: int, c: int) -> WinView {
    let d = box_dims(g, gw, r, c);
    WinView {
        origin: Position { x: (c + 1) as usize, y: (r + 1) as usize },
        size: ScrSize { width: d.1 as usize, height: d.0 as usize },
        rows: interior(g, r, c, d.0, d.1),
    }
}

/// A box's dimensions, as `box_dims` picks them, are the ones of any box
/// that is there.
pub proof fn lemma_box_win_dims(g: Seq<Seq<char>>, gw: int, r: int, c: int, bh: int, bw: int)
    requires
        valid_box(g, gw, r, c, bh, bw),
    ensures
        box_ok(g, gw, r, c),
        box_dims(g, gw, r, c) == (bh, bw),
{
    let d = (bh, bw);
    assert(valid_box(g, gw, r, c, d.0, d.1));
    let d2 = box_dims(g, gw, r, c);
    assert(valid_box(g, gw, r, c, d2.0, d2.1));
    lemma_box_unique(g, gw, r, c, bh, bw, d2.0, d2.1);
}

/// The windows found by a row-major scan from cell `(r, c)` on: one for
/// each later candidate whose border closes, in scan order.
pub open spec fn wins_from(g: Seq<Seq<char>>, gw: int, r: int, c: int) -> Seq<WinView>
    decreases g.len() - r, gw + 1 - c,
{
    if !(0 <= r < g.len()) || gw < 0 || c < 0 {
        Seq::empty()
    } else if c >= gw {
        wins_from(g, gw, r + 1, 0)
    } else {
        let rest = wins_from(g, gw, r, c + 1);
        if g[r][c] == tl_corner() && box_ok(g, gw, r, c) {
            seq![box_win(g, gw, r, c)] + rest
        } else {
            rest
        }
    }
}

/// Whether cell `d` comes before `(r, c)` in row-major scan order.
pub open spec fn before_scan(d: (int, int), r: int, c: int) -> bool {
    d.0 < r || (d.0 == r && d.1 < c)
}

/// A candidate origin: a `┌` cell.
pub open spec fn origin_at(g: Seq<Seq<char>>, r: int, c: int) -> bool {
    0 <= r < g.len() && 0 <= c < g[r].len() && g[r][c] == tl_corner()
}

/// Whether the grid holds any candidate at all.
pub open spec fn has_origin(g: Seq<Seq<char>>) -> bool {
    exists|d: (int, int)| origin_at(g, d.0, d.1)
}

/// `m` is the least row holding a candidate.
pub open spec fn is_min_row(g: Seq<Seq<char>>, m: int) -> bool {
    &&& exists|d: (int, int)| origin_at(g, d.0, d.1) && d.0 == m
    &&& forall|d: (int, int)| origin_at(g, d.0, d.1) ==> d.0 >= m
}

/// `m` is the least column holding a candidate.
pub open spec fn is_min_col(g: Seq<Seq<char>>, m: int) -> bool {
    &&& exists|d: (int, int)| origin_at(g, d.0, d.1) && d.1 == m
    &&& forall|d: (int, int)| origin_at(g, d.0, d.1) ==> d.1 >= m
}

/// The least row among all candidate origins.
pub open spec fn min_row(g: Seq<Seq<char>>) -> int {
    choose|m: int| is_min_row(g, m)
}

/// The least column among all candidate origins.
pub open spec fn min_col(g: Seq<Seq<char>>) -> int {
    choose|m: int| is_min_col(g, m)
}

pub proof fn lemma_min_row_val(g: Seq<Seq<char>>, m: int)
    requires
        is_min_row(g, m),
    ensures
        min_row(g) == m,
{
    assert(is_min_row(g, min_row(g)));
    let d1 = choose|d: (int, int)| origin_at(g, d.0, d.1) && d.0 == m;
    let d2 = choose|d: (int, int)| origin_at(g, d.0, d.1) && d.0 == min_row(g);
    assert(origin_at(g, d1.0, d1.1));
    assert(origin_at(g, d2.0, d2.1));
}

pub proof fn lemma_min_col_val(g: Seq<Seq<char>>, m: int)
    requires
        is_min_col(g, m),
    ensures
        min_col(g) == m,
{
    assert(is_min_col(g, min_col(g)));
    let d1 = choose|d: (int, int)| origin_at(g, d.0, d.1) && d.1 == m;
    let d2 = choose|d: (int, int)| origin_at(g, d.0, d.1) && d.1 == min_col(g);
    assert(origin_at(g, d1.0, d1.1));
    assert(origin_at(g, d2.0, d2.1));
}

/// The undecorated top-left region is returned as one extra window when
/// every candidate sits strictly below the first row and right of the
/// first column.
pub open spec fn implicit_cond(g: Seq<Seq<char>>) -> bool {
    has_origin(g) && min_row(g) >= 1 && min_col(g) >= 1
}

/// That extra window: rows above the least candidate row, columns left of
/// the least candidate column.
pub open spec fn implicit_win(g: Seq<Seq<char>>) -> WinView {
    let mr = min_row(g);
    let mc = min_col(g);
    WinView {
        origin: Position { x: 0, y: 0 },
        size: ScrSize { width: mc as usize, height: mr as usize },
        rows: Seq::new(mr as nat, |i: int| Seq::new(mc as nat, |j: int| g[i][j])),
    }
}

/// Everything one extraction call returns: the boxed windows in scan
/// order, then the implicit top-left window if it exists.
pub open spec fn extract_spec(g: Seq<Seq<char>>, gw: int) -> Seq<WinView> {
    wins_from(g, gw, 0, 0) + if implicit_cond(g) {
        seq![implicit_win(g)]
    } else {
        Seq::empty()
    }
}

/// The views of a sequence of sub-windows.
pub open spec fn win_views(s: Seq<SubWindow>) -> Seq<WinView> {
    Seq::new(s.len(), |i: int| s[i]@)
}

/// Whether `w` is the window of some closed box of the grid.
pub open spec fn is_box_window(g: Seq<Seq<char>>, gw: int, w: WinView) -> bool {
    exists|d: (int, int)| box_ok(g, gw, d.0, d.1) && w == #[trigger] box_win(g, gw, d.0, d.1)
}

/// Soundness of the scan from `(r, c)`: each of its windows is the
/// window of some closed box.
pub open spec fn scan_sound(g: Seq<Seq<char>>, gw: int, r: int, c: int) -> bool {
    forall|k: int|
        0 <= k < wins_from(g, gw, r, c).len() ==> #[trigger] is_box_window(
            g,
            gw,
            wins_from(g, gw, r, c)[k],
        )
}

/// Every window the scan yields is the interior of some closed box: a
/// candidate whose border does not close contributes nothing, and cells
/// that are no candidates contribute nothing.
pub proof fn lemma_extract_sound(g: Seq<Seq<char>>, gw: int, r: int, c: int)
    ensures
        scan_sound(g, gw, r, c),
    decreases g.len() - r, gw + 1 - c,
{
    if !(0 <= r < g.len()) || gw < 0 || c < 0 {
        assert(wins_from(g, gw, r, c) =~= Seq::<WinView>::empty());
    } else if c >= gw {
        lemma_extract_sound(g, gw, r + 1, 0);
        assert(wins_from(g, gw, r, c) == wins_from(g, gw, r + 1, 0));
        assert forall|k: int| 0 <= k < wins_from(g, gw, r, c).len() implies #[trigger] is_box_window(
            g,
            gw,
            wins_from(g, gw, r, c)[k],
        ) by {
            assert(is_box_window(g, gw, wins_from(g, gw, r + 1, 0)[k]));
        }
    } else {
        lemma_extract_sound(g, gw, r, c + 1);
        if !(g[r][c] == tl_corner() && box_ok(g, gw, r, c)) {
            assert(wins_from(g, gw, r, c) == wins_from(g, gw, r, c + 1));
            assert forall|k: int| 0 <= k < wins_from(g, gw, r, c).len() implies #[trigger] is_box_window(
                g,
                gw,
                wins_from(g, gw, r, c)[k],
            ) by {
                assert(is_box_window(g, gw, wins_from(g, gw, r, c + 1)[k]));
            }
        } else {
            assert forall|k: int| 0 <= k < wins_from(g, gw, r, c).len() implies #[trigger] is_box_window(
                g,
                gw,
                wins_from(g, gw, r, c)[k],
            ) by {
                if k == 0 {
                    let d0 = (r, c);
                    assert(wins_from(g, gw, r, c)[0] == box_win(g, gw, r, c));
                    assert(box_ok(g, gw, d0.0, d0.1) && box_win(g, gw, r, c) == box_win(
                        g,
                        gw,
                        d0.0,
                        d0.1,
                    ));
                    assert(is_box_window(g, gw, box_win(g, gw, r, c)));
                } else {
                    assert(wins_from(g, gw, r, c)[k] == wins_from(g, gw, r, c + 1)[k - 1]);
                    assert(is_box_window(g, gw, wins_from(g, gw, r, c + 1)[k - 1]));
                }
            }
        }
    }
}

/// A candidate whose border is broken is simply skipped: the scan result
/// from that cell is the scan result from the next cell.
pub proof fn lemma_broken_candidate_skipped(g: Seq<Seq<char>>, gw: int, r: int, c: int)
    requires
        0 <= r < g.len(),
        0 <= c < gw,
        !box_ok(g, gw, r, c),
    ensures
        wins_from(g, gw, r, c) == wins_from(g, gw, r, c + 1),
{
}

/// A closed box at `(r0, c0)` not yet passed by the scan is found by it.
proof fn lemma_extract_contains(g: Seq<Seq<char>>, gw: int, r: int, c: int, r0: int, c0: int)
    requires
        0 <= r,
        0 <= c <= gw,
        0 <= r0 < g.len(),
        0 <= c0 < gw,
        g[r0][c0] == tl_corner(),
        box_ok(g, gw, r0, c0),
        !before_scan((r0, c0), r, c),
    ensures
        exists|k: int|
            0 <= k < wins_from(g, gw, r, c).len() && #[trigger] wins_from(g, gw, r, c)[k]
                == box_win(g, gw, r0, c0),
    decreases g.len() - r, gw + 1 - c,
{
    if c >= gw {
        lemma_extract_contains(g, gw, r + 1, 0, r0, c0);
        let k0 = choose|k: int|
            0 <= k < wins_from(g, gw, r + 1, 0).len() && #[trigger] wins_from(g, gw, r + 1, 0)[k]
                == box_win(g, gw, r0, c0);
        assert(0 <= k0 < wins_from(g, gw, r, c).len() && wins_from(g, gw, r, c)[k0] == box_win(
            g,
            gw,
            r0,
            c0,
        ));
    } else if r == r0 && c == c0 {
        assert(0 <= 0 < wins_from(g, gw, r, c).len() && wins_from(g, gw, r, c)[0] == box_win(
            g,
            gw,
            r0,
            c0,
        ));
    } else {
        lemma_extract_contains(g, gw, r, c + 1, r0, c0);
        let k0 = choose|k: int|
            0 <= k < wins_from(g, gw, r, c + 1).len() && #[trigger] wins_from(g, gw, r, c + 1)[k]
                == box_win(g, gw, r0, c0);
        if g[r][c] == tl_corner() && box_ok(g, gw, r, c) {
            assert(0 <= k0 + 1 < wins_from(g, gw, r, c).len() && wins_from(g, gw, r, c)[k0 + 1]
                == box_win(g, gw, r0, c0));
        } else {
            assert(0 <= k0 < wins_from(g, gw, r, c).len() && wins_from(g, gw, r, c)[k0] == box_win(
                g,
                gw,
                r0,
                c0,
            ));
        }
    }
}

/// Every closed box in the grid appears in the scan's result.
pub proof fn lemma_extract_complete(g: Seq<Seq<char>>, gw: int, r0: int, c0: int)
    requires
        0 <= r0 < g.len(),
        0 <= c0 < gw,
        g[r0][c0] == tl_corner(),
        box_ok(g, gw, r0, c0),
    ensures
        exists|k: int|
            0 <= k < wins_from(g, gw, 0, 0).len() && #[trigger] wins_from(g, gw, 0, 0)[k]
                == box_win(g, gw, r0, c0),
{
    lemma_extract_contains(g, gw, 0, 0, r0, c0);
}

/// With exactly one candidate in the whole grid, the scan yields exactly
/// its window.
proof fn lemma_wins_single(g: Seq<Seq<char>>, gw: int, r: int, c: int, r0: int, c0: int)
    requires
        0 <= r <= g.len(),
        0 <= c <= gw,
        forall|rr: int, cc: int| origin_at(g, rr, cc) ==> rr == r0 && cc == c0,
        forall|rr: int| 0 <= rr < g.len() ==> (#[trigger] g[rr]).len() == gw,
        0 <= r0 < g.len(),
        0 <= c0 < gw,
        g[r0][c0] == tl_corner(),
        box_ok(g, gw, r0, c0),
    ensures
        wins_from(g, gw, r, c) =~= if r < g.len() && !before_scan((r0, c0), r, c) {
            seq![box_win(g, gw, r0, c0)]
        } else {
            Seq::<WinView>::empty()
        },
    decreases g.len() - r, gw + 1 - c,
{
    if r >= g.len() {
    } else if c >= gw {
        lemma_wins_single(g, gw, r + 1, 0, r0, c0);
    } else {
        lemma_wins_single(g, gw, r, c + 1, r0, c0);
        if r == r0 && c == c0 {
            assert(wins_from(g, gw, r, c + 1) =~= Seq::<WinView>::empty());
            assert(wins_from(g, gw, r, c) =~= seq![box_win(g, gw, r0, c0)]);
        } else {
            if g[r][c] == tl_corner() {
                assert(origin_at(g, r, c));
                assert(false);
            }
        }
    }
}

/// A grid holding one single candidate, a properly closed box whose
/// corner touches the first row or the first column, yields exactly one
/// window: the box interior, with the interior's top-left cell as origin
/// and the interior dimensions as size.
pub proof fn lemma_single_box_extract(
    g: Seq<Seq<char>>,
    gw: int,
    r0: int,
    c0: int,
    bh: int,
    bw: int,
)
    requires
        valid_box(g, gw, r0, c0, bh, bw),
        forall|rr: int, cc: int| origin_at(g, rr, cc) ==> rr == r0 && cc == c0,
        forall|rr: int| 0 <= rr < g.len() ==> (#[trigger] g[rr]).len() == gw,
        r0 == 0 || c0 == 0,
    ensures
        extract_spec(g, gw) =~= seq![box_win(g, gw, r0, c0)],
        box_win(g, gw, r0, c0).origin == (Position { x: (c0 + 1) as usize, y: (r0 + 1) as usize }),
        box_win(g, gw, r0, c0).size == (ScrSize { width: bw as usize, height: bh as usize }),
        box_win(g, gw, r0, c0).rows == interior(g, r0, c0, bh, bw),
{
    lemma_box_win_dims(g, gw, r0, c0, bh, bw);
    assert(origin_at(g, r0, c0));
    lemma_wins_single(g, gw, 0, 0, r0, c0);
    let dd = (r0, c0);
    assert(origin_at(g, dd.0, dd.1) && dd.0 == r0);
    assert(origin_at(g, dd.0, dd.1) && dd.1 == c0);
    assert(is_min_row(g, r0));
    assert(is_min_col(g, c0));
    lemma_min_row_val(g, r0);
    lemma_min_col_val(g, c0);
    assert(!implicit_cond(g));
    assert(extract_spec(g, gw) =~= wins_from(g, gw, 0, 0));
}

/// Copies the `nh` by `nw` rectangle whose top-left cell is at zero-based
/// `(oy, ox)` into an owned sub-window.
fn copy_rect<T: CharSource>(src: &T, oy: usize, ox: usize, nh: usize, nw: usize) -> (win: SubWindow)
    requires
        src.src_wf(),
        oy + nh <= src.cells().len(),
        ox + nw <= src.src_width(),
    ensures
        win@.origin == (Position { x: ox, y: oy }),
        win@.size == (ScrSize { width: nw, height: nh }),
        win@.rows == Seq::new(
            nh as nat,
            |i: int| Seq::new(nw as nat, |j: int| src.cells()[oy + i][ox + j]),
        ),
        win.wf(),
{
    let ghost g = src.cells();
    proof {
        src.lemma_src_wf();
    }
    let mut grid: Vec<Vec<char>> = Vec::new();
    let mut i: usize = 0;
    while i < nh
        invariant
            src.src_wf(),
            g == src.cells(),
            oy + nh <= g.len(),
            ox + nw <= src.src_width(),
            g.len() < usize::MAX,
            src.src_width() <= usize::MAX,
            i <= nh,
            grid@.len() == i,
            forall|ii: int| 0 <= ii < i ==> (#[trigger] grid@[ii])@ =~= Seq::new(
                nw as nat,
                |j: int| g[oy + ii][ox + j],
            ),
        decreases nh - i,
    {
        let mut row: Vec<char> = Vec::new();
        let mut j: usize = 0;
        while j < nw
            invariant
                src.src_wf(),
                g == src.cells(),
                oy + nh <= g.len(),
                ox + nw <= src.src_width(),
                g.len() < usize::MAX,
                src.src_width() <= usize::MAX,
                i < nh,
                j <= nw,
                row@.len() == j,
                forall|jj: int| 0 <= jj < j ==> row@[jj] == g[oy + i][ox + jj],
            decreases nw - j,
        {
            let ch = match src.char_at(oy + i + 1, ox + j + 1) {
                Ok(ch) => ch,
                Err(e) => {
                    proof {
                        assert(false);
                    }
                    '\0'
                },
            };
            row.push(ch);
            j = j + 1;
        }
        proof {
            assert(row@ =~= Seq::new(nw as nat, |jj: int| g[oy + i][ox + jj]));
        }
        grid.push(row);
        i = i + 1;
    }
    let win = SubWindow {
        origin: Position { x: ox, y: oy },
        size: ScrSize { width: nw, height: nh },
        grid,
    };
    proof {
        assert(win@.rows =~~= Seq::new(
            nh as nat,
            |ii: int| Seq::new(nw as nat, |j: int| g[oy + ii][ox + j]),
        ));
    }
    win
}

/// Finds every box the source was drawn with and copies each closed one's
/// interior out, in scan order; a broken candidate is skipped and the scan
/// goes on.  When all candidates sit below the first row and right of the
/// first column, the undecorated top-left region is returned last.
pub fn get_subwindows<T: CharSource>(src: &T) -> (res: Result<Vec<SubWindow>, ExtractError>)
    requires
        src.src_wf(),
    ensures
        res is Ok,
        res matches Ok(ws) ==> win_views(ws@) == extract_spec(src.cells(), src.src_width()),
        res matches Ok(ws) ==> forall|i: int| 0 <= i < ws@.len() ==> (#[trigger] ws@[i]).wf(),
{
    let ghost g = src.cells();
    let ghost gw = src.src_width();
    proof {
        src.lemma_src_wf();
    }
    let (h, w) = src.size();
    let mut out: Vec<SubWindow> = Vec::new();
    let mut found: bool = false;
    let mut minr: usize = 0;
    let mut minc: usize = 0;
    let mut r: usize = 0;
    while r < h
        invariant
            src.src_wf(),
            g == src.cells(),
            gw == src.src_width(),
            h == g.len(),
            w == gw,
            forall|rr: int| 0 <= rr < g.len() ==> (#[trigger] g[rr]).len() == gw,
            r <= h,
            wins_from(g, gw, 0, 0) =~= win_views(out@) + wins_from(g, gw, r as int, 0),
            forall|i: int| 0 <= i < out@.len() ==> (#[trigger] out@[i]).wf(),
            found == exists|d: (int, int)| #[trigger] origin_at(g, d.0, d.1) && before_scan(d, r as int, 0),
            found ==> exists|d: (int, int)|
                #[trigger] origin_at(g, d.0, d.1) && before_scan(d, r as int, 0) && d.0 == minr,
            found ==> exists|d: (int, int)|
                #[trigger] origin_at(g, d.0, d.1) && before_scan(d, r as int, 0) && d.1 == minc,
            found ==> forall|d: (int, int)|
                #[trigger] origin_at(g, d.0, d.1) && before_scan(d, r as int, 0) ==> d.0 >= minr
                    && d.1 >= minc,
        decreases h - r,
    {
        let mut c: usize = 0;
        while c < w
            invariant
                src.src_wf(),
                g == src.cells(),
                gw == src.src_width(),
                h == g.len(),
                w == gw,
                forall|rr: int| 0 <= rr < g.len() ==> (#[trigger] g[rr]).len() == gw,
                r < h,
                c <= w,
                wins_from(g, gw, 0, 0) =~= win_views(out@) + wins_from(g, gw, r as int, c as int),
                forall|i: int| 0 <= i < out@.len() ==> (#[trigger] out@[i]).wf(),
                found == exists|d: (int, int)|
                    #[trigger] origin_at(g, d.0, d.1) && before_scan(d, r as int, c as int),
                found ==> exists|d: (int, int)|
                    #[trigger] origin_at(g, d.0, d.1) && before_scan(d, r as int, c as int) && d.0
                        == minr,
                found ==> exists|d: (int, int)|
                    #[trigger] origin_at(g, d.0, d.1) && before_scan(d, r as int, c as int) && d.1
                        == minc,
                found ==> forall|d: (int, int)|
                    #[trigger] origin_at(g, d.0, d.1) && before_scan(d, r as int, c as int) ==> d.0
                        >= minr && d.1 >= minc,
            decreases w - c,
        {
            let ch = match src.char_at(r + 1, c + 1) {
                Ok(ch) => ch,
                Err(e) => {
                    proof {
                        assert(false);
                    }
                    '\0'
                },
            };
            if ch == '\u{250c}' {
                proof {
                    assert(origin_at(g, r as int, c as int));
                }
                let ghost oldfound = found;
                let ghost oldminr = minr as int;
                let ghost oldminc = minc as int;
                if !found {
                    found = true;
                    minr = r;
                    minc = c;
                } else {
                    if r < minr {
                        minr = r;
                    }
                    if c < minc {
                        minc = c;
                    }
                }
                proof {
                    let dnew = (r as int, c as int);
                    assert(origin_at(g, dnew.0, dnew.1) && before_scan(dnew, r as int, c + 1));
                    if oldfound {
                        let dr = choose|d: (int, int)|
                            #[trigger] origin_at(g, d.0, d.1) && before_scan(d, r as int, c as int)
                                && d.0 == oldminr;
                        let dc = choose|d: (int, int)|
                            #[trigger] origin_at(g, d.0, d.1) && before_scan(d, r as int, c as int)
                                && d.1 == oldminc;
                        if minr == oldminr {
                            assert(origin_at(g, dr.0, dr.1) && before_scan(dr, r as int, c + 1)
                                && dr.0 == minr);
                        } else {
                            assert(origin_at(g, dnew.0, dnew.1) && before_scan(
                                dnew,
                                r as int,
                                c + 1,
                            ) && dnew.0 == minr);
                        }
                        if minc == oldminc {
                            assert(origin_at(g, dc.0, dc.1) && before_scan(dc, r as int, c + 1)
                                && dc.1 == minc);
                        } else {
                            assert(origin_at(g, dnew.0, dnew.1) && before_scan(
                                dnew,
                                r as int,
                                c + 1,
                            ) && dnew.1 == minc);
                        }
                    }
                    assert forall|d: (int, int)|
                        #[trigger] origin_at(g, d.0, d.1) && before_scan(d, r as int, c + 1)
                            implies d.0 >= minr && d.1 >= minc by {
                        if before_scan(d, r as int, c as int) {
                            assert(oldfound);
                        } else {
                            assert(d.0 == r as int && d.1 == c as int);
                        }
                    }
                }
                match trace_border(src, r + 1, c + 1) {
                    Ok(dims) => {
                        let ghost pre_out = out@;
                        let win = copy_rect(src, r + 1, c + 1, dims.0, dims.1);
                        out.push(win);
                        proof {
                            lemma_box_win_dims(
                                g,
                                gw,
                                r as int,
                                c as int,
                                dims.0 as int,
                                dims.1 as int,
                            );
                            assert(win@.rows =~~= interior(
                                g,
                                r as int,
                                c as int,
                                dims.0 as int,
                                dims.1 as int,
                            ));
                            assert(win@ == box_win(g, gw, r as int, c as int));
                            assert(win_views(out@) =~= win_views(pre_out) + seq![win@]);
                            assert(wins_from(g, gw, 0, 0) =~= win_views(out@) + wins_from(
                                g,
                                gw,
                                r as int,
                                c + 1,
                            ));
                        }
                    },
                    Err(e) => {
                        proof {
                            assert(!box_ok(g, gw, r as int, c as int)) by {
                                if box_ok(g, gw, r as int, c as int) {
                                    let d = choose|d: (int, int)|
                                        valid_box(g, gw, r as int, c as int, d.0, d.1);
                                    assert(valid_box(g, gw, r as int, c as int, d.0, d.1));
                                }
                            }
                            assert(wins_from(g, gw, 0, 0) =~= win_views(out@) + wins_from(
                                g,
                                gw,
                                r as int,
                                c + 1,
                            ));
                        }
                    },
                }
            } else {
                proof {
                    assert(wins_from(g, gw, 0, 0) =~= win_views(out@) + wins_from(
                        g,
                        gw,
                        r as int,
                        c + 1,
                    ));
                    assert(!origin_at(g, r as int, c as int));
                    assert forall|d: (int, int)|
                        #[trigger] origin_at(g, d.0, d.1) && before_scan(d, r as int, c + 1)
                            implies (origin_at(g, d.0, d.1) && before_scan(d, r as int, c as int)) by {
                        if !before_scan(d, r as int, c as int) {
                            assert(d.0 == r as int && d.1 == c as int);
                        }
                    }
                }
            }
            c = c + 1;
        }
        proof {
            assert forall|d: (int, int)|
                #[trigger] origin_at(g, d.0, d.1) && before_scan(d, r + 1 as int, 0) implies (
            origin_at(g, d.0, d.1) && before_scan(d, r as int, w as int)) by {
                if d.0 == r as int {
                    assert(g[d.0].len() == gw);
                }
            }
            assert forall|d: (int, int)|
                #[trigger] origin_at(g, d.0, d.1) && before_scan(d, r as int, w as int)
                    implies before_scan(d, r + 1 as int, 0) by {}
        }
        r = r + 1;
    }
    proof {
        assert(wins_from(g, gw, h as int, 0) =~= Seq::<WinView>::empty());
        assert(wins_from(g, gw, 0, 0) =~= win_views(out@));
        assert(found == has_origin(g)) by {
            if found {
                let d = choose|d: (int, int)|
                    #[trigger] origin_at(g, d.0, d.1) && before_scan(d, h as int, 0);
                assert(origin_at(g, d.0, d.1));
            }
            if has_origin(g) {
                let d = choose|d: (int, int)| origin_at(g, d.0, d.1);
                assert(origin_at(g, d.0, d.1) && before_scan(d, h as int, 0));
            }
        }
    }
    proof {
        if found {
            let dr = choose|d: (int, int)|
                #[trigger] origin_at(g, d.0, d.1) && before_scan(d, h as int, 0) && d.0 == minr;
            assert(origin_at(g, dr.0, dr.1) && dr.0 == minr);
            let dc = choose|d: (int, int)|
                #[trigger] origin_at(g, d.0, d.1) && before_scan(d, h as int, 0) && d.1 == minc;
            assert(origin_at(g, dc.0, dc.1) && dc.1 == minc);
            assert forall|d: (int, int)| origin_at(g, d.0, d.1) implies d.0 >= minr && d.1
                >= minc by {
                assert(before_scan(d, h as int, 0));
            }
            assert(is_min_row(g, minr as int));
            assert(is_min_col(g, minc as int));
            lemma_min_row_val(g, minr as int);
            lemma_min_col_val(g, minc as int);
        }
    }
    if found && minr >= 1 && minc >= 1 {
        proof {
            let d = choose|d: (int, int)|
                #[trigger] origin_at(g, d.0, d.1) && before_scan(d, h as int, 0) && d.0 == minr;
            assert(origin_at(g, d.0, d.1));
            let d2 = choose|d: (int, int)|
                #[trigger] origin_at(g, d.0, d.1) && before_scan(d, h as int, 0) && d.1 == minc;
            assert(origin_at(g, d2.0, d2.1));
        }
        let ghost pre_out = out@;
        let win = copy_rect(src, 0, 0, minr, minc);
        out.push(win);
        proof {
            assert(win@.rows =~~= implicit_win(g).rows);
            assert(win@ == implicit_win(g));
            assert(win_views(out@) =~= win_views(pre_out) + seq![win@]);
            assert(win_views(out@) =~= extract_spec(g, gw));
        }
    } else {
        proof {
            assert(!implicit_cond(g));
            assert(win_views(out@) =~= extract_spec(g, gw));
        }
    }
    Ok(out)
}

impl ScreenBuffer {
    /// Decomposes the current screen contents into sub-windows (see
    /// `get_subwindows`).
    pub fn get_subwindows(&self) -> (res: Result<Vec<SubWindow>, ExtractError>)
        requires
            self.wf(),
        ensures
            res is Ok,
            res matches Ok(ws) ==> win_views(ws@) == extract_spec(self@.grid, self@.size.width as int),
            res matches Ok(ws) ==> forall|i: int| 0 <= i < ws@.len() ==> (#[trigger] ws@[i]).wf(),
    {
        get_subwindows(self)
    }
}

} // verus!
