//! Line extraction: turning a rectangle of cells into text lines.
//!
//! Within a row, the trailing run of blank cells (NUL or space) is
//! dropped entirely; a blank cell that is followed by later content in
//! the same row is rendered as a single space, so inner gaps keep their
//! width.

use vstd::prelude::*;

use crate::window::{CharSource, ExtractError, SubWindow};

verus! {

/// A blank cell: NUL (never written) or space.
pub open spec fn blank(c: char) -> bool {
    c == '\0' || c == ' '
}

/// The length of a row once its trailing run of blank cells is dropped.
pub open spec fn trimmed_len(s: Seq<char>) -> int
    decreases s.len(),
{
    if s.len() == 0 {
        0
    } else if blank(s.last()) {
        trimmed_len(s.drop_last())
    } else {
        s.len() as int
    }
}

/// One text line of a row: the tail of blanks dropped, every remaining
/// blank cell rendered as one space.
pub open spec fn line_of(s: Seq<char>) -> Seq<char> {
    Seq::new(
        trimmed_len(s) as nat,
        |i: int|
            if blank(s[i]) {
                ' '
            } else {
                s[i]
            },
    )
}

/// The text lines of a rectangle of rows, one per row.
pub open spec fn lines_spec(rows: Seq<Seq<char>>) -> Seq<Seq<char>> {
    Seq::new(rows.len(), |i: int| line_of(rows[i]))
}

pub proof fn lemma_trimmed_len_le(s: Seq<char>)
    ensures
        0 <= trimmed_len(s) <= s.len(),
    decreases s.len(),
{
    if s.len() > 0 && blank(s.last()) {
        lemma_trimmed_len_le(s.drop_last());
    }
}

/// The trimmed length is the unique cut: everything at or past it is
/// blank, and the cell just before it (if any) is not.
proof fn lemma_trimmed_cut(s: Seq<char>, e: int)
    requires
        0 <= e <= s.len(),
        forall|i: int| e <= i < s.len() ==> blank(#[trigger] s[i]),
        e > 0 ==> !blank(s[e - 1]),
    ensures
        trimmed_len(s) == e,
    decreases s.len(),
{
    if s.len() == 0 {
    } else if e == s.len() {
    } else {
        assert(blank(s.last()));
        lemma_trimmed_cut(s.drop_last(), e);
    }
}

/// Relies on String::push: appends exactly the one character.
#[verifier::external_body]
fn push_char(s: &mut String, c: char)
    ensures
        final(s)@ == old(s)@.push(c),
{
    s.push(c);
}

/// Builds a string holding exactly the given characters.
pub(crate) fn chars_to_string(v: &Vec<char>) -> (s: String)
    ensures
        s@ == v@,
{
    let mut s = String::new();
    let mut i: usize = 0;
    while i < v.len()
        invariant
            i <= v@.len(),
            s@ =~= v@.subrange(0, i as int),
        decreases v@.len() - i,
    {
        push_char(&mut s, v[i]);
        proof {
            assert(s@ =~= v@.subrange(0, i + 1));
        }
        i = i + 1;
    }
    proof {
        assert(v@.subrange(0, v@.len() as int) =~= v@);
    }
    s
}

/// Scans one row backwards to the end of its text.
fn trimmed_end(row: &Vec<char>) -> (e: usize)
    ensures
        e == trimmed_len(row@),
{
    let mut e = row.len();
    while e > 0 && (row[e - 1] == '\0' || row[e - 1] == ' ')
        invariant
            e <= row@.len(),
            forall|i: int| e <= i < row@.len() ==> blank(#[trigger] row@[i]),
        decreases e,
    {
        e = e - 1;
    }
    proof {
        lemma_trimmed_cut(row@, e as int);
    }
    e
}

/// The text lines of a source, as plain character rows.
pub fn lines_chars<T: CharSource>(src: &T) -> (res: Vec<Vec<char>>)
    requires
        src.src_wf(),
    ensures
        res@.len() == src.cells().len(),
        forall|i: int| 0 <= i < res@.len() ==> (#[trigger] res@[i])@ == line_of(src.cells()[i]),
{
    let ghost g = src.cells();
    proof {
        src.lemma_src_wf();
    }
    let (h, w) = src.size();
    let mut out: Vec<Vec<char>> = Vec::new();
    let mut i: usize = 0;
    while i < h
        invariant
            src.src_wf(),
            g == src.cells(),
            h == g.len(),
            w == src.src_width(),
            g.len() < usize::MAX,
            0 <= src.src_width() < usize::MAX,
            forall|rr: int| 0 <= rr < g.len() ==> (#[trigger] g[rr]).len() == src.src_width(),
            i <= h,
            out@.len() == i,
            forall|ii: int| 0 <= ii < i ==> (#[trigger] out@[ii])@ == line_of(g[ii]),
        decreases h - i,
    {
        let mut row: Vec<char> = Vec::new();
        let mut j: usize = 0;
        while j < w
            invariant
                src.src_wf(),
                g == src.cells(),
                h == g.len(),
                w == src.src_width(),
                g.len() < usize::MAX,
                0 <= src.src_width() < usize::MAX,
                forall|rr: int| 0 <= rr < g.len() ==> (#[trigger] g[rr]).len() == src.src_width(),
                i < h,
                j <= w,
                row@.len() == j,
                forall|jj: int| 0 <= jj < j ==> row@[jj] == g[i as int][jj],
            decreases w - j,
        {
            let ch = match src.char_at(i + 1, j + 1) {
                Ok(ch) => ch,
                Err(e) => {
                    proof {
                        assert(false);
                    }
                    '\0'
                },
            };
            row.push(ch);
            j = j + 1;
        }
        proof {
            assert(row@ =~= g[i as int]);
        }
        let e = trimmed_end(&row);
        let mut line: Vec<char> = Vec::new();
        let mut j2: usize = 0;
        proof {
            lemma_trimmed_len_le(row@);
        }
        while j2 < e
            invariant
                e == trimmed_len(row@),
                0 <= trimmed_len(row@) <= row@.len(),
                j2 <= e,
                line@.len() == j2,
                forall|jj: int| 0 <= jj < j2 ==> line@[jj] == line_of(row@)[jj],
            decreases e - j2,
        {
            let ch = row[j2];
            if ch == '\0' || ch == ' ' {
                line.push(' ');
            } else {
                line.push(ch);
            }
            j2 = j2 + 1;
        }
        proof {
            assert(line@ =~= line_of(g[i as int]));
        }
        out.push(line);
        i = i + 1;
    }
    out
}

/// Converts rows 1 through height of a character source into one text
/// line per row (see `lines_spec`).  It never fails on a well-formed
/// source; the `Result` mirrors the fallible read interface underneath.
pub fn extract_lines<T: CharSource>(src: &T) -> (res: Result<Vec<String>, ExtractError>)
    requires
        src.src_wf(),
    ensures
        res is Ok,
        res matches Ok(lines) ==> lines@.len() == lines_spec(src.cells()).len() && forall|i: int|
            0 <= i < lines@.len() ==> (#[trigger] lines@[i])@ == lines_spec(src.cells())[i],
{
    let rows = lines_chars(src);
    let mut out: Vec<String> = Vec::new();
    let mut i: usize = 0;
    while i < rows.len()
        invariant
            rows@.len() == src.cells().len(),
            forall|ii: int| 0 <= ii < rows@.len() ==> (#[trigger] rows@[ii])@ == line_of(
                src.cells()[ii],
            ),
            i <= rows@.len(),
            out@.len() == i,
            forall|ii: int| 0 <= ii < i ==> (#[trigger] out@[ii])@ == lines_spec(src.cells())[ii],
        decreases rows@.len() - i,
    {
        let s = chars_to_string(&rows[i]);
        out.push(s);
        i = i + 1;
    }
    Ok(out)
}

impl SubWindow {
    /// The window's text lines (see `lines_spec`).  The result is a pure
    /// function of the window, so repeated calls return identical output.
    pub fn get_lines(&self) -> (res: Result<Vec<String>, ExtractError>)
        requires
            self.wf(),
        ensures
            res is Ok,
            res matches Ok(lines) ==> lines@.len() == lines_spec(self@.rows).len() && forall|
                i: int,
            | 0 <= i < lines@.len() ==> (#[trigger] lines@[i])@ == lines_spec(self@.rows)[i],
    {
        extract_lines(self)
    }
}

} // verus!
