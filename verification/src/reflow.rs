//! Re-wrapping grid content to a new width: soft-wrapped rows are joined into
//! logical lines, which are split again at the new width.

use vstd::prelude::*;

use crate::cell::{blank_cell, Cell};
use crate::grid::{blanks, Row};

verus! {

/// `s` without its trailing space cells.
pub open spec fn trim_blank(s: Seq<Cell>) -> Seq<Cell>
    decreases s.len(),
{
    if s.len() > 0 && s.last().c == ' ' {
        trim_blank(s.drop_last())
    } else {
        s
    }
}

/// The logical lines ended so far, and the line still open, after reading
/// `rows` top to bottom: each row's cells extend the open line, and a row that
/// does not soft-wrap ends it, less its trailing spaces.
pub open spec fn unwrap_state(rows: Seq<Row>) -> (Seq<Seq<Cell>>, Seq<Cell>)
    decreases rows.len(),
{
    if rows.len() == 0 {
        (Seq::empty(), Seq::empty())
    } else {
        let (lines, cur) = unwrap_state(rows.drop_last());
        let r = rows.last();
        let cur2 = cur + r.spec_cells();
        if !r.spec_wrapped() {
            (lines.push(trim_blank(cur2)), Seq::empty())
        } else {
            (lines, cur2)
        }
    }
}

/// The logical lines of `rows`; a line still open at the bottom is kept if it
/// has cells.
pub open spec fn logical_lines(rows: Seq<Row>) -> Seq<Seq<Cell>> {
    let (lines, cur) = unwrap_state(rows);
    if cur.len() > 0 {
        lines.push(cur)
    } else {
        lines
    }
}

/// The logical line of the cursor and its offset in that line; a cursor below
/// the rows counts as the start of the first line.
pub open spec fn cursor_origin(rows: Seq<Row>, cr: int, cc: int) -> (int, int) {
    if 0 <= cr < rows.len() {
        let (lines, cur) = unwrap_state(rows.take(cr));
        (lines.len() as int, cur.len() + cc)
    } else {
        (0, 0)
    }
}

/// The total number of cells in `rows`.
pub open spec fn total_len(rows: Seq<Row>) -> int
    decreases rows.len(),
{
    if rows.len() == 0 {
        0
    } else {
        total_len(rows.drop_last()) + rows.last().spec_cells().len()
    }
}

/// `s` padded with blanks to width `n`.
pub open spec fn pad(s: Seq<Cell>, n: nat) -> Seq<Cell> {
    s + blanks((n - s.len()) as nat)
}

/// The rows (cells and soft-wrap flag) of one logical line at width `nc`:
/// chunks of `nc` cells, each but the last soft-wrapped; an empty line is one
/// blank row.
pub open spec fn chunks(line: Seq<Cell>, nc: nat) -> Seq<(Seq<Cell>, bool)>
    decreases line.len(),
{
    if line.len() <= nc {
        seq![(pad(line, nc), false)]
    } else if nc == 0 {
        Seq::empty()
    } else {
        seq![(line.take(nc as int), true)] + chunks(line.skip(nc as int), nc)
    }
}

/// The rows of a sequence of logical lines at width `nc`.
pub open spec fn rewrap(lines: Seq<Seq<Cell>>, nc: nat) -> Seq<(Seq<Cell>, bool)>
    decreases lines.len(),
{
    if lines.len() == 0 {
        Seq::empty()
    } else {
        rewrap(lines.drop_last(), nc) + chunks(lines.last(), nc)
    }
}

/// `n - 1`, or 0 for 0.
pub open spec fn sat_dec(n: int) -> int {
    if n >= 1 {
        n - 1
    } else {
        0
    }
}

/// `a - b`, or 0 when that is negative.
pub open spec fn sat_sub(a: int, b: int) -> int {
    if a >= b {
        a - b
    } else {
        0
    }
}

pub open spec fn min_int(a: int, b: int) -> int {
    if a <= b {
        a
    } else {
        b
    }
}

/// Where offset `off` of a line of `len` cells lands among its rows at width
/// `nc`: the row and column of the cell, or past the end of the line, the
/// last row with the column clamped to the width.
pub open spec fn cursor_in_chunks(len: int, off: int, nc: int) -> (int, int)
    decreases len,
{
    if len <= nc {
        if off < len {
            (0, off)
        } else {
            (0, min_int(off, sat_dec(nc)))
        }
    } else if nc <= 0 {
        (0, 0)
    } else if off < nc {
        (0, off)
    } else {
        let (r, c) = cursor_in_chunks(len - nc, off - nc, nc);
        (r + 1, c)
    }
}

/// The cursor after re-wrapping: row and column for offset `off` of line `cl`.
pub open spec fn rewrapped_cursor(lines: Seq<Seq<Cell>>, nc: nat, cl: int, off: int) -> (int, int) {
    if 0 <= cl < lines.len() {
        let (r, c) = cursor_in_chunks(lines[cl].len() as int, off, nc as int);
        (rewrap(lines.take(cl), nc).len() + r, c)
    } else {
        (0, 0)
    }
}

/// The first of `n` rows kept when only `new_rows` fit: the cursor is kept in
/// the lower third of the screen where the content allows.
pub open spec fn window_start(n: int, cur: int, new_rows: int) -> int {
    let ideal = sat_sub(cur, sat_sub(new_rows, new_rows / 3));
    min_int(ideal, sat_sub(n, new_rows))
}

/// `k` blank unwrapped rows of width `nc`.
pub open spec fn fresh_rows(k: nat, nc: nat) -> Seq<(Seq<Cell>, bool)> {
    Seq::new(k, |i: int| (blanks(nc), false))
}

/// The rows after re-wrapping to `nc` columns and fitting to `new_rows` rows,
/// with the cursor's row and column (before clamping to the screen).
pub open spec fn reflowed(rows: Seq<Row>, new_rows: nat, nc: nat, cr: int, cc: int) -> (Seq<(Seq<Cell>, bool)>, int, int) {
    let lines = logical_lines(rows);
    let (cl, off) = cursor_origin(rows, cr, cc);
    let out = rewrap(lines, nc);
    let (cur_r, cur_c) = rewrapped_cursor(lines, nc, cl, off);
    if out.len() < new_rows {
        (out + fresh_rows((new_rows - out.len()) as nat, nc), cur_r, cur_c)
    } else if out.len() > new_rows {
        let s = window_start(out.len() as int, cur_r, new_rows as int);
        (out.subrange(s, s + new_rows), sat_sub(cur_r, s), cur_c)
    } else {
        (out, cur_r, cur_c)
    }
}

/// The cells and soft-wrap flag of each row.
pub open spec fn row_views(rows: Seq<Row>) -> Seq<(Seq<Cell>, bool)> {
    Seq::new(rows.len(), |i: int| (rows[i].spec_cells(), rows[i].spec_wrapped()))
}

/// Every row is dirty.
pub open spec fn all_dirty(rows: Seq<Row>) -> bool {
    forall|i: int| 0 <= i < rows.len() ==> #[trigger] rows[i].spec_dirty()
}

/// The views of nested vectors of cells.
pub open spec fn lines_view(v: Seq<Vec<Cell>>) -> Seq<Seq<Cell>> {
    Seq::new(v.len(), |i: int| v[i]@)
}

/// Every logical line has no cells.
pub open spec fn all_empty(lines: Seq<Seq<Cell>>) -> bool {
    forall|i: int| 0 <= i < lines.len() ==> #[trigger] lines[i].len() == 0
}

proof fn lemma_unwrap_bound(rows: Seq<Row>)
    ensures
        unwrap_state(rows).1.len() <= total_len(rows),
        forall|i: int| 0 <= i < unwrap_state(rows).0.len() ==> #[trigger] unwrap_state(rows).0[i].len() <= total_len(rows),
        total_len(rows) >= 0,
    decreases rows.len(),
{
    if rows.len() > 0 {
        lemma_unwrap_bound(rows.drop_last());
        let (lines, cur) = unwrap_state(rows.drop_last());
        let cur2 = cur + rows.last().spec_cells();
        lemma_trim_blank_len(cur2);
    }
}

proof fn lemma_trim_blank_len(s: Seq<Cell>)
    ensures
        trim_blank(s).len() <= s.len(),
    decreases s.len(),
{
    if s.len() > 0 && s.last().c == ' ' {
        lemma_trim_blank_len(s.drop_last());
    }
}

proof fn lemma_total_len_prefix(rows: Seq<Row>, i: int)
    requires
        0 <= i <= rows.len(),
    ensures
        total_len(rows.take(i)) <= total_len(rows),
    decreases rows.len() - i,
{
    if i < rows.len() {
        lemma_total_len_prefix(rows, i + 1);
        assert(rows.take(i + 1).drop_last() =~= rows.take(i));
    } else {
        assert(rows.take(i) =~= rows);
    }
}

/// Every logical line is no longer than the grid has cells.
pub proof fn lemma_logical_bound(rows: Seq<Row>)
    ensures
        forall|i: int| 0 <= i < logical_lines(rows).len() ==> #[trigger] logical_lines(rows)[i].len() <= total_len(rows),
{
    lemma_unwrap_bound(rows);
}

/// Every row of re-wrapped lines is `nc` cells wide.
pub proof fn lemma_rewrap_width(lines: Seq<Seq<Cell>>, nc: nat)
    requires
        nc > 0 || all_empty(lines),
    ensures
        forall|i: int| 0 <= i < rewrap(lines, nc).len() ==> #[trigger] rewrap(lines, nc)[i].0.len() == nc,
    decreases lines.len(),
{
    if lines.len() > 0 {
        lemma_rewrap_width(lines.drop_last(), nc);
        lemma_chunks_width(lines.last(), nc);
        let a = rewrap(lines.drop_last(), nc);
        let b = chunks(lines.last(), nc);
        assert forall|i: int| 0 <= i < rewrap(lines, nc).len() implies #[trigger] rewrap(lines, nc)[i].0.len() == nc by {
            if i < a.len() {
                assert(rewrap(lines, nc)[i] == a[i]);
            } else {
                assert(rewrap(lines, nc)[i] == b[i - a.len()]);
            }
        }
    }
}

proof fn lemma_chunks_width(line: Seq<Cell>, nc: nat)
    requires
        nc > 0 || line.len() == 0,
    ensures
        forall|i: int| 0 <= i < chunks(line, nc).len() ==> #[trigger] chunks(line, nc)[i].0.len() == nc,
    decreases line.len(),
{
    if line.len() <= nc {
        assert(chunks(line, nc)[0].0 =~= pad(line, nc));
    } else if nc > 0 {
        lemma_chunks_width(line.skip(nc as int), nc);
        let b = chunks(line.skip(nc as int), nc);
        assert forall|i: int| 0 <= i < chunks(line, nc).len() implies #[trigger] chunks(line, nc)[i].0.len() == nc by {
            if i > 0 {
                assert(chunks(line, nc)[i] == b[i - 1]);
            }
        }
    }
}

/// Join soft-wrapped rows into logical lines, and find the cursor's line and
/// offset in it.
pub fn unwrap_lines(rows: &Vec<Row>, cursor_row: usize, cursor_col: usize) -> (r: (Vec<Vec<Cell>>, usize, usize))
    requires
        cursor_col + total_len(rows@) <= usize::MAX,
    ensures
        lines_view(r.0@) == logical_lines(rows@),
        (r.1 as int, r.2 as int) == cursor_origin(rows@, cursor_row as int, cursor_col as int),
{
    let mut lines: Vec<Vec<Cell>> = Vec::new();
    let mut current: Vec<Cell> = Vec::new();
    let mut cl: usize = 0;
    let mut off: usize = 0;
    let mut i: usize = 0;
    proof {
        assert(rows@.take(0) =~= Seq::<Row>::empty());
        assert(lines_view(lines@) =~= Seq::<Seq<Cell>>::empty());
    }
    while i < rows.len()
        invariant
            i <= rows@.len(),
            cursor_col + total_len(rows@) <= usize::MAX,
            lines_view(lines@) == unwrap_state(rows@.take(i as int)).0,
            current@ == unwrap_state(rows@.take(i as int)).1,
            (cursor_row < i) ==> (cl as int, off as int) == cursor_origin(rows@, cursor_row as int, cursor_col as int),
            (cursor_row >= i) ==> cl == 0 && off == 0,
        decreases rows@.len() - i,
    {
        proof {
            lemma_unwrap_bound(rows@.take(i as int));
            lemma_total_len_prefix(rows@, i as int);
            lemma_total_len_prefix(rows@, i + 1);
            assert(rows@.take(i + 1).drop_last() =~= rows@.take(i as int));
        }
        let start_offset = current.len();
        let cells = rows[i].iter();
        let ghost cur0 = current@;
        let mut k: usize = 0;
        while k < cells.len()
            invariant
                k <= cells@.len(),
                current@ == cur0 + cells@.take(k as int),
            decreases cells@.len() - k,
        {
            current.push(cells[k]);
            k = k + 1;
            assert(current@ =~= cur0 + cells@.take(k as int));
        }
        assert(cells@.take(k as int) =~= cells@);
        if i == cursor_row {
            cl = lines.len();
            off = start_offset + cursor_col;
        }
        if !rows[i].is_wrapped() {
            let ghost cur2 = current@;
            while current.len() > 0 && current[current.len() - 1].c == ' '
                invariant
                    trim_blank(current@) == trim_blank(cur2),
                decreases current@.len(),
            {
                let ghost before = current@;
                current.pop();
                assert(before.drop_last() =~= current@);
            }
            assert(trim_blank(current@) == current@);
            let ghost lv = lines_view(lines@);
            lines.push(current);
            current = Vec::new();
            assert(lines_view(lines@) =~= lv.push(trim_blank(cur2)));
        }
        i = i + 1;
    }
    assert(rows@.take(i as int) =~= rows@);
    if current.len() > 0 {
        let ghost lv = lines_view(lines@);
        let ghost cur = current@;
        lines.push(current);
        assert(lines_view(lines@) =~= lv.push(cur));
    }
    (lines, cl, off)
}

/// Append the rows of one logical line at width `nc`; for the cursor's line,
/// return where offset `cursor` lands (row index in `out`, column).
pub fn wrap_line(out: &mut Vec<Row>, line: &Vec<Cell>, nc: usize, cursor: Option<usize>) -> (r: Option<(usize, usize)>)
    requires
        nc > 0 || line@.len() == 0,
        nc + line@.len() <= usize::MAX,
        all_dirty(old(out)@),
    ensures
        row_views(final(out)@) == row_views(old(out)@) + chunks(line@, nc as nat),
        all_dirty(final(out)@),
        cursor is None ==> r is None,
        cursor matches Some(off) ==> r matches Some(p) && p.0 as int == old(out)@.len() + cursor_in_chunks(
            line@.len() as int,
            off as int,
            nc as int,
        ).0 && p.1 as int == cursor_in_chunks(line@.len() as int, off as int, nc as int).1,
{
    let ghost base = row_views(out@);
    let ghost n0 = out@.len();
    let len = line.len();
    let start_len = out.len();
    if len == 0 {
        let row = Row::new(nc);
        out.push(row);
        assert(pad(line@, nc as nat) =~= blanks(nc as nat));
        assert(row_views(out@) =~= base + chunks(line@, nc as nat));
        return match cursor {
            Some(c) => {
                let col = if nc >= 1 && c > nc - 1 {
                    nc - 1
                } else if nc >= 1 {
                    c
                } else {
                    0
                };
                Some((start_len, col))
            },
            None => None,
        };
    }
    let mut offset: usize = 0;
    let mut found: Option<(usize, usize)> = None;
    assert(line@.skip(0) =~= line@);
    while offset < len
        invariant
            nc > 0,
            len == line@.len(),
            nc + len <= usize::MAX,
            offset <= len,
            offset < len ==> base + chunks(line@, nc as nat) == row_views(out@) + chunks(line@.skip(offset as int), nc as nat),
            offset == len ==> base + chunks(line@, nc as nat) == row_views(out@),
            all_dirty(out@),
            out@.len() >= n0,
            cursor is None ==> found is None,
            cursor matches Some(off) ==> {
                &&& offset < len && found is None ==> off >= offset && n0 + cursor_in_chunks(len as int, off as int, nc as int).0
                    == out@.len() + cursor_in_chunks((len - offset) as int, (off - offset) as int, nc as int).0
                    && cursor_in_chunks(len as int, off as int, nc as int).1 == cursor_in_chunks((len - offset) as int, (off - offset) as int, nc as int).1
                &&& found matches Some(p) ==> p.0 as int == n0 + cursor_in_chunks(len as int, off as int, nc as int).0
                    && p.1 as int == cursor_in_chunks(len as int, off as int, nc as int).1
                &&& offset == len ==> found is Some
            },
        decreases len - offset,
    {
        let rest = len - offset;
        let chunk_end = if offset + nc < len {
            offset + nc
        } else {
            len
        };
        let mut row = Row::new(nc);
        let mut i: usize = offset;
        while i < chunk_end
            invariant
                offset <= i <= chunk_end,
                chunk_end <= len,
                chunk_end - offset <= nc,
                len == line@.len(),
                row.spec_cells() == line@.subrange(offset as int, i as int) + blanks((nc - (i - offset)) as nat),
                row.spec_dirty(),
                !row.spec_wrapped(),
            decreases chunk_end - i,
        {
            row.set(i - offset, line[i]);
            i = i + 1;
            assert(row.spec_cells() =~= line@.subrange(offset as int, i as int) + blanks((nc - (i - offset)) as nat));
        }
        if chunk_end < len {
            row.set_wrapped(true);
        }
        if found.is_none() {
            match cursor {
                Some(c) => {
                    if c >= offset && c < chunk_end {
                        found = Some((out.len(), c - offset));
                    } else if chunk_end >= len && c >= offset {
                        let d = c - offset;
                        found = Some((out.len(), if d < nc - 1 { d } else { nc - 1 }));
                    }
                },
                None => {},
            }
        }
        let ghost before = row_views(out@);
        out.push(row);
        proof {
            let s = line@.skip(offset as int);
            assert(row_views(out@) =~= before.push((row.spec_cells(), row.spec_wrapped())));
            if chunk_end < len {
                assert(line@.subrange(offset as int, chunk_end as int) =~= s.take(nc as int));
                assert(row.spec_cells() =~= s.take(nc as int));
                assert(s.skip(nc as int) =~= line@.skip(chunk_end as int));
                assert(chunks(s, nc as nat) == seq![(s.take(nc as int), true)] + chunks(s.skip(nc as int), nc as nat));
                assert(row_views(out@) + chunks(line@.skip(chunk_end as int), nc as nat) =~= before + chunks(s, nc as nat));
            } else {
                assert(line@.subrange(offset as int, chunk_end as int) =~= s);
                assert(row.spec_cells() =~= pad(s, nc as nat));
                assert(row_views(out@) =~= before + chunks(s, nc as nat));
            }
        }
        offset = chunk_end;
    }
    found
}

/// The rows of all logical lines at width `nc`, and where the cursor (offset
/// `off` of line `cl`) lands.
pub fn rewrap_lines(lines: &Vec<Vec<Cell>>, nc: usize, cl: usize, off: usize) -> (r: (Vec<Row>, usize, usize))
    requires
        nc > 0 || all_empty(lines_view(lines@)),
        forall|i: int| 0 <= i < lines@.len() ==> nc + #[trigger] lines@[i]@.len() <= usize::MAX,
    ensures
        row_views(r.0@) == rewrap(lines_view(lines@), nc as nat),
        all_dirty(r.0@),
        (r.1 as int, r.2 as int) == rewrapped_cursor(lines_view(lines@), nc as nat, cl as int, off as int),
{
    let ghost lv = lines_view(lines@);
    let mut out: Vec<Row> = Vec::new();
    let mut cur_r: usize = 0;
    let mut cur_c: usize = 0;
    let mut i: usize = 0;
    assert(row_views(out@) =~= rewrap(lv.take(0), nc as nat));
    while i < lines.len()
        invariant
            i <= lines@.len(),
            lv == lines_view(lines@),
            nc > 0 || all_empty(lv),
            forall|k: int| 0 <= k < lines@.len() ==> nc + #[trigger] lines@[k]@.len() <= usize::MAX,
            row_views(out@) == rewrap(lv.take(i as int), nc as nat),
            all_dirty(out@),
            cl < i ==> (cur_r as int, cur_c as int) == rewrapped_cursor(lv, nc as nat, cl as int, off as int),
            cl >= i ==> cur_r == 0 && cur_c == 0,
        decreases lines@.len() - i,
    {
        let ghost before = row_views(out@);
        assert(lv[i as int] == lines@[i as int]@);
        let cursor = if i == cl {
            Some(off)
        } else {
            None
        };
        let found = wrap_line(&mut out, &lines[i], nc, cursor);
        proof {
            assert(lv.take(i + 1).drop_last() =~= lv.take(i as int));
            assert(lv.take(i + 1).last() == lv[i as int]);
        }
        match found {
            Some(p) => {
                cur_r = p.0;
                cur_c = p.1;
            },
            None => {},
        }
        i = i + 1;
    }
    assert(lv.take(i as int) =~= lv);
    (out, cur_r, cur_c)
}

/// Pad `out` with blank rows to `new_rows`, or keep a window of `new_rows`
/// rows around the cursor row `cur_r`; returns the cursor row in the result.
pub fn fit_rows(out: &mut Vec<Row>, new_rows: usize, nc: usize, cur_r: usize) -> (r: usize)
    requires
        all_dirty(old(out)@),
    ensures
        all_dirty(final(out)@),
        final(out)@.len() == new_rows,
        old(out)@.len() < new_rows ==> row_views(final(out)@) == row_views(old(out)@) + fresh_rows(
            (new_rows - old(out)@.len()) as nat,
            nc as nat,
        ) && r == cur_r,
        old(out)@.len() > new_rows ==> ({
            let s = window_start(old(out)@.len() as int, cur_r as int, new_rows as int);
            row_views(final(out)@) == row_views(old(out)@).subrange(s, s + new_rows) && r == sat_sub(cur_r as int, s)
        }),
        old(out)@.len() == new_rows ==> final(out)@ == old(out)@ && r == cur_r,
        forall|i: int| 0 <= i < final(out)@.len() ==> (exists|j: int| 0 <= j < old(out)@.len() && #[trigger] final(out)@[i] == old(out)@[j])
            || final(out)@[i].spec_cells() == blanks(nc as nat),
{
    let ghost rv = row_views(out@);
    let ghost o = out@;
    let n0 = out.len();
    if n0 < new_rows {
        while out.len() < new_rows
            invariant
                n0 <= out@.len() <= new_rows,
                n0 == rv.len(),
                n0 == o.len(),
                out@.subrange(0, n0 as int) == o,
                row_views(out@) == rv + fresh_rows((out@.len() - n0) as nat, nc as nat),
                forall|i: int| n0 <= i < out@.len() ==> #[trigger] out@[i].spec_cells() == blanks(nc as nat),
                all_dirty(out@),
            decreases new_rows - out@.len(),
        {
            let ghost before = row_views(out@);
            let row = Row::new(nc);
            out.push(row);
            assert(row_views(out@) =~= before.push((blanks(nc as nat), false)));
            assert(row_views(out@) =~= rv + fresh_rows((out@.len() - n0) as nat, nc as nat));
            assert(out@.subrange(0, n0 as int) =~= o);
        }
        proof {
            assert forall|i: int| 0 <= i < out@.len() implies (exists|j: int| 0 <= j < o.len() && #[trigger] out@[i] == o[j])
                || out@[i].spec_cells() == blanks(nc as nat) by {
                if i < n0 {
                    assert(out@[i] == out@.subrange(0, n0 as int)[i]);
                }
            }
        }
        cur_r
    } else if n0 > new_rows {
        let target = new_rows / 3;
        let keep_above = if new_rows >= target {
            new_rows - target
        } else {
            0
        };
        let ideal = if cur_r >= keep_above {
            cur_r - keep_above
        } else {
            0
        };
        let max_start = n0 - new_rows;
        let start = if ideal < max_start {
            ideal
        } else {
            max_start
        };
        out.truncate(start + new_rows);
        let tail = out.split_off(start);
        *out = tail;
        assert(out@ =~= o.subrange(start as int, start + new_rows));
        assert(row_views(out@) =~= rv.subrange(start as int, start + new_rows));
        proof {
            assert forall|i: int| 0 <= i < out@.len() implies (exists|j: int| 0 <= j < o.len() && #[trigger] out@[i] == o[j])
                || out@[i].spec_cells() == blanks(nc as nat) by {
                assert(out@[i] == o[start + i]);
            }
        }
        if cur_r >= start {
            cur_r - start
        } else {
            0
        }
    } else {
        proof {
            assert forall|i: int| 0 <= i < out@.len() implies (exists|j: int| 0 <= j < o.len() && #[trigger] out@[i] == o[j])
                || out@[i].spec_cells() == blanks(nc as nat) by {
                assert(out@[i] == o[i]);
            }
        }
        cur_r
    }
}

/// Re-wrap `rows` to `nc` columns and fit the result to `new_rows` rows;
/// returns the rows and the cursor's row and column before clamping.
pub fn reflow_rows(rows: &Vec<Row>, new_rows: usize, nc: usize, cursor_row: usize, cursor_col: usize) -> (r: (Vec<Row>, usize, usize))
    requires
        cursor_col + total_len(rows@) <= usize::MAX,
        nc + total_len(rows@) <= usize::MAX,
        nc > 0 || all_empty(logical_lines(rows@)),
    ensures
        row_views(r.0@) == reflowed(rows@, new_rows as nat, nc as nat, cursor_row as int, cursor_col as int).0,
        r.1 as int == reflowed(rows@, new_rows as nat, nc as nat, cursor_row as int, cursor_col as int).1,
        r.2 as int == reflowed(rows@, new_rows as nat, nc as nat, cursor_row as int, cursor_col as int).2,
        all_dirty(r.0@),
        r.0@.len() == new_rows,
        forall|i: int| 0 <= i < r.0@.len() ==> #[trigger] r.0@[i].spec_cells().len() == nc,
{
    proof {
        lemma_logical_bound(rows@);
    }
    let (lines, cl, off) = unwrap_lines(rows, cursor_row, cursor_col);
    proof {
        assert forall|i: int| 0 <= i < lines@.len() implies nc + #[trigger] lines@[i]@.len() <= usize::MAX by {
            assert(lines_view(lines@)[i] == lines@[i]@);
        }
    }
    let (mut out, cur_r, cur_c) = rewrap_lines(&lines, nc, cl, off);
    proof {
        lemma_rewrap_width(lines_view(lines@), nc as nat);
    }
    let ghost o = out@;
    let r = fit_rows(&mut out, new_rows, nc, cur_r);
    proof {
        assert forall|i: int| 0 <= i < out@.len() implies #[trigger] out@[i].spec_cells().len() == nc by {
            if out@[i].spec_cells() != blanks(nc as nat) {
                let j = choose|j: int| 0 <= j < o.len() && out@[i] == o[j];
                assert(row_views(o)[j].0 == o[j].spec_cells());
            }
        }
    }
    (out, r, cur_c)
}

/// Reading rows (cells and soft-wrap flag) from state `st`, as the grid's
/// logical lines are read: each row extends the open line, and a row that
/// does not soft-wrap ends it, less its trailing spaces.
pub open spec fn read_views(st: (Seq<Seq<Cell>>, Seq<Cell>), views: Seq<(Seq<Cell>, bool)>) -> (
    Seq<Seq<Cell>>,
    Seq<Cell>,
)
    decreases views.len(),
{
    if views.len() == 0 {
        st
    } else {
        let (lines, cur) = read_views(st, views.drop_last());
        let v = views.last();
        let cur2 = cur + v.0;
        if !v.1 {
            (lines.push(trim_blank(cur2)), Seq::empty())
        } else {
            (lines, cur2)
        }
    }
}

proof fn lemma_read_concat(
    st: (Seq<Seq<Cell>>, Seq<Cell>),
    a: Seq<(Seq<Cell>, bool)>,
    b: Seq<(Seq<Cell>, bool)>,
)
    ensures
        read_views(st, a + b) == read_views(read_views(st, a), b),
    decreases b.len(),
{
    if b.len() == 0 {
        assert(a + b =~= a);
    } else {
        lemma_read_concat(st, a, b.drop_last());
        assert((a + b).drop_last() =~= a + b.drop_last());
        assert((a + b).last() == b.last());
    }
}

proof fn lemma_trim_blanks(s: Seq<Cell>, k: nat)
    ensures
        trim_blank(s + blanks(k)) == trim_blank(s),
    decreases k,
{
    if k == 0 {
        assert(s + blanks(0) =~= s);
    } else {
        let t = s + blanks(k);
        assert(t.last() == blank_cell());
        assert(t.drop_last() =~= s + blanks((k - 1) as nat));
        lemma_trim_blanks(s, (k - 1) as nat);
    }
}

proof fn lemma_read_chunks(done: Seq<Seq<Cell>>, cur: Seq<Cell>, line: Seq<Cell>, nc: nat)
    requires
        nc > 0,
    ensures
        read_views((done, cur), chunks(line, nc)) == (done.push(trim_blank(cur + line)), Seq::<Cell>::empty()),
    decreases line.len(),
{
    if line.len() <= nc {
        let c = chunks(line, nc);
        assert(c.drop_last() =~= Seq::<(Seq<Cell>, bool)>::empty());
        assert(read_views((done, cur), c.drop_last()) == (done, cur));
        assert(c.last() == (pad(line, nc), false));
        assert(cur + pad(line, nc) =~= (cur + line) + blanks((nc - line.len()) as nat));
        lemma_trim_blanks(cur + line, (nc - line.len()) as nat);
    } else {
        let first = seq![(line.take(nc as int), true)];
        let rest = chunks(line.skip(nc as int), nc);
        assert(chunks(line, nc) == first + rest);
        lemma_read_concat((done, cur), first, rest);
        assert(first.drop_last() =~= Seq::<(Seq<Cell>, bool)>::empty());
        assert(read_views((done, cur), first.drop_last()) == (done, cur));
        assert(first.last() == (line.take(nc as int), true));
        assert(read_views((done, cur), first) == (done, cur + line.take(nc as int)));
        lemma_read_chunks(done, cur + line.take(nc as int), line.skip(nc as int), nc);
        assert(cur + line.take(nc as int) + line.skip(nc as int) =~= cur + line);
    }
}

/// Re-wrapping loses no text: reading the re-wrapped rows back joins each
/// line's pieces into the line again, for lines without trailing spaces and
/// a width above zero.
pub proof fn law_rewrap_keeps_lines(lines: Seq<Seq<Cell>>, nc: nat)
    requires
        nc > 0,
        forall|i: int| 0 <= i < lines.len() ==> #[trigger] trim_blank(lines[i]) == lines[i],
    ensures
        read_views((Seq::empty(), Seq::empty()), rewrap(lines, nc)) == (lines, Seq::<Cell>::empty()),
    decreases lines.len(),
{
    if lines.len() == 0 {
        assert(lines =~= Seq::<Seq<Cell>>::empty());
    } else {
        let init = lines.drop_last();
        assert forall|i: int| 0 <= i < init.len() implies #[trigger] trim_blank(init[i]) == init[i] by {
            assert(init[i] == lines[i]);
        }
        law_rewrap_keeps_lines(init, nc);
        lemma_read_concat((Seq::empty(), Seq::empty()), rewrap(init, nc), chunks(lines.last(), nc));
        lemma_read_chunks(init, Seq::empty(), lines.last(), nc);
        assert(Seq::<Cell>::empty() + lines.last() =~= lines.last());
        assert(trim_blank(lines[lines.len() - 1]) == lines[lines.len() - 1]);
        assert(init.push(lines.last()) =~= lines);
    }
}

/// The grid's logical-line reading is the reading of its rows' cells and
/// soft-wrap flags.
pub proof fn lemma_read_rows(rows: Seq<Row>)
    ensures
        read_views((Seq::empty(), Seq::empty()), row_views(rows)) == unwrap_state(rows),
    decreases rows.len(),
{
    if rows.len() > 0 {
        lemma_read_rows(rows.drop_last());
        assert(row_views(rows).drop_last() =~= row_views(rows.drop_last()));
    }
}

proof fn lemma_trim_blank_idem(s: Seq<Cell>)
    ensures
        trim_blank(trim_blank(s)) == trim_blank(s),
    decreases s.len(),
{
    if s.len() > 0 && s.last().c == ' ' {
        lemma_trim_blank_idem(s.drop_last());
    }
}

/// Every line ended while reading rows has lost its trailing spaces.
proof fn lemma_lines_trimmed(rows: Seq<Row>)
    ensures
        forall|i: int| 0 <= i < unwrap_state(rows).0.len() ==> #[trigger] trim_blank(unwrap_state(rows).0[i])
            == unwrap_state(rows).0[i],
    decreases rows.len(),
{
    if rows.len() > 0 {
        lemma_lines_trimmed(rows.drop_last());
        let (lines, cur) = unwrap_state(rows.drop_last());
        let cur2 = cur + rows.last().spec_cells();
        lemma_trim_blank_idem(cur2);
    }
}

/// Reading `k` fresh rows ends `k` empty lines.
proof fn lemma_read_fresh(done: Seq<Seq<Cell>>, k: nat, nc: nat)
    ensures
        read_views((done, Seq::empty()), fresh_rows(k, nc)) == (
            done + Seq::new(k, |i: int| Seq::<Cell>::empty()),
            Seq::<Cell>::empty(),
        ),
    decreases k,
{
    if k == 0 {
        assert(fresh_rows(0, nc) =~= Seq::<(Seq<Cell>, bool)>::empty());
        assert(done + Seq::new(0, |i: int| Seq::<Cell>::empty()) =~= done);
    } else {
        lemma_read_fresh(done, (k - 1) as nat, nc);
        assert(fresh_rows(k, nc).drop_last() =~= fresh_rows((k - 1) as nat, nc));
        lemma_trim_blanks(Seq::empty(), nc);
        assert(Seq::<Cell>::empty() + blanks(nc) =~= blanks(nc));
        assert((done + Seq::new((k - 1) as nat, |i: int| Seq::<Cell>::empty())).push(Seq::<Cell>::empty())
            =~= done + Seq::new(k, |i: int| Seq::<Cell>::empty()));
    }
}

/// In the rows of re-wrapped lines, a soft-wrapped row is full and is
/// followed by another row.
pub open spec fn wraps_full(v: Seq<(Seq<Cell>, bool)>, nc: nat) -> bool {
    forall|i: int| 0 <= i < v.len() && (#[trigger] v[i]).1 ==> v[i].0.len() == nc && i + 1 < v.len()
}

proof fn lemma_chunks_wrap_full(line: Seq<Cell>, nc: nat)
    requires
        nc > 0,
    ensures
        wraps_full(chunks(line, nc), nc),
        chunks(line, nc).len() > 0,
        !chunks(line, nc).last().1,
    decreases line.len(),
{
    if line.len() > nc {
        lemma_chunks_wrap_full(line.skip(nc as int), nc);
        let rest = chunks(line.skip(nc as int), nc);
        let c = chunks(line, nc);
        assert(c == seq![(line.take(nc as int), true)] + rest);
        assert forall|i: int| 0 <= i < c.len() && (#[trigger] c[i]).1 implies c[i].0.len() == nc && i + 1 < c.len() by {
            if i > 0 {
                assert(c[i] == rest[i - 1]);
            }
        }
        assert(c.last() == rest.last());
    }
}

proof fn lemma_rewrap_wrap_full(lines: Seq<Seq<Cell>>, nc: nat)
    requires
        nc > 0,
    ensures
        wraps_full(rewrap(lines, nc), nc),
        rewrap(lines, nc).len() > 0 ==> !rewrap(lines, nc).last().1,
    decreases lines.len(),
{
    if lines.len() > 0 {
        lemma_rewrap_wrap_full(lines.drop_last(), nc);
        lemma_chunks_wrap_full(lines.last(), nc);
        let a = rewrap(lines.drop_last(), nc);
        let b = chunks(lines.last(), nc);
        let v = rewrap(lines, nc);
        assert(v == a + b);
        assert forall|i: int| 0 <= i < v.len() && (#[trigger] v[i]).1 implies v[i].0.len() == nc && i + 1 < v.len() by {
            if i < a.len() {
                assert(v[i] == a[i]);
            } else {
                assert(v[i] == b[i - a.len()]);
            }
        }
        assert(v.last() == b.last());
    }
}

/// Resizing to a new width with re-wrapping loses, reorders and restyles no
/// text: where the grid ends on a line that is not soft-wrapped and all its
/// re-wrapped rows fit, the grid's logical lines afterwards are the old ones
/// followed by an empty line for each row left over, and every soft-wrapped
/// row is full and continued by the next.
pub proof fn law_reflow_keeps_lines(rows: Seq<Row>, after: Seq<Row>, new_rows: nat, nc: nat, cr: int, cc: int)
    requires
        nc > 0,
        unwrap_state(rows).1.len() == 0,
        rewrap(logical_lines(rows), nc).len() <= new_rows,
        row_views(after) == reflowed(rows, new_rows, nc, cr, cc).0,
    ensures
        logical_lines(after) == logical_lines(rows) + Seq::new(
            (new_rows - rewrap(logical_lines(rows), nc).len()) as nat,
            |i: int| Seq::<Cell>::empty(),
        ),
        wraps_full(row_views(after), nc),
{
    let lines = logical_lines(rows);
    lemma_rewrap_wrap_full(lines, nc);
    let out = rewrap(lines, nc);
    let k = (new_rows - out.len()) as nat;
    lemma_lines_trimmed(rows);
    assert(lines == unwrap_state(rows).0);
    law_rewrap_keeps_lines(lines, nc);
    if out.len() < new_rows {
        assert(row_views(after) == out + fresh_rows(k, nc));
    } else {
        assert(k == 0);
        assert(fresh_rows(0, nc) =~= Seq::<(Seq<Cell>, bool)>::empty());
        assert(out + fresh_rows(0, nc) =~= out);
    }
    lemma_read_concat((Seq::empty(), Seq::empty()), out, fresh_rows(k, nc));
    lemma_read_fresh(lines, k, nc);
    lemma_read_rows(after);
    let v = row_views(after);
    assert forall|i: int| 0 <= i < v.len() && (#[trigger] v[i]).1 implies v[i].0.len() == nc && i + 1 < v.len() by {
        if i >= out.len() {
            assert(v[i] == fresh_rows(k, nc)[i - out.len()]);
        } else {
            assert(v[i] == out[i]);
        }
    }
}

} // verus!

