//! Terminal grid storage: rows of cells with dirty and soft-wrap tracking.

use vstd::prelude::*;

use crate::cell::{blank_cell, Cell};
use crate::reflow::{all_dirty, all_empty, logical_lines, min_int, reflow_rows, reflowed, row_views, sat_dec, total_len};

verus! {

/// `n` blank cells.
pub open spec fn blanks(n: nat) -> Seq<Cell> {
    Seq::new(n, |i: int| blank_cell())
}

/// A single row in the terminal grid.
#[derive(Clone, Debug)]
pub struct Row {
    cells: Vec<Cell>,
    dirty: bool,
    wrapped: bool,
}

impl Row {
    /// The cells of the row, left to right.
    pub closed spec fn spec_cells(&self) -> Seq<Cell> {
        self.cells@
    }

    /// Whether the row changed since its dirty flag was last cleared.
    pub closed spec fn spec_dirty(&self) -> bool {
        self.dirty
    }

    /// Whether the row continues onto the next one (a soft wrap).
    pub closed spec fn spec_wrapped(&self) -> bool {
        self.wrapped
    }

    /// A new blank, dirty, unwrapped row of `cols` cells.
    pub fn new(cols: usize) -> (row: Row)
        ensures
            row.spec_cells() == blanks(cols as nat),
            row.spec_dirty(),
            !row.spec_wrapped(),
    {
        let mut cells: Vec<Cell> = Vec::new();
        let mut i: usize = 0;
        while i < cols
            invariant
                i <= cols,
                cells@ == blanks(i as nat),
            decreases cols - i,
        {
            cells.push(Cell::blank());
            i = i + 1;
        }
        Row { cells, dirty: true, wrapped: false }
    }

    /// The cell at `col`, if the row is that wide.
    pub fn get(&self, col: usize) -> (r: Option<&Cell>)
        ensures
            col < self.spec_cells().len() ==> r is Some && *r->0 == self.spec_cells()[col as int],
            col >= self.spec_cells().len() ==> r is None,
    {
        if col < self.cells.len() {
            Some(&self.cells[col])
        } else {
            None
        }
    }

    /// The cell at `col` for modification; the row becomes dirty.
    pub fn get_mut(&mut self, col: usize) -> (r: Option<&mut Cell>)
        ensures
            final(self).spec_dirty(),
            final(self).spec_wrapped() == old(self).spec_wrapped(),
            col < old(self).spec_cells().len() ==> r is Some && *r->0 == old(self).spec_cells()[col as int]
                && final(self).spec_cells() == old(self).spec_cells().update(col as int, *final(r->0)),
            col >= old(self).spec_cells().len() ==> r is None && final(self).spec_cells() == old(self).spec_cells(),
    {
        self.dirty = true;
        if col < self.cells.len() {
            Some(&mut self.cells[col])
        } else {
            None
        }
    }

    /// Set the cell at `col`; the row becomes dirty only if the cell changed.
    /// Columns past the end are ignored.
    pub fn set(&mut self, col: usize, cell: Cell)
        ensures
            col < old(self).spec_cells().len() ==> final(self).spec_cells() == old(
                self,
            ).spec_cells().update(col as int, cell),
            col >= old(self).spec_cells().len() ==> final(self).spec_cells() == old(self).spec_cells(),
            final(self).spec_dirty() == (old(self).spec_dirty() || (col < old(self).spec_cells().len()
                && old(self).spec_cells()[col as int] != cell)),
            final(self).spec_wrapped() == old(self).spec_wrapped(),
    {
        if col < self.cells.len() {
            if self.cells[col] != cell {
                self.cells.set(col, cell);
                self.dirty = true;
            }
        }
    }

    /// Number of columns.
    pub fn cols(&self) -> (n: usize)
        ensures
            n == self.spec_cells().len(),
    {
        self.cells.len()
    }

    /// Whether the row needs repainting.
    pub fn is_dirty(&self) -> (b: bool)
        ensures
            b == self.spec_dirty(),
    {
        self.dirty
    }

    /// Clear the dirty flag.
    pub fn clear_dirty(&mut self)
        ensures
            final(self).spec_cells() == old(self).spec_cells(),
            !final(self).spec_dirty(),
            final(self).spec_wrapped() == old(self).spec_wrapped(),
    {
        self.dirty = false;
    }

    /// Mark the row dirty.
    pub fn mark_dirty(&mut self)
        ensures
            final(self).spec_cells() == old(self).spec_cells(),
            final(self).spec_dirty(),
            final(self).spec_wrapped() == old(self).spec_wrapped(),
    {
        self.dirty = true;
    }

    /// Whether the row soft-wraps onto the next.
    pub fn is_wrapped(&self) -> (b: bool)
        ensures
            b == self.spec_wrapped(),
    {
        self.wrapped
    }

    /// Set the soft-wrap flag.
    pub fn set_wrapped(&mut self, wrapped: bool)
        ensures
            final(self).spec_cells() == old(self).spec_cells(),
            final(self).spec_dirty() == old(self).spec_dirty(),
            final(self).spec_wrapped() == wrapped,
    {
        self.wrapped = wrapped;
    }

    /// Reset cells `from..to` (clipped to the row) to blank and mark the row dirty.
    fn clear_range(&mut self, from: usize, to: usize)
        ensures
            final(self).spec_cells().len() == old(self).spec_cells().len(),
            forall|i: int|
                0 <= i < old(self).spec_cells().len() ==> #[trigger] final(self).spec_cells()[i] == if from
                    <= i < to {
                    blank_cell()
                } else {
                    old(self).spec_cells()[i]
                },
            final(self).spec_dirty(),
            final(self).spec_wrapped() == old(self).spec_wrapped(),
    {
        let n = self.cells.len();
        let end = if to < n { to } else { n };
        if from < end {
            let mut i = from;
            while i < end
                invariant
                    n == self.cells.len(),
                    n == old(self).cells.len(),
                    end <= n,
                    from <= i <= end,
                    self.wrapped == old(self).wrapped,
                    forall|k: int|
                        0 <= k < n ==> #[trigger] self.cells@[k] == if from <= k < i {
                            blank_cell()
                        } else {
                            old(self).cells@[k]
                        },
                decreases end - i,
            {
                self.cells.set(i, Cell::blank());
                i = i + 1;
            }
        }
        self.dirty = true;
    }

    /// Reset every cell to blank.
    pub fn clear(&mut self)
        ensures
            final(self).spec_cells() == blanks(old(self).spec_cells().len()),
            final(self).spec_dirty(),
            final(self).spec_wrapped() == old(self).spec_wrapped(),
    {
        let n = self.cells.len();
        self.clear_range(0, n);
        assert(self.spec_cells() =~= blanks(old(self).spec_cells().len()));
    }

    /// Reset cells from `col` to the end.
    pub fn clear_from(&mut self, col: usize)
        ensures
            final(self).spec_cells().len() == old(self).spec_cells().len(),
            forall|i: int|
                0 <= i < old(self).spec_cells().len() ==> #[trigger] final(self).spec_cells()[i] == if i
                    >= col {
                    blank_cell()
                } else {
                    old(self).spec_cells()[i]
                },
            final(self).spec_dirty(),
            final(self).spec_wrapped() == old(self).spec_wrapped(),
    {
        let n = self.cells.len();
        self.clear_range(col, n);
    }

    /// Reset cells before `col`.
    pub fn clear_to(&mut self, col: usize)
        ensures
            final(self).spec_cells().len() == old(self).spec_cells().len(),
            forall|i: int|
                0 <= i < old(self).spec_cells().len() ==> #[trigger] final(self).spec_cells()[i] == if i
                    < col {
                    blank_cell()
                } else {
                    old(self).spec_cells()[i]
                },
            final(self).spec_dirty(),
            final(self).spec_wrapped() == old(self).spec_wrapped(),
    {
        self.clear_range(0, col);
    }

    /// Change the width, truncating or padding with blank cells.
    pub fn resize(&mut self, cols: usize)
        ensures
            final(self).spec_cells() == if cols <= old(self).spec_cells().len() {
                old(self).spec_cells().take(cols as int)
            } else {
                old(self).spec_cells() + blanks((cols - old(self).spec_cells().len()) as nat)
            },
            final(self).spec_dirty(),
            final(self).spec_wrapped() == old(self).spec_wrapped(),
    {
        if cols <= self.cells.len() {
            self.cells.truncate(cols);
        } else {
            let ghost start = self.cells@;
            while self.cells.len() < cols
                invariant
                    cols > start.len(),
                    self.cells.len() <= cols,
                    self.cells@ == start + blanks((self.cells.len() - start.len()) as nat),
                    self.cells.len() >= start.len(),
                    self.wrapped == old(self).wrapped,
                decreases cols - self.cells.len(),
            {
                self.cells.push(Cell::blank());
                assert(self.cells@ =~= start + blanks((self.cells.len() - start.len()) as nat));
            }
        }
        self.dirty = true;
    }

    /// The cells of the row, to iterate over.
    pub fn iter(&self) -> (s: &[Cell])
        ensures
            s@ == self.spec_cells(),
    {
        self.cells.as_slice()
    }

    /// The cells of the row, each with its column.
    pub fn iter_enumerated(&self) -> (v: Vec<(usize, &Cell)>)
        ensures
            v@.len() == self.spec_cells().len(),
            forall|i: int| 0 <= i < v@.len() ==> #[trigger] v@[i].0 == i && *v@[i].1 == self.spec_cells()[i],
    {
        let mut v: Vec<(usize, &Cell)> = Vec::new();
        let mut i: usize = 0;
        while i < self.cells.len()
            invariant
                i <= self.cells@.len(),
                v@.len() == i,
                forall|k: int| 0 <= k < i ==> #[trigger] v@[k].0 == k && *v@[k].1 == self.cells@[k],
            decreases self.cells.len() - i,
        {
            v.push((i, &self.cells[i]));
            i = i + 1;
        }
        v
    }
}

/// Whether `r` holds exactly these cells and flags.
pub open spec fn row_is(r: Row, cells: Seq<Cell>, dirty: bool, wrapped: bool) -> bool {
    &&& r.spec_cells() == cells
    &&& r.spec_dirty() == dirty
    &&& r.spec_wrapped() == wrapped
}

/// `r2` is `r1` with its dirty flag set.
pub open spec fn marked(r1: Row, r2: Row) -> bool {
    row_is(r2, r1.spec_cells(), true, r1.spec_wrapped())
}

/// A fresh row as `Row::new(cols)` makes it.
pub open spec fn fresh_row(r: Row, cols: nat) -> bool {
    row_is(r, blanks(cols), true, false)
}

/// The visible terminal content.
#[derive(Clone, Debug)]
pub struct Grid {
    rows: Vec<Row>,
    cols: usize,
    num_rows: usize,
}

impl Grid {
    /// The rows, top to bottom.
    pub closed spec fn spec_rows(&self) -> Seq<Row> {
        self.rows@
    }

    /// The width the grid was given.
    pub closed spec fn spec_cols(&self) -> usize {
        self.cols
    }

    /// The height the grid was given.
    pub closed spec fn spec_num_rows(&self) -> usize {
        self.num_rows
    }

    /// The rows and the recorded height agree, and every row has the recorded width.
    pub open spec fn wf(&self) -> bool {
        &&& self.spec_rows().len() == self.spec_num_rows()
        &&& forall|i: int|
            0 <= i < self.spec_rows().len() ==> #[trigger] self.spec_rows()[i].spec_cells().len()
                == self.spec_cols()
    }

    /// A grid of `rows` fresh rows of `cols` cells.
    pub fn new(rows: usize, cols: usize) -> (g: Grid)
        ensures
            g.spec_cols() == cols,
            g.spec_num_rows() == rows,
            g.spec_rows().len() == rows,
            forall|i: int| 0 <= i < rows ==> #[trigger] fresh_row(g.spec_rows()[i], cols as nat),
            g.wf(),
    {
        let mut v: Vec<Row> = Vec::new();
        let mut i: usize = 0;
        while i < rows
            invariant
                i <= rows,
                v@.len() == i,
                forall|k: int| 0 <= k < i ==> #[trigger] fresh_row(v@[k], cols as nat),
            decreases rows - i,
        {
            v.push(Row::new(cols));
            i = i + 1;
        }
        let g = Grid { rows: v, cols, num_rows: rows };
        assert forall|k: int| 0 <= k < g.spec_rows().len() implies #[trigger] g.spec_rows()[k].spec_cells().len() == cols by {
            assert(fresh_row(g.spec_rows()[k], cols as nat));
        }
        g
    }

    /// Number of columns.
    pub fn cols(&self) -> (n: usize)
        ensures
            n == self.spec_cols(),
    {
        self.cols
    }

    /// Number of rows.
    pub fn rows(&self) -> (n: usize)
        ensures
            n == self.spec_num_rows(),
    {
        self.num_rows
    }

    /// The cell at (`row`, `col`), if it exists.
    pub fn get(&self, row: usize, col: usize) -> (r: Option<&Cell>)
        ensures
            (row < self.spec_rows().len() && col < self.spec_rows()[row as int].spec_cells().len())
                ==> r is Some && *r->0 == self.spec_rows()[row as int].spec_cells()[col as int],
            !(row < self.spec_rows().len() && col < self.spec_rows()[row as int].spec_cells().len())
                ==> r is None,
    {
        if row < self.rows.len() {
            self.rows[row].get(col)
        } else {
            None
        }
    }

    /// Set the cell at (`row`, `col`); positions outside the grid are ignored.
    pub fn set(&mut self, row: usize, col: usize, cell: Cell)
        ensures
            final(self).spec_cols() == old(self).spec_cols(),
            final(self).spec_num_rows() == old(self).spec_num_rows(),
            final(self).spec_rows().len() == old(self).spec_rows().len(),
            forall|i: int|
                0 <= i < old(self).spec_rows().len() && i != row ==> #[trigger] final(self).spec_rows()[i]
                    == old(self).spec_rows()[i],
            row < old(self).spec_rows().len() ==> {
                let o = old(self).spec_rows()[row as int];
                let n = final(self).spec_rows()[row as int];
                &&& col < o.spec_cells().len() ==> n.spec_cells() == o.spec_cells().update(col as int, cell)
                &&& col >= o.spec_cells().len() ==> n.spec_cells() == o.spec_cells()
                &&& n.spec_dirty() == (o.spec_dirty() || (col < o.spec_cells().len()
                    && o.spec_cells()[col as int] != cell))
                &&& n.spec_wrapped() == o.spec_wrapped()
            },
    {
        if row < self.rows.len() {
            self.rows[row].set(col, cell);
        }
    }

    /// The row at `row`, if it exists.
    pub fn row(&self, row: usize) -> (r: Option<&Row>)
        ensures
            row < self.spec_rows().len() ==> r is Some && *r->0 == self.spec_rows()[row as int],
            row >= self.spec_rows().len() ==> r is None,
    {
        if row < self.rows.len() {
            Some(&self.rows[row])
        } else {
            None
        }
    }

    /// The row at `row` for modification, if it exists.
    pub fn row_mut(&mut self, row: usize) -> (r: Option<&mut Row>)
        ensures
            final(self).spec_cols() == old(self).spec_cols(),
            final(self).spec_num_rows() == old(self).spec_num_rows(),
            row < old(self).spec_rows().len() ==> r is Some && *r->0 == old(self).spec_rows()[row as int]
                && final(self).spec_rows() == old(self).spec_rows().update(row as int, *final(r->0)),
            row >= old(self).spec_rows().len() ==> r is None && final(self).spec_rows() == old(self).spec_rows(),
    {
        if row < self.rows.len() {
            Some(&mut self.rows[row])
        } else {
            None
        }
    }

    /// The rows, to iterate over.
    pub fn iter_rows(&self) -> (s: &[Row])
        ensures
            s@ == self.spec_rows(),
    {
        self.rows.as_slice()
    }

    /// The rows, each with its index.
    pub fn iter_rows_enumerated(&self) -> (v: Vec<(usize, &Row)>)
        ensures
            v@.len() == self.spec_rows().len(),
            forall|i: int| 0 <= i < v@.len() ==> #[trigger] v@[i].0 == i && *v@[i].1 == self.spec_rows()[i],
    {
        let mut v: Vec<(usize, &Row)> = Vec::new();
        let mut i: usize = 0;
        while i < self.rows.len()
            invariant
                i <= self.rows@.len(),
                v@.len() == i,
                forall|k: int| 0 <= k < i ==> #[trigger] v@[k].0 == k && *v@[k].1 == self.rows@[k],
            decreases self.rows.len() - i,
        {
            v.push((i, &self.rows[i]));
            i = i + 1;
        }
        v
    }

    /// Mark every row dirty.
    fn mark_all_dirty(&mut self)
        ensures
            final(self).spec_cols() == old(self).spec_cols(),
            final(self).spec_num_rows() == old(self).spec_num_rows(),
            final(self).spec_rows().len() == old(self).spec_rows().len(),
            forall|i: int|
                0 <= i < old(self).spec_rows().len() ==> #[trigger] marked(
                    old(self).spec_rows()[i],
                    final(self).spec_rows()[i],
                ),
    {
        let n = self.rows.len();
        let mut i: usize = 0;
        while i < n
            invariant
                n == self.rows.len(),
                n == old(self).rows.len(),
                i <= n,
                self.cols == old(self).cols,
                self.num_rows == old(self).num_rows,
                forall|k: int| 0 <= k < i ==> #[trigger] marked(old(self).rows@[k], self.rows@[k]),
                forall|k: int| i <= k < n ==> #[trigger] self.rows@[k] == old(self).rows@[k],
            decreases n - i,
        {
            self.rows[i].mark_dirty();
            i = i + 1;
        }
    }

    /// Scroll up one line: the top row leaves (and is returned) and a fresh row
    /// enters at the bottom. Every row becomes dirty.
    pub fn scroll_up(&mut self) -> (top: Row)
        requires
            old(self).spec_rows().len() > 0,
        ensures
            top == old(self).spec_rows()[0],
            final(self).spec_cols() == old(self).spec_cols(),
            final(self).spec_num_rows() == old(self).spec_num_rows(),
            final(self).spec_rows().len() == old(self).spec_rows().len(),
            forall|i: int|
                0 <= i < old(self).spec_rows().len() - 1 ==> #[trigger] marked(
                    old(self).spec_rows()[i + 1],
                    final(self).spec_rows()[i],
                ),
            fresh_row(
                final(self).spec_rows()[old(self).spec_rows().len() - 1],
                old(self).spec_cols() as nat,
            ),
    {
        let old_row = self.rows.remove(0);
        self.rows.push(Row::new(self.cols));
        let ghost mid = self.rows@;
        self.mark_all_dirty();
        let ghost n = old(self).spec_rows().len();
        assert forall|i: int| 0 <= i < n - 1 implies #[trigger] marked(
            old(self).spec_rows()[i + 1],
            self.spec_rows()[i],
        ) by {
            assert(mid[i] == old(self).spec_rows()[i + 1]);
            assert(marked(mid[i], self.spec_rows()[i]));
        }
        assert(marked(mid[n - 1], self.spec_rows()[n - 1]));
        old_row
    }

    /// Scroll down one line: the bottom row leaves and a fresh row enters at the
    /// top. Every row becomes dirty.
    pub fn scroll_down(&mut self)
        ensures
            final(self).spec_cols() == old(self).spec_cols(),
            final(self).spec_num_rows() == old(self).spec_num_rows(),
            old(self).spec_rows().len() == 0 ==> final(self).spec_rows().len() == 1,
            old(self).spec_rows().len() > 0 ==> final(self).spec_rows().len() == old(self).spec_rows().len(),
            fresh_row(final(self).spec_rows()[0], old(self).spec_cols() as nat),
            forall|i: int|
                1 <= i < old(self).spec_rows().len() ==> #[trigger] marked(
                    old(self).spec_rows()[i - 1],
                    final(self).spec_rows()[i],
                ),
    {
        self.rows.pop();
        self.rows.insert(0, Row::new(self.cols));
        let ghost mid = self.rows@;
        self.mark_all_dirty();
        let ghost n = old(self).spec_rows().len();
        assert(marked(mid[0], self.spec_rows()[0]));
        assert forall|i: int| 1 <= i < n implies #[trigger] marked(
            old(self).spec_rows()[i - 1],
            self.spec_rows()[i],
        ) by {
            assert(mid[i] == old(self).spec_rows()[i - 1]);
            assert(marked(mid[i], self.spec_rows()[i]));
        }
    }

    /// Clear every row.
    pub fn clear(&mut self)
        ensures
            final(self).spec_cols() == old(self).spec_cols(),
            final(self).spec_num_rows() == old(self).spec_num_rows(),
            final(self).spec_rows().len() == old(self).spec_rows().len(),
            forall|i: int|
                0 <= i < old(self).spec_rows().len() ==> #[trigger] row_is(
                    final(self).spec_rows()[i],
                    blanks(old(self).spec_rows()[i].spec_cells().len()),
                    true,
                    old(self).spec_rows()[i].spec_wrapped(),
                ),
    {
        let n = self.rows.len();
        let mut i: usize = 0;
        while i < n
            invariant
                n == self.rows.len(),
                n == old(self).rows.len(),
                i <= n,
                self.cols == old(self).cols,
                self.num_rows == old(self).num_rows,
                forall|k: int|
                    0 <= k < i ==> #[trigger] row_is(
                        self.rows@[k],
                        blanks(old(self).rows@[k].spec_cells().len()),
                        true,
                        old(self).rows@[k].spec_wrapped(),
                    ),
                forall|k: int| i <= k < n ==> #[trigger] self.rows@[k] == old(self).rows@[k],
            decreases n - i,
        {
            self.rows[i].clear();
            i = i + 1;
        }
    }

    /// Whether any row is dirty.
    pub fn has_dirty_rows(&self) -> (b: bool)
        ensures
            b == exists|i: int| 0 <= i < self.spec_rows().len() && #[trigger] self.spec_rows()[i].spec_dirty(),
    {
        let n = self.rows.len();
        let mut i: usize = 0;
        while i < n
            invariant
                n == self.rows.len(),
                i <= n,
                forall|k: int| 0 <= k < i ==> !#[trigger] self.rows@[k].spec_dirty(),
            decreases n - i,
        {
            if self.rows[i].is_dirty() {
                assert(self.spec_rows()[i as int].spec_dirty());
                return true;
            }
            i = i + 1;
        }
        false
    }

    /// Clear every dirty flag.
    pub fn clear_all_dirty(&mut self)
        ensures
            final(self).spec_cols() == old(self).spec_cols(),
            final(self).spec_num_rows() == old(self).spec_num_rows(),
            final(self).spec_rows().len() == old(self).spec_rows().len(),
            forall|i: int|
                0 <= i < old(self).spec_rows().len() ==> #[trigger] row_is(
                    final(self).spec_rows()[i],
                    old(self).spec_rows()[i].spec_cells(),
                    false,
                    old(self).spec_rows()[i].spec_wrapped(),
                ),
    {
        let n = self.rows.len();
        let mut i: usize = 0;
        while i < n
            invariant
                n == self.rows.len(),
                n == old(self).rows.len(),
                i <= n,
                self.cols == old(self).cols,
                self.num_rows == old(self).num_rows,
                forall|k: int|
                    0 <= k < i ==> #[trigger] row_is(
                        self.rows@[k],
                        old(self).rows@[k].spec_cells(),
                        false,
                        old(self).rows@[k].spec_wrapped(),
                    ),
                forall|k: int| i <= k < n ==> #[trigger] self.rows@[k] == old(self).rows@[k],
            decreases n - i,
        {
            self.rows[i].clear_dirty();
            i = i + 1;
        }
    }

    /// Indices of the dirty rows, in increasing order.
    pub fn dirty_row_indices(&self) -> (v: Vec<usize>)
        ensures
            forall|k: int| 0 <= k < v@.len() ==> #[trigger] v@[k] < self.spec_rows().len() && self.spec_rows()[v@[k] as int].spec_dirty(),
            forall|k: int, l: int| 0 <= k < l < v@.len() ==> v@[k] < v@[l],
            forall|i: int|
                0 <= i < self.spec_rows().len() && #[trigger] self.spec_rows()[i].spec_dirty() ==> v@.contains(i as usize),
    {
        let n = self.rows.len();
        let mut v: Vec<usize> = Vec::new();
        let mut i: usize = 0;
        while i < n
            invariant
                n == self.rows.len(),
                i <= n,
                forall|k: int| 0 <= k < v@.len() ==> #[trigger] v@[k] < i && self.rows@[v@[k] as int].spec_dirty(),
                forall|k: int, l: int| 0 <= k < l < v@.len() ==> v@[k] < v@[l],
                forall|j: int| 0 <= j < i && #[trigger] self.rows@[j].spec_dirty() ==> v@.contains(j as usize),
            decreases n - i,
        {
            let ghost old_v = v@;
            if self.rows[i].is_dirty() {
                v.push(i);
                assert(v@[v@.len() - 1] == i);
                assert forall|j: int| 0 <= j < i + 1 && #[trigger] self.rows@[j].spec_dirty() implies v@.contains(j as usize) by {
                    if j < i {
                        let w = choose|w: int| 0 <= w < old_v.len() && old_v[w] == j as usize;
                        assert(v@[w] == j as usize);
                    } else {
                        assert(v@[v@.len() - 1] == j as usize);
                    }
                }
            }
            i = i + 1;
        }
        v
    }

    /// The cell at (`row`, `col`) for modification; its row becomes dirty.
    pub fn get_mut(&mut self, row: usize, col: usize) -> (r: Option<&mut Cell>)
        ensures
            final(self).spec_cols() == old(self).spec_cols(),
            final(self).spec_num_rows() == old(self).spec_num_rows(),
            row >= old(self).spec_rows().len() ==> r is None && final(self).spec_rows() == old(self).spec_rows(),
            row < old(self).spec_rows().len() ==> {
                let o = old(self).spec_rows()[row as int];
                let n = final(self).spec_rows()[row as int];
                &&& final(self).spec_rows().len() == old(self).spec_rows().len()
                &&& forall|i: int| 0 <= i < old(self).spec_rows().len() && i != row ==>
                    #[trigger] final(self).spec_rows()[i] == old(self).spec_rows()[i]
                &&& n.spec_dirty()
                &&& n.spec_wrapped() == o.spec_wrapped()
                &&& col < o.spec_cells().len() ==> r is Some && *r->0 == o.spec_cells()[col as int]
                    && n.spec_cells() == o.spec_cells().update(col as int, *final(r->0))
                &&& col >= o.spec_cells().len() ==> r is None && n.spec_cells() == o.spec_cells()
            },
    {
        if row < self.rows.len() {
            self.rows[row].get_mut(col)
        } else {
            None
        }
    }

    /// Scroll the rows `top..bottom` up by one: row `top` leaves (and is
    /// returned) and a fresh row enters at `bottom - 1`; the region's rows
    /// become dirty. An empty or out-of-range region changes nothing.
    pub fn scroll_region_up(&mut self, top: usize, bottom: usize) -> (r: Option<Row>)
        requires
            old(self).spec_rows().len() == old(self).spec_num_rows(),
        ensures
            final(self).spec_cols() == old(self).spec_cols(),
            final(self).spec_num_rows() == old(self).spec_num_rows(),
            final(self).spec_rows().len() == old(self).spec_rows().len(),
            (top >= bottom || bottom > old(self).spec_num_rows()) ==> r is None && final(self).spec_rows()
                == old(self).spec_rows(),
            (top < bottom && bottom <= old(self).spec_num_rows()) ==> {
                &&& r == Some(old(self).spec_rows()[top as int])
                &&& forall|i: int| 0 <= i < top ==> #[trigger] final(self).spec_rows()[i] == old(self).spec_rows()[i]
                &&& forall|i: int| bottom <= i < old(self).spec_rows().len() ==> #[trigger] final(self).spec_rows()[i]
                    == old(self).spec_rows()[i]
                &&& forall|i: int| top <= i < bottom - 1 ==> #[trigger] marked(
                    old(self).spec_rows()[i + 1],
                    final(self).spec_rows()[i],
                )
                &&& fresh_row(final(self).spec_rows()[bottom - 1], old(self).spec_cols() as nat)
            },
    {
        if top >= bottom || bottom > self.num_rows {
            return None;
        }
        let old_row = self.rows.remove(top);
        self.rows.insert(bottom - 1, Row::new(self.cols));
        let ghost mid = self.rows@;
        self.mark_dirty_range(top, bottom);
        let ghost n = old(self).spec_rows().len();
        assert forall|i: int| 0 <= i < top implies #[trigger] self.spec_rows()[i] == old(self).spec_rows()[i] by {
            assert(mid[i] == old(self).spec_rows()[i]);
        }
        assert forall|i: int| bottom <= i < n implies #[trigger] self.spec_rows()[i] == old(self).spec_rows()[i] by {
            assert(mid[i] == old(self).spec_rows()[i]);
        }
        assert forall|i: int| top <= i < bottom - 1 implies #[trigger] marked(
            old(self).spec_rows()[i + 1],
            self.spec_rows()[i],
        ) by {
            assert(mid[i] == old(self).spec_rows()[i + 1]);
            assert(marked(mid[i], self.spec_rows()[i]));
        }
        assert(marked(mid[bottom - 1], self.spec_rows()[bottom - 1]));
        Some(old_row)
    }

    /// Scroll the rows `top..bottom` down by one: row `bottom - 1` leaves and a
    /// fresh row enters at `top`; the region's rows become dirty. An empty or
    /// out-of-range region changes nothing.
    pub fn scroll_region_down(&mut self, top: usize, bottom: usize)
        requires
            old(self).spec_rows().len() == old(self).spec_num_rows(),
        ensures
            final(self).spec_cols() == old(self).spec_cols(),
            final(self).spec_num_rows() == old(self).spec_num_rows(),
            final(self).spec_rows().len() == old(self).spec_rows().len(),
            (top >= bottom || bottom > old(self).spec_num_rows()) ==> final(self).spec_rows()
                == old(self).spec_rows(),
            (top < bottom && bottom <= old(self).spec_num_rows()) ==> {
                &&& forall|i: int| 0 <= i < top ==> #[trigger] final(self).spec_rows()[i] == old(self).spec_rows()[i]
                &&& forall|i: int| bottom <= i < old(self).spec_rows().len() ==> #[trigger] final(self).spec_rows()[i]
                    == old(self).spec_rows()[i]
                &&& forall|i: int| top < i < bottom ==> #[trigger] marked(
                    old(self).spec_rows()[i - 1],
                    final(self).spec_rows()[i],
                )
                &&& fresh_row(final(self).spec_rows()[top as int], old(self).spec_cols() as nat)
            },
    {
        if top >= bottom || bottom > self.num_rows {
            return;
        }
        self.rows.remove(bottom - 1);
        self.rows.insert(top, Row::new(self.cols));
        let ghost mid = self.rows@;
        self.mark_dirty_range(top, bottom);
        let ghost n = old(self).spec_rows().len();
        assert forall|i: int| 0 <= i < top implies #[trigger] self.spec_rows()[i] == old(self).spec_rows()[i] by {
            assert(mid[i] == old(self).spec_rows()[i]);
        }
        assert forall|i: int| bottom <= i < n implies #[trigger] self.spec_rows()[i] == old(self).spec_rows()[i] by {
            assert(mid[i] == old(self).spec_rows()[i]);
        }
        assert forall|i: int| top < i < bottom implies #[trigger] marked(
            old(self).spec_rows()[i - 1],
            self.spec_rows()[i],
        ) by {
            assert(mid[i] == old(self).spec_rows()[i - 1]);
            assert(marked(mid[i], self.spec_rows()[i]));
        }
        assert(marked(mid[top as int], self.spec_rows()[top as int]));
    }

    /// Mark rows `top..bottom` dirty.
    fn mark_dirty_range(&mut self, top: usize, bottom: usize)
        requires
            top < bottom <= old(self).spec_rows().len(),
        ensures
            final(self).spec_cols() == old(self).spec_cols(),
            final(self).spec_num_rows() == old(self).spec_num_rows(),
            final(self).spec_rows().len() == old(self).spec_rows().len(),
            forall|i: int|
                0 <= i < old(self).spec_rows().len() && !(top <= i < bottom) ==> #[trigger] final(self).spec_rows()[i]
                    == old(self).spec_rows()[i],
            forall|i: int|
                top <= i < bottom ==> #[trigger] marked(old(self).spec_rows()[i], final(self).spec_rows()[i]),
    {
        let mut i = top;
        while i < bottom
            invariant
                top <= i <= bottom,
                bottom <= self.rows.len(),
                self.rows.len() == old(self).rows.len(),
                self.cols == old(self).cols,
                self.num_rows == old(self).num_rows,
                forall|k: int| top <= k < i ==> #[trigger] marked(old(self).rows@[k], self.rows@[k]),
                forall|k: int|
                    0 <= k < self.rows.len() && !(top <= k < i) ==> #[trigger] self.rows@[k] == old(self).rows@[k],
            decreases bottom - i,
        {
            self.rows[i].mark_dirty();
            i = i + 1;
        }
    }

    /// Clear from (`row`, `col`) to the end of the screen.
    pub fn clear_below(&mut self, row: usize, col: usize)
        requires
            row < usize::MAX,
        ensures
            final(self).spec_cols() == old(self).spec_cols(),
            final(self).spec_num_rows() == old(self).spec_num_rows(),
            final(self).spec_rows().len() == old(self).spec_rows().len(),
            forall|i: int| 0 <= i < row && i < old(self).spec_rows().len() ==> #[trigger] final(self).spec_rows()[i]
                == old(self).spec_rows()[i],
            forall|i: int|
                row < i < old(self).spec_rows().len() ==> #[trigger] row_is(
                    final(self).spec_rows()[i],
                    blanks(old(self).spec_rows()[i].spec_cells().len()),
                    true,
                    old(self).spec_rows()[i].spec_wrapped(),
                ),
            row < old(self).spec_rows().len() ==> {
                let o = old(self).spec_rows()[row as int];
                let n = final(self).spec_rows()[row as int];
                &&& n.spec_dirty()
                &&& n.spec_wrapped() == o.spec_wrapped()
                &&& n.spec_cells().len() == o.spec_cells().len()
                &&& forall|j: int| 0 <= j < o.spec_cells().len() ==> #[trigger] n.spec_cells()[j] == if j >= col {
                    blank_cell()
                } else {
                    o.spec_cells()[j]
                }
            },
    {
        if row < self.rows.len() {
            self.rows[row].clear_from(col);
        }
        let n = self.rows.len();
        let mut i = row + 1;
        let ghost mid = self.rows@;
        while i < n
            invariant
                n == self.rows.len(),
                n == old(self).rows.len(),
                mid.len() == n,
                row + 1 <= i,
                self.cols == old(self).cols,
                self.num_rows == old(self).num_rows,
                forall|k: int|
                    row < k < i && k < n ==> #[trigger] row_is(
                        self.rows@[k],
                        blanks(old(self).rows@[k].spec_cells().len()),
                        true,
                        old(self).rows@[k].spec_wrapped(),
                    ),
                forall|k: int| 0 <= k < n && !(row < k < i) ==> #[trigger] self.rows@[k] == mid[k],
                forall|k: int| 0 <= k < n && k != row ==> #[trigger] mid[k] == old(self).rows@[k],
            decreases n - i,
        {
            self.rows[i].clear();
            i = i + 1;
        }
    }

    /// Clear from the start of the screen to (`row`, `col`) inclusive.
    pub fn clear_above(&mut self, row: usize, col: usize)
        requires
            col < usize::MAX,
        ensures
            final(self).spec_cols() == old(self).spec_cols(),
            final(self).spec_num_rows() == old(self).spec_num_rows(),
            final(self).spec_rows().len() == old(self).spec_rows().len(),
            forall|i: int| row < i < old(self).spec_rows().len() ==> #[trigger] final(self).spec_rows()[i]
                == old(self).spec_rows()[i],
            forall|i: int|
                0 <= i < row && i < old(self).spec_rows().len() ==> #[trigger] row_is(
                    final(self).spec_rows()[i],
                    blanks(old(self).spec_rows()[i].spec_cells().len()),
                    true,
                    old(self).spec_rows()[i].spec_wrapped(),
                ),
            row < old(self).spec_rows().len() ==> {
                let o = old(self).spec_rows()[row as int];
                let n = final(self).spec_rows()[row as int];
                &&& n.spec_dirty()
                &&& n.spec_wrapped() == o.spec_wrapped()
                &&& n.spec_cells().len() == o.spec_cells().len()
                &&& forall|j: int| 0 <= j < o.spec_cells().len() ==> #[trigger] n.spec_cells()[j] == if j <= col {
                    blank_cell()
                } else {
                    o.spec_cells()[j]
                }
            },
    {
        let n = self.rows.len();
        let end = if row < n { row } else { n };
        let mut i: usize = 0;
        while i < end
            invariant
                n == self.rows.len(),
                n == old(self).rows.len(),
                end <= n,
                end <= row,
                i <= end,
                self.cols == old(self).cols,
                self.num_rows == old(self).num_rows,
                forall|k: int|
                    0 <= k < i ==> #[trigger] row_is(
                        self.rows@[k],
                        blanks(old(self).rows@[k].spec_cells().len()),
                        true,
                        old(self).rows@[k].spec_wrapped(),
                    ),
                forall|k: int| i <= k < n ==> #[trigger] self.rows@[k] == old(self).rows@[k],
            decreases end - i,
        {
            self.rows[i].clear();
            i = i + 1;
        }
        if row < self.rows.len() {
            self.rows[row].clear_to(col + 1);
        }
    }

    /// Resize to `new_rows` by `new_cols`, re-wrapping content to the new
    /// width: soft-wrapped rows are joined into logical lines (ending lines
    /// lose trailing spaces) and split again; when more rows result than fit,
    /// the rows kept leave the cursor in the lower third where they can.
    /// Returns the cursor's new position, clamped to the grid. When the width
    /// is unchanged this is a plain resize.
    pub fn resize_with_reflow(&mut self, new_rows: usize, new_cols: usize, cursor_row: usize, cursor_col: usize) -> (r: (usize, usize))
        requires
            old(self).wf(),
            cursor_col + total_len(old(self).spec_rows()) <= usize::MAX,
            new_cols + total_len(old(self).spec_rows()) <= usize::MAX,
            new_cols == old(self).spec_cols() || new_cols > 0 || all_empty(logical_lines(old(self).spec_rows())),
        ensures
            final(self).wf(),
            final(self).spec_cols() == new_cols,
            final(self).spec_num_rows() == new_rows,
            all_dirty(final(self).spec_rows()),
            new_cols == old(self).spec_cols() ==> row_views(final(self).spec_rows()) == plain_resized(
                old(self).spec_rows(),
                new_rows as nat,
                new_cols as nat,
            ) && r.0 == min_int(cursor_row as int, sat_dec(new_rows as int)) && r.1 == min_int(
                cursor_col as int,
                sat_dec(new_cols as int),
            ),
            new_cols != old(self).spec_cols() ==> row_views(final(self).spec_rows()) == reflowed(
                old(self).spec_rows(),
                new_rows as nat,
                new_cols as nat,
                cursor_row as int,
                cursor_col as int,
            ).0 && r.0 == min_int(
                reflowed(old(self).spec_rows(), new_rows as nat, new_cols as nat, cursor_row as int, cursor_col as int).1,
                sat_dec(new_rows as int),
            ) && r.1 == min_int(
                reflowed(old(self).spec_rows(), new_rows as nat, new_cols as nat, cursor_row as int, cursor_col as int).2,
                sat_dec(new_cols as int),
            ),
    {
        let old_cols = self.cols;
        let last_row = if new_rows >= 1 {
            new_rows - 1
        } else {
            0
        };
        let last_col = if new_cols >= 1 {
            new_cols - 1
        } else {
            0
        };
        if new_cols == old_cols {
            self.resize(new_rows, new_cols);
            proof {
                let o = old(self).spec_rows();
                let f = self.spec_rows();
                assert forall|i: int| 0 <= i < f.len() implies #[trigger] f[i].spec_dirty() by {
                    if i < o.len() {
                        assert(row_is(f[i], resized_cells(o[i].spec_cells(), new_cols as nat), true, o[i].spec_wrapped()));
                    } else {
                        assert(fresh_row(f[i], new_cols as nat));
                    }
                }
                assert forall|i: int| 0 <= i < f.len() implies #[trigger] row_views(f)[i] == plain_resized(o, new_rows as nat, new_cols as nat)[i] by {
                    if i < o.len() {
                        assert(row_is(f[i], resized_cells(o[i].spec_cells(), new_cols as nat), true, o[i].spec_wrapped()));
                    } else {
                        assert(fresh_row(f[i], new_cols as nat));
                    }
                }
                assert(row_views(f) =~= plain_resized(o, new_rows as nat, new_cols as nat));
            }
            let rr = if cursor_row < last_row {
                cursor_row
            } else {
                last_row
            };
            let cc = if cursor_col < last_col {
                cursor_col
            } else {
                last_col
            };
            return (rr, cc);
        }
        let (out, cur_r, cur_c) = reflow_rows(&self.rows, new_rows, new_cols, cursor_row, cursor_col);
        self.rows = out;
        self.cols = new_cols;
        self.num_rows = new_rows;
        let rr = if cur_r < last_row {
            cur_r
        } else {
            last_row
        };
        let cc = if cur_c < last_col {
            cur_c
        } else {
            last_col
        };
        (rr, cc)
    }

    /// Resize to `new_rows` by `new_cols` without reflow: rows are truncated or
    /// padded with blank cells, and fresh rows are added or rows dropped at the bottom.
    pub fn resize(&mut self, new_rows: usize, new_cols: usize)
        ensures
            final(self).spec_cols() == new_cols,
            final(self).spec_num_rows() == new_rows,
            old(self).spec_rows().len() == old(self).spec_num_rows() ==> final(self).wf(),
            final(self).spec_rows().len() == if new_rows > old(self).spec_num_rows() {
                old(self).spec_rows().len() + (new_rows - old(self).spec_num_rows())
            } else if new_rows < old(self).spec_num_rows() {
                if new_rows <= old(self).spec_rows().len() { new_rows as int } else { old(self).spec_rows().len() as int }
            } else {
                old(self).spec_rows().len() as int
            },
            forall|i: int|
                0 <= i < old(self).spec_rows().len() && i < final(self).spec_rows().len() ==> #[trigger] row_is(
                    final(self).spec_rows()[i],
                    resized_cells(old(self).spec_rows()[i].spec_cells(), new_cols as nat),
                    true,
                    old(self).spec_rows()[i].spec_wrapped(),
                ),
            forall|i: int|
                old(self).spec_rows().len() <= i < final(self).spec_rows().len() ==> #[trigger] fresh_row(
                    final(self).spec_rows()[i],
                    new_cols as nat,
                ),
    {
        let n = self.rows.len();
        let mut i: usize = 0;
        while i < n
            invariant
                n == self.rows.len(),
                n == old(self).rows.len(),
                i <= n,
                self.cols == old(self).cols,
                self.num_rows == old(self).num_rows,
                forall|k: int|
                    0 <= k < i ==> #[trigger] row_is(
                        self.rows@[k],
                        resized_cells(old(self).rows@[k].spec_cells(), new_cols as nat),
                        true,
                        old(self).rows@[k].spec_wrapped(),
                    ),
                forall|k: int| i <= k < n ==> #[trigger] self.rows@[k] == old(self).rows@[k],
            decreases n - i,
        {
            self.rows[i].resize(new_cols);
            i = i + 1;
        }
        if new_rows > self.num_rows {
            let extra = new_rows - self.num_rows;
            let mut j: usize = 0;
            while j < extra
                invariant
                    j <= extra,
                    self.rows.len() == n + j,
                    n == old(self).rows.len(),
                    self.num_rows == old(self).num_rows,
                    extra == new_rows - self.num_rows,
                    forall|k: int|
                        0 <= k < n ==> #[trigger] row_is(
                            self.rows@[k],
                            resized_cells(old(self).rows@[k].spec_cells(), new_cols as nat),
                            true,
                            old(self).rows@[k].spec_wrapped(),
                        ),
                    forall|k: int| n <= k < self.rows.len() ==> #[trigger] fresh_row(self.rows@[k], new_cols as nat),
                decreases extra - j,
            {
                self.rows.push(Row::new(new_cols));
                j = j + 1;
            }
        } else if new_rows < self.num_rows {
            self.rows.truncate(new_rows);
        }
        proof {
            if old(self).spec_rows().len() == old(self).spec_num_rows() {
                assert forall|k: int| 0 <= k < self.rows@.len() implies #[trigger] self.rows@[k].spec_cells().len() == new_cols by {
                    if k < n {
                        assert(row_is(self.rows@[k], resized_cells(old(self).rows@[k].spec_cells(), new_cols as nat), true, old(self).rows@[k].spec_wrapped()));
                    } else {
                        assert(fresh_row(self.rows@[k], new_cols as nat));
                    }
                }
            }
        }
        self.cols = new_cols;
        self.num_rows = new_rows;
    }
}

/// The rows (cells and soft-wrap flag) of `rows` after a plain resize to
/// `new_rows` by `nc`: kept rows truncated or padded, new rows blank.
pub open spec fn plain_resized(rows: Seq<Row>, new_rows: nat, nc: nat) -> Seq<(Seq<Cell>, bool)> {
    Seq::new(
        new_rows,
        |i: int|
            if i < rows.len() {
                (resized_cells(rows[i].spec_cells(), nc), rows[i].spec_wrapped())
            } else {
                (blanks(nc), false)
            },
    )
}

/// `cells` truncated or padded with blanks to width `w`.
pub open spec fn resized_cells(cells: Seq<Cell>, w: nat) -> Seq<Cell> {
    if w <= cells.len() {
        cells.take(w as int)
    } else {
        cells + blanks((w - cells.len()) as nat)
    }
}

} // verus!