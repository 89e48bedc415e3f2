//! Client-side screen buffer for compositing pane content.
//!
//! The buffer keeps a grid of styled cells for the whole screen and writes each
//! pane's rows at the pane's position, so panes never overwrite each other, and
//! draws the dividers between panes itself.

use vstd::prelude::*;

use crate::cell::{blank_cell, Cell, CellFlags, Color, ColorKind};
use crate::client::ansi::{ansi_row, cells_to_ansi_with_links};
use crate::client::compose::{
    apply_row, apply_rows, covers, find_pane, grid_has, has_id, highlighted, inverted,
    last_selected, lemma_first_pane, lemma_first_pane_exists, lemma_find_pane_in, link_applies, link_end, link_start, pane_col_end, pruned,
    row_paste, row_set_range, row_underline, segment, sel_covers, sel_end_row, sel_first_row,
    sel_text, sel_text_upto, underlined, ScreenState, NO_LINK, PRUNE_THRESHOLD,
};
use std::collections::HashMap;

use crate::client::links::{link_ids, url_map};
use crate::text::{has_control_char, is_whitespace, push_char, spec_is_whitespace, trim_end};
use crate::grid::blanks;
use crate::protocol::{PaneLayout, PaneRow, RowLink, WindowLayout};
use crate::selection::{spec_covers, Point, Selection, SelectionMode};

verus! {

/// Cursor position in screen coordinates.
#[derive(Debug, Clone, Copy, PartialEq, Eq, Structural)]
pub struct CursorPosition {
    pub row: u16,
    pub col: u16,
    pub visible: bool,
}

impl Default for CursorPosition {
    fn default() -> (c: CursorPosition)
        ensures
            c == (CursorPosition { row: 0, col: 0, visible: false }),
    {
        CursorPosition { row: 0, col: 0, visible: false }
    }
}

/// Begin a synchronized update (DECSET 2026).
pub const BEGIN_SYNC_UPDATE: &'static str = "\x1b[?2026h";

/// End a synchronized update (DECRST 2026), presenting the frame.
pub const END_SYNC_UPDATE: &'static str = "\x1b[?2026l";

/// An active selection, anchored in one pane.
#[derive(Debug, Clone, Copy, PartialEq, Eq, Structural)]
pub struct PaneSelection {
    pub pane_id: u32,
    pub selection: Selection,
}

/// A grid of `rows` rows of `cols` copies of `x`.
pub open spec fn filled<T>(rows: nat, cols: nat, x: T) -> Seq<Seq<T>> {
    Seq::new(rows, |r: int| Seq::new(cols, |c: int| x))
}

/// The cell used to draw dividers.
pub open spec fn divider(c: char) -> Cell {
    Cell {
        c,
        fg: Color { kind: ColorKind::Indexed, r: 8, g: 0, b: 0 },
        bg: Color::spec_default_color(),
        flags: CellFlags { bits: 0 },
        hyperlink: None,
    }
}

/// The cell at (`r`, `c`) after drawing the vertical divider left of `p`.
pub open spec fn left_div_cell(g: Seq<Seq<Cell>>, p: PaneLayout, r: int, c: int) -> Cell {
    if p.x > 0 && c == p.x - 1 && p.y <= r < p.y + p.height {
        divider('\u{2502}')
    } else {
        g[r][c]
    }
}

/// The cell at (`r`, `c`) after drawing the horizontal divider above `p`;
/// crossing a vertical divider makes a junction.
pub open spec fn top_div_cell(g: Seq<Seq<Cell>>, p: PaneLayout, r: int, c: int) -> Cell {
    if p.y > 0 && r == p.y - 1 && p.x <= c < p.x + p.width {
        divider(if g[r][c].c == '\u{2502}' { '\u{253c}' } else { '\u{2500}' })
    } else {
        g[r][c]
    }
}

/// The cell at (`r`, `c`) once the divider above `p` is drawn up to column `upto`.
pub open spec fn top_div_partial(g: Seq<Seq<Cell>>, p: PaneLayout, upto: int, r: int, c: int) -> Cell {
    if p.y > 0 && r == p.y - 1 && p.x <= c < upto {
        divider(if g[r][c].c == '\u{2502}' { '\u{253c}' } else { '\u{2500}' })
    } else {
        g[r][c]
    }
}

/// Apply a per-cell rule over a grid of the same shape.
pub open spec fn left_divided(g: Seq<Seq<Cell>>, p: PaneLayout) -> Seq<Seq<Cell>> {
    Seq::new(g.len(), |r: int| Seq::new(g[r].len(), |c: int| left_div_cell(g, p, r, c)))
}

pub open spec fn top_divided(g: Seq<Seq<Cell>>, p: PaneLayout) -> Seq<Seq<Cell>> {
    Seq::new(g.len(), |r: int| Seq::new(g[r].len(), |c: int| top_div_cell(g, p, r, c)))
}

/// `g` with the dividers of `panes` drawn, pane by pane: to the left of every
/// pane not at column 0 and above every pane not at row 0.
pub open spec fn with_dividers(g: Seq<Seq<Cell>>, panes: Seq<PaneLayout>) -> Seq<Seq<Cell>>
    decreases panes.len(),
{
    if panes.len() == 0 {
        g
    } else {
        let p = panes.last();
        top_divided(left_divided(with_dividers(g, panes.drop_last()), p), p)
    }
}

/// Every row of `g` has `cols` entries and there are `rows` rows.
pub open spec fn shaped<T>(g: Seq<Seq<T>>, rows: nat, cols: nat) -> bool {
    g.len() == rows && forall|r: int| 0 <= r < rows ==> #[trigger] g[r].len() == cols
}

proof fn lemma_divided_shape(g: Seq<Seq<Cell>>, panes: Seq<PaneLayout>, rows: nat, cols: nat)
    requires
        shaped(g, rows, cols),
    ensures
        shaped(with_dividers(g, panes), rows, cols),
    decreases panes.len(),
{
    if panes.len() > 0 {
        lemma_divided_shape(g, panes.drop_last(), rows, cols);
    }
}

/// Two grids of one shape that agree at every position are equal.
pub proof fn lemma_grid_ext<T>(a: Seq<Seq<T>>, b: Seq<Seq<T>>, rows: nat, cols: nat)
    requires
        shaped(a, rows, cols),
        shaped(b, rows, cols),
        forall|r: int, c: int| 0 <= r < rows && 0 <= c < cols ==> #[trigger] a[r][c] == b[r][c],
    ensures
        a == b,
{
    assert forall|r: int| 0 <= r < rows implies #[trigger] a[r] == b[r] by {
        assert(a[r] =~= b[r]);
    }
    assert(a =~= b);
}

/// Client-side screen buffer for compositing pane content.
pub struct ScreenBuffer {
    cells: Vec<Vec<Cell>>,
    link_ids: Vec<Vec<u32>>,
    row_continues: Vec<Vec<bool>>,
    urls: HashMap<u32, String>,
    layout: Option<WindowLayout>,
    cols: usize,
    rows: usize,
    cursor: CursorPosition,
    selection: Option<PaneSelection>,
}

/// The views of the rows of a nested vector.
pub open spec fn rows_view<T>(v: Seq<Vec<T>>) -> Seq<Seq<T>> {
    Seq::new(v.len(), |r: int| v[r]@)
}

impl ScreenBuffer {
    /// The cells, row by row.
    pub closed spec fn spec_cells(&self) -> Seq<Seq<Cell>> {
        rows_view(self.cells@)
    }

    /// The link id of each cell (`NO_LINK` for none).
    pub closed spec fn spec_links(&self) -> Seq<Seq<u32>> {
        rows_view(self.link_ids@)
    }

    /// Whether the pane row owning each cell continues onto the next row.
    pub closed spec fn spec_continues(&self) -> Seq<Seq<bool>> {
        rows_view(self.row_continues@)
    }

    /// The URL of each link id on screen.
    pub closed spec fn spec_urls(&self) -> Map<u32, Seq<char>> {
        url_map(self.urls@)
    }

    /// The current layout's panes, if a layout is set.
    pub open spec fn spec_panes(&self) -> Option<Seq<PaneLayout>> {
        match self.spec_layout() {
            Some(l) => Some(l.panes@),
            None => None,
        }
    }

    /// The current layout.
    pub closed spec fn spec_layout(&self) -> Option<WindowLayout> {
        self.layout
    }

    pub closed spec fn spec_cols(&self) -> usize {
        self.cols
    }

    pub closed spec fn spec_rows(&self) -> usize {
        self.rows
    }

    pub closed spec fn spec_cursor(&self) -> CursorPosition {
        self.cursor
    }

    /// The active selection, if any.
    pub closed spec fn spec_selection(&self) -> Option<PaneSelection> {
        self.selection
    }

    /// Every grid has the buffer's shape, and
    /// a selection belongs to a pane of the layout.
    pub closed spec fn wf(&self) -> bool {
        &&& shaped(self.spec_cells(), self.rows as nat, self.cols as nat)
        &&& shaped(self.spec_links(), self.rows as nat, self.cols as nat)
        &&& shaped(self.spec_continues(), self.rows as nat, self.cols as nat)
        &&& (self.selection matches Some(ps) ==> self.spec_pane_by_id(ps.pane_id) is Some)
    }

    /// A blank buffer of `cols` by `rows` with no layout.
    pub fn new(cols: usize, rows: usize) -> (b: ScreenBuffer)
        ensures
            b.wf(),
            b.spec_cols() == cols,
            b.spec_rows() == rows,
            b.spec_cells() == filled(rows as nat, cols as nat, blank_cell()),
            b.spec_links() == filled(rows as nat, cols as nat, NO_LINK),
            b.spec_continues() == filled(rows as nat, cols as nat, false),
            b.spec_urls() == Map::<u32, Seq<char>>::empty(),
            b.spec_layout() is None,
            b.spec_cursor() == (CursorPosition { row: 0, col: 0, visible: false }),
            b.spec_selection() is None,
    {
        let b = ScreenBuffer {
            cells: filled_vec(rows, cols, Cell::blank()),
            link_ids: filled_vec(rows, cols, NO_LINK),
            row_continues: filled_vec(rows, cols, false),
            urls: HashMap::new(),
            layout: None,
            cols,
            rows,
            cursor: CursorPosition::default(),
            selection: None,
        };
        assert(b.spec_cells() =~~= filled(rows as nat, cols as nat, blank_cell()));
        assert(b.spec_links() =~~= filled(rows as nat, cols as nat, NO_LINK));
        assert(b.spec_continues() =~~= filled(rows as nat, cols as nat, false));
        b
    }

    /// The dimensions as (columns, rows).
    pub fn dimensions(&self) -> (d: (usize, usize))
        ensures
            d == (self.spec_cols(), self.spec_rows()),
    {
        (self.cols, self.rows)
    }

    /// The current layout.
    pub fn layout(&self) -> (r: Option<&WindowLayout>)
        ensures
            r is None <==> self.spec_layout() is None,
            r matches Some(l) ==> *l == self.spec_layout()->0,
    {
        match &self.layout {
            Some(l) => Some(l),
            None => None,
        }
    }

    /// Set the cursor position (screen coordinates).
    pub fn set_cursor(&mut self, row: u16, col: u16, visible: bool)
        requires
            old(self).wf(),
        ensures
            final(self).wf(),
            final(self).spec_cursor() == (CursorPosition { row, col, visible }),
            final(self).spec_cells() == old(self).spec_cells(),
            final(self).spec_links() == old(self).spec_links(),
            final(self).spec_continues() == old(self).spec_continues(),
            final(self).spec_urls() == old(self).spec_urls(),
            final(self).spec_layout() == old(self).spec_layout(),
            final(self).spec_selection() == old(self).spec_selection(),
            final(self).spec_cols() == old(self).spec_cols(),
            final(self).spec_rows() == old(self).spec_rows(),
    {
        self.cursor = CursorPosition { row, col, visible };
    }

    /// `a + b`, or the largest `u16` where that overflows.
    pub open spec fn sat_add16(a: u16, b: u16) -> u16 {
        if a + b > u16::MAX {
            u16::MAX
        } else {
            (a + b) as u16
        }
    }

    /// Place the cursor reported by pane `pane_id` (in pane coordinates) on
    /// the screen, where that pane is the focused one; otherwise the cursor
    /// stays where it is. Returns whether it was placed.
    pub fn set_pane_cursor(&mut self, pane_id: u32, row: u16, col: u16, visible: bool) -> (placed: bool)
        requires
            old(self).wf(),
        ensures
            final(self).wf(),
            placed == (old(self).spec_pane_by_id(pane_id) matches Some(p) && p.focused),
            placed ==> final(self).spec_cursor() == (CursorPosition {
                row: Self::sat_add16(old(self).spec_pane_by_id(pane_id)->0.y, row),
                col: Self::sat_add16(old(self).spec_pane_by_id(pane_id)->0.x, col),
                visible,
            }),
            !placed ==> final(self).spec_cursor() == old(self).spec_cursor(),
            final(self).state() == old(self).state(),
            final(self).spec_layout() == old(self).spec_layout(),
            final(self).spec_selection() == old(self).spec_selection(),
            final(self).spec_cols() == old(self).spec_cols(),
            final(self).spec_rows() == old(self).spec_rows(),
    {
        match self.pane_by_id(pane_id) {
            Some(p) => {
                if p.focused {
                    self.cursor = CursorPosition { row: p.y.saturating_add(row), col: p.x.saturating_add(col), visible };
                    true
                } else {
                    false
                }
            },
            None => false,
        }
    }

    /// The cursor position.
    pub fn cursor(&self) -> (c: CursorPosition)
        ensures
            c == self.spec_cursor(),
    {
        self.cursor
    }

    /// The cells of row `row_idx`, if it exists.
    pub fn get_row(&self, row_idx: usize) -> (r: Option<&[Cell]>)
        requires
            self.wf(),
        ensures
            row_idx < self.spec_rows() ==> r is Some && r->0@ == self.spec_cells()[row_idx as int],
            row_idx < self.spec_rows() ==> r->0@.len() == self.spec_cols(),
            row_idx >= self.spec_rows() ==> r is None,
    {
        if row_idx < self.cells.len() {
            proof {
                assert(self.spec_cells()[row_idx as int].len() == self.cols);
            }
            Some(self.cells[row_idx].as_slice())
        } else {
            None
        }
    }

    /// Reset every cell to blank and drop all links, wrap flags and the selection.
    pub fn clear(&mut self)
        requires
            old(self).wf(),
        ensures
            final(self).wf(),
            final(self).spec_cells() == filled(old(self).spec_rows() as nat, old(self).spec_cols() as nat, blank_cell()),
            final(self).spec_links() == filled(old(self).spec_rows() as nat, old(self).spec_cols() as nat, NO_LINK),
            final(self).spec_continues() == filled(old(self).spec_rows() as nat, old(self).spec_cols() as nat, false),
            final(self).spec_urls() == Map::<u32, Seq<char>>::empty(),
            final(self).spec_selection() is None,
            final(self).spec_layout() == old(self).spec_layout(),
            final(self).spec_cursor() == old(self).spec_cursor(),
            final(self).spec_cols() == old(self).spec_cols(),
            final(self).spec_rows() == old(self).spec_rows(),
    {
        self.cells = filled_vec(self.rows, self.cols, Cell::blank());
        self.link_ids = filled_vec(self.rows, self.cols, NO_LINK);
        self.row_continues = filled_vec(self.rows, self.cols, false);
        self.urls.clear();
        self.selection = None;
        assert(self.spec_cells() =~~= filled(self.rows as nat, self.cols as nat, blank_cell()));
        assert(self.spec_links() =~~= filled(self.rows as nat, self.cols as nat, NO_LINK));
        assert(self.spec_continues() =~~= filled(self.rows as nat, self.cols as nat, false));
    }

    /// Resize: everything is cleared and the layout, cursor and selection reset.
    pub fn resize(&mut self, cols: usize, rows: usize)
        ensures
            final(self).wf(),
            final(self).spec_cols() == cols,
            final(self).spec_rows() == rows,
            final(self).spec_cells() == filled(rows as nat, cols as nat, blank_cell()),
            final(self).spec_links() == filled(rows as nat, cols as nat, NO_LINK),
            final(self).spec_continues() == filled(rows as nat, cols as nat, false),
            final(self).spec_urls() == Map::<u32, Seq<char>>::empty(),
            final(self).spec_layout() is None,
            final(self).spec_cursor() == (CursorPosition { row: 0, col: 0, visible: false }),
            final(self).spec_selection() is None,
    {
        *self = ScreenBuffer::new(cols, rows);
    }

    /// Install a layout: the buffer is cleared (selection included) and the
    /// dividers between the new layout's panes are drawn.
    pub fn set_layout(&mut self, layout: WindowLayout)
        requires
            old(self).wf(),
        ensures
            final(self).wf(),
            final(self).spec_layout() == Some(layout),
            final(self).spec_cells() == with_dividers(
                filled(old(self).spec_rows() as nat, old(self).spec_cols() as nat, blank_cell()),
                layout.panes@,
            ),
            final(self).spec_links() == filled(old(self).spec_rows() as nat, old(self).spec_cols() as nat, NO_LINK),
            final(self).spec_continues() == filled(old(self).spec_rows() as nat, old(self).spec_cols() as nat, false),
            final(self).spec_urls() == Map::<u32, Seq<char>>::empty(),
            final(self).spec_selection() is None,
            final(self).spec_cursor() == old(self).spec_cursor(),
            final(self).spec_cols() == old(self).spec_cols(),
            final(self).spec_rows() == old(self).spec_rows(),
    {
        self.clear();
        self.layout = Some(layout);
        self.draw_dividers();
    }

    /// The composited content: cells, link ids, wrap flags and link targets.
    pub open spec fn state(&self) -> ScreenState {
        ScreenState {
            cells: self.spec_cells(),
            links: self.spec_links(),
            continues: self.spec_continues(),
            urls: self.spec_urls(),
        }
    }

    /// The first pane of the layout with id `pane_id`.
    pub open spec fn spec_pane_by_id(&self, pane_id: u32) -> Option<PaneLayout> {
        match self.spec_panes() {
            Some(panes) => find_pane(panes, has_id(pane_id)),
            None => None,
        }
    }

    /// The first pane of the layout with id `pane_id`.
    fn pane_by_id(&self, pane_id: u32) -> (r: Option<PaneLayout>)
        ensures
            r == self.spec_pane_by_id(pane_id),
    {
        match &self.layout {
            None => None,
            Some(l) => {
                let mut i: usize = 0;
                while i < l.panes.len()
                    invariant
                        i <= l.panes@.len(),
                        self.spec_panes() == Some(l.panes@),
                        forall|j: int| 0 <= j < i ==> !has_id(pane_id)(#[trigger] l.panes@[j]),
                    decreases l.panes@.len() - i,
                {
                    if l.panes[i].pane_id == pane_id {
                        proof {
                            lemma_first_pane(l.panes@, has_id(pane_id), i as int);
                        }
                        return Some(l.panes[i]);
                    }
                    i = i + 1;
                }
                proof {
                    lemma_first_pane(l.panes@, has_id(pane_id), i as int);
                }
                None
            },
        }
    }

    /// Write rows of pane `pane_id` (in pane coordinates) onto the screen.
    /// Without a layout, or for a pane the layout does not have, nothing
    /// changes. Afterwards, a URL table grown past its threshold is pruned to
    /// the links still on screen.
    pub fn apply_pane_update(&mut self, pane_id: u32, changed_rows: &[PaneRow])
        requires
            old(self).wf(),
        ensures
            final(self).wf(),
            final(self).state() == match old(self).spec_pane_by_id(pane_id) {
                Some(p) => pruned(
                    apply_rows(
                        old(self).state(),
                        p,
                        changed_rows@,
                        old(self).spec_rows() as nat,
                        old(self).spec_cols() as nat,
                    ),
                ),
                None => old(self).state(),
            },
            final(self).spec_layout() == old(self).spec_layout(),
            final(self).spec_selection() == old(self).spec_selection(),
            final(self).spec_cursor() == old(self).spec_cursor(),
            final(self).spec_cols() == old(self).spec_cols(),
            final(self).spec_rows() == old(self).spec_rows(),
    {
        let pane = match self.pane_by_id(pane_id) {
            Some(p) => p,
            None => return ,
        };
        let ghost st0 = self.state();
        let mut i: usize = 0;
        while i < changed_rows.len()
            invariant
                i <= changed_rows@.len(),
                self.wf(),
                self.state() == apply_rows(
                    st0,
                    pane,
                    changed_rows@.take(i as int),
                    self.rows as nat,
                    self.cols as nat,
                ),
                st0 == old(self).state(),
                self.spec_layout() == old(self).spec_layout(),
                self.spec_selection() == old(self).spec_selection(),
                self.spec_cursor() == old(self).spec_cursor(),
                self.spec_cols() == old(self).spec_cols(),
                self.spec_rows() == old(self).spec_rows(),
            decreases changed_rows@.len() - i,
        {
            self.apply_row(pane, &changed_rows[i]);
            assert(changed_rows@.take(i + 1).drop_last() =~= changed_rows@.take(i as int));
            i = i + 1;
        }
        assert(changed_rows@.take(i as int) =~= changed_rows@);
        self.prune_urls();
    }

    /// Write one pane row.
    fn apply_row(&mut self, p: PaneLayout, pr: &PaneRow)
        requires
            old(self).wf(),
        ensures
            final(self).wf(),
            final(self).state() == apply_row(
                old(self).state(),
                p,
                *pr,
                old(self).spec_rows() as nat,
                old(self).spec_cols() as nat,
            ),
            final(self).spec_layout() == old(self).spec_layout(),
            final(self).spec_selection() == old(self).spec_selection(),
            final(self).spec_cursor() == old(self).spec_cursor(),
            final(self).spec_cols() == old(self).spec_cols(),
            final(self).spec_rows() == old(self).spec_rows(),
    {
        let sr = p.y as usize + pr.row_idx as usize;
        if sr >= self.rows {
            return ;
        }
        let ghost st0 = self.state();
        let px = p.x as usize;
        let pw = p.width as usize;
        let pane_end = if px + pw < self.cols {
            px + pw
        } else {
            self.cols
        };
        proof {
            assert(self.spec_links()[sr as int].len() == self.cols);
            assert(self.spec_continues()[sr as int].len() == self.cols);
            assert(self.spec_cells()[sr as int].len() == self.cols);
        }
        fill_range(&mut self.link_ids, sr, px, pane_end, NO_LINK);
        fill_range(&mut self.row_continues, sr, px, pane_end, pr.wrapped);
        proof {
            assert(row_set_range(st0.links[sr as int], px as int, pane_end as int, NO_LINK)
                =~= row_set_range(st0.links[sr as int], p.x as int, p.x + p.width, NO_LINK));
            assert(row_set_range(st0.continues[sr as int], px as int, pane_end as int, pr.wrapped)
                =~= row_set_range(st0.continues[sr as int], p.x as int, p.x + p.width, pr.wrapped));
        }
        paste_cells(&mut self.cells, sr, px, pw, &pr.cells);
        let ghost base = ScreenState {
            cells: st0.cells.update(sr as int, row_paste(st0.cells[sr as int], p.x as int, p.width as int, pr.cells@)),
            links: st0.links.update(sr as int, row_set_range(st0.links[sr as int], p.x as int, p.x + p.width, NO_LINK)),
            continues: st0.continues.update(sr as int, row_set_range(st0.continues[sr as int], p.x as int, p.x + p.width, pr.wrapped)),
            urls: st0.urls,
        };
        assert(self.state() == base);
        let mut j: usize = 0;
        while j < pr.links.len()
            invariant
                j <= pr.links@.len(),
                sr < self.rows,
                self.wf(),
                self.state() == crate::client::compose::apply_links(
                    base,
                    sr as int,
                    p,
                    pr.links@.take(j as int),
                    self.cols as nat,
                ),
                self.spec_layout() == old(self).spec_layout(),
                self.spec_selection() == old(self).spec_selection(),
                self.spec_cursor() == old(self).spec_cursor(),
                self.spec_cols() == old(self).spec_cols(),
                self.spec_rows() == old(self).spec_rows(),
            decreases pr.links@.len() - j,
        {
            self.apply_link(sr, p, &pr.links[j]);
            assert(pr.links@.take(j + 1).drop_last() =~= pr.links@.take(j as int));
            j = j + 1;
        }
        assert(pr.links@.take(j as int) =~= pr.links@);
    }

    /// Write one link onto screen row `sr`.
    fn apply_link(&mut self, sr: usize, p: PaneLayout, l: &RowLink)
        requires
            old(self).wf(),
            sr < old(self).spec_rows(),
        ensures
            final(self).wf(),
            final(self).state() == crate::client::compose::apply_link(
                old(self).state(),
                sr as int,
                p,
                *l,
                old(self).spec_cols() as nat,
            ),
            final(self).spec_layout() == old(self).spec_layout(),
            final(self).spec_selection() == old(self).spec_selection(),
            final(self).spec_cursor() == old(self).spec_cursor(),
            final(self).spec_cols() == old(self).spec_cols(),
            final(self).spec_rows() == old(self).spec_rows(),
    {
        if has_control_char(l.url.as_str()) {
            return ;
        }
        let start = p.x as usize + l.start_col as usize;
        let e = p.x as usize + l.end_col as usize;
        let pane_end = p.x as usize + p.width as usize;
        let e1 = if e < pane_end {
            e
        } else {
            pane_end
        };
        let end = if e1 < self.cols {
            e1
        } else {
            self.cols
        };
        assert(start == link_start(p, *l) && end == link_end(p, *l, self.cols as nat));
        if l.id == NO_LINK || start >= end {
            return ;
        }
        assert(link_applies(p, *l, self.cols as nat));
        proof {
            assert(self.spec_links()[sr as int].len() == self.cols);
            assert(self.spec_cells()[sr as int].len() == self.cols);
        }
        let ghost before = url_map(self.urls@);
        self.urls.insert(l.id, l.url.clone());
        proof {
            assert(url_map(self.urls@) =~= before.insert(l.id, l.url@));
        }
        fill_range(&mut self.link_ids, sr, start, end, l.id);
        if l.detected {
            underline_range(&mut self.cells, sr, start, end);
        }
    }

    /// Drop the URLs of links no longer on screen, once the table has grown
    /// past its threshold.
    fn prune_urls(&mut self)
        requires
            old(self).wf(),
        ensures
            final(self).wf(),
            final(self).state() == pruned(old(self).state()),
            final(self).spec_layout() == old(self).spec_layout(),
            final(self).spec_selection() == old(self).spec_selection(),
            final(self).spec_cursor() == old(self).spec_cursor(),
            final(self).spec_cols() == old(self).spec_cols(),
            final(self).spec_rows() == old(self).spec_rows(),
    {
        proof {
            assert(url_map(self.urls@).dom() =~= self.urls@.dom());
        }
        if self.urls.len() <= PRUNE_THRESHOLD {
            return ;
        }
        remove_dead_links(&mut self.urls, &self.link_ids);
    }

    /// The URL of the link at a screen position, if there is one.
    pub fn link_at(&self, row: usize, col: usize) -> (r: Option<&str>)
        requires
            self.wf(),
        ensures
            r is Some <==> (row < self.spec_rows() && col < self.spec_cols()
                && self.spec_urls().contains_key(self.spec_links()[row as int][col as int])),
            r matches Some(u) ==> u@ == self.spec_urls()[self.spec_links()[row as int][col as int]],
    {
        if row >= self.rows || col >= self.cols {
            return None;
        }
        proof {
            assert(self.spec_links()[row as int].len() == self.cols);
            assert(self.spec_links()[row as int] == self.link_ids@[row as int]@);
        }
        let id = self.link_ids[row][col];
        match self.urls.get(&id) {
            Some(u) => Some(u.as_str()),
            None => None,
        }
    }

    /// The first pane of the layout covering a screen position.
    pub open spec fn spec_pane_at(&self, row: int, col: int) -> Option<PaneLayout> {
        match self.spec_panes() {
            Some(panes) => find_pane(panes, covers(row, col)),
            None => None,
        }
    }

    /// The first pane of the layout covering a screen position.
    fn pane_at(&self, row: usize, col: usize) -> (r: Option<PaneLayout>)
        ensures
            r == self.spec_pane_at(row as int, col as int),
    {
        match &self.layout {
            None => None,
            Some(l) => {
                let mut i: usize = 0;
                while i < l.panes.len()
                    invariant
                        i <= l.panes@.len(),
                        self.spec_panes() == Some(l.panes@),
                        forall|j: int| 0 <= j < i ==> !covers(row as int, col as int)(#[trigger] l.panes@[j]),
                    decreases l.panes@.len() - i,
                {
                    let p = l.panes[i];
                    if row >= p.y as usize && row < p.y as usize + p.height as usize && col >= p.x as usize
                        && col < p.x as usize + p.width as usize {
                        proof {
                            lemma_first_pane(l.panes@, covers(row as int, col as int), i as int);
                        }
                        return Some(p);
                    }
                    i = i + 1;
                }
                proof {
                    lemma_first_pane(l.panes@, covers(row as int, col as int), i as int);
                }
                None
            },
        }
    }

    /// Start a selection at a screen position. Outside every pane (on a
    /// divider, or past the layout) nothing happens, so a stray click leaves
    /// an earlier selection as it was. Returns whether a selection was started.
    pub fn begin_selection(&mut self, row: usize, col: usize, mode: SelectionMode) -> (started: bool)
        requires
            old(self).wf(),
        ensures
            final(self).wf(),
            started == old(self).spec_pane_at(row as int, col as int) is Some,
            final(self).spec_selection() == match old(self).spec_pane_at(row as int, col as int) {
                Some(p) => Some(
                    PaneSelection {
                        pane_id: p.pane_id,
                        selection: Selection {
                            start: Point { line: row as i32, col },
                            end: Point { line: row as i32, col },
                            mode,
                            active: false,
                        },
                    },
                ),
                None => old(self).spec_selection(),
            },
            final(self).state() == old(self).state(),
            final(self).spec_layout() == old(self).spec_layout(),
            final(self).spec_cursor() == old(self).spec_cursor(),
            final(self).spec_cols() == old(self).spec_cols(),
            final(self).spec_rows() == old(self).spec_rows(),
    {
        match self.pane_at(row, col) {
            None => false,
            Some(pane) => {
                proof {
                    let panes = self.spec_panes()->0;
                    lemma_find_pane_in(panes, covers(row as int, col as int));
                    let i = choose|i: int| 0 <= i < panes.len() && panes[i] == pane;
                    lemma_first_pane_exists(panes, has_id(pane.pane_id), i);
                }
                self.selection = Some(
                    PaneSelection {
                        pane_id: pane.pane_id,
                        selection: Selection::start(Point::new(row as i32, col), mode),
                    },
                );
                true
            },
        }
    }

    /// The pane of the active selection can have a point clamped into it: a
    /// pane with no rows (or no columns) must start at row (or column) 0.
    pub open spec fn selection_clampable(&self) -> bool {
        match self.spec_selection() {
            Some(ps) => match self.spec_pane_by_id(ps.pane_id) {
                Some(p) => clampable(p),
                None => true,
            },
            None => true,
        }
    }

    /// Whether the active selection can be extended: its pane, where it is
    /// still in the layout, can have a point clamped into it.
    pub fn can_extend_selection(&self) -> (b: bool)
        requires
            self.wf(),
        ensures
            b == self.selection_clampable(),
    {
        match self.selection {
            Some(ps) => match self.pane_by_id(ps.pane_id) {
                Some(p) => (p.height > 0 || p.y == 0) && (p.width > 0 || p.x == 0),
                None => true,
            },
            None => true,
        }
    }

    /// Extend the active selection to a screen position clamped into the pane
    /// it started in. Returns false, changing nothing, when there is no
    /// selection or its pane is gone from the layout.
    pub fn extend_selection(&mut self, row: usize, col: usize) -> (extended: bool)
        requires
            old(self).wf(),
            old(self).selection_clampable(),
        ensures
            final(self).wf(),
            extended == (old(self).spec_selection() matches Some(ps) && old(self).spec_pane_by_id(ps.pane_id) is Some),
            final(self).spec_selection() == match old(self).spec_selection() {
                Some(ps) => match old(self).spec_pane_by_id(ps.pane_id) {
                    Some(p) => Some(
                        PaneSelection {
                            pane_id: ps.pane_id,
                            selection: Selection {
                                end: clamp_point(p, row as int, col as int),
                                active: true,
                                ..ps.selection
                            },
                        },
                    ),
                    None => Some(ps),
                },
                None => None,
            },
            final(self).state() == old(self).state(),
            final(self).spec_layout() == old(self).spec_layout(),
            final(self).spec_cursor() == old(self).spec_cursor(),
            final(self).spec_cols() == old(self).spec_cols(),
            final(self).spec_rows() == old(self).spec_rows(),
    {
        let active = match self.selection {
            Some(a) => a,
            None => return false,
        };
        let pane = match self.pane_by_id(active.pane_id) {
            Some(p) => p,
            None => return false,
        };
        let point = clamp_to_pane(pane, row, col);
        let mut selection = active.selection;
        selection.extend(point);
        self.selection = Some(PaneSelection { pane_id: active.pane_id, selection });
        true
    }

    /// Drop any active selection.
    pub fn clear_selection(&mut self)
        requires
            old(self).wf(),
        ensures
            final(self).wf(),
            final(self).spec_selection() is None,
            final(self).state() == old(self).state(),
            final(self).spec_layout() == old(self).spec_layout(),
            final(self).spec_cursor() == old(self).spec_cursor(),
            final(self).spec_cols() == old(self).spec_cols(),
            final(self).spec_rows() == old(self).spec_rows(),
    {
        self.selection = None;
    }

    /// Whether a selection is active and covers cells.
    pub fn has_selection(&self) -> (b: bool)
        ensures
            b == (self.spec_selection() matches Some(ps) && ps.selection.active),
    {
        match &self.selection {
            Some(a) => a.selection.active,
            None => false,
        }
    }

    /// The text of the active selection, if any.
    pub open spec fn spec_selected_text(&self) -> Option<Seq<char>> {
        match self.spec_selection() {
            None => None,
            Some(ps) => if !ps.selection.active {
                None
            } else {
                match self.spec_pane_by_id(ps.pane_id) {
                    None => None,
                    Some(p) => Some(
                        sel_text(
                            self.spec_cells(),
                            self.spec_continues(),
                            ps.selection,
                            p,
                            self.spec_rows() as nat,
                            self.spec_cols() as nat,
                        ),
                    ),
                }
            },
        }
    }

    /// The selected text, or `None` when nothing is selected. Rows that
    /// continue onto the next are joined without a newline, so a long path
    /// copied out of a pane comes back unbroken; hard line ends lose their
    /// trailing blanks.
    pub fn selected_text(&self) -> (r: Option<String>)
        requires
            self.wf(),
        ensures
            r is None <==> self.spec_selected_text() is None,
            r matches Some(t) ==> t@ == self.spec_selected_text()->0,
    {
        let active = match self.selection {
            Some(a) => a,
            None => return None,
        };
        if !active.selection.active {
            return None;
        }
        let pane = match self.pane_by_id(active.pane_id) {
            Some(p) => p,
            None => return None,
        };
        let sel = active.selection;
        let (start, end) = sel.normalized();
        let pane_first = pane.y as usize;
        let pe = pane.y as usize + pane.height as usize;
        let pane_last = if pe < self.rows {
            pe
        } else {
            self.rows
        };
        let s0: usize = if start.line < 0 {
            0
        } else {
            start.line as usize
        };
        let first_row = if s0 < pane_first {
            pane_first
        } else {
            s0
        };
        let e0: usize = if end.line < 0 {
            1
        } else {
            end.line as usize + 1
        };
        let last_row = if e0 < pane_last {
            e0
        } else {
            pane_last
        };
        assert(first_row == sel_first_row(sel, pane));
        assert(last_row == sel_end_row(sel, pane, self.rows as nat));
        let (cstart, cend) = self.pane_columns(pane);
        let mut text = String::new();
        let mut pending = false;
        let mut row = first_row;
        while row < last_row
            invariant
                self.wf(),
                first_row == sel_first_row(sel, pane),
                first_row <= row,
                row == first_row || row <= last_row,
                last_row <= self.rows,
                cstart == pane.x,
                cend == pane_col_end(pane, self.cols as nat),
                cend <= self.cols || cend == cstart,
                text@ == sel_text_upto(self.spec_cells(), self.spec_continues(), sel, pane, self.cols as nat, row as int).0,
                pending == sel_text_upto(self.spec_cells(), self.spec_continues(), sel, pane, self.cols as nat, row as int).1,
            decreases last_row - row,
        {
            let ghost prev = sel_text_upto(self.spec_cells(), self.spec_continues(), sel, pane, self.cols as nat, row as int);
            let ghost next = sel_text_upto(self.spec_cells(), self.spec_continues(), sel, pane, self.cols as nat, row + 1);
            let (seg, last_col) = self.row_segment(sel, row, cstart, cend);
            proof {
                assert(row + 1 - 1 == row);
                assert(next == {
                    let seg = segment(self.spec_cells()[row as int], sel, row as int, pane.x as int, pane_col_end(pane, self.cols as nat));
                    if seg.len() == 0 {
                        prev
                    } else {
                        let text1 = if prev.1 { prev.0.push('\n') } else { prev.0 };
                        let cont = match last_selected(sel, row as int, pane.x as int, pane_col_end(pane, self.cols as nat)) {
                            Some(c) => self.spec_continues()[row as int][c],
                            None => false,
                        } && sel.mode != SelectionMode::Block;
                        if cont {
                            (text1 + seg, false)
                        } else {
                            (text1 + trim_end(seg), true)
                        }
                    }
                });
            }
            if seg.len() > 0 {
                if pending {
                    push_char(&mut text, '\n');
                }
                let continues = match last_col {
                    Some(c) => {
                        proof {
                            assert(self.spec_continues()[row as int].len() == self.cols);
                            assert(self.spec_continues()[row as int] == self.row_continues@[row as int]@);
                        }
                        self.row_continues[row][c]
                    },
                    None => false,
                } && sel.mode != SelectionMode::Block;
                if continues {
                    push_chars(&mut text, &seg);
                    pending = false;
                } else {
                    push_trimmed(&mut text, &seg);
                    pending = true;
                }
            }
            assert(text@ =~= next.0);
            assert(pending == next.1);
            row = row + 1;
        }
        proof {
            if last_row <= first_row {
                assert(row == first_row);
            }
        }
        Some(text)
    }

    /// The selected characters of screen row `row` in columns `x..end`, and
    /// the last selected column.
    fn row_segment(&self, sel: Selection, row: usize, x: usize, end: usize) -> (r: (Vec<char>, Option<usize>))
        requires
            self.wf(),
            row < self.spec_rows(),
            end <= self.spec_cols() || end <= x,
        ensures
            r.0@ == segment(self.spec_cells()[row as int], sel, row as int, x as int, end as int),
            r.1 is Some <==> last_selected(sel, row as int, x as int, end as int) is Some,
            r.1 matches Some(c) ==> last_selected(sel, row as int, x as int, end as int) == Some(c as int),
            r.1 matches Some(c) ==> x <= c < end,
    {
        let ghost cells_row = self.spec_cells()[row as int];
        proof {
            assert(cells_row == self.cells@[row as int]@);
            assert(cells_row.len() == self.cols);
        }
        let mut seg: Vec<char> = Vec::new();
        let mut last: Option<usize> = None;
        let mut c = x;
        while c < end
            invariant
                x <= c,
                c == x || c <= end,
                end <= cells_row.len() || end <= x,
                cells_row == self.cells@[row as int]@,
                row < self.cells@.len(),
                seg@ == segment(cells_row, sel, row as int, x as int, c as int),
                last is Some <==> last_selected(sel, row as int, x as int, c as int) is Some,
                last matches Some(k) ==> last_selected(sel, row as int, x as int, c as int) == Some(k as int),
                last matches Some(k) ==> x <= k < c,
            decreases end - c,
        {
            if sel.contains(Point::new(row as i32, c)) {
                seg.push(self.cells[row][c].c);
                last = Some(c);
            }
            c = c + 1;
            assert(seg@ =~= segment(cells_row, sel, row as int, x as int, c as int));
        }
        proof {
            if end <= x {
                assert(segment(cells_row, sel, row as int, x as int, end as int) =~= seg@);
            }
        }
        (seg, last)
    }

    /// The screen columns of a pane, clipped to the buffer.
    fn pane_columns(&self, pane: PaneLayout) -> (r: (usize, usize))
        ensures
            r.0 == pane.x,
            r.1 == pane_col_end(pane, self.spec_cols() as nat),
            r.0 <= r.1,
            r.1 <= self.spec_cols() || r.1 == r.0,
    {
        let start = pane.x as usize;
        let e = start + pane.width as usize;
        let e1 = if e < self.cols {
            e
        } else {
            self.cols
        };
        (start, if e1 < start {
            start
        } else {
            e1
        })
    }

    /// The cells of row `r` as shown: selected cells of the selection's pane
    /// inverted.
    pub open spec fn spec_display_row(&self, r: int) -> Seq<Cell> {
        match self.spec_selection() {
            Some(ps) => if ps.selection.active {
                match self.spec_pane_by_id(ps.pane_id) {
                    Some(p) => highlighted(self.spec_cells()[r], ps.selection, p, r, self.spec_cols() as nat),
                    None => self.spec_cells()[r],
                }
            } else {
                self.spec_cells()[r]
            },
            None => self.spec_cells()[r],
        }
    }

    /// Render row `row_idx` as ANSI, with its hyperlinks and any selection
    /// highlight; a row past the bottom renders as nothing.
    pub fn render_row_ansi(&self, row_idx: usize) -> (s: String)
        requires
            self.wf(),
        ensures
            row_idx < self.spec_rows() ==> s@ == ansi_row(
                self.spec_display_row(row_idx as int),
                self.spec_links()[row_idx as int],
                self.spec_urls(),
            ),
            row_idx >= self.spec_rows() ==> s@ == Seq::<char>::empty(),
            row_idx < self.spec_rows() ==> s@.len() > 0,
    {
        if row_idx >= self.cells.len() {
            return String::new();
        }
        proof {
            assert(self.spec_cells()[row_idx as int] == self.cells@[row_idx as int]@);
            assert(self.spec_links()[row_idx as int] == self.link_ids@[row_idx as int]@);
        }
        let highlighted_row = self.highlight_selection(row_idx);
        let out = match highlighted_row {
            Some(h) => cells_to_ansi_with_links(h.as_slice(), self.link_ids[row_idx].as_slice(), &self.urls),
            None => cells_to_ansi_with_links(
                self.cells[row_idx].as_slice(),
                self.link_ids[row_idx].as_slice(),
                &self.urls,
            ),
        };
        proof {
            reveal_strlit("\x1b[0m");
        }
        out
    }

    /// A copy of row `row_idx` with its selected cells inverted, or `None` when
    /// the row has no selected cells.
    fn highlight_selection(&self, row_idx: usize) -> (r: Option<Vec<Cell>>)
        requires
            self.wf(),
            row_idx < self.spec_rows(),
        ensures
            r matches Some(h) ==> h@ == self.spec_display_row(row_idx as int),
            r is None ==> self.spec_display_row(row_idx as int) == self.spec_cells()[row_idx as int],
    {
        let ghost row = self.spec_cells()[row_idx as int];
        let active = match self.selection {
            Some(a) => a,
            None => return None,
        };
        if !active.selection.active {
            return None;
        }
        let pane = match self.pane_by_id(active.pane_id) {
            Some(p) => p,
            None => return None,
        };
        let sel = active.selection;
        let (cstart, cend) = self.pane_columns(pane);
        proof {
            assert(row == self.cells@[row_idx as int]@);
            assert(row.len() == self.cols);
        }
        let mut out: Vec<Cell> = Vec::new();
        let mut any = false;
        let mut c: usize = 0;
        while c < self.cols
            invariant
                self.wf(),
                c <= self.cols,
                row_idx < self.rows,
                row == self.cells@[row_idx as int]@,
                row.len() == self.cols,
                cstart == pane.x,
                cend == pane_col_end(pane, self.cols as nat),
                out@ == highlighted(row, sel, pane, row_idx as int, self.cols as nat).take(c as int),
                any == exists|k: int| 0 <= k < c && cstart <= k < cend && #[trigger] sel_covers(sel, row_idx as int, k),
            decreases self.cols - c,
        {
            let cell = self.cells[row_idx][c];
            if cstart <= c && c < cend && sel.contains(Point::new(row_idx as i32, c)) {
                let mut inv = cell;
                inv.flags.insert(CellFlags::INVERSE);
                out.push(inv);
                any = true;
                assert(sel_covers(sel, row_idx as int, c as int));
            } else {
                out.push(cell);
            }
            c = c + 1;
            assert(out@ =~= highlighted(row, sel, pane, row_idx as int, self.cols as nat).take(c as int));
        }
        assert(highlighted(row, sel, pane, row_idx as int, self.cols as nat).take(c as int)
            =~= highlighted(row, sel, pane, row_idx as int, self.cols as nat));
        if any {
            Some(out)
        } else {
            assert(highlighted(row, sel, pane, row_idx as int, self.cols as nat) =~= row);
            None
        }
    }

    /// Draw the dividers of the current layout over the cells.
    fn draw_dividers(&mut self)
        requires
            old(self).wf(),
        ensures
            final(self).wf(),
            final(self).spec_cells() == match old(self).spec_panes() {
                Some(panes) => with_dividers(old(self).spec_cells(), panes),
                None => old(self).spec_cells(),
            },
            final(self).spec_links() == old(self).spec_links(),
            final(self).spec_continues() == old(self).spec_continues(),
            final(self).spec_urls() == old(self).spec_urls(),
            final(self).spec_layout() == old(self).spec_layout(),
            final(self).spec_selection() == old(self).spec_selection(),
            final(self).spec_cursor() == old(self).spec_cursor(),
            final(self).spec_cols() == old(self).spec_cols(),
            final(self).spec_rows() == old(self).spec_rows(),
    {
        let panes = match &self.layout {
            Some(l) => copy_panes(&l.panes),
            None => return,
        };
        let ghost g0 = self.spec_cells();
        let n = panes.len();
        let mut i: usize = 0;
        while i < n
            invariant
                i <= n,
                n == panes@.len(),
                old(self).spec_panes() == Some(panes@),
                self.wf(),
                self.spec_cells() == with_dividers(g0, panes@.take(i as int)),
                g0 == old(self).spec_cells(),
                self.spec_links() == old(self).spec_links(),
                self.spec_continues() == old(self).spec_continues(),
                self.spec_urls() == old(self).spec_urls(),
                self.spec_layout() == old(self).spec_layout(),
                self.spec_selection() == old(self).spec_selection(),
                self.spec_cursor() == old(self).spec_cursor(),
                self.spec_cols() == old(self).spec_cols(),
                self.spec_rows() == old(self).spec_rows(),
            decreases n - i,
        {
            let p = panes[i];
            self.draw_left_divider(p);
            self.draw_top_divider(p);
            assert(panes@.take(i + 1).drop_last() =~= panes@.take(i as int));
            i = i + 1;
        }
        assert(panes@.take(n as int) =~= panes@);
    }

    /// Draw the vertical divider to the left of `p`.
    fn draw_left_divider(&mut self, p: PaneLayout)
        requires
            old(self).wf(),
        ensures
            final(self).wf(),
            final(self).spec_cells() == left_divided(old(self).spec_cells(), p),
            final(self).spec_links() == old(self).spec_links(),
            final(self).spec_continues() == old(self).spec_continues(),
            final(self).spec_urls() == old(self).spec_urls(),
            final(self).spec_layout() == old(self).spec_layout(),
            final(self).spec_selection() == old(self).spec_selection(),
            final(self).spec_cursor() == old(self).spec_cursor(),
            final(self).spec_cols() == old(self).spec_cols(),
            final(self).spec_rows() == old(self).spec_rows(),
    {
        let ghost g = self.spec_cells();
        if p.x > 0 {
            let dcol = p.x as usize - 1;
            let end = p.y as usize + p.height as usize;
            let mut r = p.y as usize;
            while r < end
                invariant
                    p.y <= r <= end,
                    end == p.y + p.height,
                    dcol == p.x - 1,
                    self.wf(),
                    g == old(self).spec_cells(),
                    self.cols == old(self).cols,
                    self.rows == old(self).rows,
                    forall|rr: int, c: int|
                        0 <= rr < self.rows && 0 <= c < self.cols ==> #[trigger] self.spec_cells()[rr][c] == if p.y
                            <= rr < r && c == dcol {
                            divider('\u{2502}')
                        } else {
                            g[rr][c]
                        },
                    self.spec_links() == old(self).spec_links(),
                    self.spec_continues() == old(self).spec_continues(),
                    self.spec_urls() == old(self).spec_urls(),
                    self.spec_layout() == old(self).spec_layout(),
                    self.spec_selection() == old(self).spec_selection(),
                    self.spec_cursor() == old(self).spec_cursor(),
                decreases end - r,
            {
                if r < self.rows && dcol < self.cols {
                    proof {
                        assert(self.spec_cells()[r as int].len() == self.cols);
                        assert(self.spec_cells()[r as int] == self.cells@[r as int]@);
                    }
                    set2(&mut self.cells, r, dcol, divider_cell('\u{2502}'));
                }
                r = r + 1;
            }
        }
        proof {
            assert forall|r: int, c: int| 0 <= r < self.rows && 0 <= c < self.cols implies #[trigger] self.spec_cells()[r][c] == left_divided(g, p)[r][c] by {
                assert(g[r].len() == self.cols);
            }
            lemma_grid_ext(self.spec_cells(), left_divided(g, p), self.rows as nat, self.cols as nat);
        }
    }

    /// Draw the horizontal divider above `p`, making junctions where it crosses
    /// a vertical divider.
    fn draw_top_divider(&mut self, p: PaneLayout)
        requires
            old(self).wf(),
        ensures
            final(self).wf(),
            final(self).spec_cells() == top_divided(old(self).spec_cells(), p),
            final(self).spec_links() == old(self).spec_links(),
            final(self).spec_continues() == old(self).spec_continues(),
            final(self).spec_urls() == old(self).spec_urls(),
            final(self).spec_layout() == old(self).spec_layout(),
            final(self).spec_selection() == old(self).spec_selection(),
            final(self).spec_cursor() == old(self).spec_cursor(),
            final(self).spec_cols() == old(self).spec_cols(),
            final(self).spec_rows() == old(self).spec_rows(),
    {
        let ghost g = self.spec_cells();
        if p.y == 0 || p.y as usize - 1 >= self.rows {
            proof {
                assert forall|r: int, c: int| 0 <= r < self.rows && 0 <= c < self.cols implies #[trigger] self.spec_cells()[r][c] == top_divided(g, p)[r][c] by {
                    assert(g[r].len() == self.cols);
                }
                lemma_grid_ext(self.spec_cells(), top_divided(g, p), self.rows as nat, self.cols as nat);
            }
            return;
        }
        let drow = p.y as usize - 1;
        let end = p.x as usize + p.width as usize;
        let mut c = p.x as usize;
        while c < end
            invariant
                p.x <= c <= end,
                end == p.x + p.width,
                drow == p.y - 1,
                drow < self.rows,
                self.wf(),
                g == old(self).spec_cells(),
                self.cols == old(self).cols,
                self.rows == old(self).rows,
                forall|rr: int, cc: int|
                    0 <= rr < self.rows && 0 <= cc < self.cols ==> #[trigger] self.spec_cells()[rr][cc]
                        == top_div_partial(g, p, c as int, rr, cc),
                self.spec_links() == old(self).spec_links(),
                self.spec_continues() == old(self).spec_continues(),
                self.spec_urls() == old(self).spec_urls(),
                self.spec_layout() == old(self).spec_layout(),
                self.spec_selection() == old(self).spec_selection(),
                self.spec_cursor() == old(self).spec_cursor(),
            decreases end - c,
        {
            if c < self.cols {
                proof {
                    assert(self.spec_cells()[drow as int].len() == self.cols);
                    assert(self.spec_cells()[drow as int] == self.cells@[drow as int]@);
                }
                let existing = self.cells[drow][c].c;
                assert(existing == g[drow as int][c as int].c) by {
                    assert(top_div_partial(g, p, c as int, drow as int, c as int) == g[drow as int][c as int]);
                }
                let ch = if existing == '\u{2502}' { '\u{253c}' } else { '\u{2500}' };
                set2(&mut self.cells, drow, c, divider_cell(ch));
            }
            c = c + 1;
        }
        proof {
            assert forall|r: int, c: int| 0 <= r < self.rows && 0 <= c < self.cols implies #[trigger] self.spec_cells()[r][c] == top_divided(g, p)[r][c] by {
                assert(g[r].len() == self.cols);
            }
            lemma_grid_ext(self.spec_cells(), top_divided(g, p), self.rows as nat, self.cols as nat);
        }
    }
}

/// A divider cell showing `c`.
fn divider_cell(c: char) -> (cell: Cell)
    ensures
        cell == divider(c),
{
    Cell::styled(c, Color::indexed(8), Color::default_color(), CellFlags::empty())
}

/// A copy of a list of pane layouts.
fn copy_panes(v: &Vec<PaneLayout>) -> (r: Vec<PaneLayout>)
    ensures
        r@ == v@,
{
    let mut r: Vec<PaneLayout> = Vec::new();
    let mut i: usize = 0;
    while i < v.len()
        invariant
            i <= v@.len(),
            r@ == v@.take(i as int),
        decreases v@.len() - i,
    {
        r.push(v[i]);
        i = i + 1;
        assert(r@ =~= v@.take(i as int));
    }
    assert(v@.take(v@.len() as int) =~= v@);
    r
}

/// A `rows` by `cols` nested vector of copies of `x`.
fn filled_vec<T: Copy>(rows: usize, cols: usize, x: T) -> (v: Vec<Vec<T>>)
    ensures
        rows_view(v@) =~~= filled(rows as nat, cols as nat, x),
{
    let mut v: Vec<Vec<T>> = Vec::new();
    let mut i: usize = 0;
    while i < rows
        invariant
            i <= rows,
            v@.len() == i,
            forall|k: int| 0 <= k < i ==> #[trigger] v@[k]@ == Seq::new(cols as nat, |c: int| x),
        decreases rows - i,
    {
        let mut row: Vec<T> = Vec::new();
        let mut j: usize = 0;
        while j < cols
            invariant
                j <= cols,
                row@ == Seq::new(j as nat, |c: int| x),
            decreases cols - j,
        {
            row.push(x);
            j = j + 1;
            assert(row@ =~= Seq::new(j as nat, |c: int| x));
        }
        v.push(row);
        i = i + 1;
    }
    v
}

/// Set `v[r][c] = x`.
fn set2<T: Copy>(v: &mut Vec<Vec<T>>, r: usize, c: usize, x: T)
    requires
        r < old(v)@.len(),
        c < old(v)@[r as int]@.len(),
    ensures
        rows_view(final(v)@) == rows_view(old(v)@).update(r as int, rows_view(old(v)@)[r as int].update(c as int, x)),
        final(v)@.len() == old(v)@.len(),
        final(v)@[r as int]@.len() == old(v)@[r as int]@.len(),
{
    v[r].set(c, x);
    assert(rows_view(v@) =~~= rows_view(old(v)@).update(r as int, rows_view(old(v)@)[r as int].update(c as int, x)));
}

/// Set `v[r][lo..hi]` to `x`.
fn fill_range<T: Copy>(v: &mut Vec<Vec<T>>, r: usize, lo: usize, hi: usize, x: T)
    requires
        r < old(v)@.len(),
        hi <= old(v)@[r as int]@.len(),
    ensures
        rows_view(final(v)@) == rows_view(old(v)@).update(
            r as int,
            row_set_range(old(v)@[r as int]@, lo as int, hi as int, x),
        ),
{
    let ghost v0 = rows_view(v@);
    let mut c = lo;
    assert(row_set_range(v0[r as int], lo as int, lo as int, x) =~= v0[r as int]);
    assert(rows_view(v@) =~~= v0.update(r as int, row_set_range(v0[r as int], lo as int, c as int, x)));
    while c < hi
        invariant
            lo <= c,
            c == lo || c <= hi,
            hi <= v0[r as int].len(),
            r < v0.len(),
            v0 == rows_view(old(v)@),
            v@.len() == v0.len(),
            v@[r as int]@.len() == v0[r as int].len(),
            rows_view(v@) == v0.update(r as int, row_set_range(v0[r as int], lo as int, c as int, x)),
        decreases hi - c,
    {
        set2(v, r, c, x);
        assert(rows_view(v@)[r as int] == v@[r as int]@);
        c = c + 1;
        assert(rows_view(v@) =~~= v0.update(r as int, row_set_range(v0[r as int], lo as int, c as int, x)));
    }
    assert(row_set_range(v0[r as int], lo as int, c as int, x) =~= row_set_range(v0[r as int], lo as int, hi as int, x));
}

/// Write `src` into row `r` from column `at`, at most `width` cells of it and
/// not past the end of the row.
fn paste_cells(v: &mut Vec<Vec<Cell>>, r: usize, at: usize, width: usize, src: &Vec<Cell>)
    requires
        r < old(v)@.len(),
    ensures
        rows_view(final(v)@) == rows_view(old(v)@).update(
            r as int,
            row_paste(old(v)@[r as int]@, at as int, width as int, src@),
        ),
{
    let ghost v0 = rows_view(v@);
    let len = v[r].len();
    let room = if at < len {
        len - at
    } else {
        0
    };
    let n0 = if src.len() < width {
        src.len()
    } else {
        width
    };
    let n = if n0 < room {
        n0
    } else {
        room
    };
    let mut k: usize = 0;
    assert(row_paste(v0[r as int], at as int, 0, src@) =~= v0[r as int]);
    while k < n
        invariant
            k <= n,
            n <= src@.len(),
            n <= width,
            at + n <= len || n == 0,
            len == v0[r as int].len(),
            r < v0.len(),
            v0 == rows_view(old(v)@),
            v@.len() == v0.len(),
            v@[r as int]@.len() == v0[r as int].len(),
            rows_view(v@) == v0.update(r as int, row_paste(v0[r as int], at as int, k as int, src@)),
        decreases n - k,
    {
        set2(v, r, at + k, src[k]);
        assert(rows_view(v@)[r as int] == v@[r as int]@);
        k = k + 1;
        assert(rows_view(v@) =~~= v0.update(r as int, row_paste(v0[r as int], at as int, k as int, src@)));
    }
    assert(row_paste(v0[r as int], at as int, k as int, src@) =~= row_paste(v0[r as int], at as int, width as int, src@));
}

/// Underline the cells `lo..hi` of row `r`.
fn underline_range(v: &mut Vec<Vec<Cell>>, r: usize, lo: usize, hi: usize)
    requires
        r < old(v)@.len(),
        hi <= old(v)@[r as int]@.len(),
    ensures
        rows_view(final(v)@) == rows_view(old(v)@).update(r as int, row_underline(old(v)@[r as int]@, lo as int, hi as int)),
{
    let ghost v0 = rows_view(v@);
    let mut c = lo;
    assert(row_underline(v0[r as int], lo as int, lo as int) =~= v0[r as int]);
    assert(rows_view(v@) =~~= v0.update(r as int, row_underline(v0[r as int], lo as int, c as int)));
    while c < hi
        invariant
            lo <= c,
            c == lo || c <= hi,
            hi <= v0[r as int].len(),
            r < v0.len(),
            v0 == rows_view(old(v)@),
            v@.len() == v0.len(),
            v@[r as int]@.len() == v0[r as int].len(),
            rows_view(v@) == v0.update(r as int, row_underline(v0[r as int], lo as int, c as int)),
        decreases hi - c,
    {
        assert(v@[r as int]@ == rows_view(v@)[r as int]);
        let mut cell = v[r][c];
        cell.flags.insert(CellFlags::UNDERLINE);
        assert(cell == underlined(v0[r as int][c as int]));
        set2(v, r, c, cell);
        assert(rows_view(v@)[r as int] == v@[r as int]@);
        c = c + 1;
        assert(rows_view(v@) =~~= v0.update(r as int, row_underline(v0[r as int], lo as int, c as int)));
    }
    assert(row_underline(v0[r as int], lo as int, c as int) =~= row_underline(v0[r as int], lo as int, hi as int));
}

/// Whether link id `id` is on some cell.
/// Drop the URLs whose ids no longer appear in the link grid.
fn remove_dead_links(urls: &mut HashMap<u32, String>, links: &Vec<Vec<u32>>)
    ensures
        url_map(final(urls)@) == url_map(old(urls)@).restrict(
            Set::new(|k: u32| k != NO_LINK && grid_has(rows_view(links@), k)),
        ),
{
    let ids = link_ids(urls);
    let ghost m0 = url_map(urls@);
    let ghost live = Set::new(|k: u32| k != NO_LINK && grid_has(rows_view(links@), k));
    proof {
        assert(m0.dom() =~= urls@.dom());
    }
    let mut i: usize = 0;
    while i < ids.len()
        invariant
            i <= ids@.len(),
            ids@.to_set() == m0.dom(),
            ids@.no_duplicates(),
            m0 == url_map(old(urls)@),
            live == Set::new(|k: u32| k != NO_LINK && grid_has(rows_view(links@), k)),
            forall|k: u32| #[trigger] url_map(urls@).contains_key(k) ==> m0.contains_key(k) && url_map(urls@)[k] == m0[k],
            forall|j: int| i <= j < ids@.len() ==> url_map(urls@).contains_key(#[trigger] ids@[j]),
            forall|j: int| 0 <= j < i ==> (url_map(urls@).contains_key(#[trigger] ids@[j]) <==> live.contains(ids@[j])),
        decreases ids@.len() - i,
    {
        let id = ids[i];
        let ghost before = url_map(urls@);
        let keep = id != NO_LINK && grid_contains(links, id);
        if !keep {
            urls.remove(&id);
            proof {
                assert(url_map(urls@) =~= before.remove(id));
            }
        }
        proof {
            assert forall|j: int| i + 1 <= j < ids@.len() implies url_map(urls@).contains_key(#[trigger] ids@[j]) by {
                assert(ids@[j] != ids@[i as int]);
            }
            assert forall|j: int| 0 <= j < i + 1 implies (url_map(urls@).contains_key(#[trigger] ids@[j]) <==> live.contains(ids@[j])) by {
                if j < i {
                    assert(ids@[j] != ids@[i as int]);
                }
            }
        }
        i = i + 1;
    }
    proof {
        assert forall|k: u32| #[trigger] url_map(urls@).contains_key(k) == m0.restrict(live).contains_key(k) by {
            if m0.contains_key(k) {
                assert(ids@.to_set().contains(k));
                let j = choose|j: int| 0 <= j < ids@.len() && #[trigger] ids@[j] == k;
                assert(url_map(urls@).contains_key(ids@[j]) <==> live.contains(ids@[j]));
            }
        }
        assert(url_map(urls@) =~= m0.restrict(live));
    }
}

fn grid_contains(links: &Vec<Vec<u32>>, id: u32) -> (b: bool)
    ensures
        b == grid_has(rows_view(links@), id),
{
    let mut r: usize = 0;
    while r < links.len()
        invariant
            r <= links@.len(),
            forall|rr: int, c: int| 0 <= rr < r && 0 <= c < links@[rr]@.len() ==> #[trigger] links@[rr]@[c] != id,
        decreases links@.len() - r,
    {
        let mut c: usize = 0;
        while c < links[r].len()
            invariant
                r < links@.len(),
                c <= links@[r as int]@.len(),
                forall|cc: int| 0 <= cc < c ==> #[trigger] links@[r as int]@[cc] != id,
            decreases links@[r as int]@.len() - c,
        {
            if links[r][c] == id {
                assert(rows_view(links@)[r as int][c as int] == id);
                return true;
            }
            c = c + 1;
        }
        r = r + 1;
    }
    proof {
        let g = rows_view(links@);
        assert forall|rr: int, c: int| 0 <= rr < g.len() && 0 <= c < g[rr].len() implies #[trigger] g[rr][c] != id by {
            assert(g[rr] == links@[rr]@);
        }
    }
    false
}

/// A pane a point can be clamped into.
pub open spec fn clampable(p: PaneLayout) -> bool {
    (p.height > 0 || p.y == 0) && (p.width > 0 || p.x == 0)
}

/// `v` clamped to `lo..=hi`.
pub open spec fn clamp_int(v: int, lo: int, hi: int) -> int {
    if v < lo {
        lo
    } else if v > hi {
        hi
    } else {
        v
    }
}

/// A screen position clamped into a pane's rectangle.
pub open spec fn clamp_point(p: PaneLayout, row: int, col: int) -> Point {
    let last_row = if p.y + p.height >= 1 { p.y + p.height - 1 } else { 0 };
    let last_col = if p.x + p.width >= 1 { p.x + p.width - 1 } else { 0 };
    Point { line: clamp_int(row, p.y as int, last_row) as i32, col: clamp_int(col, p.x as int, last_col) as usize }
}

/// Clamp a screen position into a pane's rectangle.
fn clamp_to_pane(pane: PaneLayout, row: usize, col: usize) -> (pt: Point)
    requires
        clampable(pane),
    ensures
        pt == clamp_point(pane, row as int, col as int),
{
    let end_row = pane.y as usize + pane.height as usize;
    let end_col = pane.x as usize + pane.width as usize;
    let last_row = if end_row >= 1 {
        end_row - 1
    } else {
        0
    };
    let last_col = if end_col >= 1 {
        end_col - 1
    } else {
        0
    };
    let r = if row < pane.y as usize {
        pane.y as usize
    } else if row > last_row {
        last_row
    } else {
        row
    };
    let c = if col < pane.x as usize {
        pane.x as usize
    } else if col > last_col {
        last_col
    } else {
        col
    };
    Point::new(r as i32, c)
}

/// Append `seg`.
fn push_chars(out: &mut String, seg: &Vec<char>)
    ensures
        final(out)@ == old(out)@ + seg@,
{
    let mut i: usize = 0;
    while i < seg.len()
        invariant
            i <= seg@.len(),
            out@ == old(out)@ + seg@.take(i as int),
        decreases seg@.len() - i,
    {
        push_char(out, seg[i]);
        i = i + 1;
        assert(out@ =~= old(out)@ + seg@.take(i as int));
    }
    assert(seg@.take(i as int) =~= seg@);
}

/// Trimming trailing white space keeps what precedes the trailing run.
proof fn lemma_trim_end(s: Seq<char>, n: int)
    requires
        0 <= n <= s.len(),
        forall|i: int| n <= i < s.len() ==> spec_is_whitespace(#[trigger] s[i]),
        n == 0 || !spec_is_whitespace(s[n - 1]),
    ensures
        trim_end(s) == s.take(n),
    decreases s.len(),
{
    if s.len() == n {
        assert(s.take(n) =~= s);
    } else {
        assert(spec_is_whitespace(s[s.len() - 1]));
        lemma_trim_end(s.drop_last(), n);
        assert(s.drop_last().take(n) =~= s.take(n));
    }
}

/// Append `seg` without its trailing white space.
fn push_trimmed(out: &mut String, seg: &Vec<char>)
    ensures
        final(out)@ == old(out)@ + trim_end(seg@),
{
    let mut n = seg.len();
    while n > 0 && is_whitespace(seg[n - 1])
        invariant
            n <= seg@.len(),
            forall|i: int| n <= i < seg@.len() ==> spec_is_whitespace(#[trigger] seg@[i]),
        decreases n,
    {
        n = n - 1;
    }
    proof {
        lemma_trim_end(seg@, n as int);
    }
    let mut i: usize = 0;
    while i < n
        invariant
            i <= n,
            n <= seg@.len(),
            out@ == old(out)@ + seg@.take(i as int),
        decreases n - i,
    {
        push_char(out, seg[i]);
        i = i + 1;
        assert(out@ =~= old(out)@ + seg@.take(i as int));
    }
}

/// Selections never span panes: any point a drag reaches is clamped into a
/// cell of the pane the selection started in.
pub proof fn law_selection_stays_in_pane(p: PaneLayout, row: int, col: int)
    requires
        p.width > 0,
        p.height > 0,
    ensures
        ({
            let pt = clamp_point(p, row, col);
            p.y <= pt.line < p.y + p.height && p.x <= pt.col < p.x + p.width
        }),
{
}

/// Where the layout's pane ids are distinct, the pane a press lands in is
/// the pane its id leads back to: a selection begun at (`row`, `col`) is
/// extended, clamped, in the very pane it began in.
pub proof fn law_extend_clamps_into_begin_pane(b: ScreenBuffer, row: int, col: int)
    requires
        b.spec_pane_at(row, col) is Some,
        forall|i: int, j: int|
            0 <= i < j < b.spec_panes()->0.len() ==> (#[trigger] b.spec_panes()->0[i]).pane_id
                != (#[trigger] b.spec_panes()->0[j]).pane_id,
    ensures
        b.spec_pane_by_id(b.spec_pane_at(row, col)->0.pane_id) == b.spec_pane_at(row, col),
{
    let panes = b.spec_panes()->0;
    let p = b.spec_pane_at(row, col)->0;
    lemma_find_pane_in(panes, covers(row, col));
    let k = choose|k: int| 0 <= k < panes.len() && panes[k] == p;
    assert forall|j: int| 0 <= j < k implies !has_id(p.pane_id)(#[trigger] panes[j]) by {
        assert(panes[j].pane_id != panes[k].pane_id);
    }
    lemma_first_pane(panes, has_id(p.pane_id), k);
}

/// A buffer shows a selection exactly when it has selected text:
/// `has_selection()` and `selected_text().is_some()` always agree.
pub proof fn law_has_selection_matches_text(b: ScreenBuffer)
    requires
        b.wf(),
    ensures
        (b.spec_selection() matches Some(ps) && ps.selection.active) <==> b.spec_selected_text() is Some,
{
}

} // verus!

