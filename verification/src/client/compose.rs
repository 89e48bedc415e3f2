//! What writing a pane's rows into the screen does, stated over plain values.

use vstd::prelude::*;

use crate::cell::{Cell, CellFlags};
use crate::protocol::{PaneLayout, PaneRow, RowLink};
use crate::selection::{spec_covers, spec_normalized, Point, Selection, SelectionMode};
use crate::text::{spec_is_control, trim_end};

verus! {

/// Link id meaning "this cell is not part of a hyperlink".
pub const NO_LINK: u32 = 0;

/// The URL table is pruned only once it holds more entries than this.
pub const PRUNE_THRESHOLD: usize = 256;

/// The composited screen: cells, link ids, wrap flags and link targets.
pub struct ScreenState {
    pub cells: Seq<Seq<Cell>>,
    pub links: Seq<Seq<u32>>,
    pub continues: Seq<Seq<bool>>,
    pub urls: Map<u32, Seq<char>>,
}

/// `row` with the columns `lo..hi` set to `x`.
pub open spec fn row_set_range<T>(row: Seq<T>, lo: int, hi: int, x: T) -> Seq<T> {
    Seq::new(row.len(), |c: int| if lo <= c < hi { x } else { row[c] })
}

/// `row` with `src` written from column `at`, at most `width` cells of it.
pub open spec fn row_paste<T>(row: Seq<T>, at: int, width: int, src: Seq<T>) -> Seq<T> {
    Seq::new(
        row.len(),
        |c: int|
            if at <= c < at + width && c - at < src.len() {
                src[c - at]
            } else {
                row[c]
            },
    )
}

/// `cell` with the underline attribute added.
pub open spec fn underlined(cell: Cell) -> Cell {
    Cell { flags: CellFlags { bits: cell.flags.bits | CellFlags::UNDERLINE }, ..cell }
}

/// `row` with the cells in `lo..hi` underlined.
pub open spec fn row_underline(row: Seq<Cell>, lo: int, hi: int) -> Seq<Cell> {
    Seq::new(row.len(), |c: int| if lo <= c < hi { underlined(row[c]) } else { row[c] })
}

/// Whether a string holds a control character.
pub open spec fn has_control(s: Seq<char>) -> bool {
    exists|i: int| 0 <= i < s.len() && spec_is_control(#[trigger] s[i])
}

/// The screen columns a link covers: from its start to its end, clipped to the
/// pane and to the screen.
pub open spec fn link_start(p: PaneLayout, l: RowLink) -> int {
    p.x + l.start_col
}

pub open spec fn link_end(p: PaneLayout, l: RowLink, cols: nat) -> int {
    let e = p.x + l.end_col;
    let e1 = if e < p.x + p.width { e } else { p.x + p.width };
    if e1 < cols { e1 } else { cols as int }
}

/// Whether a link is written at all: its URL has no control character, its id
/// is a real one and it covers at least one column.
pub open spec fn link_applies(p: PaneLayout, l: RowLink, cols: nat) -> bool {
    !has_control(l.url@) && l.id != NO_LINK && link_start(p, l) < link_end(p, l, cols)
}

/// Write one link onto screen row `sr`: its columns take its id, the URL is
/// recorded, and a link found by clux itself is underlined.
pub open spec fn apply_link(st: ScreenState, sr: int, p: PaneLayout, l: RowLink, cols: nat) -> ScreenState {
    if !link_applies(p, l, cols) {
        st
    } else {
        let lo = link_start(p, l);
        let hi = link_end(p, l, cols);
        ScreenState {
            cells: if l.detected {
                st.cells.update(sr, row_underline(st.cells[sr], lo, hi))
            } else {
                st.cells
            },
            links: st.links.update(sr, row_set_range(st.links[sr], lo, hi, l.id)),
            continues: st.continues,
            urls: st.urls.insert(l.id, l.url@),
        }
    }
}

/// Write a row's links in order.
pub open spec fn apply_links(st: ScreenState, sr: int, p: PaneLayout, links: Seq<RowLink>, cols: nat) -> ScreenState
    decreases links.len(),
{
    if links.len() == 0 {
        st
    } else {
        apply_link(apply_links(st, sr, p, links.drop_last(), cols), sr, p, links.last(), cols)
    }
}

/// The screen row that row `pr` of pane `p` lands on.
pub open spec fn screen_row(p: PaneLayout, pr: PaneRow) -> int {
    p.y + pr.row_idx
}

/// Write one pane row: rows below the screen are dropped; otherwise the pane's
/// old links on that row are cleared across its full width, the wrap flag is
/// set across it, the cells are copied clipped to the pane, and the links are
/// written.
pub open spec fn apply_row(st: ScreenState, p: PaneLayout, pr: PaneRow, rows: nat, cols: nat) -> ScreenState {
    let sr = screen_row(p, pr);
    if sr >= rows {
        st
    } else {
        let base = ScreenState {
            cells: st.cells.update(sr, row_paste(st.cells[sr], p.x as int, p.width as int, pr.cells@)),
            links: st.links.update(sr, row_set_range(st.links[sr], p.x as int, p.x + p.width, NO_LINK)),
            continues: st.continues.update(sr, row_set_range(st.continues[sr], p.x as int, p.x + p.width, pr.wrapped)),
            urls: st.urls,
        };
        apply_links(base, sr, p, pr.links@, cols)
    }
}

/// Write pane rows in order.
pub open spec fn apply_rows(st: ScreenState, p: PaneLayout, prs: Seq<PaneRow>, rows: nat, cols: nat) -> ScreenState
    decreases prs.len(),
{
    if prs.len() == 0 {
        st
    } else {
        apply_row(apply_rows(st, p, prs.drop_last(), rows, cols), p, prs.last(), rows, cols)
    }
}

/// Whether link id `id` is on some cell of the screen.
pub open spec fn grid_has(links: Seq<Seq<u32>>, id: u32) -> bool {
    exists|r: int, c: int| 0 <= r < links.len() && 0 <= c < links[r].len() && #[trigger] links[r][c] == id
}

/// Once the URL table has grown past the threshold, only the URLs of links
/// still on screen are kept.
pub open spec fn pruned(st: ScreenState) -> ScreenState {
    if st.urls.dom().len() > PRUNE_THRESHOLD {
        ScreenState {
            urls: st.urls.restrict(Set::new(|k: u32| k != NO_LINK && grid_has(st.links, k))),
            ..st
        }
    } else {
        st
    }
}

/// The index of the first pane meeting `f`, if any.
pub open spec fn first_pane(panes: Seq<PaneLayout>, f: spec_fn(PaneLayout) -> bool) -> Option<int> {
    if exists|i: int| 0 <= i < panes.len() && f(#[trigger] panes[i]) && (forall|j: int| 0 <= j < i ==> !f(#[trigger] panes[j])) {
        Some(choose|i: int| 0 <= i < panes.len() && f(#[trigger] panes[i]) && (forall|j: int| 0 <= j < i ==> !f(#[trigger] panes[j])))
    } else {
        None
    }
}

/// Whether pane `p` has id `id`.
pub open spec fn has_id(id: u32) -> spec_fn(PaneLayout) -> bool {
    |p: PaneLayout| p.pane_id == id
}

/// Whether pane `p` covers the screen position (`row`, `col`).
pub open spec fn covers(row: int, col: int) -> spec_fn(PaneLayout) -> bool {
    |p: PaneLayout| p.y <= row < p.y + p.height && p.x <= col < p.x + p.width
}

/// The first pane meeting `f`, if any.
pub open spec fn find_pane(panes: Seq<PaneLayout>, f: spec_fn(PaneLayout) -> bool) -> Option<PaneLayout> {
    match first_pane(panes, f) {
        Some(i) => Some(panes[i]),
        None => None,
    }
}

/// A scan that finds index `i` first finds the first pane meeting `f`; a scan
/// that finds nothing finds none.
pub proof fn lemma_first_pane(panes: Seq<PaneLayout>, f: spec_fn(PaneLayout) -> bool, i: int)
    requires
        0 <= i <= panes.len(),
        forall|j: int| 0 <= j < i ==> !f(#[trigger] panes[j]),
    ensures
        i < panes.len() && f(panes[i]) ==> first_pane(panes, f) == Some(i),
        i == panes.len() ==> first_pane(panes, f) is None,
{
    if i < panes.len() && f(panes[i]) {
        assert(0 <= i < panes.len() && f(panes[i]) && (forall|j: int| 0 <= j < i ==> !f(#[trigger] panes[j])));
        let k = choose|k: int| 0 <= k < panes.len() && f(#[trigger] panes[k]) && (forall|j: int| 0 <= j < k ==> !f(#[trigger] panes[j]));
        if k < i {
            assert(!f(panes[k]));
        }
        if i < k {
            assert(!f(panes[i]));
        }
    }
}

/// Where some pane meets `f`, a first one does.
pub proof fn lemma_first_pane_exists(panes: Seq<PaneLayout>, f: spec_fn(PaneLayout) -> bool, i: int)
    requires
        0 <= i < panes.len(),
        f(panes[i]),
    ensures
        first_pane(panes, f) is Some,
    decreases i,
{
    if forall|j: int| 0 <= j < i ==> !f(#[trigger] panes[j]) {
        lemma_first_pane(panes, f, i);
    } else {
        let j = choose|j: int| 0 <= j < i && f(#[trigger] panes[j]);
        lemma_first_pane_exists(panes, f, j);
    }
}

/// The pane that `find_pane` gives is one of the panes, and meets `f`.
pub proof fn lemma_find_pane_in(panes: Seq<PaneLayout>, f: spec_fn(PaneLayout) -> bool)
    ensures
        find_pane(panes, f) matches Some(p) ==> panes.contains(p) && f(p),
{
    if let Some(i) = first_pane(panes, f) {
        assert(panes[i] == find_pane(panes, f)->0);
    }
}

/// Whether the selection covers screen cell (`row`, `col`).
pub open spec fn sel_covers(sel: Selection, row: int, col: int) -> bool {
    spec_covers(sel, Point { line: row as i32, col: col as usize })
}

/// The first screen column of a pane and the end of its columns, clipped to
/// a screen `cols` wide.
pub open spec fn pane_col_end(p: PaneLayout, cols: nat) -> int {
    let e = p.x + p.width;
    let e1 = if e < cols { e } else { cols as int };
    if e1 < p.x { p.x as int } else { e1 }
}

/// The characters of the selected cells of row `row` in columns `x..hi`.
pub open spec fn segment(cells: Seq<Cell>, sel: Selection, row: int, x: int, hi: int) -> Seq<char>
    decreases hi - x,
{
    if hi <= x {
        Seq::empty()
    } else {
        segment(cells, sel, row, x, hi - 1) + if sel_covers(sel, row, hi - 1) {
            seq![cells[hi - 1].c]
        } else {
            Seq::empty()
        }
    }
}

/// The last selected column of row `row` in columns `x..hi`.
pub open spec fn last_selected(sel: Selection, row: int, x: int, hi: int) -> Option<int>
    decreases hi - x,
{
    if hi <= x {
        None
    } else if sel_covers(sel, row, hi - 1) {
        Some(hi - 1)
    } else {
        last_selected(sel, row, x, hi - 1)
    }
}

/// The first screen row a selection's text is read from.
pub open spec fn sel_first_row(sel: Selection, p: PaneLayout) -> int {
    let a = spec_normalized(sel).0.line;
    let a0: int = if a < 0 { 0 } else { a as int };
    if a0 < p.y { p.y as int } else { a0 }
}

/// The end of the screen rows a selection's text is read from.
pub open spec fn sel_end_row(sel: Selection, p: PaneLayout, rows: nat) -> int {
    let b = spec_normalized(sel).1.line;
    let b1: int = if b < 0 { 1 } else { b + 1 };
    let pe = if p.y + p.height < rows { p.y + p.height } else { rows as int };
    if b1 < pe { b1 } else { pe }
}

/// The selected text of screen rows from the first selected one up to `r`,
/// with whether a newline is owed before the next piece. A row without
/// selected cells adds nothing; a row that continues onto the next (outside a
/// block selection) is joined as it is; any other row is trimmed of trailing
/// white space and owes a newline.
pub open spec fn sel_text_upto(
    cells: Seq<Seq<Cell>>,
    continues: Seq<Seq<bool>>,
    sel: Selection,
    p: PaneLayout,
    cols: nat,
    r: int,
) -> (Seq<char>, bool)
    decreases r - sel_first_row(sel, p),
{
    let first = sel_first_row(sel, p);
    if r <= first {
        (Seq::empty(), false)
    } else {
        let (text, pending) = sel_text_upto(cells, continues, sel, p, cols, r - 1);
        let row = r - 1;
        let seg = segment(cells[row], sel, row, p.x as int, pane_col_end(p, cols));
        if seg.len() == 0 {
            (text, pending)
        } else {
            let text1 = if pending { text.push('\n') } else { text };
            let cont = match last_selected(sel, row, p.x as int, pane_col_end(p, cols)) {
                Some(c) => continues[row][c],
                None => false,
            } && sel.mode != SelectionMode::Block;
            if cont {
                (text1 + seg, false)
            } else {
                (text1 + trim_end(seg), true)
            }
        }
    }
}

/// The selected text of a selection in pane `p`.
pub open spec fn sel_text(
    cells: Seq<Seq<Cell>>,
    continues: Seq<Seq<bool>>,
    sel: Selection,
    p: PaneLayout,
    rows: nat,
    cols: nat,
) -> Seq<char> {
    let end = sel_end_row(sel, p, rows);
    let first = sel_first_row(sel, p);
    if end <= first {
        Seq::empty()
    } else {
        sel_text_upto(cells, continues, sel, p, cols, end).0
    }
}

/// `cell` drawn inverted.
pub open spec fn inverted(cell: Cell) -> Cell {
    Cell { flags: CellFlags { bits: cell.flags.bits | CellFlags::INVERSE }, ..cell }
}

/// Row `row` with the cells of pane `p` that the selection covers inverted.
pub open spec fn highlighted(cells: Seq<Cell>, sel: Selection, p: PaneLayout, row: int, cols: nat) -> Seq<Cell> {
    Seq::new(
        cells.len(),
        |c: int|
            if p.x <= c < pane_col_end(p, cols) && sel_covers(sel, row, c) {
                inverted(cells[c])
            } else {
                cells[c]
            },
    )
}

/// Whether two screens have the same rows, each as wide, in cells, link ids
/// and wrap flags.
pub open spec fn same_shape(a: ScreenState, b: ScreenState) -> bool {
    &&& b.cells.len() == a.cells.len()
    &&& b.links.len() == a.links.len()
    &&& b.continues.len() == a.continues.len()
    &&& forall|r: int| 0 <= r < a.cells.len() ==> #[trigger] b.cells[r].len() == a.cells[r].len()
    &&& forall|r: int| 0 <= r < a.links.len() ==> #[trigger] b.links[r].len() == a.links[r].len()
    &&& forall|r: int| 0 <= r < a.continues.len() ==> #[trigger] b.continues[r].len() == a.continues[r].len()
}

/// Whether the screen position holds a cell, a link id and a wrap flag.
pub open spec fn in_screen(st: ScreenState, r: int, c: int) -> bool {
    &&& 0 <= r < st.cells.len()
    &&& r < st.links.len()
    &&& r < st.continues.len()
    &&& 0 <= c < st.cells[r].len()
    &&& c < st.links[r].len()
    &&& c < st.continues[r].len()
}

/// Whether two screens agree at a position.
pub open spec fn same_at(a: ScreenState, b: ScreenState, r: int, c: int) -> bool {
    &&& b.cells[r][c] == a.cells[r][c]
    &&& b.links[r][c] == a.links[r][c]
    &&& b.continues[r][c] == a.continues[r][c]
}

/// Whether the position lies left or right of the pane, or above it.
pub open spec fn outside_pane(p: PaneLayout, r: int, c: int) -> bool {
    c < p.x || c >= p.x + p.width || r < p.y
}

proof fn lemma_link_stays(st: ScreenState, sr: int, p: PaneLayout, l: RowLink, cols: nat, r: int, c: int)
    requires
        0 <= sr < st.cells.len(),
        sr < st.links.len(),
        sr < st.continues.len(),
        in_screen(st, r, c),
        r != sr || c < p.x || c >= p.x + p.width,
    ensures
        same_shape(st, apply_link(st, sr, p, l, cols)),
        in_screen(apply_link(st, sr, p, l, cols), r, c),
        same_at(st, apply_link(st, sr, p, l, cols), r, c),
{
}

proof fn lemma_links_stay(st: ScreenState, sr: int, p: PaneLayout, links: Seq<RowLink>, cols: nat, r: int, c: int)
    requires
        0 <= sr < st.cells.len(),
        sr < st.links.len(),
        sr < st.continues.len(),
        in_screen(st, r, c),
        r != sr || c < p.x || c >= p.x + p.width,
    ensures
        same_shape(st, apply_links(st, sr, p, links, cols)),
        in_screen(apply_links(st, sr, p, links, cols), r, c),
        same_at(st, apply_links(st, sr, p, links, cols), r, c),
    decreases links.len(),
{
    if links.len() > 0 {
        lemma_links_stay(st, sr, p, links.drop_last(), cols, r, c);
        let mid = apply_links(st, sr, p, links.drop_last(), cols);
        lemma_link_stays(mid, sr, p, links.last(), cols, r, c);
    }
}

proof fn lemma_row_stays(st: ScreenState, p: PaneLayout, pr: PaneRow, rows: nat, cols: nat, r: int, c: int)
    requires
        st.cells.len() == rows,
        st.links.len() == rows,
        st.continues.len() == rows,
        in_screen(st, r, c),
        outside_pane(p, r, c),
    ensures
        same_shape(st, apply_row(st, p, pr, rows, cols)),
        in_screen(apply_row(st, p, pr, rows, cols), r, c),
        same_at(st, apply_row(st, p, pr, rows, cols), r, c),
{
    let sr = screen_row(p, pr);
    if sr < rows {
        let base = ScreenState {
            cells: st.cells.update(sr, row_paste(st.cells[sr], p.x as int, p.width as int, pr.cells@)),
            links: st.links.update(sr, row_set_range(st.links[sr], p.x as int, p.x + p.width, NO_LINK)),
            continues: st.continues.update(sr, row_set_range(st.continues[sr], p.x as int, p.x + p.width, pr.wrapped)),
            urls: st.urls,
        };
        assert(same_shape(st, base));
        assert(same_at(st, base, r, c));
        lemma_links_stay(base, sr, p, pr.links@, cols, r, c);
    }
}

/// A pane's update writes only within the pane's columns, from the pane's
/// top row down: every cell, link id and wrap flag left or right of the
/// pane, or above it, stays as it was, and the screen keeps its shape.
pub proof fn law_update_stays_in_pane(
    st: ScreenState,
    p: PaneLayout,
    prs: Seq<PaneRow>,
    rows: nat,
    cols: nat,
    r: int,
    c: int,
)
    requires
        st.cells.len() == rows,
        st.links.len() == rows,
        st.continues.len() == rows,
        in_screen(st, r, c),
        outside_pane(p, r, c),
    ensures
        same_shape(st, apply_rows(st, p, prs, rows, cols)),
        same_at(st, apply_rows(st, p, prs, rows, cols), r, c),
    decreases prs.len(),
{
    if prs.len() > 0 {
        law_update_stays_in_pane(st, p, prs.drop_last(), rows, cols, r, c);
        let mid = apply_rows(st, p, prs.drop_last(), rows, cols);
        lemma_row_stays(mid, p, prs.last(), rows, cols, r, c);
    }
}

} // verus!

