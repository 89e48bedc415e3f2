//! Pane geometry and the split-layout tree.
//!
//! Panes are laid out like tmux: the screen is a tree of splits, each split
//! dividing its rectangle between two children with a one-cell border.

use vstd::prelude::*;

verus! {

/// Unique identifier of a pane.
#[derive(Clone, Copy, Debug, PartialEq, Eq, Hash, Structural)]
pub struct PaneId(pub u32);

/// How a pane is split.
#[derive(Clone, Copy, Debug, PartialEq, Eq, Structural)]
pub enum SplitDirection {
    /// The new pane goes below.
    Horizontal,
    /// The new pane goes to the right.
    Vertical,
}

/// A direction to move focus in.
#[derive(Clone, Copy, Debug, PartialEq, Eq, Structural)]
pub enum Direction {
    Up,
    Down,
    Left,
    Right,
}

/// A pane's position and size in cells.
#[derive(Clone, Copy, Debug, PartialEq, Eq, Structural)]
pub struct Rect {
    pub x: u16,
    pub y: u16,
    pub width: u16,
    pub height: u16,
}

/// The share of `len` that the first part of a split gets, for a ratio in
/// percent: the product rounded down.
pub open spec fn share(len: u16, percent: u16) -> int {
    len as int * percent as int / 100
}

/// What remains of `len` after the first part and the one-cell border,
/// or nothing.
pub open spec fn rest(len: u16, first: int) -> int {
    if len as int - first - 1 > 0 {
        len as int - first - 1
    } else {
        0
    }
}

/// Whether a horizontal split of `r` by `percent` stays within `u16`.
pub open spec fn split_h_fits(r: Rect, percent: u16) -> bool {
    percent <= 100 && r.y as int + share(r.height, percent) + 1 <= u16::MAX
}

/// Whether a vertical split of `r` by `percent` stays within `u16`.
pub open spec fn split_v_fits(r: Rect, percent: u16) -> bool {
    percent <= 100 && r.x as int + share(r.width, percent) + 1 <= u16::MAX
}

/// The top and bottom parts of a horizontal split.
pub open spec fn spec_split_h(r: Rect, percent: u16) -> (Rect, Rect) {
    let top = share(r.height, percent);
    (
        Rect { x: r.x, y: r.y, width: r.width, height: top as u16 },
        Rect { x: r.x, y: (r.y + top + 1) as u16, width: r.width, height: rest(r.height, top) as u16 },
    )
}

/// The left and right parts of a vertical split.
pub open spec fn spec_split_v(r: Rect, percent: u16) -> (Rect, Rect) {
    let left = share(r.width, percent);
    (
        Rect { x: r.x, y: r.y, width: left as u16, height: r.height },
        Rect { x: (r.x + left + 1) as u16, y: r.y, width: rest(r.width, left) as u16, height: r.height },
    )
}

/// Whether the point lies inside the rectangle.
pub open spec fn spec_contains(r: Rect, x: u16, y: u16) -> bool {
    r.x <= x < r.x + r.width && r.y <= y < r.y + r.height
}

proof fn lemma_share_bounds(len: u16, percent: u16)
    requires
        percent <= 100,
    ensures
        0 <= share(len, percent) <= len,
{
    assert(0 <= len as int * percent as int <= len as int * 100) by (nonlinear_arith)
        requires
            percent <= 100,
    ;
}

proof fn lemma_product_small(len: u16, percent: u16)
    requires
        percent <= 100,
    ensures
        len as int * percent as int <= 6553500,
{
    assert(len as int * percent as int <= 65535 * 100) by (nonlinear_arith)
        requires
            percent <= 100,
            len <= 65535,
    ;
}

impl Rect {
    pub fn new(x: u16, y: u16, width: u16, height: u16) -> (r: Rect)
        ensures
            r == (Rect { x, y, width, height }),
    {
        Rect { x, y, width, height }
    }

    /// Splits into a top and a bottom part: the top gets `percent` of the
    /// height, rounded down, the bottom what is left below a one-row border.
    pub fn split_horizontal(&self, percent: u16) -> (parts: (Rect, Rect))
        requires
            split_h_fits(*self, percent),
        ensures
            parts == spec_split_h(*self, percent),
    {
        proof {
            lemma_share_bounds(self.height, percent);
        }
        let top_height: u16 = (self.height as u32 * percent as u32 / 100) as u16;
        let bottom_height: u16 = self.height.saturating_sub(top_height).saturating_sub(1);
        let top = Rect::new(self.x, self.y, self.width, top_height);
        let bottom = Rect::new(self.x, self.y + top_height + 1, self.width, bottom_height);
        (top, bottom)
    }

    /// Splits into a left and a right part: the left gets `percent` of the
    /// width, rounded down, the right what is left beyond a one-column border.
    pub fn split_vertical(&self, percent: u16) -> (parts: (Rect, Rect))
        requires
            split_v_fits(*self, percent),
        ensures
            parts == spec_split_v(*self, percent),
    {
        proof {
            lemma_share_bounds(self.width, percent);
        }
        let left_width: u16 = (self.width as u32 * percent as u32 / 100) as u16;
        let right_width: u16 = self.width.saturating_sub(left_width).saturating_sub(1);
        let left = Rect::new(self.x, self.y, left_width, self.height);
        let right = Rect::new(self.x + left_width + 1, self.y, right_width, self.height);
        (left, right)
    }

    /// Whether the point lies inside.
    pub fn contains(&self, x: u16, y: u16) -> (b: bool)
        ensures
            b == spec_contains(*self, x, y),
    {
        x >= self.x && (x as u32) < self.x as u32 + self.width as u32 && y >= self.y && (y as u32)
            < self.y as u32 + self.height as u32
    }
}

/// A node of the layout tree: a pane, or a split of a rectangle between
/// two subtrees.
pub enum LayoutNode {
    Pane(PaneId),
    Split {
        direction: SplitDirection,
        /// The first child's share of the rectangle, in percent.
        ratio: u16,
        first: Box<LayoutNode>,
        second: Box<LayoutNode>,
    },
}

/// The share that a fresh split gives the first child.
pub const EVEN_RATIO: u16 = 50;

impl LayoutNode {
    /// The panes of the tree, first subtree before second.
    pub open spec fn ids(self) -> Seq<PaneId>
        decreases self,
    {
        match self {
            LayoutNode::Pane(id) => seq![id],
            LayoutNode::Split { first, second, .. } => first.ids() + second.ids(),
        }
    }

    /// The two parts a split node divides `r` into.
    pub open spec fn parts(direction: SplitDirection, ratio: u16, r: Rect) -> (Rect, Rect) {
        match direction {
            SplitDirection::Horizontal => spec_split_h(r, ratio),
            SplitDirection::Vertical => spec_split_v(r, ratio),
        }
    }

    /// Whether laying the tree out in `r` stays within `u16` coordinates.
    pub open spec fn fits(self, r: Rect) -> bool
        decreases self,
    {
        match self {
            LayoutNode::Pane(_) => true,
            LayoutNode::Split { direction, ratio, first, second } => {
                &&& match direction {
                    SplitDirection::Horizontal => split_h_fits(r, ratio),
                    SplitDirection::Vertical => split_v_fits(r, ratio),
                }
                &&& first.fits(LayoutNode::parts(direction, ratio, r).0)
                &&& second.fits(LayoutNode::parts(direction, ratio, r).1)
            },
        }
    }

    /// Each pane with its rectangle when the tree is laid out in `r`.
    pub open spec fn rects(self, r: Rect) -> Seq<(PaneId, Rect)>
        decreases self,
    {
        match self {
            LayoutNode::Pane(id) => seq![(id, r)],
            LayoutNode::Split { direction, ratio, first, second } => first.rects(
                LayoutNode::parts(direction, ratio, r).0,
            ) + second.rects(LayoutNode::parts(direction, ratio, r).1),
        }
    }

    /// The tree after splitting the first pane `target` (in tree order) into
    /// itself and `new_pane`, and whether `target` was found.
    pub open spec fn split_at(self, target: PaneId, new_pane: PaneId, direction: SplitDirection) -> (
        LayoutNode,
        bool,
    )
        decreases self,
    {
        match self {
            LayoutNode::Pane(id) => if id == target {
                (
                    LayoutNode::Split {
                        direction,
                        ratio: EVEN_RATIO,
                        first: Box::new(LayoutNode::Pane(target)),
                        second: Box::new(LayoutNode::Pane(new_pane)),
                    },
                    true,
                )
            } else {
                (self, false)
            },
            LayoutNode::Split { direction: d, ratio, first, second } => {
                let f = first.split_at(target, new_pane, direction);
                if f.1 {
                    (LayoutNode::Split { direction: d, ratio, first: Box::new(f.0), second }, true)
                } else {
                    let s = second.split_at(target, new_pane, direction);
                    (
                        LayoutNode::Split {
                            direction: d,
                            ratio,
                            first: Box::new(f.0),
                            second: Box::new(s.0),
                        },
                        s.1,
                    )
                }
            },
        }
    }

    /// The tree after looking for the pane `target`, and the subtree that
    /// should replace this node: where a split has `target` as a direct
    /// child, the node stays as it is and its other child is handed back;
    /// deeper down, the split holding `target` is replaced by that sibling.
    pub open spec fn removed(self, target: PaneId) -> (LayoutNode, Option<LayoutNode>)
        decreases self,
    {
        match self {
            LayoutNode::Pane(_) => (self, None),
            LayoutNode::Split { direction, ratio, first, second } => {
                if *first == LayoutNode::Pane(target) {
                    (self, Some(*second))
                } else if *second == LayoutNode::Pane(target) {
                    (self, Some(*first))
                } else {
                    let f = first.removed(target);
                    match f.1 {
                        Some(replacement) => (
                            LayoutNode::Split { direction, ratio, first: Box::new(replacement), second },
                            None,
                        ),
                        None => {
                            let s = second.removed(target);
                            match s.1 {
                                Some(replacement) => (
                                    LayoutNode::Split {
                                        direction,
                                        ratio,
                                        first: Box::new(f.0),
                                        second: Box::new(replacement),
                                    },
                                    None,
                                ),
                                None => (
                                    LayoutNode::Split {
                                        direction,
                                        ratio,
                                        first: Box::new(f.0),
                                        second: Box::new(s.0),
                                    },
                                    None,
                                ),
                            }
                        },
                    }
                }
            },
        }
    }

    /// An exact copy of the tree.
    pub fn duplicate(&self) -> (r: LayoutNode)
        ensures
            r == *self,
        decreases self,
    {
        match self {
            LayoutNode::Pane(id) => LayoutNode::Pane(*id),
            LayoutNode::Split { direction, ratio, first, second } => LayoutNode::Split {
                direction: *direction,
                ratio: *ratio,
                first: Box::new(first.duplicate()),
                second: Box::new(second.duplicate()),
            },
        }
    }

    /// Appends each pane with its rectangle, laying the tree out in `rect`.
    pub fn calculate_rects(&self, rect: Rect, rects: &mut Vec<(PaneId, Rect)>)
        requires
            self.fits(rect),
        ensures
            final(rects)@ == old(rects)@ + self.rects(rect),
        decreases self,
    {
        match self {
            LayoutNode::Pane(id) => {
                rects.push((*id, rect));
            },
            LayoutNode::Split { direction, ratio, first, second } => {
                let parts = match direction {
                    SplitDirection::Horizontal => rect.split_horizontal(*ratio),
                    SplitDirection::Vertical => rect.split_vertical(*ratio),
                };
                first.calculate_rects(parts.0, rects);
                second.calculate_rects(parts.1, rects);
                proof {
                    assert(final(rects)@ =~= old(rects)@ + self.rects(rect));
                }
            },
        }
    }

    fn collect_pane_ids(&self, ids: &mut Vec<PaneId>)
        ensures
            final(ids)@ == old(ids)@ + self.ids(),
        decreases self,
    {
        match self {
            LayoutNode::Pane(id) => {
                ids.push(*id);
            },
            LayoutNode::Split { first, second, .. } => {
                first.collect_pane_ids(ids);
                second.collect_pane_ids(ids);
                proof {
                    assert(final(ids)@ =~= old(ids)@ + self.ids());
                }
            },
        }
    }

    /// The panes of the tree, first subtree before second.
    pub fn pane_ids(&self) -> (v: Vec<PaneId>)
        ensures
            v@ == self.ids(),
    {
        let mut ids: Vec<PaneId> = Vec::new();
        self.collect_pane_ids(&mut ids);
        proof {
            assert(ids@ =~= self.ids());
        }
        ids
    }

    fn split_owned(node: LayoutNode, target: PaneId, new_pane: PaneId, direction: SplitDirection) -> (r: (
        LayoutNode,
        bool,
    ))
        ensures
            r == node.split_at(target, new_pane, direction),
        decreases node,
    {
        match node {
            LayoutNode::Pane(id) => {
                if id == target {
                    (
                        LayoutNode::Split {
                            direction,
                            ratio: EVEN_RATIO,
                            first: Box::new(LayoutNode::Pane(target)),
                            second: Box::new(LayoutNode::Pane(new_pane)),
                        },
                        true,
                    )
                } else {
                    (LayoutNode::Pane(id), false)
                }
            },
            LayoutNode::Split { direction: d, ratio, first, second } => {
                let f = LayoutNode::split_owned(*first, target, new_pane, direction);
                if f.1 {
                    (LayoutNode::Split { direction: d, ratio, first: Box::new(f.0), second }, true)
                } else {
                    let s = LayoutNode::split_owned(*second, target, new_pane, direction);
                    (
                        LayoutNode::Split {
                            direction: d,
                            ratio,
                            first: Box::new(f.0),
                            second: Box::new(s.0),
                        },
                        s.1,
                    )
                }
            },
        }
    }

    /// Replaces the pane `target` with an even split between it and
    /// `new_pane`; whether `target` was found.
    pub fn split_pane(&mut self, target: PaneId, new_pane: PaneId, direction: SplitDirection) -> (found: bool)
        ensures
            (*final(self), found) == old(self).split_at(target, new_pane, direction),
    {
        let mut node = LayoutNode::Pane(target);
        std::mem::swap(&mut node, self);
        let r = LayoutNode::split_owned(node, target, new_pane, direction);
        *self = r.0;
        r.1
    }

    fn removed_owned(node: LayoutNode, target: PaneId) -> (r: (LayoutNode, Option<LayoutNode>))
        ensures
            r == node.removed(target),
        decreases node,
    {
        match node {
            LayoutNode::Pane(id) => (LayoutNode::Pane(id), None),
            LayoutNode::Split { direction, ratio, first, second } => {
                let first_is_target = match &*first {
                    LayoutNode::Pane(id) => *id == target,
                    _ => false,
                };
                let second_is_target = match &*second {
                    LayoutNode::Pane(id) => *id == target,
                    _ => false,
                };
                if first_is_target {
                    let sibling = second.duplicate();
                    (LayoutNode::Split { direction, ratio, first, second }, Some(sibling))
                } else if second_is_target {
                    let sibling = first.duplicate();
                    (LayoutNode::Split { direction, ratio, first, second }, Some(sibling))
                } else {
                    let f = LayoutNode::removed_owned(*first, target);
                    match f.1 {
                        Some(replacement) => (
                            LayoutNode::Split { direction, ratio, first: Box::new(replacement), second },
                            None,
                        ),
                        None => {
                            let s = LayoutNode::removed_owned(*second, target);
                            match s.1 {
                                Some(replacement) => (
                                    LayoutNode::Split {
                                        direction,
                                        ratio,
                                        first: Box::new(f.0),
                                        second: Box::new(replacement),
                                    },
                                    None,
                                ),
                                None => (
                                    LayoutNode::Split {
                                        direction,
                                        ratio,
                                        first: Box::new(f.0),
                                        second: Box::new(s.0),
                                    },
                                    None,
                                ),
                            }
                        },
                    }
                }
            },
        }
    }

    /// Looks for the pane `target`. Where a split has it as a direct child,
    /// that split is left as it is and its other child is returned, for the
    /// caller to put in the split's place; a split deeper down is replaced
    /// here. `None` where `target` is not a child of any split.
    pub fn remove_pane(&mut self, target: PaneId) -> (sibling: Option<Box<LayoutNode>>)
        ensures
            (*final(self), match sibling {
                Some(b) => Some(*b),
                None => None,
            }) == old(self).removed(target),
    {
        let mut node = LayoutNode::Pane(target);
        std::mem::swap(&mut node, self);
        let r = LayoutNode::removed_owned(node, target);
        *self = r.0;
        match r.1 {
            Some(n) => Some(Box::new(n)),
            None => None,
        }
    }
}

impl Clone for LayoutNode {
    fn clone(&self) -> (r: Self)
        ensures
            r == *self,
    {
        self.duplicate()
    }
}

impl LayoutNode {
    /// Whether laying the tree out in `r` stays within `u16` coordinates.
    pub fn fits_in(&self, r: Rect) -> (b: bool)
        ensures
            b == self.fits(r),
        decreases self,
    {
        match self {
            LayoutNode::Pane(_) => true,
            LayoutNode::Split { direction, ratio, first, second } => {
                if *ratio > 100 {
                    return false;
                }
                proof {
                    lemma_product_small(r.height, *ratio);
                    lemma_product_small(r.width, *ratio);
                }
                let parts = match direction {
                    SplitDirection::Horizontal => {
                        if r.y as u32 + r.height as u32 * *ratio as u32 / 100 + 1 > u16::MAX as u32 {
                            return false;
                        }
                        r.split_horizontal(*ratio)
                    },
                    SplitDirection::Vertical => {
                        if r.x as u32 + r.width as u32 * *ratio as u32 / 100 + 1 > u16::MAX as u32 {
                            return false;
                        }
                        r.split_vertical(*ratio)
                    },
                };
                first.fits_in(parts.0) && second.fits_in(parts.1)
            },
        }
    }
}

/// What the layout logic knows of a pane: its id, where it is, and whether
/// it shows as focused.
#[derive(Clone, Copy, Debug, PartialEq, Eq, Structural)]
pub struct PaneState {
    pub id: PaneId,
    pub rect: Rect,
    pub focused: bool,
}

/// The panes of a window as the layout logic sees them.
pub struct ManagerState {
    /// The panes, each id once, in the order they were added.
    pub panes: Seq<PaneState>,
    pub layout: LayoutNode,
    pub focused: PaneId,
    /// Earlier focused panes, the most recent last; never the focused one.
    pub history: Seq<PaneId>,
    pub next_id: u32,
    pub screen: Rect,
}

/// Whether a pane with this id exists.
pub open spec fn has_id(panes: Seq<PaneState>, id: PaneId) -> bool {
    exists|i: int| 0 <= i < panes.len() && #[trigger] panes[i].id == id
}

/// Whether no id occurs twice.
pub open spec fn distinct_ids(panes: Seq<PaneState>) -> bool {
    forall|i: int, j: int| 0 <= i < j < panes.len() ==> #[trigger] panes[i].id != #[trigger] panes[j].id
}

/// The history without any occurrence of `x`.
pub open spec fn without(s: Seq<PaneId>, x: PaneId) -> Seq<PaneId>
    decreases s.len(),
{
    if s.len() == 0 {
        s
    } else if s.last() == x {
        without(s.drop_last(), x)
    } else {
        without(s.drop_last(), x).push(s.last())
    }
}

/// The panes with the focus mark moved from `from` to `to`.
pub open spec fn refocused(panes: Seq<PaneState>, from: PaneId, to: PaneId) -> Seq<PaneState> {
    Seq::new(
        panes.len(),
        |i: int|
            if panes[i].id == from {
                PaneState { focused: false, ..panes[i] }
            } else if panes[i].id == to {
                PaneState { focused: true, ..panes[i] }
            } else {
                panes[i]
            },
    )
}

/// The rectangle `rects` gives `id` last, or `old`.
pub open spec fn assigned(rects: Seq<(PaneId, Rect)>, id: PaneId, old: Rect) -> Rect
    decreases rects.len(),
{
    if rects.len() == 0 {
        old
    } else if rects.last().0 == id {
        rects.last().1
    } else {
        assigned(rects.drop_last(), id, old)
    }
}

/// The panes moved to the rectangles that `rects` gives them.
pub open spec fn relaid(panes: Seq<PaneState>, rects: Seq<(PaneId, Rect)>) -> Seq<PaneState> {
    Seq::new(
        panes.len(),
        |i: int| PaneState { rect: assigned(rects, panes[i].id, panes[i].rect), ..panes[i] },
    )
}

/// The rectangle that `rects` gives `id` first, or `fallback`.
pub open spec fn first_rect(rects: Seq<(PaneId, Rect)>, id: PaneId, fallback: Rect) -> Rect
    decreases rects.len(),
{
    if rects.len() == 0 {
        fallback
    } else if rects[0].0 == id {
        rects[0].1
    } else {
        first_rect(rects.drop_first(), id, fallback)
    }
}

/// The panes with `p` stored under its id: in place of the pane with that
/// id, or added last.
pub open spec fn inserted(panes: Seq<PaneState>, p: PaneState) -> Seq<PaneState> {
    if has_id(panes, p.id) {
        Seq::new(panes.len(), |i: int| if panes[i].id == p.id { p } else { panes[i] })
    } else {
        panes.push(p)
    }
}

/// The panes without the one with this id.
pub open spec fn dropped(panes: Seq<PaneState>, id: PaneId) -> Seq<PaneState>
    decreases panes.len(),
{
    if panes.len() == 0 {
        panes
    } else if panes.last().id == id {
        dropped(panes.drop_last(), id)
    } else {
        dropped(panes.drop_last(), id).push(panes.last())
    }
}

/// The state after focusing `id`: nothing changes where `id` is unknown or
/// already focused; else the focused pane moves to the end of the history.
pub open spec fn focus_state(s: ManagerState, id: PaneId) -> ManagerState {
    if has_id(s.panes, id) && id != s.focused {
        ManagerState {
            panes: refocused(s.panes, s.focused, id),
            history: without(s.history, s.focused).push(s.focused),
            focused: id,
            ..s
        }
    } else {
        s
    }
}

/// The tree once `id` is taken out: the sibling of `id` takes its parent's
/// place.
pub open spec fn layout_without(layout: LayoutNode, id: PaneId) -> LayoutNode {
    match layout.removed(id).1 {
        Some(sibling) => sibling,
        None => layout.removed(id).0,
    }
}

/// The first pane of a non-empty list of rectangles.
pub open spec fn first_of(rects: Seq<(PaneId, Rect)>) -> Option<PaneId> {
    if rects.len() == 0 {
        None
    } else {
        Some(rects[0].0)
    }
}

/// The state after closing the pane `id` and what is returned: nothing
/// happens to the last pane; where the focused pane closes, focus goes to the
/// pane last in the history (if it still exists), else to the first pane of
/// the layout.
pub open spec fn close_state(s: ManagerState, id: PaneId) -> (ManagerState, Option<PaneId>) {
    if s.panes.len() <= 1 {
        (s, None)
    } else {
        let layout = layout_without(s.layout, id);
        let rects = layout.rects(s.screen);
        let history = without(s.history, id);
        let panes = relaid(dropped(s.panes, id), rects);
        if s.focused == id {
            let popped = if history.len() > 0 { history.drop_last() } else { history };
            let candidate = if history.len() > 0 && has_id(panes, history.last()) {
                Some(history.last())
            } else {
                first_of(rects)
            };
            match candidate {
                Some(n) => (
                    ManagerState {
                        panes: refocused(panes, id, n),
                        layout,
                        focused: n,
                        history: popped,
                        ..s
                    },
                    Some(n),
                ),
                None => (ManagerState { panes, layout, history: popped, ..s }, None),
            }
        } else {
            (ManagerState { panes, layout, history, ..s }, Some(s.focused))
        }
    }
}

/// The state after splitting the focused pane with a new pane `id`; the new
/// pane takes the focus.
pub open spec fn split_state(s: ManagerState, id: PaneId, direction: SplitDirection) -> ManagerState {
    let layout = s.layout.split_at(s.focused, id, direction).0;
    let rects = layout.rects(s.screen);
    let fresh = PaneState { id, rect: first_rect(rects, id, s.screen), focused: false };
    let panes = relaid(inserted(s.panes, fresh), rects);
    focus_state(ManagerState { panes, layout, ..s }, id)
}

/// The first pane (in the order the panes were added) whose rectangle holds
/// the point.
pub open spec fn pane_at_point(panes: Seq<PaneState>, x: u16, y: u16) -> Option<PaneId>
    decreases panes.len(),
{
    if panes.len() == 0 {
        None
    } else if spec_contains(panes[0].rect, x, y) {
        Some(panes[0].id)
    } else {
        pane_at_point(panes.drop_first(), x, y)
    }
}

/// Whether `p` lies wholly in `direction` from `cur`, and how far its centre
/// is from `cur`'s along that direction.
pub open spec fn candidate(cur: Rect, p: Rect, direction: Direction) -> (bool, int) {
    let cx = cur.x + cur.width / 2;
    let cy = cur.y + cur.height / 2;
    let px = p.x + p.width / 2;
    let py = p.y + p.height / 2;
    match direction {
        Direction::Up => (p.y + p.height <= cur.y, if cy >= py { cy - py } else { py - cy }),
        Direction::Down => (p.y >= cur.y + cur.height, if py >= cy { py - cy } else { cy - py }),
        Direction::Left => (p.x + p.width <= cur.x, if cx >= px { cx - px } else { px - cx }),
        Direction::Right => (p.x >= cur.x + cur.width, if px >= cx { px - cx } else { cx - px }),
    }
}

/// The nearest pane in `direction` among `panes` other than `focused`; of
/// equally near ones, the first.
pub open spec fn nearest(panes: Seq<PaneState>, focused: PaneId, cur: Rect, direction: Direction) -> Option<(PaneId, int)>
    decreases panes.len(),
{
    if panes.len() == 0 {
        None
    } else {
        let before = nearest(panes.drop_last(), focused, cur, direction);
        let p = panes.last();
        let c = candidate(cur, p.rect, direction);
        if p.id != focused && c.0 && (before is None || c.1 < before->Some_0.1) {
            Some((p.id, c.1))
        } else {
            before
        }
    }
}

/// The rectangle of the pane with this id, where there is one.
pub open spec fn rect_of(panes: Seq<PaneState>, id: PaneId) -> Option<Rect>
    decreases panes.len(),
{
    if panes.len() == 0 {
        None
    } else if panes[0].id == id {
        Some(panes[0].rect)
    } else {
        rect_of(panes.drop_first(), id)
    }
}

/// The pane that focus moves to from the focused pane in `direction`.
pub open spec fn navigation_target(s: ManagerState, direction: Direction) -> Option<PaneId> {
    match rect_of(s.panes, s.focused) {
        None => None,
        Some(cur) => match nearest(s.panes, s.focused, cur, direction) {
            Some(best) => Some(best.0),
            None => None,
        },
    }
}

/// The state of a fresh window: one pane covering the screen.
pub open spec fn initial_state(width: u16, height: u16, pane_id: u32) -> ManagerState {
    let screen = Rect { x: 0, y: 0, width, height };
    ManagerState {
        panes: seq![PaneState { id: PaneId(pane_id), rect: screen, focused: false }],
        layout: LayoutNode::Pane(PaneId(pane_id)),
        focused: PaneId(pane_id),
        history: Seq::empty(),
        next_id: (pane_id + 1) as u32,
        screen,
    }
}

/// The panes of a window, their layout tree, focus and focus history.
///
/// Only the geometry and focus are kept here; the terminals that the panes
/// show live with the caller, keyed by the same ids.
pub struct PaneManager {
    panes: Vec<PaneState>,
    layout: LayoutNode,
    focused: PaneId,
    focus_history: Vec<PaneId>,
    next_id: u32,
    screen_rect: Rect,
}

impl View for PaneManager {
    type V = ManagerState;

    closed spec fn view(&self) -> ManagerState {
        ManagerState {
            panes: self.panes@,
            layout: self.layout,
            focused: self.focused,
            history: self.focus_history@,
            next_id: self.next_id,
            screen: self.screen_rect,
        }
    }
}

proof fn lemma_relaid_ids(panes: Seq<PaneState>, rects: Seq<(PaneId, Rect)>)
    ensures
        relaid(panes, rects).len() == panes.len(),
        forall|i: int| 0 <= i < panes.len() ==> #[trigger] relaid(panes, rects)[i].id == panes[i].id,
        distinct_ids(panes) ==> distinct_ids(relaid(panes, rects)),
        forall|id: PaneId| has_id(panes, id) == has_id(relaid(panes, rects), id),
{
    let r = relaid(panes, rects);
    assert forall|id: PaneId| has_id(panes, id) implies has_id(r, id) by {
        let i = choose|i: int| 0 <= i < panes.len() && #[trigger] panes[i].id == id;
        assert(r[i].id == id);
    }
    assert forall|id: PaneId| has_id(r, id) implies has_id(panes, id) by {
        let i = choose|i: int| 0 <= i < r.len() && #[trigger] r[i].id == id;
        assert(panes[i].id == id);
    }
}

proof fn lemma_refocused_ids(panes: Seq<PaneState>, from: PaneId, to: PaneId)
    ensures
        refocused(panes, from, to).len() == panes.len(),
        forall|i: int| 0 <= i < panes.len() ==> #[trigger] refocused(panes, from, to)[i].id == panes[i].id,
        distinct_ids(panes) ==> distinct_ids(refocused(panes, from, to)),
        forall|id: PaneId| has_id(panes, id) == has_id(refocused(panes, from, to), id),
{
    let r = refocused(panes, from, to);
    assert forall|id: PaneId| has_id(panes, id) implies has_id(r, id) by {
        let i = choose|i: int| 0 <= i < panes.len() && #[trigger] panes[i].id == id;
        assert(r[i].id == id);
    }
    assert forall|id: PaneId| has_id(r, id) implies has_id(panes, id) by {
        let i = choose|i: int| 0 <= i < r.len() && #[trigger] r[i].id == id;
        assert(panes[i].id == id);
    }
}

/// The index of the pane with this id.
fn index_of_pane(panes: &Vec<PaneState>, id: PaneId) -> (r: Option<usize>)
    ensures
        match r {
            Some(i) => i < panes.len() && panes@[i as int].id == id && forall|j: int|
                0 <= j < i ==> #[trigger] panes@[j].id != id,
            None => !has_id(panes@, id),
        },
{
    let mut i: usize = 0;
    while i < panes.len()
        invariant
            i <= panes.len(),
            forall|j: int| 0 <= j < i ==> #[trigger] panes@[j].id != id,
        decreases panes.len() - i,
    {
        if panes[i].id == id {
            return Some(i);
        }
        i = i + 1;
    }
    None
}

/// Moves the focus mark from `from` to `to`.
fn set_focus_marks(panes: &mut Vec<PaneState>, from: PaneId, to: PaneId)
    ensures
        final(panes)@ == refocused(old(panes)@, from, to),
{
    let ghost start = panes@;
    let mut i: usize = 0;
    while i < panes.len()
        invariant
            i <= panes.len(),
            panes@.len() == start.len(),
            forall|j: int| 0 <= j < i ==> #[trigger] panes@[j] == refocused(start, from, to)[j],
            forall|j: int| i <= j < panes@.len() ==> #[trigger] panes@[j] == start[j],
        decreases panes.len() - i,
    {
        let p = panes[i];
        if p.id == from {
            panes.set(i, PaneState { focused: false, ..p });
        } else if p.id == to {
            panes.set(i, PaneState { focused: true, ..p });
        }
        i = i + 1;
    }
    proof {
        assert(panes@ =~= refocused(start, from, to));
    }
}

/// The history without `x`.
fn history_without(history: &Vec<PaneId>, x: PaneId) -> (r: Vec<PaneId>)
    ensures
        r@ == without(history@, x),
{
    let mut r: Vec<PaneId> = Vec::new();
    let mut i: usize = 0;
    while i < history.len()
        invariant
            i <= history.len(),
            r@ == without(history@.take(i as int), x),
        decreases history.len() - i,
    {
        proof {
            assert(history@.take(i as int + 1).drop_last() =~= history@.take(i as int));
        }
        if history[i] != x {
            r.push(history[i]);
        }
        i = i + 1;
    }
    proof {
        assert(history@.take(i as int) =~= history@);
    }
    r
}

/// The panes without the one with this id.
fn drop_pane(panes: &Vec<PaneState>, id: PaneId) -> (r: Vec<PaneState>)
    requires
        distinct_ids(panes@),
    ensures
        r@ == dropped(panes@, id),
        distinct_ids(r@),
{
    let mut r: Vec<PaneState> = Vec::new();
    let mut i: usize = 0;
    while i < panes.len()
        invariant
            i <= panes.len(),
            distinct_ids(panes@),
            r@ == dropped(panes@.take(i as int), id),
            distinct_ids(r@),
            forall|k: int| 0 <= k < r@.len() ==> exists|j: int| 0 <= j < i && #[trigger] panes@[j].id == #[trigger] r@[k].id,
        decreases panes.len() - i,
    {
        proof {
            assert(panes@.take(i as int + 1).drop_last() =~= panes@.take(i as int));
        }
        if panes[i].id != id {
            let ghost before = r@;
            r.push(panes[i]);
            proof {
                assert forall|a: int, b: int| 0 <= a < b < r@.len() implies #[trigger] r@[a].id != #[trigger] r@[b].id by {
                    if b == r@.len() - 1 {
                        let j = choose|j: int| 0 <= j < i && #[trigger] panes@[j].id == before[a].id;
                        assert(panes@[j].id != panes@[i as int].id);
                    } else {
                        assert(before[a].id != before[b].id);
                    }
                }
                assert forall|k: int| 0 <= k < r@.len() implies exists|j: int| 0 <= j < i + 1 && #[trigger] panes@[j].id == #[trigger] r@[k].id by {
                    if k == r@.len() - 1 {
                        assert(panes@[i as int].id == r@[k].id);
                    } else {
                        let j = choose|j: int| 0 <= j < i && #[trigger] panes@[j].id == before[k].id;
                        assert(panes@[j].id == r@[k].id);
                    }
                }
            }
        }
        i = i + 1;
    }
    proof {
        assert(panes@.take(i as int) =~= panes@);
    }
    r
}

/// Stores `p` under its id, in place of the pane with that id or last.
fn insert_pane(panes: &mut Vec<PaneState>, p: PaneState)
    requires
        distinct_ids(old(panes)@),
    ensures
        final(panes)@ == inserted(old(panes)@, p),
        distinct_ids(final(panes)@),
{
    match index_of_pane(panes, p.id) {
        Some(i) => {
            let ghost start = panes@;
            panes.set(i, p);
            proof {
                assert(has_id(start, p.id)) by {
                    assert(start[i as int].id == p.id);
                }
                assert(panes@ =~= inserted(start, p));
            }
        },
        None => {
            panes.push(p);
        },
    }
}

/// Moves each pane to the rectangle that `rects` gives it last.
fn apply_rects(panes: &mut Vec<PaneState>, rects: &Vec<(PaneId, Rect)>)
    requires
        distinct_ids(old(panes)@),
    ensures
        final(panes)@ == relaid(old(panes)@, rects@),
{
    let ghost start = panes@;
    let mut i: usize = 0;
    while i < rects.len()
        invariant
            i <= rects.len(),
            distinct_ids(start),
            panes@ == relaid(start, rects@.take(i as int)),
        decreases rects.len() - i,
    {
        let (id, rect) = rects[i];
        proof {
            lemma_relaid_ids(start, rects@.take(i as int));
            assert(rects@.take(i as int + 1).drop_last() =~= rects@.take(i as int));
        }
        let found = index_of_pane(panes, id);
        let ghost before = panes@;
        match found {
            Some(j) => {
                let p = panes[j];
                panes.set(j, PaneState { rect, ..p });
            },
            None => {},
        }
        proof {
            assert forall|k: int| 0 <= k < start.len() implies #[trigger] panes@[k] == relaid(
                start,
                rects@.take(i as int + 1),
            )[k] by {
                let t = rects@.take(i as int + 1);
                assert(t.last() == (id, rect));
                if start[k].id == id {
                    match found {
                        Some(j) => {
                            if j as int != k {
                                assert(before[j as int].id == before[k].id);
                            }
                        },
                        None => {
                            assert(before[k].id == start[k].id);
                        },
                    }
                }
            }
            assert(panes@ =~= relaid(start, rects@.take(i as int + 1)));
        }
        i = i + 1;
    }
    proof {
        assert(rects@.take(i as int) =~= rects@);
    }
}

/// The rectangle that `rects` gives `id` first, or `fallback`.
fn rect_for(rects: &Vec<(PaneId, Rect)>, id: PaneId, fallback: Rect) -> (r: Rect)
    ensures
        r == first_rect(rects@, id, fallback),
{
    let mut i: usize = 0;
    proof {
        assert(rects@.subrange(0, rects@.len() as int) =~= rects@);
    }
    while i < rects.len()
        invariant
            i <= rects.len(),
            first_rect(rects@, id, fallback) == first_rect(rects@.subrange(i as int, rects@.len() as int), id, fallback),
        decreases rects.len() - i,
    {
        let ghost rest = rects@.subrange(i as int, rects@.len() as int);
        proof {
            assert(rest.drop_first() =~= rects@.subrange(i as int + 1, rects@.len() as int));
        }
        if rects[i].0 == id {
            return rects[i].1;
        }
        i = i + 1;
    }
    fallback
}

impl PaneManager {
    /// Every pane id occurs once.
    pub closed spec fn wf(&self) -> bool {
        distinct_ids(self.panes@)
    }

    /// A well-formed manager's panes have distinct ids.
    pub proof fn lemma_ids_distinct(&self)
        requires
            self.wf(),
        ensures
            distinct_ids(self@.panes),
    {
    }

    /// A window with one pane, with id 0, covering the screen.
    pub fn new(width: u16, height: u16) -> (m: PaneManager)
        ensures
            m.wf(),
            m@ == initial_state(width, height, 0),
    {
        PaneManager::new_with_pane_id(width, height, 0)
    }

    /// A window with one pane, with the given id, covering the screen.
    pub fn new_with_pane_id(width: u16, height: u16, pane_id: u32) -> (m: PaneManager)
        requires
            pane_id < u32::MAX,
        ensures
            m.wf(),
            m@ == initial_state(width, height, pane_id),
    {
        let screen_rect = Rect::new(0, 0, width, height);
        let id = PaneId(pane_id);
        let mut panes: Vec<PaneState> = Vec::new();
        panes.push(PaneState { id, rect: screen_rect, focused: false });
        let m = PaneManager {
            panes,
            layout: LayoutNode::Pane(id),
            focused: id,
            focus_history: Vec::new(),
            next_id: pane_id + 1,
            screen_rect,
        };
        proof {
            assert(m@.panes =~= initial_state(width, height, pane_id).panes);
            assert(m@.history =~= initial_state(width, height, pane_id).history);
        }
        m
    }

    /// The focused pane.
    pub fn focused_id(&self) -> (id: PaneId)
        ensures
            id == self@.focused,
    {
        self.focused
    }

    /// Whether a pane with this id exists.
    pub fn has_pane(&self, id: PaneId) -> (b: bool)
        ensures
            b == has_id(self@.panes, id),
    {
        index_of_pane(&self.panes, id).is_some()
    }

    /// How many panes there are.
    pub fn pane_count(&self) -> (n: usize)
        ensures
            n == self@.panes.len(),
    {
        self.panes.len()
    }

    /// The panes, in the order they were added.
    pub fn panes(&self) -> (v: &[PaneState])
        ensures
            v@ == self@.panes,
    {
        self.panes.as_slice()
    }

    /// The pane whose rectangle holds the point.
    pub fn pane_at(&self, x: u16, y: u16) -> (r: Option<PaneId>)
        ensures
            r == pane_at_point(self@.panes, x, y),
    {
        let mut i: usize = 0;
        proof {
            assert(self.panes@.subrange(0, self.panes@.len() as int) =~= self.panes@);
        }
        while i < self.panes.len()
            invariant
                i <= self.panes@.len(),
                pane_at_point(self.panes@, x, y) == pane_at_point(
                    self.panes@.subrange(i as int, self.panes@.len() as int),
                    x,
                    y,
                ),
            decreases self.panes.len() - i,
        {
            let ghost rest = self.panes@.subrange(i as int, self.panes@.len() as int);
            proof {
                assert(rest.drop_first() =~= self.panes@.subrange(i as int + 1, self.panes@.len() as int));
            }
            if self.panes[i].rect.contains(x, y) {
                return Some(self.panes[i].id);
            }
            i = i + 1;
        }
        None
    }

    /// Focuses the pane `id`, where it exists and is not focused already; the
    /// pane focused before goes to the end of the history.
    pub fn focus(&mut self, id: PaneId)
        requires
            old(self).wf(),
        ensures
            final(self).wf(),
            final(self)@ == focus_state(old(self)@, id),
    {
        if self.has_pane(id) && id != self.focused {
            let from = self.focused;
            set_focus_marks(&mut self.panes, from, id);
            let mut history = history_without(&self.focus_history, from);
            history.push(from);
            self.focus_history = history;
            self.focused = id;
            proof {
                lemma_refocused_ids(old(self)@.panes, from, id);
            }
        }
    }

    /// Whether splitting the focused pane with a new pane `pane_id` keeps the
    /// layout within `u16` coordinates.
    pub fn can_split(&self, direction: SplitDirection, pane_id: u32) -> (b: bool)
        ensures
            b == self@.layout.split_at(self@.focused, PaneId(pane_id), direction).0.fits(self@.screen),
    {
        let mut layout = self.layout.duplicate();
        layout.split_pane(self.focused, PaneId(pane_id), direction);
        layout.fits_in(self.screen_rect)
    }

    /// Splits the focused pane with a new pane `pane_id`, lays the panes out
    /// again and focuses the new pane; returns its id.
    pub fn split_with_id(&mut self, direction: SplitDirection, pane_id: u32) -> (id: PaneId)
        requires
            old(self).wf(),
            old(self)@.layout.split_at(old(self)@.focused, PaneId(pane_id), direction).0.fits(old(self)@.screen),
        ensures
            final(self).wf(),
            id == PaneId(pane_id),
            final(self)@ == split_state(old(self)@, id, direction),
    {
        let new_id = PaneId(pane_id);
        let target = self.focused;
        self.layout.split_pane(target, new_id, direction);
        let mut rects: Vec<(PaneId, Rect)> = Vec::new();
        self.layout.calculate_rects(self.screen_rect, &mut rects);
        proof {
            assert(rects@ =~= self.layout.rects(self.screen_rect));
        }
        let new_rect = rect_for(&rects, new_id, self.screen_rect);
        insert_pane(&mut self.panes, PaneState { id: new_id, rect: new_rect, focused: false });
        let ghost inserted_panes = self.panes@;
        apply_rects(&mut self.panes, &rects);
        proof {
            lemma_relaid_ids(inserted_panes, rects@);
        }
        let ghost mid = self@;
        self.focus(new_id);
        proof {
            assert(mid == ManagerState {
                panes: relaid(
                    inserted(old(self)@.panes, PaneState { id: new_id, rect: new_rect, focused: false }),
                    rects@,
                ),
                layout: self@.layout,
                ..old(self)@
            });
        }
        new_id
    }

    /// Splits the focused pane with a new pane that takes the next free id.
    pub fn split(&mut self, direction: SplitDirection) -> (id: PaneId)
        requires
            old(self).wf(),
            old(self)@.next_id < u32::MAX,
            old(self)@.layout.split_at(old(self)@.focused, PaneId(old(self)@.next_id), direction).0.fits(
                old(self)@.screen,
            ),
        ensures
            final(self).wf(),
            id == PaneId(old(self)@.next_id),
            final(self)@ == split_state(
                ManagerState { next_id: (old(self)@.next_id + 1) as u32, ..old(self)@ },
                id,
                direction,
            ),
    {
        let new_id = self.next_id;
        self.next_id = self.next_id + 1;
        self.split_with_id(direction, new_id)
    }

    /// Whether a screen of this size keeps the layout within `u16`
    /// coordinates.
    pub fn can_resize(&self, width: u16, height: u16) -> (b: bool)
        ensures
            b == self@.layout.fits(Rect { x: 0, y: 0, width, height }),
    {
        self.layout.fits_in(Rect::new(0, 0, width, height))
    }

    /// Resizes the screen and lays the panes out again.
    pub fn resize_screen(&mut self, width: u16, height: u16)
        requires
            old(self).wf(),
            old(self)@.layout.fits(Rect { x: 0, y: 0, width, height }),
        ensures
            final(self).wf(),
            final(self)@ == (ManagerState {
                screen: Rect { x: 0, y: 0, width, height },
                panes: relaid(old(self)@.panes, old(self)@.layout.rects(Rect { x: 0, y: 0, width, height })),
                ..old(self)@
            }),
    {
        self.screen_rect = Rect::new(0, 0, width, height);
        let mut rects: Vec<(PaneId, Rect)> = Vec::new();
        self.layout.calculate_rects(self.screen_rect, &mut rects);
        proof {
            assert(rects@ =~= self.layout.rects(self.screen_rect));
            lemma_relaid_ids(old(self)@.panes, rects@);
        }
        apply_rects(&mut self.panes, &rects);
    }

    /// Whether closing the pane `id` keeps the layout within `u16`
    /// coordinates.
    pub fn can_close(&self, id: PaneId) -> (b: bool)
        ensures
            b == (self@.panes.len() <= 1 || layout_without(self@.layout, id).fits(self@.screen)),
    {
        if self.panes.len() <= 1 {
            return true;
        }
        let mut layout = self.layout.duplicate();
        let sibling = layout.remove_pane(id);
        match sibling {
            Some(b) => b.fits_in(self.screen_rect),
            None => layout.fits_in(self.screen_rect),
        }
    }

    /// Closes the pane `id`, unless it is the last one, and lays the rest out
    /// again. Where it was focused, the focus goes back to the pane focused
    /// before it, else to the first pane of the layout. Returns the focused
    /// pane afterwards, or `None` where nothing was closed.
    pub fn close_pane(&mut self, id: PaneId) -> (r: Option<PaneId>)
        requires
            old(self).wf(),
            old(self)@.panes.len() > 1 ==> layout_without(old(self)@.layout, id).fits(old(self)@.screen),
        ensures
            final(self).wf(),
            (final(self)@, r) == close_state(old(self)@, id),
    {
        if self.panes.len() <= 1 {
            return None;
        }
        let sibling = self.layout.remove_pane(id);
        match sibling {
            Some(b) => {
                self.layout = *b;
            },
            None => {},
        }
        let panes = drop_pane(&self.panes, id);
        self.panes = panes;
        self.focus_history = history_without(&self.focus_history, id);
        let mut rects: Vec<(PaneId, Rect)> = Vec::new();
        self.layout.calculate_rects(self.screen_rect, &mut rects);
        proof {
            assert(rects@ =~= self.layout.rects(self.screen_rect));
        }
        let ghost kept = self.panes@;
        apply_rects(&mut self.panes, &rects);
        proof {
            lemma_relaid_ids(kept, rects@);
        }
        if self.focused == id {
            let mut candidate: Option<PaneId> = None;
            if self.focus_history.len() > 0 {
                let last = self.focus_history.pop().unwrap();
                if self.has_pane(last) {
                    candidate = Some(last);
                }
            }
            if candidate.is_none() && rects.len() > 0 {
                candidate = Some(rects[0].0);
            }
            match candidate {
                Some(n) => {
                    self.focused = n;
                    let ghost laid = self.panes@;
                    set_focus_marks(&mut self.panes, id, n);
                    proof {
                        lemma_refocused_ids(laid, id, n);
                    }
                    Some(n)
                },
                None => None,
            }
        } else {
            Some(self.focused)
        }
    }

    /// Closes the focused pane, unless it is the last one; see `close_pane`.
    pub fn close_focused(&mut self) -> (r: Option<PaneId>)
        requires
            old(self).wf(),
            old(self)@.panes.len() > 1 ==> layout_without(old(self)@.layout, old(self)@.focused).fits(
                old(self)@.screen,
            ),
        ensures
            final(self).wf(),
            (final(self)@, r) == close_state(old(self)@, old(self)@.focused),
    {
        let id = self.focused;
        self.close_pane(id)
    }

    /// Moves the focus to the nearest pane in `direction`, where there is
    /// one.
    pub fn navigate(&mut self, direction: Direction)
        requires
            old(self).wf(),
        ensures
            final(self).wf(),
            final(self)@ == match navigation_target(old(self)@, direction) {
                Some(id) => focus_state(old(self)@, id),
                None => old(self)@,
            },
    {
        let cur = match self.current_rect() {
            Some(r) => r,
            None => {
                return;
            },
        };
        let best = nearest_pane(&self.panes, self.focused, cur, direction);
        match best {
            Some(b) => {
                self.focus(b.0);
            },
            None => {},
        }
    }

    fn current_rect(&self) -> (r: Option<Rect>)
        ensures
            r == rect_of(self@.panes, self@.focused),
    {
        let mut i: usize = 0;
        proof {
            assert(self.panes@.subrange(0, self.panes@.len() as int) =~= self.panes@);
        }
        while i < self.panes.len()
            invariant
                i <= self.panes@.len(),
                rect_of(self.panes@, self.focused) == rect_of(
                    self.panes@.subrange(i as int, self.panes@.len() as int),
                    self.focused,
                ),
            decreases self.panes.len() - i,
        {
            let ghost rest = self.panes@.subrange(i as int, self.panes@.len() as int);
            proof {
                assert(rest.drop_first() =~= self.panes@.subrange(i as int + 1, self.panes@.len() as int));
            }
            if self.panes[i].id == self.focused {
                return Some(self.panes[i].rect);
            }
            i = i + 1;
        }
        None
    }
}

fn abs_diff(a: u32, b: u32) -> (d: u32)
    ensures
        d == (if a >= b { a - b } else { b - a }),
{
    if a >= b {
        a - b
    } else {
        b - a
    }
}

/// Whether `p` lies wholly in `direction` from `cur`, and the distance
/// between their centres along it.
fn candidate_of(cur: Rect, p: Rect, direction: Direction) -> (r: (bool, u32))
    ensures
        r.0 == candidate(cur, p, direction).0,
        r.1 as int == candidate(cur, p, direction).1,
{
    let cx: u32 = cur.x as u32 + (cur.width / 2) as u32;
    let cy: u32 = cur.y as u32 + (cur.height / 2) as u32;
    let px: u32 = p.x as u32 + (p.width / 2) as u32;
    let py: u32 = p.y as u32 + (p.height / 2) as u32;
    match direction {
        Direction::Up => (p.y as u32 + p.height as u32 <= cur.y as u32, abs_diff(cy, py)),
        Direction::Down => (p.y as u32 >= cur.y as u32 + cur.height as u32, abs_diff(py, cy)),
        Direction::Left => (p.x as u32 + p.width as u32 <= cur.x as u32, abs_diff(cx, px)),
        Direction::Right => (p.x as u32 >= cur.x as u32 + cur.width as u32, abs_diff(px, cx)),
    }
}

/// The nearest pane in `direction` other than `focused`.
fn nearest_pane(panes: &Vec<PaneState>, focused: PaneId, cur: Rect, direction: Direction) -> (r: Option<(PaneId, u32)>)
    ensures
        match r {
            Some(b) => nearest(panes@, focused, cur, direction) == Some((b.0, b.1 as int)),
            None => nearest(panes@, focused, cur, direction) is None,
        },
{
    let mut best: Option<(PaneId, u32)> = None;
    let mut i: usize = 0;
    while i < panes.len()
        invariant
            i <= panes.len(),
            match best {
                Some(b) => nearest(panes@.take(i as int), focused, cur, direction) == Some((b.0, b.1 as int)),
                None => nearest(panes@.take(i as int), focused, cur, direction) is None,
            },
        decreases panes.len() - i,
    {
        proof {
            assert(panes@.take(i as int + 1).drop_last() =~= panes@.take(i as int));
        }
        let p = panes[i];
        if p.id != focused {
            let c = candidate_of(cur, p.rect, direction);
            if c.0 {
                let better = match best {
                    None => true,
                    Some(b) => c.1 < b.1,
                };
                if better {
                    best = Some((p.id, c.1));
                }
            }
        }
        i = i + 1;
    }
    proof {
        assert(panes@.take(i as int) =~= panes@);
    }
    best
}

/// A split leaves no gap and no overlap: the two parts keep the column span
/// (or row span) of the rectangle, the second starts one cell past the end
/// of the first, and where the first part is smaller than the whole, the two
/// parts and the border fill it exactly.
pub proof fn law_split_partitions_rect(r: Rect, percent: u16)
    requires
        percent <= 100,
        r.y as int + share(r.height, percent) + 1 <= u16::MAX,
        r.x as int + share(r.width, percent) + 1 <= u16::MAX,
    ensures
        ({
            let (top, bottom) = spec_split_h(r, percent);
            &&& top.x == r.x && top.width == r.width && bottom.x == r.x && bottom.width == r.width
            &&& top.y == r.y
            &&& bottom.y == top.y + top.height + 1
            &&& top.height < r.height ==> top.height + 1 + bottom.height == r.height
        }),
        ({
            let (left, right) = spec_split_v(r, percent);
            &&& left.y == r.y && left.height == r.height && right.y == r.y && right.height == r.height
            &&& left.x == r.x
            &&& right.x == left.x + left.width + 1
            &&& left.width < r.width ==> left.width + 1 + right.width == r.width
        }),
{
    lemma_share_bounds(r.height, percent);
    lemma_share_bounds(r.width, percent);
}

/// Laying a tree out gives one rectangle per pane, in the tree's pane order.
pub proof fn law_rects_follow_ids(layout: LayoutNode, r: Rect)
    ensures
        layout.rects(r).len() == layout.ids().len(),
        forall|i: int| 0 <= i < layout.ids().len() ==> #[trigger] layout.rects(r)[i].0 == layout.ids()[i],
    decreases layout,
{
    match layout {
        LayoutNode::Pane(_) => {},
        LayoutNode::Split { direction, ratio, first, second } => {
            let parts = LayoutNode::parts(direction, ratio, r);
            law_rects_follow_ids(*first, parts.0);
            law_rects_follow_ids(*second, parts.1);
            let n = first.ids().len() as int;
            assert forall|i: int| 0 <= i < layout.ids().len() implies #[trigger] layout.rects(r)[i].0
                == layout.ids()[i] by {
                if i < n {
                    assert(layout.rects(r)[i] == first.rects(parts.0)[i]);
                    assert(layout.ids()[i] == first.ids()[i]);
                } else {
                    assert(layout.rects(r)[i] == second.rects(parts.1)[i - n]);
                    assert(layout.ids()[i] == second.ids()[i - n]);
                }
            }
        },
    }
}

proof fn lemma_split_found(t: LayoutNode, target: PaneId, new_pane: PaneId, direction: SplitDirection)
    ensures
        t.split_at(target, new_pane, direction).1 == t.ids().contains(target),
        !t.split_at(target, new_pane, direction).1 ==> t.split_at(target, new_pane, direction).0 == t,
    decreases t,
{
    match t {
        LayoutNode::Pane(id) => {
            assert(t.ids() =~= seq![id]);
            if t.ids().contains(target) {
                let k = choose|k: int| 0 <= k < t.ids().len() && t.ids()[k] == target;
                assert(k == 0);
            }
            if id == target {
                assert(t.ids()[0] == target);
            }
        },
        LayoutNode::Split { direction: d, ratio, first, second } => {
            lemma_split_found(*first, target, new_pane, direction);
            lemma_split_found(*second, target, new_pane, direction);
            let a = first.ids();
            let b = second.ids();
            assert(t.ids() == a + b);
            if (a + b).contains(target) {
                let k = choose|k: int| 0 <= k < (a + b).len() && (a + b)[k] == target;
                if k < a.len() {
                    assert(a[k] == target);
                } else {
                    assert(b[k - a.len()] == target);
                }
            }
            if a.contains(target) {
                let k = choose|k: int| 0 <= k < a.len() && a[k] == target;
                assert((a + b)[k] == target);
            }
            if b.contains(target) {
                let k = choose|k: int| 0 <= k < b.len() && b[k] == target;
                assert((a + b)[a.len() + k] == target);
            }
        },
    }
}

proof fn lemma_removed_absent(t: LayoutNode, id: PaneId)
    requires
        !t.ids().contains(id),
    ensures
        t.removed(id) == (t, None::<LayoutNode>),
    decreases t,
{
    match t {
        LayoutNode::Pane(_) => {},
        LayoutNode::Split { first, second, .. } => {
            let a = first.ids();
            let b = second.ids();
            assert forall|k: int| 0 <= k < a.len() implies a[k] != id by {
                assert((a + b)[k] == a[k]);
            }
            assert forall|k: int| 0 <= k < b.len() implies b[k] != id by {
                assert((a + b)[a.len() + k] == b[k]);
            }
            if *first == LayoutNode::Pane(id) {
                assert(a[0] == id);
            }
            if *second == LayoutNode::Pane(id) {
                assert(b[0] == id);
            }
            lemma_removed_absent(*first, id);
            lemma_removed_absent(*second, id);
        },
    }
}

proof fn lemma_remove_after_split(t: LayoutNode, target: PaneId, new_pane: PaneId, direction: SplitDirection)
    requires
        t.ids().contains(target),
        !t.ids().contains(new_pane),
        target != new_pane,
    ensures
        t.split_at(target, new_pane, direction).0.removed(new_pane) == (if t == LayoutNode::Pane(target) {
            (t.split_at(target, new_pane, direction).0, Some(t))
        } else {
            (t, None::<LayoutNode>)
        }),
    decreases t,
{
    match t {
        LayoutNode::Pane(id) => {
            assert(t.ids() =~= seq![id]);
            let k = choose|k: int| 0 <= k < t.ids().len() && t.ids()[k] == target;
            assert(k == 0);
        },
        LayoutNode::Split { direction: d, ratio, first, second } => {
            let a = first.ids();
            let b = second.ids();
            assert(t.ids() == a + b);
            assert forall|k: int| 0 <= k < a.len() implies a[k] != new_pane by {
                assert((a + b)[k] == a[k]);
            }
            assert forall|k: int| 0 <= k < b.len() implies b[k] != new_pane by {
                assert((a + b)[a.len() + k] == b[k]);
            }
            lemma_split_found(*first, target, new_pane, direction);
            lemma_split_found(*second, target, new_pane, direction);
            lemma_removed_absent(*second, new_pane);
            lemma_removed_absent(*first, new_pane);
            if *second == LayoutNode::Pane(new_pane) {
                assert(b[0] == new_pane);
            }
            if a.contains(target) {
                lemma_remove_after_split(*first, target, new_pane, direction);
                let f2 = first.split_at(target, new_pane, direction).0;
                if *first == LayoutNode::Pane(target) {
                } else {
                    if f2 == LayoutNode::Pane(new_pane) {
                        assert(f2.removed(new_pane) == (f2, None::<LayoutNode>));
                    }
                }
            } else {
                let k = choose|k: int| 0 <= k < (a + b).len() && (a + b)[k] == target;
                if k < a.len() {
                    assert(a[k] == target);
                    assert(false);
                }
                assert(b[k - a.len()] == target);
                assert(b.contains(target));
                lemma_remove_after_split(*second, target, new_pane, direction);
                let s2 = second.split_at(target, new_pane, direction).0;
                if *first == LayoutNode::Pane(new_pane) {
                    assert(a[0] == new_pane);
                }
                if s2 == LayoutNode::Pane(new_pane) {
                    assert(s2.removed(new_pane) == (s2, None::<LayoutNode>));
                }
            }
        },
    }
}

/// Taking out the pane that a split just added gives back the tree as it
/// was, wherever the split pane stood.
pub proof fn law_remove_undoes_split(t: LayoutNode, target: PaneId, new_pane: PaneId, direction: SplitDirection)
    requires
        t.ids().contains(target),
        !t.ids().contains(new_pane),
        target != new_pane,
    ensures
        t.split_at(target, new_pane, direction).1,
        layout_without(t.split_at(target, new_pane, direction).0, new_pane) == t,
{
    lemma_split_found(t, target, new_pane, direction);
    lemma_remove_after_split(t, target, new_pane, direction);
}

proof fn lemma_without_absent(h: Seq<PaneId>, x: PaneId)
    requires
        !h.contains(x),
    ensures
        without(h, x) == h,
    decreases h.len(),
{
    if h.len() > 0 {
        assert(!h.drop_last().contains(x)) by {
            if h.drop_last().contains(x) {
                let k = choose|k: int| 0 <= k < h.drop_last().len() && h.drop_last()[k] == x;
                assert(h[k] == x);
            }
        }
        assert(h[h.len() - 1] == h.last());
        lemma_without_absent(h.drop_last(), x);
        assert(h.drop_last().push(h.last()) =~= h);
    }
}

proof fn lemma_dropped_keeps(panes: Seq<PaneState>, id: PaneId, x: PaneId)
    requires
        has_id(panes, x),
        x != id,
    ensures
        has_id(dropped(panes, id), x),
    decreases panes.len(),
{
    let k = choose|k: int| 0 <= k < panes.len() && #[trigger] panes[k].id == x;
    if k == panes.len() - 1 {
        let d = dropped(panes.drop_last(), id);
        assert(dropped(panes, id) == d.push(panes.last()));
        assert(dropped(panes, id)[d.len() as int].id == x);
    } else {
        assert(panes.drop_last()[k].id == x);
        lemma_dropped_keeps(panes.drop_last(), id, x);
        let d = dropped(panes.drop_last(), id);
        let j = choose|j: int| 0 <= j < d.len() && #[trigger] d[j].id == x;
        if panes.last().id != id {
            assert(dropped(panes, id)[j].id == x);
        }
    }
}

/// Closing the pane that a split has just added restores the layout and
/// gives the focus back to the pane that was split.
pub proof fn law_close_undoes_split(s: ManagerState, new_pane: PaneId, direction: SplitDirection)
    requires
        has_id(s.panes, s.focused),
        s.layout.ids().contains(s.focused),
        !s.layout.ids().contains(new_pane),
        !has_id(s.panes, new_pane),
        !s.history.contains(new_pane),
        new_pane != s.focused,
    ensures
        ({
            let (after, r) = close_state(split_state(s, new_pane, direction), new_pane);
            &&& after.layout == s.layout
            &&& after.focused == s.focused
            &&& r == Some(s.focused)
            &&& after.history == without(s.history, s.focused)
            &&& after.screen == s.screen
        }),
{
    law_remove_undoes_split(s.layout, s.focused, new_pane, direction);
    let layout1 = s.layout.split_at(s.focused, new_pane, direction).0;
    let rects1 = layout1.rects(s.screen);
    let fresh = PaneState { id: new_pane, rect: first_rect(rects1, new_pane, s.screen), focused: false };
    let ins = inserted(s.panes, fresh);
    assert(ins == s.panes.push(fresh));
    let panes1 = relaid(ins, rects1);
    lemma_relaid_ids(ins, rects1);
    let k = choose|k: int| 0 <= k < s.panes.len() && #[trigger] s.panes[k].id == s.focused;
    assert(ins[k].id == s.focused);
    assert(has_id(ins, s.focused));
    assert(has_id(panes1, s.focused));
    assert(ins[s.panes.len() as int].id == new_pane);
    assert(has_id(ins, new_pane));
    assert(has_id(panes1, new_pane));
    let mid = ManagerState { panes: panes1, layout: layout1, ..s };
    let s1 = split_state(s, new_pane, direction);
    assert(s1 == focus_state(mid, new_pane));
    let panes2 = refocused(panes1, s.focused, new_pane);
    lemma_refocused_ids(panes1, s.focused, new_pane);
    let h2 = without(s.history, s.focused).push(s.focused);
    assert(s1.panes == panes2 && s1.history == h2 && s1.focused == new_pane);
    assert(s1.panes.len() > 1);
    assert(!h2.contains(new_pane)) by {
        if h2.contains(new_pane) {
            let j = choose|j: int| 0 <= j < h2.len() && h2[j] == new_pane;
            if j < h2.len() - 1 {
                lemma_without_subset(s.history, s.focused, j);
            }
        }
    }
    lemma_without_absent(h2, new_pane);
    assert(layout_without(s1.layout, new_pane) == s.layout);
    let rects = s.layout.rects(s.screen);
    assert(has_id(panes2, s.focused));
    lemma_dropped_keeps(panes2, new_pane, s.focused);
    lemma_relaid_ids(dropped(panes2, new_pane), rects);
    assert(h2.last() == s.focused);
    assert(h2.drop_last() =~= without(s.history, s.focused));
}

proof fn lemma_without_subset(h: Seq<PaneId>, x: PaneId, j: int)
    requires
        0 <= j < without(h, x).len(),
    ensures
        h.contains(without(h, x)[j]),
        without(h, x)[j] != x,
    decreases h.len(),
{
    if h.len() > 0 {
        let w = without(h.drop_last(), x);
        if h.last() == x || j < w.len() {
            lemma_without_subset(h.drop_last(), x, j);
            let k = choose|k: int| 0 <= k < h.drop_last().len() && h.drop_last()[k] == without(h.drop_last(), x)[j];
            assert(h[k] == h.drop_last()[k]);
        } else {
            assert(without(h, x)[j] == h.last());
            assert(h[h.len() - 1] == h.last());
        }
    }
}

/// The focus history never holds the focused pane: focusing keeps it apart,
/// given that the pane to focus is not in the history already.
pub proof fn law_focus_keeps_history_apart(s: ManagerState, id: PaneId)
    requires
        !s.history.contains(s.focused),
        !s.history.contains(id),
    ensures
        !focus_state(s, id).history.contains(focus_state(s, id).focused),
{
    let t = focus_state(s, id);
    if has_id(s.panes, id) && id != s.focused {
        let w = without(s.history, s.focused);
        if t.history.contains(id) {
            let j = choose|j: int| 0 <= j < t.history.len() && t.history[j] == id;
            if j < w.len() {
                assert(t.history[j] == w[j]);
                lemma_without_subset(s.history, s.focused, j);
            }
        }
    }
}

/// Whether `r` lies wholly on the `direction` side of `cur`: every row of a
/// pane below lies under every row of `cur`, and so on.
pub open spec fn lies_toward(cur: Rect, r: Rect, direction: Direction) -> bool {
    match direction {
        Direction::Up => r.y + r.height <= cur.y,
        Direction::Down => cur.y + cur.height <= r.y,
        Direction::Left => r.x + r.width <= cur.x,
        Direction::Right => cur.x + cur.width <= r.x,
    }
}

proof fn lemma_nearest_found(panes: Seq<PaneState>, focused: PaneId, cur: Rect, direction: Direction)
    ensures
        nearest(panes, focused, cur, direction) matches Some(b) ==> exists|i: int|
            0 <= i < panes.len() && (#[trigger] panes[i]).id == b.0 && b.0 != focused && candidate(
                cur,
                panes[i].rect,
                direction,
            ).0,
        (exists|i: int|
            0 <= i < panes.len() && (#[trigger] panes[i]).id != focused && candidate(cur, panes[i].rect, direction).0)
            ==> nearest(panes, focused, cur, direction) is Some,
    decreases panes.len(),
{
    if panes.len() > 0 {
        let init = panes.drop_last();
        lemma_nearest_found(init, focused, cur, direction);
        if let Some(b) = nearest(init, focused, cur, direction) {
            let i = choose|i: int|
                0 <= i < init.len() && (#[trigger] init[i]).id == b.0 && b.0 != focused && candidate(
                    cur,
                    init[i].rect,
                    direction,
                ).0;
            assert(panes[i] == init[i]);
        }
        if exists|i: int|
            0 <= i < panes.len() && (#[trigger] panes[i]).id != focused && candidate(cur, panes[i].rect, direction).0 {
            let i = choose|i: int|
                0 <= i < panes.len() && (#[trigger] panes[i]).id != focused && candidate(cur, panes[i].rect, direction).0;
            if i < init.len() {
                assert(init[i] == panes[i]);
            }
        }
    }
}

proof fn lemma_rect_of_distinct(panes: Seq<PaneState>, i: int)
    requires
        0 <= i < panes.len(),
        forall|a: int, b: int| 0 <= a < b < panes.len() ==> (#[trigger] panes[a]).id != (#[trigger] panes[b]).id,
    ensures
        rect_of(panes, panes[i].id) == Some(panes[i].rect),
    decreases i,
{
    if i > 0 {
        let rest = panes.drop_first();
        assert(panes[0].id != panes[i].id);
        assert forall|a: int, b: int| 0 <= a < b < rest.len() implies (#[trigger] rest[a]).id != (#[trigger] rest[b]).id by {
            assert(rest[a] == panes[a + 1] && rest[b] == panes[b + 1]);
        }
        assert(rest[i - 1] == panes[i]);
        lemma_rect_of_distinct(rest, i - 1);
    }
}

/// Navigation moves focus toward the direction asked for, and only there:
/// the pane it moves to is another pane lying wholly on that side of the
/// focused one (moving Down, its top row is at or below the focused pane's
/// bottom edge; it is never a pane above), and whenever some pane lies
/// wholly on that side, focus does move.
pub proof fn law_navigation_goes_that_way(s: ManagerState, direction: Direction)
    requires
        distinct_ids(s.panes),
    ensures
        navigation_target(s, direction) matches Some(t) ==> t != s.focused && (rect_of(s.panes, s.focused) matches Some(
            cur,
        ) && rect_of(s.panes, t) matches Some(r) && lies_toward(cur, r, direction)),
        (rect_of(s.panes, s.focused) matches Some(cur) && exists|i: int|
            0 <= i < s.panes.len() && (#[trigger] s.panes[i]).id != s.focused && lies_toward(cur, s.panes[i].rect, direction))
            ==> navigation_target(s, direction) is Some,
{
    if let Some(cur) = rect_of(s.panes, s.focused) {
        lemma_nearest_found(s.panes, s.focused, cur, direction);
        if let Some(b) = nearest(s.panes, s.focused, cur, direction) {
            let i = choose|i: int|
                0 <= i < s.panes.len() && (#[trigger] s.panes[i]).id == b.0 && b.0 != s.focused && candidate(
                    cur,
                    s.panes[i].rect,
                    direction,
                ).0;
            lemma_rect_of_distinct(s.panes, i);
        }
        if exists|i: int|
            0 <= i < s.panes.len() && (#[trigger] s.panes[i]).id != s.focused && lies_toward(cur, s.panes[i].rect, direction) {
            let i = choose|i: int|
                0 <= i < s.panes.len() && (#[trigger] s.panes[i]).id != s.focused && lies_toward(cur, s.panes[i].rect, direction);
            assert(candidate(cur, s.panes[i].rect, direction).0);
        }
    }
}

} // verus!
