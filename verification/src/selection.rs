//! Text selection geometry over screen lines.

use vstd::prelude::*;

verus! {

/// A position: a line (negative lines are scrollback) and a column.
#[derive(Clone, Copy, Debug, PartialEq, Eq, Structural)]
pub struct Point {
    pub line: i32,
    pub col: usize,
}

impl Point {
    pub fn new(line: i32, col: usize) -> (p: Point)
        ensures
            p == (Point { line, col }),
    {
        Point { line, col }
    }
}

/// Reading-order comparison of two points.
pub open spec fn point_le(a: Point, b: Point) -> bool {
    a.line < b.line || (a.line == b.line && a.col <= b.col)
}

/// How a selection grows.
#[derive(Clone, Copy, Debug, PartialEq, Eq, Structural)]
pub enum SelectionMode {
    /// Character by character in reading order.
    Normal,
    /// Whole words (the endpoints are set by the caller to word bounds).
    Word,
    /// Whole lines.
    Line,
    /// A rectangle of columns.
    Block,
}

/// A selection from an anchor to a moving end.
#[derive(Clone, Copy, Debug, PartialEq, Eq, Structural)]
pub struct Selection {
    pub start: Point,
    pub end: Point,
    pub mode: SelectionMode,
    /// Whether the selection has been extended and so covers cells.
    pub active: bool,
}

/// The earlier and later endpoint in reading order.
pub open spec fn spec_normalized(s: Selection) -> (Point, Point) {
    if point_le(s.start, s.end) {
        (s.start, s.end)
    } else {
        (s.end, s.start)
    }
}

/// Whether `p` lies in the selection's area (activity aside).
pub open spec fn spec_covers(s: Selection, p: Point) -> bool {
    let (a, b) = spec_normalized(s);
    match s.mode {
        SelectionMode::Line => a.line <= p.line <= b.line,
        SelectionMode::Block => {
            let lo = if s.start.col <= s.end.col { s.start.col } else { s.end.col };
            let hi = if s.start.col <= s.end.col { s.end.col } else { s.start.col };
            a.line <= p.line <= b.line && lo <= p.col <= hi
        },
        _ => point_le(a, p) && point_le(p, b),
    }
}

impl Selection {
    /// A selection anchored at `point`, not yet covering anything.
    pub fn start(point: Point, mode: SelectionMode) -> (s: Selection)
        ensures
            s == (Selection { start: point, end: point, mode, active: false }),
    {
        Selection { start: point, end: point, mode, active: false }
    }

    /// Move the end to `point`; the selection now covers cells.
    pub fn extend(&mut self, point: Point)
        ensures
            *final(self) == (Selection { end: point, active: true, ..*old(self) }),
    {
        self.end = point;
        self.active = true;
    }

    /// Whether the selection covers nothing yet.
    pub fn is_empty(&self) -> (b: bool)
        ensures
            b == !self.active,
    {
        !self.active
    }

    /// The endpoints in reading order.
    pub fn normalized(&self) -> (r: (Point, Point))
        ensures
            r == spec_normalized(*self),
    {
        if self.start.line < self.end.line || (self.start.line == self.end.line && self.start.col
            <= self.end.col) {
            (self.start, self.end)
        } else {
            (self.end, self.start)
        }
    }

    /// Whether `p` lies in the selection's area.
    pub fn contains(&self, p: Point) -> (b: bool)
        ensures
            b == spec_covers(*self, p),
    {
        let (a, b) = self.normalized();
        match self.mode {
            SelectionMode::Line => a.line <= p.line && p.line <= b.line,
            SelectionMode::Block => {
                let lo = if self.start.col <= self.end.col { self.start.col } else { self.end.col };
                let hi = if self.start.col <= self.end.col { self.end.col } else { self.start.col };
                a.line <= p.line && p.line <= b.line && lo <= p.col && p.col <= hi
            },
            _ => (a.line < p.line || (a.line == p.line && a.col <= p.col)) && (p.line < b.line || (
            p.line == b.line && p.col <= b.col)),
        }
    }
}

/// The line that row `screen_row` of a pane shows when the pane is scrolled
/// back by `scroll_offset` lines: grid lines count from 0, scrollback lines
/// from -1 just above the grid.
pub fn screen_to_line(screen_row: usize, scroll_offset: usize, _rect: &crate::pane::Rect) -> (line: i32)
    requires
        scroll_offset == 0 || screen_row >= scroll_offset || ((scroll_offset - screen_row) as i32) != i32::MIN,
    ensures
        line == (if scroll_offset == 0 {
            screen_row as i32 as int
        } else if screen_row < scroll_offset {
            -(((scroll_offset - screen_row) as i32) as int)
        } else {
            (screen_row - scroll_offset) as i32 as int
        }),
{
    if scroll_offset == 0 {
        screen_row as i32
    } else if screen_row < scroll_offset {
        -((scroll_offset - screen_row) as i32)
    } else {
        (screen_row - scroll_offset) as i32
    }
}

} // verus!

