//! Painting a pane's rows onto the host terminal: which line each screen row
//! shows, the runs of text between colour changes, the selection's
//! highlight, and the scroll position indicator.

use vstd::prelude::*;

use crate::cell::{Cell, Color, ColorKind};
use crate::pane::Rect;
use crate::selection::{spec_covers, Point, Selection};
use crate::text::{decimal, push_char, push_decimal, push_str};

verus! {

/// Where the cells of a pane's screen row come from.
#[derive(Clone, Copy, Debug, PartialEq, Eq, Structural)]
pub enum RowSource {
    /// The scrollback line this many lines above the grid, counting from 0.
    Scrollback(usize),
    /// The grid row.
    Grid(usize),
}

/// The source of row `row_idx` of a pane scrolled back by `scroll_offset`
/// lines: the top `scroll_offset` rows show scrollback, the nearest line at
/// the bottom; the grid follows.
pub fn row_source(row_idx: usize, scroll_offset: usize) -> (r: RowSource)
    ensures
        r == (if scroll_offset > 0 && row_idx < scroll_offset {
            RowSource::Scrollback((scroll_offset - row_idx - 1) as usize)
        } else if scroll_offset > 0 {
            RowSource::Grid((row_idx - scroll_offset) as usize)
        } else {
            RowSource::Grid(row_idx)
        }),
{
    if scroll_offset > 0 && row_idx < scroll_offset {
        RowSource::Scrollback(scroll_offset - row_idx - 1)
    } else if scroll_offset > 0 {
        RowSource::Grid(row_idx - scroll_offset)
    } else {
        RowSource::Grid(row_idx)
    }
}

/// One thing to do to the terminal while painting a row.
#[derive(Clone, Debug, PartialEq, Eq)]
pub enum Paint {
    /// Print the text.
    Text(String),
    /// Switch to the selection's colours, black on white.
    Selected,
    /// Switch to a cell's foreground and background colours.
    Colors(Color, Color),
}

/// A paint step as plain values.
pub enum Stroke {
    Text(Seq<char>),
    Selected,
    Colors(Color, Color),
}

/// The paint steps as plain values.
pub open spec fn strokes_of(p: Seq<Paint>) -> Seq<Stroke> {
    Seq::new(
        p.len(),
        |i: int|
            match p[i] {
                Paint::Text(t) => Stroke::Text(t@),
                Paint::Selected => Stroke::Selected,
                Paint::Colors(f, b) => Stroke::Colors(f, b),
            },
    )
}

/// Painting so far: the steps taken, the text not yet printed, and the
/// colours last set.
pub struct PaintState {
    pub strokes: Seq<Stroke>,
    pub pending: Seq<char>,
    pub colors: Option<(Color, Color)>,
}

/// Whether the selection highlights column `col` of `line`.
pub open spec fn highlights(sel: Option<Selection>, line: i32, col: int) -> bool {
    match sel {
        Some(s) => s.active && spec_covers(s, Point { line, col: col as usize }),
        None => false,
    }
}

/// Painting the first `k` cells: where the colours change, or a selected
/// cell follows text, the text so far is printed and the colours switched
/// (to the selection's for a selected cell); each cell's character is added
/// to the text.
pub open spec fn paint_upto(cells: Seq<Cell>, k: int, sel: Option<Selection>, line: i32) -> PaintState
    decreases k,
{
    if k <= 0 {
        PaintState { strokes: Seq::empty(), pending: Seq::empty(), colors: None }
    } else {
        let s = paint_upto(cells, k - 1, sel, line);
        let cell = cells[k - 1];
        let selected = highlights(sel, line, k - 1);
        if s.colors != Some((cell.fg, cell.bg)) || (selected && s.pending.len() > 0) {
            let printed = if s.pending.len() > 0 {
                s.strokes.push(Stroke::Text(s.pending))
            } else {
                s.strokes
            };
            PaintState {
                strokes: printed.push(if selected {
                    Stroke::Selected
                } else {
                    Stroke::Colors(cell.fg, cell.bg)
                }),
                pending: seq![cell.c],
                colors: Some((cell.fg, cell.bg)),
            }
        } else {
            PaintState { pending: s.pending.push(cell.c), ..s }
        }
    }
}

/// `n` spaces.
pub open spec fn spaces(n: int) -> Seq<char> {
    Seq::new(if n > 0 { n as nat } else { 0 }, |i: int| ' ')
}

/// The steps that paint a row `width` cells wide: the cells up to the width,
/// then the last text padded with one space for each column the cells
/// leave empty, so the row covers exactly the pane's width.
pub open spec fn row_strokes(cells: Seq<Cell>, width: int, sel: Option<Selection>, line: i32) -> Seq<Stroke> {
    let n = if cells.len() < width { cells.len() as int } else { width };
    let s = paint_upto(cells, n, sel, line);
    let padded = s.pending + spaces(width - n);
    if padded.len() > 0 {
        s.strokes.push(Stroke::Text(padded))
    } else {
        s.strokes
    }
}

fn is_highlighted(sel: Option<&Selection>, line: i32, col: usize) -> (b: bool)
    ensures
        b == highlights(
            match sel {
                Some(s) => Some(*s),
                None => None,
            },
            line,
            col as int,
        ),
{
    match sel {
        Some(s) => s.active && s.contains(Point::new(line, col)),
        None => false,
    }
}

/// How to paint a pane row `width` cells wide from its cells, the line it
/// shows and the selection.
pub fn paint_row(cells: &[Cell], width: usize, selection: Option<&Selection>, line: i32) -> (out: Vec<Paint>)
    ensures
        strokes_of(out@) == row_strokes(
            cells@,
            width as int,
            match selection {
                Some(s) => Some(*s),
                None => None,
            },
            line,
        ),
{
    let ghost sel = match selection {
        Some(s) => Some(*s),
        None => None,
    };
    let n = if cells.len() < width {
        cells.len()
    } else {
        width
    };
    let mut out: Vec<Paint> = Vec::new();
    let mut buffer = String::new();
    let mut colors: Option<(Color, Color)> = None;
    let mut col: usize = 0;
    while col < n
        invariant
            col <= n,
            n <= cells@.len(),
            strokes_of(out@) == paint_upto(cells@, col as int, sel, line).strokes,
            buffer@ == paint_upto(cells@, col as int, sel, line).pending,
            colors == paint_upto(cells@, col as int, sel, line).colors,
            sel == (match selection {
                Some(s) => Some(*s),
                None => None,
            }),
        decreases n - col,
    {
        let cell = cells[col];
        let selected = is_highlighted(selection, line, col);
        let changed = match colors {
            Some((f, b)) => !(f == cell.fg && b == cell.bg),
            None => true,
        };
        let has_text = buffer.unicode_len() > 0;
        if changed || (selected && has_text) {
            let ghost before = out@;
            if has_text {
                out.push(Paint::Text(buffer));
            }
            if selected {
                out.push(Paint::Selected);
            } else {
                out.push(Paint::Colors(cell.fg, cell.bg));
            }
            buffer = String::new();
            push_char(&mut buffer, cell.c);
            colors = Some((cell.fg, cell.bg));
            proof {
                assert(buffer@ =~= seq![cell.c]);
                assert(strokes_of(out@) =~= paint_upto(cells@, col + 1, sel, line).strokes);
            }
        } else {
            push_char(&mut buffer, cell.c);
        }
        col = col + 1;
    }
    let ghost text = buffer@;
    let mut k: usize = 0;
    let fill: usize = width - n;
    while k < fill
        invariant
            k <= fill,
            buffer@ == text + spaces(k as int),
        decreases fill - k,
    {
        push_char(&mut buffer, ' ');
        k = k + 1;
        proof {
            assert(buffer@ =~= text + spaces(k as int));
        }
    }
    proof {
        assert(spaces(k as int) =~= spaces(width - n));
    }
    if buffer.unicode_len() > 0 {
        out.push(Paint::Text(buffer));
        proof {
            assert(strokes_of(out@) =~= row_strokes(cells@, width as int, sel, line));
        }
    }
    out
}

/// The scroll indicator `[offset/lines]` of a pane scrolled back, and where
/// it goes: right-aligned on the pane's top row.
pub open spec fn indicator_text(scroll_offset: usize, history: usize) -> Seq<char> {
    "["@ + decimal(scroll_offset as nat) + "/"@ + decimal(history as nat) + "]"@
}

/// The scroll indicator's text and its column and row on the screen, for a
/// pane drawn at the given offsets.
pub fn scroll_indicator(scroll_offset: usize, history: usize, rect: &Rect, x_offset: u16, y_offset: u16) -> (r: (
    u16,
    u16,
    String,
))
    requires
        x_offset + rect.x + rect.width <= u16::MAX,
        y_offset + rect.y <= u16::MAX,
    ensures
        r.2@ == indicator_text(scroll_offset, history),
        r.0 == x_offset + rect.x + (if rect.width >= r.2@.len() { rect.width - r.2@.len() } else { 0 }),
        r.1 == y_offset + rect.y,
{
    let mut text = String::new();
    push_str(&mut text, "[");
    push_decimal(&mut text, scroll_offset as u64);
    push_str(&mut text, "/");
    push_decimal(&mut text, history as u64);
    push_str(&mut text, "]");
    let len = text.unicode_len();
    let back: u16 = if (rect.width as usize) >= len {
        rect.width - len as u16
    } else {
        0
    };
    (x_offset + rect.x + back, y_offset + rect.y, text)
}

/// A colour as the host terminal is told it.
#[derive(Clone, Copy, Debug, PartialEq, Eq, Structural)]
pub enum TermColor {
    /// The terminal's own default.
    Reset,
    /// A palette entry.
    Ansi(u8),
    /// A 24-bit colour.
    Rgb(u8, u8, u8),
}

/// How a cell colour is set on the host terminal: the default resets it, a
/// palette colour is its index, a 24-bit colour its components.
pub fn term_color(c: Color) -> (t: TermColor)
    ensures
        t == match c.kind {
            ColorKind::Default => TermColor::Reset,
            ColorKind::Indexed => TermColor::Ansi(c.r),
            ColorKind::Rgb => TermColor::Rgb(c.r, c.g, c.b),
        },
{
    match c.kind {
        ColorKind::Default => TermColor::Reset,
        ColorKind::Indexed => TermColor::Ansi(c.r),
        ColorKind::Rgb => TermColor::Rgb(c.r, c.g, c.b),
    }
}

} // verus!

