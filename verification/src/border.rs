//! The frame drawn around the panes: the rounded outer border with the window
//! tabs on top and the label at the bottom, and the lines between panes with
//! their junctions.

use vstd::prelude::*;

use crate::pane::Rect;
use crate::text::{decimal, push_decimal, push_str};

verus! {

/// A character to draw at a screen position.
#[derive(Clone, Copy, Debug, PartialEq, Eq, Structural)]
pub struct Glyph {
    pub x: u16,
    pub y: u16,
    pub c: char,
}

/// The label in the middle of the bottom border.
pub const LABEL: &'static str = " clux ";

/// `a - b`, or 0 when that is negative.
pub open spec fn sat(a: int, b: int) -> int {
    if a >= b {
        a - b
    } else {
        0
    }
}

/// One window's tab: its number from 1, its name, and `*` on the active one.
pub open spec fn tab(i: int, name: Seq<char>, active: int) -> Seq<char> {
    "["@ + decimal((i + 1) as nat) + ":"@ + name + (if i == active {
        "*"@
    } else {
        Seq::empty()
    }) + "]"@
}

/// The tabs of the first `k` windows, separated by spaces.
pub open spec fn tabs_upto(names: Seq<Seq<char>>, active: int, k: int) -> Seq<char>
    decreases k,
{
    if k <= 0 {
        Seq::empty()
    } else {
        tabs_upto(names, active, k - 1) + (if k - 1 > 0 {
            " "@
        } else {
            Seq::empty()
        }) + tab(k - 1, names[k - 1], active)
    }
}

/// The window tabs for the top border, shown only when there is more than one
/// window.
pub open spec fn indicator_text(names: Seq<Seq<char>>, active: int) -> Seq<char> {
    if names.len() <= 1 {
        Seq::empty()
    } else {
        tabs_upto(names, active, names.len() as int)
    }
}

/// The names of windows as plain text.
pub open spec fn names_view(names: Seq<String>) -> Seq<Seq<char>> {
    Seq::new(names.len(), |i: int| names[i]@)
}

/// The tabs for the top border: `[1:name] [2:name*] ...`, with `*` on the
/// active window; empty for a single window.
pub fn window_indicator(names: &Vec<String>, active: usize) -> (s: String)
    ensures
        s@ == indicator_text(names_view(names@), active as int),
{
    let mut result = String::new();
    if names.len() <= 1 {
        return result;
    }
    let ghost nv = names_view(names@);
    let mut i: usize = 0;
    while i < names.len()
        invariant
            i <= names@.len(),
            nv == names_view(names@),
            result@ == tabs_upto(nv, active as int, i as int),
        decreases names.len() - i,
    {
        if i > 0 {
            push_str(&mut result, " ");
        }
        push_str(&mut result, "[");
        push_decimal(&mut result, (i as u64) + 1);
        push_str(&mut result, ":");
        push_str(&mut result, names[i].as_str());
        if i == active {
            push_str(&mut result, "*");
        }
        push_str(&mut result, "]");
        proof {
            assert(nv[i as int] == names@[i as int]@);
            assert(result@ =~= tabs_upto(nv, active as int, i as int + 1));
        }
        i = i + 1;
    }
    result
}

/// The lines between panes: for each pane, its right edge unless it is at the
/// right of the inner area (`(x, top, bottom)`), and its bottom edge unless it
/// is at the bottom (`(y, left, right)`), in pane order.
pub open spec fn segments(rects: Seq<Rect>, inner_cols: int, inner_rows: int) -> (Seq<(int, int, int)>, Seq<(int, int, int)>)
    decreases rects.len(),
{
    if rects.len() == 0 {
        (Seq::empty(), Seq::empty())
    } else {
        let (v, h) = segments(rects.drop_last(), inner_cols, inner_rows);
        let r = rects.last();
        (
            if r.x + r.width < inner_cols {
                v.push((r.x + r.width, r.y as int, r.y + r.height))
            } else {
                v
            },
            if r.y + r.height < inner_rows {
                h.push((r.y + r.height, r.x as int, r.x + r.width))
            } else {
                h
            },
        )
    }
}

/// Which part of a line between panes a point must meet.
#[derive(Clone, Copy, Debug, PartialEq, Eq, Structural)]
pub enum Meet {
    /// The line's first row (or column).
    Start,
    /// The line's last row (or column).
    End,
    /// Anywhere from its first to its last.
    Within,
}

/// Whether some line lies at `a` and meets `b` as `meet` says.
pub open spec fn seg_hit(v: Seq<(int, int, int)>, a: int, b: int, meet: Meet) -> bool {
    exists|i: int|
        0 <= i < v.len() && #[trigger] v[i].0 == a && match meet {
            Meet::Start => v[i].1 == b,
            Meet::End => v[i].2 == b,
            Meet::Within => v[i].1 <= b <= v[i].2,
        }
}

/// Whether a vertical line starts at the top of the inner area at column `x`.
pub open spec fn meets_top(v: Seq<(int, int, int)>, x: int) -> bool {
    seg_hit(v, x, 0, Meet::Start)
}

/// Whether a vertical line ends at the bottom of the inner area at column `x`.
pub open spec fn meets_bottom(v: Seq<(int, int, int)>, x: int, inner_rows: int) -> bool {
    seg_hit(v, x, inner_rows, Meet::End)
}

/// Whether a horizontal line starts at the left of the inner area at row `y`.
pub open spec fn meets_left(h: Seq<(int, int, int)>, y: int) -> bool {
    seg_hit(h, y, 0, Meet::Start)
}

/// Whether a horizontal line ends at the right of the inner area at row `y`.
pub open spec fn meets_right(h: Seq<(int, int, int)>, y: int, inner_cols: int) -> bool {
    seg_hit(h, y, inner_cols, Meet::End)
}

/// Whether a horizontal line at row `y` spans column `x`.
pub open spec fn crosses_h(h: Seq<(int, int, int)>, y: int, x: int) -> bool {
    seg_hit(h, y, x, Meet::Within)
}

/// Whether a vertical line at column `x` spans row `y`.
pub open spec fn crosses_v(v: Seq<(int, int, int)>, x: int, y: int) -> bool {
    seg_hit(v, x, y, Meet::Within)
}

/// Where the bottom label starts, after `k` junctions: centred, and moved
/// right of (or else left of) each junction that falls inside it.
pub open spec fn label_start(v: Seq<(int, int, int)>, inner_rows: int, width: int, len: int, k: int) -> int
    decreases k,
{
    if k <= 0 {
        sat(width, len) / 2
    } else {
        let s = label_start(v, inner_rows, width, len, k - 1);
        let j = v[k - 1].0;
        if v[k - 1].2 == inner_rows && s <= j < s + len {
            if j + 2 + len <= width {
                j + 2
            } else if j >= len + 2 {
                j - len - 1
            } else {
                s
            }
        } else {
            s
        }
    }
}

pub open spec fn glyph(x: int, y: int, c: char) -> Glyph {
    Glyph { x: x as u16, y: y as u16, c }
}

/// The top border: tabs where no line meets it, `┬` where one does, `─`
/// elsewhere.
pub open spec fn top_row(cols: int, v: Seq<(int, int, int)>, tabs: Seq<char>) -> Seq<Glyph> {
    Seq::new(
        sat(sat(cols, 1), 1) as nat,
        |k: int|
            glyph(
                k + 1,
                0,
                if k < tabs.len() && !meets_top(v, k) {
                    tabs[k]
                } else if meets_top(v, k) {
                    '┬'
                } else {
                    '─'
                },
            ),
    )
}

/// The bottom border: `┴` where a line meets it, the label, `─` elsewhere.
pub open spec fn bottom_row(cols: int, rows: int, v: Seq<(int, int, int)>, start: int, label: Seq<char>) -> Seq<Glyph> {
    let inner_rows = sat(rows, 2);
    Seq::new(
        sat(sat(cols, 1), 1) as nat,
        |k: int|
            glyph(
                k + 1,
                sat(rows, 1),
                if meets_bottom(v, k, inner_rows) {
                    '┴'
                } else if start <= k < start + label.len() {
                    label[k - start]
                } else {
                    '─'
                },
            ),
    )
}

/// The left border: `├` where a line meets it, `│` elsewhere.
pub open spec fn left_col(rows: int, h: Seq<(int, int, int)>) -> Seq<Glyph> {
    Seq::new(
        sat(sat(rows, 1), 1) as nat,
        |k: int| glyph(0, k + 1, if meets_left(h, k) { '├' } else { '│' }),
    )
}

/// The right border: `┤` where a line meets it, `│` elsewhere.
pub open spec fn right_col(cols: int, rows: int, h: Seq<(int, int, int)>) -> Seq<Glyph> {
    let inner_cols = sat(cols, 2);
    Seq::new(
        sat(sat(rows, 1), 1) as nat,
        |k: int| glyph(sat(cols, 1), k + 1, if meets_right(h, k, inner_cols) { '┤' } else { '│' }),
    )
}

/// One vertical line between panes: `┼` where a horizontal line crosses it.
pub open spec fn v_line(seg: (int, int, int), h: Seq<(int, int, int)>) -> Seq<Glyph> {
    Seq::new(
        sat(seg.2, seg.1) as nat,
        |k: int| glyph(seg.0 + 1, seg.1 + k + 1, if crosses_h(h, seg.1 + k, seg.0) { '┼' } else { '│' }),
    )
}

/// The vertical lines between panes, in order.
pub open spec fn v_lines(v: Seq<(int, int, int)>, h: Seq<(int, int, int)>) -> Seq<Glyph>
    decreases v.len(),
{
    if v.len() == 0 {
        Seq::empty()
    } else {
        v_lines(v.drop_last(), h) + v_line(v.last(), h)
    }
}

/// The cells of a horizontal line at row `y` from column `from` up to `to`,
/// skipping the crossings already drawn.
pub open spec fn h_run(y: int, from: int, to: int, v: Seq<(int, int, int)>) -> Seq<Glyph>
    decreases to - from,
{
    if to <= from {
        Seq::empty()
    } else {
        h_run(y, from, to - 1, v) + (if crosses_v(v, to - 1, y) {
            Seq::empty()
        } else {
            seq![glyph(to, y + 1, '─')]
        })
    }
}

/// The horizontal lines between panes, in order.
pub open spec fn h_lines(h: Seq<(int, int, int)>, v: Seq<(int, int, int)>) -> Seq<Glyph>
    decreases h.len(),
{
    if h.len() == 0 {
        Seq::empty()
    } else {
        h_lines(h.drop_last(), v) + h_run(h.last().0, h.last().1, h.last().2, v)
    }
}

/// Everything the frame draws, in drawing order: the four corners, the top
/// border with the tabs, the bottom border with the label, the left and
/// right borders, then the lines between panes.
pub open spec fn frame_glyphs(rects: Seq<Rect>, cols: int, rows: int, tabs: Seq<char>) -> Seq<Glyph> {
    let inner_cols = sat(cols, 2);
    let inner_rows = sat(rows, 2);
    let (v, h) = segments(rects, inner_cols, inner_rows);
    let start = label_start(v, inner_rows, sat(cols, 2), LABEL@.len() as int, v.len() as int);
    seq![
        glyph(0, 0, '╭'),
        glyph(sat(cols, 1), 0, '╮'),
        glyph(0, sat(rows, 1), '╰'),
        glyph(sat(cols, 1), sat(rows, 1), '╯'),
    ] + top_row(cols, v, tabs) + bottom_row(cols, rows, v, start, LABEL@) + left_col(rows, h) + right_col(
        cols,
        rows,
        h,
    ) + v_lines(v, h) + h_lines(h, v)
}

/// Whether every pane's right and bottom edges fit in `u16`.
pub open spec fn edges_fit(rects: Seq<Rect>) -> bool {
    forall|i: int|
        0 <= i < rects.len() ==> #[trigger] rects[i].x + rects[i].width <= u16::MAX && rects[i].y
            + rects[i].height <= u16::MAX
}

/// Segments as plain integers.
pub open spec fn seg_view(s: Seq<(u16, u16, u16)>) -> Seq<(int, int, int)> {
    Seq::new(s.len(), |i: int| (s[i].0 as int, s[i].1 as int, s[i].2 as int))
}

fn edge_segments(rects: &[Rect], inner_cols: u16, inner_rows: u16) -> (r: (Vec<(u16, u16, u16)>, Vec<(u16, u16, u16)>))
    requires
        edges_fit(rects@),
    ensures
        seg_view(r.0@) == segments(rects@, inner_cols as int, inner_rows as int).0,
        seg_view(r.1@) == segments(rects@, inner_cols as int, inner_rows as int).1,
        forall|j: int| 0 <= j < r.0@.len() ==> #[trigger] r.0@[j].0 < inner_cols,
        forall|j: int| 0 <= j < r.1@.len() ==> #[trigger] r.1@[j].0 < inner_rows,
{
    let mut v: Vec<(u16, u16, u16)> = Vec::new();
    let mut h: Vec<(u16, u16, u16)> = Vec::new();
    let mut i: usize = 0;
    while i < rects.len()
        invariant
            i <= rects@.len(),
            edges_fit(rects@),
            seg_view(v@) == segments(rects@.take(i as int), inner_cols as int, inner_rows as int).0,
            seg_view(h@) == segments(rects@.take(i as int), inner_cols as int, inner_rows as int).1,
            forall|j: int| 0 <= j < v@.len() ==> #[trigger] v@[j].0 < inner_cols,
            forall|j: int| 0 <= j < h@.len() ==> #[trigger] h@[j].0 < inner_rows,
        decreases rects.len() - i,
    {
        proof {
            assert(rects@.take(i as int + 1).drop_last() =~= rects@.take(i as int));
            assert(rects@.take(i as int + 1).last() == rects@[i as int]);
        }
        let r = rects[i];
        let ghost v0 = v@;
        let ghost h0 = h@;
        if r.x + r.width < inner_cols {
            v.push((r.x + r.width, r.y, r.y + r.height));
        }
        if r.y + r.height < inner_rows {
            h.push((r.y + r.height, r.x, r.x + r.width));
        }
        proof {
            assert(seg_view(v@) =~= segments(rects@.take(i as int + 1), inner_cols as int, inner_rows as int).0);
            assert(seg_view(h@) =~= segments(rects@.take(i as int + 1), inner_cols as int, inner_rows as int).1);
        }
        i = i + 1;
    }
    proof {
        assert(rects@.take(i as int) =~= rects@);
    }
    (v, h)
}

/// Whether some line lies at `a` and meets `b` as `meet` says.
fn any_segment(segs: &Vec<(u16, u16, u16)>, a: u16, b: u16, meet: Meet) -> (found: bool)
    ensures
        found == seg_hit(seg_view(segs@), a as int, b as int, meet),
{
    let ghost sv = seg_view(segs@);
    let mut i: usize = 0;
    while i < segs.len()
        invariant
            i <= segs@.len(),
            sv == seg_view(segs@),
            forall|j: int|
                0 <= j < i ==> !(#[trigger] sv[j].0 == a && match meet {
                    Meet::Start => sv[j].1 == b,
                    Meet::End => sv[j].2 == b,
                    Meet::Within => sv[j].1 <= b <= sv[j].2,
                }),
        decreases segs.len() - i,
    {
        let (p, lo, hi) = segs[i];
        proof {
            assert(sv[i as int] == (p as int, lo as int, hi as int));
        }
        let hit = match meet {
            Meet::Start => lo == b,
            Meet::End => hi == b,
            Meet::Within => lo <= b && b <= hi,
        };
        if p == a && hit {
            return true;
        }
        i = i + 1;
    }
    false
}

fn label_start_of(v: &Vec<(u16, u16, u16)>, inner_rows: u16, width: u16, len: u16) -> (s: u16)
    ensures
        s == label_start(seg_view(v@), inner_rows as int, width as int, len as int, v@.len() as int),
{
    let mut start: u16 = width.saturating_sub(len) / 2;
    let mut k: usize = 0;
    while k < v.len()
        invariant
            k <= v@.len(),
            start == label_start(seg_view(v@), inner_rows as int, width as int, len as int, k as int),
            start <= width,
        decreases v.len() - k,
    {
        let (j, _, end) = v[k];
        proof {
            assert(seg_view(v@)[k as int] == (j as int, v@[k as int].1 as int, end as int));
        }
        if end == inner_rows && start <= j && (j as u32) < start as u32 + len as u32 {
            if j as u32 + 2 + len as u32 <= width as u32 {
                start = j + 2;
            } else if j as u32 >= len as u32 + 2 {
                start = j - len - 1;
            }
        }
        k = k + 1;
    }
    start
}

/// Everything the frame around the panes draws, in drawing order: the
/// rounded corners; the top border with the window tabs, `┬` where a line
/// between panes meets it; the bottom border with the label, moved clear of
/// the `┴` junctions; the side borders with `├` and `┤`; then the lines
/// between panes, `┼` where they cross.
pub fn border_glyphs(rects: &[Rect], cols: u16, rows: u16, tabs: &str) -> (out: Vec<Glyph>)
    requires
        edges_fit(rects@),
    ensures
        out@ == frame_glyphs(rects@, cols as int, rows as int, tabs@),
{
    let inner_cols = cols.saturating_sub(2);
    let inner_rows = rows.saturating_sub(2);
    let (v, h) = edge_segments(rects, inner_cols, inner_rows);
    let ghost sv = seg_view(v@);
    let ghost sh = seg_view(h@);
    let tab_chars = crate::text::chars_of(tabs);
    let label = crate::text::chars_of(LABEL);
    proof {
        reveal_strlit(" clux ");
        assert(label@.len() == 6);
    }
    let label_len: u16 = label.len() as u16;
    let start = label_start_of(&v, inner_rows, inner_cols, label_len);
    let right = cols.saturating_sub(1);
    let bottom = rows.saturating_sub(1);
    let mut out: Vec<Glyph> = Vec::new();
    out.push(Glyph { x: 0, y: 0, c: '╭' });
    out.push(Glyph { x: right, y: 0, c: '╮' });
    out.push(Glyph { x: 0, y: bottom, c: '╰' });
    out.push(Glyph { x: right, y: bottom, c: '╯' });
    let ghost corners = out@;
    let across: u16 = right.saturating_sub(1);
    let mut k: u16 = 0;
    while k < across
        invariant
            k <= across,
            across as int == sat(sat(cols as int, 1), 1),
            sv == seg_view(v@),
            tab_chars@ == tabs@,
            out@ == corners + top_row(cols as int, sv, tabs@).take(k as int),
        decreases across - k,
    {
        let met = any_segment(&v, k, 0, Meet::Start);
        let c = if (k as usize) < tab_chars.len() && !met {
            tab_chars[k as usize]
        } else if met {
            '┬'
        } else {
            '─'
        };
        out.push(Glyph { x: k + 1, y: 0, c });
        proof {
            let t = top_row(cols as int, sv, tabs@);
            assert(met == meets_top(sv, k as int));
            assert(t[k as int].c == c);
            assert(t[k as int].x == k + 1);
            assert(t[k as int].y == 0);
            assert(out@ =~= corners + top_row(cols as int, sv, tabs@).take(k as int + 1));
        }
        k = k + 1;
    }
    proof {
        assert(top_row(cols as int, sv, tabs@).take(across as int) =~= top_row(cols as int, sv, tabs@));
    }
    let ghost after_top = out@;
    let mut k: u16 = 0;
    while k < across
        invariant
            k <= across,
            across as int == sat(sat(cols as int, 1), 1),
            sv == seg_view(v@),
            label@ == LABEL@,
            label_len as int == label@.len(),
            bottom as int == sat(rows as int, 1),
            inner_rows as int == sat(rows as int, 2),
            out@ == after_top + bottom_row(cols as int, rows as int, sv, start as int, LABEL@).take(k as int),
        decreases across - k,
    {
        let met = any_segment(&v, k, inner_rows, Meet::End);
        let c = if met {
            '┴'
        } else if start <= k && (k as u32) < start as u32 + label_len as u32 {
            label[(k - start) as usize]
        } else {
            '─'
        };
        out.push(Glyph { x: k + 1, y: bottom, c });
        proof {
            let b = bottom_row(cols as int, rows as int, sv, start as int, LABEL@);
            assert(met == meets_bottom(sv, k as int, inner_rows as int));
            assert(b[k as int].c == c);
            assert(b[k as int].x == k + 1);
            assert(b[k as int].y == bottom);
            assert(out@ =~= after_top + bottom_row(cols as int, rows as int, sv, start as int, LABEL@).take(
                k as int + 1,
            ));
        }
        k = k + 1;
    }
    proof {
        assert(bottom_row(cols as int, rows as int, sv, start as int, LABEL@).take(across as int) =~= bottom_row(
            cols as int,
            rows as int,
            sv,
            start as int,
            LABEL@,
        ));
    }
    let ghost after_bottom = out@;
    let down: u16 = bottom.saturating_sub(1);
    let mut k: u16 = 0;
    while k < down
        invariant
            k <= down,
            down as int == sat(sat(rows as int, 1), 1),
            sh == seg_view(h@),
            out@ == after_bottom + left_col(rows as int, sh).take(k as int),
        decreases down - k,
    {
        let met = any_segment(&h, k, 0, Meet::Start);
        let c = if met {
            '├'
        } else {
            '│'
        };
        out.push(Glyph { x: 0, y: k + 1, c });
        proof {
            assert(out@ =~= after_bottom + left_col(rows as int, sh).take(k as int + 1));
        }
        k = k + 1;
    }
    proof {
        assert(left_col(rows as int, sh).take(down as int) =~= left_col(rows as int, sh));
    }
    let ghost after_left = out@;
    let mut k: u16 = 0;
    while k < down
        invariant
            k <= down,
            down as int == sat(sat(rows as int, 1), 1),
            sh == seg_view(h@),
            right as int == sat(cols as int, 1),
            inner_cols as int == sat(cols as int, 2),
            out@ == after_left + right_col(cols as int, rows as int, sh).take(k as int),
        decreases down - k,
    {
        let met = any_segment(&h, k, inner_cols, Meet::End);
        let c = if met {
            '┤'
        } else {
            '│'
        };
        out.push(Glyph { x: right, y: k + 1, c });
        proof {
            assert(out@ =~= after_left + right_col(cols as int, rows as int, sh).take(k as int + 1));
        }
        k = k + 1;
    }
    proof {
        assert(right_col(cols as int, rows as int, sh).take(down as int) =~= right_col(cols as int, rows as int, sh));
    }
    let ghost after_sides = out@;
    let mut i: usize = 0;
    while i < v.len()
        invariant
            i <= v@.len(),
            sv == seg_view(v@),
            sh == seg_view(h@),
            inner_cols as int == sat(cols as int, 2),
            forall|j: int| 0 <= j < v@.len() ==> #[trigger] v@[j].0 < inner_cols,
            out@ == after_sides + v_lines(sv.take(i as int), sh),
        decreases v.len() - i,
    {
        let (x, from, to) = v[i];
        proof {
            assert(sv[i as int] == (x as int, from as int, to as int));
        }
        let ghost before = out@;
        let mut y: u16 = from;
        while y < to
            invariant
                y == from || (from < y && y <= to),
                x < inner_cols,
                inner_cols as int == sat(cols as int, 2),
                sh == seg_view(h@),
                out@ == before + v_line((x as int, from as int, to as int), sh).take(y - from),
            decreases to - y,
        {
            let crossed = any_segment(&h, y, x, Meet::Within);
            let c = if crossed {
                '┼'
            } else {
                '│'
            };
            out.push(Glyph { x: x + 1, y: y + 1, c });
            proof {
                assert(out@ =~= before + v_line((x as int, from as int, to as int), sh).take(y + 1 - from));
            }
            y = y + 1;
        }
        proof {
            let line = v_line((x as int, from as int, to as int), sh);
            assert(line.take(line.len() as int) =~= line);
            if from >= to {
                assert(line.len() == 0);
                assert(line.take(y - from) =~= line);
            }
            assert(sv.take(i as int + 1).drop_last() =~= sv.take(i as int));
            assert(out@ =~= after_sides + v_lines(sv.take(i as int + 1), sh));
        }
        i = i + 1;
    }
    proof {
        assert(sv.take(v@.len() as int) =~= sv);
    }
    let ghost after_v = out@;
    let mut i: usize = 0;
    while i < h.len()
        invariant
            i <= h@.len(),
            sv == seg_view(v@),
            sh == seg_view(h@),
            inner_rows as int == sat(rows as int, 2),
            forall|j: int| 0 <= j < h@.len() ==> #[trigger] h@[j].0 < inner_rows,
            out@ == after_v + h_lines(sh.take(i as int), sv),
        decreases h.len() - i,
    {
        let (y, from, to) = h[i];
        proof {
            assert(sh[i as int] == (y as int, from as int, to as int));
        }
        let ghost before = out@;
        let mut x: u16 = from;
        while x < to
            invariant
                x == from || (from < x && x <= to),
                y < inner_rows,
                sv == seg_view(v@),
                out@ == before + h_run(y as int, from as int, x as int, sv),
            decreases to - x,
        {
            let crossed = any_segment(&v, x, y, Meet::Within);
            if !crossed {
                out.push(Glyph { x: x + 1, y: y + 1, c: '─' });
            }
            proof {
                assert(out@ =~= before + h_run(y as int, from as int, x as int + 1, sv));
            }
            x = x + 1;
        }
        proof {
            if from >= to {
                assert(h_run(y as int, from as int, to as int, sv) =~= Seq::<Glyph>::empty());
            }
            assert(sh.take(i as int + 1).drop_last() =~= sh.take(i as int));
            assert(out@ =~= after_v + h_lines(sh.take(i as int + 1), sv));
        }
        i = i + 1;
    }
    proof {
        assert(sh.take(h@.len() as int) =~= sh);
    }
    out
}

/// The plain outer frame: corners, `─` along the top, `│` down both sides
/// row by row, and the bottom with the label centred.
pub open spec fn plain_frame(cols: int, rows: int) -> Seq<Glyph> {
    let right = sat(cols, 1);
    let bottom = sat(rows, 1);
    let across = sat(right, 1);
    let down = sat(bottom, 1);
    let start = sat(sat(cols, 2), LABEL@.len() as int) / 2;
    seq![glyph(0, 0, '╭')] + Seq::new(across as nat, |k: int| glyph(k + 1, 0, '─')) + seq![glyph(right, 0, '╮')]
        + Seq::new(
        (2 * down) as nat,
        |k: int|
            if k % 2 == 0 {
                glyph(0, k / 2 + 1, '│')
            } else {
                glyph(right, k / 2 + 1, '│')
            },
    ) + seq![glyph(0, bottom, '╰')] + Seq::new(across as nat, |k: int| label_glyph(k, bottom, start))
        + seq![glyph(right, bottom, '╯')]
}

/// The glyph at offset `k` inside the bottom border: a letter of the label
/// where the label, centred from `start`, covers it, `─` elsewhere.
pub open spec fn label_glyph(k: int, bottom: int, start: int) -> Glyph {
    glyph(
        k + 1,
        bottom,
        if start <= k < start + LABEL@.len() {
            LABEL@[k - start]
        } else {
            '─'
        },
    )
}

/// The outer frame alone, for a screen without lines between panes.
pub fn plain_frame_glyphs(cols: u16, rows: u16) -> (out: Vec<Glyph>)
    ensures
        out@ == plain_frame(cols as int, rows as int),
{
    let right = cols.saturating_sub(1);
    let bottom = rows.saturating_sub(1);
    let across = right.saturating_sub(1);
    let down = bottom.saturating_sub(1);
    let label = crate::text::chars_of(LABEL);
    proof {
        reveal_strlit(" clux ");
        assert(label@.len() == 6);
    }
    let label_len: u16 = label.len() as u16;
    let start: u16 = cols.saturating_sub(2).saturating_sub(label_len) / 2;
    let mut out: Vec<Glyph> = Vec::new();
    out.push(Glyph { x: 0, y: 0, c: '╭' });
    let ghost head = out@;
    let mut k: u16 = 0;
    while k < across
        invariant
            k <= across,
            across as int == sat(sat(cols as int, 1), 1),
            out@ == head + Seq::new(k as nat, |j: int| glyph(j + 1, 0, '─')),
        decreases across - k,
    {
        out.push(Glyph { x: k + 1, y: 0, c: '─' });
        k = k + 1;
        proof {
            assert(out@ =~= head + Seq::new(k as nat, |j: int| glyph(j + 1, 0, '─')));
        }
    }
    out.push(Glyph { x: right, y: 0, c: '╮' });
    let ghost top = out@;
    let mut r: u16 = 0;
    while r < down
        invariant
            r <= down,
            down as int == sat(sat(rows as int, 1), 1),
            right as int == sat(cols as int, 1),
            out@ == top + Seq::new(
                (2 * r) as nat,
                |j: int|
                    if j % 2 == 0 {
                        glyph(0, j / 2 + 1, '│')
                    } else {
                        glyph(right as int, j / 2 + 1, '│')
                    },
            ),
        decreases down - r,
    {
        out.push(Glyph { x: 0, y: r + 1, c: '│' });
        out.push(Glyph { x: right, y: r + 1, c: '│' });
        r = r + 1;
        proof {
            assert(out@ =~= top + Seq::new(
                (2 * r) as nat,
                |j: int|
                    if j % 2 == 0 {
                        glyph(0, j / 2 + 1, '│')
                    } else {
                        glyph(right as int, j / 2 + 1, '│')
                    },
            ));
        }
    }
    out.push(Glyph { x: 0, y: bottom, c: '╰' });
    let ghost sides = out@;
    let mut k: u16 = 0;
    while k < across
        invariant
            k <= across,
            across as int == sat(sat(cols as int, 1), 1),
            bottom as int == sat(rows as int, 1),
            label@ == LABEL@,
            label_len as int == LABEL@.len(),
            start as int == sat(sat(cols as int, 2), LABEL@.len() as int) / 2,
            out@ == sides + Seq::new(k as nat, |j: int| label_glyph(j, bottom as int, start as int)),
        decreases across - k,
    {
        let c = if start <= k && (k as u32) < start as u32 + label_len as u32 {
            label[(k - start) as usize]
        } else {
            '─'
        };
        out.push(Glyph { x: k + 1, y: bottom, c });
        proof {
            assert(out@.last() == label_glyph(k as int, bottom as int, start as int));
            assert(out@ =~= sides + Seq::new(
                (k + 1) as nat,
                |j: int| label_glyph(j, bottom as int, start as int),
            ));
        }
        k = k + 1;
    }
    out.push(Glyph { x: right, y: bottom, c: '╯' });
    proof {
        assert(out@ =~= plain_frame(cols as int, rows as int));
    }
    out
}

/// The border one pane draws on its own, at the given offsets on a terminal
/// of the given size: `│` down its right side unless that is the screen's
/// right border, `─` along its bottom unless that is the screen's bottom
/// border, and the junction where the two meet.
pub open spec fn pane_frame(r: Rect, x_offset: int, y_offset: int, term_cols: int, term_rows: int) -> Seq<Glyph> {
    let right_x = x_offset + r.x + r.width;
    let bottom_y = y_offset + r.y + r.height;
    let at_right = right_x >= sat(term_cols, 1);
    let at_bottom = bottom_y >= sat(term_rows, 1);
    let top = y_offset + r.y;
    let left = x_offset + r.x;
    (if !at_right {
        Seq::new(r.height as nat, |k: int| glyph(right_x, top + k, '│'))
    } else {
        Seq::empty()
    }) + (if !at_bottom {
        Seq::new(r.width as nat, |k: int| glyph(left + k, bottom_y, '─'))
    } else {
        Seq::empty()
    }) + (if !at_right && !at_bottom {
        seq![glyph(right_x, bottom_y, '┼')]
    } else if at_right && !at_bottom {
        seq![glyph(right_x, bottom_y, '┤')]
    } else if !at_right && at_bottom {
        seq![glyph(right_x, bottom_y, '┴')]
    } else {
        Seq::empty()
    }) + (if r.y > 0 && !at_right && top == y_offset {
        seq![glyph(right_x, top - 1, '┬')]
    } else {
        Seq::empty()
    }) + (if r.x > 0 && !at_bottom && left == x_offset {
        seq![glyph(left - 1, bottom_y, '├')]
    } else {
        Seq::empty()
    })
}

/// The border one pane draws on its own; see `pane_frame`.
pub fn pane_border_glyphs(rect: &Rect, x_offset: u16, y_offset: u16, term_cols: u16, term_rows: u16) -> (out: Vec<
    Glyph,
>)
    requires
        x_offset + rect.x + rect.width <= u16::MAX,
        y_offset + rect.y + rect.height <= u16::MAX,
    ensures
        out@ == pane_frame(*rect, x_offset as int, y_offset as int, term_cols as int, term_rows as int),
{
    let r = *rect;
    let right_x = x_offset + r.x + r.width;
    let bottom_y = y_offset + r.y + r.height;
    let at_right = right_x >= term_cols.saturating_sub(1);
    let at_bottom = bottom_y >= term_rows.saturating_sub(1);
    let top = y_offset + r.y;
    let left = x_offset + r.x;
    let mut out: Vec<Glyph> = Vec::new();
    if !at_right {
        let mut k: u16 = 0;
        while k < r.height
            invariant
                k <= r.height,
                top as int + r.height <= u16::MAX,
                out@ == Seq::new(k as nat, |j: int| glyph(right_x as int, top + j, '│')),
            decreases r.height - k,
        {
            out.push(Glyph { x: right_x, y: top + k, c: '│' });
            k = k + 1;
            proof {
                assert(out@ =~= Seq::new(k as nat, |j: int| glyph(right_x as int, top + j, '│')));
            }
        }
    }
    let ghost first = out@;
    if !at_bottom {
        let mut k: u16 = 0;
        while k < r.width
            invariant
                k <= r.width,
                left as int + r.width <= u16::MAX,
                out@ == first + Seq::new(k as nat, |j: int| glyph(left + j, bottom_y as int, '─')),
            decreases r.width - k,
        {
            out.push(Glyph { x: left + k, y: bottom_y, c: '─' });
            k = k + 1;
            proof {
                assert(out@ =~= first + Seq::new(k as nat, |j: int| glyph(left + j, bottom_y as int, '─')));
            }
        }
    }
    if !at_right && !at_bottom {
        out.push(Glyph { x: right_x, y: bottom_y, c: '┼' });
    } else if at_right && !at_bottom {
        out.push(Glyph { x: right_x, y: bottom_y, c: '┤' });
    } else if !at_right && at_bottom {
        out.push(Glyph { x: right_x, y: bottom_y, c: '┴' });
    }
    if r.y > 0 && !at_right && top == y_offset {
        out.push(Glyph { x: right_x, y: top - 1, c: '┬' });
    }
    if r.x > 0 && !at_bottom && left == x_offset {
        out.push(Glyph { x: left - 1, y: bottom_y, c: '├' });
    }
    proof {
        assert(out@ =~= pane_frame(r, x_offset as int, y_offset as int, term_cols as int, term_rows as int));
    }
    out
}

/// Whether a pane's bottom edge starts a line at the left border on inner
/// row `k`: the pane touches the left border and ends above the bottom.
pub open spec fn ends_at_left(rects: Seq<Rect>, k: int, inner_rows: int) -> bool {
    exists|i: int|
        0 <= i < rects.len() && (#[trigger] rects[i]).x == 0 && rects[i].y + rects[i].height == k && k < inner_rows
}

/// Whether a pane's bottom edge ends a line at the right border on inner
/// row `k`: the pane touches the right border and ends above the bottom.
pub open spec fn ends_at_right(rects: Seq<Rect>, k: int, inner_cols: int, inner_rows: int) -> bool {
    exists|i: int|
        0 <= i < rects.len() && (#[trigger] rects[i]).x + rects[i].width == inner_cols && rects[i].y
            + rects[i].height == k && k < inner_rows
}

proof fn lemma_side_meets(rects: Seq<Rect>, inner_cols: int, inner_rows: int, k: int)
    ensures
        meets_left(segments(rects, inner_cols, inner_rows).1, k) <==> ends_at_left(rects, k, inner_rows),
        meets_right(segments(rects, inner_cols, inner_rows).1, k, inner_cols) <==> ends_at_right(
            rects,
            k,
            inner_cols,
            inner_rows,
        ),
    decreases rects.len(),
{
    if rects.len() > 0 {
        let init = rects.drop_last();
        let r = rects.last();
        lemma_side_meets(init, inner_cols, inner_rows, k);
        let h0 = segments(init, inner_cols, inner_rows).1;
        let h = segments(rects, inner_cols, inner_rows).1;
        if ends_at_left(init, k, inner_rows) {
            let i = choose|i: int|
                0 <= i < init.len() && (#[trigger] init[i]).x == 0 && init[i].y + init[i].height == k && k < inner_rows;
            assert(rects[i] == init[i]);
        }
        if ends_at_right(init, k, inner_cols, inner_rows) {
            let i = choose|i: int|
                0 <= i < init.len() && (#[trigger] init[i]).x + init[i].width == inner_cols && init[i].y
                    + init[i].height == k && k < inner_rows;
            assert(rects[i] == init[i]);
        }
        if ends_at_left(rects, k, inner_rows) {
            let i = choose|i: int|
                0 <= i < rects.len() && (#[trigger] rects[i]).x == 0 && rects[i].y + rects[i].height == k && k < inner_rows;
            if i < init.len() {
                assert(init[i] == rects[i]);
            }
        }
        if ends_at_right(rects, k, inner_cols, inner_rows) {
            let i = choose|i: int|
                0 <= i < rects.len() && (#[trigger] rects[i]).x + rects[i].width == inner_cols && rects[i].y
                    + rects[i].height == k && k < inner_rows;
            if i < init.len() {
                assert(init[i] == rects[i]);
            }
        }
        if r.y + r.height < inner_rows {
            assert(h == h0.push((r.y + r.height, r.x as int, r.x + r.width)));
            if meets_left(h, k) {
                let j = choose|j: int| 0 <= j < h.len() && #[trigger] h[j].0 == k && h[j].1 == 0;
                if j < h0.len() {
                    assert(h0[j] == h[j]);
                }
            }
            if meets_left(h0, k) {
                let j = choose|j: int| 0 <= j < h0.len() && #[trigger] h0[j].0 == k && h0[j].1 == 0;
                assert(h[j] == h0[j]);
            }
            if meets_right(h, k, inner_cols) {
                let j = choose|j: int| 0 <= j < h.len() && #[trigger] h[j].0 == k && h[j].2 == inner_cols;
                if j < h0.len() {
                    assert(h0[j] == h[j]);
                }
            }
            if meets_right(h0, k, inner_cols) {
                let j = choose|j: int| 0 <= j < h0.len() && #[trigger] h0[j].0 == k && h0[j].2 == inner_cols;
                assert(h[j] == h0[j]);
            }
            let n = h0.len() as int;
            if r.x == 0 && r.y + r.height == k {
                assert(h[n].0 == k && h[n].1 == 0);
            }
            if r.x + r.width == inner_cols && r.y + r.height == k {
                assert(h[n].0 == k && h[n].2 == inner_cols);
            }
        }
    }
}

/// Where a line between panes meets the side of the frame, the side shows a
/// junction: on every inner row, the left border is `├` exactly where the
/// bottom edge of a pane touching the left border ends above the frame's
/// bottom, and `│` elsewhere; the right border likewise shows `┤` where such
/// an edge of a pane touching the right border meets it.
pub proof fn law_sides_join_lines(rects: Seq<Rect>, cols: int, rows: int, tabs: Seq<char>)
    ensures
        ({
            let g = frame_glyphs(rects, cols, rows, tabs);
            let across = sat(sat(cols, 1), 1);
            let down = sat(sat(rows, 1), 1);
            forall|k: int|
                0 <= k < down ==> g[4 + 2 * across + k] == glyph(
                    0,
                    k + 1,
                    if ends_at_left(rects, k, sat(rows, 2)) {
                        '├'
                    } else {
                        '│'
                    },
                ) && g[4 + 2 * across + down + k] == glyph(
                    sat(cols, 1),
                    k + 1,
                    if ends_at_right(rects, k, sat(cols, 2), sat(rows, 2)) {
                        '┤'
                    } else {
                        '│'
                    },
                )
        }),
{
    let inner_cols = sat(cols, 2);
    let inner_rows = sat(rows, 2);
    let (v, h) = segments(rects, inner_cols, inner_rows);
    let start = label_start(v, inner_rows, sat(cols, 2), LABEL@.len() as int, v.len() as int);
    let g = frame_glyphs(rects, cols, rows, tabs);
    let across = sat(sat(cols, 1), 1);
    let down = sat(sat(rows, 1), 1);
    let corners = seq![
        glyph(0, 0, '╭'),
        glyph(sat(cols, 1), 0, '╮'),
        glyph(0, sat(rows, 1), '╰'),
        glyph(sat(cols, 1), sat(rows, 1), '╯'),
    ];
    let top = top_row(cols, v, tabs);
    let bottom = bottom_row(cols, rows, v, start, LABEL@);
    let left = left_col(rows, h);
    let right = right_col(cols, rows, h);
    let rest = v_lines(v, h) + h_lines(h, v);
    assert(g == corners + top + bottom + left + right + rest);
    assert forall|k: int| 0 <= k < down implies g[4 + 2 * across + k] == glyph(
        0,
        k + 1,
        if ends_at_left(rects, k, sat(rows, 2)) {
            '├'
        } else {
            '│'
        },
    ) && g[4 + 2 * across + down + k] == glyph(
        sat(cols, 1),
        k + 1,
        if ends_at_right(rects, k, sat(cols, 2), sat(rows, 2)) {
            '┤'
        } else {
            '│'
        },
    ) by {
        lemma_side_meets(rects, inner_cols, inner_rows, k);
        assert(g[4 + 2 * across + k] == left[k]);
        assert(g[4 + 2 * across + down + k] == right[k]);
    }
}

} // verus!

