//! The frame around the panes and the window tabs.

use clux::border::{border_glyphs, pane_border_glyphs, plain_frame_glyphs, window_indicator, Glyph};
use clux::pane::Rect;

fn render(glyphs: &[Glyph], cols: usize, rows: usize) -> Vec<String> {
    let mut screen = vec![vec![' '; cols]; rows];
    for g in glyphs {
        screen[g.y as usize][g.x as usize] = g.c;
    }
    screen.into_iter().map(|r| r.into_iter().collect()).collect()
}

#[test]
fn a_single_pane_gets_a_plain_frame_with_the_label() {
    let glyphs = border_glyphs(&[Rect::new(0, 0, 8, 3)], 10, 5, "");
    assert_eq!(glyphs.len(), 26);
    assert_eq!(glyphs[0], Glyph { x: 0, y: 0, c: '╭' });
    assert_eq!(
        render(&glyphs, 10, 5),
        vec!["╭────────╮", "│        │", "│        │", "│        │", "╰─ clux ─╯"]
    );
}

#[test]
fn a_vertical_split_meets_the_frame_in_junctions() {
    let panes = [Rect::new(0, 0, 3, 3), Rect::new(4, 0, 4, 3)];
    let glyphs = border_glyphs(&panes, 10, 5, "");
    assert_eq!(
        render(&glyphs, 10, 5),
        vec!["╭───┬────╮", "│   │    │", "│   │    │", "│   │    │", "╰─ c┴ux ─╯"]
    );
}

#[test]
fn stacked_panes_cross_a_vertical_line() {
    // Left pane full height; right column split into top and bottom.
    let panes = [Rect::new(0, 0, 4, 5), Rect::new(5, 0, 5, 2), Rect::new(5, 3, 5, 2)];
    let glyphs = border_glyphs(&panes, 12, 7, "[1:a] [2:b*]");
    let screen = render(&glyphs, 12, 7);
    // The junction wins over the tabs where they meet.
    assert_eq!(screen[0], "╭[1:a┬ [2:b╮");
    assert_eq!(screen[1], "│    │     │");
    assert_eq!(screen[3], "│    │─────┤");
    assert_eq!(screen[6], "╰── c┴ux ──╯");
}

#[test]
fn tabs_show_only_for_several_windows() {
    let names = vec!["main".to_string(), "logs".to_string()];
    assert_eq!(window_indicator(&names, 1), "[1:main] [2:logs*]");
    assert_eq!(window_indicator(&vec!["solo".to_string()], 0), "");
}

#[test]
fn the_plain_frame_centres_the_label() {
    let glyphs = plain_frame_glyphs(12, 4);
    assert_eq!(
        render(&glyphs, 12, 4),
        vec!["╭──────────╮", "│          │", "│          │", "╰── clux ──╯"]
    );
}

#[test]
fn a_plain_frame_too_narrow_for_the_label_cuts_it() {
    let glyphs = plain_frame_glyphs(5, 2);
    assert_eq!(render(&glyphs, 5, 2), vec!["╭───╮", "╰ cl╯"]);
}

#[test]
fn an_inner_pane_draws_its_right_and_bottom_lines() {
    let rect = Rect::new(0, 0, 3, 2);
    let glyphs = pane_border_glyphs(&rect, 1, 1, 10, 6);
    let screen = render(&glyphs, 10, 6);
    assert_eq!(screen[1], "    │     ");
    assert_eq!(screen[2], "    │     ");
    assert_eq!(screen[3], " ───┼     ");
}

#[test]
fn a_pane_at_the_right_edge_ends_in_a_tee() {
    let rect = Rect::new(4, 0, 4, 2);
    let glyphs = pane_border_glyphs(&rect, 1, 1, 10, 6);
    let screen = render(&glyphs, 10, 6);
    assert_eq!(screen[3], "     ────┤");
    assert!(glyphs.iter().all(|g| g.c != '│'));
}
