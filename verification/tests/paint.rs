//! Painting pane rows: row sources, colour runs, the selection highlight and
//! the scroll indicator.

use clux::cell::{Cell, Color};
use clux::paint::{paint_row, row_source, scroll_indicator, term_color, Paint, RowSource, TermColor};
use clux::pane::Rect;
use clux::selection::{Point, Selection, SelectionMode};

fn cells(s: &str) -> Vec<Cell> {
    s.chars().map(Cell::new).collect()
}

#[test]
fn scrolled_rows_come_from_scrollback_first() {
    assert_eq!(row_source(0, 3), RowSource::Scrollback(2));
    assert_eq!(row_source(2, 3), RowSource::Scrollback(0));
    assert_eq!(row_source(3, 3), RowSource::Grid(0));
    assert_eq!(row_source(5, 0), RowSource::Grid(5));
}

#[test]
fn a_plain_row_is_one_colour_switch_and_padded_text() {
    let d = Color::default_color();
    assert_eq!(
        paint_row(&cells("ab"), 4, None, 0),
        vec![Paint::Colors(d, d), Paint::Text("ab  ".to_string())]
    );
}

#[test]
fn a_selected_cell_switches_to_the_selection_colours() {
    let d = Color::default_color();
    let sel = Selection { start: Point::new(0, 1), end: Point::new(0, 1), mode: SelectionMode::Normal, active: true };
    assert_eq!(
        paint_row(&cells("abc"), 3, Some(&sel), 0),
        vec![
            Paint::Colors(d, d),
            Paint::Text("a".to_string()),
            Paint::Selected,
            Paint::Text("bc".to_string()),
        ]
    );
    // The same selection on another line changes nothing.
    assert_eq!(
        paint_row(&cells("abc"), 3, Some(&sel), 1),
        vec![Paint::Colors(d, d), Paint::Text("abc".to_string())]
    );
}

#[test]
fn cells_past_the_width_are_not_painted() {
    let d = Color::default_color();
    assert_eq!(
        paint_row(&cells("abcdef"), 3, None, 0),
        vec![Paint::Colors(d, d), Paint::Text("abc".to_string())]
    );
}

#[test]
fn the_indicator_sits_right_aligned_on_the_top_row() {
    let (col, row, text) = scroll_indicator(5, 100, &Rect::new(2, 3, 20, 10), 1, 1);
    assert_eq!(text, "[5/100]");
    assert_eq!(col, 16);
    assert_eq!(row, 4);
}

#[test]
fn cell_colours_become_terminal_colours() {
    assert_eq!(term_color(Color::default_color()), TermColor::Reset);
    assert_eq!(term_color(Color::indexed(9)), TermColor::Ansi(9));
    assert_eq!(term_color(Color::rgb(1, 2, 3)), TermColor::Rgb(1, 2, 3));
}

#[test]
fn padding_counts_columns_not_bytes() {
    let d = Color::default_color();
    assert_eq!(
        paint_row(&cells("é"), 3, None, 0),
        vec![Paint::Colors(d, d), Paint::Text("é  ".to_string())]
    );
}
