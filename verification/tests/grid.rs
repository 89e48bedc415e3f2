//! The terminal grid: cells, scrolling, dirty tracking and resizing.

use clux::cell::Cell;
use clux::grid::{Grid, Row};

#[test]
fn test_grid_creation() {
    let grid = Grid::new(24, 80);
    assert_eq!(grid.rows(), 24);
    assert_eq!(grid.cols(), 80);
}

#[test]
fn test_grid_set_get() {
    let mut grid = Grid::new(24, 80);
    let cell = Cell::new('A');
    grid.set(5, 10, cell);

    let retrieved = grid.get(5, 10).unwrap();
    assert_eq!(retrieved.c, 'A');
}

#[test]
fn test_grid_scroll_up() {
    let mut grid = Grid::new(3, 10);
    grid.set(0, 0, Cell::new('A'));
    grid.set(1, 0, Cell::new('B'));
    grid.set(2, 0, Cell::new('C'));

    let scrolled = grid.scroll_up();
    assert_eq!(scrolled.get(0).unwrap().c, 'A');
    assert_eq!(grid.get(0, 0).unwrap().c, 'B');
    assert_eq!(grid.get(1, 0).unwrap().c, 'C');
    assert_eq!(grid.get(2, 0).unwrap().c, ' ');
}

#[test]
fn test_grid_resize() {
    let mut grid = Grid::new(24, 80);
    grid.set(0, 0, Cell::new('X'));

    grid.resize(30, 100);
    assert_eq!(grid.rows(), 30);
    assert_eq!(grid.cols(), 100);
    assert_eq!(grid.get(0, 0).unwrap().c, 'X');
}

#[test]
fn test_row_clear() {
    let mut row = Row::new(10);
    row.set(0, Cell::new('A'));
    row.set(5, Cell::new('B'));

    row.clear_from(3);
    assert_eq!(row.get(0).unwrap().c, 'A');
    assert_eq!(row.get(5).unwrap().c, ' ');
}

#[test]
fn test_dirty_tracking() {
    let mut grid = Grid::new(10, 10);
    grid.clear_all_dirty();

    assert!(!grid.has_dirty_rows());

    grid.set(5, 5, Cell::new('X'));
    assert!(grid.has_dirty_rows());

    let dirty: Vec<_> = grid.dirty_row_indices().into_iter().collect();
    assert_eq!(dirty, vec![5]);
}

#[test]
fn test_resize_preserves_content_basic() {
    // Simulate a real terminal scenario:
    // - Row 0: prompt + command "$ ls"
    // - Row 1: output "file1  file2"
    // - Row 2: new prompt "$ "
    // - Rows 3+: empty
    let mut grid = Grid::new(24, 80);

    // Write prompt and command on row 0
    for (i, c) in "$ ls".chars().enumerate() {
        grid.set(0, i, Cell::new(c));
    }

    // Write output on row 1
    for (i, c) in "file1  file2".chars().enumerate() {
        grid.set(1, i, Cell::new(c));
    }

    // Write new prompt on row 2
    for (i, c) in "$ ".chars().enumerate() {
        grid.set(2, i, Cell::new(c));
    }

    // Cursor at end of prompt on row 2
    let cursor_row = 2;
    let cursor_col = 2;

    // Resize to smaller width (like a vertical split)
    let (new_cursor_row, new_cursor_col) =
        grid.resize_with_reflow(24, 40, cursor_row, cursor_col);

    // Content should still be there
    let row0_text: String = (0..10)
        .filter_map(|c| grid.get(0, c).map(|cell| cell.c))
        .collect::<String>()
        .trim_end()
        .to_string();
    assert!(
        row0_text.starts_with("$ ls"),
        "Row 0 should have '$ ls', got '{}'",
        row0_text
    );

    let row1_text: String = (0..20)
        .filter_map(|c| grid.get(1, c).map(|cell| cell.c))
        .collect::<String>()
        .trim_end()
        .to_string();
    assert!(
        row1_text.starts_with("file1"),
        "Row 1 should have 'file1...', got '{}'",
        row1_text
    );

    let row2_text: String = (0..10)
        .filter_map(|c| grid.get(2, c).map(|cell| cell.c))
        .collect::<String>()
        .trim_end()
        .to_string();
    assert!(
        row2_text.starts_with("$"),
        "Row 2 should have prompt '$', got '{}'",
        row2_text
    );

    // Cursor should still be on row 2
    assert_eq!(
        new_cursor_row, 2,
        "Cursor should stay on row 2, got {}",
        new_cursor_row
    );
    assert_eq!(
        new_cursor_col, 2,
        "Cursor should stay at col 2, got {}",
        new_cursor_col
    );
}
#[test]
fn test_resize_with_reflow_width_decrease() {
    // Create a grid with content that spans 80 columns
    let mut grid = Grid::new(24, 80);

    // Write "Hello World" spanning first row
    for (i, c) in "Hello World - this is a long line that will need to wrap when we shrink"
        .chars()
        .enumerate()
    {
        if i < 80 {
            grid.set(0, i, Cell::new(c));
        }
    }

    // Cursor at end of content
    let cursor_row = 0;
    let cursor_col = 70;

    // Resize to 40 columns - line should wrap
    let (new_row, new_col) = grid.resize_with_reflow(24, 40, cursor_row, cursor_col);

    assert_eq!(grid.cols(), 40);

    // Content should now span 2 rows (70 chars / 40 cols = ~2 rows)
    // First row should have first 40 chars
    let first_row_text: String = (0..40)
        .filter_map(|c| grid.get(0, c).map(|cell| cell.c))
        .collect();
    assert!(
        first_row_text.starts_with("Hello World"),
        "First row should start with 'Hello World', got '{}'",
        first_row_text
    );

    // First row should be marked as wrapped
    assert!(
        grid.row(0).unwrap().is_wrapped(),
        "First row should be marked as wrapped"
    );

    // Cursor should have moved to second row since it was at col 70
    // 70 / 40 = 1 (row 1), 70 % 40 = 30 (col 30)
    assert_eq!(new_row, 1, "Cursor should be on row 1 after reflow");
    assert_eq!(new_col, 30, "Cursor should be at col 30 after reflow");
}
#[test]
fn test_resize_with_reflow_width_increase() {
    // Create a grid with wrapped content
    let mut grid = Grid::new(24, 40);

    // Write content that spans 2 rows when width is 40
    let text = "Hello World - this is a long line of text";
    for (i, c) in text.chars().enumerate() {
        let row = i / 40;
        let col = i % 40;
        if row < 24 {
            grid.set(row, col, Cell::new(c));
        }
    }
    // Mark first row as wrapped (soft wrap)
    grid.row_mut(0).unwrap().set_wrapped(true);

    // Cursor at beginning of second row
    let cursor_row = 1;
    let cursor_col = 0;

    // Resize to 80 columns - lines should unwrap
    let (new_row, new_col) = grid.resize_with_reflow(24, 80, cursor_row, cursor_col);

    assert_eq!(grid.cols(), 80);

    // Content should now fit on one row
    let first_row_text: String = (0..text.len())
        .filter_map(|c| grid.get(0, c).map(|cell| cell.c))
        .collect();
    assert_eq!(
        first_row_text, text,
        "Content should be unwrapped onto single row"
    );

    // First row should NOT be wrapped anymore
    assert!(
        !grid.row(0).unwrap().is_wrapped(),
        "First row should not be wrapped after width increase"
    );

    // Cursor was at beginning of row 1 (offset 40 in logical line)
    // After unwrap, should be at row 0, col 40
    assert_eq!(new_row, 0, "Cursor should be on row 0 after unwrap");
    assert_eq!(new_col, 40, "Cursor should be at col 40 after unwrap");
}
#[test]
fn reflow_keeps_the_cursor_in_the_lower_third_when_rows_overflow() {
    // Ten full 4-wide rows each ending a line; shrinking to width 2 doubles them.
    let mut grid = Grid::new(10, 4);
    for r in 0..10 {
        for c in 0..4 {
            grid.set(r, c, Cell::new('x'));
        }
    }
    let (row, col) = grid.resize_with_reflow(6, 2, 9, 3);
    assert_eq!(grid.rows(), 6);
    assert_eq!(grid.cols(), 2);
    // The cursor's line becomes rows 18 and 19; offset 3 lands on row 19, col 1.
    // At most 14 rows can be dropped from the top, so row 19 is shown as row 5.
    assert_eq!((row, col), (5, 1));
    assert!(grid.row(4).unwrap().is_wrapped());
    assert!(!grid.row(5).unwrap().is_wrapped());
}

#[test]
fn reflow_pads_with_blank_rows_and_clamps_a_cursor_past_the_end() {
    let mut grid = Grid::new(2, 4);
    grid.set(0, 0, Cell::new('a'));
    let (row, col) = grid.resize_with_reflow(3, 2, 0, 3);
    assert_eq!(grid.rows(), 3);
    assert_eq!(grid.get(0, 0).unwrap().c, 'a');
    assert_eq!(grid.get(2, 0).unwrap().c, ' ');
    // Offset 3 is past the trimmed line "a": the last row, clamped to the width.
    assert_eq!((row, col), (0, 1));
}

#[test]
fn same_width_resize_only_clamps_the_cursor() {
    let mut grid = Grid::new(5, 4);
    grid.set(4, 3, Cell::new('z'));
    let (row, col) = grid.resize_with_reflow(3, 4, 4, 9);
    assert_eq!((row, col), (2, 3));
    assert_eq!(grid.rows(), 3);
}
