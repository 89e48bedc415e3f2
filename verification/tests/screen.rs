//! The screen buffer: compositing, dividers, hyperlinks, selection and ANSI output.

use clux::cell::{Cell, CellFlags, Color};
use clux::client::ansi::cells_to_ansi;
use clux::client::screen::{CursorPosition, ScreenBuffer};
use clux::protocol::{PaneLayout, PaneRow, RowLink, WindowLayout};
use clux::selection::SelectionMode;

/// Layout with a single full-screen pane.
fn single_pane_layout(cols: u16, rows: u16) -> WindowLayout {
    WindowLayout {
        panes: vec![PaneLayout {
            pane_id: 0,
            x: 0,
            y: 0,
            width: cols,
            height: rows,
            focused: true,
        }],
        screen_cols: cols,
        screen_rows: rows,
    }
}

fn text_cells(s: &str) -> Vec<Cell> {
    s.chars().map(Cell::new).collect()
}

/// A link detected by the multiplexer itself (so it gets link styling).
fn link(start_col: u16, end_col: u16, id: u32, url: &str) -> RowLink {
    RowLink {
        start_col,
        end_col,
        id,
        url: url.to_string(),
        detected: true,
    }
}

/// A link the application asked for with OSC 8 (styling left alone).
fn app_link(start_col: u16, end_col: u16, id: u32, url: &str) -> RowLink {
    RowLink {
        detected: false,
        ..link(start_col, end_col, id, url)
    }
}

/// Two side-by-side 10-wide panes with a divider at column 10.
fn split_layout() -> WindowLayout {
    WindowLayout {
        panes: vec![
            PaneLayout {
                pane_id: 0,
                x: 0,
                y: 0,
                width: 10,
                height: 3,
                focused: true,
            },
            PaneLayout {
                pane_id: 1,
                x: 11,
                y: 0,
                width: 10,
                height: 3,
                focused: false,
            },
        ],
        screen_cols: 21,
        screen_rows: 3,
    }
}

fn pane_row(row_idx: u16, text: &str, wrapped: bool) -> PaneRow {
    PaneRow::new(row_idx, text_cells(text)).wrapped(wrapped)
}

#[test]
fn screen_test_screen_buffer_creation() {
    let buffer = ScreenBuffer::new(80, 24);
    assert_eq!(buffer.dimensions(), (80, 24));
    assert!(buffer.layout().is_none());
}

#[test]
fn tests_test_screen_buffer_creation() {
    let buffer = ScreenBuffer::new(80, 24);
    assert_eq!(buffer.dimensions(), (80, 24));
    assert!(buffer.layout().is_none());
}

#[test]
fn screen_test_screen_buffer_resize() {
    let mut buffer = ScreenBuffer::new(80, 24);

    // Set a layout
    buffer.set_layout(WindowLayout {
        panes: vec![PaneLayout {
            pane_id: 0,
            x: 0,
            y: 0,
            width: 80,
            height: 24,
            focused: true,
        }],
        screen_cols: 80,
        screen_rows: 24,
    });

    assert!(buffer.layout().is_some());

    // Resize clears layout
    buffer.resize(100, 30);
    assert_eq!(buffer.dimensions(), (100, 30));
    assert!(buffer.layout().is_none());
}

#[test]
fn tests_test_screen_buffer_resize() {
    let mut buffer = ScreenBuffer::new(80, 24);

    // Set a layout
    buffer.set_layout(WindowLayout {
        panes: vec![PaneLayout {
            pane_id: 0,
            x: 0,
            y: 0,
            width: 80,
            height: 24,
            focused: true,
        }],
        screen_cols: 80,
        screen_rows: 24,
    });

    assert!(buffer.layout().is_some());

    // Resize clears layout
    buffer.resize(100, 30);
    assert_eq!(buffer.dimensions(), (100, 30));
    assert!(buffer.layout().is_none());
}

#[test]
fn screen_test_single_pane_update() {
    let mut buffer = ScreenBuffer::new(80, 24);

    buffer.set_layout(WindowLayout {
        panes: vec![PaneLayout {
            pane_id: 0,
            x: 0,
            y: 0,
            width: 80,
            height: 24,
            focused: true,
        }],
        screen_cols: 80,
        screen_rows: 24,
    });

    // Apply an update
    buffer.apply_pane_update(0, &[PaneRow::new(0, vec![Cell::new('H'), Cell::new('i')])]);

    // Check the cells were written
    let row = buffer.get_row(0).unwrap();
    assert_eq!(row[0].c, 'H');
    assert_eq!(row[1].c, 'i');
    assert_eq!(row[2].c, ' '); // Rest should be default
}

#[test]
fn tests_test_single_pane_update() {
    let mut buffer = ScreenBuffer::new(80, 24);

    buffer.set_layout(WindowLayout {
        panes: vec![PaneLayout {
            pane_id: 0,
            x: 0,
            y: 0,
            width: 80,
            height: 24,
            focused: true,
        }],
        screen_cols: 80,
        screen_rows: 24,
    });

    // Apply an update
    buffer.apply_pane_update(0, &[PaneRow::new(0, vec![Cell::new('H'), Cell::new('i')])]);

    // Check the cells were written
    let row = buffer.get_row(0).unwrap();
    assert_eq!(row[0].c, 'H');
    assert_eq!(row[1].c, 'i');
    assert_eq!(row[2].c, ' '); // Rest should be default
}

#[test]
fn screen_test_vertical_split_isolation() {
    let mut buffer = ScreenBuffer::new(81, 24); // 40 + 1 divider + 40

    buffer.set_layout(WindowLayout {
        panes: vec![
            PaneLayout {
                pane_id: 0,
                x: 0,
                y: 0,
                width: 40,
                height: 24,
                focused: true,
            },
            PaneLayout {
                pane_id: 1,
                x: 41, // After divider column
                y: 0,
                width: 40,
                height: 24,
                focused: false,
            },
        ],
        screen_cols: 81,
        screen_rows: 24,
    });

    // Update left pane with full-width content
    let left_row: Vec<Cell> = (0..40).map(|_| Cell::new('L')).collect();
    buffer.apply_pane_update(0, &[PaneRow::new(0, left_row)]);

    // Update right pane with full-width content
    let right_row: Vec<Cell> = (0..40).map(|_| Cell::new('R')).collect();
    buffer.apply_pane_update(1, &[PaneRow::new(0, right_row)]);

    // Check isolation - left pane content
    let row = buffer.get_row(0).unwrap();
    for i in 0..40 {
        assert_eq!(row[i].c, 'L', "Left pane cell {} should be 'L'", i);
    }

    // Divider at column 40
    assert_eq!(row[40].c, '│', "Divider should be at column 40");

    // Right pane content
    for i in 41..81 {
        assert_eq!(row[i].c, 'R', "Right pane cell {} should be 'R'", i);
    }
}

#[test]
fn tests_test_vertical_split_isolation() {
    let mut buffer = ScreenBuffer::new(81, 24); // 40 + 1 divider + 40

    buffer.set_layout(WindowLayout {
        panes: vec![
            PaneLayout {
                pane_id: 0,
                x: 0,
                y: 0,
                width: 40,
                height: 24,
                focused: true,
            },
            PaneLayout {
                pane_id: 1,
                x: 41, // After divider column
                y: 0,
                width: 40,
                height: 24,
                focused: false,
            },
        ],
        screen_cols: 81,
        screen_rows: 24,
    });

    // Update left pane with full-width content
    let left_row: Vec<Cell> = (0..40).map(|_| Cell::new('L')).collect();
    buffer.apply_pane_update(0, &[PaneRow::new(0, left_row)]);

    // Update right pane with full-width content
    let right_row: Vec<Cell> = (0..40).map(|_| Cell::new('R')).collect();
    buffer.apply_pane_update(1, &[PaneRow::new(0, right_row)]);

    // Check isolation - left pane content
    let row = buffer.get_row(0).unwrap();
    for i in 0..40 {
        assert_eq!(row[i].c, 'L', "Left pane cell {} should be 'L'", i);
    }

    // Divider at column 40
    assert_eq!(row[40].c, '│', "Divider should be at column 40");

    // Right pane content
    for i in 41..81 {
        assert_eq!(row[i].c, 'R', "Right pane cell {} should be 'R'", i);
    }
}

#[test]
fn screen_test_horizontal_split_isolation() {
    let mut buffer = ScreenBuffer::new(80, 25); // 12 + 1 divider + 12

    buffer.set_layout(WindowLayout {
        panes: vec![
            PaneLayout {
                pane_id: 0,
                x: 0,
                y: 0,
                width: 80,
                height: 12,
                focused: true,
            },
            PaneLayout {
                pane_id: 1,
                x: 0,
                y: 13, // After divider row
                width: 80,
                height: 12,
                focused: false,
            },
        ],
        screen_cols: 80,
        screen_rows: 25,
    });

    // Update top pane
    let top_row: Vec<Cell> = (0..80).map(|_| Cell::new('T')).collect();
    buffer.apply_pane_update(0, &[PaneRow::new(11, top_row)]); // Last row of top pane

    // Update bottom pane
    let bottom_row: Vec<Cell> = (0..80).map(|_| Cell::new('B')).collect();
    buffer.apply_pane_update(1, &[PaneRow::new(0, bottom_row)]); // First row of bottom pane

    // Check isolation
    let row11 = buffer.get_row(11).unwrap();
    assert_eq!(row11[0].c, 'T', "Row 11 should have top pane content");

    let row12 = buffer.get_row(12).unwrap();
    assert_eq!(row12[0].c, '─', "Row 12 should be divider");

    let row13 = buffer.get_row(13).unwrap();
    assert_eq!(row13[0].c, 'B', "Row 13 should have bottom pane content");
}

#[test]
fn tests_test_horizontal_split_isolation() {
    let mut buffer = ScreenBuffer::new(80, 25); // 12 + 1 divider + 12

    buffer.set_layout(WindowLayout {
        panes: vec![
            PaneLayout {
                pane_id: 0,
                x: 0,
                y: 0,
                width: 80,
                height: 12,
                focused: true,
            },
            PaneLayout {
                pane_id: 1,
                x: 0,
                y: 13, // After divider row
                width: 80,
                height: 12,
                focused: false,
            },
        ],
        screen_cols: 80,
        screen_rows: 25,
    });

    // Update top pane
    let top_row: Vec<Cell> = (0..80).map(|_| Cell::new('T')).collect();
    buffer.apply_pane_update(0, &[PaneRow::new(11, top_row)]); // Last row of top pane

    // Update bottom pane
    let bottom_row: Vec<Cell> = (0..80).map(|_| Cell::new('B')).collect();
    buffer.apply_pane_update(1, &[PaneRow::new(0, bottom_row)]); // First row of bottom pane

    // Check isolation
    let row11 = buffer.get_row(11).unwrap();
    assert_eq!(row11[0].c, 'T', "Row 11 should have top pane content");

    let row12 = buffer.get_row(12).unwrap();
    assert_eq!(row12[0].c, '─', "Row 12 should be divider");

    let row13 = buffer.get_row(13).unwrap();
    assert_eq!(row13[0].c, 'B', "Row 13 should have bottom pane content");
}

#[test]
fn screen_test_three_pane_layout() {
    // Layout:
    // +--------+--------+
    // |   0    |   1    |
    // +--------+--------+
    // |        2        |
    // +-----------------+
    let mut buffer = ScreenBuffer::new(81, 25);

    buffer.set_layout(WindowLayout {
        panes: vec![
            PaneLayout {
                pane_id: 0,
                x: 0,
                y: 0,
                width: 40,
                height: 12,
                focused: true,
            },
            PaneLayout {
                pane_id: 1,
                x: 41,
                y: 0,
                width: 40,
                height: 12,
                focused: false,
            },
            PaneLayout {
                pane_id: 2,
                x: 0,
                y: 13,
                width: 81,
                height: 12,
                focused: false,
            },
        ],
        screen_cols: 81,
        screen_rows: 25,
    });

    // Update all three panes
    buffer.apply_pane_update(0, &[PaneRow::new(0, vec![Cell::new('A'); 40])]);
    buffer.apply_pane_update(1, &[PaneRow::new(0, vec![Cell::new('B'); 40])]);
    buffer.apply_pane_update(2, &[PaneRow::new(0, vec![Cell::new('C'); 81])]);

    // Check pane 0
    let row0 = buffer.get_row(0).unwrap();
    assert_eq!(row0[0].c, 'A');
    assert_eq!(row0[39].c, 'A');
    assert_eq!(row0[40].c, '│'); // Vertical divider
    assert_eq!(row0[41].c, 'B');

    // Check pane 2
    let row13 = buffer.get_row(13).unwrap();
    assert_eq!(row13[0].c, 'C');
    assert_eq!(row13[40].c, 'C');
    assert_eq!(row13[80].c, 'C');
}

#[test]
fn tests_test_three_pane_layout() {
    // Layout:
    // +--------+--------+
    // |   0    |   1    |
    // +--------+--------+
    // |        2        |
    // +-----------------+
    let mut buffer = ScreenBuffer::new(81, 25);

    buffer.set_layout(WindowLayout {
        panes: vec![
            PaneLayout {
                pane_id: 0,
                x: 0,
                y: 0,
                width: 40,
                height: 12,
                focused: true,
            },
            PaneLayout {
                pane_id: 1,
                x: 41,
                y: 0,
                width: 40,
                height: 12,
                focused: false,
            },
            PaneLayout {
                pane_id: 2,
                x: 0,
                y: 13,
                width: 81,
                height: 12,
                focused: false,
            },
        ],
        screen_cols: 81,
        screen_rows: 25,
    });

    // Update all three panes
    buffer.apply_pane_update(0, &[PaneRow::new(0, vec![Cell::new('A'); 40])]);
    buffer.apply_pane_update(1, &[PaneRow::new(0, vec![Cell::new('B'); 40])]);
    buffer.apply_pane_update(2, &[PaneRow::new(0, vec![Cell::new('C'); 81])]);

    // Check pane 0
    let row0 = buffer.get_row(0).unwrap();
    assert_eq!(row0[0].c, 'A');
    assert_eq!(row0[39].c, 'A');
    assert_eq!(row0[40].c, '│'); // Vertical divider
    assert_eq!(row0[41].c, 'B');

    // Check pane 2
    let row13 = buffer.get_row(13).unwrap();
    assert_eq!(row13[0].c, 'C');
    assert_eq!(row13[40].c, 'C');
    assert_eq!(row13[80].c, 'C');
}

#[test]
fn screen_test_cells_to_ansi_basic() {
    let cells = vec![Cell::new('H'), Cell::new('i'), Cell::new('!')];

    let ansi = cells_to_ansi(&cells);

    // Should contain the characters
    assert!(ansi.contains('H'));
    assert!(ansi.contains('i'));
    assert!(ansi.contains('!'));
    // Should start with reset
    assert!(ansi.starts_with("\x1b[0m"));
    // Should end with reset
    assert!(ansi.ends_with("\x1b[0m"));
}

#[test]
fn ansi_tests_test_cells_to_ansi_basic() {
    let cells = vec![Cell::new('H'), Cell::new('i'), Cell::new('!')];

    let ansi = cells_to_ansi(&cells);

    // Should contain the characters
    assert!(ansi.contains('H'));
    assert!(ansi.contains('i'));
    assert!(ansi.contains('!'));
    // Should start with reset
    assert!(ansi.starts_with("\x1b[0m"));
    // Should end with reset
    assert!(ansi.ends_with("\x1b[0m"));
}

#[test]
fn test_row_emits_osc8_hyperlink() {
    let mut buffer = ScreenBuffer::new(20, 3);
    buffer.set_layout(single_pane_layout(20, 3));

    buffer.apply_pane_update(
        0,
        &[PaneRow::with_links(
            0,
            text_cells("go https://a.io x"),
            vec![link(3, 15, 42, "https://a.io")],
        )],
    );

    let ansi = buffer.render_row_ansi(0);
    assert!(
        ansi.contains("\x1b]8;id=42;https://a.io\x1b\\"),
        "no OSC 8 open in {ansi:?}"
    );
    assert!(
        ansi.contains("\x1b]8;;\x1b\\"),
        "no OSC 8 close in {ansi:?}"
    );

    // The link must cover exactly the URL text.
    let opened = ansi
        .split("\x1b]8;id=42;https://a.io\x1b\\")
        .nth(1)
        .unwrap();
    let linked: String = opened
        .split("\x1b]8;;\x1b\\")
        .next()
        .unwrap()
        .chars()
        .filter(|c| !c.is_control() && *c != '[' || c.is_alphanumeric())
        .collect();
    assert!(
        linked.contains("https://a.io"),
        "linked text was {linked:?}"
    );
    assert!(!linked.contains(" x"), "link ran past the URL: {linked:?}");
}

#[test]
fn screen_test_link_closes_at_end_of_row() {
    // A link running to the last column must be closed, or it bleeds into the
    // next row the client paints.
    let mut buffer = ScreenBuffer::new(12, 2);
    buffer.set_layout(single_pane_layout(12, 2));

    buffer.apply_pane_update(
        0,
        &[PaneRow::with_links(
            0,
            text_cells("https://a.io"),
            vec![link(0, 12, 7, "https://a.io")],
        )],
    );

    assert!(
        buffer.render_row_ansi(0).ends_with("\x1b]8;;\x1b[0m")
            || buffer.render_row_ansi(0).contains("\x1b]8;;\x1b\\\x1b[0m")
    );
}

#[test]
fn link_tests_test_link_closes_at_end_of_row() {
    // A link running to the last column must be closed, or it bleeds into the
    // next row the client paints.
    let mut buffer = ScreenBuffer::new(12, 2);
    buffer.set_layout(single_pane_layout(12, 2));

    buffer.apply_pane_update(
        0,
        &[PaneRow::with_links(
            0,
            text_cells("https://a.io"),
            vec![link(0, 12, 7, "https://a.io")],
        )],
    );

    assert!(
        buffer.render_row_ansi(0).ends_with("\x1b]8;;\x1b[0m")
            || buffer.render_row_ansi(0).contains("\x1b]8;;\x1b\\\x1b[0m")
    );
}

#[test]
fn screen_test_wrapped_link_shares_one_id_across_rows() {
    let mut buffer = ScreenBuffer::new(10, 3);
    buffer.set_layout(single_pane_layout(10, 3));

    // One logical link split over two rows, as the server sends it.
    buffer.apply_pane_update(
        0,
        &[
            PaneRow::with_links(
                0,
                text_cells("https://a."),
                vec![link(0, 10, 99, "https://a.io/x")],
            ),
            PaneRow::with_links(
                1,
                text_cells("io/x"),
                vec![link(0, 4, 99, "https://a.io/x")],
            ),
        ],
    );

    for row in 0..2 {
        assert!(
            buffer.render_row_ansi(row).contains("\x1b]8;id=99;"),
            "row {row} lost the shared link id"
        );
    }
    assert_eq!(buffer.link_at(1, 0), Some("https://a.io/x"));
}

#[test]
fn link_tests_test_wrapped_link_shares_one_id_across_rows() {
    let mut buffer = ScreenBuffer::new(10, 3);
    buffer.set_layout(single_pane_layout(10, 3));

    // One logical link split over two rows, as the server sends it.
    buffer.apply_pane_update(
        0,
        &[
            PaneRow::with_links(
                0,
                text_cells("https://a."),
                vec![link(0, 10, 99, "https://a.io/x")],
            ),
            PaneRow::with_links(
                1,
                text_cells("io/x"),
                vec![link(0, 4, 99, "https://a.io/x")],
            ),
        ],
    );

    for row in 0..2 {
        assert!(
            buffer.render_row_ansi(row).contains("\x1b]8;id=99;"),
            "row {row} lost the shared link id"
        );
    }
    assert_eq!(buffer.link_at(1, 0), Some("https://a.io/x"));
}

#[test]
fn screen_test_links_are_replaced_when_a_row_is_repainted() {
    let mut buffer = ScreenBuffer::new(20, 2);
    buffer.set_layout(single_pane_layout(20, 2));

    buffer.apply_pane_update(
        0,
        &[PaneRow::with_links(
            0,
            text_cells("https://old.example"),
            vec![link(0, 19, 1, "https://old.example")],
        )],
    );
    buffer.apply_pane_update(0, &[PaneRow::new(0, text_cells("plain text"))]);

    assert_eq!(buffer.link_at(0, 0), None, "stale link survived a repaint");
    assert!(!buffer.render_row_ansi(0).contains("\x1b]8;"));
}

#[test]
fn link_tests_test_links_are_replaced_when_a_row_is_repainted() {
    let mut buffer = ScreenBuffer::new(20, 2);
    buffer.set_layout(single_pane_layout(20, 2));

    buffer.apply_pane_update(
        0,
        &[PaneRow::with_links(
            0,
            text_cells("https://old.example"),
            vec![link(0, 19, 1, "https://old.example")],
        )],
    );
    buffer.apply_pane_update(0, &[PaneRow::new(0, text_cells("plain text"))]);

    assert_eq!(buffer.link_at(0, 0), None, "stale link survived a repaint");
    assert!(!buffer.render_row_ansi(0).contains("\x1b]8;"));
}

#[test]
fn screen_test_link_is_clipped_to_its_pane() {
    let mut buffer = ScreenBuffer::new(20, 2);
    buffer.set_layout(WindowLayout {
        panes: vec![
            PaneLayout {
                pane_id: 0,
                x: 0,
                y: 0,
                width: 10,
                height: 2,
                focused: true,
            },
            PaneLayout {
                pane_id: 1,
                x: 11,
                y: 0,
                width: 9,
                height: 2,
                focused: false,
            },
        ],
        screen_cols: 20,
        screen_rows: 2,
    });

    // A run wider than the pane must not reach the divider or the neighbour.
    buffer.apply_pane_update(
        0,
        &[PaneRow::with_links(
            0,
            text_cells("https://a.io"),
            vec![link(0, 30, 5, "https://a.io")],
        )],
    );

    assert_eq!(buffer.link_at(0, 9), Some("https://a.io"));
    assert_eq!(buffer.link_at(0, 10), None, "link reached the divider");
    assert_eq!(buffer.link_at(0, 12), None, "link reached the next pane");
}

#[test]
fn link_tests_test_link_is_clipped_to_its_pane() {
    let mut buffer = ScreenBuffer::new(20, 2);
    buffer.set_layout(WindowLayout {
        panes: vec![
            PaneLayout {
                pane_id: 0,
                x: 0,
                y: 0,
                width: 10,
                height: 2,
                focused: true,
            },
            PaneLayout {
                pane_id: 1,
                x: 11,
                y: 0,
                width: 9,
                height: 2,
                focused: false,
            },
        ],
        screen_cols: 20,
        screen_rows: 2,
    });

    // A run wider than the pane must not reach the divider or the neighbour.
    buffer.apply_pane_update(
        0,
        &[PaneRow::with_links(
            0,
            text_cells("https://a.io"),
            vec![link(0, 30, 5, "https://a.io")],
        )],
    );

    assert_eq!(buffer.link_at(0, 9), Some("https://a.io"));
    assert_eq!(buffer.link_at(0, 10), None, "link reached the divider");
    assert_eq!(buffer.link_at(0, 12), None, "link reached the next pane");
}

#[test]
fn screen_test_url_with_control_characters_is_dropped() {
    let mut buffer = ScreenBuffer::new(12, 2);
    buffer.set_layout(single_pane_layout(12, 2));

    buffer.apply_pane_update(
        0,
        &[PaneRow::with_links(
            0,
            text_cells("click me"),
            vec![link(0, 8, 3, "https://a.io\x1b]0;pwned\x07")],
        )],
    );

    assert_eq!(buffer.link_at(0, 0), None);
    assert!(!buffer.render_row_ansi(0).contains("\x1b]8;"));
}

#[test]
fn link_tests_test_url_with_control_characters_is_dropped() {
    let mut buffer = ScreenBuffer::new(12, 2);
    buffer.set_layout(single_pane_layout(12, 2));

    buffer.apply_pane_update(
        0,
        &[PaneRow::with_links(
            0,
            text_cells("click me"),
            vec![link(0, 8, 3, "https://a.io\x1b]0;pwned\x07")],
        )],
    );

    assert_eq!(buffer.link_at(0, 0), None);
    assert!(!buffer.render_row_ansi(0).contains("\x1b]8;"));
}

#[test]
fn screen_test_detected_url_is_underlined() {
    let mut buffer = ScreenBuffer::new(20, 2);
    buffer.set_layout(single_pane_layout(20, 2));

    buffer.apply_pane_update(
        0,
        &[PaneRow::with_links(
            0,
            text_cells("go https://a.io x"),
            vec![link(3, 15, 1, "https://a.io")],
        )],
    );

    let row = buffer.get_row(0).unwrap();
    assert!(
        row[3].flags.contains(CellFlags::UNDERLINE),
        "detected URL should be underlined"
    );
    assert!(
        !row[0].flags.contains(CellFlags::UNDERLINE),
        "underline leaked outside the link"
    );
    assert!(
        !row[16].flags.contains(CellFlags::UNDERLINE),
        "underline leaked past the link"
    );
    // ...and the underline reaches the host terminal as an SGR.
    let ansi = buffer.render_row_ansi(0);
    assert!(ansi.contains("\x1b[0;4m"), "no underline SGR in {ansi:?}");
}

#[test]
fn detect_tests_test_detected_url_is_underlined() {
    let mut buffer = ScreenBuffer::new(20, 2);
    buffer.set_layout(single_pane_layout(20, 2));

    buffer.apply_pane_update(
        0,
        &[PaneRow::with_links(
            0,
            text_cells("go https://a.io x"),
            vec![link(3, 15, 1, "https://a.io")],
        )],
    );

    let row = buffer.get_row(0).unwrap();
    assert!(
        row[3].flags.contains(CellFlags::UNDERLINE),
        "detected URL should be underlined"
    );
    assert!(
        !row[0].flags.contains(CellFlags::UNDERLINE),
        "underline leaked outside the link"
    );
    assert!(
        !row[16].flags.contains(CellFlags::UNDERLINE),
        "underline leaked past the link"
    );
    // ...and the underline reaches the host terminal as an SGR.
    let ansi = buffer.render_row_ansi(0);
    assert!(ansi.contains("\x1b[0;4m"), "no underline SGR in {ansi:?}");
}

#[test]
fn screen_test_application_link_keeps_its_own_styling() {
    let mut buffer = ScreenBuffer::new(20, 2);
    buffer.set_layout(single_pane_layout(20, 2));

    // The application printed plain, unstyled text and asked for a link on it.
    buffer.apply_pane_update(
        0,
        &[PaneRow::with_links(
            0,
            text_cells("CLICKME"),
            vec![app_link(0, 7, 2, "https://a.io/osc8")],
        )],
    );

    let row = buffer.get_row(0).unwrap();
    assert!(
        !row[0].flags.contains(CellFlags::UNDERLINE),
        "clux must not restyle an application's own link"
    );
    // It is still a real hyperlink, just not restyled.
    assert_eq!(buffer.link_at(0, 0), Some("https://a.io/osc8"));
}

#[test]
fn detect_tests_test_application_link_keeps_its_own_styling() {
    let mut buffer = ScreenBuffer::new(20, 2);
    buffer.set_layout(single_pane_layout(20, 2));

    // The application printed plain, unstyled text and asked for a link on it.
    buffer.apply_pane_update(
        0,
        &[PaneRow::with_links(
            0,
            text_cells("CLICKME"),
            vec![app_link(0, 7, 2, "https://a.io/osc8")],
        )],
    );

    let row = buffer.get_row(0).unwrap();
    assert!(
        !row[0].flags.contains(CellFlags::UNDERLINE),
        "clux must not restyle an application's own link"
    );
    // It is still a real hyperlink, just not restyled.
    assert_eq!(buffer.link_at(0, 0), Some("https://a.io/osc8"));
}

#[test]
fn screen_test_underline_is_dropped_when_the_link_goes_away() {
    let mut buffer = ScreenBuffer::new(20, 2);
    buffer.set_layout(single_pane_layout(20, 2));

    buffer.apply_pane_update(
        0,
        &[PaneRow::with_links(
            0,
            text_cells("https://a.io"),
            vec![link(0, 12, 1, "https://a.io")],
        )],
    );
    buffer.apply_pane_update(0, &[PaneRow::new(0, text_cells("plain text"))]);

    let row = buffer.get_row(0).unwrap();
    assert!(!row[0].flags.contains(CellFlags::UNDERLINE));
}

#[test]
fn detect_tests_test_underline_is_dropped_when_the_link_goes_away() {
    let mut buffer = ScreenBuffer::new(20, 2);
    buffer.set_layout(single_pane_layout(20, 2));

    buffer.apply_pane_update(
        0,
        &[PaneRow::with_links(
            0,
            text_cells("https://a.io"),
            vec![link(0, 12, 1, "https://a.io")],
        )],
    );
    buffer.apply_pane_update(0, &[PaneRow::new(0, text_cells("plain text"))]);

    let row = buffer.get_row(0).unwrap();
    assert!(!row[0].flags.contains(CellFlags::UNDERLINE));
}

#[test]
fn screen_test_selection_extracts_text_on_one_row() {
    let mut buffer = ScreenBuffer::new(20, 2);
    buffer.set_layout(single_pane_layout(20, 2));
    buffer.apply_pane_update(0, &[pane_row(0, "hello world", false)]);

    assert!(buffer.begin_selection(0, 0, SelectionMode::Normal));
    buffer.extend_selection(0, 4);

    assert_eq!(buffer.selected_text().as_deref(), Some("hello"));
    assert!(buffer.has_selection());
}

#[test]
fn selection_tests_test_selection_extracts_text_on_one_row() {
    let mut buffer = ScreenBuffer::new(20, 2);
    buffer.set_layout(single_pane_layout(20, 2));
    buffer.apply_pane_update(0, &[pane_row(0, "hello world", false)]);

    assert!(buffer.begin_selection(0, 0, SelectionMode::Normal));
    buffer.extend_selection(0, 4);

    assert_eq!(buffer.selected_text().as_deref(), Some("hello"));
    assert!(buffer.has_selection());
}

#[test]
fn screen_test_selection_joins_wrapped_rows_without_a_newline() {
    // The point of shipping the wrap flag: a path broken across rows must come
    // back as one string.
    let mut buffer = ScreenBuffer::new(10, 3);
    buffer.set_layout(single_pane_layout(10, 3));
    buffer.apply_pane_update(
        0,
        &[
            pane_row(0, "/very/long", true),
            pane_row(1, "/path/here", false),
        ],
    );

    buffer.begin_selection(0, 0, SelectionMode::Normal);
    buffer.extend_selection(1, 9);

    assert_eq!(
        buffer.selected_text().as_deref(),
        Some("/very/long/path/here")
    );
}

#[test]
fn selection_tests_test_selection_joins_wrapped_rows_without_a_newline() {
    // The point of shipping the wrap flag: a path broken across rows must come
    // back as one string.
    let mut buffer = ScreenBuffer::new(10, 3);
    buffer.set_layout(single_pane_layout(10, 3));
    buffer.apply_pane_update(
        0,
        &[
            pane_row(0, "/very/long", true),
            pane_row(1, "/path/here", false),
        ],
    );

    buffer.begin_selection(0, 0, SelectionMode::Normal);
    buffer.extend_selection(1, 9);

    assert_eq!(
        buffer.selected_text().as_deref(),
        Some("/very/long/path/here")
    );
}

#[test]
fn screen_test_selection_breaks_unwrapped_rows_with_a_newline() {
    let mut buffer = ScreenBuffer::new(10, 3);
    buffer.set_layout(single_pane_layout(10, 3));
    buffer.apply_pane_update(
        0,
        &[pane_row(0, "first", false), pane_row(1, "second", false)],
    );

    buffer.begin_selection(0, 0, SelectionMode::Normal);
    buffer.extend_selection(1, 9);

    assert_eq!(buffer.selected_text().as_deref(), Some("first\nsecond"));
}

#[test]
fn selection_tests_test_selection_breaks_unwrapped_rows_with_a_newline() {
    let mut buffer = ScreenBuffer::new(10, 3);
    buffer.set_layout(single_pane_layout(10, 3));
    buffer.apply_pane_update(
        0,
        &[pane_row(0, "first", false), pane_row(1, "second", false)],
    );

    buffer.begin_selection(0, 0, SelectionMode::Normal);
    buffer.extend_selection(1, 9);

    assert_eq!(buffer.selected_text().as_deref(), Some("first\nsecond"));
}

#[test]
fn screen_test_selection_trims_trailing_blanks_at_hard_line_ends() {
    let mut buffer = ScreenBuffer::new(20, 2);
    buffer.set_layout(single_pane_layout(20, 2));
    buffer.apply_pane_update(0, &[pane_row(0, "text", false)]);

    buffer.begin_selection(0, 0, SelectionMode::Normal);
    buffer.extend_selection(0, 19);

    assert_eq!(buffer.selected_text().as_deref(), Some("text"));
}

#[test]
fn selection_tests_test_selection_trims_trailing_blanks_at_hard_line_ends() {
    let mut buffer = ScreenBuffer::new(20, 2);
    buffer.set_layout(single_pane_layout(20, 2));
    buffer.apply_pane_update(0, &[pane_row(0, "text", false)]);

    buffer.begin_selection(0, 0, SelectionMode::Normal);
    buffer.extend_selection(0, 19);

    assert_eq!(buffer.selected_text().as_deref(), Some("text"));
}

#[test]
fn screen_test_selection_stays_inside_its_pane() {
    let mut buffer = ScreenBuffer::new(21, 3);
    buffer.set_layout(split_layout());
    buffer.apply_pane_update(0, &[pane_row(0, "LEFTPANE00", false)]);
    buffer.apply_pane_update(1, &[pane_row(0, "RIGHTPANE0", false)]);

    // Start in the left pane, drag well into the right one.
    buffer.begin_selection(0, 0, SelectionMode::Normal);
    buffer.extend_selection(0, 20);

    let text = buffer.selected_text().expect("selection");
    assert_eq!(text, "LEFTPANE00");
    assert!(!text.contains('│'), "selection swallowed the divider");
    assert!(!text.contains("RIGHT"), "selection crossed into pane 1");
}

#[test]
fn selection_tests_test_selection_stays_inside_its_pane() {
    let mut buffer = ScreenBuffer::new(21, 3);
    buffer.set_layout(split_layout());
    buffer.apply_pane_update(0, &[pane_row(0, "LEFTPANE00", false)]);
    buffer.apply_pane_update(1, &[pane_row(0, "RIGHTPANE0", false)]);

    // Start in the left pane, drag well into the right one.
    buffer.begin_selection(0, 0, SelectionMode::Normal);
    buffer.extend_selection(0, 20);

    let text = buffer.selected_text().expect("selection");
    assert_eq!(text, "LEFTPANE00");
    assert!(!text.contains('│'), "selection swallowed the divider");
    assert!(!text.contains("RIGHT"), "selection crossed into pane 1");
}

#[test]
fn screen_test_selection_on_a_divider_does_not_start() {
    let mut buffer = ScreenBuffer::new(21, 3);
    buffer.set_layout(split_layout());

    assert!(!buffer.begin_selection(0, 10, SelectionMode::Normal));
    assert!(!buffer.has_selection());
    assert_eq!(buffer.selected_text(), None);
}

#[test]
fn selection_tests_test_selection_on_a_divider_does_not_start() {
    let mut buffer = ScreenBuffer::new(21, 3);
    buffer.set_layout(split_layout());

    assert!(!buffer.begin_selection(0, 10, SelectionMode::Normal));
    assert!(!buffer.has_selection());
    assert_eq!(buffer.selected_text(), None);
}

#[test]
fn screen_test_block_selection_keeps_rows_separate() {
    let mut buffer = ScreenBuffer::new(10, 3);
    buffer.set_layout(single_pane_layout(10, 3));
    // Wrapped rows, but a block selection is columnar: rows stay separate.
    buffer.apply_pane_update(
        0,
        &[
            pane_row(0, "abcdefghij", true),
            pane_row(1, "klmnopqrst", true),
        ],
    );

    buffer.begin_selection(0, 2, SelectionMode::Block);
    buffer.extend_selection(1, 4);

    assert_eq!(buffer.selected_text().as_deref(), Some("cde\nmno"));
}

#[test]
fn selection_tests_test_block_selection_keeps_rows_separate() {
    let mut buffer = ScreenBuffer::new(10, 3);
    buffer.set_layout(single_pane_layout(10, 3));
    // Wrapped rows, but a block selection is columnar: rows stay separate.
    buffer.apply_pane_update(
        0,
        &[
            pane_row(0, "abcdefghij", true),
            pane_row(1, "klmnopqrst", true),
        ],
    );

    buffer.begin_selection(0, 2, SelectionMode::Block);
    buffer.extend_selection(1, 4);

    assert_eq!(buffer.selected_text().as_deref(), Some("cde\nmno"));
}

#[test]
fn screen_test_selected_cells_are_inverted_in_the_rendered_row() {
    let mut buffer = ScreenBuffer::new(20, 2);
    buffer.set_layout(single_pane_layout(20, 2));
    buffer.apply_pane_update(0, &[pane_row(0, "hello world", false)]);

    buffer.begin_selection(0, 0, SelectionMode::Normal);
    buffer.extend_selection(0, 4);

    let ansi = buffer.render_row_ansi(0);
    assert!(ansi.contains("\x1b[0;7m"), "no inverse SGR in {ansi:?}");

    // The stored cells are untouched, so clearing needs no restore.
    assert!(!buffer.get_row(0).unwrap()[0]
        .flags
        .contains(CellFlags::INVERSE));

    buffer.clear_selection();
    assert!(!buffer.render_row_ansi(0).contains("\x1b[0;7m"));
}

#[test]
fn selection_tests_test_selected_cells_are_inverted_in_the_rendered_row() {
    let mut buffer = ScreenBuffer::new(20, 2);
    buffer.set_layout(single_pane_layout(20, 2));
    buffer.apply_pane_update(0, &[pane_row(0, "hello world", false)]);

    buffer.begin_selection(0, 0, SelectionMode::Normal);
    buffer.extend_selection(0, 4);

    let ansi = buffer.render_row_ansi(0);
    assert!(ansi.contains("\x1b[0;7m"), "no inverse SGR in {ansi:?}");

    // The stored cells are untouched, so clearing needs no restore.
    assert!(!buffer.get_row(0).unwrap()[0]
        .flags
        .contains(CellFlags::INVERSE));

    buffer.clear_selection();
    assert!(!buffer.render_row_ansi(0).contains("\x1b[0;7m"));
}

#[test]
fn screen_test_selection_survives_a_pane_update_but_not_a_layout_change() {
    let mut buffer = ScreenBuffer::new(20, 2);
    buffer.set_layout(single_pane_layout(20, 2));
    buffer.apply_pane_update(0, &[pane_row(0, "hello world", false)]);

    buffer.begin_selection(0, 0, SelectionMode::Normal);
    buffer.extend_selection(0, 4);

    // New output on another row must not drop what the user selected.
    buffer.apply_pane_update(0, &[pane_row(1, "more output", false)]);
    assert_eq!(buffer.selected_text().as_deref(), Some("hello"));

    // A layout change moves everything, so the selection is meaningless.
    buffer.set_layout(single_pane_layout(20, 2));
    assert!(!buffer.has_selection());
}

#[test]
fn selection_tests_test_selection_survives_a_pane_update_but_not_a_layout_change() {
    let mut buffer = ScreenBuffer::new(20, 2);
    buffer.set_layout(single_pane_layout(20, 2));
    buffer.apply_pane_update(0, &[pane_row(0, "hello world", false)]);

    buffer.begin_selection(0, 0, SelectionMode::Normal);
    buffer.extend_selection(0, 4);

    // New output on another row must not drop what the user selected.
    buffer.apply_pane_update(0, &[pane_row(1, "more output", false)]);
    assert_eq!(buffer.selected_text().as_deref(), Some("hello"));

    // A layout change moves everything, so the selection is meaningless.
    buffer.set_layout(single_pane_layout(20, 2));
    assert!(!buffer.has_selection());
}

#[test]
fn screen_test_cells_to_ansi_has_no_links_by_default() {
    let ansi = cells_to_ansi(&text_cells("https://a.io"));
    assert!(!ansi.contains("\x1b]8;"), "unexpected OSC 8 in {ansi:?}");
}

#[test]
fn ansi_tests_test_cells_to_ansi_has_no_links_by_default() {
    let ansi = cells_to_ansi(&text_cells("https://a.io"));
    assert!(!ansi.contains("\x1b]8;"), "unexpected OSC 8 in {ansi:?}");
}

#[test]
fn screen_test_cells_to_ansi_colors() {
    let cells = vec![
        Cell::styled(
            'R',
            Color::rgb(255, 0, 0),
            Color::default_color(),
            CellFlags::empty(),
        ),
        Cell::styled(
            'G',
            Color::rgb(0, 255, 0),
            Color::default_color(),
            CellFlags::empty(),
        ),
    ];

    let ansi = cells_to_ansi(&cells);

    // Should contain RGB color codes
    assert!(ansi.contains("\x1b[38;2;255;0;0m")); // Red foreground
    assert!(ansi.contains("\x1b[38;2;0;255;0m")); // Green foreground
}

#[test]
fn ansi_tests_test_cells_to_ansi_colors() {
    let cells = vec![
        Cell::styled(
            'R',
            Color::rgb(255, 0, 0),
            Color::default_color(),
            CellFlags::empty(),
        ),
        Cell::styled(
            'G',
            Color::rgb(0, 255, 0),
            Color::default_color(),
            CellFlags::empty(),
        ),
    ];

    let ansi = cells_to_ansi(&cells);

    // Should contain RGB color codes
    assert!(ansi.contains("\x1b[38;2;255;0;0m")); // Red foreground
    assert!(ansi.contains("\x1b[38;2;0;255;0m")); // Green foreground
}

#[test]
fn screen_test_cells_to_ansi_attributes() {
    let cells = vec![Cell::styled(
        'B',
        Color::default_color(),
        Color::default_color(),
        CellFlags::from_bits(CellFlags::BOLD | CellFlags::UNDERLINE),
    )];

    let ansi = cells_to_ansi(&cells);

    // Should contain attribute codes
    assert!(ansi.contains('1') || ansi.contains("1;")); // Bold
    assert!(ansi.contains('4') || ansi.contains("4;")); // Underline
}

#[test]
fn ansi_tests_test_cells_to_ansi_attributes() {
    let cells = vec![Cell::styled(
        'B',
        Color::default_color(),
        Color::default_color(),
        CellFlags::from_bits(CellFlags::BOLD | CellFlags::UNDERLINE),
    )];

    let ansi = cells_to_ansi(&cells);

    // Should contain attribute codes
    assert!(ansi.contains('1') || ansi.contains("1;")); // Bold
    assert!(ansi.contains('4') || ansi.contains("4;")); // Underline
}

#[test]
fn screen_test_update_nonexistent_pane() {
    let mut buffer = ScreenBuffer::new(80, 24);

    buffer.set_layout(WindowLayout {
        panes: vec![PaneLayout {
            pane_id: 0,
            x: 0,
            y: 0,
            width: 80,
            height: 24,
            focused: true,
        }],
        screen_cols: 80,
        screen_rows: 24,
    });

    // Try to update a non-existent pane - should not panic
    buffer.apply_pane_update(99, &[PaneRow::new(0, vec![Cell::new('X')])]);

    // Original content should be unchanged (default spaces)
    let row = buffer.get_row(0).unwrap();
    assert_eq!(row[0].c, ' ');
}

#[test]
fn tests_test_update_nonexistent_pane() {
    let mut buffer = ScreenBuffer::new(80, 24);

    buffer.set_layout(WindowLayout {
        panes: vec![PaneLayout {
            pane_id: 0,
            x: 0,
            y: 0,
            width: 80,
            height: 24,
            focused: true,
        }],
        screen_cols: 80,
        screen_rows: 24,
    });

    // Try to update a non-existent pane - should not panic
    buffer.apply_pane_update(99, &[PaneRow::new(0, vec![Cell::new('X')])]);

    // Original content should be unchanged (default spaces)
    let row = buffer.get_row(0).unwrap();
    assert_eq!(row[0].c, ' ');
}

#[test]
fn screen_test_update_without_layout() {
    let mut buffer = ScreenBuffer::new(80, 24);

    // No layout set - update should be ignored
    buffer.apply_pane_update(0, &[PaneRow::new(0, vec![Cell::new('X')])]);

    let row = buffer.get_row(0).unwrap();
    assert_eq!(row[0].c, ' ');
}

#[test]
fn tests_test_update_without_layout() {
    let mut buffer = ScreenBuffer::new(80, 24);

    // No layout set - update should be ignored
    buffer.apply_pane_update(0, &[PaneRow::new(0, vec![Cell::new('X')])]);

    let row = buffer.get_row(0).unwrap();
    assert_eq!(row[0].c, ' ');
}

#[test]
fn screen_test_bounds_checking() {
    let mut buffer = ScreenBuffer::new(80, 24);

    buffer.set_layout(WindowLayout {
        panes: vec![PaneLayout {
            pane_id: 0,
            x: 0,
            y: 0,
            width: 80,
            height: 24,
            focused: true,
        }],
        screen_cols: 80,
        screen_rows: 24,
    });

    // Try to update row beyond pane height - should not panic
    buffer.apply_pane_update(0, &[PaneRow::new(100, vec![Cell::new('X')])]);

    // Try to update with cells beyond pane width - should truncate
    let wide_row: Vec<Cell> = (0..200).map(|_| Cell::new('W')).collect();
    buffer.apply_pane_update(0, &[PaneRow::new(0, wide_row)]);

    // Should have written up to column 80
    let row = buffer.get_row(0).unwrap();
    assert_eq!(row[79].c, 'W');
}

#[test]
fn tests_test_bounds_checking() {
    let mut buffer = ScreenBuffer::new(80, 24);

    buffer.set_layout(WindowLayout {
        panes: vec![PaneLayout {
            pane_id: 0,
            x: 0,
            y: 0,
            width: 80,
            height: 24,
            focused: true,
        }],
        screen_cols: 80,
        screen_rows: 24,
    });

    // Try to update row beyond pane height - should not panic
    buffer.apply_pane_update(0, &[PaneRow::new(100, vec![Cell::new('X')])]);

    // Try to update with cells beyond pane width - should truncate
    let wide_row: Vec<Cell> = (0..200).map(|_| Cell::new('W')).collect();
    buffer.apply_pane_update(0, &[PaneRow::new(0, wide_row)]);

    // Should have written up to column 80
    let row = buffer.get_row(0).unwrap();
    assert_eq!(row[79].c, 'W');
}

#[test]
fn an_update_never_spills_into_the_neighbouring_pane() {
    let mut buffer = ScreenBuffer::new(21, 3);
    buffer.set_layout(split_layout());
    buffer.apply_pane_update(1, &[PaneRow::new(0, text_cells("right side"))]);
    // Pane 0 sends a row wider than itself: it is clipped at its border.
    buffer.apply_pane_update(0, &[PaneRow::new(0, text_cells("abcdefghijklmnopq"))]);
    let row = buffer.get_row(0).unwrap();
    let left: String = row[0..10].iter().map(|c| c.c).collect();
    let right: String = row[11..21].iter().map(|c| c.c).collect();
    assert_eq!(left, "abcdefghij");
    assert_eq!(row[10].c, '│');
    assert_eq!(right, "right side");
}

#[test]
fn a_stray_click_on_a_divider_keeps_the_selection() {
    let mut buffer = ScreenBuffer::new(21, 3);
    buffer.set_layout(split_layout());
    buffer.apply_pane_update(0, &[pane_row(0, "LEFTPANE00", false)]);
    assert!(buffer.begin_selection(0, 0, SelectionMode::Normal));
    assert!(buffer.extend_selection(0, 3));
    assert_eq!(buffer.selected_text(), Some("LEFT".to_string()));
    assert!(!buffer.begin_selection(0, 10, SelectionMode::Normal));
    assert!(buffer.has_selection());
    assert_eq!(buffer.selected_text(), Some("LEFT".to_string()));
}

#[test]
fn the_focused_pane_places_the_cursor() {
    let mut buffer = ScreenBuffer::new(21, 3);
    buffer.set_layout(split_layout());
    // Pane 1 is not focused: its cursor is ignored.
    assert!(!buffer.set_pane_cursor(1, 1, 2, true));
    assert_eq!(buffer.cursor(), CursorPosition { row: 0, col: 0, visible: false });
    assert!(buffer.set_pane_cursor(0, 1, 2, true));
    assert_eq!(buffer.cursor(), CursorPosition { row: 1, col: 2, visible: true });
    assert!(!buffer.set_pane_cursor(7, 0, 0, true));
}

#[test]
fn a_row_is_as_wide_as_the_buffer() {
    let buffer = ScreenBuffer::new(7, 2);
    assert_eq!(buffer.get_row(1).unwrap().len(), 7);
    assert!(buffer.get_row(2).is_none());
    assert!(!buffer.render_row_ansi(0).is_empty());
    assert!(buffer.render_row_ansi(2).is_empty());
}
