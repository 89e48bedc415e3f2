use clux::selection::screen_to_line;
use clux::pane::{Direction, LayoutNode, PaneId, PaneManager, Rect, SplitDirection};

#[test]
fn pane_test_rect_split_horizontal() {
    let rect = Rect::new(0, 0, 80, 24);
    let (top, bottom) = rect.split_horizontal(50);

    assert_eq!(top.y, 0);
    assert_eq!(top.height, 12);
    assert_eq!(bottom.y, 13); // 12 + 1 for border
}

#[test]
fn pane_test_rect_split_vertical() {
    let rect = Rect::new(0, 0, 80, 24);
    let (left, right) = rect.split_vertical(50);

    assert_eq!(left.x, 0);
    assert_eq!(left.width, 40);
    assert_eq!(right.x, 41); // 40 + 1 for border
}

#[test]
fn pane_test_rect_contains() {
    let rect = Rect::new(10, 10, 20, 10);

    assert!(rect.contains(10, 10));
    assert!(rect.contains(29, 19));
    assert!(!rect.contains(9, 10));
    assert!(!rect.contains(30, 10));
}

#[test]
fn tests_test_rect_split_horizontal() {
    let rect = Rect::new(0, 0, 80, 24);
    let (top, bottom) = rect.split_horizontal(50);

    assert_eq!(top.y, 0);
    assert_eq!(top.height, 12);
    assert_eq!(bottom.y, 13);
}

#[test]
fn tests_test_rect_split_vertical() {
    let rect = Rect::new(0, 0, 80, 24);
    let (left, right) = rect.split_vertical(50);

    assert_eq!(left.x, 0);
    assert_eq!(left.width, 40);
    assert_eq!(right.x, 41);
}

#[test]
fn tests_test_rect_contains() {
    let rect = Rect::new(10, 10, 20, 10);

    assert!(rect.contains(10, 10));
    assert!(rect.contains(29, 19));
    assert!(!rect.contains(9, 10));
    assert!(!rect.contains(30, 10));
}

#[test]
fn split_leaves_border_and_remainder() {
    let (top, bottom) = Rect::new(0, 0, 80, 25).split_horizontal(50);
    assert_eq!(top, Rect::new(0, 0, 80, 12));
    assert_eq!(bottom, Rect::new(0, 13, 80, 12));
    let (left, right) = Rect::new(5, 2, 1, 3).split_vertical(50);
    assert_eq!(left, Rect::new(5, 2, 0, 3));
    assert_eq!(right, Rect::new(6, 2, 0, 3));
}

#[test]
fn layout_lays_out_in_tree_order() {
    let mut layout = LayoutNode::Pane(PaneId(0));
    assert!(layout.split_pane(PaneId(0), PaneId(1), SplitDirection::Vertical));
    assert!(layout.split_pane(PaneId(1), PaneId(2), SplitDirection::Horizontal));
    assert!(!layout.split_pane(PaneId(9), PaneId(3), SplitDirection::Horizontal));
    assert_eq!(layout.pane_ids(), vec![PaneId(0), PaneId(1), PaneId(2)]);
    let mut rects = Vec::new();
    layout.calculate_rects(Rect::new(0, 0, 80, 24), &mut rects);
    assert_eq!(
        rects,
        vec![
            (PaneId(0), Rect::new(0, 0, 40, 24)),
            (PaneId(1), Rect::new(41, 0, 39, 12)),
            (PaneId(2), Rect::new(41, 13, 39, 11)),
        ]
    );
}

#[test]
fn removing_the_split_pane_restores_the_layout() {
    let mut layout = LayoutNode::Pane(PaneId(0));
    layout.split_pane(PaneId(0), PaneId(1), SplitDirection::Vertical);
    let before = layout.pane_ids();
    layout.split_pane(PaneId(1), PaneId(2), SplitDirection::Horizontal);
    // The split of pane 1 is a direct child of the root, so it is replaced here.
    let sibling = layout.remove_pane(PaneId(2));
    assert!(sibling.is_none());
    assert_eq!(layout.pane_ids(), before);
    // At the root, the sibling is handed back for the caller to put in place.
    let sibling = layout.remove_pane(PaneId(1)).expect("sibling");
    assert_eq!(sibling.pane_ids(), vec![PaneId(0)]);
    assert_eq!(layout.pane_ids(), before);
}

#[test]
fn manager_split_navigate_close() {
    let mut m = PaneManager::new(80, 24);
    assert_eq!(m.focused_id(), PaneId(0));
    assert!(m.can_split(SplitDirection::Vertical, 1));
    let id = m.split(SplitDirection::Vertical);
    assert_eq!(id, PaneId(1));
    assert_eq!(m.focused_id(), PaneId(1));
    assert_eq!(m.pane_count(), 2);
    assert_eq!(m.panes()[0].rect, Rect::new(0, 0, 40, 24));
    assert_eq!(m.panes()[1].rect, Rect::new(41, 0, 39, 24));
    assert!(m.panes()[1].focused);
    assert_eq!(m.pane_at(45, 5), Some(PaneId(1)));
    assert_eq!(m.pane_at(40, 5), None);

    m.navigate(Direction::Right);
    assert_eq!(m.focused_id(), PaneId(1));
    m.navigate(Direction::Left);
    assert_eq!(m.focused_id(), PaneId(0));
    assert!(!m.panes()[1].focused);

    assert!(m.can_close(PaneId(0)));
    assert_eq!(m.close_focused(), Some(PaneId(1)));
    assert_eq!(m.pane_count(), 1);
    assert_eq!(m.panes()[0].rect, Rect::new(0, 0, 80, 24));
    assert_eq!(m.close_focused(), None);
    assert_eq!(m.pane_count(), 1);
}

#[test]
fn closing_a_split_pane_gives_focus_back() {
    let mut m = PaneManager::new_with_pane_id(100, 30, 7);
    m.split_with_id(SplitDirection::Horizontal, 20);
    assert_eq!(m.focused_id(), PaneId(20));
    assert_eq!(m.close_pane(PaneId(20)), Some(PaneId(7)));
    assert_eq!(m.focused_id(), PaneId(7));
    assert_eq!(m.panes()[0].rect, Rect::new(0, 0, 100, 30));
}

#[test]
fn resize_screen_lays_out_again() {
    let mut m = PaneManager::new(80, 24);
    m.split(SplitDirection::Horizontal);
    assert!(m.can_resize(100, 41));
    m.resize_screen(100, 41);
    assert_eq!(m.panes()[0].rect, Rect::new(0, 0, 100, 20));
    assert_eq!(m.panes()[1].rect, Rect::new(0, 21, 100, 20));
}

#[test]
fn scrolled_rows_map_to_scrollback_lines() {
    let rect = Rect::new(0, 0, 80, 24);
    assert_eq!(screen_to_line(5, 0, &rect), 5);
    assert_eq!(screen_to_line(0, 3, &rect), -3);
    assert_eq!(screen_to_line(2, 3, &rect), -1);
    assert_eq!(screen_to_line(4, 3, &rect), 1);
}
