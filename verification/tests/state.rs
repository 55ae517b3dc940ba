use widget_layers::arrange::LayoutNeed;
use widget_layers::geometry::{ConstraintLimit, Point, Rect, Size};
use widget_layers::placement::Direction;
use widget_layers::stack::OverlayLayout;
use widget_layers::state::OverlayState;
use widget_layers::widget::{TreeNode, WidgetId, WidgetRef, WidgetTree};

fn rect(x: i32, y: i32, width: i32, height: i32) -> Rect<i32> {
    Rect { origin: Point { x, y }, size: Size { width, height } }
}

fn overlay(id: u64, requires_hover: bool, layout: Option<Rect<i32>>) -> OverlayLayout {
    OverlayLayout {
        widget: WidgetRef::Mounted(WidgetId(id)),
        relative_to: Some(WidgetId(1)),
        direction: Direction::Down,
        requires_hover,
        layout,
        on_dismiss: None,
    }
}

fn tree() -> WidgetTree {
    WidgetTree {
        nodes: vec![TreeNode {
            id: WidgetId(1),
            child_of: vec![WidgetId(11), WidgetId(0)],
            last_layout: Some(rect(100, 100, 40, 20)),
        }],
    }
}

/// Three overlays, 10, 11 and 12, of which the last has no layout.
fn three() -> OverlayState {
    let mut state = OverlayState::new();
    state.show(overlay(10, false, Some(rect(0, 0, 10, 10))));
    state.show(overlay(11, true, Some(rect(10, 0, 10, 10))));
    state.show(overlay(12, true, None));
    state
}

fn ids(overlays: &[OverlayLayout]) -> Vec<u64> {
    overlays.iter().map(|overlay| overlay.widget.id().0).collect()
}

#[test]
fn showing_counts_new_overlays() {
    let state = three();
    assert_eq!(state.len(), 3);
    assert_eq!(state.new_overlays(), 3);
    assert_eq!(state.hovering(), None);
    assert_eq!(state.overlay(1).map(|overlay| overlay.widget.id()), Some(WidgetId(11)));
    assert!(state.overlay(3).is_none());
}

#[test]
fn remove_children_after() {
    let mut state = three();
    assert_eq!(ids(&state.remove_children_after(1)), vec![12, 11]);
    assert_eq!(state.len(), 1);
    assert_eq!(state.new_overlays(), 1);
    assert_eq!(ids(&state.remove_children_after(1)), vec![]);
    assert_eq!(ids(&state.remove_children_after(0)), vec![10]);
    assert_eq!(state.new_overlays(), 0);
}

#[test]
fn dismissing_keeps_the_count_of_new_overlays() {
    let mut state = three();
    let id = state.show(overlay(13, false, None));
    assert_eq!(ids(&state.dismiss(id)), vec![13]);
    assert_eq!(state.len(), 3);
    assert_eq!(state.new_overlays(), 4);
    assert_eq!(ids(&state.dismiss(id)), vec![]);
}

#[test]
fn test_point() {
    let state = three();
    let at = |x, y, check| state.test_point(Point { x, y }, check, &tree());
    // The first overlay does not ask to be hovered.
    assert_eq!(at(5, 5, true), Some(3));
    assert_eq!(at(15, 5, true), Some(2));
    assert_eq!(at(19, 9, false), Some(2));
    assert_eq!(at(20, 9, false), Some(3));
}

#[test]
fn test_point_around_the_widget_at_the_root() {
    let mut state = OverlayState::new();
    let at = |state: &OverlayState, x, check| state.test_point(Point { x, y: 100 }, check, &tree());
    assert_eq!(at(&state, 0, true), None);
    state.show(overlay(10, false, None));
    assert_eq!(at(&state, 0, true), Some(0));
    assert_eq!(at(&state, 0, false), None);
    assert_eq!(at(&state, 100, true), None);
    assert!(state.point_is_in_root_relative(Point { x: 99, y: 100 }, &tree()));
    assert!(!state.point_is_in_root_relative(Point { x: 139, y: 119 }, &tree()));
    let nowhere = WidgetTree { nodes: vec![] };
    assert!(!state.point_is_in_root_relative(Point { x: 99, y: 100 }, &nowhere));
}

#[test]
fn hovering_is_remembered() {
    let mut state = three();
    assert_eq!(ids(&state.hover(Point { x: 5, y: 5 }, &tree())), vec![]);
    assert_eq!(state.hovering(), Some(3));
    assert_eq!(ids(&state.hover(Point { x: 15, y: 5 }, &tree())), vec![12]);
    assert_eq!(state.hovering(), Some(2));
    assert_eq!(ids(&state.unhover()), vec![11]);
    assert_eq!(state.hovering(), None);
}

#[test]
fn process_new_overlay() {
    // The widget 1 is a child of 11, not of 10 or 12.
    let mut state = three();
    assert_eq!(ids(&state.process_new_overlay(&tree())), vec![]);
    assert_eq!(state.new_overlays(), 2);
    assert_eq!(ids(&state.process_new_overlay(&tree())), vec![10]);
    assert_eq!(ids(&state.process_new_overlay(&tree())), vec![]);
    assert_eq!(state.new_overlays(), 0);
    state.show(overlay(13, false, None));
    assert_eq!(ids(&state.process_new_overlay(&tree())), vec![12]);
    assert_eq!(state.len(), 2);
    // One that is relative to nothing takes the place of all.
    let mut alone = overlay(14, false, None);
    alone.relative_to = None;
    state.show(alone);
    assert_eq!(ids(&state.process_new_overlay(&tree())), vec![13, 11]);
    assert_eq!(state.len(), 1);
}

#[test]
fn layout_intersects() {
    let state = three();
    let intersects = |index, layout| state.layout_intersects(index, &layout, &tree());
    assert!(intersects(2, rect(5, 5, 1, 1)));
    assert!(!intersects(0, rect(5, 5, 1, 1)));
    // Edges may touch.
    assert!(!intersects(2, rect(20, 0, 10, 10)));
    // The widget at the root is only looked at for the overlays above the first.
    assert!(intersects(1, rect(110, 110, 1, 1)));
    assert!(!intersects(0, rect(110, 110, 1, 1)));
    assert!(state.check_intersects(2, &rect(5, 5, 1, 1), &tree()));
    assert!(!state.check_intersects(2, &rect(i32::MAX, 5, 1, 1), &tree()));
}

#[test]
fn layout_need() {
    let state = three();
    let available = Size { width: 400, height: 300 };
    assert_eq!(state.layout_need(0, available, &tree()), LayoutNeed::Known(rect(0, 0, 10, 10)));
    assert_eq!(
        state.layout_need(2, available, &tree()),
        LayoutNeed::Measure {
            constraints: Size {
                width: ConstraintLimit::SizeToFit(40),
                height: ConstraintLimit::SizeToFit(180),
            },
            anchor: Some(rect(100, 100, 40, 20)),
        }
    );
    let nowhere = WidgetTree { nodes: vec![] };
    assert_eq!(state.layout_need(2, available, &nowhere), LayoutNeed::Hidden);
    assert!(state.check_space(2, available, &tree()));
    assert!(!state.check_space(2, Size { width: 400, height: 119 }, &tree()));
}

#[test]
fn layout_overlay_of_a_size_too_large_for_signed_coordinates() {
    let state = three();
    let available = Size { width: 400, height: 300 };
    let huge = Size { width: u32::MAX, height: 10 };
    assert_eq!(
        state.layout_overlay(2, None, huge, available, &tree()),
        rect(200, 155, i32::MAX, 10)
    );
    let anchor = Some(rect(100, 100, 40, 20));
    assert!(state.check_layout(2, anchor, Size { width: 30, height: 10 }, available, &tree()));
    assert_eq!(
        state.layout_overlay(2, anchor, Size { width: 30, height: 10 }, available, &tree()),
        rect(105, 120, 30, 10)
    );
    // To the right of the widget, it would reach past the last coordinate.
    let full = Size { width: u32::MAX, height: u32::MAX };
    assert!(!state.check_layout(2, anchor, full, available, &tree()));
}

#[test]
fn widgets_are_found_in_the_tree() {
    let tree = tree();
    assert!(tree.for_other(WidgetId(2)).is_none());
    assert_eq!(tree.last_layout(WidgetId(1)), Some(rect(100, 100, 40, 20)));
    assert_eq!(tree.last_layout(WidgetId(2)), None);
    let found = tree.for_other(WidgetId(1)).expect("a node");
    assert!(found.is_child_of(WidgetId(0)));
    assert!(!found.is_child_of(WidgetId(1)));
}
