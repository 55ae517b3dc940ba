use widget_layers::geometry::{ConstraintLimit, Point, Rect, Size};
use widget_layers::overlay::{
    OverlayBuilder, OverlayLayer, OverlayPass, OverlayReply, OverlayRequest, OverlayStage,
};
use widget_layers::placement::Direction;
use widget_layers::stack::OverlayLayout;
use widget_layers::widget::{OnceCallback, TreeNode, WidgetId, WidgetRef, WidgetTree};

const BUTTON: WidgetId = WidgetId(1);
const OTHER_BUTTON: WidgetId = WidgetId(2);
const ITEM: WidgetId = WidgetId(20);
const MENU: WidgetId = WidgetId(10);
const SUBMENU: WidgetId = WidgetId(11);
const TOOLTIP: WidgetId = WidgetId(12);

fn rect(x: i32, y: i32, width: i32, height: i32) -> Rect<i32> {
    Rect { origin: Point { x, y }, size: Size { width, height } }
}

fn node(id: WidgetId, child_of: &[WidgetId], last_layout: Option<Rect<i32>>) -> TreeNode {
    TreeNode { id, child_of: child_of.to_vec(), last_layout }
}

/// A tree with a button, another one, and an item of the menu.
fn tree() -> WidgetTree {
    WidgetTree {
        nodes: vec![
            node(BUTTON, &[], Some(rect(100, 100, 40, 20))),
            node(OTHER_BUTTON, &[], Some(rect(300, 200, 40, 20))),
            node(ITEM, &[MENU], Some(rect(90, 120, 60, 10))),
        ],
    }
}

fn fit(width: u32, height: u32) -> Size<ConstraintLimit> {
    Size { width: ConstraintLimit::SizeToFit(width), height: ConstraintLimit::SizeToFit(height) }
}

fn fill(width: u32, height: u32) -> Size<ConstraintLimit> {
    Size { width: ConstraintLimit::Fill(width), height: ConstraintLimit::Fill(height) }
}

fn arrange(widget: WidgetId, layout: Rect<i32>) -> OverlayRequest {
    OverlayRequest::Arrange {
        widget,
        constraints: fill(layout.size.width as u32, layout.size.height as u32),
        layout,
    }
}

fn nothing_more() -> OverlayRequest {
    OverlayRequest::Finished(Size { width: 0, height: 0 })
}

/// What each widget measures.
fn measure(widget: WidgetId) -> Size<u32> {
    match widget {
        MENU => Size { width: 60, height: 30 },
        SUBMENU => Size { width: 20, height: 40 },
        _ => Size { width: 30, height: 10 },
    }
}

/// Lays `layer` out in 400 by 300 and returns everything that it asked for.
fn lay_out(layer: &mut OverlayLayer, tree: &WidgetTree) -> Vec<OverlayRequest> {
    let mut pass = layer.layout(fill(400, 300));
    let mut requests = Vec::new();
    let mut reply = OverlayReply::Done;
    loop {
        assert!(layer.check_advance(&pass, reply, tree));
        let request = layer.advance(&mut pass, reply, tree);
        reply = match &request {
            OverlayRequest::Measure { widget, .. } => OverlayReply::Measured(measure(*widget)),
            _ => OverlayReply::Done,
        };
        let finished = matches!(request, OverlayRequest::Finished(_));
        requests.push(request);
        if finished {
            return requests;
        }
    }
}

fn layout_at(layer: &OverlayLayer, index: usize) -> Option<Rect<i32>> {
    layer.overlay(index).and_then(|overlay| overlay.layout)
}

fn widgets(overlays: &[OverlayLayout]) -> Vec<WidgetId> {
    overlays.iter().map(|overlay| overlay.widget.id()).collect()
}

fn shown(layer: &OverlayLayer) -> Vec<WidgetId> {
    (0..layer.len()).map(|index| layer.overlay(index).map(|o| o.widget.id()).expect("in range")).collect()
}

fn show(builder: OverlayBuilder, layer: &mut OverlayLayer) {
    assert!(layer.check_show());
    builder.show(layer).forget(layer);
}

#[test]
fn builder_starts_to_the_right_of_nothing() {
    let layer = OverlayLayer::default();
    let built = layer.build_overlay(MENU).layout;
    assert_eq!(
        built,
        OverlayLayout {
            widget: WidgetRef::Unmounted(MENU),
            relative_to: None,
            direction: Direction::Right,
            requires_hover: false,
            layout: None,
            on_dismiss: None,
        }
    );
}

#[test]
fn builder_takes_the_last_side() {
    let layer = OverlayLayer::default();
    let build = || layer.build_overlay(MENU);
    let side = |builder: OverlayBuilder| (builder.layout.relative_to, builder.layout.direction);
    assert_eq!(side(build().left_of(BUTTON)), (Some(BUTTON), Direction::Left));
    assert_eq!(side(build().right_of(BUTTON)), (Some(BUTTON), Direction::Right));
    assert_eq!(side(build().above(BUTTON)), (Some(BUTTON), Direction::Up));
    assert_eq!(side(build().below(BUTTON)), (Some(BUTTON), Direction::Down));
    assert_eq!(side(build().below(BUTTON).above(OTHER_BUTTON)), (Some(OTHER_BUTTON), Direction::Up));

    let built = build().left_of(BUTTON).hide_on_unhover().on_dismiss(OnceCallback { key: 7 }).layout;
    assert!(built.requires_hover);
    assert_eq!(built.relative_to, Some(BUTTON));
    assert_eq!(built.drop(), Some(OnceCallback { key: 7 }));
}

#[test]
fn an_overlay_is_mounted_measured_and_arranged() {
    let mut layer = OverlayLayer::default();
    show(layer.build_overlay(TOOLTIP).right_of(BUTTON), &mut layer);
    assert_eq!(layer.redraw(), vec![]);
    assert_eq!(
        lay_out(&mut layer, &tree()),
        vec![
            OverlayRequest::Mount(TOOLTIP),
            OverlayRequest::Dismiss(vec![]),
            OverlayRequest::Measure { widget: TOOLTIP, constraints: fit(260, 20) },
            arrange(TOOLTIP, rect(140, 105, 30, 10)),
            nothing_more(),
        ]
    );
    assert_eq!(layer.redraw(), vec![TOOLTIP]);
}

#[test]
fn an_overlay_stays_where_it_was_laid_out() {
    let mut layer = OverlayLayer::default();
    show(layer.build_overlay(TOOLTIP).right_of(BUTTON), &mut layer);
    lay_out(&mut layer, &tree());
    // The button has moved.
    let moved = WidgetTree { nodes: vec![node(BUTTON, &[], Some(rect(0, 0, 40, 20)))] };
    assert_eq!(
        lay_out(&mut layer, &moved),
        vec![arrange(TOOLTIP, rect(140, 105, 30, 10)), nothing_more()]
    );
}

#[test]
fn an_empty_layer_takes_no_space() {
    let mut layer = OverlayLayer::default();
    assert_eq!(lay_out(&mut layer, &tree()), vec![nothing_more()]);
    assert_eq!(layer.len(), 0);
    assert!(layer.overlay(0).is_none());
    // A finished layout stays finished.
    let mut pass = OverlayPass {
        available: Size { width: 1, height: 1 },
        stage: OverlayStage::Finished,
    };
    assert_eq!(layer.advance(&mut pass, OverlayReply::Done, &tree()), nothing_more());
    assert_eq!(pass.stage, OverlayStage::Finished);
}

#[test]
fn an_overlay_turns_clockwise_where_there_is_no_room() {
    let mut layer = OverlayLayer::default();
    show(layer.build_overlay(TOOLTIP).right_of(BUTTON), &mut layer);
    let edge = WidgetTree { nodes: vec![node(BUTTON, &[], Some(rect(380, 100, 20, 20)))] };
    lay_out(&mut layer, &edge);
    // On the right it would cover the button. Below, it is moved to the left.
    assert_eq!(layout_at(&layer, 0), Some(rect(370, 120, 30, 10)));
}

#[test]
fn an_overlay_with_no_room_is_on_the_last_side() {
    let mut layer = OverlayLayer::default();
    show(layer.build_overlay(TOOLTIP).right_of(BUTTON), &mut layer);
    let full = WidgetTree { nodes: vec![node(BUTTON, &[], Some(rect(0, 0, 400, 300)))] };
    lay_out(&mut layer, &full);
    // Right, down, left and up all cover the button.
    assert_eq!(layout_at(&layer, 0), Some(rect(185, 0, 30, 10)));
}

#[test]
fn an_overlay_avoids_the_widget_at_the_root() {
    let mut layer = OverlayLayer::default();
    show(layer.build_overlay(MENU).below(BUTTON), &mut layer);
    lay_out(&mut layer, &tree());
    assert_eq!(layout_at(&layer, 0), Some(rect(90, 120, 60, 30)));
    show(layer.build_overlay(SUBMENU).above(ITEM), &mut layer);
    lay_out(&mut layer, &tree());
    // Above the item it would cover the button.
    assert_eq!(layout_at(&layer, 1), Some(rect(150, 105, 20, 40)));
}

#[test]
fn an_overlay_avoids_other_overlays() {
    let mut layer = OverlayLayer::default();
    show(layer.build_overlay(MENU).below(BUTTON), &mut layer);
    lay_out(&mut layer, &tree());
    // Below the item it would cover the rest of the menu.
    show(layer.build_overlay(SUBMENU).below(ITEM), &mut layer);
    lay_out(&mut layer, &tree());
    assert_eq!(layout_at(&layer, 1), Some(rect(70, 105, 20, 40)));
}

#[test]
fn an_overlay_of_nothing_is_laid_out_from_the_middle() {
    for (direction, expected) in [
        (Direction::Right, rect(215, 150, 30, 10)),
        (Direction::Left, rect(185, 150, 30, 10)),
        (Direction::Up, rect(200, 145, 30, 10)),
        (Direction::Down, rect(200, 155, 30, 10)),
    ] {
        let mut layer = OverlayLayer::default();
        let mut builder = layer.build_overlay(TOOLTIP);
        builder.layout.direction = direction;
        show(builder, &mut layer);
        let requests = lay_out(&mut layer, &tree());
        assert_eq!(
            requests[2],
            OverlayRequest::Measure { widget: TOOLTIP, constraints: fit(400, 300) }
        );
        assert_eq!(layout_at(&layer, 0), Some(expected));
    }
}

#[test]
fn an_overlay_of_an_unknown_widget_is_passed_over() {
    let mut layer = OverlayLayer::default();
    show(layer.build_overlay(TOOLTIP).right_of(WidgetId(99)), &mut layer);
    assert_eq!(
        lay_out(&mut layer, &tree()),
        vec![OverlayRequest::Mount(TOOLTIP), OverlayRequest::Dismiss(vec![]), nothing_more()]
    );
    assert_eq!(layout_at(&layer, 0), None);
    // It is still there, and is laid out once the widget is known.
    let mut known = tree();
    known.nodes.push(node(WidgetId(99), &[], Some(rect(0, 0, 10, 10))));
    lay_out(&mut layer, &known);
    assert_eq!(layout_at(&layer, 0), Some(rect(10, 0, 30, 10)));
}

#[test]
fn an_unrelated_overlay_takes_the_place_of_the_others() {
    let mut layer = OverlayLayer::default();
    let menu = layer.build_overlay(MENU).below(BUTTON).on_dismiss(OnceCallback { key: 1 });
    show(menu, &mut layer);
    lay_out(&mut layer, &tree());
    let submenu = layer.build_overlay(SUBMENU).right_of(ITEM).on_dismiss(OnceCallback { key: 2 });
    show(submenu, &mut layer);
    lay_out(&mut layer, &tree());
    show(layer.build_overlay(TOOLTIP).below(OTHER_BUTTON), &mut layer);

    let mut requests = lay_out(&mut layer, &tree());
    assert_eq!(requests[0], OverlayRequest::Mount(TOOLTIP));
    let mut callbacks = Vec::new();
    if let OverlayRequest::Dismiss(dismissed) = requests.remove(1) {
        for overlay in dismissed {
            callbacks.push(overlay.drop());
        }
    }
    // The topmost goes first.
    assert_eq!(callbacks, vec![Some(OnceCallback { key: 2 }), Some(OnceCallback { key: 1 })]);
    assert_eq!(shown(&layer), vec![TOOLTIP]);
}

#[test]
fn an_overlay_of_an_overlay_takes_the_place_of_those_between() {
    let mut layer = OverlayLayer::default();
    show(layer.build_overlay(MENU).below(BUTTON), &mut layer);
    lay_out(&mut layer, &tree());
    show(layer.build_overlay(SUBMENU).right_of(ITEM), &mut layer);
    assert_eq!(lay_out(&mut layer, &tree())[1], OverlayRequest::Dismiss(vec![]));
    assert_eq!(shown(&layer), vec![MENU, SUBMENU]);

    show(layer.build_overlay(TOOLTIP).right_of(ITEM), &mut layer);
    let requests = lay_out(&mut layer, &tree());
    assert!(matches!(&requests[1], OverlayRequest::Dismiss(gone) if widgets(gone) == vec![SUBMENU]));
    assert_eq!(shown(&layer), vec![MENU, TOOLTIP]);
}

#[test]
fn overlays_shown_together_are_admitted_in_order() {
    let mut layer = OverlayLayer::default();
    show(layer.build_overlay(MENU).below(BUTTON), &mut layer);
    show(layer.build_overlay(SUBMENU).right_of(ITEM), &mut layer);
    let requests = lay_out(&mut layer, &tree());
    assert_eq!(
        requests[..4],
        [
            OverlayRequest::Mount(MENU),
            OverlayRequest::Dismiss(vec![]),
            OverlayRequest::Mount(SUBMENU),
            OverlayRequest::Dismiss(vec![]),
        ]
    );
    assert_eq!(layer.redraw(), vec![MENU, SUBMENU]);
}

#[test]
fn dismissing_takes_the_overlays_above() {
    let mut layer = OverlayLayer::default();
    let menu = layer.build_overlay(MENU).below(BUTTON).show(&mut layer);
    lay_out(&mut layer, &tree());
    let submenu = layer.build_overlay(SUBMENU).right_of(ITEM).show(&mut layer);
    lay_out(&mut layer, &tree());
    assert_eq!(widgets(&menu.dismiss(&mut layer)), vec![SUBMENU, MENU]);
    assert_eq!(layer.len(), 0);
    // The overlay that went with it cannot be dismissed again.
    assert_eq!(submenu.dismiss(&mut layer), vec![]);
    assert_eq!(lay_out(&mut layer, &tree()), vec![nothing_more()]);
}

#[test]
fn dismissing_undoes_what_was_shown_since() {
    let mut layer = OverlayLayer::default();
    show(layer.build_overlay(MENU).below(BUTTON), &mut layer);
    let submenu = layer.build_overlay(SUBMENU).right_of(ITEM).show(&mut layer);
    show(layer.build_overlay(TOOLTIP).right_of(ITEM), &mut layer);
    show(layer.build_overlay(WidgetId(13)), &mut layer);
    assert_eq!(widgets(&submenu.dismiss(&mut layer)), vec![WidgetId(13), TOOLTIP, SUBMENU]);
    assert_eq!(shown(&layer), vec![MENU]);
}

#[test]
fn a_finished_layout_is_complete() {
    let mut layer = OverlayLayer::default();
    show(layer.build_overlay(MENU), &mut layer);
    lay_out(&mut layer, &tree());
    show(layer.build_overlay(SUBMENU).right_of(ITEM), &mut layer);
    lay_out(&mut layer, &tree());
    assert!(layout_at(&layer, 0).is_some());
    assert!(layout_at(&layer, 1).is_some());
    // Laid out again in less space, both are asked to be where they were.
    let (first, second) = (layout_at(&layer, 0), layout_at(&layer, 1));
    let mut pass = layer.layout(fill(10, 10));
    let mut requests = Vec::new();
    for _ in 0..3 {
        requests.push(layer.advance(&mut pass, OverlayReply::Done, &tree()));
    }
    assert_eq!(
        requests,
        vec![
            arrange(MENU, first.expect("a layout")),
            arrange(SUBMENU, second.expect("a layout")),
            nothing_more(),
        ]
    );
}

#[test]
fn dismissing_leaves_the_overlays_below() {
    let mut layer = OverlayLayer::default();
    let menu = layer.build_overlay(MENU).below(BUTTON).show(&mut layer);
    lay_out(&mut layer, &tree());
    let submenu = layer.build_overlay(SUBMENU).right_of(ITEM).show(&mut layer);
    lay_out(&mut layer, &tree());
    assert_eq!(widgets(&submenu.drop(&mut layer)), vec![SUBMENU]);
    assert_eq!(shown(&layer), vec![MENU]);
    assert_eq!(layout_at(&layer, 0), Some(rect(90, 120, 60, 30)));
    menu.forget(&mut layer);
    assert_eq!(shown(&layer), vec![MENU]);
}

#[test]
fn a_layout_cannot_begin_with_a_new_overlay_gone() {
    let mut layer = OverlayLayer::default();
    let menu = layer.build_overlay(MENU).below(BUTTON).show(&mut layer);
    assert_eq!(widgets(&menu.dismiss(&mut layer)), vec![MENU]);
    assert_eq!(layer.len(), 0);
    let pass = layer.layout(fill(400, 300));
    assert!(!layer.check_advance(&pass, OverlayReply::Done, &tree()));
}

#[test]
fn a_layout_goes_on_only_with_a_reply_that_fits() {
    let mut layer = OverlayLayer::default();
    show(layer.build_overlay(MENU).below(BUTTON), &mut layer);
    let measured = OverlayReply::Measured(Size { width: 1, height: 1 });
    let mut pass = layer.layout(fill(400, 300));
    assert_eq!(pass.available, Size { width: 400, height: 300 });
    assert!(!layer.check_advance(&pass, measured, &tree()));
    layer.advance(&mut pass, OverlayReply::Done, &tree());
    layer.advance(&mut pass, OverlayReply::Done, &tree());
    layer.advance(&mut pass, OverlayReply::Done, &tree());
    assert!(matches!(pass.stage, OverlayStage::Measuring(0, Some(_))));
    assert!(!layer.check_advance(&pass, OverlayReply::Done, &tree()));
    assert!(layer.check_advance(&pass, measured, &tree()));
}

#[test]
fn a_layout_cannot_go_on_below_the_available_space() {
    let mut layer = OverlayLayer::default();
    show(layer.build_overlay(MENU).below(BUTTON), &mut layer);
    let tree = WidgetTree { nodes: vec![node(BUTTON, &[], Some(rect(0, 290, 40, 20)))] };
    let mut pass = layer.layout(fill(400, 300));
    layer.advance(&mut pass, OverlayReply::Done, &tree);
    layer.advance(&mut pass, OverlayReply::Done, &tree);
    assert!(!layer.check_advance(&pass, OverlayReply::Done, &tree));
}

#[test]
fn a_layout_cannot_go_on_past_the_last_coordinate() {
    let mut layer = OverlayLayer::default();
    show(layer.build_overlay(MENU).right_of(BUTTON), &mut layer);
    let tree = WidgetTree { nodes: vec![node(BUTTON, &[], Some(rect(i32::MAX - 40, 0, 40, 20)))] };
    let mut pass = layer.layout(fill(400, 300));
    for _ in 0..3 {
        layer.advance(&mut pass, OverlayReply::Done, &tree);
    }
    let measured = OverlayReply::Measured(Size { width: 1, height: 1 });
    assert!(!layer.check_advance(&pass, measured, &tree));
}

/// A layer with a menu and a submenu that hide when they are no longer hovered.
/// The menu is at (90, 120) and 60 by 30, the submenu at (150, 105) and 20 by 40.
fn hovered_layer() -> OverlayLayer {
    let mut layer = OverlayLayer::default();
    show(layer.build_overlay(MENU).below(BUTTON).hide_on_unhover(), &mut layer);
    lay_out(&mut layer, &tree());
    show(layer.build_overlay(SUBMENU).right_of(ITEM).hide_on_unhover(), &mut layer);
    lay_out(&mut layer, &tree());
    assert_eq!(layout_at(&layer, 1), Some(rect(150, 105, 20, 40)));
    layer
}

const ON_BUTTON: Point<i32> = Point { x: 110, y: 110 };
const ON_MENU: Point<i32> = Point { x: 90, y: 149 };
const ON_SUBMENU: Point<i32> = Point { x: 169, y: 105 };
const ELSEWHERE: Point<i32> = Point { x: 0, y: 0 };

#[test]
fn hit_test_finds_the_overlays_and_the_widget_at_the_root() {
    let layer = hovered_layer();
    assert!(layer.check_point(ON_MENU, &tree()));
    assert!(layer.hit_test(ON_MENU, &tree()));
    assert!(layer.hit_test(ON_SUBMENU, &tree()));
    assert!(layer.hit_test(ON_BUTTON, &tree()));
    assert!(!layer.hit_test(ELSEWHERE, &tree()));
    // The right and bottom edges of the submenu are not part of it.
    assert!(!layer.hit_test(Point { x: 170, y: 105 }, &tree()));
    assert!(!layer.hit_test(Point { x: 169, y: 145 }, &tree()));
    assert!(layer.hit_test(Point { x: 169, y: 144 }, &tree()));
    assert!(!OverlayLayer::default().hit_test(ON_BUTTON, &tree()));
}

#[test]
fn moving_off_all_overlays_dismisses_them() {
    let mut layer = hovered_layer();
    assert_eq!(layer.hover(ON_SUBMENU, &tree()), vec![]);
    assert_eq!(widgets(&layer.hover(ELSEWHERE, &tree())), vec![SUBMENU, MENU]);
    assert_eq!(layer.len(), 0);
}

#[test]
fn moving_down_a_level_dismisses_what_is_above() {
    let mut layer = hovered_layer();
    assert_eq!(layer.hover(ON_SUBMENU, &tree()), vec![]);
    assert_eq!(widgets(&layer.hover(ON_MENU, &tree())), vec![SUBMENU]);
    assert_eq!(shown(&layer), vec![MENU]);
}

#[test]
fn moving_up_a_level_dismisses_nothing() {
    let mut layer = hovered_layer();
    assert_eq!(layer.hover(ON_MENU, &tree()), vec![]);
    assert_eq!(layer.hover(ON_SUBMENU, &tree()), vec![]);
    assert_eq!(layer.len(), 2);
}

#[test]
fn moving_onto_the_widget_at_the_root_dismisses_nothing() {
    let mut layer = hovered_layer();
    assert_eq!(layer.hover(ON_SUBMENU, &tree()), vec![]);
    assert_eq!(layer.hover(ON_BUTTON, &tree()), vec![]);
    assert_eq!(layer.len(), 2);
    // From there, nothing is left that the cursor could move off.
    assert_eq!(layer.hover(ELSEWHERE, &tree()), vec![]);
    assert_eq!(layer.len(), 2);
}

#[test]
fn leaving_the_layer_hides_the_overlays_that_ask_for_it() {
    let mut layer = OverlayLayer::default();
    show(layer.build_overlay(MENU).below(BUTTON), &mut layer);
    lay_out(&mut layer, &tree());
    show(layer.build_overlay(SUBMENU).right_of(ITEM).hide_on_unhover(), &mut layer);
    lay_out(&mut layer, &tree());
    assert_eq!(widgets(&layer.unhover()), vec![SUBMENU]);
    assert_eq!(shown(&layer), vec![MENU]);
    assert_eq!(layer.unhover(), vec![]);
    assert_eq!(shown(&layer), vec![MENU]);
}

#[test]
fn leaving_the_layer_takes_new_overlays_too() {
    let mut layer = OverlayLayer::default();
    show(layer.build_overlay(MENU).below(BUTTON).hide_on_unhover(), &mut layer);
    assert_eq!(widgets(&layer.unhover()), vec![MENU]);
    // The overlay is no longer counted as new.
    assert_eq!(lay_out(&mut layer, &tree()), vec![nothing_more()]);
}

#[test]
fn an_overlay_without_a_layout_holds_the_cursor() {
    let mut layer = OverlayLayer::default();
    show(layer.build_overlay(MENU).below(BUTTON).hide_on_unhover(), &mut layer);
    assert!(layer.hit_test(ELSEWHERE, &tree()));
    assert_eq!(layer.hover(ELSEWHERE, &tree()), vec![]);
}

#[test]
fn a_point_cannot_be_tested_past_the_last_coordinate() {
    let mut layer = OverlayLayer::default();
    show(layer.build_overlay(MENU).below(BUTTON), &mut layer);
    let far = WidgetTree { nodes: vec![node(BUTTON, &[], Some(rect(i32::MAX, 0, 1, 1)))] };
    assert!(!layer.check_point(ELSEWHERE, &far));
    assert!(layer.check_point(ELSEWHERE, &tree()));
}
