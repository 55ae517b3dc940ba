use widget_layers::geometry::{ConstraintLimit, Point, Rect, Size};
use widget_layers::layers::{ChildChange, Children, Layers, LayersRequest, RootStep};
use widget_layers::value::{Dynamic, Generation, Value};
use widget_layers::widget::WidgetId;

fn ids(numbers: &[u64]) -> Vec<WidgetId> {
    numbers.iter().map(|number| WidgetId(*number)).collect()
}

fn children(numbers: &[u64]) -> Children {
    Children { widgets: ids(numbers) }
}

fn dynamic(numbers: &[u64], generation: usize) -> Value<Children> {
    Value::Dynamic(Dynamic { value: children(numbers), generation: Generation(generation) })
}

fn push(number: u64) -> ChildChange {
    ChildChange::Push(WidgetId(number))
}

fn remove(number: u64) -> ChildChange {
    ChildChange::Remove(WidgetId(number))
}

fn limits(width: u32, height: u32) -> Size<ConstraintLimit> {
    Size { width: ConstraintLimit::SizeToFit(width), height: ConstraintLimit::Fill(height) }
}

#[test]
fn new_layers_have_nothing_mounted() {
    let layers = Layers::new(children(&[1, 2]));
    assert!(matches!(layers.children, Value::Constant(_)));
    assert_eq!(layers.children.get().widgets, ids(&[1, 2]));
    assert!(layers.mounted.is_empty());
    assert_eq!(layers.mounted_generation, None);
}

#[test]
fn constant_children_are_mounted_once() {
    let mut layers = Layers::new(children(&[1, 2, 3]));
    assert_eq!(layers.synchronize_children(), vec![push(1), push(2), push(3)]);
    assert_eq!(layers.mounted, ids(&[1, 2, 3]));
    assert_eq!(layers.mounted_generation, None);
    assert_eq!(layers.synchronize_children(), vec![]);
}

#[test]
fn dynamic_children_are_followed_by_generation() {
    let mut layers = Layers::new(dynamic(&[1, 2], 0));
    assert_eq!(layers.synchronize_children(), vec![push(1), push(2)]);
    assert_eq!(layers.mounted_generation, Some(Generation(0)));

    // As many children, but another generation.
    layers.children = dynamic(&[3, 1], 1);
    assert_eq!(layers.synchronize_children(), vec![push(3), remove(2)]);
    assert_eq!(layers.mounted, ids(&[3, 1]));
    assert_eq!(layers.mounted_generation, Some(Generation(1)));

    // The same generation is not looked at again.
    assert_eq!(layers.synchronize_children(), vec![]);
}

#[test]
fn reordered_children_are_neither_pushed_nor_removed() {
    let mut layers = Layers::new(dynamic(&[1, 2, 3, 4], 0));
    layers.synchronize_children();
    layers.children = dynamic(&[4, 3, 1, 2], 1);
    assert_eq!(layers.synchronize_children(), vec![]);
    assert_eq!(layers.mounted, ids(&[4, 3, 1, 2]));
}

#[test]
fn left_over_children_are_removed_in_the_order_swapping_leaves_them_in() {
    let mut layers = Layers::new(dynamic(&[1, 2, 3, 4], 0));
    layers.synchronize_children();
    // 4 is swapped with 1: 2, 3 and 1 are left.
    layers.children = dynamic(&[4], 1);
    assert_eq!(layers.synchronize_children(), vec![remove(2), remove(3), remove(1)]);
    assert_eq!(layers.mounted, ids(&[4]));
}

#[test]
fn repeated_children_are_counted() {
    let mut layers = Layers::new(dynamic(&[1, 1], 0));
    assert_eq!(layers.synchronize_children(), vec![push(1), push(1)]);
    layers.children = dynamic(&[1, 2, 1, 1], 1);
    assert_eq!(layers.synchronize_children(), vec![push(2), push(1)]);
    layers.children = dynamic(&[1], 2);
    assert_eq!(layers.synchronize_children(), vec![remove(2), remove(1), remove(1)]);
}

#[test]
fn unmounting_removes_everything_and_starts_over() {
    let mut layers = Layers::new(dynamic(&[1, 2], 7));
    assert_eq!(layers.mounted(), vec![push(1), push(2)]);
    assert_eq!(layers.unmounted(), vec![remove(1), remove(2)]);
    assert!(layers.mounted.is_empty());
    assert_eq!(layers.mounted_generation, None);
    assert_eq!(layers.mounted(), vec![push(1), push(2)]);
}

#[test]
fn redraw_synchronizes_first() {
    let mut layers = Layers::new(children(&[5, 6]));
    let (changes, order) = layers.redraw();
    assert_eq!(changes, vec![push(5), push(6)]);
    assert_eq!(order, ids(&[5, 6]));
}

#[test]
fn layout_fills_the_largest_of_the_children() {
    let mut layers = Layers::new(children(&[1, 2]));
    let available = limits(400, 300);
    let (changes, mut pass) = layers.layout(available);
    assert_eq!(changes, vec![push(1), push(2)]);

    assert_eq!(
        pass.request(),
        LayersRequest::Measure { child: WidgetId(1), constraints: available }
    );
    pass.measured(Size { width: 30, height: 80 });
    assert_eq!(
        pass.request(),
        LayersRequest::Measure { child: WidgetId(2), constraints: available }
    );
    pass.measured(Size { width: 50, height: 20 });

    // Each dimension is the larger of the two, not either of the sizes.
    assert_eq!(
        pass.request(),
        LayersRequest::Fit {
            available_space: available,
            measured: Size { width: 50, height: 80 },
        }
    );
    pass.fitted(Size { width: 50, height: 300 });

    let fill = Size { width: ConstraintLimit::Fill(50), height: ConstraintLimit::Fill(300) };
    let area = Rect { origin: Point { x: 0, y: 0 }, size: Size { width: 50, height: 300 } };
    assert_eq!(
        pass.request(),
        LayersRequest::Arrange { child: WidgetId(1), constraints: fill, layout: area }
    );
    pass.arranged();
    assert_eq!(
        pass.request(),
        LayersRequest::Arrange { child: WidgetId(2), constraints: fill, layout: area }
    );
    pass.arranged();
    assert_eq!(pass.request(), LayersRequest::Finished(Size { width: 50, height: 300 }));
}

#[test]
fn layout_of_no_children_measures_nothing() {
    let mut layers = Layers::new(children(&[]));
    let (changes, pass) = layers.layout(limits(10, 10));
    assert_eq!(changes, vec![]);
    assert_eq!(
        pass.request(),
        LayersRequest::Fit {
            available_space: limits(10, 10),
            measured: Size { width: 0, height: 0 },
        }
    );
}

#[test]
fn an_area_too_large_for_signed_coordinates_is_cut() {
    let mut layers = Layers::new(children(&[1]));
    let (_, mut pass) = layers.layout(limits(u32::MAX, u32::MAX));
    pass.measured(Size { width: 1, height: 1 });
    pass.fitted(Size { width: u32::MAX, height: 8 });
    assert_eq!(
        pass.request(),
        LayersRequest::Arrange {
            child: WidgetId(1),
            constraints: Size {
                width: ConstraintLimit::Fill(u32::MAX),
                height: ConstraintLimit::Fill(8),
            },
            layout: Rect {
                origin: Point { x: 0, y: 0 },
                size: Size { width: i32::MAX, height: 8 },
            },
        }
    );
}

#[test]
fn the_first_layer_with_a_root_behavior_decides() {
    let mut layers = Layers::new(children(&[1, 2, 3]));
    let (changes, mut search) = layers.root_behavior();
    assert_eq!(changes, vec![push(1), push(2), push(3)]);
    assert_eq!(search.next::<u8>(None), RootStep::Ask(WidgetId(1)));
    assert_eq!(search.next::<u8>(None), RootStep::Ask(WidgetId(2)));
    assert_eq!(search.next(Some(9u8)), RootStep::Found(Some(9)));
}

#[test]
fn no_layer_may_have_a_root_behavior() {
    let mut layers = Layers::new(children(&[1]));
    let (_, mut search) = layers.root_behavior();
    assert_eq!(search.next::<u8>(None), RootStep::Ask(WidgetId(1)));
    assert_eq!(search.next::<u8>(None), RootStep::Found(None));
    assert_eq!(search.asked, 1);
}
