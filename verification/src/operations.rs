//! What each operation of an overlay layer does, said of the overlays one by one.
use crate::arrange::{unanchored, LayoutNeed};
use crate::geometry::{ConstraintLimit, Point, Rect, Size};
use crate::laws::{lemma_first_holding, lemma_first_requiring};
use crate::overlay::{
    filling, mounted_widgets, OverlayAsk, OverlayPass, OverlayReply, OverlayStage,
};
use crate::placement::{beside_fits, placed, space_beside, space_exists, Direction};
use crate::stack::{lots_limit, OverlayLayout};
use crate::state::{can_look, holds_cursor, kept_below, OverlayStack};
use crate::widget::{WidgetId, WidgetRef, WidgetTree};
use alot::LotId;
use vstd::prelude::*;

verus! {

/// The widget at the root is the one that the lowest overlay is relative to, and
/// where it is known to be is where the tree has it.
pub proof fn law_root_is_below_the_lowest_overlay(
    stack: OverlayStack,
    location: Point<i32>,
    tree: WidgetTree,
)
    ensures
        stack.overlays.len() == 0 ==> stack.root_layout(tree) is None,
        stack.overlays.len() > 0 ==> stack.root_layout(tree) == match stack.overlays[0].relative_to {
            Some(root) => tree.layout_of(root),
            None => None,
        },
        stack.outside_root(location, tree) <==> {
            &&& stack.root_layout(tree) matches Some(root)
            &&& !root.encloses(location)
        },
{
}

/// An overlay holds the cursor if it asks to be hovered, unless it has been laid
/// out where the cursor is not.
pub proof fn law_holds_the_cursor_when_asked_to(overlay: OverlayLayout, location: Point<i32>)
    ensures
        !overlay.requires_hover ==> !holds_cursor(overlay, location),
        overlay.requires_hover && overlay.layout is None ==> holds_cursor(overlay, location),
        overlay.requires_hover && overlay.layout is Some ==> (holds_cursor(overlay, location)
            <==> overlay.layout->0.encloses(location)),
{
}

/// What the cursor is over is the lowest overlay that holds it. If none does, and
/// that is asked for, it is the surroundings of the widget at the root, if the
/// cursor is outside of that; else it is over nothing.
pub proof fn law_cursor_is_over_the_lowest_that_holds_it(
    stack: OverlayStack,
    location: Point<i32>,
    check_original_relative: bool,
    tree: WidgetTree,
)
    ensures
        match stack.tested(location, check_original_relative, tree) {
            Some(found) => if found > 0 {
                &&& found <= stack.overlays.len()
                &&& holds_cursor(stack.overlays[found - 1], location)
                &&& forall|i: int|
                    0 <= i < found - 1 ==> !holds_cursor(#[trigger] stack.overlays[i], location)
            } else {
                &&& check_original_relative
                &&& stack.outside_root(location, tree)
                &&& forall|i: int|
                    0 <= i < stack.overlays.len() ==> !holds_cursor(
                        #[trigger] stack.overlays[i],
                        location,
                    )
            },
            None => {
                &&& !(check_original_relative && stack.outside_root(location, tree))
                &&& forall|i: int|
                    0 <= i < stack.overlays.len() ==> !holds_cursor(
                        #[trigger] stack.overlays[i],
                        location,
                    )
            },
        },
{
    lemma_first_holding(stack.overlays, location, 0);
}

/// What the cursor is over can be told exactly if the layouts fit that have to be
/// looked at: those of the overlays that ask to be hovered, up to the one that holds
/// the cursor, and, if none does, that of the widget at the root.
pub proof fn law_cursor_can_be_placed(
    stack: OverlayStack,
    location: Point<i32>,
    check_original_relative: bool,
    tree: WidgetTree,
)
    ensures
        stack.can_test(location, check_original_relative, tree) <==> {
            &&& forall|i: int|
                {
                    &&& 0 <= i < stack.overlays.len()
                    &&& (#[trigger] stack.overlays[i]).requires_hover
                    &&& stack.overlays[i].layout is Some
                    &&& forall|j: int|
                        0 <= j < i ==> !holds_cursor(#[trigger] stack.overlays[j], location)
                } ==> stack.overlays[i].layout->0.fits()
            &&& check_original_relative && stack.root_layout(tree) is Some && (forall|j: int|
                0 <= j < stack.overlays.len() ==> !holds_cursor(
                    #[trigger] stack.overlays[j],
                    location,
                )) ==> stack.root_layout(tree)->0.fits()
        },
{
    lemma_first_holding(stack.overlays, location, 0);
    lemma_can_look(stack.overlays, location, 0);
    if can_look(stack.overlays, location, 0) {
        assert forall|i: int|
            {
                &&& 0 <= i < stack.overlays.len()
                &&& (#[trigger] stack.overlays[i]).requires_hover
                &&& stack.overlays[i].layout is Some
                &&& forall|j: int|
                    0 <= j < i ==> !holds_cursor(#[trigger] stack.overlays[j], location)
            } implies stack.overlays[i].layout->0.fits() by {
            lemma_looked_at(stack.overlays, location, 0, i);
        }
    }
}

/// Moving the cursor takes note of what it is over. If that is below what it was
/// over before, exactly as many overlays are left as lie below it or are it, and the
/// others are handed back, the topmost first. Else nothing else changes.
pub proof fn law_moving_down_leaves_what_is_below(stack: OverlayStack, found: Option<nat>)
    requires
        found matches Some(found) ==> found <= stack.overlays.len(),
    ensures
        stack.hovered(found).hovering == found,
        match (stack.hovering, found) {
            (Some(before), Some(now)) if now < before => {
                let gone = stack.overlays.len() - now;
                &&& stack.hovered(found).overlays == stack.overlays.take(now as int)
                &&& stack.hovered(found).ids == stack.ids.take(now as int)
                &&& stack.hovered_off(found) == stack.overlays.skip(now as int).reverse()
                &&& stack.new_overlays >= gone ==> stack.hovered(found).new_overlays + gone
                    == stack.new_overlays
                &&& stack.new_overlays < gone ==> stack.hovered(found).new_overlays == 0
            },
            _ => {
                &&& stack.hovered(found).overlays == stack.overlays
                &&& stack.hovered(found).ids == stack.ids
                &&& stack.hovered(found).new_overlays == stack.new_overlays
                &&& stack.hovered_off(found) == Seq::<OverlayLayout>::empty()
            },
        },
{
}

/// When the cursor moves onto an overlay from one above it, however far above, that
/// overlay and those below it are left, and all others are handed back, the topmost
/// first. When it moves there from that overlay or from below, all stay.
pub proof fn law_moving_onto_an_overlay(
    stack: OverlayStack,
    location: Point<i32>,
    tree: WidgetTree,
    first: int,
)
    requires
        0 <= first < stack.overlays.len(),
        holds_cursor(stack.overlays[first], location),
        forall|i: int| 0 <= i < first ==> !holds_cursor(#[trigger] stack.overlays[i], location),
    ensures
        ({
            let found = stack.tested(location, true, tree);
            let above = stack.hovering matches Some(hovering) && hovering > first + 1;
            &&& above ==> stack.hovered(found).overlays == stack.overlays.take(first + 1)
            &&& above ==> stack.hovered_off(found) == stack.overlays.skip(first + 1).reverse()
            &&& !above ==> stack.hovered(found).overlays == stack.overlays
            &&& !above ==> stack.hovered_off(found) == Seq::<OverlayLayout>::empty()
        }),
{
    lemma_first_holding(stack.overlays, location, 0);
}

/// When the cursor leaves the layer, the lowest overlay that asks to be hovered and
/// all above it are handed back, the topmost first, and exactly those below it are
/// left. If there is none, all stay.
pub proof fn law_leaving_takes_from_the_lowest_hovered_one(stack: OverlayStack, first: int)
    requires
        0 <= first <= stack.overlays.len(),
        first < stack.overlays.len() ==> stack.overlays[first].requires_hover,
        forall|i: int| 0 <= i < first ==> !(#[trigger] stack.overlays[i]).requires_hover,
    ensures
        stack.unhovered().hovering is None,
        stack.unhovered().overlays == stack.overlays.take(first),
        stack.unhovered_off() == stack.overlays.skip(first).reverse(),
        first < stack.overlays.len() ==> stack.unhovered().ids == stack.ids.take(first),
        first == stack.overlays.len() ==> stack.unhovered().ids == stack.ids,
        ({
            let gone = stack.overlays.len() - first;
            &&& stack.new_overlays >= gone ==> stack.unhovered().new_overlays + gone
                == stack.new_overlays
            &&& stack.new_overlays < gone ==> stack.unhovered().new_overlays == 0
        }),
{
    lemma_first_requiring(stack.overlays, 0);
    if first == stack.overlays.len() {
        assert(stack.overlays.take(first) =~= stack.overlays);
        assert(stack.overlays.skip(first).reverse() =~= Seq::<OverlayLayout>::empty());
    }
}

/// Removing the overlays from a position on leaves those below it, hands back the
/// others, the topmost first, and counts those that were new as no longer there.
pub proof fn law_removing_leaves_what_is_below(stack: OverlayStack, start: nat)
    requires
        start <= stack.overlays.len(),
    ensures
        stack.cut(start).overlays == stack.overlays.take(start as int),
        stack.cut(start).ids == stack.ids.take(start as int),
        stack.cut(start).hovering == stack.hovering,
        stack.cut_off(start) == stack.overlays.skip(start as int).reverse(),
        ({
            let gone = stack.overlays.len() - start;
            &&& stack.new_overlays >= gone ==> stack.cut(start).new_overlays + gone
                == stack.new_overlays
            &&& stack.new_overlays < gone ==> stack.cut(start).new_overlays == 0
        }),
{
}

/// Showing an overlay puts it on top, as a new one, and changes none of the others.
pub proof fn law_showing_puts_on_top(stack: OverlayStack, overlay: OverlayLayout, id: LotId)
    ensures
        ({
            let after = stack.shown(overlay, id);
            &&& after.overlays.len() == stack.overlays.len() + 1
            &&& after.overlays.last() == overlay
            &&& after.overlays.drop_last() == stack.overlays
            &&& after.ids.len() == stack.ids.len() + 1
            &&& after.ids.last() == id
            &&& after.ids.drop_last() == stack.ids
            &&& after.new_overlays == stack.new_overlays + 1
            &&& after.hovering == stack.hovering
        }),
{
}

/// Dismissing an overlay leaves exactly those below it, and hands back it and those
/// above it, the topmost first. How many are new and what is hovered is not touched.
/// Without such an overlay, nothing happens.
pub proof fn law_dismissing_leaves_what_is_below(stack: OverlayStack, id: LotId, at: int)
    requires
        stack.wf(),
    ensures
        stack.dismissed(id).new_overlays == stack.new_overlays,
        stack.dismissed(id).hovering == stack.hovering,
        0 <= at < stack.ids.len() && stack.ids[at] == id ==> {
            &&& stack.dismissed(id).overlays == stack.overlays.take(at)
            &&& stack.dismissed(id).ids == stack.ids.take(at)
            &&& stack.dismissed_off(id) == stack.overlays.skip(at).reverse()
        },
        !stack.ids.contains(id) ==> {
            &&& stack.dismissed(id) == stack
            &&& stack.dismissed_off(id) == Seq::<OverlayLayout>::empty()
        },
{
    if 0 <= at < stack.ids.len() && stack.ids[at] == id {
        assert(stack.ids.contains(id));
        assert(stack.ids.index_of(id) == at);
    }
}

/// Mounting the widget of an overlay, or laying it out, changes just that of just
/// that overlay.
pub proof fn law_one_overlay_changes(
    stack: OverlayStack,
    index: int,
    layout: Rect<i32>,
    other: int,
)
    requires
        0 <= index < stack.overlays.len(),
        0 <= other < stack.overlays.len(),
    ensures
        ({
            let before = stack.overlays[index];
            let mounted = stack.with_mounted(index);
            let placed = stack.with_layout(index, layout);
            &&& mounted.overlays.len() == stack.overlays.len()
            &&& placed.overlays.len() == stack.overlays.len()
            &&& other != index ==> mounted.overlays[other] == stack.overlays[other]
            &&& other != index ==> placed.overlays[other] == stack.overlays[other]
            &&& mounted.ids == stack.ids && placed.ids == stack.ids
            &&& mounted.new_overlays == stack.new_overlays && placed.new_overlays
                == stack.new_overlays
            &&& mounted.hovering == stack.hovering && placed.hovering == stack.hovering
            &&& mounted.overlays[index] == (OverlayLayout {
                widget: WidgetRef::Mounted(before.widget.spec_id()),
                ..before
            })
            &&& placed.overlays[index] == (OverlayLayout { layout: Some(layout), ..before })
        }),
{
}

/// A new overlay stays on top of the topmost overlay that the widget it is relative
/// to is a child of, whichever that is, and that one and all below it are kept. An
/// overlay whose widget is a child of none, or that is relative to none, keeps none.
pub proof fn law_kept_up_to_the_topmost_parent(stack: OverlayStack, tree: WidgetTree, i: int)
    requires
        0 < stack.new_overlays <= stack.overlays.len(),
        0 <= i < stack.new_index(),
    ensures
        stack.kept(tree) <= stack.new_index(),
        match stack.overlays[stack.new_index() as int].relative_to {
            Some(relative_to) => {
                &&& tree.is_child(relative_to, stack.overlays[i].widget.spec_id())
                    ==> stack.kept(tree) > i
                &&& stack.kept(tree) > 0 ==> tree.is_child(
                    relative_to,
                    stack.overlays[stack.kept(tree) - 1].widget.spec_id(),
                )
            },
            None => stack.kept(tree) == 0,
        },
{
    if let Some(relative_to) = stack.overlays[stack.new_index() as int].relative_to {
        lemma_kept_below(stack.overlays, stack.new_index(), relative_to, tree, i);
    }
}

/// Admitting the lowest new overlay takes away the overlays between those that are
/// kept and it, and hands them back, the topmost first. All others stay as they are
/// and in their order, and one overlay fewer is new.
pub proof fn law_admission_takes_those_between(stack: OverlayStack, tree: WidgetTree, i: int)
    requires
        stack.wf(),
        0 < stack.new_overlays <= stack.overlays.len(),
        0 <= i < stack.overlays.len(),
    ensures
        ({
            let after = stack.admitted(tree);
            let kept = stack.kept(tree);
            let new_index = stack.overlays.len() - stack.new_overlays;
            let gone = new_index - kept;
            &&& stack.new_index() == new_index
            &&& after.overlays.len() + gone == stack.overlays.len()
            &&& after.ids.len() == after.overlays.len()
            &&& stack.displaced(tree).len() == gone
            &&& after.new_overlays + 1 == stack.new_overlays
            &&& after.hovering == stack.hovering
            &&& i < kept ==> after.overlays[i] == stack.overlays[i] && after.ids[i]
                == stack.ids[i]
            &&& kept <= i < new_index ==> stack.displaced(tree)[new_index - 1 - i]
                == stack.overlays[i]
            &&& i >= new_index ==> after.overlays[i - gone] == stack.overlays[i] && after.ids[i
                - gone] == stack.ids[i]
        }),
{
    if let Some(relative_to) = stack.overlays[stack.new_index() as int].relative_to {
        crate::state::lemma_kept_below_bound(
            stack.overlays,
            stack.new_index(),
            relative_to,
            tree,
        );
    }
}

/// Every overlay whose widget is mounted is drawn, and no other, in their order.
pub proof fn law_mounted_overlays_are_drawn(overlays: Seq<OverlayLayout>)
    ensures
        mounted_widgets(overlays, overlays.len()) == overlays.filter(
            |overlay: OverlayLayout| overlay.widget is Mounted,
        ).map_values(|overlay: OverlayLayout| overlay.widget.spec_id()),
{
    lemma_drawn(overlays, overlays.len());
    assert(overlays.take(overlays.len() as int) =~= overlays);
}

/// When the widgets of all overlays are mounted, each of them is drawn, in their
/// order, whatever else is true of it.
pub proof fn law_all_are_drawn_when_mounted(overlays: Seq<OverlayLayout>, i: int)
    requires
        forall|j: int| 0 <= j < overlays.len() ==> (#[trigger] overlays[j]).widget is Mounted,
        0 <= i < overlays.len(),
    ensures
        mounted_widgets(overlays, overlays.len()).len() == overlays.len(),
        mounted_widgets(overlays, overlays.len())[i] == overlays[i].widget.spec_id(),
{
    lemma_all_drawn(overlays, overlays.len());
}

/// An overlay that has been laid out stays there. One that is relative to nothing
/// may take all of the available space, one that is relative to a widget the space
/// on its side of it; as long as it is not known where that is, it is hidden.
pub proof fn law_needed_to_lay_out(
    stack: OverlayStack,
    index: int,
    available: Size<u32>,
    tree: WidgetTree,
)
    ensures
        ({
            let overlay = stack.overlays[index];
            match (overlay.layout, overlay.relative_to) {
                (Some(layout), _) => stack.need(index, available, tree) == LayoutNeed::Known(layout),
                (None, None) => {
                    &&& stack.need(index, available, tree) matches LayoutNeed::Measure {
                        constraints,
                        anchor,
                    }
                    &&& constraints.width == ConstraintLimit::SizeToFit(available.width)
                    &&& constraints.height == ConstraintLimit::SizeToFit(available.height)
                    &&& anchor is None
                },
                (None, Some(relative_to)) => match tree.layout_of(relative_to) {
                    None => stack.need(index, available, tree) is Hidden,
                    Some(beside) => {
                        let (width, height) = space_beside(overlay.direction, beside, available);
                        &&& stack.need(index, available, tree) matches LayoutNeed::Measure {
                            constraints,
                            anchor,
                        }
                        &&& constraints.width == ConstraintLimit::SizeToFit(width as u32)
                        &&& constraints.height == ConstraintLimit::SizeToFit(height as u32)
                        &&& anchor == Some(beside)
                    },
                },
            }
        }),
{
}

/// There is space for an overlay unless it still has to be laid out beside a widget
/// of which the space on that side cannot be measured.
pub proof fn law_has_space_unless_beside_what_has_none(
    stack: OverlayStack,
    index: int,
    available: Size<u32>,
    tree: WidgetTree,
)
    ensures
        !stack.has_space(index, available, tree) <==> {
            let overlay = stack.overlays[index];
            &&& overlay.layout is None
            &&& overlay.relative_to is Some
            &&& tree.layout_of(overlay.relative_to->0) is Some
            &&& !space_exists(
                overlay.direction,
                tree.layout_of(overlay.relative_to->0)->0,
                available,
            )
        },
{
}

/// An area is crowded exactly if it overlaps the widget beside it, another overlay
/// that has been laid out, below or above, or, for all but the lowest overlay, the
/// widget at the root.
pub proof fn law_crowded_by_what_it_overlaps(
    stack: OverlayStack,
    index: int,
    layout: Rect<i32>,
    anchor: Rect<i32>,
    tree: WidgetTree,
    other: int,
)
    ensures
        layout.overlaps(anchor) ==> stack.crowded(index, layout, anchor, tree),
        0 <= other < stack.overlays.len() && other != index && stack.overlays[other].layout is Some
            && stack.overlays[other].layout->0.overlaps(layout) ==> stack.obstructed(
            index,
            layout,
            tree,
        ) && stack.crowded(index, layout, anchor, tree),
        index != 0 && stack.root_layout(tree) is Some && stack.root_layout(tree)->0.overlaps(layout)
            ==> stack.obstructed(index, layout, tree) && stack.crowded(index, layout, anchor, tree),
        stack.crowded(index, layout, anchor, tree) ==> layout.overlaps(anchor) || stack.obstructed(
            index,
            layout,
            tree,
        ),
        stack.obstructed(index, layout, tree) ==> {
            ||| exists|i: int|
                0 <= i < stack.overlays.len() && i != index && (
                #[trigger] stack.overlays[i]).layout is Some
                    && stack.overlays[i].layout->0.overlaps(layout)
            ||| index != 0 && stack.root_layout(tree) is Some && stack.root_layout(
                tree,
            )->0.overlaps(layout)
        },
{
}

/// Whether an area is obstructed can be told exactly if the layouts fit that have to
/// be looked at, and the area fits if there is one: those of the other overlays, up
/// to the first that it overlaps, and, if there is none, that of the widget at the
/// root, but not for the lowest overlay.
pub proof fn law_obstruction_can_be_told(
    stack: OverlayStack,
    index: int,
    layout: Rect<i32>,
    tree: WidgetTree,
)
    ensures
        stack.can_intersect(0, index, layout, tree) <==> {
            &&& forall|i: int|
                {
                    &&& 0 <= i < stack.overlays.len()
                    &&& i != index
                    &&& (#[trigger] stack.overlays[i]).layout is Some
                    &&& clear_below(stack, i, index, layout)
                } ==> stack.overlays[i].layout->0.fits() && layout.fits()
            &&& index != 0 && stack.root_layout(tree) is Some && clear_below(
                stack,
                stack.overlays.len() as int,
                index,
                layout,
            ) ==> stack.root_layout(tree)->0.fits() && layout.fits()
        },
{
    lemma_can_intersect(stack, 0, index, layout, tree);
}

/// `layout` overlaps none of the overlays below `count`, leaving out the one at
/// `index`.
pub open spec fn clear_below(
    stack: OverlayStack,
    count: int,
    index: int,
    layout: Rect<i32>,
) -> bool {
    forall|j: int|
        0 <= j < count && j != index && (#[trigger] stack.overlays[j]).layout is Some
            ==> !stack.overlays[j].layout->0.overlaps(layout)
}

/// If an overlay is crowded on every side, it is laid out on the last that is tried,
/// which is the one before the side asked for, clockwise.
pub proof fn law_settled_on_the_last_side_if_all_are_crowded(
    stack: OverlayStack,
    index: int,
    direction: Direction,
    anchor: Rect<i32>,
    size: Size<i32>,
    available: Size<u32>,
    tree: WidgetTree,
    last: Direction,
)
    requires
        last.clockwise() == direction,
        forall|side: Direction|
            stack.crowded(index, #[trigger] placed(side, anchor, size, available), anchor, tree),
    ensures
        stack.settled(index, direction, 3, anchor, size, available, tree) == placed(
            last,
            anchor,
            size,
            available,
        ),
{
    reveal_with_fuel(OverlayStack::settled, 4);
    assert(direction.clockwise().clockwise().clockwise() == last);
}

/// An overlay beside a widget is settled from the side that it was shown for, with
/// the size that was measured, as far as a signed coordinate can tell it. One that is
/// beside nothing is put by its direction and that size alone.
pub proof fn law_laid_out_from_the_side_shown_for(
    stack: OverlayStack,
    index: int,
    anchor: Rect<i32>,
    measured: Size<u32>,
    available: Size<u32>,
    tree: WidgetTree,
    size: Size<i32>,
)
    requires
        size.width == if measured.width <= 0x7fff_ffff {
            measured.width as int
        } else {
            0x7fff_ffff
        },
        size.height == if measured.height <= 0x7fff_ffff {
            measured.height as int
        } else {
            0x7fff_ffff
        },
    ensures
        ({
            let direction = stack.overlays[index].direction;
            let beside = stack.laid_out(index, Some(anchor), measured, available, tree);
            let alone = stack.laid_out(index, None, measured, available, tree);
            &&& beside == stack.settled(index, direction, 3, anchor, size, available, tree)
            &&& beside.size == size
            &&& !stack.crowded(index, placed(direction, anchor, size, available), anchor, tree)
                ==> beside == placed(direction, anchor, size, available)
            &&& alone == unanchored(direction, size, available)
            &&& alone.size == size
        }),
{
    reveal_with_fuel(OverlayStack::settled, 4);
}

/// An overlay beside nothing is put from the middle of the available space. Up and
/// left center it along that axis, down and right move it from the middle by half of
/// its own size; along the other axis it begins at the middle.
pub proof fn law_unanchored_from_the_middle(
    direction: Direction,
    size: Size<i32>,
    available: Size<u32>,
)
    requires
        size.width >= 0,
        size.height >= 0,
        available.width <= 0x7fff_ffff,
        available.height <= 0x7fff_ffff,
    ensures
        ({
            let layout = unanchored(direction, size, available);
            let slack_x = 2 * layout.origin.x + size.width - available.width;
            let slack_y = 2 * layout.origin.y + size.height - available.height;
            &&& layout.size == size
            &&& direction is Up || direction is Down ==> layout.origin.x == available.width / 2
            &&& direction is Left || direction is Right ==> layout.origin.y == available.height / 2
            &&& direction is Up ==> -1 <= slack_y <= 1 && (available.height >= size.height
                ==> slack_y <= 0) && (available.height <= size.height ==> slack_y >= 0)
            &&& direction is Left ==> -1 <= slack_x <= 1 && (available.width >= size.width
                ==> slack_x <= 0) && (available.width <= size.width ==> slack_x >= 0)
            &&& direction is Down ==> layout.origin.y == available.height / 2 + size.height as int / 2
            &&& direction is Right ==> layout.origin.x == available.width / 2 + size.width as int / 2
        }),
{
}

/// A space that is too large for a signed coordinate counts as the largest one.
pub proof fn law_unanchored_in_too_much_space(
    direction: Direction,
    size: Size<i32>,
    available: Size<u32>,
    counted: Size<u32>,
)
    requires
        counted.width == if available.width <= 0x7fff_ffff {
            available.width
        } else {
            0x7fff_ffff
        },
        counted.height == if available.height <= 0x7fff_ffff {
            available.height
        } else {
            0x7fff_ffff
        },
    ensures
        unanchored(direction, size, available) == unanchored(direction, size, counted),
{
}

/// An overlay can be laid out beside a widget exactly if that fits, and the overlay
/// can be put on each side that is tried, and it can be told whether it is obstructed
/// there, unless it overlaps the widget anyway. A side is tried if all before it,
/// clockwise from the one asked for, are crowded. Beside nothing, it always can.
pub proof fn law_can_be_laid_out_on_each_side_tried(
    stack: OverlayStack,
    index: int,
    anchor: Rect<i32>,
    measured: Size<u32>,
    available: Size<u32>,
    tree: WidgetTree,
    size: Size<i32>,
)
    requires
        size.width == if measured.width <= 0x7fff_ffff {
            measured.width as int
        } else {
            0x7fff_ffff
        },
        size.height == if measured.height <= 0x7fff_ffff {
            measured.height as int
        } else {
            0x7fff_ffff
        },
    ensures
        stack.can_lay_out(index, None, measured, available, tree),
        stack.can_lay_out(index, Some(anchor), measured, available, tree) <==> {
            let direction = stack.overlays[index].direction;
            let at = |turns: nat| placed(direction.turned(turns), anchor, size, available);
            let crowded = |turns: nat| stack.crowded(index, at(turns), anchor, tree);
            let tellable = |turns: nat|
                {
                    &&& beside_fits(direction.turned(turns), anchor, size)
                    &&& !at(turns).overlaps(anchor) ==> stack.can_intersect(
                        0,
                        index,
                        at(turns),
                        tree,
                    )
                };
            &&& anchor.fits()
            &&& tellable(0)
            &&& crowded(0) ==> tellable(1)
            &&& crowded(0) && crowded(1) ==> tellable(2)
            &&& crowded(0) && crowded(1) && crowded(2) ==> tellable(3)
        },
{
    reveal_with_fuel(OverlayStack::settles, 5);
    reveal_with_fuel(Direction::turned, 5);
}

/// A widget that is to fill an area is given its size, and nothing where that is
/// negative.
pub proof fn law_filling_is_the_size(size: Size<i32>)
    ensures
        filling(size).width == ConstraintLimit::Fill(
            if size.width < 0 {
                0
            } else {
                size.width as u32
            },
        ),
        filling(size).height == ConstraintLimit::Fill(
            if size.height < 0 {
                0
            } else {
                size.height as u32
            },
        ),
{
}

/// Placing goes up from an overlay to the next that is not hidden, mounted or not.
/// Its widget is mounted if it is not; it is laid out again if it has been before,
/// and else measured. When there is none, the layout is finished with no size.
pub proof fn law_placing_takes_the_next_that_is_not_hidden(
    stack: OverlayStack,
    index: nat,
    available: Size<u32>,
    tree: WidgetTree,
    next: nat,
)
    requires
        index <= next <= stack.overlays.len() <= usize::MAX,
        forall|i: int|
            index <= i < next ==> (#[trigger] stack.overlays[i]).widget is Mounted && stack.need(
                i,
                available,
                tree,
            ) is Hidden,
        next < stack.overlays.len() ==> stack.overlays[next as int].widget is Unmounted || !(
        stack.need(next as int, available, tree) is Hidden),
    ensures
        ({
            let (after, stage, ask) = stack.placing(index, available, tree);
            if next == stack.overlays.len() {
                &&& after == stack
                &&& stage is Finished
                &&& ask matches OverlayAsk::Finished(size)
                &&& size.width == 0 && size.height == 0
            } else {
                let id = stack.overlays[next as int].widget.spec_id();
                if stack.overlays[next as int].widget is Unmounted {
                    &&& after == stack.with_mounted(next as int)
                    &&& stage matches OverlayStage::Placing(at)
                    &&& at == next
                    &&& ask == OverlayAsk::Mount(id)
                } else {
                    &&& after == stack
                    &&& match stack.need(next as int, available, tree) {
                        LayoutNeed::Known(layout) => {
                            &&& stage matches OverlayStage::Arranging(at)
                            &&& at == next
                            &&& ask == OverlayAsk::Arrange(id, filling(layout.size), layout)
                        },
                        LayoutNeed::Measure { constraints, anchor } => {
                            &&& stage matches OverlayStage::Measuring(at, beside)
                            &&& at == next
                            &&& beside == anchor
                            &&& ask == OverlayAsk::Measure(id, constraints)
                        },
                        LayoutNeed::Hidden => false,
                    }
                }
            }
        }),
    decreases next - index,
{
    if index < next {
        assert(stack.overlays[index as int].widget is Mounted);
        law_placing_takes_the_next_that_is_not_hidden(stack, index + 1, available, tree, next);
    }
}

/// A layout admits the new overlays, the lowest first, each after its widget has
/// been mounted, and then places the overlays from the lowest on. One that has been
/// measured is laid out where its size puts it, and the next one is placed when it
/// has been.
pub proof fn law_layout_goes_on_in_order(
    stack: OverlayStack,
    pass: OverlayPass,
    index: usize,
    anchor: Option<Rect<i32>>,
    measured: Size<u32>,
    tree: WidgetTree,
)
    ensures
        ({
            let done = OverlayReply::Done;
            let at = |stage: OverlayStage| OverlayPass { available: pass.available, stage };
            let admitting = stack.advanced(at(OverlayStage::Admitting), done, tree);
            let next_new = stack.overlays[stack.overlays.len() - stack.new_overlays];
            &&& stack.new_overlays == 0 ==> admitting == stack.placing(0, pass.available, tree)
            &&& 0 < stack.new_overlays <= stack.overlays.len() && next_new.widget is Unmounted ==> {
                &&& admitting.0 == stack.with_mounted(stack.overlays.len() - stack.new_overlays)
                &&& admitting.1 is Admitting
                &&& admitting.2 == OverlayAsk::Mount(next_new.widget.spec_id())
            }
            &&& 0 < stack.new_overlays <= stack.overlays.len() && next_new.widget is Mounted ==> {
                &&& admitting.0 == stack.admitted(tree)
                &&& admitting.1 is Admitting
                &&& admitting.2 == OverlayAsk::Dismiss(stack.displaced(tree))
            }
            &&& stack.advanced(at(OverlayStage::Placing(index)), done, tree) == stack.placing(
                index as nat,
                pass.available,
                tree,
            )
            &&& stack.advanced(at(OverlayStage::Arranging(index)), done, tree) == stack.placing(
                index as nat + 1,
                pass.available,
                tree,
            )
            &&& ({
                let layout = stack.laid_out(
                    index as int,
                    anchor,
                    measured,
                    pass.available,
                    tree,
                );
                let (after, stage, ask) = stack.advanced(
                    at(OverlayStage::Measuring(index, anchor)),
                    OverlayReply::Measured(measured),
                    tree,
                );
                &&& after == stack.with_layout(index as int, layout)
                &&& stage == OverlayStage::Arranging(index)
                &&& ask == OverlayAsk::Arrange(
                    stack.overlays[index as int].widget.spec_id(),
                    filling(layout.size),
                    layout,
                )
            })
            &&& ({
                let (after, stage, ask) = stack.advanced(at(OverlayStage::Finished), done, tree);
                &&& after == stack
                &&& stage is Finished
                &&& ask matches OverlayAsk::Finished(size)
                &&& size.width == 0 && size.height == 0
            })
        }),
{
}

/// A layout can go on exactly with a reply to what it asked for; while it admits
/// overlays, if no more are new than there are; with a measured overlay, if that is
/// there and can be laid out; and where overlays are placed, if there is space for
/// each that comes up.
pub proof fn law_layout_can_go_on(
    stack: OverlayStack,
    available: Size<u32>,
    index: usize,
    anchor: Option<Rect<i32>>,
    measured: Size<u32>,
    tree: WidgetTree,
)
    ensures
        ({
            let can = |stage: OverlayStage, reply: OverlayReply|
                stack.can_advance(OverlayPass { available, stage }, reply, tree);
            let done = OverlayReply::Done;
            let size = OverlayReply::Measured(measured);
            &&& can(OverlayStage::Admitting, done) <==> stack.new_overlays <= stack.overlays.len()
                && (stack.new_overlays == 0 ==> stack.can_place(0, available, tree))
            &&& can(OverlayStage::Placing(index), done) <==> stack.can_place(
                index as nat,
                available,
                tree,
            )
            &&& can(OverlayStage::Arranging(index), done) <==> index < stack.overlays.len()
                && stack.can_place(index as nat + 1, available, tree)
            &&& can(OverlayStage::Measuring(index, anchor), size) <==> index
                < stack.overlays.len() && stack.can_lay_out(
                index as int,
                anchor,
                measured,
                available,
                tree,
            )
            &&& can(OverlayStage::Finished, done)
            &&& !can(OverlayStage::Admitting, size)
            &&& !can(OverlayStage::Placing(index), size)
            &&& !can(OverlayStage::Arranging(index), size)
            &&& !can(OverlayStage::Measuring(index, anchor), done)
            &&& !can(OverlayStage::Finished, size)
        }),
{
}

/// Overlays can be placed from one on exactly if there is space for the next one
/// that comes up and is not hidden, unless its widget still has to be mounted.
pub proof fn law_can_be_placed_with_space(
    stack: OverlayStack,
    index: nat,
    available: Size<u32>,
    tree: WidgetTree,
    next: nat,
)
    requires
        index <= next <= stack.overlays.len(),
        forall|i: int|
            index <= i < next ==> (#[trigger] stack.overlays[i]).widget is Mounted && stack.need(
                i,
                available,
                tree,
            ) is Hidden,
        next < stack.overlays.len() ==> stack.overlays[next as int].widget is Unmounted || !(
        stack.need(next as int, available, tree) is Hidden),
    ensures
        stack.can_place(index, available, tree) <==> (next < stack.overlays.len()
            && stack.overlays[next as int].widget is Mounted ==> stack.has_space(
            next as int,
            available,
            tree,
        )),
    decreases next - index,
{
    if index < next {
        assert(stack.overlays[index as int].widget is Mounted);
        law_can_be_placed_with_space(stack, index + 1, available, tree, next);
    }
}

/// There are as many ids as three quarters of the bits of a `usize` can count.
pub proof fn law_ids_are_counted_in_bits()
    ensures
        usize::BITS == 64 ==> lots_limit() == 0x1_0000 * 0x1_0000 * 0x1_0000,
        usize::BITS == 32 ==> lots_limit() == 0x100 * 0x100 * 0x100,
{
}

/// The overlays can be looked at from `start` on if the layouts fit of those that are
/// looked at.
proof fn lemma_can_look(overlays: Seq<OverlayLayout>, location: Point<i32>, start: nat)
    requires
        start <= overlays.len(),
        forall|j: int| 0 <= j < start ==> !holds_cursor(#[trigger] overlays[j], location),
    ensures
        (forall|i: int|
            {
                &&& 0 <= i < overlays.len()
                &&& (#[trigger] overlays[i]).requires_hover
                &&& overlays[i].layout is Some
                &&& forall|j: int| 0 <= j < i ==> !holds_cursor(#[trigger] overlays[j], location)
            } ==> overlays[i].layout->0.fits()) ==> can_look(overlays, location, start),
    decreases overlays.len() - start,
{
    if start < overlays.len() {
        let overlay = overlays[start as int];
        if !holds_cursor(overlay, location) {
            lemma_can_look(overlays, location, start + 1);
        }
    }
}

/// If the overlays can be looked at, the layout fits of one that is looked at.
proof fn lemma_looked_at(overlays: Seq<OverlayLayout>, location: Point<i32>, start: nat, i: int)
    requires
        can_look(overlays, location, start),
        start <= i < overlays.len(),
        overlays[i].requires_hover,
        overlays[i].layout is Some,
        forall|j: int| 0 <= j < i ==> !holds_cursor(#[trigger] overlays[j], location),
    ensures
        overlays[i].layout->0.fits(),
    decreases i - start,
{
    if start < i {
        assert(!holds_cursor(overlays[start as int], location));
        lemma_looked_at(overlays, location, start + 1, i);
    }
}

/// As many overlays are kept as reach up to the topmost that the widget is a child
/// of.
proof fn lemma_kept_below(
    overlays: Seq<OverlayLayout>,
    count: nat,
    relative_to: WidgetId,
    tree: WidgetTree,
    i: int,
)
    requires
        0 <= i < count,
    ensures
        ({
            let kept = kept_below(overlays, count, relative_to, tree);
            &&& kept <= count
            &&& tree.is_child(relative_to, overlays[i].widget.spec_id()) ==> kept > i
            &&& kept > 0 ==> tree.is_child(relative_to, overlays[kept - 1].widget.spec_id())
        }),
    decreases count,
{
    if count - 1 > i {
        lemma_kept_below(overlays, (count - 1) as nat, relative_to, tree, i);
    } else {
        crate::state::lemma_kept_below_bound(overlays, count, relative_to, tree);
    }
}

/// Of the first `count` overlays, those that are mounted are drawn.
proof fn lemma_drawn(overlays: Seq<OverlayLayout>, count: nat)
    requires
        count <= overlays.len(),
    ensures
        mounted_widgets(overlays, count) == overlays.take(count as int).filter(
            |overlay: OverlayLayout| overlay.widget is Mounted,
        ).map_values(|overlay: OverlayLayout| overlay.widget.spec_id()),
    decreases count,
{
    reveal(Seq::filter);
    let mounted = |overlay: OverlayLayout| overlay.widget is Mounted;
    let id = |overlay: OverlayLayout| overlay.widget.spec_id();
    let first = overlays.take(count as int);
    if count > 0 {
        lemma_drawn(overlays, (count - 1) as nat);
        assert(first.drop_last() =~= overlays.take(count - 1));
        assert(first.last() == overlays[count - 1]);
        if mounted(first.last()) {
            assert(first.filter(mounted).map_values(id) =~= first.drop_last().filter(
                mounted,
            ).map_values(id).push(id(first.last())));
        }
    } else {
        assert(first.filter(mounted).map_values(id) =~= Seq::empty());
    }
}

/// Of the first `count` overlays, all of them mounted, each is drawn.
proof fn lemma_all_drawn(overlays: Seq<OverlayLayout>, count: nat)
    requires
        count <= overlays.len(),
        forall|j: int| 0 <= j < overlays.len() ==> (#[trigger] overlays[j]).widget is Mounted,
    ensures
        mounted_widgets(overlays, count).len() == count,
        forall|i: int|
            0 <= i < count ==> #[trigger] mounted_widgets(overlays, count)[i]
                == overlays[i].widget.spec_id(),
    decreases count,
{
    if count > 0 {
        lemma_all_drawn(overlays, (count - 1) as nat);
        assert(overlays[count - 1].widget is Mounted);
    }
}

/// From `start` on, it can be told whether an area is obstructed exactly if the
/// layouts fit that are looked at.
proof fn lemma_can_intersect(
    stack: OverlayStack,
    start: nat,
    index: int,
    layout: Rect<i32>,
    tree: WidgetTree,
)
    requires
        start <= stack.overlays.len(),
        clear_below(stack, start as int, index, layout),
    ensures
        stack.can_intersect(start, index, layout, tree) <==> {
            &&& forall|i: int|
                {
                    &&& start <= i < stack.overlays.len()
                    &&& i != index
                    &&& (#[trigger] stack.overlays[i]).layout is Some
                    &&& clear_below(stack, i, index, layout)
                } ==> stack.overlays[i].layout->0.fits() && layout.fits()
            &&& index != 0 && stack.root_layout(tree) is Some && clear_below(
                stack,
                stack.overlays.len() as int,
                index,
                layout,
            ) ==> stack.root_layout(tree)->0.fits() && layout.fits()
        },
    decreases stack.overlays.len() - start,
{
    if start < stack.overlays.len() {
        let overlay = stack.overlays[start as int];
        if start != index && overlay.layout is Some && overlay.layout->0.overlaps(layout) {
            assert forall|i: int| i > start implies !clear_below(stack, i, index, layout) by {
                assert(stack.overlays[start as int].layout is Some);
            }
        } else {
            lemma_can_intersect(stack, start + 1, index, layout, tree);
        }
    }
}

} // verus!
