//! What holds of an overlay layer across its operations.
use crate::geometry::{Point, Rect, Size};
use crate::overlay::{filling, OverlayAsk, OverlayPass, OverlayReply, OverlayStage};
use crate::placement::{law_placed_within_available, placed, Direction};
use crate::stack::OverlayLayout;
use crate::state::{first_holding, first_requiring_hover, holds_cursor, OverlayStack};
use crate::widget::{WidgetRef, WidgetTree};
use alot::LotId;
use vstd::prelude::*;

verus! {

impl OverlayStack {
    /// A layout can begin: no more overlays are new than there are, and the
    /// widgets of the others are mounted.
    pub open spec fn ready(self) -> bool {
        &&& self.wf()
        &&& self.new_overlays <= self.overlays.len()
        &&& forall|i: int|
            0 <= i < self.new_index() ==> (#[trigger] self.overlays[i]).widget is Mounted
    }

    /// The overlay at `index` is shown relative to a child of the one below it.
    pub open spec fn linked(self, index: int, tree: WidgetTree) -> bool {
        match self.overlays[index].relative_to {
            Some(relative_to) => tree.is_child(
                relative_to,
                self.overlays[index - 1].widget.spec_id(),
            ),
            None => false,
        }
    }

    /// Each overlay that is not new, but for the lowest, is shown relative to a
    /// child of the one below it.
    pub open spec fn chained(self, tree: WidgetTree) -> bool {
        forall|i: int| 0 < i < self.new_index() ==> #[trigger] self.linked(i, tree)
    }
}

/// A layer without overlays is ready for a layout.
pub proof fn law_empty_is_ready(stack: OverlayStack)
    requires
        stack.overlays.len() == 0,
        stack.ids.len() == 0,
        stack.new_overlays == 0,
    ensures
        stack.ready(),
{
}

/// A layer that is ready for a layout stays so when an overlay is shown on it.
pub proof fn law_show_stays_ready(stack: OverlayStack, overlay: OverlayLayout, id: LotId)
    requires
        stack.ready(),
        !stack.ids.contains(id),
    ensures
        stack.shown(overlay, id).ready(),
        stack.shown(overlay, id).new_index() == stack.new_index(),
{
    let after = stack.shown(overlay, id);
    assert forall|i: int, j: int| 0 <= i < j < after.ids.len() implies after.ids[i]
        != after.ids[j] by {
        if j == stack.ids.len() {
            assert(stack.ids.contains(stack.ids[i]));
        }
    }
}

/// A layer that is ready for a layout stays so wherever the cursor moves.
pub proof fn law_hover_stays_ready(stack: OverlayStack, location: Point<i32>, tree: WidgetTree)
    requires
        stack.ready(),
    ensures
        stack.hovered(stack.tested(location, true, tree)).ready(),
        stack.unhovered().ready(),
{
    lemma_first_holding(stack.overlays, location, 0);
    lemma_first_requiring(stack.overlays, 0);
}

/// A layer that is ready for a layout stays so when an overlay is dismissed,
/// as long as no fewer overlays are left than are new.
pub proof fn law_dismiss_stays_ready(stack: OverlayStack, id: LotId)
    requires
        stack.ready(),
        stack.ids.contains(id) ==> stack.new_overlays <= stack.ids.index_of(id),
    ensures
        stack.dismissed(id).ready(),
{
}

/// Admitting a new overlay whose widget has been mounted leaves a layer ready
/// for the rest of the layout.
pub proof fn law_admission_stays_ready(stack: OverlayStack, tree: WidgetTree)
    requires
        stack.ready(),
        stack.new_overlays > 0,
        stack.overlays[stack.new_index() as int].widget is Mounted,
    ensures
        stack.admitted(tree).ready(),
        stack.admitted(tree).new_index() == stack.kept(tree) + 1,
{
    lemma_kept(stack, tree);
    let after = stack.admitted(tree);
    let kept = stack.kept(tree) as int;
    let new_index = stack.new_index() as int;
    assert forall|i: int| 0 <= i < after.new_index() implies (
    #[trigger] after.overlays[i]).widget is Mounted by {
        if i < kept {
            assert(after.overlays[i] == stack.overlays[i]);
        } else {
            assert(after.overlays[i] == stack.overlays[new_index]);
        }
    }
    assert forall|i: int, j: int| 0 <= i < j < after.ids.len() implies after.ids[i]
        != after.ids[j] by {
        let before_i = if i < kept {
            i
        } else {
            i - kept + new_index
        };
        let before_j = if j < kept {
            j
        } else {
            j - kept + new_index
        };
        assert(after.ids[i] == stack.ids[before_i]);
        assert(after.ids[j] == stack.ids[before_j]);
        assert(before_i < before_j);
    }
}

/// Admission keeps the overlays a chain: whichever overlays the new one takes
/// the place of, it ends up at the bottom or on top of an overlay that the
/// widget it is relative to is a child of.
pub proof fn law_admission_keeps_the_chain(stack: OverlayStack, tree: WidgetTree)
    requires
        0 < stack.new_overlays <= stack.overlays.len(),
        stack.chained(tree),
    ensures
        stack.admitted(tree).chained(tree),
{
    lemma_kept(stack, tree);
    let after = stack.admitted(tree);
    let kept = stack.kept(tree) as int;
    let new_index = stack.new_index() as int;
    assert forall|i: int| 0 < i < after.new_index() implies #[trigger] after.linked(i, tree) by {
        assert(after.overlays[i - 1] == stack.overlays[i - 1]);
        if i < kept {
            assert(stack.linked(i, tree));
            assert(after.overlays[i] == stack.overlays[i]);
        } else {
            assert(after.overlays[i] == stack.overlays[new_index]);
        }
    }
}

/// The overlays stay a chain when another one is shown, wherever the cursor
/// moves, and when an overlay is dismissed; the last as long as no fewer
/// overlays are left than are new.
pub proof fn law_overlays_stay_chained(
    stack: OverlayStack,
    overlay: OverlayLayout,
    id: LotId,
    location: Point<i32>,
    tree: WidgetTree,
)
    requires
        stack.ready(),
        stack.chained(tree),
    ensures
        stack.shown(overlay, id).chained(tree),
        stack.hovered(stack.tested(location, true, tree)).chained(tree),
        stack.unhovered().chained(tree),
        (stack.ids.contains(id) ==> stack.new_overlays <= stack.ids.index_of(id))
            ==> stack.dismissed(id).chained(tree),
{
    lemma_first_holding(stack.overlays, location, 0);
    lemma_first_requiring(stack.overlays, 0);
    lemma_chained_below(stack, stack.shown(overlay, id), tree);
    lemma_chained_below(stack, stack.hovered(stack.tested(location, true, tree)), tree);
    lemma_chained_below(stack, stack.unhovered(), tree);
    if stack.ids.contains(id) && stack.new_overlays <= stack.ids.index_of(id) {
        lemma_chained_below(stack, stack.dismissed(id), tree);
    }
}

/// A layout keeps the overlays a chain.
pub proof fn law_layout_keeps_the_chain(
    stack: OverlayStack,
    pass: OverlayPass,
    reply: OverlayReply,
    tree: WidgetTree,
)
    requires
        stack.ready(),
        stack.chained(tree),
        stack.can_advance(pass, reply, tree),
    ensures
        stack.advanced(pass, reply, tree).0.chained(tree),
{
    match pass.stage {
        OverlayStage::Admitting => {
            if stack.new_overlays == 0 {
                lemma_placing_keeps_the_chain(stack, 0, pass.available, tree);
            } else if stack.overlays[stack.new_index() as int].widget is Mounted {
                law_admission_keeps_the_chain(stack, tree);
            } else {
                lemma_chained_below(stack, stack.with_mounted(stack.new_index() as int), tree);
            }
        },
        OverlayStage::Placing(index) => {
            lemma_placing_keeps_the_chain(stack, index as nat, pass.available, tree);
        },
        OverlayStage::Arranging(index) => {
            lemma_placing_keeps_the_chain(stack, index as nat + 1, pass.available, tree);
        },
        _ => {
            lemma_chained_below(stack, stack.advanced(pass, reply, tree).0, tree);
        },
    }
}

/// Placing keeps the overlays a chain.
proof fn lemma_placing_keeps_the_chain(
    stack: OverlayStack,
    index: nat,
    available: Size<u32>,
    tree: WidgetTree,
)
    requires
        stack.ready(),
        stack.chained(tree),
    ensures
        stack.placing(index, available, tree).0.chained(tree),
    decreases stack.overlays.len() - index,
{
    if index < stack.overlays.len() {
        lemma_placing_keeps_the_chain(stack, index + 1, available, tree);
        if stack.overlays[index as int].widget is Unmounted {
            lemma_chained_below(stack, stack.with_mounted(index as int), tree);
        }
    }
}

/// Overlays are a chain if, as far as they are not new, they are shown relative
/// to the same widgets as those of a chain.
proof fn lemma_chained_below(stack: OverlayStack, after: OverlayStack, tree: WidgetTree)
    requires
        stack.new_overlays <= stack.overlays.len(),
        after.new_overlays <= after.overlays.len(),
        stack.chained(tree),
        after.new_index() <= stack.new_index(),
        forall|i: int|
            0 <= i < after.new_index() ==> {
                &&& (#[trigger] after.overlays[i]).relative_to == stack.overlays[i].relative_to
                &&& after.overlays[i].widget.spec_id() == stack.overlays[i].widget.spec_id()
            },
    ensures
        after.chained(tree),
{
    assert forall|i: int| 0 < i < after.new_index() implies #[trigger] after.linked(i, tree) by {
        assert(stack.linked(i, tree));
        assert(after.overlays[i - 1].widget.spec_id() == stack.overlays[i - 1].widget.spec_id());
    }
}

/// A dismissal takes the overlay that was asked for and the overlays that are
/// shown relative to it, directly or not: each other overlay that goes is shown
/// relative to a child of the one below it, which goes too. That is so once all
/// overlays have been through a layout.
pub proof fn law_dismiss_takes_relative_overlays(
    stack: OverlayStack,
    id: LotId,
    tree: WidgetTree,
    above: int,
)
    requires
        stack.wf(),
        stack.new_overlays == 0,
        stack.chained(tree),
        stack.ids.contains(id),
        stack.ids.index_of(id) < above < stack.overlays.len(),
    ensures
        ({
            let gone = stack.dismissed_off(id);
            let turned = stack.overlays.len() - 1 - above;
            &&& gone.last() == stack.overlays[stack.ids.index_of(id)]
            &&& gone[turned] == stack.overlays[above]
            &&& gone[turned + 1] == stack.overlays[above - 1]
            &&& match gone[turned].relative_to {
                Some(relative_to) => tree.is_child(
                    relative_to,
                    gone[turned + 1].widget.spec_id(),
                ),
                None => false,
            }
        }),
{
    assert(stack.linked(above, tree));
}

impl OverlayStack {
    /// The overlays with `later` ones on top, shown one after the other.
    pub open spec fn shown_all(self, later: Seq<OverlayLayout>, ids: Seq<LotId>) -> OverlayStack
        decreases later.len(),
    {
        if later.len() == 0 {
            self
        } else {
            self.shown_all(later.drop_last(), ids.drop_last()).shown(later.last(), ids.last())
        }
    }
}

/// Dismissing an overlay undoes the showing of it and of all that were shown
/// after it: the overlays are those from before, and handed back are that overlay
/// and the later ones, the topmost first, and no other.
pub proof fn law_dismiss_undoes_show(
    stack: OverlayStack,
    overlay: OverlayLayout,
    id: LotId,
    later: Seq<OverlayLayout>,
    ids: Seq<LotId>,
)
    requires
        stack.wf(),
        !stack.ids.contains(id),
        ids.len() == later.len(),
        !ids.contains(id),
    ensures
        ({
            let after = stack.shown(overlay, id).shown_all(later, ids);
            &&& after.dismissed(id).overlays == stack.overlays
            &&& after.dismissed(id).ids == stack.ids
            &&& after.dismissed_off(id) == (seq![overlay] + later).reverse()
        }),
{
    let after = stack.shown(overlay, id).shown_all(later, ids);
    let at = stack.ids.len() as int;
    lemma_shown_all(stack.shown(overlay, id), later, ids);
    assert(after.ids[at] == id);
    assert(after.ids.contains(id));
    let found = after.ids.index_of(id);
    if found < at {
        assert(stack.ids[found] == id);
        assert(stack.ids.contains(id));
    }
    if found > at {
        assert(ids[found - at - 1] == id);
        assert(ids.contains(id));
    }
    assert(found == at);
    assert(after.overlays.take(at) =~= stack.overlays);
    assert(after.ids.take(at) =~= stack.ids);
    assert(after.overlays.skip(at) =~= seq![overlay] + later);
}

/// Overlays that are shown one after the other end up on top in that order.
proof fn lemma_shown_all(stack: OverlayStack, later: Seq<OverlayLayout>, ids: Seq<LotId>)
    requires
        ids.len() == later.len(),
    ensures
        stack.shown_all(later, ids).overlays == stack.overlays + later,
        stack.shown_all(later, ids).ids == stack.ids + ids,
    decreases later.len(),
{
    if later.len() > 0 {
        lemma_shown_all(stack, later.drop_last(), ids.drop_last());
        assert(stack.overlays + later =~= (stack.overlays + later.drop_last()).push(later.last()));
        assert(stack.ids + ids =~= (stack.ids + ids.drop_last()).push(ids.last()));
    } else {
        assert(stack.overlays + later =~= stack.overlays);
        assert(stack.ids + ids =~= stack.ids);
    }
}

/// An overlay that has been dismissed cannot be dismissed again.
pub proof fn law_dismissed_stays_dismissed(stack: OverlayStack, id: LotId)
    requires
        stack.wf(),
    ensures
        !stack.dismissed(id).ids.contains(id),
        stack.dismissed(id).dismissed(id) == stack.dismissed(id),
        stack.dismissed(id).dismissed_off(id) == Seq::<OverlayLayout>::empty(),
{
    let after = stack.dismissed(id);
    if after.ids.contains(id) {
        let i = choose|i: int| 0 <= i < after.ids.len() && after.ids[i] == id;
        assert(stack.ids[i] == id);
        assert(i < stack.ids.index_of(id));
    }
}

/// A dismissal changes nothing about the overlays below the one that was asked
/// for, and none of the others stay.
pub proof fn law_dismiss_leaves_the_overlays_below(stack: OverlayStack, id: LotId, other: int)
    requires
        stack.wf(),
        0 <= other < stack.overlays.len(),
        stack.ids.contains(id),
    ensures
        other < stack.ids.index_of(id) ==> {
            &&& stack.dismissed(id).overlays[other] == stack.overlays[other]
            &&& stack.dismissed(id).ids[other] == stack.ids[other]
        },
        stack.dismissed(id).overlays.len() == stack.ids.index_of(id),
{
}

/// No overlay is lost: each that was on the layer is still there or is handed
/// back, once.
pub proof fn law_no_overlay_is_lost(
    stack: OverlayStack,
    id: LotId,
    location: Point<i32>,
    tree: WidgetTree,
)
    requires
        stack.wf(),
    ensures
        stack.dismissed(id).overlays + stack.dismissed_off(id).reverse() == stack.overlays,
        stack.unhovered().overlays + stack.unhovered_off().reverse() == stack.overlays,
        ({
            let found = stack.tested(location, true, tree);
            stack.hovered(found).overlays + stack.hovered_off(found).reverse() == stack.overlays
        }),
        0 < stack.new_overlays <= stack.overlays.len() ==> stack.overlays.take(
            stack.kept(tree) as int,
        ) + stack.displaced(tree).reverse() + stack.overlays.skip(stack.new_index() as int)
            == stack.overlays,
{
    lemma_first_holding(stack.overlays, location, 0);
    lemma_first_requiring(stack.overlays, 0);
    let len = stack.overlays.len() as int;
    if stack.ids.contains(id) {
        lemma_cut(stack.overlays, stack.ids.index_of(id), len);
    } else {
        lemma_cut(stack.overlays, len, len);
    }
    if let Some(start) = first_requiring_hover(stack.overlays, 0) {
        lemma_cut(stack.overlays, start as int, len);
    } else {
        lemma_cut(stack.overlays, len, len);
    }
    let found = stack.tested(location, true, tree);
    if stack.left_for(found) {
        lemma_cut(stack.overlays, found->0 as int, len);
    } else {
        lemma_cut(stack.overlays, len, len);
    }
    if 0 < stack.new_overlays <= stack.overlays.len() {
        lemma_kept(stack, tree);
        lemma_cut(stack.overlays, stack.kept(tree) as int, stack.new_index() as int);
    }
}

/// Cutting a sequence in three, with the middle turned over twice, keeps all of
/// it.
proof fn lemma_cut(overlays: Seq<OverlayLayout>, start: int, end: int)
    requires
        0 <= start <= end <= overlays.len(),
    ensures
        overlays.take(start) + overlays.subrange(start, end).reverse().reverse() + overlays.skip(end)
            == overlays,
        end == overlays.len() ==> overlays.take(start) + overlays.skip(start).reverse().reverse()
            == overlays,
        end == overlays.len() && start == end ==> overlays + Seq::<OverlayLayout>::empty().reverse()
            == overlays,
{
    assert(overlays.subrange(start, end).reverse().reverse() =~= overlays.subrange(start, end));
    assert(overlays.take(start) + overlays.subrange(start, end) + overlays.skip(end) =~= overlays);
    if end == overlays.len() {
        assert(overlays.skip(start).reverse().reverse() =~= overlays.skip(start));
        assert(overlays.take(start) + overlays.skip(start) =~= overlays);
        assert(overlays + Seq::<OverlayLayout>::empty().reverse() =~= overlays);
    }
}

/// Once the cursor has left the layer, no overlay is left that was to hide when
/// it is no longer hovered; those below the first of them stay.
pub proof fn law_unhover_hides(stack: OverlayStack)
    requires
        stack.wf(),
    ensures
        stack.unhovered().hovering is None,
        forall|i: int|
            0 <= i < stack.unhovered().overlays.len() ==> !(
            #[trigger] stack.unhovered().overlays[i]).requires_hover,
        stack.unhovered().overlays == stack.overlays.take(
            stack.unhovered().overlays.len() as int,
        ),
        stack.unhovered().overlays.len() < stack.overlays.len()
            ==> stack.overlays[stack.unhovered().overlays.len() as int].requires_hover,
{
    lemma_first_requiring(stack.overlays, 0);
    assert(stack.overlays.take(stack.overlays.len() as int) =~= stack.overlays);
}

/// The layer is hit exactly where an overlay holds the cursor, or, while there
/// are overlays, where the cursor is not outside of the widget at the root. Where
/// a layer with overlays is not hit, moving the cursor there finds the
/// surroundings of that widget.
pub proof fn law_hit_where_something_is_hovered(
    stack: OverlayStack,
    location: Point<i32>,
    tree: WidgetTree,
)
    ensures
        stack.hit(location, tree) <==> {
            ||| exists|i: int|
                0 <= i < stack.overlays.len() && holds_cursor(
                    #[trigger] stack.overlays[i],
                    location,
                )
            ||| stack.overlays.len() > 0 && !stack.outside_root(location, tree)
        },
        stack.overlays.len() > 0 ==> (stack.hit(location, tree) <==> stack.tested(
            location,
            true,
            tree,
        ) != Some(0nat)),
{
    lemma_first_holding(stack.overlays, location, 0);
}

/// When the cursor moves from an overlay to where neither an overlay holds it
/// nor the widget is that the lowest overlay is relative to, every overlay is
/// dismissed.
pub proof fn law_hover_off_dismisses_all(
    stack: OverlayStack,
    location: Point<i32>,
    tree: WidgetTree,
)
    requires
        stack.wf(),
        stack.hovering matches Some(hovering) && hovering > 0,
        forall|i: int|
            0 <= i < stack.overlays.len() ==> !holds_cursor(#[trigger] stack.overlays[i], location),
        stack.outside_root(location, tree),
    ensures
        ({
            let found = stack.tested(location, true, tree);
            &&& stack.hovered(found).overlays.len() == 0
            &&& stack.hovered_off(found) == stack.overlays.reverse()
        }),
{
    lemma_first_holding(stack.overlays, location, 0);
    assert(stack.overlays.skip(0) =~= stack.overlays);
}

/// While the cursor is on the widget that the lowest overlay is relative to,
/// and on no overlay, no overlay is dismissed.
pub proof fn law_hover_on_root_dismisses_none(
    stack: OverlayStack,
    location: Point<i32>,
    tree: WidgetTree,
)
    requires
        stack.wf(),
        forall|i: int|
            0 <= i < stack.overlays.len() ==> !holds_cursor(#[trigger] stack.overlays[i], location),
        !stack.outside_root(location, tree),
    ensures
        ({
            let found = stack.tested(location, true, tree);
            &&& stack.hovered(found).overlays == stack.overlays
            &&& stack.hovered(found).hovering is None
            &&& stack.hovered_off(found) == Seq::<OverlayLayout>::empty()
        }),
{
    lemma_first_holding(stack.overlays, location, 0);
}

/// An overlay that holds the cursor stays, and so do those below the first that
/// does.
pub proof fn law_hover_keeps_what_is_hovered(
    stack: OverlayStack,
    location: Point<i32>,
    tree: WidgetTree,
    first: int,
)
    requires
        stack.wf(),
        0 <= first < stack.overlays.len(),
        holds_cursor(stack.overlays[first], location),
        forall|i: int| 0 <= i < first ==> !holds_cursor(#[trigger] stack.overlays[i], location),
    ensures
        ({
            let after = stack.hovered(stack.tested(location, true, tree));
            &&& after.hovering == Some((first + 1) as nat)
            &&& after.overlays.len() > first
            &&& after.overlays.take(first + 1) == stack.overlays.take(first + 1)
        }),
{
    lemma_first_holding(stack.overlays, location, 0);
    let after = stack.hovered(stack.tested(location, true, tree));
    assert(after.overlays.take(first + 1) =~= stack.overlays.take(first + 1));
}

/// The overlay at `index` is laid out on the side that it was shown for, if that
/// side is not crowded, else on the first that is not, clockwise from there; and
/// it is only left crowded if every side is.
pub proof fn law_settled_avoids_what_it_can(
    stack: OverlayStack,
    index: int,
    direction: Direction,
    anchor: Rect<i32>,
    size: Size<i32>,
    available: Size<u32>,
    tree: WidgetTree,
)
    ensures
        ({
            let settled = stack.settled(index, direction, 3, anchor, size, available, tree);
            let asked_for = placed(direction, anchor, size, available);
            &&& !stack.crowded(index, asked_for, anchor, tree) ==> settled == asked_for
            &&& stack.crowded(index, settled, anchor, tree) ==> forall|turns: nat|
                turns < 4 ==> stack.crowded(
                    index,
                    placed(#[trigger] direction.turned(turns), anchor, size, available),
                    anchor,
                    tree,
                )
            &&& exists|turns: nat|
                turns < 4 && settled == placed(
                    #[trigger] direction.turned(turns),
                    anchor,
                    size,
                    available,
                ) && forall|before: nat|
                    before < turns ==> stack.crowded(
                        index,
                        placed(#[trigger] direction.turned(before), anchor, size, available),
                        anchor,
                        tree,
                    )
        }),
{
    reveal_with_fuel(OverlayStack::settled, 4);
    reveal_with_fuel(Direction::turned, 4);
    let settled = stack.settled(index, direction, 3, anchor, size, available, tree);
    let zero = placed(direction.turned(0), anchor, size, available);
    let one = placed(direction.turned(1), anchor, size, available);
    let two = placed(direction.turned(2), anchor, size, available);
    let turns: nat = if !stack.crowded(index, zero, anchor, tree) {
        0
    } else if !stack.crowded(index, one, anchor, tree) {
        1
    } else if !stack.crowded(index, two, anchor, tree) {
        2
    } else {
        3
    };
    assert(settled == placed(direction.turned(turns), anchor, size, available));
    assert forall|before: nat| before < turns implies stack.crowded(
        index,
        placed(#[trigger] direction.turned(before), anchor, size, available),
        anchor,
        tree,
    ) by {
        assert(before == 0 || before == 1 || before == 2);
    }
    if stack.crowded(index, settled, anchor, tree) {
        assert forall|turns: nat| turns < 4 implies stack.crowded(
            index,
            placed(#[trigger] direction.turned(turns), anchor, size, available),
            anchor,
            tree,
        ) by {
            assert(turns == 0 || turns == 1 || turns == 2 || turns == 3);
        }
    }
}

/// An overlay that is shown relative to a widget never reaches past the right
/// and bottom ends of the available space, and lies wholly within it if it is no
/// larger.
pub proof fn law_settled_within_available(
    stack: OverlayStack,
    index: int,
    direction: Direction,
    turns: nat,
    anchor: Rect<i32>,
    size: Size<i32>,
    available: Size<u32>,
    tree: WidgetTree,
)
    requires
        size.width >= 0,
        size.height >= 0,
        stack.settles(index, direction, turns, anchor, size, available, tree),
    ensures
        ({
            let settled = stack.settled(index, direction, turns, anchor, size, available, tree);
            &&& settled.size == size
            &&& settled.right() <= available.width
            &&& settled.bottom() <= available.height
            &&& size.width <= available.width ==> settled.left() >= 0
            &&& size.height <= available.height ==> settled.top() >= 0
        }),
    decreases turns,
{
    let layout = placed(direction, anchor, size, available);
    if turns > 0 && stack.crowded(index, layout, anchor, tree) {
        law_settled_within_available(
            stack,
            index,
            direction.clockwise(),
            (turns - 1) as nat,
            anchor,
            size,
            available,
            tree,
        );
    } else {
        law_placed_within_available(direction, anchor, size, available);
    }
}

impl OverlayStack {
    /// A layout can be where `stage` says: the layer is ready, all overlays have
    /// been admitted before the first is placed, and the overlay that the stage
    /// speaks of is there.
    pub open spec fn underway(self, stage: OverlayStage) -> bool {
        &&& self.ready()
        &&& match stage {
            OverlayStage::Admitting => true,
            OverlayStage::Placing(index) => self.new_overlays == 0 && index < self.overlays.len(),
            OverlayStage::Measuring(index, _) => {
                &&& self.new_overlays == 0
                &&& index < self.overlays.len()
                &&& self.overlays[index as int].layout is None
            },
            OverlayStage::Arranging(index) => self.new_overlays == 0 && index < self.overlays.len(),
            OverlayStage::Finished => self.new_overlays == 0,
        }
    }

    /// The overlay at `index` was passed over: it could not be laid out when the
    /// widget tree was one of those that were `seen`.
    pub open spec fn passed_over(
        self,
        index: int,
        available: Size<u32>,
        seen: Seq<WidgetTree>,
    ) -> bool {
        exists|i: int|
            0 <= i < seen.len() && self.need(index, available, #[trigger] seen[i]) is Hidden
    }

    /// How many overlays a layout is done with that is where `stage` says.
    pub open spec fn done_count(self, stage: OverlayStage) -> int {
        match stage {
            OverlayStage::Admitting => 0,
            OverlayStage::Placing(index) => index as int,
            OverlayStage::Measuring(index, _) => index as int,
            OverlayStage::Arranging(index) => index + 1,
            OverlayStage::Finished => self.overlays.len() as int,
        }
    }

    /// Each of the first `count` overlays has been laid out, or was passed over.
    pub open spec fn done_below(
        self,
        count: int,
        available: Size<u32>,
        seen: Seq<WidgetTree>,
    ) -> bool {
        forall|i: int|
            0 <= i < count ==> (#[trigger] self.overlays[i]).layout is Some || self.passed_over(
                i,
                available,
                seen,
            )
    }

    /// A layout that is where `stage` says has been going on as it should, and was
    /// given the widget trees that were `seen`: each overlay that it is done with,
    /// and each one once it is finished, has been laid out or was passed over.
    pub open spec fn on_course(
        self,
        stage: OverlayStage,
        available: Size<u32>,
        seen: Seq<WidgetTree>,
    ) -> bool {
        &&& self.underway(stage)
        &&& self.done_below(self.done_count(stage), available, seen)
    }

    /// A bound on how many more requests a layout makes that is where `stage`
    /// says.
    pub open spec fn requests_left(self, stage: OverlayStage) -> nat {
        let len = self.overlays.len() as int;
        let in_stage = match stage {
            OverlayStage::Admitting => 3 * len + 3,
            OverlayStage::Placing(index) => 3 * (len - index) + 2,
            OverlayStage::Measuring(index, _) => 3 * (len - index) + 1,
            OverlayStage::Arranging(index) => 3 * (len - index),
            OverlayStage::Finished => 0,
        };
        (3 * unmounted_in(self.overlays) + 3 * self.new_overlays + in_stage) as nat
    }
}

/// How many of `overlays` have a widget that is not mounted.
pub open spec fn unmounted_in(overlays: Seq<OverlayLayout>) -> nat
    decreases overlays.len(),
{
    if overlays.len() == 0 {
        0
    } else {
        unmounted_in(overlays.drop_last()) + (if overlays.last().widget is Unmounted {
            1nat
        } else {
            0
        })
    }
}

/// A layout stays on course, whatever the widget tree is at each step, and asks
/// for a layer size of zero when it is finished, and only then.
pub proof fn law_layout_stays_on_course(
    stack: OverlayStack,
    pass: OverlayPass,
    reply: OverlayReply,
    tree: WidgetTree,
    seen: Seq<WidgetTree>,
)
    requires
        stack.on_course(pass.stage, pass.available, seen),
        stack.can_advance(pass, reply, tree),
        stack.overlays.len() <= usize::MAX,
    ensures
        ({
            let (after, stage, ask) = stack.advanced(pass, reply, tree);
            &&& after.on_course(stage, pass.available, seen.push(tree))
            &&& after.overlays.len() <= stack.overlays.len()
            &&& ask is Finished <==> stage is Finished
            &&& ask matches OverlayAsk::Finished(size) ==> size.width == 0 && size.height == 0
        }),
{
    let (after, stage, ask) = stack.advanced(pass, reply, tree);
    let trees = seen.push(tree);
    let count = stack.done_count(pass.stage);
    assert(stack.done_below(count, pass.available, trees)) by {
        assert forall|i: int| 0 <= i < count && !((#[trigger] stack.overlays[i]).layout is Some)
            implies stack.passed_over(i, pass.available, trees) by {
            let t = choose|t: int|
                0 <= t < seen.len() && stack.need(i, pass.available, #[trigger] seen[t]) is Hidden;
            assert(trees[t] == seen[t]);
        }
    }
    match pass.stage {
        OverlayStage::Admitting => {
            if stack.new_overlays == 0 {
                lemma_placing_on_course(stack, 0, pass.available, tree, trees);
            } else if stack.overlays[stack.new_index() as int].widget is Mounted {
                law_admission_stays_ready(stack, tree);
                lemma_kept(stack, tree);
            }
        },
        OverlayStage::Placing(index) => {
            lemma_placing_on_course(stack, index as nat, pass.available, tree, trees);
        },
        OverlayStage::Measuring(index, _) => {
            assert forall|i: int| 0 <= i <= index && !((#[trigger] after.overlays[i]).layout is Some)
                implies after.passed_over(i, pass.available, trees) by {
                assert(after.overlays[i] == stack.overlays[i]);
                let t = choose|t: int|
                    0 <= t < trees.len() && stack.need(i, pass.available, #[trigger] trees[t])
                        is Hidden;
                assert(after.need(i, pass.available, trees[t]) is Hidden);
            }
        },
        OverlayStage::Arranging(index) => {
            lemma_placing_on_course(stack, index as nat + 1, pass.available, tree, trees);
        },
        OverlayStage::Finished => {},
    }
}

/// Placing leaves a layout on course.
proof fn lemma_placing_on_course(
    stack: OverlayStack,
    index: nat,
    available: Size<u32>,
    tree: WidgetTree,
    seen: Seq<WidgetTree>,
)
    requires
        stack.ready(),
        stack.new_overlays == 0,
        stack.overlays.len() <= usize::MAX,
        index <= stack.overlays.len(),
        stack.done_below(index as int, available, seen),
        seen.len() > 0,
        seen.last() == tree,
    ensures
        ({
            let (after, stage, ask) = stack.placing(index, available, tree);
            &&& after.on_course(stage, available, seen)
            &&& after.overlays.len() == stack.overlays.len()
            &&& ask is Finished <==> stage is Finished
            &&& ask matches OverlayAsk::Finished(size) ==> size.width == 0 && size.height == 0
        }),
    decreases stack.overlays.len() - index,
{
    if index < stack.overlays.len() {
        let overlay = stack.overlays[index as int];
        if overlay.widget is Unmounted {
            let after = stack.with_mounted(index as int);
            assert forall|i: int| 0 <= i < index && !((#[trigger] after.overlays[i]).layout is Some)
                implies after.passed_over(i, available, seen) by {
                assert(after.overlays[i] == stack.overlays[i]);
                let t = choose|t: int|
                    0 <= t < seen.len() && stack.need(i, available, #[trigger] seen[t]) is Hidden;
                assert(after.need(i, available, seen[t]) is Hidden);
            }
        } else if stack.need(index as int, available, tree) is Hidden {
            assert(stack.need(index as int, available, seen[seen.len() - 1]) is Hidden);
            assert(stack.passed_over(index as int, available, seen));
            lemma_placing_on_course(stack, index + 1, available, tree, seen);
        }
    }
}

/// A layout comes to its end: each request that it makes leaves it with fewer to
/// make, until it is finished.
pub proof fn law_layout_comes_to_its_end(
    stack: OverlayStack,
    pass: OverlayPass,
    reply: OverlayReply,
    tree: WidgetTree,
)
    requires
        stack.underway(pass.stage),
        stack.can_advance(pass, reply, tree),
        stack.overlays.len() <= usize::MAX,
        !(pass.stage is Finished),
    ensures
        ({
            let (after, stage, ask) = stack.advanced(pass, reply, tree);
            after.requests_left(stage) < stack.requests_left(pass.stage)
        }),
{
    match pass.stage {
        OverlayStage::Admitting => {
            if stack.new_overlays == 0 {
                lemma_placing_requests(stack, 0, pass.available, tree);
            } else {
                let new_index = stack.new_index() as int;
                if stack.overlays[new_index].widget is Mounted {
                    lemma_kept(stack, tree);
                    let kept = stack.kept(tree) as int;
                    lemma_unmounted_parts(stack.overlays.take(kept), stack.overlays.skip(new_index));
                    assert(stack.overlays.take(kept) + stack.overlays.subrange(kept, new_index)
                        =~= stack.overlays.take(new_index));
                    lemma_unmounted_parts(
                        stack.overlays.take(kept),
                        stack.overlays.subrange(kept, new_index),
                    );
                    assert(stack.overlays.take(new_index) + stack.overlays.skip(new_index)
                        =~= stack.overlays);
                    lemma_unmounted_parts(
                        stack.overlays.take(new_index),
                        stack.overlays.skip(new_index),
                    );
                } else {
                    lemma_mounting_counts(stack, new_index);
                }
            }
        },
        OverlayStage::Placing(index) => {
            lemma_placing_requests(stack, index as nat, pass.available, tree);
        },
        OverlayStage::Measuring(index, anchor) => {
            if let OverlayReply::Measured(measured) = reply {
                let layout = stack.laid_out(index as int, anchor, measured, pass.available, tree);
                let overlay = OverlayLayout {
                    layout: Some(layout),
                    ..stack.overlays[index as int]
                };
                lemma_unmounted_update(stack.overlays, index as int, overlay);
            }
        },
        OverlayStage::Arranging(index) => {
            lemma_placing_requests(stack, index as nat + 1, pass.available, tree);
        },
        OverlayStage::Finished => {},
    }
}

/// Placing leaves fewer requests to make than when the overlay at `index` was
/// next.
proof fn lemma_placing_requests(
    stack: OverlayStack,
    index: nat,
    available: Size<u32>,
    tree: WidgetTree,
)
    requires
        stack.ready(),
        stack.new_overlays == 0,
        stack.overlays.len() <= usize::MAX,
        index <= stack.overlays.len(),
    ensures
        ({
            let (after, stage, ask) = stack.placing(index, available, tree);
            after.requests_left(stage) < 3 * unmounted_in(stack.overlays) + 3 * (
            stack.overlays.len() - index) + 2
        }),
    decreases stack.overlays.len() - index,
{
    if index < stack.overlays.len() {
        lemma_placing_requests(stack, index + 1, available, tree);
        if stack.overlays[index as int].widget is Unmounted {
            lemma_mounting_counts(stack, index as int);
        }
    }
}

/// Mounting the widget of an overlay leaves one fewer to mount.
proof fn lemma_mounting_counts(stack: OverlayStack, index: int)
    requires
        0 <= index < stack.overlays.len(),
        stack.overlays[index].widget is Unmounted,
    ensures
        unmounted_in(stack.with_mounted(index).overlays) + 1 == unmounted_in(stack.overlays),
{
    let overlay = stack.overlays[index];
    let mounted = OverlayLayout { widget: WidgetRef::Mounted(overlay.widget.spec_id()), ..overlay };
    lemma_unmounted_update(stack.overlays, index, mounted);
}

/// The overlays of two sequences that are not mounted add up.
proof fn lemma_unmounted_parts(a: Seq<OverlayLayout>, b: Seq<OverlayLayout>)
    ensures
        unmounted_in(a + b) == unmounted_in(a) + unmounted_in(b),
    decreases b.len(),
{
    if b.len() == 0 {
        assert(a + b =~= a);
    } else {
        assert((a + b).drop_last() =~= a + b.drop_last());
        assert((a + b).last() == b.last());
        lemma_unmounted_parts(a, b.drop_last());
    }
}

/// Replacing an overlay changes the number of those that are not mounted by that
/// overlay alone.
proof fn lemma_unmounted_update(overlays: Seq<OverlayLayout>, index: int, overlay: OverlayLayout)
    requires
        0 <= index < overlays.len(),
    ensures
        unmounted_in(overlays.update(index, overlay)) + unmounted_in(seq![overlays[index]])
            == unmounted_in(overlays) + unmounted_in(seq![overlay]),
        unmounted_in(seq![overlay]) == if overlay.widget is Unmounted {
            1nat
        } else {
            0
        },
        unmounted_in(seq![overlays[index]]) == if overlays[index].widget is Unmounted {
            1nat
        } else {
            0
        },
{
    let below = overlays.take(index);
    let above = overlays.skip(index + 1);
    reveal_with_fuel(unmounted_in, 2);
    assert(overlays =~= below + seq![overlays[index]] + above);
    assert(overlays.update(index, overlay) =~= below + seq![overlay] + above);
    lemma_unmounted_parts(below, seq![overlays[index]]);
    lemma_unmounted_parts(below + seq![overlays[index]], above);
    lemma_unmounted_parts(below, seq![overlay]);
    lemma_unmounted_parts(below + seq![overlay], above);
}

impl OverlayStack {
    /// The request to lay the overlay at `index` out at `layout`.
    pub open spec fn arranging(self, index: int, layout: Rect<i32>) -> OverlayAsk {
        OverlayAsk::Arrange(
            self.overlays[index].widget.spec_id(),
            filling(layout.size),
            layout,
        )
    }
}

/// Once all overlays have been admitted, a layout takes none away, and an
/// overlay that has been laid out stays where it is: it is not measured, and when
/// it is its turn, it is asked to be laid out in the same place again.
pub proof fn law_layouts_are_kept(
    stack: OverlayStack,
    pass: OverlayPass,
    reply: OverlayReply,
    tree: WidgetTree,
    other: int,
)
    requires
        stack.underway(pass.stage),
        stack.new_overlays == 0,
        stack.can_advance(pass, reply, tree),
        stack.overlays.len() <= usize::MAX,
        0 <= other < stack.overlays.len(),
        stack.overlays[other].layout is Some,
    ensures
        ({
            let (after, stage, ask) = stack.advanced(pass, reply, tree);
            &&& after.new_overlays == 0
            &&& after.overlays.len() == stack.overlays.len()
            &&& after.ids == stack.ids
            &&& after.overlays[other].layout == stack.overlays[other].layout
            &&& after.overlays[other].widget.spec_id() == stack.overlays[other].widget.spec_id()
            &&& stage matches OverlayStage::Measuring(index, _) ==> index != other
            &&& stage == OverlayStage::Arranging(other as usize) ==> ask == stack.arranging(
                other,
                stack.overlays[other].layout->0,
            )
        }),
{
    match pass.stage {
        OverlayStage::Admitting => lemma_placing_keeps(stack, 0, pass.available, tree, other),
        OverlayStage::Placing(index) => {
            lemma_placing_keeps(stack, index as nat, pass.available, tree, other);
        },
        OverlayStage::Arranging(index) => {
            lemma_placing_keeps(stack, index as nat + 1, pass.available, tree, other);
        },
        _ => {},
    }
}

/// Placing takes no overlay away and moves none, and does not go past one that has
/// been laid out without asking for it to be laid out again.
proof fn lemma_placing_keeps(
    stack: OverlayStack,
    index: nat,
    available: Size<u32>,
    tree: WidgetTree,
    other: int,
)
    requires
        stack.overlays.len() <= usize::MAX,
        0 <= other < stack.overlays.len(),
        stack.overlays[other].layout is Some,
    ensures
        ({
            let (after, stage, ask) = stack.placing(index, available, tree);
            &&& after.new_overlays == stack.new_overlays
            &&& after.overlays.len() == stack.overlays.len()
            &&& after.ids == stack.ids
            &&& after.overlays[other].layout == stack.overlays[other].layout
            &&& after.overlays[other].widget.spec_id() == stack.overlays[other].widget.spec_id()
            &&& stage matches OverlayStage::Measuring(index, _) ==> index != other
            &&& stage == OverlayStage::Arranging(other as usize) ==> ask == stack.arranging(
                other,
                stack.overlays[other].layout->0,
            )
            &&& index <= other && reaches(stage, other) ==> stage == OverlayStage::Arranging(
                other as usize,
            )
        }),
    decreases stack.overlays.len() - index,
{
    if index < stack.overlays.len() {
        lemma_placing_keeps(stack, index + 1, available, tree, other);
    }
}

/// A layout that is where `stage` says has come to the overlay at `index`, or
/// beyond it.
pub open spec fn reaches(stage: OverlayStage, index: int) -> bool {
    match stage {
        OverlayStage::Admitting => false,
        OverlayStage::Placing(next) => next > index,
        OverlayStage::Measuring(next, _) => next > index,
        OverlayStage::Arranging(next) => next >= index,
        OverlayStage::Finished => true,
    }
}

/// A whole layout of a layer, step by step.
pub struct LayoutRun {
    /// The space that is available to the layer.
    pub available: Size<u32>,
    /// The overlays before each step, and after the last.
    pub stacks: Seq<OverlayStack>,
    /// How far the layout has come before each step, and after the last.
    pub stages: Seq<OverlayStage>,
    /// What came of the request before each step.
    pub replies: Seq<OverlayReply>,
    /// The widget tree at each step.
    pub trees: Seq<WidgetTree>,
    /// What each step asked for.
    pub asks: Seq<OverlayAsk>,
}

impl LayoutRun {
    /// The step at `k` leads from what was before it to what is after it.
    pub open spec fn steps(self, k: int) -> bool {
        let pass = OverlayPass { available: self.available, stage: self.stages[k] };
        &&& self.stacks[k].can_advance(pass, self.replies[k], self.trees[k])
        &&& (self.stacks[k + 1], self.stages[k + 1], self.asks[k]) == self.stacks[k].advanced(
            pass,
            self.replies[k],
            self.trees[k],
        )
    }

    /// The layout begins at its beginning, on a layer that is ready, and each step
    /// follows from the one before.
    pub open spec fn runs(self) -> bool {
        &&& self.stacks.len() == self.asks.len() + 1
        &&& self.stages.len() == self.asks.len() + 1
        &&& self.replies.len() == self.asks.len()
        &&& self.trees.len() == self.asks.len()
        &&& self.stages[0] is Admitting
        &&& self.stacks[0].ready()
        &&& self.stacks[0].overlays.len() <= usize::MAX
        &&& forall|k: int| 0 <= k < self.asks.len() ==> #[trigger] self.steps(k)
    }
}

/// When a layout is finished, each overlay has been laid out, but for those that
/// are relative to a widget of which it was not known at one of the steps where it
/// is. So an overlay that is relative to no widget has been laid out.
pub proof fn law_finished_layout_is_complete(run: LayoutRun, index: int)
    requires
        run.runs(),
        run.stages.last() is Finished,
        0 <= index < run.stacks.last().overlays.len(),
    ensures
        ({
            let overlay = run.stacks.last().overlays[index];
            overlay.layout is Some || exists|k: int|
                0 <= k < run.trees.len() && overlay.relative_to is Some && (
                #[trigger] run.trees[k]).layout_of(overlay.relative_to->0) is None
        }),
        run.stacks.last().new_overlays == 0,
{
    let last = run.asks.len() as int;
    lemma_run_on_course(run, last);
    let stack = run.stacks.last();
    let overlay = stack.overlays[index];
    assert(run.trees.take(last) =~= run.trees);
    if !(overlay.layout is Some) {
        assert(stack.passed_over(index, run.available, run.trees));
        let k = choose|k: int|
            0 <= k < run.trees.len() && stack.need(index, run.available, #[trigger] run.trees[k])
                is Hidden;
        assert(run.trees[k].layout_of(overlay.relative_to->0) is None);
    }
}

/// A layout is on course at each of its steps.
proof fn lemma_run_on_course(run: LayoutRun, k: int)
    requires
        run.runs(),
        0 <= k <= run.asks.len(),
    ensures
        run.stacks[k].on_course(run.stages[k], run.available, run.trees.take(k)),
        run.stacks[k].overlays.len() <= usize::MAX,
    decreases k,
{
    if k > 0 {
        lemma_run_on_course(run, k - 1);
        assert(run.steps(k - 1));
        law_layout_stays_on_course(
            run.stacks[k - 1],
            OverlayPass { available: run.available, stage: run.stages[k - 1] },
            run.replies[k - 1],
            run.trees[k - 1],
            run.trees.take(k - 1),
        );
        assert(run.trees.take(k) =~= run.trees.take(k - 1).push(run.trees[k - 1]));
    }
}

/// A layer that is laid out again, with no overlay shown since, keeps each overlay
/// where it was laid out before, whatever space is available now: at no step is it
/// elsewhere, it is never measured, and by the end it has been asked to be laid
/// out in the same place.
pub proof fn law_laid_out_again_in_the_same_place(run: LayoutRun, index: int)
    requires
        run.runs(),
        run.stages.last() is Finished,
        run.stacks[0].new_overlays == 0,
        0 <= index < run.stacks[0].overlays.len(),
        run.stacks[0].overlays[index].layout is Some,
    ensures
        forall|k: int|
            0 <= k < run.stacks.len() ==> {
                &&& (#[trigger] run.stacks[k]).overlays.len() == run.stacks[0].overlays.len()
                &&& run.stacks[k].overlays[index].layout == run.stacks[0].overlays[index].layout
            },
        forall|k: int|
            0 <= k < run.stages.len() ==> !(#[trigger] run.stages[k] matches OverlayStage::Measuring(
                measured,
                _,
            ) && measured == index),
        exists|k: int|
            0 <= k < run.asks.len() && #[trigger] run.asks[k] == run.stacks[0].arranging(
                index,
                run.stacks[0].overlays[index].layout->0,
            ),
{
    let last = run.asks.len() as int;
    assert forall|k: int| 0 <= k <= last implies {
        &&& (#[trigger] run.stacks[k]).overlays.len() == run.stacks[0].overlays.len()
        &&& run.stacks[k].overlays[index].layout == run.stacks[0].overlays[index].layout
    } by {
        lemma_run_keeps(run, index, k);
    }
    assert forall|k: int| 0 <= k <= last implies !(
    #[trigger] run.stages[k] matches OverlayStage::Measuring(measured, _) && measured == index) by {
        lemma_run_keeps(run, index, k);
    }
    lemma_run_keeps(run, index, last);
}

/// Up to the step at `k`, the overlay at `index` has stayed where it is, and once
/// the layout has come to it, it has been asked to be laid out there.
proof fn lemma_run_keeps(run: LayoutRun, index: int, k: int)
    requires
        run.runs(),
        run.stacks[0].new_overlays == 0,
        0 <= index < run.stacks[0].overlays.len(),
        run.stacks[0].overlays[index].layout is Some,
        0 <= k <= run.asks.len(),
    ensures
        run.stacks[k].new_overlays == 0,
        run.stacks[k].overlays.len() == run.stacks[0].overlays.len(),
        run.stacks[k].overlays[index].layout == run.stacks[0].overlays[index].layout,
        run.stacks[k].overlays[index].widget.spec_id()
            == run.stacks[0].overlays[index].widget.spec_id(),
        !(run.stages[k] matches OverlayStage::Measuring(measured, _) && measured == index),
        reaches(run.stages[k], index) ==> exists|j: int|
            0 <= j < k && #[trigger] run.asks[j] == run.stacks[0].arranging(
                index,
                run.stacks[0].overlays[index].layout->0,
            ),
    decreases k,
{
    if k > 0 {
        let before = run.stacks[k - 1];
        let pass = OverlayPass { available: run.available, stage: run.stages[k - 1] };
        let tree = run.trees[k - 1];
        lemma_run_keeps(run, index, k - 1);
        lemma_run_on_course(run, k - 1);
        assert(run.steps(k - 1));
        law_layouts_are_kept(before, pass, run.replies[k - 1], tree, index);
        if reaches(run.stages[k], index) && !reaches(run.stages[k - 1], index) {
            match pass.stage {
                OverlayStage::Admitting => {
                    lemma_placing_keeps(before, 0, run.available, tree, index);
                },
                OverlayStage::Placing(next) => {
                    lemma_placing_keeps(before, next as nat, run.available, tree, index);
                },
                OverlayStage::Arranging(next) => {
                    lemma_placing_keeps(before, next as nat + 1, run.available, tree, index);
                },
                _ => {},
            }
            assert(run.asks[k - 1] == run.stacks[0].arranging(
                index,
                run.stacks[0].overlays[index].layout->0,
            ));
        }
    }
}

/// What `first_holding` finds is the first overlay from `start` on that keeps
/// the cursor on it.
pub(crate) proof fn lemma_first_holding(overlays: Seq<OverlayLayout>, location: Point<i32>, start: nat)
    requires
        start <= overlays.len(),
    ensures
        match first_holding(overlays, location, start) {
            Some(first) => {
                &&& start <= first < overlays.len()
                &&& holds_cursor(overlays[first as int], location)
                &&& forall|i: int|
                    start <= i < first ==> !holds_cursor(#[trigger] overlays[i], location)
            },
            None => forall|i: int|
                start <= i < overlays.len() ==> !holds_cursor(#[trigger] overlays[i], location),
        },
    decreases overlays.len() - start,
{
    if start < overlays.len() && !holds_cursor(overlays[start as int], location) {
        lemma_first_holding(overlays, location, start + 1);
    }
}

/// What `first_requiring_hover` finds is the first overlay from `start` on that
/// asks to be hovered.
pub(crate) proof fn lemma_first_requiring(overlays: Seq<OverlayLayout>, start: nat)
    requires
        start <= overlays.len(),
    ensures
        match first_requiring_hover(overlays, start) {
            Some(first) => {
                &&& start <= first < overlays.len()
                &&& overlays[first as int].requires_hover
                &&& forall|i: int| start <= i < first ==> !(#[trigger] overlays[i]).requires_hover
            },
            None => forall|i: int|
                start <= i < overlays.len() ==> !(#[trigger] overlays[i]).requires_hover,
        },
    decreases overlays.len() - start,
{
    if start < overlays.len() && !overlays[start as int].requires_hover {
        lemma_first_requiring(overlays, start + 1);
    }
}

/// The overlays that stay below a new one are among those that are not new, and
/// the topmost of them is one that its widget is relative to.
proof fn lemma_kept(stack: OverlayStack, tree: WidgetTree)
    requires
        0 < stack.new_overlays <= stack.overlays.len(),
    ensures
        ({
            let kept = stack.kept(tree);
            let overlay = stack.overlays[stack.new_index() as int];
            &&& kept <= stack.new_index()
            &&& kept > 0 ==> match overlay.relative_to {
                Some(relative_to) => tree.is_child(
                    relative_to,
                    stack.overlays[kept - 1].widget.spec_id(),
                ),
                None => false,
            }
        }),
{
    if let Some(relative_to) = stack.overlays[stack.new_index() as int].relative_to {
        crate::state::lemma_kept_below_bound(
            stack.overlays,
            stack.new_index(),
            relative_to,
            tree,
        );
    }
}

} // verus!
