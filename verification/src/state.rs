//! The overlays of a layer: which are shown, which are hovered, where they go.
use crate::geometry::{rect_contains, Point, Rect};
use crate::stack::{
    expected, lots_get, lots_get_mut, lots_ids, lots_index_of, lots_items, lots_len, lots_limit,
    lots_new, lots_pop, lots_push, lots_remove, OverlayLayout,
};
use crate::widget::{WidgetId, WidgetRef, WidgetTree};
use alot::{LotId, OrderedLots};
use vstd::prelude::*;

verus! {

/// The overlays of a layer, as a mathematical value.
#[verifier::ext_equal]
pub struct OverlayStack {
    /// The overlays, the lowest first.
    pub overlays: Seq<OverlayLayout>,
    /// The id of each overlay.
    pub ids: Seq<LotId>,
    /// How many of the overlays, counted from the top, have not been through a
    /// layout yet.
    pub new_overlays: nat,
    /// What the cursor was over when it last moved: nothing, the surroundings of
    /// the widget at the root (0), or an overlay (its position plus one).
    pub hovering: Option<nat>,
}

/// `overlay` keeps a cursor at `location` on it: it asks to be hovered, and has
/// not been laid out elsewhere.
pub open spec fn holds_cursor(overlay: OverlayLayout, location: Point<i32>) -> bool {
    overlay.requires_hover && match overlay.layout {
        Some(layout) => layout.encloses(location),
        None => true,
    }
}

/// The position of the first of `overlays`, from `start` on, that keeps the
/// cursor on it.
pub open spec fn first_holding(
    overlays: Seq<OverlayLayout>,
    location: Point<i32>,
    start: nat,
) -> Option<nat>
    decreases overlays.len() - start,
{
    if start >= overlays.len() {
        None
    } else if holds_cursor(overlays[start as int], location) {
        Some(start)
    } else {
        first_holding(overlays, location, start + 1)
    }
}

/// The far corners of the layouts are representable that are looked at when the
/// first of `overlays`, from `start` on, is looked for that keeps the cursor on
/// it.
pub open spec fn can_look(
    overlays: Seq<OverlayLayout>,
    location: Point<i32>,
    start: nat,
) -> bool
    decreases overlays.len() - start,
{
    if start >= overlays.len() {
        true
    } else {
        let overlay = overlays[start as int];
        &&& overlay.requires_hover ==> match overlay.layout {
            Some(layout) => layout.fits(),
            None => true,
        }
        &&& !holds_cursor(overlay, location) ==> can_look(overlays, location, start + 1)
    }
}

/// The position of the first of `overlays`, from `start` on, that asks to be
/// hovered.
pub open spec fn first_requiring_hover(overlays: Seq<OverlayLayout>, start: nat) -> Option<nat>
    decreases overlays.len() - start,
{
    if start >= overlays.len() {
        None
    } else if overlays[start as int].requires_hover {
        Some(start)
    } else {
        first_requiring_hover(overlays, start + 1)
    }
}

/// How many of the first `count` overlays stay when an overlay relative to the
/// widget `relative_to` is added: up to the topmost one that this widget is a
/// child of.
pub open spec fn kept_below(
    overlays: Seq<OverlayLayout>,
    count: nat,
    relative_to: WidgetId,
    tree: WidgetTree,
) -> nat
    decreases count,
{
    if count == 0 {
        0
    } else if tree.is_child(relative_to, overlays[count - 1].widget.spec_id()) {
        count
    } else {
        kept_below(overlays, (count - 1) as nat, relative_to, tree)
    }
}

impl OverlayStack {
    /// Every overlay has an id, and no two have the same.
    pub open spec fn wf(self) -> bool {
        &&& self.ids.len() == self.overlays.len()
        &&& self.ids.no_duplicates()
    }

    /// Where the widget was laid out last that the lowest overlay is relative to.
    pub open spec fn root_layout(self, tree: WidgetTree) -> Option<Rect<i32>> {
        if self.overlays.len() == 0 {
            None
        } else {
            match self.overlays[0].relative_to {
                Some(relative_to) => tree.layout_of(relative_to),
                None => None,
            }
        }
    }

    /// `location` is outside of the widget that the lowest overlay is relative to.
    pub open spec fn outside_root(self, location: Point<i32>, tree: WidgetTree) -> bool {
        match self.root_layout(tree) {
            Some(layout) => !layout.encloses(location),
            None => false,
        }
    }

    /// What a cursor at `location` is over.
    pub open spec fn tested(
        self,
        location: Point<i32>,
        check_original_relative: bool,
        tree: WidgetTree,
    ) -> Option<nat> {
        match first_holding(self.overlays, location, 0) {
            Some(index) => Some(index + 1),
            None => if check_original_relative && self.outside_root(location, tree) {
                Some(0)
            } else {
                None
            },
        }
    }

    /// It can be said what a cursor at `location` is over: the far corners of the
    /// layouts that are looked at are representable.
    pub open spec fn can_test(
        self,
        location: Point<i32>,
        check_original_relative: bool,
        tree: WidgetTree,
    ) -> bool {
        &&& can_look(self.overlays, location, 0)
        &&& check_original_relative && first_holding(self.overlays, location, 0) is None
            ==> match self.root_layout(tree) {
            Some(root) => root.fits(),
            None => true,
        }
    }

    /// A cursor at `location` is on the layer: an overlay keeps it, or it is not
    /// outside of the widget that the lowest overlay is relative to.
    pub open spec fn hit(self, location: Point<i32>, tree: WidgetTree) -> bool {
        match first_holding(self.overlays, location, 0) {
            Some(_) => true,
            None => self.overlays.len() > 0 && !self.outside_root(location, tree),
        }
    }

    /// The overlays without those from `start` on.
    pub open spec fn cut(self, start: nat) -> OverlayStack {
        OverlayStack {
            overlays: self.overlays.take(start as int),
            ids: self.ids.take(start as int),
            new_overlays: if self.new_overlays + start >= self.overlays.len() {
                (self.new_overlays + start - self.overlays.len()) as nat
            } else {
                0
            },
            hovering: self.hovering,
        }
    }

    /// The overlays from `start` on, the topmost first.
    pub open spec fn cut_off(self, start: nat) -> Seq<OverlayLayout> {
        self.overlays.skip(start as int).reverse()
    }

    /// The overlays, the widget of the one at `index` being mounted.
    pub open spec fn with_mounted(self, index: int) -> OverlayStack {
        let overlay = self.overlays[index];
        let mounted = OverlayLayout {
            widget: WidgetRef::Mounted(overlay.widget.spec_id()),
            ..overlay
        };
        OverlayStack { overlays: self.overlays.update(index, mounted), ..self }
    }

    /// The overlays, the one at `index` being laid out at `layout`.
    pub open spec fn with_layout(self, index: int, layout: Rect<i32>) -> OverlayStack {
        let overlay = OverlayLayout { layout: Some(layout), ..self.overlays[index] };
        OverlayStack { overlays: self.overlays.update(index, overlay), ..self }
    }

    /// The cursor has moved off an overlay that it was over, onto something
    /// below it.
    pub open spec fn left_for(self, found: Option<nat>) -> bool {
        match (self.hovering, found) {
            (Some(hovering), Some(found)) => hovering > found,
            _ => false,
        }
    }

    /// The overlays after the cursor has moved to where it is over `found`.
    pub open spec fn hovered(self, found: Option<nat>) -> OverlayStack {
        let left = if self.left_for(found) {
            self.cut(found->0)
        } else {
            self
        };
        OverlayStack { hovering: found, ..left }
    }

    /// The overlays that go when the cursor moves to where it is over `found`.
    pub open spec fn hovered_off(self, found: Option<nat>) -> Seq<OverlayLayout> {
        if self.left_for(found) {
            self.cut_off(found->0)
        } else {
            Seq::empty()
        }
    }

    /// The overlays after the cursor has left the layer.
    pub open spec fn unhovered(self) -> OverlayStack {
        let left = match first_requiring_hover(self.overlays, 0) {
            Some(start) => self.cut(start),
            None => self,
        };
        OverlayStack { hovering: None, ..left }
    }

    /// The overlays that go when the cursor leaves the layer.
    pub open spec fn unhovered_off(self) -> Seq<OverlayLayout> {
        match first_requiring_hover(self.overlays, 0) {
            Some(start) => self.cut_off(start),
            None => Seq::empty(),
        }
    }

    /// The overlays with one more on top.
    pub open spec fn shown(self, overlay: OverlayLayout, id: LotId) -> OverlayStack {
        OverlayStack {
            overlays: self.overlays.push(overlay),
            ids: self.ids.push(id),
            new_overlays: self.new_overlays + 1,
            hovering: self.hovering,
        }
    }

    /// The overlays without the one whose id is `id` and those above it.
    pub open spec fn dismissed(self, id: LotId) -> OverlayStack {
        if self.ids.contains(id) {
            OverlayStack {
                overlays: self.overlays.take(self.ids.index_of(id)),
                ids: self.ids.take(self.ids.index_of(id)),
                ..self
            }
        } else {
            self
        }
    }

    /// The overlay whose id is `id` and those above it, the topmost first.
    pub open spec fn dismissed_off(self, id: LotId) -> Seq<OverlayLayout> {
        if self.ids.contains(id) {
            self.overlays.skip(self.ids.index_of(id)).reverse()
        } else {
            Seq::empty()
        }
    }

    /// The position of the lowest overlay that has not been through a layout.
    pub open spec fn new_index(self) -> nat
        recommends
            self.new_overlays <= self.overlays.len(),
    {
        (self.overlays.len() - self.new_overlays) as nat
    }

    /// How many of the overlays below the lowest new one stay.
    pub open spec fn kept(self, tree: WidgetTree) -> nat {
        match self.overlays[self.new_index() as int].relative_to {
            Some(relative_to) => kept_below(self.overlays, self.new_index(), relative_to, tree),
            None => 0,
        }
    }

    /// The overlays after the lowest new one has been admitted.
    pub open spec fn admitted(self, tree: WidgetTree) -> OverlayStack {
        OverlayStack {
            overlays: self.overlays.take(self.kept(tree) as int) + self.overlays.skip(
                self.new_index() as int,
            ),
            ids: self.ids.take(self.kept(tree) as int) + self.ids.skip(self.new_index() as int),
            new_overlays: (self.new_overlays - 1) as nat,
            hovering: self.hovering,
        }
    }

    /// The overlays that the lowest new one takes the place of, the topmost
    /// first.
    pub open spec fn displaced(self, tree: WidgetTree) -> Seq<OverlayLayout> {
        self.overlays.subrange(self.kept(tree) as int, self.new_index() as int).reverse()
    }
}

/// The overlays of a layer.
#[derive(Debug)]
pub struct OverlayState {
    overlays: OrderedLots<OverlayLayout>,
    new_overlays: usize,
    hovering: Option<usize>,
}

impl View for OverlayState {
    type V = OverlayStack;

    closed spec fn view(&self) -> OverlayStack {
        OverlayStack {
            overlays: lots_items(self.overlays),
            ids: lots_ids(self.overlays),
            new_overlays: self.new_overlays as nat,
            hovering: match self.hovering {
                Some(hovering) => Some(hovering as nat),
                None => None,
            },
        }
    }
}

impl OverlayState {
    /// Returns a state without overlays.
    pub fn new() -> (state: OverlayState)
        ensures
            state@.wf(),
            state@ == (OverlayStack {
                overlays: Seq::empty(),
                ids: Seq::empty(),
                new_overlays: 0,
                hovering: None,
            }),
    {
        OverlayState { overlays: lots_new(), new_overlays: 0, hovering: None }
    }

    /// Returns the number of overlays.
    pub fn len(&self) -> (len: usize)
        ensures
            len == self@.overlays.len(),
    {
        lots_len(&self.overlays)
    }

    /// Returns the overlay at `index`, counted from the bottom.
    pub fn overlay(&self, index: usize) -> (overlay: Option<&OverlayLayout>)
        ensures
            match overlay {
                Some(overlay) => {
                    &&& index < self@.overlays.len()
                    &&& *overlay == self@.overlays[index as int]
                },
                None => index >= self@.overlays.len(),
            },
    {
        lots_get(&self.overlays, index)
    }

    /// Returns the overlay at `index`, which is there.
    pub(crate) fn overlay_at(&self, index: usize) -> (overlay: &OverlayLayout)
        requires
            index < self@.overlays.len(),
        ensures
            *overlay == self@.overlays[index as int],
    {
        expected(lots_get(&self.overlays, index))
    }

    /// Returns how many overlays, counted from the top, have not been through a
    /// layout yet.
    pub fn new_overlays(&self) -> (count: usize)
        ensures
            count == self@.new_overlays,
    {
        self.new_overlays
    }

    /// Returns what the cursor was over when it last moved.
    pub fn hovering(&self) -> (hovering: Option<usize>)
        ensures
            match hovering {
                Some(hovering) => self@.hovering == Some(hovering as nat),
                None => self@.hovering is None,
            },
    {
        self.hovering
    }

    /// Takes note of the widget of the overlay at `index` having been mounted.
    pub(crate) fn set_mounted(&mut self, index: usize)
        requires
            old(self)@.wf(),
            index < old(self)@.overlays.len(),
        ensures
            final(self)@.wf(),
            final(self)@ == old(self)@.with_mounted(index as int),
    {
        if let Some(overlay) = lots_get_mut(&mut self.overlays, index) {
            overlay.widget = WidgetRef::Mounted(overlay.widget.id());
        }
    }

    /// Takes note of where the overlay at `index` is laid out.
    pub(crate) fn set_layout(&mut self, index: usize, layout: Rect<i32>)
        requires
            old(self)@.wf(),
            index < old(self)@.overlays.len(),
        ensures
            final(self)@.wf(),
            final(self)@ == old(self)@.with_layout(index as int, layout),
    {
        if let Some(overlay) = lots_get_mut(&mut self.overlays, index) {
            overlay.layout = Some(layout);
        }
    }

    /// Removes the overlays from `remove_starting_at` on and returns them, the
    /// topmost first.
    pub fn remove_children_after(&mut self, remove_starting_at: usize) -> (removed: Vec<
        OverlayLayout,
    >)
        requires
            old(self)@.wf(),
            remove_starting_at <= old(self)@.overlays.len(),
        ensures
            final(self)@.wf(),
            final(self)@ == old(self)@.cut(remove_starting_at as nat),
            removed@ == old(self)@.cut_off(remove_starting_at as nat),
    {
        let mut removed: Vec<OverlayLayout> = Vec::new();
        let ghost before = self@;
        assert(before.overlays.take(before.overlays.len() as int) =~= before.overlays);
        assert(before.ids.take(before.ids.len() as int) =~= before.ids);
        while remove_starting_at < lots_len(&self.overlays)
            invariant
                before.wf(),
                remove_starting_at <= self@.overlays.len() <= before.overlays.len(),
                self@ == before.cut(self@.overlays.len()),
                removed@ == before.cut_off(self@.overlays.len()),
            decreases self@.overlays.len(),
        {
            let ghost len = self@.overlays.len();
            if let Some(overlay) = lots_pop(&mut self.overlays) {
                removed.push(overlay);
                self.new_overlays = self.new_overlays.saturating_sub(1);
                assert(before.overlays.take(len as int).drop_last() =~= before.overlays.take(
                    len - 1,
                ));
                assert(before.ids.take(len as int).drop_last() =~= before.ids.take(len - 1));
                assert(before.cut_off((len - 1) as nat) =~= before.cut_off(len).push(overlay));
            }
        }
        removed
    }

    /// Returns what the cursor at `location` is over: an overlay that asks to be
    /// hovered (its position plus one), or, where `check_original_relative` asks
    /// for it, the surroundings of the widget that the lowest overlay is
    /// relative to (0).
    pub fn test_point(
        &self,
        location: Point<i32>,
        check_original_relative: bool,
        tree: &WidgetTree,
    ) -> (found: Option<usize>)
        requires
            self@.can_test(location, check_original_relative, *tree),
        ensures
            match found {
                Some(found) => self@.tested(location, check_original_relative, *tree) == Some(
                    found as nat,
                ),
                None => self@.tested(location, check_original_relative, *tree) is None,
            },
            found matches Some(found) ==> found <= self@.overlays.len(),
    {
        let mut index: usize = 0;
        while index < lots_len(&self.overlays)
            invariant
                can_look(self@.overlays, location, index as nat),
                index <= self@.overlays.len(),
                first_holding(self@.overlays, location, 0) == first_holding(
                    self@.overlays,
                    location,
                    index as nat,
                ),
            decreases self@.overlays.len() - index,
        {
            let overlay = self.overlay_at(index);
            if overlay.requires_hover {
                let elsewhere = match overlay.layout {
                    Some(layout) => !rect_contains(layout, location),
                    None => false,
                };
                if !elsewhere {
                    return Some(index + 1);
                }
            }
            index += 1;
        }

        if check_original_relative && lots_len(&self.overlays) != 0
            && self.point_is_in_root_relative(location, tree) {
            Some(0)
        } else {
            None
        }
    }

    /// Returns whether `location` is in the surroundings of the widget that the
    /// lowest overlay is relative to: not on it, while it is known where it is.
    pub fn point_is_in_root_relative(&self, location: Point<i32>, tree: &WidgetTree) -> (outside:
        bool)
        requires
            self@.root_layout(*tree) matches Some(root) ==> root.fits(),
        ensures
            outside == self@.outside_root(location, *tree),
    {
        if let Some(root) = self.root_relative_layout(tree) {
            if !rect_contains(root, location) {
                return true;
            }
        }
        false
    }

    /// Returns where the widget was laid out last that the lowest overlay is
    /// relative to.
    pub(crate) fn root_relative_layout(&self, tree: &WidgetTree) -> (root: Option<Rect<i32>>)
        ensures
            root == self@.root_layout(*tree),
    {
        match lots_get(&self.overlays, 0) {
            Some(overlay) => match overlay.relative_to {
                Some(relative_to) => tree.last_layout(relative_to),
                None => None,
            },
            None => None,
        }
    }

    /// Admits the lowest overlay that has not been through a layout: it stays on
    /// top of the overlay that the widget it is relative to is a child of, and
    /// the overlays between the two are dismissed. They are returned, the
    /// topmost first.
    ///
    /// The tree is asked after the new overlay's own widget has been mounted.
    pub fn process_new_overlay(&mut self, tree: &WidgetTree) -> (dismissed: Vec<OverlayLayout>)
        requires
            old(self)@.wf(),
            0 < old(self)@.new_overlays <= old(self)@.overlays.len(),
        ensures
            final(self)@.wf(),
            final(self)@ == old(self)@.admitted(*tree),
            dismissed@ == old(self)@.displaced(*tree),
    {
        let ghost before = self@;
        let new_index: usize = lots_len(&self.overlays) - self.new_overlays;
        self.new_overlays = self.new_overlays - 1;

        // Determine if the new overlay is relative to an existing overlay.
        let relative_to = self.overlay_at(new_index).relative_to;
        let mut dismiss_from: usize = 0;
        if let Some(relative_to) = relative_to {
            if let Some(node) = tree.for_other(relative_to) {
                dismiss_from = new_index;
                while dismiss_from > 0
                    invariant
                        dismiss_from <= new_index < self@.overlays.len(),
                        tree.node(relative_to) == Some(*node),
                        kept_below(self@.overlays, new_index as nat, relative_to, *tree)
                            == kept_below(self@.overlays, dismiss_from as nat, relative_to, *tree),
                    ensures
                        dismiss_from == kept_below(
                            self@.overlays,
                            new_index as nat,
                            relative_to,
                            *tree,
                        ),
                    decreases dismiss_from,
                {
                    if node.is_child_of(self.overlay_at(dismiss_from - 1).widget.id()) {
                        // Relative to this overlay. Dismiss any overlays
                        // between this and the new one.
                        break ;
                    }
                    dismiss_from = dismiss_from - 1;
                }
            } else {
                proof {
                    lemma_unmounted_keeps_none(before.overlays, new_index as nat, relative_to, *tree);
                }
            }
        }
        proof {
            if let Some(relative_to) = relative_to {
                lemma_kept_below_bound(before.overlays, new_index as nat, relative_to, *tree);
            }
        }
        assert(dismiss_from == before.kept(*tree));

        // Dismiss any overlays that are no longer going to be shown.
        let mut dismissed: Vec<OverlayLayout> = Vec::new();
        let mut index: usize = new_index;
        assert(before.overlays.take(new_index as int) + before.overlays.skip(new_index as int)
            =~= before.overlays);
        assert(before.ids.take(new_index as int) + before.ids.skip(new_index as int)
            =~= before.ids);
        while index > dismiss_from
            invariant
                before.wf(),
                dismiss_from <= index <= new_index < before.overlays.len(),
                self@.overlays == before.overlays.take(index as int) + before.overlays.skip(
                    new_index as int,
                ),
                self@.ids == before.ids.take(index as int) + before.ids.skip(new_index as int),
                self@.new_overlays == before.new_overlays - 1,
                self@.hovering == before.hovering,
                dismissed@ == before.overlays.subrange(index as int, new_index as int).reverse(),
            decreases index,
        {
            index = index - 1;
            assert((before.overlays.take(index + 1) + before.overlays.skip(new_index as int)).remove(
                index as int,
            ) =~= before.overlays.take(index as int) + before.overlays.skip(new_index as int));
            assert((before.ids.take(index + 1) + before.ids.skip(new_index as int)).remove(
                index as int,
            ) =~= before.ids.take(index as int) + before.ids.skip(new_index as int));
            if let Some((_, overlay)) = lots_remove(&mut self.overlays, index) {
                dismissed.push(overlay);
                assert(before.overlays.subrange(index as int, new_index as int).reverse()
                    =~= before.overlays.subrange(index + 1, new_index as int).reverse().push(
                    overlay,
                ));
            }
        }
        dismissed
    }

    /// Returns whether it can be said what a cursor at `location` is over.
    pub fn check_point(
        &self,
        location: Point<i32>,
        check_original_relative: bool,
        tree: &WidgetTree,
    ) -> (can: bool)
        ensures
            can == self@.can_test(location, check_original_relative, *tree),
    {
        let mut index: usize = 0;
        while index < lots_len(&self.overlays)
            invariant
                index <= self@.overlays.len(),
                can_look(self@.overlays, location, 0) == can_look(
                    self@.overlays,
                    location,
                    index as nat,
                ),
                first_holding(self@.overlays, location, 0) == first_holding(
                    self@.overlays,
                    location,
                    index as nat,
                ),
            decreases self@.overlays.len() - index,
        {
            let overlay = self.overlay_at(index);
            if overlay.requires_hover {
                let holds = match overlay.layout {
                    Some(layout) => {
                        if !layout.check_fits() {
                            return false;
                        }
                        rect_contains(layout, location)
                    },
                    None => true,
                };
                if holds {
                    return true;
                }
            }
            index += 1;
        }
        if check_original_relative {
            if let Some(root) = self.root_relative_layout(tree) {
                return root.check_fits();
            }
        }
        true
    }

    /// Returns whether the cursor at `location` is on this layer: over an
    /// overlay that asks to be hovered, or over the widget that the lowest
    /// overlay is relative to.
    pub fn hit_test(&self, location: Point<i32>, tree: &WidgetTree) -> (hit: bool)
        requires
            self@.can_test(location, true, *tree),
        ensures
            hit == self@.hit(location, *tree),
    {
        if let Some(index) = self.test_point(location, false, tree) {
            index > 0
        } else {
            !(lots_len(&self.overlays) == 0 || self.point_is_in_root_relative(location, tree))
        }
    }

    /// Takes note of the cursor at `location`, and returns the overlays that are
    /// dismissed because it has moved off them, the topmost first.
    pub fn hover(&mut self, location: Point<i32>, tree: &WidgetTree) -> (dismissed: Vec<
        OverlayLayout,
    >)
        requires
            old(self)@.wf(),
            old(self)@.can_test(location, true, *tree),
        ensures
            final(self)@.wf(),
            final(self)@ == old(self)@.hovered(old(self)@.tested(location, true, *tree)),
            dismissed@ == old(self)@.hovered_off(old(self)@.tested(location, true, *tree)),
    {
        if let Some(hovering) = self.test_point(location, true, tree) {
            let should_remove = match self.hovering {
                Some(before) => before > hovering,
                None => false,
            };
            self.hovering = Some(hovering);
            if should_remove {
                return self.remove_children_after(hovering);
            }
        } else {
            self.hovering = None;
        }
        Vec::new()
    }

    /// Takes note of the cursor having left the layer, and returns the overlays
    /// that are dismissed because of it, the topmost first.
    pub fn unhover(&mut self) -> (dismissed: Vec<OverlayLayout>)
        requires
            old(self)@.wf(),
        ensures
            final(self)@.wf(),
            final(self)@ == old(self)@.unhovered(),
            dismissed@ == old(self)@.unhovered_off(),
    {
        let ghost before = self@;
        self.hovering = None;

        let mut index: usize = 0;
        while index < lots_len(&self.overlays)
            invariant
                before == old(self)@,
                before.wf(),
                self@ == (OverlayStack { hovering: None, ..before }),
                index <= self@.overlays.len(),
                first_requiring_hover(self@.overlays, 0) == first_requiring_hover(
                    self@.overlays,
                    index as nat,
                ),
            decreases self@.overlays.len() - index,
        {
            if self.overlay_at(index).requires_hover {
                return self.remove_children_after(index);
            }
            index += 1;
        }
        Vec::new()
    }

    /// Puts `overlay` on top of the others and returns the id by which it can be
    /// found.
    pub fn show(&mut self, overlay: OverlayLayout) -> (id: LotId)
        requires
            old(self)@.wf(),
            old(self)@.overlays.len() < lots_limit(),
            old(self)@.new_overlays < usize::MAX,
        ensures
            final(self)@.wf(),
            !old(self)@.ids.contains(id),
            final(self)@ == old(self)@.shown(overlay, id),
    {
        self.new_overlays = self.new_overlays + 1;
        lots_push(&mut self.overlays, overlay)
    }

    /// Removes the overlay whose id is `id`, and those above it, and returns
    /// them, the topmost first. If it is not there, nothing changes.
    pub fn dismiss(&mut self, id: LotId) -> (dismissed: Vec<OverlayLayout>)
        requires
            old(self)@.wf(),
        ensures
            final(self)@.wf(),
            final(self)@ == old(self)@.dismissed(id),
            dismissed@ == old(self)@.dismissed_off(id),
    {
        let ghost before = self@;
        let mut dismissed: Vec<OverlayLayout> = Vec::new();
        let index = match lots_index_of(&self.overlays, id) {
            Some(index) => index,
            None => {
                return dismissed;
            },
        };
        assert(before.ids[index as int] == id && before.ids.contains(id));
        assert(before.ids.index_of(id) == index);
        assert(before.overlays.take(before.overlays.len() as int) =~= before.overlays);
        assert(before.ids.take(before.ids.len() as int) =~= before.ids);
        while lots_len(&self.overlays) > index
            invariant
                before.wf(),
                index <= self@.overlays.len() <= before.overlays.len(),
                self@.overlays == before.overlays.take(self@.overlays.len() as int),
                self@.ids == before.ids.take(self@.overlays.len() as int),
                self@.new_overlays == before.new_overlays,
                self@.hovering == before.hovering,
                dismissed@ == before.overlays.skip(self@.overlays.len() as int).reverse(),
            decreases self@.overlays.len(),
        {
            let ghost len = self@.overlays.len() as int;
            if let Some(overlay) = lots_pop(&mut self.overlays) {
                dismissed.push(overlay);
                assert(before.overlays.take(len).drop_last() =~= before.overlays.take(len - 1));
                assert(before.ids.take(len).drop_last() =~= before.ids.take(len - 1));
                assert(before.overlays.skip(len - 1).reverse() =~= before.overlays.skip(
                    len,
                ).reverse().push(overlay));
            }
        }
        dismissed
    }
}

/// A widget that is not mounted is a child of no overlay.
proof fn lemma_unmounted_keeps_none(
    overlays: Seq<OverlayLayout>,
    count: nat,
    relative_to: WidgetId,
    tree: WidgetTree,
)
    requires
        tree.node(relative_to) is None,
    ensures
        kept_below(overlays, count, relative_to, tree) == 0,
    decreases count,
{
    if count > 0 {
        lemma_unmounted_keeps_none(overlays, (count - 1) as nat, relative_to, tree);
    }
}

/// No more overlays stay than there are, and the topmost that stays is one that
/// the widget is a child of.
pub(crate) proof fn lemma_kept_below_bound(
    overlays: Seq<OverlayLayout>,
    count: nat,
    relative_to: WidgetId,
    tree: WidgetTree,
)
    ensures
        ({
            let kept = kept_below(overlays, count, relative_to, tree);
            &&& kept <= count
            &&& kept > 0 ==> tree.is_child(relative_to, overlays[kept - 1].widget.spec_id())
        }),
    decreases count,
{
    if count > 0 {
        lemma_kept_below_bound(overlays, (count - 1) as nat, relative_to, tree);
    }
}

} // verus!
