//! Where the overlays of a layer are laid out.
use crate::geometry::{
    half, half_of, rect_intersects, signed_of, size_into_signed, ConstraintLimit, Point, Rect, Size,
};
use crate::placement::{
    beside_fits, check_place, check_space, measure_space, place, placed, space_beside,
    space_exists, Direction,
};
use crate::state::{OverlayStack, OverlayState};
use crate::widget::WidgetTree;
use vstd::prelude::*;

verus! {

/// What it takes to lay out an overlay.
#[derive(Clone, Copy, Debug, PartialEq, Eq)]
pub enum LayoutNeed {
    /// The overlay has been laid out before, and stays there.
    Known(Rect<i32>),
    /// The overlay's widget has to be measured.
    Measure {
        /// The space that the widget may take.
        constraints: Size<ConstraintLimit>,
        /// Where the widget is that the overlay is shown relative to, if it is
        /// shown relative to one.
        anchor: Option<Rect<i32>>,
    },
    /// The overlay cannot be laid out: it is not known where the widget is that
    /// it is shown relative to.
    Hidden,
}

/// Two limits within which a widget sizes itself to its contents.
pub open spec fn size_to_fit(width: u32, height: u32) -> Size<ConstraintLimit> {
    Size { width: ConstraintLimit::SizeToFit(width), height: ConstraintLimit::SizeToFit(height) }
}

/// `measured` with signed components.
pub open spec fn signed_size(measured: Size<u32>) -> Size<i32> {
    Size {
        width: signed_of(measured.width as int) as i32,
        height: signed_of(measured.height as int) as i32,
    }
}

/// Where an overlay that is relative to no widget is laid out: from the middle
/// of the available space in its direction.
pub open spec fn unanchored(
    direction: Direction,
    size: Size<i32>,
    available: Size<u32>,
) -> Rect<i32> {
    let width = signed_of(available.width as int);
    let height = signed_of(available.height as int);
    let (x, y) = match direction {
        Direction::Up => (width / 2, half_of(height - size.height)),
        Direction::Down => (width / 2, height / 2 + size.height as int / 2),
        Direction::Right => (width / 2 + size.width as int / 2, height / 2),
        Direction::Left => (half_of(width - size.width), height / 2),
    };
    Rect { origin: Point { x: x as i32, y: y as i32 }, size }
}

impl OverlayStack {
    /// What it takes to lay out the overlay at `index`.
    pub open spec fn need(
        self,
        index: int,
        available: Size<u32>,
        tree: WidgetTree,
    ) -> LayoutNeed {
        let overlay = self.overlays[index];
        match (overlay.layout, overlay.relative_to) {
            (Some(layout), _) => LayoutNeed::Known(layout),
            (None, None) => LayoutNeed::Measure {
                constraints: size_to_fit(available.width, available.height),
                anchor: None,
            },
            (None, Some(relative_to)) => match tree.layout_of(relative_to) {
                Some(anchor) => {
                    let (width, height) = space_beside(overlay.direction, anchor, available);
                    LayoutNeed::Measure {
                        constraints: size_to_fit(width as u32, height as u32),
                        anchor: Some(anchor),
                    }
                },
                None => LayoutNeed::Hidden,
            },
        }
    }

    /// There is space to be measured for the overlay at `index`, if it has to be
    /// measured.
    pub open spec fn has_space(self, index: int, available: Size<u32>, tree: WidgetTree) -> bool {
        match self.need(index, available, tree) {
            LayoutNeed::Measure { anchor: Some(anchor), .. } => space_exists(
                self.overlays[index].direction,
                anchor,
                available,
            ),
            _ => true,
        }
    }

    /// `layout` covers an overlay other than the one at `index`, or the widget
    /// that the lowest overlay is relative to.
    pub open spec fn obstructed(self, index: int, layout: Rect<i32>, tree: WidgetTree) -> bool {
        ||| exists|i: int|
            0 <= i < self.overlays.len() && i != index && (match (
            #[trigger] self.overlays[i]).layout {
                Some(other) => other.overlaps(layout),
                None => false,
            })
        ||| index != 0 && match self.root_layout(tree) {
            Some(root) => root.overlaps(layout),
            None => false,
        }
    }

    /// It can be said whether `layout` covers what `obstructed` speaks of, of the
    /// overlays those from `start` on: the far corners of the layouts that are
    /// looked at, up to the first that is covered, are representable.
    pub open spec fn can_intersect(
        self,
        start: nat,
        index: int,
        layout: Rect<i32>,
        tree: WidgetTree,
    ) -> bool
        decreases self.overlays.len() - start,
    {
        if start >= self.overlays.len() {
            index != 0 ==> match self.root_layout(tree) {
                Some(root) => root.fits() && layout.fits(),
                None => true,
            }
        } else {
            match self.overlays[start as int].layout {
                Some(other) if start != index => {
                    &&& other.fits()
                    &&& layout.fits()
                    &&& !other.overlaps(layout) ==> self.can_intersect(
                        start + 1,
                        index,
                        layout,
                        tree,
                    )
                },
                _ => self.can_intersect(start + 1, index, layout, tree),
            }
        }
    }

    /// `layout` covers the widget at `anchor`, or something else that it should
    /// not.
    pub open spec fn crowded(
        self,
        index: int,
        layout: Rect<i32>,
        anchor: Rect<i32>,
        tree: WidgetTree,
    ) -> bool {
        layout.overlaps(anchor) || self.obstructed(index, layout, tree)
    }

    /// Where the overlay at `index` ends up beside `anchor`, when it is tried in
    /// `direction` and, while that is crowded, in up to `turns` more directions
    /// clockwise. The last one tried is taken as it is.
    pub open spec fn settled(
        self,
        index: int,
        direction: Direction,
        turns: nat,
        anchor: Rect<i32>,
        size: Size<i32>,
        available: Size<u32>,
        tree: WidgetTree,
    ) -> Rect<i32>
        decreases turns,
    {
        let layout = placed(direction, anchor, size, available);
        if turns > 0 && self.crowded(index, layout, anchor, tree) {
            self.settled(
                index,
                direction.clockwise(),
                (turns - 1) as nat,
                anchor,
                size,
                available,
                tree,
            )
        } else {
            layout
        }
    }

    /// The coordinates that come up while the overlay at `index` is settled are
    /// representable.
    pub open spec fn settles(
        self,
        index: int,
        direction: Direction,
        turns: nat,
        anchor: Rect<i32>,
        size: Size<i32>,
        available: Size<u32>,
        tree: WidgetTree,
    ) -> bool
        decreases turns,
    {
        let layout = placed(direction, anchor, size, available);
        &&& beside_fits(direction, anchor, size)
        &&& !layout.overlaps(anchor) ==> self.can_intersect(0, index, layout, tree)
        &&& turns > 0 && self.crowded(index, layout, anchor, tree) ==> self.settles(
            index,
            direction.clockwise(),
            (turns - 1) as nat,
            anchor,
            size,
            available,
            tree,
        )
    }

    /// Where the overlay at `index` is laid out, its widget having been
    /// `measured`.
    pub open spec fn laid_out(
        self,
        index: int,
        anchor: Option<Rect<i32>>,
        measured: Size<u32>,
        available: Size<u32>,
        tree: WidgetTree,
    ) -> Rect<i32> {
        let direction = self.overlays[index].direction;
        let size = signed_size(measured);
        match anchor {
            Some(anchor) => self.settled(index, direction, 3, anchor, size, available, tree),
            None => unanchored(direction, size, available),
        }
    }

    /// The overlay at `index` can be laid out beside `anchor`: the coordinates
    /// that come up are representable.
    pub open spec fn can_lay_out(
        self,
        index: int,
        anchor: Option<Rect<i32>>,
        measured: Size<u32>,
        available: Size<u32>,
        tree: WidgetTree,
    ) -> bool {
        match anchor {
            Some(anchor) => {
                &&& anchor.fits()
                &&& self.settles(
                    index,
                    self.overlays[index].direction,
                    3,
                    anchor,
                    signed_size(measured),
                    available,
                    tree,
                )
            },
            None => true,
        }
    }
}

impl OverlayState {
    /// Returns whether `layout` covers an overlay other than the one at
    /// `checking_index`, or the widget that the lowest overlay is relative to.
    pub fn layout_intersects(
        &self,
        checking_index: usize,
        layout: &Rect<i32>,
        tree: &WidgetTree,
    ) -> (intersects: bool)
        requires
            self@.can_intersect(0, checking_index as int, *layout, *tree),
        ensures
            intersects == self@.obstructed(checking_index as int, *layout, *tree),
    {
        let mut index: usize = 0;
        while index < self.len()
            invariant
                self@.can_intersect(index as nat, checking_index as int, *layout, *tree),
                index <= self@.overlays.len(),
                forall|i: int|
                    0 <= i < index && i != checking_index ==> match (
                    #[trigger] self@.overlays[i]).layout {
                        Some(other) => !other.overlaps(*layout),
                        None => true,
                    },
            decreases self@.overlays.len() - index,
        {
            if index != checking_index {
                if let Some(check) = self.overlay_at(index).layout {
                    if rect_intersects(check, *layout) {
                        return true;
                    }
                }
            }
            index += 1;
        }

        // Verify that the popup won't also obscure the original content.
        if checking_index != 0 {
            if let Some(root) = self.root_relative_layout(tree) {
                if rect_intersects(root, *layout) {
                    return true;
                }
            }
        }

        false
    }

    /// Returns whether [`OverlayState::layout_intersects`] can be asked.
    pub fn check_intersects(
        &self,
        checking_index: usize,
        layout: &Rect<i32>,
        tree: &WidgetTree,
    ) -> (can: bool)
        ensures
            can == self@.can_intersect(0, checking_index as int, *layout, *tree),
    {
        let mut index: usize = 0;
        while index < self.len()
            invariant
                index <= self@.overlays.len(),
                self@.can_intersect(0, checking_index as int, *layout, *tree)
                    == self@.can_intersect(index as nat, checking_index as int, *layout, *tree),
            decreases self@.overlays.len() - index,
        {
            if index != checking_index {
                if let Some(check) = self.overlay_at(index).layout {
                    if !check.check_fits() || !layout.check_fits() {
                        return false;
                    }
                    if rect_intersects(check, *layout) {
                        return true;
                    }
                }
            }
            index += 1;
        }
        if checking_index != 0 {
            if let Some(root) = self.root_relative_layout(tree) {
                return root.check_fits() && layout.check_fits();
            }
        }
        true
    }

    /// Returns where the overlay at `index` is laid out beside `anchor`: on the
    /// side it was shown for or, if that covers what it should not, on the next
    /// one clockwise that does not. If every side does, the last one it is.
    pub fn layout_overlay_relative(
        &self,
        index: usize,
        anchor: Rect<i32>,
        measured: Size<u32>,
        available: Size<u32>,
        tree: &WidgetTree,
    ) -> (layout: Rect<i32>)
        requires
            index < self@.overlays.len(),
            self@.can_lay_out(index as int, Some(anchor), measured, available, *tree),
        ensures
            layout == self@.laid_out(index as int, Some(anchor), measured, available, *tree),
            layout.fits(),
    {
        let direction = self.overlay_at(index).direction;
        let size = size_into_signed(measured);
        assert(size == signed_size(measured));

        let mut layout_direction = direction;
        let mut layout = place(layout_direction, anchor, size, available);
        let ghost mut turns: nat = 3;
        proof {
            reveal_with_fuel(Direction::turned, 4);
            assert(direction.turned(0) == direction);
        }
        while layout_direction.next_clockwise() != direction && (rect_intersects(layout, anchor)
            || self.layout_intersects(index, &layout, tree))
            invariant
                turns <= 3,
                anchor.fits(),
                layout.fits(),
                size == signed_size(measured),
                layout_direction == direction.turned((3 - turns) as nat),
                layout == placed(layout_direction, anchor, size, available),
                self@.settles(index as int, layout_direction, turns, anchor, size, available, *tree),
                self@.settled(index as int, layout_direction, turns, anchor, size, available, *tree)
                    == self@.laid_out(index as int, Some(anchor), measured, available, *tree),
            decreases turns,
        {
            proof {
                reveal_with_fuel(Direction::turned, 5);
                reveal_with_fuel(OverlayStack::settles, 2);
                turns = (turns - 1) as nat;
            }
            layout_direction = layout_direction.next_clockwise();
            layout = place(layout_direction, anchor, size, available);
        }
        proof {
            reveal_with_fuel(Direction::turned, 5);
        }
        layout
    }

    /// Returns where the overlay at `index` is laid out, its widget having been
    /// `measured`: beside `anchor`, or, without one, from the middle of the
    /// available space.
    pub fn layout_overlay(
        &self,
        index: usize,
        anchor: Option<Rect<i32>>,
        measured: Size<u32>,
        available: Size<u32>,
        tree: &WidgetTree,
    ) -> (layout: Rect<i32>)
        requires
            index < self@.overlays.len(),
            self@.can_lay_out(index as int, anchor, measured, available, *tree),
        ensures
            layout == self@.laid_out(index as int, anchor, measured, available, *tree),
    {
        if let Some(anchor) = anchor {
            self.layout_overlay_relative(index, anchor, measured, available, tree)
        } else {
            let direction = self.overlay_at(index).direction;
            let size = size_into_signed(measured);
            let available = size_into_signed(available);

            let origin = match direction {
                Direction::Up => Point {
                    x: half(available.width),
                    y: half(available.height - size.height),
                },
                Direction::Down => Point {
                    x: half(available.width),
                    y: half(available.height) + half(size.height),
                },
                Direction::Right => Point {
                    x: half(available.width) + half(size.width),
                    y: half(available.height),
                },
                Direction::Left => Point {
                    x: half(available.width - size.width),
                    y: half(available.height),
                },
            };

            Rect { origin, size }
        }
    }

    /// Returns what it takes to lay out the overlay at `index`.
    pub fn layout_need(&self, index: usize, available: Size<u32>, tree: &WidgetTree) -> (need:
        LayoutNeed)
        requires
            index < self@.overlays.len(),
            self@.has_space(index as int, available, *tree),
        ensures
            need == self@.need(index as int, available, *tree),
    {
        let overlay = self.overlay_at(index);
        if let Some(layout) = overlay.layout {
            return LayoutNeed::Known(layout);
        }
        if let Some(relative_to) = overlay.relative_to {
            match tree.last_layout(relative_to) {
                Some(anchor) => {
                    let space = measure_space(overlay.direction, anchor, available);
                    LayoutNeed::Measure {
                        constraints: Size {
                            width: ConstraintLimit::SizeToFit(space.width),
                            height: ConstraintLimit::SizeToFit(space.height),
                        },
                        anchor: Some(anchor),
                    }
                },
                None => LayoutNeed::Hidden,
            }
        } else {
            LayoutNeed::Measure {
                constraints: Size {
                    width: ConstraintLimit::SizeToFit(available.width),
                    height: ConstraintLimit::SizeToFit(available.height),
                },
                anchor: None,
            }
        }
    }

    /// Returns whether there is space to be measured for the overlay at `index`.
    pub fn check_space(&self, index: usize, available: Size<u32>, tree: &WidgetTree) -> (has: bool)
        requires
            index < self@.overlays.len(),
        ensures
            has == self@.has_space(index as int, available, *tree),
    {
        let overlay = self.overlay_at(index);
        match (overlay.layout, overlay.relative_to) {
            (None, Some(relative_to)) => match tree.last_layout(relative_to) {
                Some(anchor) => check_space(overlay.direction, anchor, available),
                None => true,
            },
            _ => true,
        }
    }

    /// Returns whether the overlay at `index` can be laid out.
    pub fn check_layout(
        &self,
        index: usize,
        anchor: Option<Rect<i32>>,
        measured: Size<u32>,
        available: Size<u32>,
        tree: &WidgetTree,
    ) -> (can: bool)
        requires
            index < self@.overlays.len(),
        ensures
            can == self@.can_lay_out(index as int, anchor, measured, available, *tree),
    {
        let widget = match anchor {
            Some(widget) => widget,
            None => {
                return true;
            },
        };
        if !widget.check_fits() {
            return false;
        }
        let mut direction = self.overlay_at(index).direction;
        let size = size_into_signed(measured);
        assert(size == signed_size(measured));
        let mut turns: u8 = 3;
        loop
            invariant
                widget.fits(),
                anchor == Some(widget),
                size == signed_size(measured),
                self@.can_lay_out(index as int, anchor, measured, available, *tree)
                    == self@.settles(
                    index as int,
                    direction,
                    turns as nat,
                    widget,
                    size,
                    available,
                    *tree,
                ),
            decreases turns,
        {
            if !check_place(direction, widget, size) {
                return false;
            }
            let layout = place(direction, widget, size, available);
            if !rect_intersects(layout, widget) {
                if !self.check_intersects(index, &layout, tree) {
                    return false;
                }
                if !self.layout_intersects(index, &layout, tree) {
                    return true;
                }
            }
            if turns == 0 {
                return true;
            }
            direction = direction.next_clockwise();
            turns = turns - 1;
        }
    }
}

} // verus!
