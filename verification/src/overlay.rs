//! A layer of overlays that are shown relative to widgets in other layers.
use crate::arrange::LayoutNeed;
use crate::geometry::{
    size_into_unsigned, unsigned_of, ConstraintLimit, Point, Rect, Size,
};
use crate::placement::Direction;
use crate::stack::{lots_limit, OverlayLayout};
use crate::state::{OverlayStack, OverlayState};
use crate::widget::{OnceCallback, WidgetId, WidgetRef, WidgetTree};
use alot::LotId;
use vstd::prelude::*;

verus! {

/// How far a layout of an overlay layer has come.
#[derive(Clone, Copy, Debug, PartialEq, Eq)]
pub enum OverlayStage {
    /// The overlays that have been shown since the last layout are admitted.
    Admitting,
    /// The overlay at this position is next.
    Placing(usize),
    /// The widget of the overlay at this position is being measured. It is shown
    /// beside this area, if it is shown relative to a widget.
    Measuring(usize, Option<Rect<i32>>),
    /// The widget of the overlay at this position is being laid out.
    Arranging(usize),
    /// All overlays have been laid out.
    Finished,
}

/// A layout of an overlay layer that is under way.
#[derive(Clone, Copy, Debug, PartialEq, Eq)]
pub struct OverlayPass {
    /// The space that is available to the layer.
    pub available: Size<u32>,
    /// How far the layout has come.
    pub stage: OverlayStage,
}

/// What has to be done before a layout can go on.
#[derive(Debug, PartialEq, Eq)]
pub enum OverlayRequest {
    /// Mount this widget.
    Mount(WidgetId),
    /// Drop these overlays, in this order.
    Dismiss(Vec<OverlayLayout>),
    /// Measure a widget.
    Measure {
        /// The widget.
        widget: WidgetId,
        /// The space that it may take.
        constraints: Size<ConstraintLimit>,
    },
    /// Lay a widget out.
    Arrange {
        /// The widget.
        widget: WidgetId,
        /// The space that it is to fill.
        constraints: Size<ConstraintLimit>,
        /// Where it is.
        layout: Rect<i32>,
    },
    /// Nothing: the layout is finished, and the layer has this size.
    Finished(Size<u32>),
}

/// What has to be done before a layout can go on, as a mathematical value.
#[verifier::ext_equal]
pub enum OverlayAsk {
    /// Mount this widget.
    Mount(WidgetId),
    /// Drop these overlays, in this order.
    Dismiss(Seq<OverlayLayout>),
    /// Measure this widget, within these constraints.
    Measure(WidgetId, Size<ConstraintLimit>),
    /// Lay this widget out, within these constraints, at this place.
    Arrange(WidgetId, Size<ConstraintLimit>, Rect<i32>),
    /// Nothing more: this is the size of the layer.
    Finished(Size<u32>),
}

impl View for OverlayRequest {
    type V = OverlayAsk;

    open spec fn view(&self) -> OverlayAsk {
        match self {
            OverlayRequest::Mount(widget) => OverlayAsk::Mount(*widget),
            OverlayRequest::Dismiss(overlays) => OverlayAsk::Dismiss(overlays@),
            OverlayRequest::Measure { widget, constraints } => OverlayAsk::Measure(
                *widget,
                *constraints,
            ),
            OverlayRequest::Arrange { widget, constraints, layout } => OverlayAsk::Arrange(
                *widget,
                *constraints,
                *layout,
            ),
            OverlayRequest::Finished(size) => OverlayAsk::Finished(*size),
        }
    }
}

/// What came of a request.
#[derive(Clone, Copy, Debug, PartialEq, Eq)]
pub enum OverlayReply {
    /// It has been done.
    Done,
    /// The widget has been measured, and has this size.
    Measured(Size<u32>),
}

/// The constraints under which a widget fills an area of `size`.
pub open spec fn filling(size: Size<i32>) -> Size<ConstraintLimit> {
    Size {
        width: ConstraintLimit::Fill(unsigned_of(size.width as int) as u32),
        height: ConstraintLimit::Fill(unsigned_of(size.height as int) as u32),
    }
}

/// The widgets of the first `count` overlays that have been mounted, in order.
pub open spec fn mounted_widgets(overlays: Seq<OverlayLayout>, count: nat) -> Seq<WidgetId>
    decreases count,
{
    if count == 0 {
        Seq::empty()
    } else {
        match overlays[count - 1].widget {
            WidgetRef::Mounted(id) => mounted_widgets(overlays, (count - 1) as nat).push(id),
            WidgetRef::Unmounted(_) => mounted_widgets(overlays, (count - 1) as nat),
        }
    }
}

impl OverlayStack {
    /// The overlays, how far the layout has come, and what it asks for, when the
    /// overlay at `index` is next. An overlay that cannot be laid out is passed
    /// over.
    pub open spec fn placing(
        self,
        index: nat,
        available: Size<u32>,
        tree: WidgetTree,
    ) -> (OverlayStack, OverlayStage, OverlayAsk)
        decreases self.overlays.len() - index,
    {
        if index >= self.overlays.len() {
            (
                self,
                OverlayStage::Finished,
                OverlayAsk::Finished(Size { width: 0, height: 0 }),
            )
        } else {
            let widget = self.overlays[index as int].widget;
            match (widget, self.need(index as int, available, tree)) {
                (WidgetRef::Unmounted(id), _) => (
                    self.with_mounted(index as int),
                    OverlayStage::Placing(index as usize),
                    OverlayAsk::Mount(id),
                ),
                (WidgetRef::Mounted(id), LayoutNeed::Known(layout)) => (
                    self,
                    OverlayStage::Arranging(index as usize),
                    OverlayAsk::Arrange(id, filling(layout.size), layout),
                ),
                (WidgetRef::Mounted(id), LayoutNeed::Measure { constraints, anchor }) => (
                    self,
                    OverlayStage::Measuring(index as usize, anchor),
                    OverlayAsk::Measure(id, constraints),
                ),
                (WidgetRef::Mounted(_), LayoutNeed::Hidden) => self.placing(
                    index + 1,
                    available,
                    tree,
                ),
            }
        }
    }

    /// There is space to be measured for the overlays that come up when the
    /// overlay at `index` is next.
    pub open spec fn can_place(self, index: nat, available: Size<u32>, tree: WidgetTree) -> bool
        decreases self.overlays.len() - index,
    {
        if index >= self.overlays.len() || self.overlays[index as int].widget is Unmounted {
            true
        } else {
            &&& self.has_space(index as int, available, tree)
            &&& self.need(index as int, available, tree) is Hidden ==> self.can_place(
                index + 1,
                available,
                tree,
            )
        }
    }

    /// The overlays, how far the layout has come, and what it asks for next,
    /// when it is where `pass` says and `reply` came of the last request.
    pub open spec fn advanced(self, pass: OverlayPass, reply: OverlayReply, tree: WidgetTree) -> (
        OverlayStack,
        OverlayStage,
        OverlayAsk,
    ) {
        match (pass.stage, reply) {
            (OverlayStage::Admitting, _) => if self.new_overlays == 0 {
                self.placing(0, pass.available, tree)
            } else {
                match self.overlays[self.new_index() as int].widget {
                    WidgetRef::Unmounted(id) => (
                        self.with_mounted(self.new_index() as int),
                        OverlayStage::Admitting,
                        OverlayAsk::Mount(id),
                    ),
                    WidgetRef::Mounted(_) => (
                        self.admitted(tree),
                        OverlayStage::Admitting,
                        OverlayAsk::Dismiss(self.displaced(tree)),
                    ),
                }
            },
            (OverlayStage::Placing(index), _) => self.placing(index as nat, pass.available, tree),
            (OverlayStage::Measuring(index, anchor), OverlayReply::Measured(measured)) => {
                let layout = self.laid_out(index as int, anchor, measured, pass.available, tree);
                (
                    self.with_layout(index as int, layout),
                    OverlayStage::Arranging(index),
                    OverlayAsk::Arrange(
                        self.overlays[index as int].widget.spec_id(),
                        filling(layout.size),
                        layout,
                    ),
                )
            },
            (OverlayStage::Arranging(index), _) => self.placing(
                index as nat + 1,
                pass.available,
                tree,
            ),
            _ => (
                self,
                OverlayStage::Finished,
                OverlayAsk::Finished(Size { width: 0, height: 0 }),
            ),
        }
    }

    /// `reply` is one that can come of the last request, and the layout can go
    /// on from there: no more overlays are new than there are, there is space to
    /// be measured, and the coordinates that come up are representable.
    pub open spec fn can_advance(
        self,
        pass: OverlayPass,
        reply: OverlayReply,
        tree: WidgetTree,
    ) -> bool {
        match (pass.stage, reply) {
            (OverlayStage::Admitting, OverlayReply::Done) => {
                &&& self.new_overlays <= self.overlays.len()
                &&& self.new_overlays == 0 ==> self.can_place(0, pass.available, tree)
            },
            (OverlayStage::Placing(index), OverlayReply::Done) => self.can_place(
                index as nat,
                pass.available,
                tree,
            ),
            (OverlayStage::Measuring(index, anchor), OverlayReply::Measured(measured)) => {
                &&& index < self.overlays.len()
                &&& self.can_lay_out(index as int, anchor, measured, pass.available, tree)
            },
            (OverlayStage::Arranging(index), OverlayReply::Done) => {
                &&& index < self.overlays.len()
                &&& self.can_place(index as nat + 1, pass.available, tree)
            },
            (OverlayStage::Finished, OverlayReply::Done) => true,
            _ => false,
        }
    }
}

/// A widget that displays other widgets relative to widgets in another layer.
///
/// This widget is for use inside of a [`Layers`](crate::layers::Layers) widget.
#[derive(Debug)]
pub struct OverlayLayer {
    state: OverlayState,
}

impl View for OverlayLayer {
    type V = OverlayStack;

    closed spec fn view(&self) -> OverlayStack {
        self.state@
    }
}

impl Default for OverlayLayer {
    /// Returns a layer without overlays.
    fn default() -> (layer: OverlayLayer)
        ensures
            layer@.wf(),
            layer@ == (OverlayStack {
                overlays: Seq::empty(),
                ids: Seq::empty(),
                new_overlays: 0,
                hovering: None,
            }),
    {
        OverlayLayer { state: OverlayState::new() }
    }
}

impl OverlayLayer {
    /// Begins a layout of this layer in the `available_space`.
    pub fn layout(&self, available_space: Size<ConstraintLimit>) -> (pass: OverlayPass)
        ensures
            pass.available.width == available_space.width.limit(),
            pass.available.height == available_space.height.limit(),
            pass.stage is Admitting,
    {
        OverlayPass {
            available: Size {
                width: available_space.width.max(),
                height: available_space.height.max(),
            },
            stage: OverlayStage::Admitting,
        }
    }

    /// Goes on with a layout of this layer, and returns what has to be done next.
    /// `reply` is what came of the last request, and [`OverlayReply::Done`] for a
    /// layout that has only begun. `tree` is the widget tree after that.
    ///
    /// The layer itself never takes up space, whatever its overlays do: it is
    /// finished with a size of zero.
    pub fn advance(
        &mut self,
        pass: &mut OverlayPass,
        reply: OverlayReply,
        tree: &WidgetTree,
    ) -> (request: OverlayRequest)
        requires
            old(self)@.wf(),
            old(self)@.can_advance(*old(pass), reply, *tree),
        ensures
            final(self)@.wf(),
            final(pass).available == old(pass).available,
            (final(self)@, final(pass).stage, request@) == old(self)@.advanced(
                *old(pass),
                reply,
                *tree,
            ),
    {
        match pass.stage {
            OverlayStage::Admitting => {
                if self.state.new_overlays() == 0 {
                    return self.advance_placing(pass, 0, tree);
                }
                let new_index: usize = self.state.len() - self.state.new_overlays();
                if let WidgetRef::Unmounted(id) = self.state.overlay_at(new_index).widget {
                    self.state.set_mounted(new_index);
                    return OverlayRequest::Mount(id);
                }
                OverlayRequest::Dismiss(self.state.process_new_overlay(tree))
            },
            OverlayStage::Placing(index) => self.advance_placing(pass, index, tree),
            OverlayStage::Measuring(index, anchor) => {
                let available = pass.available;
                let measured = match reply {
                    OverlayReply::Measured(measured) => measured,
                    OverlayReply::Done => Size { width: 0, height: 0 },
                };
                let layout = self.state.layout_overlay(index, anchor, measured, available, tree);
                let widget = self.state.overlay_at(index).widget.id();
                self.state.set_layout(index, layout);
                pass.stage = OverlayStage::Arranging(index);
                arrange(widget, layout)
            },
            OverlayStage::Arranging(index) => {
                // There are no more overlays than can be counted.
                let len: usize = self.state.len();
                assert(index < len);
                self.advance_placing(pass, index + 1, tree)
            },
            OverlayStage::Finished => OverlayRequest::Finished(Size { width: 0, height: 0 }),
        }
    }

    /// Goes on with a layout of which the overlay at `start` is next.
    fn advance_placing(&mut self, pass: &mut OverlayPass, start: usize, tree: &WidgetTree) -> (
    request: OverlayRequest)
        requires
            old(self)@.wf(),
            old(self)@.can_place(start as nat, old(pass).available, *tree),
        ensures
            final(self)@.wf(),
            final(pass).available == old(pass).available,
            (final(self)@, final(pass).stage, request@) == old(self)@.placing(
                start as nat,
                old(pass).available,
                *tree,
            ),
    {
        let mut index: usize = start;
        while index < self.state.len()
            invariant
                self@ == old(self)@,
                *pass == *old(pass),
                self@.wf(),
                self@.can_place(index as nat, pass.available, *tree),
                self@.placing(index as nat, pass.available, *tree) == old(self)@.placing(
                    start as nat,
                    old(pass).available,
                    *tree,
                ),
            decreases self@.overlays.len() - index,
        {
            match self.state.overlay_at(index).widget {
                WidgetRef::Unmounted(id) => {
                    self.state.set_mounted(index);
                    pass.stage = OverlayStage::Placing(index);
                    return OverlayRequest::Mount(id);
                },
                WidgetRef::Mounted(id) => match self.state.layout_need(
                    index,
                    pass.available,
                    tree,
                ) {
                    LayoutNeed::Known(layout) => {
                        pass.stage = OverlayStage::Arranging(index);
                        return arrange(id, layout);
                    },
                    LayoutNeed::Measure { constraints, anchor } => {
                        pass.stage = OverlayStage::Measuring(index, anchor);
                        return OverlayRequest::Measure { widget: id, constraints };
                    },
                    LayoutNeed::Hidden => {},
                },
            }
            index += 1;
        }
        pass.stage = OverlayStage::Finished;

        // The overlay widget should never actually impact the layout of other
        // layers, despite what layouts its children are assigned. This may seem
        // weird, but it would also be weird for a tooltip to expand its window
        // when shown.
        OverlayRequest::Finished(Size { width: 0, height: 0 })
    }
}

impl OverlayLayer {
    /// Returns whether a layout of this layer can go on.
    pub fn check_advance(&self, pass: &OverlayPass, reply: OverlayReply, tree: &WidgetTree) -> (can:
        bool)
        ensures
            can == self@.can_advance(*pass, reply, *tree),
    {
        match (pass.stage, reply) {
            (OverlayStage::Admitting, OverlayReply::Done) => {
                self.state.new_overlays() <= self.state.len() && (self.state.new_overlays() != 0
                    || self.check_placing(0, pass.available, tree))
            },
            (OverlayStage::Placing(index), OverlayReply::Done) => self.check_placing(
                index,
                pass.available,
                tree,
            ),
            (OverlayStage::Measuring(index, anchor), OverlayReply::Measured(measured)) => {
                index < self.state.len() && self.state.check_layout(
                    index,
                    anchor,
                    measured,
                    pass.available,
                    tree,
                )
            },
            (OverlayStage::Arranging(index), OverlayReply::Done) => {
                index < self.state.len() && self.check_placing(index + 1, pass.available, tree)
            },
            (OverlayStage::Finished, OverlayReply::Done) => true,
            _ => false,
        }
    }

    /// Returns whether there is space to be measured for the overlays that come
    /// up when the overlay at `start` is next.
    fn check_placing(&self, start: usize, available: Size<u32>, tree: &WidgetTree) -> (can: bool)
        ensures
            can == self@.can_place(start as nat, available, *tree),
    {
        let mut index: usize = start;
        while index < self.state.len()
            invariant
                self@.can_place(index as nat, available, *tree) == self@.can_place(
                    start as nat,
                    available,
                    *tree,
                ),
            decreases self@.overlays.len() - index,
        {
            if let WidgetRef::Unmounted(_) = self.state.overlay_at(index).widget {
                return true;
            }
            if !self.state.check_space(index, available, tree) {
                return false;
            }
            match self.state.layout_need(index, available, tree) {
                LayoutNeed::Hidden => {},
                _ => {
                    return true;
                },
            }
            index += 1;
        }
        true
    }

    /// Returns the widgets of this layer in the order in which they are drawn.
    /// Those that have not been mounted yet are left out.
    pub fn redraw(&self) -> (widgets: Vec<WidgetId>)
        ensures
            widgets@ == mounted_widgets(self@.overlays, self@.overlays.len()),
    {
        let mut widgets: Vec<WidgetId> = Vec::new();
        let mut index: usize = 0;
        while index < self.state.len()
            invariant
                index <= self@.overlays.len(),
                widgets@ == mounted_widgets(self@.overlays, index as nat),
            decreases self@.overlays.len() - index,
        {
            if let WidgetRef::Mounted(id) = self.state.overlay_at(index).widget {
                widgets.push(id);
            }
            index += 1;
        }
        widgets
    }

    /// Returns whether the cursor at `location` is on this layer: over an
    /// overlay that asks to be hovered, or over the widget that the lowest
    /// overlay is relative to.
    pub fn hit_test(&self, location: Point<i32>, tree: &WidgetTree) -> (hit: bool)
        requires
            self@.can_test(location, true, *tree),
        ensures
            hit == self@.hit(location, *tree),
    {
        self.state.hit_test(location, tree)
    }

    /// Takes note of the cursor at `location`, and returns the overlays that are
    /// dismissed because it has moved off them, the topmost first.
    pub fn hover(&mut self, location: Point<i32>, tree: &WidgetTree) -> (dismissed: Vec<
        OverlayLayout,
    >)
        requires
            old(self)@.wf(),
            old(self)@.can_test(location, true, *tree),
        ensures
            final(self)@.wf(),
            final(self)@ == old(self)@.hovered(old(self)@.tested(location, true, *tree)),
            dismissed@ == old(self)@.hovered_off(old(self)@.tested(location, true, *tree)),
    {
        self.state.hover(location, tree)
    }

    /// Takes note of the cursor having left the layer, and returns the overlays
    /// that are dismissed because of it, the topmost first.
    pub fn unhover(&mut self) -> (dismissed: Vec<OverlayLayout>)
        requires
            old(self)@.wf(),
        ensures
            final(self)@.wf(),
            final(self)@ == old(self)@.unhovered(),
            dismissed@ == old(self)@.unhovered_off(),
    {
        self.state.unhover()
    }

    /// Returns whether it can be said what a cursor at `location` is over.
    pub fn check_point(&self, location: Point<i32>, tree: &WidgetTree) -> (can: bool)
        ensures
            can == self@.can_test(location, true, *tree),
    {
        self.state.check_point(location, true, tree)
    }

    /// Returns the number of overlays on this layer.
    pub fn len(&self) -> (len: usize)
        ensures
            len == self@.overlays.len(),
    {
        self.state.len()
    }

    /// Returns the overlay at `index`, counted from the bottom.
    pub fn overlay(&self, index: usize) -> (overlay: Option<&OverlayLayout>)
        ensures
            match overlay {
                Some(overlay) => {
                    &&& index < self@.overlays.len()
                    &&& *overlay == self@.overlays[index as int]
                },
                None => index >= self@.overlays.len(),
            },
    {
        self.state.overlay(index)
    }

    /// Returns whether one more overlay can be shown: there is an id left for it,
    /// and the overlays that are new can still be counted.
    pub fn check_show(&self) -> (can: bool)
        ensures
            can == (self@.overlays.len() < lots_limit() && self@.new_overlays < usize::MAX),
    {
        let limit: u64 = if usize::BITS == 32 {
            0x100_0000
        } else {
            0x1_0000_0000_0000
        };
        (self.state.len() as u64) < limit && self.state.new_overlays() < usize::MAX
    }

    /// Returns a builder for a new overlay that can be shown on this layer.
    pub fn build_overlay(&self, overlay: WidgetId) -> (builder: OverlayBuilder)
        ensures
            builder.layout == (OverlayLayout {
                widget: WidgetRef::Unmounted(overlay),
                relative_to: None,
                direction: Direction::Right,
                requires_hover: false,
                layout: None,
                on_dismiss: None,
            }),
    {
        OverlayBuilder {
            layout: OverlayLayout {
                widget: WidgetRef::Unmounted(overlay),
                relative_to: None,
                direction: Direction::Right,
                requires_hover: false,
                layout: None,
                on_dismiss: None,
            },
        }
    }
}

/// A builder for overlaying a widget on an [`OverlayLayer`].
#[derive(Debug)]
pub struct OverlayBuilder {
    /// The overlay as it will be shown.
    pub layout: OverlayLayout,
}

impl OverlayBuilder {
    /// Sets this overlay to hide automatically when it or its relative widget
    /// are no longer hovered by the mouse cursor.
    #[must_use]
    pub fn hide_on_unhover(self) -> (builder: OverlayBuilder)
        ensures
            builder.layout == (OverlayLayout { requires_hover: true, ..self.layout }),
    {
        let mut builder = self;
        builder.layout.requires_hover = true;
        builder
    }

    /// Show this overlay to the left of the specified widget.
    #[must_use]
    pub fn left_of(self, id: WidgetId) -> (builder: OverlayBuilder)
        ensures
            builder.layout == (OverlayLayout {
                relative_to: Some(id),
                direction: Direction::Left,
                ..self.layout
            }),
    {
        let mut builder = self;
        builder.layout.relative_to = Some(id);
        builder.layout.direction = Direction::Left;
        builder
    }

    /// Show this overlay to the right of the specified widget.
    #[must_use]
    pub fn right_of(self, id: WidgetId) -> (builder: OverlayBuilder)
        ensures
            builder.layout == (OverlayLayout {
                relative_to: Some(id),
                direction: Direction::Right,
                ..self.layout
            }),
    {
        let mut builder = self;
        builder.layout.relative_to = Some(id);
        builder.layout.direction = Direction::Right;
        builder
    }

    /// Show this overlay below the specified widget.
    #[must_use]
    pub fn below(self, id: WidgetId) -> (builder: OverlayBuilder)
        ensures
            builder.layout == (OverlayLayout {
                relative_to: Some(id),
                direction: Direction::Down,
                ..self.layout
            }),
    {
        let mut builder = self;
        builder.layout.relative_to = Some(id);
        builder.layout.direction = Direction::Down;
        builder
    }

    /// Show this overlay above the specified widget.
    #[must_use]
    pub fn above(self, id: WidgetId) -> (builder: OverlayBuilder)
        ensures
            builder.layout == (OverlayLayout {
                relative_to: Some(id),
                direction: Direction::Up,
                ..self.layout
            }),
    {
        let mut builder = self;
        builder.layout.relative_to = Some(id);
        builder.layout.direction = Direction::Up;
        builder
    }

    /// Sets `callback` to be invoked once this overlay is dismissed.
    #[must_use]
    pub fn on_dismiss(self, callback: OnceCallback) -> (builder: OverlayBuilder)
        ensures
            builder.layout == (OverlayLayout { on_dismiss: Some(callback), ..self.layout }),
    {
        let mut builder = self;
        builder.layout.on_dismiss = Some(callback);
        builder
    }

    /// Shows this overlay on `layer`, returning a handle to the displayed
    /// overlay.
    #[must_use]
    pub fn show(self, layer: &mut OverlayLayer) -> (handle: OverlayHandle)
        requires
            old(layer)@.wf(),
            old(layer)@.overlays.len() < lots_limit(),
            old(layer)@.new_overlays < usize::MAX,
        ensures
            final(layer)@.wf(),
            !old(layer)@.ids.contains(handle.id()),
            final(layer)@ == old(layer)@.shown(self.layout, handle.id()),
            handle.dismisses(),
    {
        OverlayHandle { id: layer.state.show(self.layout), dismiss_on_drop: true }
    }
}

/// A handle to an overlay that was shown in an [`OverlayLayer`].
#[derive(Debug)]
pub struct OverlayHandle {
    id: LotId,
    dismiss_on_drop: bool,
}

impl OverlayHandle {
    /// The id of the overlay.
    pub closed spec fn id(self) -> LotId {
        self.id
    }

    /// The overlay is dismissed when this handle goes.
    pub closed spec fn dismisses(self) -> bool {
        self.dismiss_on_drop
    }

    /// Dismisses this overlay and any overlays that have been displayed relative
    /// to it. They are returned, the topmost first.
    pub fn dismiss(self, layer: &mut OverlayLayer) -> (dismissed: Vec<OverlayLayout>)
        requires
            old(layer)@.wf(),
        ensures
            final(layer)@.wf(),
            self.dismisses() ==> final(layer)@ == old(layer)@.dismissed(self.id()),
            self.dismisses() ==> dismissed@ == old(layer)@.dismissed_off(self.id()),
            !self.dismisses() ==> final(layer)@ == old(layer)@,
            !self.dismisses() ==> dismissed@ == Seq::<OverlayLayout>::empty(),
    {
        self.drop(layer)
    }

    /// Drops this handle without dismissing the overlay.
    pub fn forget(self, layer: &mut OverlayLayer)
        requires
            old(layer)@.wf(),
        ensures
            final(layer)@.wf(),
            final(layer)@ == old(layer)@,
    {
        let mut handle = self;
        handle.dismiss_on_drop = false;
        let _ = handle.drop(layer);
    }

    /// Drops this handle. Unless it has been told not to, that dismisses the
    /// overlay and those above it. They are returned, the topmost first.
    pub fn drop(self, layer: &mut OverlayLayer) -> (dismissed: Vec<OverlayLayout>)
        requires
            old(layer)@.wf(),
        ensures
            final(layer)@.wf(),
            self.dismisses() ==> final(layer)@ == old(layer)@.dismissed(self.id()),
            self.dismisses() ==> dismissed@ == old(layer)@.dismissed_off(self.id()),
            !self.dismisses() ==> final(layer)@ == old(layer)@,
            !self.dismisses() ==> dismissed@ == Seq::<OverlayLayout>::empty(),
    {
        if self.dismiss_on_drop {
            layer.state.dismiss(self.id)
        } else {
            Vec::new()
        }
    }
}

/// The request to lay `widget` out so that it fills `layout`.
fn arrange(widget: WidgetId, layout: Rect<i32>) -> (request: OverlayRequest)
    ensures
        request@ == OverlayAsk::Arrange(widget, filling(layout.size), layout),
{
    let size = size_into_unsigned(layout.size);
    OverlayRequest::Arrange {
        widget,
        constraints: Size {
            width: ConstraintLimit::Fill(size.width),
            height: ConstraintLimit::Fill(size.height),
        },
        layout,
    }
}

} // verus!
