//! A stack of widgets in the Z-direction.
use crate::geometry::{
    max2, signed_of, size_into_signed, size_max, ConstraintLimit, Point, Rect, Size,
};
use crate::value::{Generation, IntoValue, Value};
use crate::widget::WidgetId;
use vstd::prelude::*;

verus! {

/// The widgets that are to be stacked, the lowest first.
#[derive(Debug)]
pub struct Children {
    /// The widgets.
    pub widgets: Vec<WidgetId>,
}

/// A change to the children of a widget.
#[derive(Clone, Copy, Debug, PartialEq, Eq, Structural)]
pub enum ChildChange {
    /// This widget is to be mounted as a child.
    Push(WidgetId),
    /// This widget is no longer a child.
    Remove(WidgetId),
}

/// A Z-direction stack of widgets.
#[derive(Debug)]
pub struct Layers {
    /// The children that are laid out as layers with index 0 being the lowest
    /// (bottom).
    pub children: Value<Children>,
    /// The widgets that are mounted, the lowest first.
    pub mounted: Vec<WidgetId>,
    /// The generation of the children at which the mounted widgets were last
    /// brought up to date, if the children were dynamic.
    pub mounted_generation: Option<Generation>,
}

/// The position of the first `widget` in `pool`, or the length of `pool` if it
/// is not there.
pub open spec fn position_in(pool: Seq<WidgetId>, widget: WidgetId) -> nat
    decreases pool.len(),
{
    if pool.len() == 0 || pool[0] == widget {
        0
    } else {
        1 + position_in(pool.skip(1), widget)
    }
}

/// `pool` without the first `widget` in it: the widget at the front takes its
/// place.
pub open spec fn without(pool: Seq<WidgetId>, widget: WidgetId) -> Seq<WidgetId> {
    pool.update(position_in(pool, widget) as int, pool[0]).skip(1)
}

/// What is left of `pool` when each of the `wanted` widgets that is there is
/// taken out of it.
pub open spec fn left_over(pool: Seq<WidgetId>, wanted: Seq<WidgetId>) -> Seq<WidgetId>
    decreases wanted.len(),
{
    if wanted.len() == 0 {
        pool
    } else if pool.contains(wanted[0]) {
        left_over(without(pool, wanted[0]), wanted.skip(1))
    } else {
        left_over(pool, wanted.skip(1))
    }
}

/// The `wanted` widgets that are not there when each is taken out of `pool`.
pub open spec fn missing(pool: Seq<WidgetId>, wanted: Seq<WidgetId>) -> Seq<WidgetId>
    decreases wanted.len(),
{
    if wanted.len() == 0 {
        Seq::empty()
    } else if pool.contains(wanted[0]) {
        missing(without(pool, wanted[0]), wanted.skip(1))
    } else {
        seq![wanted[0]] + missing(pool, wanted.skip(1))
    }
}

/// The changes that turn `mounted` into `wanted`: widgets that are missing are
/// pushed, then those that are left over are removed.
pub open spec fn changes_between(mounted: Seq<WidgetId>, wanted: Seq<WidgetId>) -> Seq<
    ChildChange,
> {
    missing(mounted, wanted).map_values(|widget: WidgetId| ChildChange::Push(widget))
        + left_over(mounted, wanted).map_values(|widget: WidgetId| ChildChange::Remove(widget))
}

impl Layers {
    /// The children as they are now.
    pub open spec fn wanted(self) -> Seq<WidgetId> {
        self.children.current().widgets@
    }

    /// The mounted widgets have to be brought up to date: the children are of
    /// another generation, or, if they are constant, not as many.
    pub open spec fn outdated(self) -> bool {
        match self.children.current_generation() {
            Some(generation) => Some(generation) != self.mounted_generation,
            None => self.wanted().len() != self.mounted@.len(),
        }
    }

    /// These layers after the mounted widgets have been brought up to date.
    pub open spec fn synchronized(self, after: Layers) -> bool {
        &&& after.children == self.children
        &&& if self.outdated() {
            &&& after.mounted@ == self.wanted()
            &&& after.mounted_generation == self.children.current_generation()
        } else {
            &&& after.mounted@ == self.mounted@
            &&& after.mounted_generation == self.mounted_generation
        }
    }

    /// What is changed when the mounted widgets are brought up to date.
    pub open spec fn changes(self) -> Seq<ChildChange> {
        if self.outdated() {
            changes_between(self.mounted@, self.wanted())
        } else {
            Seq::empty()
        }
    }

    /// Returns a new instance that lays out `children` as layers.
    pub fn new(children: impl IntoValue<Children>) -> (layers: Layers)
        ensures
            layers.children == children.as_value(),
            layers.mounted@ == Seq::<WidgetId>::empty(),
            layers.mounted_generation is None,
    {
        Layers { children: children.into_value(), mounted: Vec::new(), mounted_generation: None }
    }

    /// Brings the mounted widgets up to date, if the children have changed, and
    /// returns what is to be done to the widgets, in this order.
    pub fn synchronize_children(&mut self) -> (changes: Vec<ChildChange>)
        ensures
            old(self).synchronized(*final(self)),
            changes@ == old(self).changes(),
    {
        let mut changes: Vec<ChildChange> = Vec::new();
        let outdated = match self.children.generation() {
            Some(generation) => match self.mounted_generation {
                Some(mounted_generation) => generation != mounted_generation,
                None => true,
            },
            None => self.children.get().widgets.len() != self.mounted.len(),
        };
        if !outdated {
            return changes;
        }
        self.mounted_generation = self.children.generation();

        let ghost before = self.mounted@;
        let ghost wanted = self.wanted();
        let ghost push = |widget: WidgetId| ChildChange::Push(widget);
        let ghost remove = |widget: WidgetId| ChildChange::Remove(widget);
        let ghost mut pool: Seq<WidgetId> = before;
        let ghost mut pushed: Seq<WidgetId> = Seq::empty();
        let len: usize = self.children.get().widgets.len();
        let mut index: usize = 0;
        assert(wanted.skip(0) =~= wanted);
        assert(wanted.take(0) + pool =~= before);
        assert(pushed + missing(before, wanted) =~= missing(before, wanted));
        while index < len
            invariant
                index <= len == wanted.len(),
                wanted == self.wanted(),
                self.children == old(self).children,
                self.mounted_generation == old(self).children.current_generation(),
                self.mounted@ == wanted.take(index as int) + pool,
                left_over(pool, wanted.skip(index as int)) == left_over(before, wanted),
                pushed + missing(pool, wanted.skip(index as int)) == missing(before, wanted),
                push == (|widget: WidgetId| ChildChange::Push(widget)),
                changes@ == pushed.map_values(push),
            decreases len - index,
        {
            let widget = self.children.get().widgets[index];
            let ghost rest = wanted.skip(index as int);
            assert(rest[0] == widget);
            assert(rest.skip(1) =~= wanted.skip(index + 1));
            let found = position_from(&self.mounted, index, widget);
            assert(self.mounted@.skip(index as int) =~= pool);
            proof {
                lemma_position_in(pool, widget);
            }
            if found < self.mounted.len() {
                // The widget is mounted, here or further up. If it is further
                // up, the two entries are swapped.
                let other = self.mounted[index];
                self.mounted.set(index, widget);
                if found != index {
                    self.mounted.set(found, other);
                }
                proof {
                    assert(self.mounted@ =~= wanted.take(index + 1) + without(pool, widget));
                    pool = without(pool, widget);
                }
            } else {
                // This is a brand new child.
                self.mounted.insert(index, widget);
                changes.push(ChildChange::Push(widget));
                proof {
                    assert(self.mounted@ =~= wanted.take(index + 1) + pool);
                    assert(pushed + missing(pool, rest) =~= pushed.push(widget) + missing(
                        pool,
                        rest.skip(1),
                    ));
                    assert(pushed.push(widget).map_values(push) =~= pushed.map_values(push).push(
                        ChildChange::Push(widget),
                    ));
                    pushed = pushed.push(widget);
                }
            }
            index += 1;
        }
        assert(wanted.take(len as int) =~= wanted);
        assert(wanted.skip(len as int) =~= Seq::<WidgetId>::empty());
        assert(pushed + Seq::<WidgetId>::empty() =~= pushed);

        // Any children remaining at the end of this process are ones that have
        // been removed.
        let ghost pushes = changes@;
        let mut gone: usize = len;
        assert(pool.take(0).map_values(remove) =~= Seq::<ChildChange>::empty());
        while gone < self.mounted.len()
            invariant
                len <= gone <= self.mounted.len(),
                len == wanted.len(),
                self.mounted@ == wanted + pool,
                remove == (|widget: WidgetId| ChildChange::Remove(widget)),
                changes@ == pushes + pool.take(gone - len).map_values(remove),
            decreases self.mounted.len() - gone,
        {
            changes.push(ChildChange::Remove(self.mounted[gone]));
            assert(pool.take(gone + 1 - len).map_values(remove) =~= pool.take(
                gone - len,
            ).map_values(remove).push(ChildChange::Remove(pool[gone - len])));
            gone += 1;
        }
        assert(pool.take(pool.len() as int) =~= pool);
        self.mounted.truncate(len);
        assert(self.mounted@ =~= wanted);
        changes
    }
}

/// What a layout of layers asks for.
#[derive(Clone, Copy, Debug, PartialEq, Eq)]
pub enum LayersRequest {
    /// Measure a child.
    Measure {
        /// The child.
        child: WidgetId,
        /// The space that it may take.
        constraints: Size<ConstraintLimit>,
    },
    /// Fit what the children measure to the available space.
    Fit {
        /// The available space.
        available_space: Size<ConstraintLimit>,
        /// The largest width and the largest height of all children.
        measured: Size<u32>,
    },
    /// Lay a child out.
    Arrange {
        /// The child.
        child: WidgetId,
        /// The space that it is to fill.
        constraints: Size<ConstraintLimit>,
        /// Where it is.
        layout: Rect<i32>,
    },
    /// Nothing: the layout is finished, and the layers have this size.
    Finished(Size<u32>),
}

/// How far a layout of layers has come.
#[derive(Clone, Copy, Debug, PartialEq, Eq)]
pub enum LayersStage {
    /// The child at this position is to be measured next. Past the last child,
    /// all have been measured.
    Measuring(usize),
    /// The size of the layers is known, and the child at this position is to be
    /// laid out next.
    Arranging(Size<u32>, usize),
}

/// A layout of layers that is under way.
#[derive(Debug)]
pub struct LayersPass {
    /// The layers, the lowest first.
    pub children: Vec<WidgetId>,
    /// The space that is available to them.
    pub available_space: Size<ConstraintLimit>,
    /// The largest width and the largest height of the children that have been
    /// measured.
    pub measured: Size<u32>,
    /// How far the layout has come.
    pub stage: LayersStage,
}

/// The larger width and the larger height of two sizes.
pub open spec fn larger_of(a: Size<u32>, b: Size<u32>) -> Size<u32> {
    Size {
        width: max2(a.width as int, b.width as int) as u32,
        height: max2(a.height as int, b.height as int) as u32,
    }
}

/// The largest width and the largest height of all `sizes`.
pub open spec fn largest_of(sizes: Seq<Size<u32>>) -> Size<u32>
    decreases sizes.len(),
{
    if sizes.len() == 0 {
        Size { width: 0, height: 0 }
    } else {
        larger_of(largest_of(sizes.drop_last()), sizes.last())
    }
}

/// The area of `size` at the origin.
pub open spec fn area_of(size: Size<u32>) -> Rect<i32> {
    Rect {
        origin: Point { x: 0, y: 0 },
        size: Size {
            width: signed_of(size.width as int) as i32,
            height: signed_of(size.height as int) as i32,
        },
    }
}

impl LayersPass {
    /// What the layout asks for.
    pub open spec fn ask(self) -> LayersRequest {
        match self.stage {
            LayersStage::Measuring(next) => if next < self.children@.len() {
                LayersRequest::Measure {
                    child: self.children@[next as int],
                    constraints: self.available_space,
                }
            } else {
                LayersRequest::Fit {
                    available_space: self.available_space,
                    measured: self.measured,
                }
            },
            LayersStage::Arranging(size, next) => if next < self.children@.len() {
                LayersRequest::Arrange {
                    child: self.children@[next as int],
                    constraints: Size {
                        width: ConstraintLimit::Fill(size.width),
                        height: ConstraintLimit::Fill(size.height),
                    },
                    layout: area_of(size),
                }
            } else {
                LayersRequest::Finished(size)
            },
        }
    }

    /// `after` is this layout after the child that was to be measured turned out
    /// to have this size.
    pub open spec fn measured_to(self, size: Size<u32>, after: LayersPass) -> bool {
        &&& after.children@ == self.children@
        &&& after.available_space == self.available_space
        &&& after.measured == larger_of(self.measured, size)
        &&& after.stage == LayersStage::Measuring((self.stage->Measuring_0 + 1) as usize)
    }

    /// `after` is this layout after the layers turned out to have this size.
    pub open spec fn fitted_to(self, size: Size<u32>, after: LayersPass) -> bool {
        &&& after.children@ == self.children@
        &&& after.available_space == self.available_space
        &&& after.measured == self.measured
        &&& after.stage == LayersStage::Arranging(size, 0)
    }

    /// `after` is this layout after the child that was to be laid out has been.
    pub open spec fn arranged_to(self, after: LayersPass) -> bool {
        &&& after.children@ == self.children@
        &&& after.available_space == self.available_space
        &&& after.measured == self.measured
        &&& after.stage == LayersStage::Arranging(
            self.stage->Arranging_0,
            (self.stage->Arranging_1 + 1) as usize,
        )
    }

    /// The layout has gone as it should: the children that have been measured are
    /// the lowest ones and have these sizes, the largest of them is known, and no
    /// child is laid out before all have been measured.
    pub open spec fn on_course(self, sizes: Seq<Size<u32>>) -> bool {
        &&& self.measured == largest_of(sizes)
        &&& match self.stage {
            LayersStage::Measuring(next) => next == sizes.len() <= self.children@.len(),
            LayersStage::Arranging(_, next) => {
                &&& sizes.len() == self.children@.len()
                &&& next <= self.children@.len()
            },
        }
    }

    /// Returns what the layout asks for.
    pub fn request(&self) -> (request: LayersRequest)
        ensures
            request == self.ask(),
    {
        match self.stage {
            LayersStage::Measuring(next) => {
                if next < self.children.len() {
                    LayersRequest::Measure {
                        child: self.children[next],
                        constraints: self.available_space,
                    }
                } else {
                    LayersRequest::Fit {
                        available_space: self.available_space,
                        measured: self.measured,
                    }
                }
            },
            LayersStage::Arranging(size, next) => {
                if next < self.children.len() {
                    LayersRequest::Arrange {
                        child: self.children[next],
                        constraints: Size {
                            width: ConstraintLimit::Fill(size.width),
                            height: ConstraintLimit::Fill(size.height),
                        },
                        layout: Rect { origin: Point { x: 0, y: 0 }, size: size_into_signed(size) },
                    }
                } else {
                    LayersRequest::Finished(size)
                }
            },
        }
    }

    /// Takes note of the child that was to be measured having this size.
    pub fn measured(&mut self, size: Size<u32>)
        requires
            old(self).ask() is Measure,
        ensures
            old(self).measured_to(size, *final(self)),
    {
        if let LayersStage::Measuring(next) = self.stage {
            self.measured = size_max(self.measured, size);
            if next < self.children.len() {
                self.stage = LayersStage::Measuring(next + 1);
            }
        }
    }

    /// Takes note of the layers having this size.
    pub fn fitted(&mut self, size: Size<u32>)
        requires
            old(self).ask() is Fit,
        ensures
            old(self).fitted_to(size, *final(self)),
    {
        self.stage = LayersStage::Arranging(size, 0);
    }

    /// Takes note of the child that was to be laid out having been.
    pub fn arranged(&mut self)
        requires
            old(self).ask() is Arrange,
        ensures
            old(self).arranged_to(*final(self)),
    {
        if let LayersStage::Arranging(size, next) = self.stage {
            if next < self.children.len() {
                self.stage = LayersStage::Arranging(size, next + 1);
            }
        }
    }
}

/// A search among layers for one that says how the root of the window is to
/// behave.
#[derive(Debug)]
pub struct RootSearch {
    /// The layers, the lowest first.
    pub children: Vec<WidgetId>,
    /// How many of them have been asked.
    pub asked: usize,
}

/// What to do next to find out how the root of the window is to behave.
#[derive(Debug, PartialEq, Eq)]
pub enum RootStep<Behavior> {
    /// Ask this child.
    Ask(WidgetId),
    /// This is how, if any layer has something to say about it.
    Found(Option<Behavior>),
}

/// What to do next when the lowest `asked` layers have been asked and `reply` is
/// what the last of them said.
pub open spec fn root_step<Behavior>(
    mounted: Seq<WidgetId>,
    asked: nat,
    reply: Option<Behavior>,
) -> RootStep<Behavior> {
    match reply {
        Some(behavior) => RootStep::Found(Some(behavior)),
        None => if asked < mounted.len() {
            RootStep::Ask(mounted[asked as int])
        } else {
            RootStep::Found(None)
        },
    }
}

/// What is found in the end, when each layer that is asked says what `answer`
/// gives for it.
pub open spec fn root_found<Behavior>(
    mounted: Seq<WidgetId>,
    asked: nat,
    reply: Option<Behavior>,
    answer: spec_fn(WidgetId) -> Option<Behavior>,
) -> Option<Behavior>
    decreases mounted.len() - asked,
{
    match root_step(mounted, asked, reply) {
        RootStep::Found(found) => found,
        RootStep::Ask(child) => root_found(mounted, asked + 1, answer(child), answer),
    }
}

impl Layers {
    /// Brings the mounted widgets up to date. Returns what is to be done to the
    /// widgets, and then the widgets in the order in which they are drawn.
    pub fn redraw(&mut self) -> (redraw: (Vec<ChildChange>, Vec<WidgetId>))
        ensures
            old(self).synchronized(*final(self)),
            redraw.0@ == old(self).changes(),
            redraw.1@ == final(self).mounted@,
    {
        let changes = self.synchronize_children();
        (changes, copied(&self.mounted))
    }

    /// Brings the mounted widgets up to date and begins a layout of them. Returns
    /// what is to be done to the widgets, and then the layout.
    pub fn layout(&mut self, available_space: Size<ConstraintLimit>) -> (layout: (
        Vec<ChildChange>,
        LayersPass,
    ))
        ensures
            old(self).synchronized(*final(self)),
            layout.0@ == old(self).changes(),
            layout.1.children@ == final(self).mounted@,
            layout.1.available_space == available_space,
            layout.1.measured == (Size { width: 0u32, height: 0u32 }),
            layout.1.stage == LayersStage::Measuring(0),
    {
        let changes = self.synchronize_children();
        let pass = LayersPass {
            children: copied(&self.mounted),
            available_space,
            measured: Size { width: 0, height: 0 },
            stage: LayersStage::Measuring(0),
        };
        (changes, pass)
    }

    /// Takes note of these layers having been mounted. Returns what is to be done
    /// to the widgets.
    pub fn mounted(&mut self) -> (changes: Vec<ChildChange>)
        ensures
            old(self).synchronized(*final(self)),
            changes@ == old(self).changes(),
    {
        self.synchronize_children()
    }

    /// Takes note of these layers having been unmounted. Returns what is to be
    /// done to the widgets.
    pub fn unmounted(&mut self) -> (changes: Vec<ChildChange>)
        ensures
            final(self).children == old(self).children,
            final(self).mounted@ == Seq::<WidgetId>::empty(),
            final(self).mounted_generation is None,
            changes@ == old(self).mounted@.map_values(
                |widget: WidgetId| ChildChange::Remove(widget),
            ),
    {
        let ghost remove = |widget: WidgetId| ChildChange::Remove(widget);
        let mut changes: Vec<ChildChange> = Vec::new();
        let mut index: usize = 0;
        while index < self.mounted.len()
            invariant
                *self == *old(self),
                index <= self.mounted.len(),
                remove == (|widget: WidgetId| ChildChange::Remove(widget)),
                changes@ == self.mounted@.take(index as int).map_values(remove),
            decreases self.mounted.len() - index,
        {
            changes.push(ChildChange::Remove(self.mounted[index]));
            assert(self.mounted@.take(index + 1).map_values(remove) =~= self.mounted@.take(
                index as int,
            ).map_values(remove).push(ChildChange::Remove(self.mounted@[index as int])));
            index += 1;
        }
        assert(self.mounted@.take(index as int) =~= self.mounted@);
        self.mounted.clear();
        self.mounted_generation = None;
        changes
    }

    /// Brings the mounted widgets up to date and begins to ask them how the root of
    /// the window is to behave. Returns what is to be done to the widgets, and
    /// then the search for an answer.
    pub fn root_behavior(&mut self) -> (search: (Vec<ChildChange>, RootSearch))
        ensures
            old(self).synchronized(*final(self)),
            search.0@ == old(self).changes(),
            search.1.children@ == final(self).mounted@,
            search.1.asked == 0,
    {
        let changes = self.synchronize_children();
        (changes, RootSearch { children: copied(&self.mounted), asked: 0 })
    }
}

impl RootSearch {
    /// Returns what to do next, when `reply` is what the layer said that was last
    /// asked, and `None` if none has been. The first layer that has something to
    /// say decides.
    pub fn next<Behavior>(&mut self, reply: Option<Behavior>) -> (step: RootStep<Behavior>)
        ensures
            step == root_step(old(self).children@, old(self).asked as nat, reply),
            final(self).children@ == old(self).children@,
            final(self).asked == old(self).asked + (if step is Ask {
                1int
            } else {
                0
            }),
    {
        match reply {
            Some(behavior) => RootStep::Found(Some(behavior)),
            None => {
                if self.asked < self.children.len() {
                    let child = self.children[self.asked];
                    self.asked = self.asked + 1;
                    RootStep::Ask(child)
                } else {
                    RootStep::Found(None)
                }
            },
        }
    }
}

/// Returns the same widgets.
fn copied(widgets: &Vec<WidgetId>) -> (copy: Vec<WidgetId>)
    ensures
        copy@ == widgets@,
{
    let mut copy: Vec<WidgetId> = Vec::new();
    let mut index: usize = 0;
    while index < widgets.len()
        invariant
            index <= widgets.len(),
            copy@ == widgets@.take(index as int),
        decreases widgets.len() - index,
    {
        copy.push(widgets[index]);
        assert(widgets@.take(index + 1) =~= widgets@.take(index as int).push(
            widgets@[index as int],
        ));
        index += 1;
    }
    assert(widgets@.take(index as int) =~= widgets@);
    copy
}

/// Returns the position of the first `widget` in `mounted` from `start` on, or
/// the length of `mounted` if it is not there.
fn position_from(mounted: &Vec<WidgetId>, start: usize, widget: WidgetId) -> (position: usize)
    requires
        start <= mounted@.len(),
    ensures
        position == start + position_in(mounted@.skip(start as int), widget),
{
    let mut position: usize = start;
    while position < mounted.len()
        invariant
            start <= position <= mounted@.len(),
            start + position_in(mounted@.skip(start as int), widget) == position + position_in(
                mounted@.skip(position as int),
                widget,
            ),
        decreases mounted.len() - position,
    {
        assert(mounted@.skip(position as int)[0] == mounted@[position as int]);
        assert(mounted@.skip(position as int).skip(1) =~= mounted@.skip(position + 1));
        if mounted[position] == widget {
            return position;
        }
        position += 1;
    }
    position
}

/// The position of a widget is that of an occurrence, and past the end only if
/// there is none.
proof fn lemma_position_in(pool: Seq<WidgetId>, widget: WidgetId)
    ensures
        position_in(pool, widget) <= pool.len(),
        pool.contains(widget) <==> position_in(pool, widget) < pool.len(),
        pool.contains(widget) ==> pool[position_in(pool, widget) as int] == widget,
    decreases pool.len(),
{
    if pool.len() > 0 && pool[0] != widget {
        let rest = pool.skip(1);
        lemma_position_in(rest, widget);
        if pool.contains(widget) {
            let i = choose|i: int| 0 <= i < pool.len() && pool[i] == widget;
            assert(rest[i - 1] == widget);
        }
        if rest.contains(widget) {
            let i = choose|i: int| 0 <= i < rest.len() && rest[i] == widget;
            assert(pool[i + 1] == widget);
        }
    }
}

/// Once the mounted widgets have been brought up to date, there is nothing more
/// to bring up to date.
pub proof fn law_synchronizing_settles(before: Layers, after: Layers)
    requires
        before.synchronized(after),
    ensures
        !after.outdated(),
        after.changes() == Seq::<ChildChange>::empty(),
{
}

impl Layers {
    /// The mounted widgets are the children of the generation at which they were
    /// last brought up to date; or constant children, or none of them.
    pub open spec fn faithful(self) -> bool {
        match self.children.current_generation() {
            Some(generation) => Some(generation) == self.mounted_generation ==> self.mounted@
                == self.wanted(),
            None => self.mounted@ == Seq::<WidgetId>::empty() || self.mounted@ == self.wanted(),
        }
    }
}

/// The layers are the children: once the mounted widgets of faithful layers have
/// been brought up to date, they are exactly the children, in their order, and
/// the layers are faithful still.
pub proof fn law_layers_are_the_children(before: Layers, after: Layers)
    requires
        before.faithful(),
        before.synchronized(after),
    ensures
        after.mounted@ == after.wanted(),
        after.faithful(),
{
    assert(before.mounted@.len() == 0 ==> before.mounted@ =~= Seq::<WidgetId>::empty());
    assert(before.wanted().len() == 0 ==> before.wanted() =~= Seq::<WidgetId>::empty());
}

/// Layers with nothing mounted are faithful: when they are new, and when they
/// have been unmounted.
pub proof fn law_unmounted_layers_are_faithful(layers: Layers)
    requires
        layers.mounted@ == Seq::<WidgetId>::empty(),
        layers.mounted_generation is None,
    ensures
        layers.faithful(),
{
}

/// Of each widget, as many are pushed as are wanted beyond those that were
/// mounted, and as many are removed as were mounted beyond those that are
/// wanted. So a widget that stays is neither pushed nor removed.
pub proof fn law_changes_are_minimal(
    mounted: Seq<WidgetId>,
    wanted: Seq<WidgetId>,
    widget: WidgetId,
)
    ensures
        ({
            let before = mounted.to_multiset().count(widget) as int;
            let after = wanted.to_multiset().count(widget) as int;
            &&& missing(mounted, wanted).to_multiset().count(widget) == max2(after - before, 0)
            &&& left_over(mounted, wanted).to_multiset().count(widget) == max2(before - after, 0)
        }),
    decreases wanted.len(),
{
    broadcast use vstd::seq_lib::group_to_multiset_ensures;

    if wanted.len() > 0 {
        let first = wanted[0];
        let rest = wanted.skip(1);
        assert(wanted.remove(0) =~= rest);
        assert(wanted.to_multiset().count(first) > 0) by {
            assert(wanted.contains(first));
        }
        if mounted.contains(first) {
            lemma_position_in(mounted, first);
            let at = position_in(mounted, first) as int;
            let updated = mounted.update(at, mounted[0]);
            assert(updated.remove(0) =~= without(mounted, first));
            assert(updated[0] == mounted[0]);
            assert(mounted.to_multiset().count(first) > 0);
            assert(mounted.to_multiset().count(mounted[0]) > 0) by {
                assert(mounted.contains(mounted[0]));
            }
            law_changes_are_minimal(without(mounted, first), rest, widget);
        } else {
            law_changes_are_minimal(mounted, rest, widget);
            let others = missing(mounted, rest);
            assert(seq![first] + others =~= others.insert(0, first));
            assert(mounted.to_multiset().count(first) == 0);
        }
    }
}

/// What the layers measure is at least as large as each child, and in each
/// dimension no larger than the largest.
pub proof fn law_largest_is_least_upper_bound(sizes: Seq<Size<u32>>, other: Size<u32>)
    ensures
        forall|i: int|
            0 <= i < sizes.len() ==> {
                &&& (#[trigger] sizes[i]).width <= largest_of(sizes).width
                &&& sizes[i].height <= largest_of(sizes).height
            },
        (forall|i: int|
            0 <= i < sizes.len() ==> (#[trigger] sizes[i]).width <= other.width && sizes[i].height
                <= other.height) ==> largest_of(sizes).width <= other.width && largest_of(
            sizes,
        ).height <= other.height,
    decreases sizes.len(),
{
    if sizes.len() > 0 {
        law_largest_is_least_upper_bound(sizes.drop_last(), other);
        assert forall|i: int| 0 <= i < sizes.len() implies (#[trigger] sizes[i]).width <= largest_of(
            sizes,
        ).width && sizes[i].height <= largest_of(sizes).height by {
            if i < sizes.len() - 1 {
                assert(sizes.drop_last()[i] == sizes[i]);
            }
        }
        if forall|i: int|
            0 <= i < sizes.len() ==> (#[trigger] sizes[i]).width <= other.width && sizes[i].height
                <= other.height {
            assert forall|i: int| 0 <= i < sizes.drop_last().len() implies (
            #[trigger] sizes.drop_last()[i]).width <= other.width && sizes.drop_last()[i].height
                <= other.height by {
                assert(sizes.drop_last()[i] == sizes[i]);
            }
        }
    }
}

/// A layout of layers that has only begun is on course.
pub proof fn law_layers_layout_begins_on_course(pass: LayersPass)
    requires
        pass.measured == (Size { width: 0u32, height: 0u32 }),
        pass.stage == LayersStage::Measuring(0),
    ensures
        pass.on_course(Seq::empty()),
{
}

/// A layout of layers stays on course, whatever the children measure and whatever
/// size the layers turn out to have: at each point, what has been measured is the
/// largest width and the largest height of the sizes so far.
pub proof fn law_layers_layout_stays_on_course(
    pass: LayersPass,
    sizes: Seq<Size<u32>>,
    size: Size<u32>,
    after: LayersPass,
)
    requires
        pass.on_course(sizes),
        pass.children@.len() <= usize::MAX,
    ensures
        pass.ask() is Measure && pass.measured_to(size, after) ==> after.on_course(
            sizes.push(size),
        ),
        pass.ask() is Fit && pass.fitted_to(size, after) ==> after.on_course(sizes),
        pass.ask() is Arrange && pass.arranged_to(after) ==> after.on_course(sizes),
{
    assert(sizes.push(size).drop_last() =~= sizes);
}

/// A layout of layers that is on course asks for what is next: for the child to
/// be measured after those that have been; for the largest of all to be fitted
/// once each child has been measured, and not before; and then for each child to
/// be laid out over the whole of the layers, and to fill them both ways.
pub proof fn law_layers_layout_asks_in_order(pass: LayersPass, sizes: Seq<Size<u32>>)
    requires
        pass.on_course(sizes),
    ensures
        match pass.ask() {
            LayersRequest::Measure { child, constraints } => {
                &&& sizes.len() < pass.children@.len()
                &&& child == pass.children@[sizes.len() as int]
                &&& constraints == pass.available_space
            },
            LayersRequest::Fit { available_space, measured } => {
                &&& sizes.len() == pass.children@.len()
                &&& available_space == pass.available_space
                &&& measured == largest_of(sizes)
            },
            LayersRequest::Arrange { child, constraints, layout } => {
                &&& sizes.len() == pass.children@.len()
                &&& pass.stage matches LayersStage::Arranging(size, next)
                &&& child == pass.children@[next as int]
                &&& constraints.width == ConstraintLimit::Fill(size.width)
                &&& constraints.height == ConstraintLimit::Fill(size.height)
                &&& layout == area_of(size)
            },
            LayersRequest::Finished(size) => {
                &&& sizes.len() == pass.children@.len()
                &&& pass.stage == LayersStage::Arranging(size, pass.children@.len() as usize)
            },
        },
{
}

/// The lowest layer that has something to say about how the root of the window is
/// to behave decides.
pub proof fn law_root_behavior_is_the_first<Behavior>(
    mounted: Seq<WidgetId>,
    asked: nat,
    answer: spec_fn(WidgetId) -> Option<Behavior>,
)
    ensures
        match root_found(mounted, asked, None, answer) {
            Some(behavior) => exists|i: int|
                asked <= i < mounted.len() && #[trigger] answer(mounted[i]) == Some(behavior) && (
                forall|j: int| asked <= j < i ==> #[trigger] answer(mounted[j]) is None),
            None => forall|i: int| asked <= i < mounted.len() ==> #[trigger] answer(
                mounted[i],
            ) is None,
        },
    decreases mounted.len() - asked,
{
    if asked < mounted.len() {
        let first = answer(mounted[asked as int]);
        if first is None {
            law_root_behavior_is_the_first(mounted, asked + 1, answer);
        } else {
            assert(root_found(mounted, asked + 1, first, answer) == first);
        }
    }
}

/// Whatever space was available, each child fills the size of the layers both
/// ways, and lies at their origin with that size, as far as a signed coordinate can
/// tell it.
pub proof fn law_each_child_fills_the_layers(pass: LayersPass, size: Size<u32>, next: usize)
    requires
        pass.stage == LayersStage::Arranging(size, next),
        next < pass.children@.len(),
    ensures
        pass.ask() matches LayersRequest::Arrange { child, constraints, layout } && {
            &&& child == pass.children@[next as int]
            &&& constraints.width == ConstraintLimit::Fill(size.width)
            &&& constraints.height == ConstraintLimit::Fill(size.height)
            &&& layout.origin.x == 0
            &&& layout.origin.y == 0
            &&& layout.size.width == if size.width <= 0x7fff_ffff {
                size.width as int
            } else {
                0x7fff_ffff
            }
            &&& layout.size.height == if size.height <= 0x7fff_ffff {
                size.height as int
            } else {
                0x7fff_ffff
            }
        },
{
}

/// A step of a layout changes what it takes note of and nothing else: the children
/// and the space stay, measuring goes on to the next child, the size of the layers
/// is the one that was answered, and arranging goes on to the next child.
pub proof fn law_layers_steps_change_one_thing(
    pass: LayersPass,
    size: Size<u32>,
    after: LayersPass,
)
    ensures
        pass.measured_to(size, after) || pass.fitted_to(size, after) || pass.arranged_to(after) ==> {
            &&& after.children@ == pass.children@
            &&& after.available_space == pass.available_space
        },
        pass.ask() is Measure && pass.measured_to(size, after) ==> {
            &&& after.stage matches LayersStage::Measuring(next)
            &&& next == pass.stage->Measuring_0 + 1
            &&& after.measured.width >= pass.measured.width && after.measured.width >= size.width
            &&& after.measured.width == pass.measured.width || after.measured.width == size.width
            &&& after.measured.height >= pass.measured.height && after.measured.height >= size.height
            &&& after.measured.height == pass.measured.height || after.measured.height
                == size.height
        },
        pass.fitted_to(size, after) ==> {
            &&& after.measured == pass.measured
            &&& after.stage matches LayersStage::Arranging(fitted, next)
            &&& fitted == size
            &&& next == 0
        },
        pass.ask() is Arrange && pass.arranged_to(after) ==> {
            &&& after.measured == pass.measured
            &&& after.stage matches LayersStage::Arranging(fitted, next)
            &&& fitted == pass.stage->Arranging_0
            &&& next == pass.stage->Arranging_1 + 1
        },
{
    if pass.ask() is Measure {
        assert(pass.children@.len() == pass.children.len());
    }
    if pass.ask() is Arrange {
        assert(pass.children@.len() == pass.children.len());
    }
}

/// Dynamic children are brought up to date exactly if they are of another
/// generation than the mounted ones, and constant ones exactly if they are not as
/// many. Then the mounted widgets are the children, of their generation; else
/// nothing changes.
pub proof fn law_brought_up_to_date_when_changed(before: Layers, after: Layers)
    requires
        before.synchronized(after),
    ensures
        after.children == before.children,
        match before.children {
            Value::Dynamic(children) => if before.mounted_generation == Some(children.generation) {
                &&& after.mounted@ == before.mounted@
                &&& after.mounted_generation == before.mounted_generation
                &&& before.changes() == Seq::<ChildChange>::empty()
            } else {
                &&& after.mounted@ == children.value.widgets@
                &&& after.mounted_generation == Some(children.generation)
                &&& before.changes() == changes_between(before.mounted@, children.value.widgets@)
            },
            Value::Constant(children) => if before.mounted@.len() == children.widgets@.len() {
                &&& after.mounted@ == before.mounted@
                &&& after.mounted_generation == before.mounted_generation
                &&& before.changes() == Seq::<ChildChange>::empty()
            } else {
                &&& after.mounted@ == children.widgets@
                &&& after.mounted_generation is None
                &&& before.changes() == changes_between(before.mounted@, children.widgets@)
            },
        },
{
}

/// All that is pushed is pushed before anything is removed.
pub proof fn law_pushed_before_removed(mounted: Seq<WidgetId>, wanted: Seq<WidgetId>, i: int)
    requires
        0 <= i < changes_between(mounted, wanted).len(),
    ensures
        ({
            let pushed = missing(mounted, wanted);
            let removed = left_over(mounted, wanted);
            &&& changes_between(mounted, wanted).len() == pushed.len() + removed.len()
            &&& i < pushed.len() ==> changes_between(mounted, wanted)[i] == ChildChange::Push(
                pushed[i],
            )
            &&& i >= pushed.len() ==> changes_between(mounted, wanted)[i] == ChildChange::Remove(
                removed[i - pushed.len()],
            )
        }),
{
}

/// The children are gone through in order. One is pushed exactly if as many of the
/// same came before it as were mounted: so it is one more than there are.
pub proof fn law_pushed_in_order(mounted: Seq<WidgetId>, wanted: Seq<WidgetId>, next: WidgetId)
    ensures
        missing(mounted, Seq::empty()) == Seq::<WidgetId>::empty(),
        missing(mounted, wanted.push(next)) == if wanted.to_multiset().count(next)
            >= mounted.to_multiset().count(next) {
            missing(mounted, wanted).push(next)
        } else {
            missing(mounted, wanted)
        },
{
    broadcast use vstd::seq_lib::group_to_multiset_ensures;

    lemma_one_more(mounted, wanted, next);
    law_changes_are_minimal(mounted, wanted, next);
    let pool = left_over(mounted, wanted);
    assert(pool.contains(next) <==> pool.to_multiset().count(next) > 0);
}

/// What is left over is found by taking the children out of it in order. One that
/// is there is taken out where it is first, and the one at the front moves there:
/// the two have been swapped. One that is not there leaves it as it is.
pub proof fn law_left_over_by_swapping(
    mounted: Seq<WidgetId>,
    wanted: Seq<WidgetId>,
    next: WidgetId,
)
    ensures
        left_over(mounted, Seq::empty()) == mounted,
        ({
            let pool = left_over(mounted, wanted);
            let rest = left_over(mounted, wanted.push(next));
            &&& !pool.contains(next) ==> rest == pool
            &&& pool.contains(next) ==> exists|at: int|
                {
                    &&& 0 <= at < pool.len()
                    &&& #[trigger] pool[at] == next
                    &&& forall|before: int| 0 <= before < at ==> #[trigger] pool[before] != next
                    &&& rest.len() + 1 == pool.len()
                    &&& forall|i: int|
                        0 < i < pool.len() ==> rest[i - 1] == if i == at {
                            pool[0]
                        } else {
                            #[trigger] pool[i]
                        }
                }
        }),
{
    lemma_one_more(mounted, wanted, next);
    let pool = left_over(mounted, wanted);
    lemma_position_in(pool, next);
    lemma_position_is_first(pool, next);
    if pool.contains(next) {
        let at = position_in(pool, next) as int;
        assert(pool[at] == next);
    }
}

/// Taking out one widget more is taking it out of what is left.
proof fn lemma_one_more(pool: Seq<WidgetId>, wanted: Seq<WidgetId>, next: WidgetId)
    ensures
        ({
            let rest = left_over(pool, wanted);
            &&& left_over(pool, wanted.push(next)) == if rest.contains(next) {
                without(rest, next)
            } else {
                rest
            }
            &&& missing(pool, wanted.push(next)) == if rest.contains(next) {
                missing(pool, wanted)
            } else {
                missing(pool, wanted).push(next)
            }
        }),
    decreases wanted.len(),
{
    let more = wanted.push(next);
    if wanted.len() == 0 {
        assert(more.skip(1) =~= Seq::empty());
        reveal_with_fuel(left_over, 2);
        reveal_with_fuel(missing, 2);
        assert(missing(pool, more) =~= if pool.contains(next) {
            Seq::empty()
        } else {
            Seq::empty().push(next)
        });
    } else {
        assert(more.skip(1) =~= wanted.skip(1).push(next));
        assert(more[0] == wanted[0]);
        if pool.contains(wanted[0]) {
            lemma_one_more(without(pool, wanted[0]), wanted.skip(1), next);
        } else {
            lemma_one_more(pool, wanted.skip(1), next);
            let pushed = missing(pool, wanted.skip(1));
            assert(seq![wanted[0]] + pushed.push(next) =~= (seq![wanted[0]] + pushed).push(next));
        }
    }
}

/// No earlier position holds the widget.
proof fn lemma_position_is_first(pool: Seq<WidgetId>, widget: WidgetId)
    ensures
        forall|i: int| 0 <= i < position_in(pool, widget) ==> #[trigger] pool[i] != widget,
    decreases pool.len(),
{
    if pool.len() > 0 && pool[0] != widget {
        let rest = pool.skip(1);
        lemma_position_in(pool, widget);
        lemma_position_is_first(rest, widget);
        assert forall|i: int| 0 <= i < position_in(pool, widget) implies #[trigger] pool[i]
            != widget by {
            if i > 0 {
                assert(rest[i - 1] == pool[i]);
            }
        }
    }
}

/// A layer that has something to say ends the search with what it said. Until one
/// has, the layers are asked one after the other, the lowest first, and when all
/// have been, nothing is found.
pub proof fn law_asked_one_after_the_other<Behavior>(
    mounted: Seq<WidgetId>,
    asked: nat,
    behavior: Behavior,
)
    ensures
        root_step(mounted, asked, Some(behavior)) == RootStep::Found(Some(behavior)),
        asked < mounted.len() ==> root_step::<Behavior>(mounted, asked, None) == RootStep::<
            Behavior,
        >::Ask(mounted[asked as int]),
        asked >= mounted.len() ==> root_step::<Behavior>(mounted, asked, None) == RootStep::<
            Behavior,
        >::Found(None),
{
}

} // verus!
