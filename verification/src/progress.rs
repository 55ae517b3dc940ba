//! Progress indicators.
use crate::value::{Dynamic, Generation, IntoDynamic, IntoValue, Value};
use vstd::prelude::*;

verus! {

/// The bits of the number 1 as an `f32`.
pub const ONE_BITS: u32 = 0x3f80_0000;

/// The bits of the number 0.66 as an `f32`.
pub const SIXTY_SIX_PERCENT_BITS: u32 = 0x3f28_f5c3;

/// The bits of the number 0.33 as an `f32`.
pub const THIRTY_THREE_PERCENT_BITS: u32 = 0x3ea8_f5c3;

/// How long each of the movements of an indeterminant progress bar takes, in
/// milliseconds.
pub const MOVEMENT_MILLIS: u64 = 500;

/// A number between zero and one, held as the bits of an `f32`. The larger of
/// two such numbers has the larger bits.
#[derive(Clone, Copy, Debug, PartialEq, Eq, Structural)]
pub struct ZeroToOne {
    /// The bits of the number.
    pub bits: u32,
}

impl ZeroToOne {
    /// The bits are those of a number between zero and one.
    pub open spec fn wf(self) -> bool {
        self.bits <= ONE_BITS
    }

    /// Returns the number that has these bits, if it is between zero and one and
    /// not the negative zero.
    pub fn from_bits(bits: u32) -> (number: Option<ZeroToOne>)
        ensures
            number == if bits <= ONE_BITS {
                Some(ZeroToOne { bits })
            } else {
                None
            },
    {
        if bits <= ONE_BITS {
            Some(ZeroToOne { bits })
        } else {
            None
        }
    }
}

/// A measurement of progress for an indicator widget like [`ProgressBar`].
#[derive(Clone, Copy, Debug, PartialEq, Eq, Structural)]
pub enum Progress {
    /// The task has an indeterminant length.
    Indeterminant,
    /// The task is a specified percent complete.
    Percent(ZeroToOne),
}

/// How a movement speeds up and slows down.
#[derive(Clone, Copy, Debug, PartialEq, Eq, Structural)]
pub enum Easing {
    /// Slowly at first and at last, along a sine curve.
    EaseInOutSine,
}

/// A movement of the ends of a bar.
#[derive(Clone, Copy, Debug, PartialEq, Eq)]
pub struct Transition {
    /// Where the start of the bar moves, if it does.
    pub start: Option<ZeroToOne>,
    /// Where the end of the bar moves, if it does.
    pub end: Option<ZeroToOne>,
    /// How long it takes, in milliseconds.
    pub millis: u64,
    /// How it speeds up and slows down, if it is not steady.
    pub easing: Option<Easing>,
}

/// Movements of the ends of a bar, one after the other, over and over again.
#[derive(Debug)]
pub struct Animation {
    /// The movements.
    pub cycle: Vec<Transition>,
}

/// The movement of the start of a bar to `target`, at ease.
pub open spec fn start_to(target: u32) -> Transition {
    Transition {
        start: Some(ZeroToOne { bits: target }),
        end: None,
        millis: MOVEMENT_MILLIS,
        easing: Some(Easing::EaseInOutSine),
    }
}

/// The movement of the end of a bar to `target`, at ease.
pub open spec fn end_to(target: u32) -> Transition {
    Transition {
        start: None,
        end: Some(ZeroToOne { bits: target }),
        millis: MOVEMENT_MILLIS,
        easing: Some(Easing::EaseInOutSine),
    }
}

/// The movements of an indeterminant progress bar: its end goes ahead, its start
/// follows, its end goes to the end, its start follows, and both are back.
pub open spec fn indeterminant_cycle() -> Seq<Transition> {
    seq![
        end_to(SIXTY_SIX_PERCENT_BITS),
        start_to(THIRTY_THREE_PERCENT_BITS),
        end_to(ONE_BITS),
        start_to(ONE_BITS),
        Transition {
            start: Some(ZeroToOne { bits: 0 }),
            end: Some(ZeroToOne { bits: 0 }),
            millis: 0,
            easing: None,
        },
    ]
}

/// Shows `progress` on a bar: sets its `start` and `end`, or the animation that
/// moves them. An animation that is no longer there is to be stopped, and one
/// that is there is to be started anew.
pub fn update_progress_bar(
    progress: Progress,
    indeterminant_animation: &mut Option<Animation>,
    start: &mut ZeroToOne,
    end: &mut ZeroToOne,
)
    ensures
        match progress {
            Progress::Indeterminant => {
                &&& *final(indeterminant_animation) matches Some(animation)
                &&& animation.cycle@ == indeterminant_cycle()
                &&& *final(start) == *old(start)
                &&& *final(end) == *old(end)
            },
            Progress::Percent(value) => {
                &&& *final(indeterminant_animation) is None
                &&& *final(start) == (ZeroToOne { bits: 0 })
                &&& *final(end) == value
            },
        },
{
    match progress {
        Progress::Indeterminant => {
            let eased = Some(Easing::EaseInOutSine);
            let mut cycle: Vec<Transition> = Vec::new();
            cycle.push(
                Transition {
                    start: None,
                    end: Some(ZeroToOne { bits: SIXTY_SIX_PERCENT_BITS }),
                    millis: MOVEMENT_MILLIS,
                    easing: eased,
                },
            );
            cycle.push(
                Transition {
                    start: Some(ZeroToOne { bits: THIRTY_THREE_PERCENT_BITS }),
                    end: None,
                    millis: MOVEMENT_MILLIS,
                    easing: eased,
                },
            );
            cycle.push(
                Transition {
                    start: None,
                    end: Some(ZeroToOne { bits: ONE_BITS }),
                    millis: MOVEMENT_MILLIS,
                    easing: eased,
                },
            );
            cycle.push(
                Transition {
                    start: Some(ZeroToOne { bits: ONE_BITS }),
                    end: None,
                    millis: MOVEMENT_MILLIS,
                    easing: eased,
                },
            );
            cycle.push(
                Transition {
                    start: Some(ZeroToOne { bits: 0 }),
                    end: Some(ZeroToOne { bits: 0 }),
                    millis: 0,
                    easing: None,
                },
            );
            assert(cycle@ =~= indeterminant_cycle());
            *indeterminant_animation = Some(Animation { cycle });
        },
        Progress::Percent(value) => {
            *indeterminant_animation = None;
            *start = ZeroToOne { bits: 0 };
            *end = value;
        },
    }
}

/// A bar-shaped progress indicator.
#[derive(Debug)]
pub struct ProgressBar {
    /// The progress that is shown.
    pub progress: Value<Progress>,
}

/// The state of a progress bar that is shown.
#[derive(Debug)]
pub struct ProgressIndicator {
    /// Where the bar starts.
    pub start: ZeroToOne,
    /// Where the bar ends.
    pub end: ZeroToOne,
    /// What moves the ends of the bar, if something does.
    pub indeterminant_animation: Option<Animation>,
    /// The progress that is followed, if it can change.
    pub followed: Option<Dynamic<Progress>>,
}

impl ProgressBar {
    /// Returns an indeterminant progress bar.
    #[must_use]
    pub fn indeterminant() -> (bar: ProgressBar)
        ensures
            bar.progress == Value::Constant(Progress::Indeterminant),
    {
        ProgressBar { progress: Value::Constant(Progress::Indeterminant) }
    }

    /// Returns a new progress bar that displays `progress`.
    #[must_use]
    pub fn new(progress: impl IntoDynamic<Progress>) -> (bar: ProgressBar)
        ensures
            bar.progress == Value::Dynamic(progress.as_dynamic()),
    {
        ProgressBar { progress: Value::Dynamic(progress.into_dynamic()) }
    }

    /// This bar after the progress that it displays has changed to `progress`. A
    /// constant progress does not change.
    pub open spec fn updated(self, progress: Progress) -> ProgressBar {
        match self.progress {
            Value::Dynamic(dynamic) => ProgressBar {
                progress: Value::Dynamic(dynamic.with(progress)),
            },
            Value::Constant(_) => self,
        }
    }

    /// Changes the progress that this bar displays, if it is dynamic.
    pub fn update(&mut self, progress: Progress)
        ensures
            *final(self) == old(self).updated(progress),
    {
        if let Value::Dynamic(dynamic) = &mut self.progress {
            dynamic.set(progress);
        }
    }

    /// Returns the state that this bar is shown in at first. If the progress can
    /// change, it is followed: it changes with [`ProgressIndicator::update`], which
    /// shows each change.
    pub fn make_widget(self) -> (indicator: ProgressIndicator)
        ensures
            indicator.shows(self.progress.current()),
            indicator.start == (ZeroToOne { bits: 0 }),
            indicator.end == match self.progress.current() {
                Progress::Indeterminant => ZeroToOne { bits: 0 },
                Progress::Percent(value) => value,
            },
            indicator.followed == match self.progress {
                Value::Dynamic(progress) => Some(progress),
                Value::Constant(_) => None,
            },
    {
        let mut start = ZeroToOne { bits: 0 };
        let mut end = ZeroToOne { bits: 0 };
        let mut indeterminant_animation: Option<Animation> = None;
        update_progress_bar(
            *self.progress.get(),
            &mut indeterminant_animation,
            &mut start,
            &mut end,
        );

        match self.progress {
            Value::Dynamic(progress) => ProgressIndicator {
                start,
                end,
                indeterminant_animation,
                followed: Some(progress),
            },
            Value::Constant(_) => ProgressIndicator {
                start,
                end,
                indeterminant_animation,
                followed: None,
            },
        }
    }
}

impl ProgressIndicator {
    /// The bar shows `progress`: it is moved as an indeterminant one is, or stands
    /// between zero and the percentage.
    pub open spec fn shows(self, progress: Progress) -> bool {
        match progress {
            Progress::Indeterminant => {
                &&& self.indeterminant_animation matches Some(animation)
                &&& animation.cycle@ == indeterminant_cycle()
            },
            Progress::Percent(value) => {
                &&& self.indeterminant_animation is None
                &&& self.start == (ZeroToOne { bits: 0 })
                &&& self.end == value
            },
        }
    }

    /// The progress that is followed, after it has changed to `progress`.
    pub open spec fn followed_to(self, progress: Progress) -> Option<Dynamic<Progress>> {
        match self.followed {
            Some(followed) => Some(followed.with(progress)),
            None => None,
        }
    }

    /// The bar shows the progress that it follows, as that is now.
    pub open spec fn in_step(self) -> bool {
        self.followed matches Some(followed) && self.shows(followed.value)
    }

    /// Changes the progress that is followed to `progress`, and shows it.
    pub fn update(&mut self, progress: Progress)
        ensures
            final(self).shows(progress),
            final(self).followed == old(self).followed_to(progress),
            old(self).followed is Some ==> final(self).in_step(),
            progress is Indeterminant ==> final(self).start == old(self).start,
            progress is Indeterminant ==> final(self).end == old(self).end,
    {
        if let Some(followed) = &mut self.followed {
            followed.set(progress);
        }
        update_progress_bar(
            progress,
            &mut self.indeterminant_animation,
            &mut self.start,
            &mut self.end,
        );
    }

    /// Shows the progress of a task that is now at `value` within `range`, and
    /// changes the progress that is followed to it.
    pub fn follow<T, F: Fn(&T, &T, &T) -> ZeroToOne>(
        &mut self,
        value: &T,
        range: &Option<ProgressRange<T>>,
        percent_between: &F,
    )
        requires
            can_measure(*value, *range, *percent_between),
        ensures
            exists|progress: Progress|
                {
                    &&& is_progress(*value, *range, *percent_between, progress)
                    &&& #[trigger] final(self).shows(progress)
                    &&& final(self).followed == old(self).followed_to(progress)
                    &&& progress is Indeterminant ==> final(self).start == old(self).start
                    &&& progress is Indeterminant ==> final(self).end == old(self).end
                },
    {
        let progress = progress_within(value, range, percent_between);
        self.update(progress);
    }
}

/// The values from `start` to `end`, both of them included.
#[derive(Clone, Copy, Debug, PartialEq, Eq)]
pub struct ProgressRange<T> {
    /// The value at which a task begins.
    pub start: T,
    /// The value at which a task is complete.
    pub end: T,
}

/// `progress` is that of a task at `value`: indeterminant without a `range`, else
/// a percentage that `percent_between` gives for the value within it.
pub open spec fn is_progress<T, F: Fn(&T, &T, &T) -> ZeroToOne>(
    value: T,
    range: Option<ProgressRange<T>>,
    percent_between: F,
    progress: Progress,
) -> bool {
    match (range, progress) {
        (None, Progress::Indeterminant) => true,
        (Some(range), Progress::Percent(percent)) => call_ensures(
            percent_between,
            (&value, &range.start, &range.end),
            percent,
        ),
        _ => false,
    }
}

/// `percent_between` can be asked for `value` within `range`, if there is one.
pub open spec fn can_measure<T, F: Fn(&T, &T, &T) -> ZeroToOne>(
    value: T,
    range: Option<ProgressRange<T>>,
    percent_between: F,
) -> bool {
    match range {
        Some(range) => call_requires(percent_between, (&value, &range.start, &range.end)),
        None => true,
    }
}

/// Returns the progress of a task at `value`: indeterminant without a `range`,
/// else the percentage that `percent_between` gives for the value within it.
pub fn progress_within<T, F: Fn(&T, &T, &T) -> ZeroToOne>(
    value: &T,
    range: &Option<ProgressRange<T>>,
    percent_between: &F,
) -> (progress: Progress)
    requires
        can_measure(*value, *range, *percent_between),
    ensures
        is_progress(*value, *range, *percent_between, progress),
{
    match range {
        Some(range) => Progress::Percent(percent_between(value, &range.start, &range.end)),
        None => Progress::Indeterminant,
    }
}

/// The range from `min` to `max`, if there is a `max`.
pub open spec fn range_to<T>(min: T, max: Option<T>) -> Option<ProgressRange<T>> {
    match max {
        Some(max) => Some(ProgressRange { start: min, end: max }),
        None => None,
    }
}

/// The range within which a task is measured, as it is now.
#[derive(Debug)]
pub enum FollowedRange<T> {
    /// The task is measured within this range, if there is one.
    Between(Value<Option<ProgressRange<T>>>),
    /// The task is measured from `min` to `max`, if there is a `max`.
    To {
        /// The value at which the task begins.
        min: T,
        /// The value at which the task is complete.
        max: Value<Option<T>>,
    },
}

impl<T> FollowedRange<T> {
    /// The range, as it is now.
    pub open spec fn now(self) -> Option<ProgressRange<T>> {
        match self {
            FollowedRange::Between(range) => range.current(),
            FollowedRange::To { min, max } => range_to(min, max.current()),
        }
    }
}

/// A change of what the progress of a task depends on.
#[derive(Debug)]
pub enum ProgressChange<T> {
    /// The value has changed to this.
    Value(T),
    /// The range has changed to this.
    Range(Option<ProgressRange<T>>),
    /// The maximum has changed to this.
    Max(Option<T>),
}

/// What the progress of a task depends on.
#[derive(Debug)]
pub struct ProgressSource<T, F> {
    /// How far the task is.
    pub value: Dynamic<T>,
    /// The range within which it is measured.
    pub range: FollowedRange<T>,
    /// What says where a value is within a range.
    pub percent_between: F,
}

impl<T, F> ProgressSource<T, F> {
    /// `change` is one that can happen: what is constant does not change.
    pub open spec fn can_change(self, change: ProgressChange<T>) -> bool {
        match (change, self.range) {
            (ProgressChange::Value(_), _) => true,
            (ProgressChange::Range(_), FollowedRange::Between(range)) => range is Dynamic,
            (ProgressChange::Max(_), FollowedRange::To { min: _, max }) => max is Dynamic,
            _ => false,
        }
    }

    /// This source after `change`.
    pub open spec fn changed(self, change: ProgressChange<T>) -> ProgressSource<T, F> {
        match (change, self.range) {
            (ProgressChange::Value(value), _) => ProgressSource {
                value: self.value.with(value),
                ..self
            },
            (
                ProgressChange::Range(range),
                FollowedRange::Between(Value::Dynamic(dynamic)),
            ) => ProgressSource {
                range: FollowedRange::Between(Value::Dynamic(dynamic.with(range))),
                ..self
            },
            (
                ProgressChange::Max(max),
                FollowedRange::To { min, max: Value::Dynamic(dynamic) },
            ) => ProgressSource {
                range: FollowedRange::To { min, max: Value::Dynamic(dynamic.with(max)) },
                ..self
            },
            _ => self,
        }
    }
}

impl<T, F: Fn(&T, &T, &T) -> ZeroToOne> ProgressSource<T, F> {
    /// `progress` is that of the task, as it is now.
    pub open spec fn gives(self, progress: Progress) -> bool {
        is_progress(self.value.value, self.range.now(), self.percent_between, progress)
    }

    /// The progress of the task can be measured, as it is now.
    pub open spec fn measurable(self) -> bool {
        can_measure(self.value.value, self.range.now(), self.percent_between)
    }

    /// Returns the progress of the task, as it is now.
    pub fn progress(&self) -> (progress: Progress)
        requires
            self.measurable(),
        ensures
            self.gives(progress),
    {
        let percent_between = &self.percent_between;
        match &self.range {
            FollowedRange::Between(range) => progress_within(
                &self.value.value,
                range.get(),
                percent_between,
            ),
            FollowedRange::To { min, max } => match max.get() {
                Some(max) => Progress::Percent(percent_between(&self.value.value, min, max)),
                None => Progress::Indeterminant,
            },
        }
    }

    /// Returns whether `change` is one that can happen.
    pub fn check_change(&self, change: &ProgressChange<T>) -> (can: bool)
        ensures
            can == self.can_change(*change),
    {
        match (change, &self.range) {
            (ProgressChange::Value(_), _) => true,
            (ProgressChange::Range(_), FollowedRange::Between(Value::Dynamic(_))) => true,
            (ProgressChange::Max(_), FollowedRange::To { min: _, max: Value::Dynamic(_) }) => true,
            _ => false,
        }
    }

    /// Takes note of `change`.
    pub fn change(&mut self, change: ProgressChange<T>)
        requires
            old(self).can_change(change),
        ensures
            *final(self) == old(self).changed(change),
    {
        match change {
            ProgressChange::Value(value) => self.value.set(value),
            ProgressChange::Range(range) => {
                if let FollowedRange::Between(Value::Dynamic(dynamic)) = &mut self.range {
                    dynamic.set(range);
                }
            },
            ProgressChange::Max(max) => {
                if let FollowedRange::To { min: _, max: Value::Dynamic(dynamic) } = &mut self.range {
                    dynamic.set(max);
                }
            },
        }
    }
}

/// A progress bar together with what it follows. The two change in one step, so
/// that the bar always displays the progress as it is.
#[derive(Debug)]
pub struct FollowingBar<T, F> {
    /// What the bar follows.
    pub source: ProgressSource<T, F>,
    /// The bar.
    pub bar: ProgressBar,
}

impl<T, F: Fn(&T, &T, &T) -> ZeroToOne> FollowingBar<T, F> {
    /// The bar displays the progress of the task, as it is now.
    pub open spec fn in_step(self) -> bool {
        self.bar.progress matches Value::Dynamic(progress) && self.source.gives(progress.value)
    }

    /// The bar is a new one for `source`.
    pub open spec fn is_new(self, source: ProgressSource<T, F>) -> bool {
        &&& self.source == source
        &&& self.in_step()
        &&& self.bar.progress.current_generation() == Some(Generation(0))
    }

    /// `after` is this bar after `change`.
    pub open spec fn changes_to(self, change: ProgressChange<T>, after: FollowingBar<T, F>) -> bool {
        &&& self.source.can_change(change)
        &&& after.source == self.source.changed(change)
        &&& after.in_step()
        &&& after.bar == self.bar.updated(after.bar.progress.current())
    }

    /// Returns a new progress bar that follows `source`.
    pub fn new(source: ProgressSource<T, F>) -> (following: FollowingBar<T, F>)
        requires
            source.measurable(),
        ensures
            following.is_new(source),
    {
        let progress = source.progress();
        FollowingBar { source, bar: ProgressBar::new(Dynamic::new(progress)) }
    }

    /// Takes note of `change`, and displays the progress after it.
    pub fn change(&mut self, change: ProgressChange<T>)
        requires
            old(self).in_step(),
            old(self).source.can_change(change),
            old(self).source.changed(change).measurable(),
        ensures
            old(self).changes_to(change, *final(self)),
    {
        self.source.change(change);
        let progress = self.source.progress();
        self.bar.update(progress);
    }

    /// Returns the state that this bar is shown in at first. It goes on following.
    pub fn make_widget(self) -> (indicator: FollowingIndicator<T, F>)
        requires
            self.in_step(),
        ensures
            indicator.source == self.source,
            indicator.in_step(),
            indicator.indicator.followed == Some(self.bar.progress->Dynamic_0),
            indicator.indicator.start == (ZeroToOne { bits: 0 }),
            self.bar.progress.current() is Indeterminant ==> indicator.indicator.end == (ZeroToOne {
                bits: 0,
            }),
    {
        FollowingIndicator { source: self.source, indicator: self.bar.make_widget() }
    }
}

/// A progress bar that is shown, together with what it follows.
#[derive(Debug)]
pub struct FollowingIndicator<T, F> {
    /// What the bar follows.
    pub source: ProgressSource<T, F>,
    /// The state of the bar.
    pub indicator: ProgressIndicator,
}

impl<T, F: Fn(&T, &T, &T) -> ZeroToOne> FollowingIndicator<T, F> {
    /// The bar shows the progress of the task, as it is now.
    pub open spec fn in_step(self) -> bool {
        &&& self.indicator.in_step()
        &&& self.source.gives(self.indicator.followed->0.value)
    }

    /// `after` is this bar after `change`.
    pub open spec fn changes_to(
        self,
        change: ProgressChange<T>,
        after: FollowingIndicator<T, F>,
    ) -> bool {
        let progress = after.indicator.followed->0.value;
        &&& self.source.can_change(change)
        &&& after.source == self.source.changed(change)
        &&& after.in_step()
        &&& after.indicator.followed == self.indicator.followed_to(progress)
        &&& progress is Indeterminant ==> after.indicator.start == self.indicator.start
        &&& progress is Indeterminant ==> after.indicator.end == self.indicator.end
    }

    /// Takes note of `change`, and shows the progress after it.
    pub fn change(&mut self, change: ProgressChange<T>)
        requires
            old(self).in_step(),
            old(self).source.can_change(change),
            old(self).source.changed(change).measurable(),
        ensures
            old(self).changes_to(change, *final(self)),
    {
        self.source.change(change);
        let progress = self.source.progress();
        self.indicator.update(progress);
    }
}

/// A value that can be used in a progress indicator.
///
/// Where a value is within a range is for the caller to say: `percent_between`
/// is given the value and the two ends of the range. The bar that is returned
/// follows the value and the range: they change through it, with
/// [`FollowingBar::change`] and, once it is shown, [`FollowingIndicator::change`].
pub trait Progressable<T>: IntoDynamic<T> {
    /// Returns a new progress bar that displays progress over `bounds`, the
    /// smallest and the largest value there is.
    fn progress_bar<F: Fn(&T, &T, &T) -> ZeroToOne>(
        self,
        bounds: ProgressRange<T>,
        percent_between: F,
    ) -> (bar: FollowingBar<T, F>)
        requires
            can_measure(self.as_dynamic().value, Some(bounds), percent_between),
        ensures
            bar.is_new(
                ProgressSource {
                    value: self.as_dynamic(),
                    range: FollowedRange::Between(Value::Constant(Some(bounds))),
                    percent_between,
                },
            ),
    {
        self.progress_bar_between(Value::Constant(Some(bounds)), percent_between)
    }

    /// Returns a new progress bar that displays progress from `min`, the smallest
    /// value there is, to `max`. The maximum value can be either a `T` or an
    /// `Option<T>`. If `None` is the maximum value, an indeterminant progress bar
    /// will be displayed.
    fn progress_bar_to<Max: IntoValue<Option<T>>, F: Fn(&T, &T, &T) -> ZeroToOne>(
        self,
        min: T,
        max: Max,
        percent_between: F,
    ) -> (bar: FollowingBar<T, F>)
        requires
            can_measure(
                self.as_dynamic().value,
                range_to(min, max.as_value().current()),
                percent_between,
            ),
        ensures
            bar.is_new(
                ProgressSource {
                    value: self.as_dynamic(),
                    range: FollowedRange::To { min, max: max.as_value() },
                    percent_between,
                },
            ),
    {
        FollowingBar::new(
            ProgressSource {
                value: self.into_dynamic(),
                range: FollowedRange::To { min, max: max.into_value() },
                percent_between,
            },
        )
    }

    /// Returns a new progress bar that displays progress over the specified
    /// `range`. If `None` is specified as the range, an indeterminant progress
    /// bar will be displayed.
    fn progress_bar_between<
        Range: IntoValue<Option<ProgressRange<T>>>,
        F: Fn(&T, &T, &T) -> ZeroToOne,
    >(self, range: Range, percent_between: F) -> (bar: FollowingBar<T, F>)
        requires
            can_measure(self.as_dynamic().value, range.as_value().current(), percent_between),
        ensures
            bar.is_new(
                ProgressSource {
                    value: self.as_dynamic(),
                    range: FollowedRange::Between(range.as_value()),
                    percent_between,
                },
            ),
    {
        FollowingBar::new(
            ProgressSource {
                value: self.into_dynamic(),
                range: FollowedRange::Between(range.into_value()),
                percent_between,
            },
        )
    }
}

impl<U, T> Progressable<U> for T where T: IntoDynamic<U> {

}

/// Where the ends of a bar are after the first `count` of `movements`, when they
/// begin at `start` and `end`.
pub open spec fn moved(
    movements: Seq<Transition>,
    count: nat,
    start: ZeroToOne,
    end: ZeroToOne,
) -> (ZeroToOne, ZeroToOne)
    decreases count,
{
    if count == 0 {
        (start, end)
    } else {
        let (start, end) = moved(movements, (count - 1) as nat, start, end);
        let movement = movements[count - 1];
        (
            match movement.start {
                Some(start) => start,
                None => start,
            },
            match movement.end {
                Some(end) => end,
                None => end,
            },
        )
    }
}

/// Whatever percentage an indeterminant progress bar takes over from, its start
/// is never past its end when a movement begins or is over, both are between zero
/// and one, and after each cycle both are back at zero.
pub proof fn law_indeterminant_bar_is_a_range(value: ZeroToOne, count: nat)
    requires
        value.wf(),
        count <= 5,
    ensures
        ({
            let (start, end) = moved(
                indeterminant_cycle(),
                count,
                ZeroToOne { bits: 0 },
                value,
            );
            &&& start.bits <= end.bits
            &&& start.wf()
            &&& end.wf()
            &&& count == 5 ==> start.bits == 0 && end.bits == 0
        }),
{
    reveal_with_fuel(moved, 6);
    assert(indeterminant_cycle().len() == 5);
}

/// A progress bar shows the progress that it was last given, whatever it has
/// shown before: two bars that were given the same percentage look the same.
pub proof fn law_progress_forgets_the_past(
    one: ProgressIndicator,
    other: ProgressIndicator,
    value: ZeroToOne,
)
    requires
        one.shows(Progress::Percent(value)),
        other.shows(Progress::Percent(value)),
    ensures
        one.start == other.start,
        one.end == other.end,
        one.indeterminant_animation == other.indeterminant_animation,
{
}

/// `source` after all of `changes`, one after the other.
pub open spec fn changed_by<T, F>(
    source: ProgressSource<T, F>,
    changes: Seq<ProgressChange<T>>,
) -> ProgressSource<T, F>
    decreases changes.len(),
{
    if changes.len() == 0 {
        source
    } else {
        changed_by(source, changes.drop_last()).changed(changes.last())
    }
}

/// The value that the last of `changes` to the value has left, and `first` if
/// there is none.
pub open spec fn latest_value<T>(first: T, changes: Seq<ProgressChange<T>>) -> T
    decreases changes.len(),
{
    if changes.len() == 0 {
        first
    } else {
        match changes.last() {
            ProgressChange::Value(value) => value,
            _ => latest_value(first, changes.drop_last()),
        }
    }
}

/// The range that the last of `changes` to the range has left, and `first` if
/// there is none.
pub open spec fn latest_range<T>(
    first: Option<ProgressRange<T>>,
    changes: Seq<ProgressChange<T>>,
) -> Option<ProgressRange<T>>
    decreases changes.len(),
{
    if changes.len() == 0 {
        first
    } else {
        match changes.last() {
            ProgressChange::Range(range) => range,
            _ => latest_range(first, changes.drop_last()),
        }
    }
}

/// The maximum that the last of `changes` to the maximum has left, and `first` if
/// there is none.
pub open spec fn latest_max<T>(first: Option<T>, changes: Seq<ProgressChange<T>>) -> Option<T>
    decreases changes.len(),
{
    if changes.len() == 0 {
        first
    } else {
        match changes.last() {
            ProgressChange::Max(max) => max,
            _ => latest_max(first, changes.drop_last()),
        }
    }
}

/// The first of `bars` goes through `changes`, one after the other: each of the
/// others is what the one before it becomes.
pub open spec fn goes_through<T, F: Fn(&T, &T, &T) -> ZeroToOne>(
    bars: Seq<FollowingBar<T, F>>,
    changes: Seq<ProgressChange<T>>,
) -> bool {
    &&& bars.len() == changes.len() + 1
    &&& forall|i: int|
        0 <= i < changes.len() ==> (#[trigger] bars[i]).changes_to(changes[i], bars[i + 1])
}

/// A bar that follows a value and a range displays at any time the progress of
/// the latest value within the latest range: a percentage if there is a range,
/// else it is indeterminant. A constant range is always the latest.
pub proof fn law_bar_between_follows<T, F: Fn(&T, &T, &T) -> ZeroToOne>(
    value: Dynamic<T>,
    range: Value<Option<ProgressRange<T>>>,
    percent_between: F,
    bars: Seq<FollowingBar<T, F>>,
    changes: Seq<ProgressChange<T>>,
    time: int,
)
    requires
        goes_through(bars, changes),
        bars[0].is_new(
            ProgressSource { value, range: FollowedRange::Between(range), percent_between },
        ),
        0 <= time < bars.len(),
    ensures
        ({
            let latest = match range {
                Value::Constant(range) => range,
                Value::Dynamic(range) => latest_range(range.value, changes.take(time)),
            };
            bars[time].bar.progress matches Value::Dynamic(progress) && is_progress(
                latest_value(value.value, changes.take(time)),
                latest,
                percent_between,
                progress.value,
            )
        }),
{
    lemma_followed_between(value, range, percent_between, bars, changes, time);
}

/// A bar that follows a value and a maximum displays at any time the progress of
/// the latest value from the minimum to the latest maximum: a percentage if there
/// is a maximum, else it is indeterminant. A constant maximum is always the
/// latest.
pub proof fn law_bar_to_follows<T, F: Fn(&T, &T, &T) -> ZeroToOne>(
    value: Dynamic<T>,
    min: T,
    max: Value<Option<T>>,
    percent_between: F,
    bars: Seq<FollowingBar<T, F>>,
    changes: Seq<ProgressChange<T>>,
    time: int,
)
    requires
        goes_through(bars, changes),
        bars[0].is_new(
            ProgressSource { value, range: FollowedRange::To { min, max }, percent_between },
        ),
        0 <= time < bars.len(),
    ensures
        ({
            let latest = match max {
                Value::Constant(max) => max,
                Value::Dynamic(max) => latest_max(max.value, changes.take(time)),
            };
            bars[time].bar.progress matches Value::Dynamic(progress) && is_progress(
                latest_value(value.value, changes.take(time)),
                range_to(min, latest),
                percent_between,
                progress.value,
            )
        }),
{
    lemma_followed_to(value, min, max, percent_between, bars, changes, time);
}

/// A bar that follows a value over fixed bounds displays at any time the
/// percentage of the latest value within them, and is never indeterminant.
pub proof fn law_bar_follows<T, F: Fn(&T, &T, &T) -> ZeroToOne>(
    value: Dynamic<T>,
    bounds: ProgressRange<T>,
    percent_between: F,
    bars: Seq<FollowingBar<T, F>>,
    changes: Seq<ProgressChange<T>>,
    time: int,
)
    requires
        goes_through(bars, changes),
        bars[0].is_new(
            ProgressSource {
                value,
                range: FollowedRange::Between(Value::Constant(Some(bounds))),
                percent_between,
            },
        ),
        0 <= time < bars.len(),
    ensures
        bars[time].bar.progress.current() matches Progress::Percent(percent) && call_ensures(
            percent_between,
            (&latest_value(value.value, changes.take(time)), &bounds.start, &bounds.end),
            percent,
        ),
{
    law_bar_between_follows(
        value,
        Value::Constant(Some(bounds)),
        percent_between,
        bars,
        changes,
        time,
    );
}

/// It does not matter how a range is given: as a constant, as a dynamic value or
/// as a maximum, the same range gives the same progress.
pub proof fn law_ranges_agree<T, F: Fn(&T, &T, &T) -> ZeroToOne>(
    value: Dynamic<T>,
    start: T,
    max: Option<T>,
    generation: Generation,
    percent_between: F,
    progress: Progress,
)
    ensures
        ({
            let given = is_progress(value.value, range_to(start, max), percent_between, progress);
            let range = range_to(start, max);
            let with = |range: FollowedRange<T>|
                ProgressSource { value, range, percent_between };
            &&& with(FollowedRange::Between(Value::Constant(range))).gives(progress) == given
            &&& with(
                FollowedRange::Between(Value::Dynamic(Dynamic { value: range, generation })),
            ).gives(progress) == given
            &&& with(FollowedRange::To { min: start, max: Value::Constant(max) }).gives(progress)
                == given
            &&& with(
                FollowedRange::To {
                    min: start,
                    max: Value::Dynamic(Dynamic { value: max, generation }),
                },
            ).gives(progress) == given
        }),
{
}

/// A bar that is shown goes on following: through any changes, it shows the
/// progress of what it follows, as that is.
pub proof fn law_shown_bar_follows<T, F: Fn(&T, &T, &T) -> ZeroToOne>(
    indicators: Seq<FollowingIndicator<T, F>>,
    changes: Seq<ProgressChange<T>>,
    time: int,
)
    requires
        indicators.len() == changes.len() + 1,
        indicators[0].in_step(),
        forall|i: int|
            0 <= i < changes.len() ==> (#[trigger] indicators[i]).changes_to(
                changes[i],
                indicators[i + 1],
            ),
        0 <= time < indicators.len(),
    ensures
        indicators[time].source == changed_by(indicators[0].source, changes.take(time)),
        exists|progress: Progress|
            #[trigger] indicators[time].indicator.shows(progress) && indicators[time].source.gives(
                progress,
            ),
    decreases time,
{
    if time > 0 {
        law_shown_bar_follows(indicators, changes, time - 1);
        assert(indicators[time - 1].changes_to(changes[time - 1], indicators[time]));
        assert(changes.take(time).drop_last() =~= changes.take(time - 1));
    } else {
        assert(changes.take(0) =~= Seq::empty());
    }
    assert(indicators[time].indicator.shows(indicators[time].indicator.followed->0.value));
}

/// `dynamic` after it has been set to all of `values`, one after the other.
pub open spec fn set_to<T>(dynamic: Dynamic<T>, values: Seq<T>) -> Dynamic<T>
    decreases values.len(),
{
    if values.len() == 0 {
        dynamic
    } else {
        set_to(dynamic, values.drop_last()).with(values.last())
    }
}

/// A bar displays the dynamic progress that it was made with, not a copy of it:
/// whatever that is set to, the bar displays at any time the dynamic progress as
/// it is then.
pub proof fn law_bar_is_a_live_view(
    dynamic: Dynamic<Progress>,
    bars: Seq<ProgressBar>,
    progresses: Seq<Progress>,
    time: int,
)
    requires
        bars.len() == progresses.len() + 1,
        bars[0].progress == Value::Dynamic(dynamic),
        forall|i: int|
            0 <= i < progresses.len() ==> bars[i + 1] == (#[trigger] bars[i]).updated(
                progresses[i],
            ),
        0 <= time < bars.len(),
    ensures
        bars[time].progress == Value::Dynamic(set_to(dynamic, progresses.take(time))),
        bars[time].progress.current() == if time == 0 {
            dynamic.value
        } else {
            progresses[time - 1]
        },
    decreases time,
{
    if time > 0 {
        law_bar_is_a_live_view(dynamic, bars, progresses, time - 1);
        assert(bars[time - 1].progress is Dynamic);
        assert(progresses.take(time).drop_last() =~= progresses.take(time - 1));
    } else {
        assert(progresses.take(0) =~= Seq::empty());
    }
}

/// What a bar follows, after some changes, if it is a value and a range.
proof fn lemma_followed_between<T, F: Fn(&T, &T, &T) -> ZeroToOne>(
    value: Dynamic<T>,
    range: Value<Option<ProgressRange<T>>>,
    percent_between: F,
    bars: Seq<FollowingBar<T, F>>,
    changes: Seq<ProgressChange<T>>,
    time: int,
)
    requires
        goes_through(bars, changes),
        bars[0].is_new(
            ProgressSource { value, range: FollowedRange::Between(range), percent_between },
        ),
        0 <= time < bars.len(),
    ensures
        bars[time].in_step(),
        bars[time].source.percent_between == percent_between,
        bars[time].source.value.value == latest_value(value.value, changes.take(time)),
        match (range, bars[time].source.range) {
            (Value::Constant(range), FollowedRange::Between(Value::Constant(now))) => now == range,
            (Value::Dynamic(range), FollowedRange::Between(Value::Dynamic(now))) => now.value
                == latest_range(range.value, changes.take(time)),
            _ => false,
        },
    decreases time,
{
    if time > 0 {
        lemma_followed_between(value, range, percent_between, bars, changes, time - 1);
        assert(bars[time - 1].changes_to(changes[time - 1], bars[time]));
        assert(changes.take(time).drop_last() =~= changes.take(time - 1));
    } else {
        assert(changes.take(0) =~= Seq::empty());
    }
}

/// What a bar follows, after some changes, if it is a value and a maximum.
proof fn lemma_followed_to<T, F: Fn(&T, &T, &T) -> ZeroToOne>(
    value: Dynamic<T>,
    min: T,
    max: Value<Option<T>>,
    percent_between: F,
    bars: Seq<FollowingBar<T, F>>,
    changes: Seq<ProgressChange<T>>,
    time: int,
)
    requires
        goes_through(bars, changes),
        bars[0].is_new(
            ProgressSource { value, range: FollowedRange::To { min, max }, percent_between },
        ),
        0 <= time < bars.len(),
    ensures
        bars[time].in_step(),
        bars[time].source.percent_between == percent_between,
        bars[time].source.value.value == latest_value(value.value, changes.take(time)),
        match (max, bars[time].source.range) {
            (Value::Constant(max), FollowedRange::To { min: now_min, max: Value::Constant(now) }) => {
                now_min == min && now == max
            },
            (Value::Dynamic(max), FollowedRange::To { min: now_min, max: Value::Dynamic(now) }) => {
                now_min == min && now.value == latest_max(max.value, changes.take(time))
            },
            _ => false,
        },
    decreases time,
{
    if time > 0 {
        lemma_followed_to(value, min, max, percent_between, bars, changes, time - 1);
        assert(bars[time - 1].changes_to(changes[time - 1], bars[time]));
        assert(changes.take(time).drop_last() =~= changes.take(time - 1));
    } else {
        assert(changes.take(0) =~= Seq::empty());
    }
}

/// The movements of an indeterminant bar, one by one: the end to 0.66, the start to
/// 0.33, the end to 1 and the start to 1, each in half a second and along a sine,
/// and then both to 0 at once.
pub proof fn law_movements_of_an_indeterminant_bar()
    ensures
        ({
            let cycle = indeterminant_cycle();
            let eased = |movement: Transition, start: Option<u32>, end: Option<u32>|
                {
                    &&& movement.start == match start {
                        Some(bits) => Some(ZeroToOne { bits }),
                        None => None,
                    }
                    &&& movement.end == match end {
                        Some(bits) => Some(ZeroToOne { bits }),
                        None => None,
                    }
                    &&& movement.millis == 500
                    &&& movement.easing == Some(Easing::EaseInOutSine)
                };
            &&& cycle.len() == 5
            &&& eased(cycle[0], None, Some(0x3f28_f5c3))
            &&& eased(cycle[1], Some(0x3ea8_f5c3), None)
            &&& eased(cycle[2], None, Some(0x3f80_0000))
            &&& eased(cycle[3], Some(0x3f80_0000), None)
            &&& cycle[4].start == Some(ZeroToOne { bits: 0 })
            &&& cycle[4].end == Some(ZeroToOne { bits: 0 })
            &&& cycle[4].millis == 0
            &&& cycle[4].easing is None
        }),
{
}

/// A percentage stands still, from nothing to that percentage. An indeterminant bar
/// is moved through the whole cycle.
pub proof fn law_shows_what_it_is_given(indicator: ProgressIndicator, value: ZeroToOne)
    ensures
        indicator.shows(Progress::Percent(value)) <==> {
            &&& indicator.indeterminant_animation is None
            &&& indicator.start.bits == 0
            &&& indicator.end.bits == value.bits
        },
        indicator.shows(Progress::Indeterminant) <==> {
            &&& indicator.indeterminant_animation matches Some(animation)
            &&& animation.cycle@ == indeterminant_cycle()
        },
{
}

/// The progress of a task is indeterminant exactly if there is no range, and else a
/// percentage that is given for the value, the start and the end, in that order.
pub proof fn law_progress_is_indeterminant_without_a_range<T, F: Fn(&T, &T, &T) -> ZeroToOne>(
    value: T,
    range: ProgressRange<T>,
    percent_between: F,
    percent: ZeroToOne,
)
    ensures
        is_progress(value, None, percent_between, Progress::Indeterminant),
        !is_progress(value, None, percent_between, Progress::Percent(percent)),
        !is_progress(value, Some(range), percent_between, Progress::Indeterminant),
        is_progress(value, Some(range), percent_between, Progress::Percent(percent))
            <==> call_ensures(percent_between, (&value, &range.start, &range.end), percent),
        can_measure(value, None, percent_between),
        can_measure(value, Some(range), percent_between) <==> call_requires(
            percent_between,
            (&value, &range.start, &range.end),
        ),
{
}

/// A range to a maximum begins with the minimum and ends with the maximum, and
/// there is none without a maximum. What is followed is that, or the range itself.
pub proof fn law_range_to_a_maximum<T>(
    min: T,
    max: T,
    limit: Value<Option<T>>,
    range: Value<Option<ProgressRange<T>>>,
)
    ensures
        (range_to(min, Some(max)) matches Some(range) && range.start == min && range.end == max),
        range_to(min, None) is None,
        (FollowedRange::To { min, max: limit }).now() == range_to(min, limit.current()),
        FollowedRange::Between(range).now() == range.current(),
{
}

/// A change replaces what it is a change of and nothing else, and can happen
/// exactly to what is dynamic.
pub proof fn law_change_replaces_one_thing<T, F>(
    source: ProgressSource<T, F>,
    change: ProgressChange<T>,
    again: ProgressChange<T>,
)
    ensures
        source.changed(change).can_change(again) == source.can_change(again),
        source.can_change(change) <==> match change {
            ProgressChange::Value(_) => true,
            ProgressChange::Range(_) => source.range matches FollowedRange::Between(range)
                && range.current_generation() is Some,
            ProgressChange::Max(_) => source.range matches FollowedRange::To { min: _, max }
                && max.current_generation() is Some,
        },
        source.changed(change).percent_between == source.percent_between,
        source.can_change(change) ==> match change {
            ProgressChange::Value(value) => {
                &&& source.changed(change).value.value == value
                &&& source.changed(change).value.generation != source.value.generation
                &&& source.changed(change).range == source.range
            },
            ProgressChange::Range(range) => {
                &&& source.changed(change).value == source.value
                &&& source.changed(change).range.now() == range
                &&& source.changed(change).range->Between_0.current_generation()
                    != source.range->Between_0.current_generation()
            },
            ProgressChange::Max(max) => {
                &&& source.changed(change).value == source.value
                &&& source.changed(change).range.now() == range_to(source.range->min, max)
                &&& source.changed(change).range is To
                &&& source.changed(change).range->min == source.range->min
                &&& source.changed(change).range->max.current() == max
                &&& source.changed(change).range->max.current_generation()
                    != source.range->max.current_generation()
            },
        },
{
}

/// A bar is in step exactly if what it displays is what its source gives. A new one
/// is in step with the source that it was made for, and after a change it is in
/// step with the changed one, of which its generation tells.
pub proof fn law_in_step_with_the_source<T, F: Fn(&T, &T, &T) -> ZeroToOne>(
    bar: FollowingBar<T, F>,
    source: ProgressSource<T, F>,
    change: ProgressChange<T>,
    after: FollowingBar<T, F>,
)
    ensures
        bar.in_step() <==> {
            &&& bar.bar.progress matches Value::Dynamic(progress)
            &&& is_progress(
                bar.source.value.value,
                bar.source.range.now(),
                bar.source.percent_between,
                progress.value,
            )
        },
        bar.is_new(source) ==> {
            &&& bar.in_step()
            &&& bar.source == source
            &&& bar.bar.progress.current_generation() == Some(Generation(0))
        },
        bar.in_step() && bar.changes_to(change, after) ==> {
            &&& after.in_step()
            &&& after.source == bar.source.changed(change)
            &&& after.bar == bar.bar.updated(after.bar.progress.current())
            &&& after.bar.progress->Dynamic_0.generation
                != bar.bar.progress->Dynamic_0.generation
        },
        bar.source.measurable() <==> can_measure(
            bar.source.value.value,
            bar.source.range.now(),
            bar.source.percent_between,
        ),
{
}

/// An indicator is in step exactly if it shows the progress that it follows, and
/// that is what its source gives. Changing that progress replaces it, and a
/// constant progress does not change.
pub proof fn law_indicator_in_step_with_the_source<T, F: Fn(&T, &T, &T) -> ZeroToOne>(
    following: FollowingIndicator<T, F>,
    progress: Progress,
    bar: ProgressBar,
    change: ProgressChange<T>,
    after: FollowingIndicator<T, F>,
)
    ensures
        following.in_step() && following.changes_to(change, after) ==> {
            &&& after.in_step()
            &&& after.source == following.source.changed(change)
            &&& after.indicator.followed == following.indicator.followed_to(
                after.indicator.followed->0.value,
            )
            &&& after.indicator.followed->0.generation
                != following.indicator.followed->0.generation
            &&& after.indicator.followed->0.value is Indeterminant ==> after.indicator.start
                == following.indicator.start && after.indicator.end == following.indicator.end
        },
        following.in_step() <==> {
            &&& following.indicator.followed matches Some(followed)
            &&& following.indicator.shows(followed.value)
            &&& is_progress(
                following.source.value.value,
                following.source.range.now(),
                following.source.percent_between,
                followed.value,
            )
        },
        match following.indicator.followed {
            Some(followed) => following.indicator.followed_to(progress) == Some(
                followed.with(progress),
            ),
            None => following.indicator.followed_to(progress) is None,
        },
        match bar.progress {
            Value::Dynamic(dynamic) => bar.updated(progress).progress == Value::Dynamic(
                dynamic.with(progress),
            ),
            Value::Constant(_) => bar.updated(progress) == bar,
        },
{
}

} // verus!
