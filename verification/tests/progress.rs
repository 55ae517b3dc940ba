use widget_layers::progress::{
    progress_within, update_progress_bar, Animation, Easing, FollowingBar, Progress, ProgressBar,
    ProgressChange, ProgressRange, Progressable, Transition, ZeroToOne, ONE_BITS,
    SIXTY_SIX_PERCENT_BITS, THIRTY_THREE_PERCENT_BITS,
};
use widget_layers::value::{Dynamic, Generation, IntoValue, Value};

fn number(value: f32) -> ZeroToOne {
    ZeroToOne { bits: value.to_bits() }
}

fn percent_between(value: &i32, low: &i32, high: &i32) -> ZeroToOne {
    let fraction = (*value as f32 - *low as f32) / (*high as f32 - *low as f32);
    number(fraction.clamp(0., 1.))
}

fn shown<F>(following: &FollowingBar<i32, F>) -> Progress {
    *following.bar.progress.get()
}

fn eased(start: Option<f32>, end: Option<f32>) -> Transition {
    Transition {
        start: start.map(number),
        end: end.map(number),
        millis: 500,
        easing: Some(Easing::EaseInOutSine),
    }
}

fn cycle() -> Vec<Transition> {
    vec![
        eased(None, Some(0.66)),
        eased(Some(0.33), None),
        eased(None, Some(1.)),
        eased(Some(1.), None),
        Transition { start: Some(number(0.)), end: Some(number(0.)), millis: 0, easing: None },
    ]
}

#[test]
fn the_bits_are_those_of_the_numbers() {
    assert_eq!(f32::from_bits(ONE_BITS), 1.);
    assert_eq!(f32::from_bits(SIXTY_SIX_PERCENT_BITS), 0.66);
    assert_eq!(f32::from_bits(THIRTY_THREE_PERCENT_BITS), 0.33);
    assert_eq!(ZeroToOne::from_bits(0.5f32.to_bits()), Some(number(0.5)));
    assert_eq!(ZeroToOne::from_bits(1.5f32.to_bits()), None);
    assert_eq!(ZeroToOne::from_bits((-0.5f32).to_bits()), None);
    assert_eq!(ZeroToOne::from_bits(f32::NAN.to_bits()), None);
}

#[test]
fn percent_stands_still() {
    let mut animation = Some(Animation { cycle: Vec::new() });
    let mut start = number(0.25);
    let mut end = number(0.5);
    update_progress_bar(Progress::Percent(number(0.75)), &mut animation, &mut start, &mut end);
    assert!(animation.is_none());
    assert_eq!(start, number(0.));
    assert_eq!(end, number(0.75));
}

#[test]
fn indeterminant_moves() {
    let mut animation = None;
    let mut start = number(0.);
    let mut end = number(0.5);
    update_progress_bar(Progress::Indeterminant, &mut animation, &mut start, &mut end);
    assert_eq!(animation.map(|animation| animation.cycle), Some(cycle()));
    assert_eq!(start, number(0.));
    assert_eq!(end, number(0.5));
}

#[test]
fn the_cycle_keeps_the_start_before_the_end() {
    let mut start = number(0.);
    let mut end = number(0.9);
    for movement in cycle() {
        start = movement.start.unwrap_or(start);
        end = movement.end.unwrap_or(end);
        assert!(f32::from_bits(start.bits) <= f32::from_bits(end.bits));
    }
    assert_eq!((start, end), (number(0.), number(0.)));
}

#[test]
fn indeterminant_bar() {
    let bar = ProgressBar::indeterminant();
    assert!(matches!(bar.progress, Value::Constant(Progress::Indeterminant)));
    let indicator = bar.make_widget();
    assert_eq!(indicator.indeterminant_animation.map(|animation| animation.cycle), Some(cycle()));
    assert_eq!((indicator.start, indicator.end), (number(0.), number(0.)));
    assert!(indicator.followed.is_none());
}

#[test]
fn bar_follows_its_progress() {
    let progress =
        Dynamic { value: Progress::Percent(number(0.25)), generation: Generation(3) };
    let mut indicator = ProgressBar::new(progress).make_widget();
    assert_eq!((indicator.start, indicator.end), (number(0.), number(0.25)));
    assert!(indicator.indeterminant_animation.is_none());
    assert_eq!(indicator.followed.as_ref().map(|followed| followed.generation), Some(Generation(3)));

    indicator.update(Progress::Indeterminant);
    assert!(indicator.indeterminant_animation.is_some());
    assert_eq!((indicator.start, indicator.end), (number(0.), number(0.25)));

    indicator.update(Progress::Percent(number(1.)));
    assert!(indicator.indeterminant_animation.is_none());
    assert_eq!((indicator.start, indicator.end), (number(0.), number(1.)));
    let followed = indicator.followed.expect("a dynamic progress");
    assert_eq!(followed.value, Progress::Percent(number(1.)));
    assert_eq!(followed.generation, Generation(5));
}

#[test]
fn progress_within_a_range() {
    let range = Some(ProgressRange { start: 10, end: 20 });
    assert_eq!(progress_within(&15, &range, &percent_between), Progress::Percent(number(0.5)));
    assert_eq!(progress_within(&15, &None, &percent_between), Progress::Indeterminant);
}

#[test]
fn progress_bar_over_everything() {
    let bounds = ProgressRange { start: 0, end: 200 };
    let bar = Dynamic::new(50).progress_bar(bounds, percent_between);
    assert!(matches!(bar.bar.progress, Value::Dynamic(_)));
    assert_eq!(shown(&bar), Progress::Percent(number(0.25)));
}

#[test]
fn progress_bar_to_a_maximum() {
    let to = |max: Value<Option<i32>>| Dynamic::new(50).progress_bar_to(0, max, percent_between);
    assert_eq!(shown(&to(Value::Constant(Some(100)))), Progress::Percent(number(0.5)));
    assert_eq!(shown(&to(Value::Constant(None))), Progress::Indeterminant);
    assert_eq!(shown(&to(Value::Dynamic(Dynamic::new(Some(200))))), Progress::Percent(number(0.25)));
    assert_eq!(shown(&to(Value::Dynamic(Dynamic::new(None)))), Progress::Indeterminant);
    // The maximum may be a plain value.
    let bar = Dynamic::new(50).progress_bar_to(0, 100, percent_between);
    assert_eq!(shown(&bar), Progress::Percent(number(0.5)));
}

#[test]
fn progress_bar_between_two_values() {
    let range = ProgressRange { start: 40, end: 60 };
    let bar = Dynamic::new(55).progress_bar_between(range, percent_between);
    assert_eq!(shown(&bar), Progress::Percent(number(0.75)));
    let none: Option<ProgressRange<i32>> = None;
    let bar = Dynamic::new(55).progress_bar_between(none, percent_between);
    assert_eq!(shown(&bar), Progress::Indeterminant);
    let bar = Dynamic::new(55).progress_bar_between(Dynamic::new(Some(range)), percent_between);
    assert_eq!(shown(&bar), Progress::Percent(number(0.75)));
}

#[test]
fn a_bar_displays_the_dynamic_it_was_made_with() {
    let mut bar = ProgressBar::new(Dynamic::new(Progress::Indeterminant));
    bar.update(Progress::Percent(number(0.5)));
    assert_eq!(*bar.progress.get(), Progress::Percent(number(0.5)));
    assert_eq!(bar.progress.generation(), Some(Generation(1)));
    // A constant does not change.
    let mut constant = ProgressBar::indeterminant();
    constant.update(Progress::Percent(number(0.5)));
    assert_eq!(*constant.progress.get(), Progress::Indeterminant);
}

#[test]
fn a_bar_follows_its_value() {
    let bounds = ProgressRange { start: 0, end: 200 };
    let mut bar = Dynamic::new(50).progress_bar(bounds, percent_between);
    bar.change(ProgressChange::Value(100));
    assert_eq!(shown(&bar), Progress::Percent(number(0.5)));
    bar.change(ProgressChange::Value(200));
    assert_eq!(shown(&bar), Progress::Percent(number(1.)));
    // The bounds do not change.
    assert!(bar.source.check_change(&ProgressChange::Value(0)));
    assert!(!bar.source.check_change(&ProgressChange::Range(None)));
    assert!(!bar.source.check_change(&ProgressChange::Max(None)));
}

#[test]
fn a_bar_follows_its_maximum() {
    let mut bar = Dynamic::new(50).progress_bar_to(0, Dynamic::new(None), percent_between);
    assert_eq!(shown(&bar), Progress::Indeterminant);
    bar.change(ProgressChange::Max(Some(100)));
    assert_eq!(shown(&bar), Progress::Percent(number(0.5)));
    bar.change(ProgressChange::Value(25));
    assert_eq!(shown(&bar), Progress::Percent(number(0.25)));
    bar.change(ProgressChange::Max(None));
    assert_eq!(shown(&bar), Progress::Indeterminant);
}

#[test]
fn a_shown_bar_follows_its_range() {
    let range = Dynamic::new(Some(ProgressRange { start: 0, end: 100 }));
    let mut shown = Dynamic::new(50).progress_bar_between(range, percent_between).make_widget();
    assert_eq!((shown.indicator.start, shown.indicator.end), (number(0.), number(0.5)));
    shown.change(ProgressChange::Range(Some(ProgressRange { start: 0, end: 200 })));
    assert_eq!(shown.indicator.end, number(0.25));
    shown.change(ProgressChange::Range(None));
    assert!(shown.indicator.indeterminant_animation.is_some());
    shown.change(ProgressChange::Value(150));
    assert!(shown.indicator.indeterminant_animation.is_some());
    shown.change(ProgressChange::Range(Some(ProgressRange { start: 0, end: 200 })));
    assert!(shown.indicator.indeterminant_animation.is_none());
    assert_eq!(shown.indicator.end, number(0.75));
}

#[test]
fn an_indicator_follows_a_value_within_a_range() {
    let mut indicator = ProgressBar::new(Dynamic::new(Progress::Indeterminant)).make_widget();
    indicator.follow(&15, &Some(ProgressRange { start: 10, end: 20 }), &percent_between);
    assert_eq!(indicator.end, number(0.5));
    indicator.follow(&15, &None, &percent_between);
    assert!(indicator.indeterminant_animation.is_some());
}

#[test]
fn generations_differ() {
    assert_eq!(Generation(0).next(), Generation(1));
    assert_eq!(Generation(usize::MAX).next(), Generation(0));
}

#[test]
fn values_convert() {
    let value: Value<u8> = 7u8.into_value();
    assert!(matches!(value, Value::Constant(7)));
    assert_eq!(value.generation(), None);
    let value: Value<Option<u8>> = 7u8.into_value();
    assert!(matches!(value, Value::Constant(Some(7))));
    let dynamic = Dynamic { value: 7u8, generation: Generation(2) };
    let value: Value<u8> = dynamic.into_value();
    assert_eq!(*value.get(), 7);
    assert_eq!(value.generation(), Some(Generation(2)));
    let value: Value<u8> = Value::Constant(9u8).into_value();
    assert_eq!(*value.get(), 9);
}
