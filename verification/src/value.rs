//! Values that stay as they are, and values that change over time.
use vstd::prelude::*;

verus! {

/// Which of the values that a [`Dynamic`] has held is meant.
#[derive(Clone, Copy, Debug, PartialEq, Eq, Structural)]
pub struct Generation(pub usize);

impl Generation {
    /// The generation after this one.
    pub open spec fn following(self) -> Generation {
        if self.0 == usize::MAX {
            Generation(0)
        } else {
            Generation((self.0 + 1) as usize)
        }
    }

    /// Returns the generation after this one, which is another one.
    pub fn next(self) -> (next: Generation)
        ensures
            next == self.following(),
            next != self,
    {
        if self.0 == usize::MAX {
            Generation(0)
        } else {
            Generation(self.0 + 1)
        }
    }
}

/// A value that changes over time, as it is now. It has one owner: who holds it
/// sees every change, since nobody else can make one.
#[derive(Debug)]
pub struct Dynamic<T> {
    /// The value.
    pub value: T,
    /// The generation of the value: another one each time it is set.
    pub generation: Generation,
}

/// A value that may be either constant or dynamic.
#[derive(Debug)]
pub enum Value<T> {
    /// A value that will not ever change externally.
    Constant(T),
    /// A value that may be updated externally.
    Dynamic(Dynamic<T>),
}

impl<T> Dynamic<T> {
    /// Returns a dynamic value that has not changed yet.
    pub fn new(value: T) -> (dynamic: Dynamic<T>)
        ensures
            dynamic == (Dynamic { value, generation: Generation(0) }),
    {
        Dynamic { value, generation: Generation(0) }
    }

    /// This dynamic value after it has been set to `value`.
    pub open spec fn with(self, value: T) -> Dynamic<T> {
        Dynamic { value, generation: self.generation.following() }
    }

    /// Sets this to `value`.
    pub fn set(&mut self, value: T)
        ensures
            *final(self) == old(self).with(value),
    {
        self.value = value;
        self.generation = self.generation.next();
    }
}

impl<T> Value<T> {
    /// The value as it is now.
    pub open spec fn current(self) -> T {
        match self {
            Value::Constant(value) => value,
            Value::Dynamic(dynamic) => dynamic.value,
        }
    }

    /// The generation of the value, if it is dynamic.
    pub open spec fn current_generation(self) -> Option<Generation> {
        match self {
            Value::Constant(_) => None,
            Value::Dynamic(dynamic) => Some(dynamic.generation),
        }
    }

    /// Returns the value as it is now.
    pub fn get(&self) -> (value: &T)
        ensures
            *value == self.current(),
    {
        match self {
            Value::Constant(value) => value,
            Value::Dynamic(dynamic) => &dynamic.value,
        }
    }

    /// Returns the generation of the value, or `None` if it is constant.
    pub fn generation(&self) -> (generation: Option<Generation>)
        ensures
            generation == self.current_generation(),
    {
        match self {
            Value::Constant(_) => None,
            Value::Dynamic(dynamic) => Some(dynamic.generation),
        }
    }
}

/// A type that can be converted into a [`Value`].
pub trait IntoValue<T>: Sized {
    /// The value that this is converted into.
    spec fn as_value(self) -> Value<T>;

    /// Returns this as a [`Value`].
    fn into_value(self) -> (value: Value<T>)
        ensures
            value == self.as_value(),
    ;
}

impl<T> IntoValue<T> for T {
    open spec fn as_value(self) -> Value<T> {
        Value::Constant(self)
    }

    fn into_value(self) -> Value<T> {
        Value::Constant(self)
    }
}

impl<T> IntoValue<Option<T>> for T {
    open spec fn as_value(self) -> Value<Option<T>> {
        Value::Constant(Some(self))
    }

    fn into_value(self) -> Value<Option<T>> {
        Value::Constant(Some(self))
    }
}

impl<T> IntoValue<T> for Dynamic<T> {
    open spec fn as_value(self) -> Value<T> {
        Value::Dynamic(self)
    }

    fn into_value(self) -> Value<T> {
        Value::Dynamic(self)
    }
}

impl<T> IntoValue<T> for Value<T> {
    open spec fn as_value(self) -> Value<T> {
        self
    }

    fn into_value(self) -> Value<T> {
        self
    }
}

/// A type that can be converted into a [`Dynamic`].
pub trait IntoDynamic<T>: Sized {
    /// The dynamic value that this is converted into.
    spec fn as_dynamic(self) -> Dynamic<T>;

    /// Returns this as a [`Dynamic`].
    fn into_dynamic(self) -> (dynamic: Dynamic<T>)
        ensures
            dynamic == self.as_dynamic(),
    ;
}

impl<T> IntoDynamic<T> for Dynamic<T> {
    open spec fn as_dynamic(self) -> Dynamic<T> {
        self
    }

    fn into_dynamic(self) -> Dynamic<T> {
        self
    }
}

/// A value is what it was made with: a constant as it is, of no generation, and a
/// dynamic one as it is now, of the generation that it has now.
pub proof fn law_value_is_what_it_was_made_with<T>(value: T, dynamic: Dynamic<T>)
    ensures
        Value::Constant(value).current() == value,
        Value::Constant(value).current_generation() is None,
        Value::Dynamic(dynamic).current() == dynamic.value,
        Value::Dynamic(dynamic).current_generation() == Some(dynamic.generation),
{
}

/// Setting a dynamic value replaces it, and is seen in its generation: no two in a
/// row are the same, and as long as they can be counted, they are counted.
pub proof fn law_setting_is_seen<T>(dynamic: Dynamic<T>, value: T)
    ensures
        dynamic.with(value).value == value,
        dynamic.with(value).generation != dynamic.generation,
        dynamic.generation.0 < usize::MAX ==> dynamic.with(value).generation.0
            == dynamic.generation.0 + 1,
        dynamic.generation.0 == usize::MAX ==> dynamic.with(value).generation.0 == 0,
{
}

/// What is converted into a value keeps what it holds, and stays dynamic if it
/// was.
pub proof fn law_conversion_keeps_the_value<T>(plain: T, dynamic: Dynamic<T>, value: Value<T>)
    ensures
        <T as IntoValue<T>>::as_value(plain) == Value::Constant(plain),
        <T as IntoValue<Option<T>>>::as_value(plain) == Value::Constant(Some(plain)),
        <Dynamic<T> as IntoValue<T>>::as_value(dynamic) == Value::Dynamic(dynamic),
        <Value<T> as IntoValue<T>>::as_value(value) == value,
        <Dynamic<T> as IntoDynamic<T>>::as_dynamic(dynamic) == dynamic,
{
}

} // verus!
