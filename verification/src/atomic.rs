use vstd::prelude::*;
use vstd::pervasive::unreached;

verus! {

/// A one-slot publication cell. It starts out either holding an initial
/// value or empty ("null"), and every store publishes a replacement that
/// all later loads observe. Loading from an empty cell is a contract
/// violation: callers must establish that a value was published first.
pub struct StaticAtomicPtr<T> {
    slot: Option<T>,
}

impl<T> View for StaticAtomicPtr<T> {
    type V = Option<T>;

    closed spec fn view(&self) -> Option<T> {
        self.slot
    }
}

impl<T> StaticAtomicPtr<T> {
    /// A cell that starts out holding `value`.
    pub fn new(value: T) -> (c: Self)
        ensures
            c@ == Some(value),
    {
        StaticAtomicPtr { slot: Some(value) }
    }

    /// A cell that starts out empty.
    pub fn null() -> (c: Self)
        ensures
            c@ is None,
    {
        StaticAtomicPtr { slot: None }
    }

    /// Publish a new value; every later load observes it.
    pub fn store(&mut self, value: T)
        ensures
            final(self)@ == Some(value),
    {
        self.slot = Some(value);
    }

    /// Read the most recently published value.
    pub fn load(&self) -> (r: &T)
        requires
            self@ is Some,
        ensures
            self@ == Some(*r),
    {
        match &self.slot {
            Some(value) => value,
            None => unreached(),
        }
    }
}

} // verus!
