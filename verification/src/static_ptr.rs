//! A single-slot holder that is either empty ("null") or holds one value.

use vstd::prelude::*;

verus! {

/// A slot that hands one value from the thread that fills it to the
/// thread that drains it. An empty slot is the "nothing more to come"
/// sentinel.
pub struct StaticPointer<T> {
    slot: Option<T>,
}

impl<T> View for StaticPointer<T> {
    type V = Option<T>;

    closed spec fn view(&self) -> Option<T> {
        self.slot
    }
}

impl<T> StaticPointer<T> {
    /// The empty slot.
    pub fn null() -> (p: Self)
        ensures
            p@ is None,
    {
        StaticPointer { slot: None }
    }

    /// A slot that holds `value`.
    pub fn new(value: T) -> (p: Self)
        ensures
            p@ == Some(value),
    {
        StaticPointer { slot: Some(value) }
    }

    /// The value in the slot. The slot must not be empty.
    pub fn deref(&self) -> (value: &T)
        requires
            self@ is Some,
        ensures
            self@ == Some(*value),
    {
        match &self.slot {
            Some(value) => value,
            None => unreached(),
        }
    }

    /// Replaces what the slot holds; `None` empties it.
    pub fn set(&mut self, value: Option<T>)
        ensures
            final(self)@ == value,
    {
        self.slot = value;
    }

    /// Empties the slot and returns what it held.
    pub fn take(&mut self) -> (value: Option<T>)
        ensures
            value == old(self)@,
            final(self)@ is None,
    {
        self.slot.take()
    }

    /// Whether the slot is empty.
    pub fn is_null(&self) -> (b: bool)
        ensures
            b == (self@ is None),
    {
        self.slot.is_none()
    }
}

} // verus!
