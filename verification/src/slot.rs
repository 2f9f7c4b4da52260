//! Atomically swappable configuration slots.
//!
//! At runtime a slot is the holder the data plane reads its configuration
//! from while the control plane replaces it; a reader observes either the
//! value before a replacement or the value after it, never a torn state. The
//! verified model captures the sequential content of the slot: what `load`
//! returns is exactly what was last stored.

use vstd::prelude::*;

verus! {

/// A holder for a configuration value, replaced as a whole and read as a
/// whole.
#[derive(Debug)]
pub struct Slot<T> {
    value: T,
}

impl<T> Slot<T> {
    /// The value the slot currently holds.
    pub closed spec fn value(self) -> T {
        self.value
    }

    /// A slot holding `value`.
    pub fn new(value: T) -> (r: Slot<T>)
        ensures
            r.value() == value,
    {
        Slot { value }
    }

    /// A snapshot of the current value.
    pub fn load(&self) -> (r: &T)
        ensures
            *r == self.value(),
    {
        &self.value
    }

    /// Replaces the value.
    pub fn store(&mut self, value: T)
        ensures
            final(self).value() == value,
    {
        self.value = value;
    }

    /// Replaces the value and hands back the previous one.
    pub fn replace(&mut self, value: T) -> (r: T)
        ensures
            final(self).value() == value,
            r == old(self).value(),
    {
        let mut value = value;
        core::mem::swap(&mut self.value, &mut value);
        value
    }
}

} // verus!
