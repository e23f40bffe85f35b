//! Small conveniences over the standard atomics.
//!
//! A relaxed atomic shared between threads can promise nothing about the
//! value a load observes, so these accessors carry no contracts; they only
//! shorten the call sites that pass the ordering explicitly.
use core::sync::atomic::{AtomicBool, AtomicU32, Ordering};
use vstd::prelude::*;

verus! {

/// Relaxed access to an atomic cell.
pub trait EasyAtomic {
    /// The value the cell holds.
    type Item;

    /// Reads the cell; another thread may change it at any moment.
    fn get(&self) -> Self::Item;

    /// Writes the cell.
    fn set(&self, value: Self::Item);
}

impl EasyAtomic for AtomicBool {
    type Item = bool;

    fn get(&self) -> Self::Item {
        self.load(Ordering::Relaxed)
    }

    fn set(&self, value: Self::Item) {
        self.store(value, Ordering::Relaxed)
    }
}

impl EasyAtomic for AtomicU32 {
    type Item = u32;

    fn get(&self) -> Self::Item {
        self.load(Ordering::Relaxed)
    }

    fn set(&self, value: Self::Item) {
        self.store(value, Ordering::Relaxed)
    }
}

} // verus!
