//! Small owned-state utilities used by the simulation driver.

use vstd::prelude::*;

verus! {

/// A growable buffer of machine integers behind a safe interface; the
/// length and capacity bookkeeping of a manual buffer is carried by the
/// owned vector.
pub struct CStyleVector {
    pub items: Vec<i32>,
}

impl CStyleVector {
    /// An empty buffer, owning no storage.
    pub fn new() -> (v: CStyleVector)
        ensures
            v.items@.len() == 0,
    {
        CStyleVector { items: Vec::new() }
    }
}

/// An explicitly owned event counter.  Exclusive ownership stands in
/// for a lock: the counter mutates only through a unique reference, so
/// no two writers can race on it.
pub struct SafeCounter {
    pub count: u64,
}

impl SafeCounter {
    /// A counter starting at zero.
    pub fn new() -> (c: SafeCounter)
        ensures
            c.count == 0,
    {
        SafeCounter { count: 0 }
    }

    /// Adds one to the counter and returns the new value.
    pub fn increment(&mut self) -> (v: u64)
        requires
            old(self).count < u64::MAX,
        ensures
            final(self).count == old(self).count + 1,
            v == final(self).count,
    {
        self.count = self.count + 1;
        self.count
    }
}

} // verus!
