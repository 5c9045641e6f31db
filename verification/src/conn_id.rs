//! Allocation of connection ids.

use std::sync::atomic::{AtomicUsize, Ordering};
use vstd::prelude::*;

use crate::types::ConnID;

verus! {

/// Hands out connection ids, counting up from 1.
///
/// The counter is shared and advanced atomically, so any number of
/// connection setups may draw from one allocator at once without blocking.
/// What a call returns depends on the calls made before it, from whatever
/// thread; no contract can name it.
pub struct ConnIdAllocator {
    next: AtomicUsize,
}

impl ConnIdAllocator {
    /// An allocator whose first id is 1.
    pub fn new() -> ConnIdAllocator {
        ConnIdAllocator { next: AtomicUsize::new(1) }
    }

    /// Draws the next id and advances the counter by one.
    pub fn next(&self) -> ConnID {
        self.next.fetch_add(1, Ordering::Relaxed)
    }
}

} // verus!
