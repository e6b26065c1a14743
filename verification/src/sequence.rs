//! A sequence counter that several threads may read and advance.

use vstd::prelude::*;
use core::sync::atomic::{AtomicI64, Ordering};

verus! {

/// An atomic sequence counter.
///
/// Its value is shared between threads, so no contract of this module states
/// what a read returns: another thread may have stored any value in between.
#[derive(Debug)]
pub struct Sequence {
    value: AtomicI64,
}

impl Sequence {
    /// A counter holding `initial`.
    pub fn new(initial: i64) -> Self {
        Sequence { value: AtomicI64::new(initial) }
    }

    /// A counter holding the initial cursor value, `-1`.
    pub fn new_with_initial_value() -> Self {
        Sequence { value: AtomicI64::new(crate::error::INITIAL_CURSOR_VALUE) }
    }

    /// The current value (acquire).
    pub fn get(&self) -> i64 {
        self.value.load(Ordering::Acquire)
    }

    /// Stores a new value (release).
    pub fn set(&self, value: i64) {
        self.value.store(value, Ordering::Release)
    }
}

} // verus!
