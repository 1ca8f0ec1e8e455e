//! The observer of line coverage.

use vstd::prelude::*;

verus! {

/// Observes line coverage of a user-space file system.
pub struct LCovObserver {}

impl LCovObserver {
    pub fn new() -> Self {
        Self {}
    }
}

} // verus!
