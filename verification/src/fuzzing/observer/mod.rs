//! Observers of test runs.

pub mod dash;
pub mod lcov;
