//! Objectives: how two test runs are judged to differ.

pub mod dash;
pub mod hash;
pub mod trace;
