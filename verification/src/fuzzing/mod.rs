//! The fuzzing loop's decisions: outcomes of test runs, coverage feedback,
//! objectives and the corpus.

pub mod broker;
pub mod greybox;
pub mod objective;
pub mod observer;
pub mod outcome;
pub mod reducer;
