//! Greybox fuzzing: coverage feedback and the corpus of seeds.

pub mod feedback;
pub mod mutator;
pub mod seed;
