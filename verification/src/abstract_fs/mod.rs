//! The abstract file-system model and the workloads that run against it.

pub mod pathname;
pub mod content;
pub mod flags;
pub mod node;
pub mod operation;
pub mod workload;
pub mod fs;
pub mod encode;
pub mod trace;
pub mod alive;
pub mod generator;
pub mod mutator;
