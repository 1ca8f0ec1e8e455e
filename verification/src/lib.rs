//! A differential file-system fuzzer: an abstract model of a file system,
//! workloads of file-system operations, their encoding as C tests, and the
//! parsers and comparators that judge two file systems' results.

pub mod text;
pub mod order;
pub mod random;
pub mod abstract_fs;
pub mod args;
pub mod command;
pub mod config;
pub mod dash;
pub mod filesystems;
pub mod fuzzing;
pub mod markdown;
pub mod mount;
pub mod path;
pub mod supervisor;
