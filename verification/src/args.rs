//! The command line of the fuzzer.

use vstd::prelude::*;

verus! {

/// The command line arguments.
#[derive(Debug)]
pub struct Args {
    /// Path to the configuration file in TOML format.
    pub config_path: String,
    pub mode: Mode,
    /// Run tests on the host instead of QEMU (not recommended).
    pub no_qemu: bool,
}

/// What to run.
#[derive(Debug, PartialEq)]
pub enum Mode {
    /// Greybox fuzzing.
    Greybox {
        first_filesystem: String,
        second_filesystem: String,
        test_count: Option<u64>,
        corpus_path: Option<String>,
    },
    /// Blackbox fuzzing.
    Blackbox { first_filesystem: String, second_filesystem: String, test_count: Option<u64> },
    /// A single test on one file system.
    SoloSingle { output_dir: String, path_to_test: String, keep_fs: bool, filesystem: String },
    /// A single test on two file systems.
    DuoSingle {
        first_filesystem: String,
        second_filesystem: String,
        output_dir: String,
        path_to_test: String,
        keep_fs: bool,
    },
    /// Reduce a test case.
    Reduce {
        output_dir: String,
        path_to_test: String,
        first_filesystem: String,
        second_filesystem: String,
        variation_limit: usize,
    },
}

} // verus!
