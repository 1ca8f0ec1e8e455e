//! The fuzzer's configuration, as read from its TOML file.

use vstd::prelude::*;

use crate::abstract_fs::mutator::MutationWeights;
use crate::abstract_fs::operation::OperationWeights;

verus! {

/// The whole configuration.
pub struct Config {
    pub greybox: GreyboxConfig,
    pub operation_weights: OperationWeights,
    pub mutation_weights: MutationWeights,
    pub max_workload_length: u16,
    /// File system name that is used for the mount point path.
    pub fs_name: String,
    /// Interval after which, if nothing happens, the log is updated.
    pub heartbeat_interval: u16,
    /// Timeout for executing a single test.
    pub timeout: u8,
    pub qemu: QemuConfig,
    pub dash: DashConfig,
}

/// Settings of greybox fuzzing.
pub struct GreyboxConfig {
    pub max_mutations: u16,
    /// If enabled, corpus test cases are also saved in a separate directory.
    pub save_corpus: bool,
    pub scheduler: Scheduler,
    /// Constant used by some schedulers.
    pub m_constant: u64,
}

/// How the next input is picked from the corpus.
#[derive(Debug, Clone, Copy, PartialEq, Eq, Structural)]
pub enum Scheduler {
    Queue,
    Fast,
}

/// How the virtual machine is launched.
pub struct QemuConfig {
    /// Path to the VM launch script.
    pub launch_script: String,
    /// Private key used to connect to the VM over SSH.
    pub ssh_private_key_path: String,
    /// Path to the OS image.
    pub os_image: String,
    /// Time to wait until the OS is considered booted.
    pub boot_wait_time: u8,
    /// Path to the QEMU log file.
    pub log_path: String,
    /// Direct boot with a custom kernel and command line (required for KASAN).
    pub direct_boot: bool,
    /// Path to the kernel bzImage (direct boot).
    pub kernel_image_path: String,
    /// Root disk partition (direct boot).
    pub root_disk_partition: String,
}

/// Settings of the differential abstract state hash.
pub struct DashConfig {
    pub enabled: bool,
    pub debug_binary_path: String,
    pub release_binary_path: String,
}

} // verus!
