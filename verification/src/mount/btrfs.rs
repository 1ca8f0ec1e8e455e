//! Btrfs, made with `mkfs.btrfs`.

use vstd::prelude::*;

use crate::fuzzing::greybox::feedback::CoverageType;

verus! {

/// Btrfs, made with `mkfs.btrfs`.
pub struct Btrfs;

impl Btrfs {
    pub fn new() -> (r: Self) {
        Btrfs
    }

    /// The name of the file system.
    pub fn name(&self) -> (r: &'static str)
        ensures
            r@ == "Btrfs"@,
    {
        "Btrfs"
    }

    /// The command that makes the file system.
    pub fn mkfs_cmd(&self) -> (r: String)
        ensures
            r@ == "mkfs.btrfs"@,
    {
        "mkfs.btrfs".to_owned()
    }

    /// The type given to `mount -t`.
    pub fn mount_t(&self) -> (r: String)
        ensures
            r@ == "btrfs"@,
    {
        "btrfs".to_owned()
    }

    /// The kind of coverage measured on it.
    pub fn coverage_type(&self) -> (r: CoverageType)
        ensures
            r == CoverageType::KCov,
    {
        CoverageType::KCov
    }
}

} // verus!
