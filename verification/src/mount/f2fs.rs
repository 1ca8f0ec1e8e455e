//! F2FS with compression and checksums.

use vstd::prelude::*;

use crate::fuzzing::greybox::feedback::CoverageType;

verus! {

/// F2FS with compression and checksums.
pub struct F2FS;

impl F2FS {
    pub fn new() -> (r: Self) {
        F2FS
    }

    /// The name of the file system.
    pub fn name(&self) -> (r: &'static str)
        ensures
            r@ == "F2FS"@,
    {
        "F2FS"
    }

    /// The command that makes the file system.
    pub fn mkfs_cmd(&self) -> (r: String)
        ensures
            r@ == "mkfs.f2fs"@,
    {
        "mkfs.f2fs".to_owned()
    }

    /// The features given to `mkfs -O`.
    pub fn mkfs_opts(&self) -> (r: Option<String>)
        ensures
            r matches Some(s) && s@ == "extra_attr,inode_checksum,sb_checksum,compression"@,
    {
        Some("extra_attr,inode_checksum,sb_checksum,compression".to_owned())
    }

    /// The type given to `mount -t`.
    pub fn mount_t(&self) -> (r: String)
        ensures
            r@ == "f2fs"@,
    {
        "f2fs".to_owned()
    }

    /// The options given to `mount -o`.
    pub fn mount_opts(&self) -> (r: Option<String>)
        ensures
            r matches Some(s) && s@ == "compress_algorithm=zstd:6,compress_chksum,atgc,gc_merge,lazytime"@,
    {
        Some("compress_algorithm=zstd:6,compress_chksum,atgc,gc_merge,lazytime".to_owned())
    }

    /// Patterns of the paths that the file system keeps for itself.
    pub fn internal_dirs(&self) -> (r: Vec<String>)
        ensures
            r@.len() == 1,
            r@[0]@ == "^/?lost\\+found($|/)"@,
    {
        let mut r: Vec<String> = Vec::new();
        r.push("^/?lost\\+found($|/)".to_owned());
        r
    }

    /// The kind of coverage measured on it.
    pub fn coverage_type(&self) -> (r: CoverageType)
        ensures
            r == CoverageType::KCov,
    {
        CoverageType::KCov
    }
}

} // verus!
