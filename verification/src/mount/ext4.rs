//! Ext4, made with `mkfs.ext4`.

use vstd::prelude::*;

use crate::fuzzing::greybox::feedback::CoverageType;

verus! {

/// Ext4, made with `mkfs.ext4`.
pub struct Ext4;

impl Ext4 {
    pub fn new() -> (r: Self) {
        Ext4
    }

    /// The name of the file system.
    pub fn name(&self) -> (r: &'static str)
        ensures
            r@ == "Ext4"@,
    {
        "Ext4"
    }

    /// The command that makes the file system.
    pub fn mkfs_cmd(&self) -> (r: String)
        ensures
            r@ == "mkfs.ext4"@,
    {
        "mkfs.ext4".to_owned()
    }

    /// The type given to `mount -t`.
    pub fn mount_t(&self) -> (r: String)
        ensures
            r@ == "ext4"@,
    {
        "ext4".to_owned()
    }

    /// Patterns of the paths that the file system keeps for itself.
    pub fn internal_dirs(&self) -> (r: Vec<String>)
        ensures
            r@.len() == 1,
            r@[0]@ == "^/?lost\\+found($|/)"@,
    {
        let mut r: Vec<String> = Vec::new();
        r.push("^/?lost\\+found($|/)".to_owned());
        r
    }

    /// The kind of coverage measured on it.
    pub fn coverage_type(&self) -> (r: CoverageType)
        ensures
            r == CoverageType::KCov,
    {
        CoverageType::KCov
    }
}

} // verus!
