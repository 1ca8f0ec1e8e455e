//! XFS, made with `mkfs.xfs`.

use vstd::prelude::*;

verus! {

/// XFS, made with `mkfs.xfs`.
pub struct Xfs;

impl Xfs {
    pub fn new() -> (r: Self) {
        Xfs
    }

    /// The name of the file system.
    pub fn name(&self) -> (r: &'static str)
        ensures
            r@ == "XFS"@,
    {
        "XFS"
    }

    /// The command that makes the file system.
    pub fn mkfs_cmd(&self) -> (r: String)
        ensures
            r@ == "mkfs.xfs"@,
    {
        "mkfs.xfs".to_owned()
    }

    /// The type given to `mount -t`.
    pub fn mount_t(&self) -> (r: String)
        ensures
            r@ == "xfs"@,
    {
        "xfs".to_owned()
    }
}

} // verus!
