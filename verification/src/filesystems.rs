//! The file systems that can be tested, by name.

use vstd::prelude::*;

use crate::mount::btrfs::Btrfs;
use crate::mount::ext4::Ext4;
use crate::mount::f2fs::F2FS;
use crate::mount::xfs::Xfs;
use crate::mount::FileSystem;
use crate::text::str_eq;

verus! {

/// The names of the file systems that can be tested (those of
/// `mount::filesystems`), lower case.
pub fn filesystems_available() -> (r: Vec<String>)
    ensures
        r@.len() == 4,
        r@[0]@ == "ext4"@,
        r@[1]@ == "btrfs"@,
        r@[2]@ == "f2fs"@,
        r@[3]@ == "xfs"@,
{
    let mut r: Vec<String> = Vec::new();
    r.push("ext4".to_owned());
    r.push("btrfs".to_owned());
    r.push("f2fs".to_owned());
    r.push("xfs".to_owned());
    r
}

/// The file system offered under the lower-case name `name`; `None` for a
/// name that is not offered.
pub fn filesystem_by_name(name: &str) -> (r: Option<FileSystem>)
    ensures
        name@ == "ext4"@ ==> r matches Some(FileSystem::Ext4(_)),
        name@ == "btrfs"@ ==> r matches Some(FileSystem::Btrfs(_)),
        name@ == "f2fs"@ ==> r matches Some(FileSystem::F2FS(_)),
        name@ == "xfs"@ ==> r matches Some(FileSystem::Xfs(_)),
        r is None <==> (name@ != "ext4"@ && name@ != "btrfs"@ && name@ != "f2fs"@ && name@ != "xfs"@),
{
    proof {
        reveal_strlit("ext4");
        reveal_strlit("btrfs");
        reveal_strlit("f2fs");
        reveal_strlit("xfs");
        assert("ext4"@.len() != "btrfs"@.len() && "ext4"@.len() != "xfs"@.len());
        assert("ext4"@[0] != "f2fs"@[0]);
        assert("btrfs"@.len() != "f2fs"@.len() && "btrfs"@.len() != "xfs"@.len());
        assert("f2fs"@.len() != "xfs"@.len());
    }
    if str_eq(name, "ext4") {
        Some(FileSystem::Ext4(Ext4::new()))
    } else if str_eq(name, "btrfs") {
        Some(FileSystem::Btrfs(Btrfs::new()))
    } else if str_eq(name, "f2fs") {
        Some(FileSystem::F2FS(F2FS::new()))
    } else if str_eq(name, "xfs") {
        Some(FileSystem::Xfs(Xfs::new()))
    } else {
        None
    }
}

} // verus!
