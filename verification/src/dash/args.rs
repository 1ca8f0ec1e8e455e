//! The command line of the state hasher.

use vstd::prelude::*;

verus! {

/// The command line arguments of the state hasher.
#[derive(Debug)]
pub struct Args {
    /// Path to the mount point.
    pub target_path: String,
    /// Output file.
    pub output_path: String,
    /// Include the total size of files in the hash.
    pub size: bool,
    /// Include the number of hard links of files in the hash.
    pub file_nlink: bool,
    /// Include the number of hard links of directories in the hash.
    pub dir_nlink: bool,
    /// Include the permission bits in the hash.
    pub mode: bool,
    /// Patterns of paths (relative to the mount point) to leave out.
    pub exclude: Option<Vec<String>>,
}

} // verus!
