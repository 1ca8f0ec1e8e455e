//! LittleFS through FUSE, with its sources for line coverage.

use vstd::prelude::*;

use crate::fuzzing::greybox::feedback::CoverageType;
use crate::path::RemotePath;

verus! {

/// LittleFS through FUSE, with its sources for line coverage.
pub struct LittleFS;

impl LittleFS {
    pub fn new() -> (r: Self) {
        LittleFS
    }

    /// The name of the file system.
    pub fn name(&self) -> (r: &'static str)
        ensures
            r@ == "LittleFS"@,
    {
        "LittleFS"
    }

    /// The kind of coverage measured on it.
    pub fn coverage_type(&self) -> (r: CoverageType)
        ensures
            r == CoverageType::LCov,
    {
        CoverageType::LCov
    }

    /// The directory with the file system's sources and binary.
    pub fn source_dir(&self) -> (r: Option<RemotePath>)
        ensures
            r matches Some(p) && p@ == "/root/littlefs-fuse"@,
    {
        Some(RemotePath::new("/root/littlefs-fuse"))
    }
}

} // verus!
