//! Bcachefs, formatted with `bcachefs format`.

use vstd::prelude::*;

use crate::fuzzing::greybox::feedback::CoverageType;

verus! {

/// Bcachefs, formatted with `bcachefs format`.
pub struct BcacheFS;

impl BcacheFS {
    pub fn new() -> (r: Self) {
        BcacheFS
    }

    /// The name of the file system.
    pub fn name(&self) -> (r: &'static str)
        ensures
            r@ == "BcacheFS"@,
    {
        "BcacheFS"
    }

    /// Patterns of the paths that the file system keeps for itself.
    pub fn internal_dirs(&self) -> (r: Vec<String>)
        ensures
            r@.len() == 1,
            r@[0]@ == "^/?lost\\+found($|/)"@,
    {
        let mut r: Vec<String> = Vec::new();
        r.push("^/?lost\\+found($|/)".to_owned());
        r
    }

    /// The kind of coverage measured on it.
    pub fn coverage_type(&self) -> (r: CoverageType)
        ensures
            r == CoverageType::KCov,
    {
        CoverageType::KCov
    }
}

} // verus!
