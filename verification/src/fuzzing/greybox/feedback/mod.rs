//! Coverage feedback: whether a test reached code that no earlier test
//! reached.

use vstd::prelude::*;

use std::collections::{HashMap, HashSet};

pub mod kcov;
pub mod lcov;

verus! {

/// What coverage is measured.
#[derive(Debug, Clone, Copy, PartialEq, Eq, Structural)]
pub enum CoverageType {
    /// No coverage.
    NoCoverage,
    /// Linux kernel coverage (for kernel file systems).
    KCov,
    /// Line coverage of user-space programs.
    LCov,
}

impl CoverageType {
    /// The name of the kind of coverage.
    pub fn to_string(&self) -> (r: String)
        ensures
            r@ == match *self {
                CoverageType::NoCoverage => "None"@,
                CoverageType::KCov => "KCov"@,
                CoverageType::LCov => "LCov"@,
            },
    {
        match self {
            CoverageType::NoCoverage => "None".to_owned(),
            CoverageType::KCov => "KCov".to_owned(),
            CoverageType::LCov => "LCov".to_owned(),
        }
    }
}

/// Whether a test is interesting, with the coverage it reached.
pub enum FeedbackOpinion {
    Interesting(HashSet<u64>),
    NotInteresting(HashSet<u64>),
}

impl FeedbackOpinion {
    pub fn is_interesting(&self) -> (r: bool)
        ensures
            r == (*self is Interesting),
    {
        match self {
            FeedbackOpinion::Interesting(_) => true,
            FeedbackOpinion::NotInteresting(_) => false,
        }
    }

    /// The coverage the test reached.
    pub fn coverage(self) -> (r: HashSet<u64>)
        ensures
            r@ == match self {
                FeedbackOpinion::Interesting(c) => c@,
                FeedbackOpinion::NotInteresting(c) => c@,
            },
    {
        match self {
            FeedbackOpinion::Interesting(coverage) => coverage,
            FeedbackOpinion::NotInteresting(coverage) => coverage,
        }
    }
}

/// Feedback that measures nothing: no test is interesting.
pub struct DummyCoverageFeedback {
    pub map: HashMap<u64, u64>,
}

impl DummyCoverageFeedback {
    pub fn new() -> (r: Self)
        ensures
            r.map@ == Map::<u64, u64>::empty(),
    {
        Self { map: HashMap::new() }
    }

    pub fn coverage_type(&self) -> (r: CoverageType)
        ensures
            r == CoverageType::NoCoverage,
    {
        CoverageType::NoCoverage
    }

    /// Not interesting, and no coverage.
    pub fn opinion(&mut self) -> (r: FeedbackOpinion)
        ensures
            r matches FeedbackOpinion::NotInteresting(c) && c@ == Set::<u64>::empty(),
            final(self).map@ == old(self).map@,
    {
        FeedbackOpinion::NotInteresting(HashSet::new())
    }
}

} // verus!
