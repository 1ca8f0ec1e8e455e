//! An input of the corpus, with the coverage it reached.

use vstd::prelude::*;

use std::collections::HashSet;

use crate::abstract_fs::workload::Workload;

verus! {

/// A workload of the corpus, how often it was chosen, and the coverage it
/// reached on each file system.
pub struct Seed {
    pub workload: Workload,
    pub times_choosen: u64,
    pub fst_coverage: HashSet<u64>,
    pub snd_coverage: HashSet<u64>,
}

impl Seed {
    /// A seed that was not chosen yet.
    pub fn new(workload: Workload, fst_coverage: HashSet<u64>, snd_coverage: HashSet<u64>) -> (r: Self)
        ensures
            r.workload@ == workload@,
            r.times_choosen == 0,
            r.fst_coverage@ == fst_coverage@,
            r.snd_coverage@ == snd_coverage@,
    {
        Self { workload, times_choosen: 0, fst_coverage, snd_coverage }
    }
}

} // verus!
