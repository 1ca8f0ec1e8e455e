//! The state objective: two runs differ where the hashes of their file
//! states differ; the differences are then found by comparing the listings.

use vstd::prelude::*;


use crate::config::Config;
use crate::dash::{diffs_view, get_diff, infos_view, listing_diff, FileDiff, FileInfo, HasherOptions, SkipSet};

verus! {

/// Compares the file states of two runs (when enabled), hashing paths and
/// owners only.
pub struct DashObjective {
    pub enabled: bool,
    pub hasher_options: HasherOptions,
}

impl DashObjective {
    pub fn new(config: &Config) -> (r: Self)
        ensures
            r.enabled == config.dash.enabled,
            !r.hasher_options.size && !r.hasher_options.file_nlink && !r.hasher_options.dir_nlink
                && !r.hasher_options.mode,
    {
        Self {
            enabled: config.dash.enabled,
            hasher_options: HasherOptions { size: false, file_nlink: false, dir_nlink: false, mode: false },
        }
    }

    /// Whether the states differ: enabled, and the hashes differ.
    pub fn is_interesting(&self, fst_hash: u64, snd_hash: u64) -> (r: bool)
        ensures
            r == (self.enabled && fst_hash != snd_hash),
    {
        self.enabled && fst_hash != snd_hash
    }

    /// The differences between the two listings, each with the paths its
    /// file system keeps for itself left out.
    pub fn get_diff(
        &self,
        fst_state: &Vec<FileInfo>,
        snd_state: &Vec<FileInfo>,
        fst_internal: &SkipSet,
        snd_internal: &SkipSet,
    ) -> (r: Vec<FileDiff>)
        requires
            fst_state@.len() > 0,
            snd_state@.len() > 0,
        ensures
            listing_diff(
                diffs_view(r@),
                infos_view(fst_state@),
                infos_view(snd_state@),
                fst_internal.patterns(),
                snd_internal.patterns(),
                self.hasher_options,
            ),
    {
        get_diff(fst_state, snd_state, fst_internal, snd_internal, &self.hasher_options)
    }
}

} // verus!
