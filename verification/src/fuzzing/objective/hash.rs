//! The hash objective: each run's file tree is hashed where it lies, and two
//! runs differ where the hashes differ.

use vstd::prelude::*;


use crate::dash::{
    calc_entries_hash, diffs_view, listing_bytes, xxh64, get_diff, infos_view, kept, listing_diff, FileDiff, FileInfo, SkipSet,
    HasherOptions,
};
use crate::path::RemotePath;

verus! {

/// The hashed state of one file system: where it is mounted, the paths it
/// keeps for itself, and what was found there last.
pub struct HashHolder {
    pub fs_dir: RemotePath,
    pub fs_internal: SkipSet,
    pub fs_content: Vec<FileInfo>,
    pub hash: u64,
    pub hasher_options: HasherOptions,
}

impl HashHolder {
    /// Hashes the tree whose entries (in walk order) are `entries`, keeping
    /// the entries that are not the file system's own.
    pub fn calc_and_save_hash(&mut self, entries: Vec<FileInfo>)
        ensures
            infos_view(final(self).fs_content@) == kept(old(self).fs_internal.patterns(), infos_view(entries@)),
            final(self).fs_dir@ == old(self).fs_dir@,
            final(self).fs_internal == old(self).fs_internal,
            final(self).hasher_options == old(self).hasher_options,
            exists|les: Seq<Seq<bool>>|
                final(self).hash == xxh64(
                    #[trigger] listing_bytes(infos_view(final(self).fs_content@), old(self).hasher_options, les),
                ),
    {
        let (hash, fs_content) = calc_entries_hash(entries, &self.fs_internal, &self.hasher_options);
        self.fs_content = fs_content;
        self.hash = hash;
    }
}

/// Compares the hashed states of two file systems (when enabled).
pub struct HashObjective {
    pub fst_fs: HashHolder,
    pub snd_fs: HashHolder,
    pub enabled: bool,
}

impl HashObjective {
    pub fn new(
        fst_fs_dir: RemotePath,
        snd_fs_dir: RemotePath,
        fst_fs_internal: SkipSet,
        snd_fs_internal: SkipSet,
        enabled: bool,
    ) -> (r: Self)
        ensures
            r.fst_fs.fs_dir@ == fst_fs_dir@,
            r.snd_fs.fs_dir@ == snd_fs_dir@,
            r.fst_fs.fs_internal == fst_fs_internal,
            r.snd_fs.fs_internal == snd_fs_internal,
            r.fst_fs.fs_content@.len() == 0 && r.snd_fs.fs_content@.len() == 0,
            r.fst_fs.hash == 0 && r.snd_fs.hash == 0,
            r.enabled == enabled,
    {
        Self {
            fst_fs: HashHolder {
                fs_dir: fst_fs_dir,
                fs_internal: fst_fs_internal,
                fs_content: Vec::new(),
                hash: 0,
                hasher_options: HasherOptions { size: false, file_nlink: false, dir_nlink: false, mode: false },
            },
            snd_fs: HashHolder {
                fs_dir: snd_fs_dir,
                fs_internal: snd_fs_internal,
                fs_content: Vec::new(),
                hash: 0,
                hasher_options: HasherOptions { size: false, file_nlink: false, dir_nlink: false, mode: false },
            },
            enabled,
        }
    }

    /// Whether the states differ: enabled, and the hashes differ.
    pub fn is_interesting(&self) -> (r: bool)
        ensures
            r == (self.enabled && self.fst_fs.hash != self.snd_fs.hash),
    {
        self.enabled && self.fst_fs.hash != self.snd_fs.hash
    }

    /// The differences between the two saved listings.
    pub fn get_diff(&mut self) -> (r: Vec<FileDiff>)
        requires
            old(self).fst_fs.fs_content@.len() > 0,
            old(self).snd_fs.fs_content@.len() > 0,
        ensures
            listing_diff(
                diffs_view(r@),
                infos_view(old(self).fst_fs.fs_content@),
                infos_view(old(self).snd_fs.fs_content@),
                old(self).fst_fs.fs_internal.patterns(),
                old(self).snd_fs.fs_internal.patterns(),
                old(self).fst_fs.hasher_options,
            ),
    {
        get_diff(
            &self.fst_fs.fs_content,
            &self.snd_fs.fs_content,
            &self.fst_fs.fs_internal,
            &self.snd_fs.fs_internal,
            &self.fst_fs.hasher_options,
        )
    }
}

} // verus!
