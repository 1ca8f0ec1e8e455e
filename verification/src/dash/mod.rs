//! The differential abstract state hash: what is known of each file of a
//! file system, and how the files of two file systems differ.

use vstd::prelude::*;
use vstd::utf8::encode_utf8;

pub mod args;

use regex::RegexSet;
use std::hash::Hasher;
use twox_hash::XxHash64;

use crate::order::{chars_le, str_le};
use crate::text::str_eq;

verus! {

/// A compiled set of regular expressions.
#[verifier::external_type_specification]
#[verifier::external_body]
pub struct ExRegexSet(RegexSet);

/// The streaming 64-bit xxHash hasher.
#[verifier::external_type_specification]
#[verifier::external_body]
pub struct ExXxHash64(XxHash64);

/// An error of `regex`: a pattern that does not compile, or a set that
/// grows too big.
#[verifier::external_type_specification]
#[verifier::external_body]
pub struct ExRegexError(regex::Error);

/// Whether `RegexSet::new` (default options) accepts `patterns`.
pub uninterp spec fn regex_set_compiles(patterns: Seq<Seq<char>>) -> bool;

/// Whether some pattern of `patterns` matches somewhere in `text`, as the
/// set that `RegexSet::new` (default options) builds from `patterns` decides.
pub uninterp spec fn regex_set_is_match(patterns: Seq<Seq<char>>, text: Seq<char>) -> bool;

/// The strings as character sequences.
pub open spec fn strings_view(v: Seq<String>) -> Seq<Seq<char>> {
    v.map_values(|p: String| p@)
}

/// `RegexSet::new`: compiles the patterns with the default options. It
/// succeeds exactly when the patterns are accepted.
#[verifier::external_body]
fn regex_set_new(patterns: &Vec<String>) -> (r: Result<RegexSet, regex::Error>)
    ensures
        r is Ok == regex_set_compiles(strings_view(patterns@)),
{
    RegexSet::new(patterns)
}

/// The message of a `regex` error (its `Display`); nothing is stated of it.
#[verifier::external_body]
fn regex_error_text(e: &regex::Error) -> (r: String) {
    e.to_string()
}

/// Why a skip set could not be built: the message of `regex`.
#[derive(Debug, PartialEq, Eq)]
pub struct SkipSetError(pub String);

/// A set of regular expressions that paths to pass over are matched
/// against, built by `RegexSet::new` from the patterns it keeps.
pub struct SkipSet {
    patterns: Vec<String>,
    set: RegexSet,
}

impl SkipSet {
    /// The patterns the set was built from, in order.
    pub closed spec fn patterns(&self) -> Seq<Seq<char>> {
        strings_view(self.patterns@)
    }

    /// Compiles `patterns`; fails exactly when `regex` refuses them.
    pub fn new(patterns: Vec<String>) -> (r: Result<SkipSet, SkipSetError>)
        ensures
            r is Ok == regex_set_compiles(strings_view(patterns@)),
            r matches Ok(set) ==> set.patterns() == strings_view(patterns@),
    {
        match regex_set_new(&patterns) {
            Ok(set) => Ok(SkipSet { patterns, set }),
            Err(e) => Err(SkipSetError(regex_error_text(&e))),
        }
    }
}

/// `RegexSet::is_match` on the set of `skip`, which `RegexSet::new` built
/// from `skip`'s patterns: whether any of them matches `text`.
#[verifier::external_body]
pub(crate) fn is_match(skip: &SkipSet, text: &str) -> (r: bool)
    ensures
        r == regex_set_is_match(skip.patterns(), text@),
{
    skip.set.is_match(text)
}

/// The bytes written to an xxHash64 hasher since it was made.
pub uninterp spec fn xxh64_written(h: XxHash64) -> Seq<u8>;

/// The 64-bit xxHash, with seed 0, of `data`.
pub uninterp spec fn xxh64(data: Seq<u8>) -> u64;

/// The `n` lowest bytes of `x`, least significant first.
pub open spec fn le_bytes_n(x: nat, n: nat) -> Seq<u8>
    decreases n,
{
    if n == 0 {
        Seq::empty()
    } else {
        seq![(x % 256) as u8] + le_bytes_n(x / 256, (n - 1) as nat)
    }
}

/// The `n` bytes of `x`, least significant first when `le` holds, most
/// significant first otherwise.
#[verifier::opaque]
pub open spec fn ordered_bytes(x: nat, n: nat, le: bool) -> Seq<u8> {
    if le {
        le_bytes_n(x, n)
    } else {
        le_bytes_n(x, n).reverse()
    }
}

/// `XxHash64::default`: a hasher with seed 0 and nothing written.
#[verifier::external_body]
fn new_hasher() -> (r: XxHash64)
    ensures
        xxh64_written(r) == Seq::<u8>::empty(),
{
    XxHash64::default()
}

/// `Hasher::write` on the xxHash hasher: appends `bytes` to what was written.
#[verifier::external_body]
fn hasher_write(h: &mut XxHash64, bytes: &[u8])
    ensures
        xxh64_written(*final(h)) == xxh64_written(*old(h)) + bytes@,
{
    h.write(bytes)
}

/// `Hasher::write_u32`, which the xxHash hasher leaves to the trait's
/// default: the number's four bytes are written in the machine's byte order,
/// which is either order (which one is not stated).
#[verifier::external_body]
fn hasher_write_u32(h: &mut XxHash64, v: u32)
    ensures
        xxh64_written(*final(h)) == xxh64_written(*old(h)) + ordered_bytes(v as nat, 4, true)
            || xxh64_written(*final(h)) == xxh64_written(*old(h)) + ordered_bytes(v as nat, 4, false),
{
    h.write_u32(v)
}

/// `Hasher::write_u64`, which the xxHash hasher leaves to the trait's
/// default: the number's eight bytes are written in the machine's byte
/// order, which is either order (which one is not stated).
#[verifier::external_body]
fn hasher_write_u64(h: &mut XxHash64, v: u64)
    ensures
        xxh64_written(*final(h)) == xxh64_written(*old(h)) + ordered_bytes(v as nat, 8, true)
            || xxh64_written(*final(h)) == xxh64_written(*old(h)) + ordered_bytes(v as nat, 8, false),
{
    h.write_u64(v)
}

/// `Hasher::finish`: the xxHash (seed 0) of all that was written.
#[verifier::external_body]
fn hasher_finish(h: &XxHash64) -> (r: u64)
    ensures
        r == xxh64(xxh64_written(*h)),
{
    h.finish()
}

/// The name of the file the differences are written to.
pub const DIFF_FILENAME: &'static str = "dash-diff.txt";

/// What is known of one file or directory.
#[derive(Debug, PartialEq, Eq)]
pub struct FileInfo {
    /// Absolute path (with the mount point prefix).
    pub abs_path: String,
    /// Path relative to the file system root.
    pub rel_path: String,
    /// Group ID of the owner.
    pub gid: u32,
    /// User ID of the owner.
    pub uid: u32,
    /// Total size in bytes.
    pub size: u64,
    /// Number of hard links.
    pub nlink: u64,
    /// Permission bits.
    pub mode: u32,
    pub is_dir: bool,
}

impl Clone for FileInfo {
    fn clone(&self) -> (r: Self)
        ensures
            r@ == self@,
    {
        FileInfo {
            abs_path: self.abs_path.clone(),
            rel_path: self.rel_path.clone(),
            gid: self.gid,
            uid: self.uid,
            size: self.size,
            nlink: self.nlink,
            mode: self.mode,
            is_dir: self.is_dir,
        }
    }
}

/// The model of a file's information: strings as character sequences.
pub struct InfoModel {
    pub abs_path: Seq<char>,
    pub rel_path: Seq<char>,
    pub gid: u32,
    pub uid: u32,
    pub size: u64,
    pub nlink: u64,
    pub mode: u32,
    pub is_dir: bool,
}

impl View for FileInfo {
    type V = InfoModel;

    open spec fn view(&self) -> InfoModel {
        InfoModel {
            abs_path: self.abs_path@,
            rel_path: self.rel_path@,
            gid: self.gid,
            uid: self.uid,
            size: self.size,
            nlink: self.nlink,
            mode: self.mode,
            is_dir: self.is_dir,
        }
    }
}

/// The models of a list of files.
pub open spec fn infos_view(v: Seq<FileInfo>) -> Seq<InfoModel> {
    v.map_values(|f: FileInfo| f@)
}

/// Whether the link count of `f` goes into its hash.
pub open spec fn nlink_hashed(f: InfoModel, o: HasherOptions) -> bool {
    f.is_dir && o.dir_nlink || !f.is_dir && o.file_nlink
}

/// What [`FileInfo::add_to_hasher`] writes for `f`: the UTF-8 bytes of the
/// relative path, then group and user ID, then size, link count and mode as
/// the options select. The numbers go in the machine's byte order: `le[k]`
/// says whether the `k`-th of gid, uid, size, nlink, mode went least
/// significant byte first.
pub open spec fn info_bytes(f: InfoModel, o: HasherOptions, le: Seq<bool>) -> Seq<u8> {
    encode_utf8(f.rel_path) + ordered_bytes(f.gid as nat, 4, le[0]) + ordered_bytes(f.uid as nat, 4, le[1]) + (if o.size {
        ordered_bytes(f.size as nat, 8, le[2])
    } else {
        Seq::empty()
    }) + (if nlink_hashed(f, o) {
        ordered_bytes(f.nlink as nat, 8, le[3])
    } else {
        Seq::empty()
    }) + (if o.mode {
        ordered_bytes(f.mode as nat, 4, le[4])
    } else {
        Seq::empty()
    })
}

/// 256 to the power `n`.
pub open spec fn pow256(n: nat) -> nat
    decreases n,
{
    if n == 0 {
        1
    } else {
        256 * pow256((n - 1) as nat)
    }
}

proof fn lemma_le_bytes_len(x: nat, n: nat)
    ensures
        le_bytes_n(x, n).len() == n,
    decreases n,
{
    if n > 0 {
        lemma_le_bytes_len(x / 256, (n - 1) as nat);
    }
}

/// Numbers below `256^n` have different bytes.
proof fn lemma_le_bytes_injective(x: nat, y: nat, n: nat)
    requires
        x < pow256(n),
        y < pow256(n),
        le_bytes_n(x, n) == le_bytes_n(y, n),
    ensures
        x == y,
    decreases n,
{
    if n > 0 {
        let px = pow256((n - 1) as nat);
        assert(le_bytes_n(x, n)[0] == (x % 256) as u8);
        assert(le_bytes_n(y, n)[0] == (y % 256) as u8);
        assert(x % 256 == y % 256);
        assert(le_bytes_n(x, n).drop_first() =~= le_bytes_n(x / 256, (n - 1) as nat));
        assert(le_bytes_n(y, n).drop_first() =~= le_bytes_n(y / 256, (n - 1) as nat));
        assert(x / 256 < px) by (nonlinear_arith)
            requires
                x < 256 * px,
        ;
        assert(y / 256 < px) by (nonlinear_arith)
            requires
                y < 256 * px,
        ;
        lemma_le_bytes_injective(x / 256, y / 256, (n - 1) as nat);
        assert(x == 256 * (x / 256) + x % 256) by (nonlinear_arith);
        assert(y == 256 * (y / 256) + y % 256) by (nonlinear_arith);
    } else {
        assert(x == 0 && y == 0);
    }
}

/// In one byte order, two numbers below `256^n` give the same bytes only if
/// they are equal; the bytes are `n` long.
pub proof fn lemma_ordered_bytes_injective(x: nat, y: nat, n: nat, le: bool)
    requires
        x < pow256(n),
        y < pow256(n),
    ensures
        ordered_bytes(x, n, le).len() == n,
        ordered_bytes(x, n, le) == ordered_bytes(y, n, le) ==> x == y,
{
    reveal(ordered_bytes);
    lemma_le_bytes_len(x, n);
    lemma_le_bytes_len(y, n);
    if ordered_bytes(x, n, le) == ordered_bytes(y, n, le) {
        if !le {
            assert(le_bytes_n(x, n) =~= le_bytes_n(x, n).reverse().reverse());
            assert(le_bytes_n(y, n) =~= le_bytes_n(y, n).reverse().reverse());
        }
        lemma_le_bytes_injective(x, y, n);
    }
}

/// The link count goes into a file's hash when the options ask for it (for
/// directories by `dir_nlink`, for other files by `file_nlink`): two entries
/// that differ only in their link count feed different bytes to the hasher
/// (in the same byte order).
pub proof fn lemma_nlink_hashed(f: InfoModel, g: InfoModel, o: HasherOptions, le: Seq<bool>)
    requires
        le.len() == 5,
        g == (InfoModel { nlink: g.nlink, ..f }),
        f.nlink != g.nlink,
        f.is_dir && o.dir_nlink || !f.is_dir && o.file_nlink,
    ensures
        info_bytes(f, o, le) != info_bytes(g, o, le),
{
    assert(pow256(8) == 18446744073709551616nat) by {
        reveal_with_fuel(pow256, 9);
    }
    let pre = encode_utf8(f.rel_path) + ordered_bytes(f.gid as nat, 4, le[0]) + ordered_bytes(f.uid as nat, 4, le[1]) + (if o.size {
        ordered_bytes(f.size as nat, 8, le[2])
    } else {
        Seq::empty()
    });
    let post: Seq<u8> = if o.mode { ordered_bytes(f.mode as nat, 4, le[4]) } else { Seq::empty() };
    let nf = ordered_bytes(f.nlink as nat, 8, le[3]);
    let ng = ordered_bytes(g.nlink as nat, 8, le[3]);
    lemma_ordered_bytes_injective(f.nlink as nat, g.nlink as nat, 8, le[3]);
    lemma_ordered_bytes_injective(g.nlink as nat, f.nlink as nat, 8, le[3]);
    assert(info_bytes(f, o, le) == pre + nf + post);
    assert(info_bytes(g, o, le) == pre + ng + post);
    if info_bytes(f, o, le) == info_bytes(g, o, le) {
        assert((pre + nf + post).subrange(pre.len() as int, pre.len() as int + 8) =~= nf);
        assert((pre + ng + post).subrange(pre.len() as int, pre.len() as int + 8) =~= ng);
    }
}

/// Appending six pieces one after another appends their concatenation.
proof fn lemma_concat_six(s: Seq<u8>, a: Seq<u8>, b: Seq<u8>, c: Seq<u8>, d: Seq<u8>, e: Seq<u8>, g: Seq<u8>)
    ensures
        s + a + b + c + d + e + g == s + (a + b + c + d + e + g),
{
    assert(s + a + b + c + d + e + g =~= s + (a + b + c + d + e + g));
}

impl FileInfo {
    /// Feeds the file's path, owner and the fields that the options select
    /// (the link count as chosen for files or directories) to the hasher.
    pub fn add_to_hasher(&self, hasher: &mut XxHash64, hasher_options: &HasherOptions)
        ensures
            exists|le: Seq<bool>|
                le.len() == 5 && xxh64_written(*final(hasher)) == xxh64_written(*old(hasher)) + #[trigger] info_bytes(
                    self@,
                    *hasher_options,
                    le,
                ),
    {
        let ghost start = xxh64_written(*hasher);
        let ghost f = self@;
        let ghost o = *hasher_options;
        hasher_write(hasher, self.rel_path.as_str().as_bytes());
        let ghost w0 = xxh64_written(*hasher);
        assert(w0 == start + encode_utf8(f.rel_path));
        hasher_write_u32(hasher, self.gid);
        let ghost b0 = xxh64_written(*hasher) == w0 + ordered_bytes(self.gid as nat, 4, true);
        let ghost w1 = xxh64_written(*hasher);
        assert(w1 == w0 + ordered_bytes(f.gid as nat, 4, b0));
        hasher_write_u32(hasher, self.uid);
        let ghost b1 = xxh64_written(*hasher) == w1 + ordered_bytes(self.uid as nat, 4, true);
        let ghost w2 = xxh64_written(*hasher);
        assert(w2 == w1 + ordered_bytes(f.uid as nat, 4, b1));
        let ghost mut b2 = false;
        if hasher_options.size {
            hasher_write_u64(hasher, self.size);
            proof {
                b2 = xxh64_written(*hasher) == w2 + ordered_bytes(self.size as nat, 8, true);
            }
        }
        let ghost w3 = xxh64_written(*hasher);
        let ghost p2: Seq<u8> = if o.size { ordered_bytes(f.size as nat, 8, b2) } else { Seq::empty() };
        assert(w3 =~= w2 + p2);
        let ghost mut b3 = false;
        if self.is_dir && hasher_options.dir_nlink || !self.is_dir && hasher_options.file_nlink {
            hasher_write_u64(hasher, self.nlink);
            proof {
                b3 = xxh64_written(*hasher) == w3 + ordered_bytes(self.nlink as nat, 8, true);
            }
        }
        let ghost w4 = xxh64_written(*hasher);
        let ghost p3: Seq<u8> = if nlink_hashed(f, o) { ordered_bytes(f.nlink as nat, 8, b3) } else { Seq::empty() };
        assert(w4 =~= w3 + p3);
        let ghost mut b4 = false;
        if hasher_options.mode {
            hasher_write_u32(hasher, self.mode);
            proof {
                b4 = xxh64_written(*hasher) == w4 + ordered_bytes(self.mode as nat, 4, true);
            }
        }
        let ghost w5 = xxh64_written(*hasher);
        let ghost p4: Seq<u8> = if o.mode { ordered_bytes(f.mode as nat, 4, b4) } else { Seq::empty() };
        assert(w5 =~= w4 + p4);
        proof {
            let le = seq![b0, b1, b2, b3, b4];
            lemma_concat_six(start, encode_utf8(f.rel_path), ordered_bytes(f.gid as nat, 4, b0),
                ordered_bytes(f.uid as nat, 4, b1), p2, p3, p4);
            assert(info_bytes(f, o, le) == encode_utf8(f.rel_path) + ordered_bytes(f.gid as nat, 4, b0)
                + ordered_bytes(f.uid as nat, 4, b1) + p2 + p3 + p4);
        }
    }
}

/// How a file differs between two file systems.
#[derive(Debug, PartialEq, Eq)]
pub enum FileDiff {
    FileIsDifferent { fst: FileInfo, snd: FileInfo },
    OnlyOneExists(FileInfo),
}

/// Which fields of [`FileInfo`] besides path and owner go into the hash.
#[derive(Debug, Default, Clone, Copy, PartialEq, Eq, Structural)]
pub struct HasherOptions {
    pub size: bool,
    pub file_nlink: bool,
    pub dir_nlink: bool,
    pub mode: bool,
}

/// The model of a difference.
pub enum DiffModel {
    FileIsDifferent { fst: InfoModel, snd: InfoModel },
    OnlyOneExists(InfoModel),
}

impl View for FileDiff {
    type V = DiffModel;

    open spec fn view(&self) -> DiffModel {
        match self {
            FileDiff::FileIsDifferent { fst, snd } => DiffModel::FileIsDifferent { fst: fst@, snd: snd@ },
            FileDiff::OnlyOneExists(f) => DiffModel::OnlyOneExists(f@),
        }
    }
}

/// The models of a list of differences.
pub open spec fn diffs_view(v: Seq<FileDiff>) -> Seq<DiffModel> {
    v.map_values(|d: FileDiff| d@)
}

/// The files from index `i` down to 0, each as existing only on one side.
pub open spec fn only_down_from(v: Seq<InfoModel>, i: int) -> Seq<DiffModel>
    decreases i + 1,
{
    if i < 0 {
        Seq::empty()
    } else {
        seq![DiffModel::OnlyOneExists(v[i])] + only_down_from(v, i - 1)
    }
}

/// What is left of one side when the walk stopped at `i`: the files from
/// `i` down to 0, unless `i` is 0.
pub open spec fn leftover(v: Seq<InfoModel>, i: int) -> Seq<DiffModel> {
    if i > 0 {
        only_down_from(v, i)
    } else {
        Seq::empty()
    }
}

/// The walk of both sorted lists from their ends, at indices `i` and `j`:
/// the differences found, and where the walk stops. Skipped files are
/// passed over; equal paths are compared by hash, unequal ones make the
/// greater one exist only on its side. The walk stops when a side reaches
/// its first entry.
pub open spec fn diff_walk(
    fst: Seq<InfoModel>,
    snd: Seq<InfoModel>,
    fst_skip: Seq<bool>,
    snd_skip: Seq<bool>,
    fst_hash: Seq<u64>,
    snd_hash: Seq<u64>,
    i: int,
    j: int,
) -> (Seq<DiffModel>, int, int)
    decreases i + j + 2,
{
    if i < 0 || j < 0 {
        (Seq::empty(), i, j)
    } else if fst_skip[i] {
        if i == 0 {
            (Seq::empty(), i, j)
        } else {
            diff_walk(fst, snd, fst_skip, snd_skip, fst_hash, snd_hash, i - 1, j)
        }
    } else if snd_skip[j] {
        if j == 0 {
            (Seq::empty(), i, j)
        } else {
            diff_walk(fst, snd, fst_skip, snd_skip, fst_hash, snd_hash, i, j - 1)
        }
    } else if fst[i].rel_path == snd[j].rel_path {
        let d = if fst_hash[i] != snd_hash[j] {
            seq![DiffModel::FileIsDifferent { fst: fst[i], snd: snd[j] }]
        } else {
            Seq::empty()
        };
        if i == 0 || j == 0 {
            (d, i, j)
        } else {
            let r = diff_walk(fst, snd, fst_skip, snd_skip, fst_hash, snd_hash, i - 1, j - 1);
            (d + r.0, r.1, r.2)
        }
    } else if !chars_le(fst[i].rel_path, snd[j].rel_path) {
        let d = seq![DiffModel::OnlyOneExists(fst[i])];
        if i == 0 {
            (d, i, j)
        } else {
            let r = diff_walk(fst, snd, fst_skip, snd_skip, fst_hash, snd_hash, i - 1, j);
            (d + r.0, r.1, r.2)
        }
    } else {
        let d = seq![DiffModel::OnlyOneExists(snd[j])];
        if j == 0 {
            (d, i, j)
        } else {
            let r = diff_walk(fst, snd, fst_skip, snd_skip, fst_hash, snd_hash, i, j - 1);
            (d + r.0, r.1, r.2)
        }
    }
}

/// The differences between two sorted lists of files, given which files
/// are skipped and the hash of each file's subtree.
pub open spec fn diff_spec(
    fst: Seq<InfoModel>,
    snd: Seq<InfoModel>,
    fst_skip: Seq<bool>,
    snd_skip: Seq<bool>,
    fst_hash: Seq<u64>,
    snd_hash: Seq<u64>,
) -> Seq<DiffModel> {
    let w = diff_walk(fst, snd, fst_skip, snd_skip, fst_hash, snd_hash, fst.len() - 1, snd.len() - 1);
    w.0 + leftover(fst, w.1) + leftover(snd, w.2)
}

proof fn lemma_walk_self(v: Seq<InfoModel>, skip: Seq<bool>, hash: Seq<u64>, i: int, j: int)
    requires
        0 <= i <= j < v.len(),
        skip.len() == v.len(),
        hash.len() == v.len(),
        !skip[0],
        forall|m: int| i < m <= j ==> #[trigger] skip[m],
    ensures
        diff_walk(v, v, skip, skip, hash, hash, i, j) == (Seq::<DiffModel>::empty(), 0int, 0int),
    decreases i + j,
{
    if skip[i] {
        lemma_walk_self(v, skip, hash, i - 1, j);
    } else if skip[j] {
        lemma_walk_self(v, skip, hash, i, j - 1);
    } else {
        assert(i == j);
        if i > 0 {
            lemma_walk_self(v, skip, hash, i - 1, i - 1);
            assert(Seq::<DiffModel>::empty() + Seq::<DiffModel>::empty() =~= Seq::<DiffModel>::empty());
        }
    }
}

/// Whether each reported difference is about files of the listings: a
/// file reported as different is a pair of files with the same path, one
/// from each side; a file reported as existing on one side only is a file
/// of one of the listings.
pub open spec fn reports_of(
    d: Seq<DiffModel>,
    fst: Seq<InfoModel>,
    snd: Seq<InfoModel>,
) -> bool {
    forall|k: int|
        0 <= k < d.len() ==> match #[trigger] d[k] {
            DiffModel::FileIsDifferent { fst: a, snd: b } => fst.contains(a) && snd.contains(b) && a.rel_path
                == b.rel_path,
            DiffModel::OnlyOneExists(f) => fst.contains(f) || snd.contains(f),
        }
}

proof fn lemma_reports_concat(a: Seq<DiffModel>, b: Seq<DiffModel>, fst: Seq<InfoModel>, snd: Seq<InfoModel>)
    requires
        reports_of(a, fst, snd),
        reports_of(b, fst, snd),
    ensures
        reports_of(a + b, fst, snd),
{
    assert forall|k: int| 0 <= k < (a + b).len() implies match #[trigger] (a + b)[k] {
        DiffModel::FileIsDifferent { fst: x, snd: y } => fst.contains(x) && snd.contains(y) && x.rel_path == y.rel_path,
        DiffModel::OnlyOneExists(f) => fst.contains(f) || snd.contains(f),
    } by {
        if k < a.len() {
            assert((a + b)[k] == a[k]);
        } else {
            assert((a + b)[k] == b[k - a.len()]);
        }
    }
}

proof fn lemma_only_down_from(v: Seq<InfoModel>, i: int, fst: Seq<InfoModel>, snd: Seq<InfoModel>)
    requires
        i < v.len(),
        v == fst || v == snd,
    ensures
        reports_of(only_down_from(v, i), fst, snd),
    decreases i + 1,
{
    if i >= 0 {
        lemma_only_down_from(v, i - 1, fst, snd);
        let one = seq![DiffModel::OnlyOneExists(v[i])];
        assert(v.contains(v[i]));
        assert(reports_of(one, fst, snd)) by {
            assert forall|k: int| 0 <= k < one.len() implies match #[trigger] one[k] {
                DiffModel::FileIsDifferent { fst: x, snd: y } => fst.contains(x) && snd.contains(y) && x.rel_path == y.rel_path,
                DiffModel::OnlyOneExists(f) => fst.contains(f) || snd.contains(f),
            } by {
                assert(one[k] == DiffModel::OnlyOneExists(v[i]));
            }
        }
        lemma_reports_concat(one, only_down_from(v, i - 1), fst, snd);
    }
}

proof fn lemma_walk_reports(
    fst: Seq<InfoModel>,
    snd: Seq<InfoModel>,
    fst_skip: Seq<bool>,
    snd_skip: Seq<bool>,
    fst_hash: Seq<u64>,
    snd_hash: Seq<u64>,
    i: int,
    j: int,
)
    requires
        i < fst.len(),
        j < snd.len(),
        fst_skip.len() == fst.len(),
        snd_skip.len() == snd.len(),
        fst_hash.len() == fst.len(),
        snd_hash.len() == snd.len(),
    ensures
        ({
            let w = diff_walk(fst, snd, fst_skip, snd_skip, fst_hash, snd_hash, i, j);
            &&& reports_of(w.0, fst, snd)
            &&& w.1 <= i
            &&& w.2 <= j
        }),
    decreases i + j + 2,
{
    let w = diff_walk(fst, snd, fst_skip, snd_skip, fst_hash, snd_hash, i, j);
    if i < 0 || j < 0 {
        assert(reports_of(w.0, fst, snd));
    } else if fst_skip[i] {
        if i > 0 {
            lemma_walk_reports(fst, snd, fst_skip, snd_skip, fst_hash, snd_hash, i - 1, j);
        } else {
            assert(reports_of(w.0, fst, snd));
        }
    } else if snd_skip[j] {
        if j > 0 {
            lemma_walk_reports(fst, snd, fst_skip, snd_skip, fst_hash, snd_hash, i, j - 1);
        } else {
            assert(reports_of(w.0, fst, snd));
        }
    } else {
        assert(fst.contains(fst[i]));
        assert(snd.contains(snd[j]));
        let same = fst[i].rel_path == snd[j].rel_path;
        let d: Seq<DiffModel> = if same {
            if fst_hash[i] != snd_hash[j] {
                seq![DiffModel::FileIsDifferent { fst: fst[i], snd: snd[j] }]
            } else {
                Seq::empty()
            }
        } else if !chars_le(fst[i].rel_path, snd[j].rel_path) {
            seq![DiffModel::OnlyOneExists(fst[i])]
        } else {
            seq![DiffModel::OnlyOneExists(snd[j])]
        };
        assert(reports_of(d, fst, snd)) by {
            assert forall|k: int| 0 <= k < d.len() implies match #[trigger] d[k] {
                DiffModel::FileIsDifferent { fst: x, snd: y } => fst.contains(x) && snd.contains(y) && x.rel_path == y.rel_path,
                DiffModel::OnlyOneExists(f) => fst.contains(f) || snd.contains(f),
            } by {
                assert(k == 0);
            }
        }
        if same {
            if i > 0 && j > 0 {
                lemma_walk_reports(fst, snd, fst_skip, snd_skip, fst_hash, snd_hash, i - 1, j - 1);
                lemma_reports_concat(d, diff_walk(fst, snd, fst_skip, snd_skip, fst_hash, snd_hash, i - 1, j - 1).0, fst, snd);
            }
        } else if !chars_le(fst[i].rel_path, snd[j].rel_path) {
            if i > 0 {
                lemma_walk_reports(fst, snd, fst_skip, snd_skip, fst_hash, snd_hash, i - 1, j);
                lemma_reports_concat(d, diff_walk(fst, snd, fst_skip, snd_skip, fst_hash, snd_hash, i - 1, j).0, fst, snd);
            }
        } else {
            if j > 0 {
                lemma_walk_reports(fst, snd, fst_skip, snd_skip, fst_hash, snd_hash, i, j - 1);
                lemma_reports_concat(d, diff_walk(fst, snd, fst_skip, snd_skip, fst_hash, snd_hash, i, j - 1).0, fst, snd);
            }
        }
    }
}

/// Every difference that the comparison reports is about the listings'
/// own files: a pair reported as different has the same path on both sides
/// (one file from each), and a file reported as existing on one side only
/// is a file of one of the listings.
pub proof fn lemma_diff_reports(
    fst: Seq<InfoModel>,
    snd: Seq<InfoModel>,
    fst_skip: Seq<bool>,
    snd_skip: Seq<bool>,
    fst_hash: Seq<u64>,
    snd_hash: Seq<u64>,
)
    requires
        fst.len() > 0,
        snd.len() > 0,
        fst_skip.len() == fst.len(),
        snd_skip.len() == snd.len(),
        fst_hash.len() == fst.len(),
        snd_hash.len() == snd.len(),
    ensures
        reports_of(diff_spec(fst, snd, fst_skip, snd_skip, fst_hash, snd_hash), fst, snd),
{
    let w = diff_walk(fst, snd, fst_skip, snd_skip, fst_hash, snd_hash, fst.len() - 1, snd.len() - 1);
    lemma_walk_reports(fst, snd, fst_skip, snd_skip, fst_hash, snd_hash, fst.len() - 1, snd.len() - 1);
    if w.1 > 0 {
        lemma_only_down_from(fst, w.1, fst, snd);
    }
    if w.2 > 0 {
        lemma_only_down_from(snd, w.2, fst, snd);
    }
    assert(reports_of(leftover(fst, w.1), fst, snd));
    assert(reports_of(leftover(snd, w.2), fst, snd));
    lemma_reports_concat(w.0, leftover(fst, w.1), fst, snd);
    lemma_reports_concat(w.0 + leftover(fst, w.1), leftover(snd, w.2), fst, snd);
}

/// A listing compared with itself, with the same files skipped and the same
/// hashes, shows no difference, as long as the first entry (the root) is
/// not skipped.
pub proof fn lemma_diff_with_itself(v: Seq<InfoModel>, skip: Seq<bool>, hash: Seq<u64>)
    requires
        v.len() > 0,
        skip.len() == v.len(),
        hash.len() == v.len(),
        !skip[0],
    ensures
        diff_spec(v, v, skip, skip, hash, hash) == Seq::<DiffModel>::empty(),
{
    lemma_walk_self(v, skip, hash, v.len() - 1, v.len() - 1);
    assert(diff_spec(v, v, skip, skip, hash, hash) =~= Seq::<DiffModel>::empty());
}

/// Whether each file's relative path is matched by the patterns.
pub open spec fn skips(patterns: Seq<Seq<char>>, v: Seq<InfoModel>) -> Seq<bool> {
    Seq::new(v.len(), |k: int| regex_set_is_match(patterns, v[k].rel_path))
}

/// Appends, from index `i` down to 0, each file as existing only on one
/// side (nothing when `i` is 0).
pub fn handle_last_diff(i: usize, vec_data: &[FileInfo], res: &mut Vec<FileDiff>)
    requires
        i < vec_data@.len(),
    ensures
        diffs_view(final(res)@) == diffs_view(old(res)@) + leftover(infos_view(vec_data@), i as int),
{
    let ghost v = infos_view(vec_data@);
    if i > 0 {
        let mut k = i;
        loop
            invariant_except_break
                diffs_view(res@) + only_down_from(v, k as int) == diffs_view(old(res)@) + only_down_from(v, i as int),
            invariant
                k <= i < vec_data@.len(),
                v == infos_view(vec_data@),
            ensures
                diffs_view(res@) == diffs_view(old(res)@) + only_down_from(v, i as int),
            decreases k,
        {
            let ghost before = diffs_view(res@);
            res.push(FileDiff::OnlyOneExists(vec_data[k].clone()));
            assert(diffs_view(res@) =~= before.push(DiffModel::OnlyOneExists(v[k as int])));
            assert(only_down_from(v, k as int) =~= seq![DiffModel::OnlyOneExists(v[k as int])] + only_down_from(v, k - 1));
            if k == 0 {
                assert(only_down_from(v, -1) =~= Seq::<DiffModel>::empty());
                assert(diffs_view(res@) =~= diffs_view(old(res)@) + only_down_from(v, i as int));
                break;
            }
            assert(before.push(DiffModel::OnlyOneExists(v[k as int])) + only_down_from(v, k - 1) =~= before + (seq![DiffModel::OnlyOneExists(v[k as int])] + only_down_from(v, k - 1)));
            k = k - 1;
        }
    } else {
        assert(diffs_view(res@) =~= diffs_view(old(res)@) + leftover(v, i as int));
    }
}

/// What [`calc_fileinfo_hash`] feeds to the hasher: the bytes of each file
/// of `v` whose relative path begins with `prefix`, in order; `les[k]` gives
/// the byte orders of the numbers of the `k`-th file.
pub open spec fn prefixed_bytes(v: Seq<InfoModel>, prefix: Seq<char>, o: HasherOptions, les: Seq<Seq<bool>>) -> Seq<u8>
    decreases v.len(),
{
    if v.len() == 0 {
        Seq::empty()
    } else {
        let k = v.len() - 1;
        prefixed_bytes(v.drop_last(), prefix, o, les) + (if prefix.is_prefix_of(v[k].rel_path) {
            info_bytes(v[k], o, les[k])
        } else {
            Seq::empty()
        })
    }
}

/// The bytes fed for every file of `v`, in order; `les[k]` gives the byte
/// orders of the numbers of the `k`-th file.
pub open spec fn listing_bytes(v: Seq<InfoModel>, o: HasherOptions, les: Seq<Seq<bool>>) -> Seq<u8> {
    prefixed_bytes(v, Seq::empty(), o, les)
}

/// Only the byte orders of the files in `v` matter.
proof fn lemma_prefixed_bytes_extend(
    v: Seq<InfoModel>,
    prefix: Seq<char>,
    o: HasherOptions,
    les: Seq<Seq<bool>>,
    x: Seq<bool>,
)
    requires
        les.len() >= v.len(),
    ensures
        prefixed_bytes(v, prefix, o, les.push(x)) == prefixed_bytes(v, prefix, o, les),
    decreases v.len(),
{
    if v.len() > 0 {
        lemma_prefixed_bytes_extend(v.drop_last(), prefix, o, les, x);
        assert(les.push(x)[v.len() - 1] == les[v.len() - 1]);
    }
}

/// The hash of the files whose relative path starts with `rel_path`, fed
/// in order.
pub fn calc_fileinfo_hash(vec: &Vec<FileInfo>, rel_path: &str, hasher_options: &HasherOptions) -> (r: u64)
    ensures
        exists|les: Seq<Seq<bool>>|
            r == xxh64(#[trigger] prefixed_bytes(infos_view(vec@), rel_path@, *hasher_options, les)),
{
    let mut hasher = new_hasher();
    let ghost mut les: Seq<Seq<bool>> = Seq::empty();
    let mut i: usize = 0;
    assert(infos_view(vec@).take(0) =~= Seq::<InfoModel>::empty());
    while i < vec.len()
        invariant
            i <= vec@.len(),
            les.len() == i,
            xxh64_written(hasher) == prefixed_bytes(infos_view(vec@).take(i as int), rel_path@, *hasher_options, les),
        decreases vec@.len() - i,
    {
        let ghost v = infos_view(vec@).take(i + 1);
        assert(v.drop_last() =~= infos_view(vec@).take(i as int));
        assert(v[i as int] == vec@[i as int]@);
        let ghost before = xxh64_written(hasher);
        let ghost mut le: Seq<bool> = seq![false, false, false, false, false];
        if crate::text::starts_with(vec[i].rel_path.as_str(), rel_path) {
            vec[i].add_to_hasher(&mut hasher, hasher_options);
            proof {
                le = choose|le: Seq<bool>|
                    le.len() == 5 && xxh64_written(hasher) == before + #[trigger] info_bytes(
                        vec@[i as int]@,
                        *hasher_options,
                        le,
                    );
            }
        } else {
            assert(xxh64_written(hasher) =~= before + Seq::<u8>::empty());
        }
        proof {
            lemma_prefixed_bytes_extend(v.drop_last(), rel_path@, *hasher_options, les, le);
            les = les.push(le);
            assert(les[i as int] == le);
        }
        i = i + 1;
    }
    assert(infos_view(vec@).take(i as int) =~= infos_view(vec@));
    hasher_finish(&hasher)
}

/// The differences between two sorted lists of files, given which files
/// are skipped and the hash of each one.
pub fn get_diff_hashed(
    vec_fst: &Vec<FileInfo>,
    vec_snd: &Vec<FileInfo>,
    fst_skip: &Vec<bool>,
    snd_skip: &Vec<bool>,
    fst_hash: &Vec<u64>,
    snd_hash: &Vec<u64>,
) -> (r: Vec<FileDiff>)
    requires
        vec_fst@.len() > 0,
        vec_snd@.len() > 0,
        fst_skip@.len() == vec_fst@.len(),
        fst_hash@.len() == vec_fst@.len(),
        snd_skip@.len() == vec_snd@.len(),
        snd_hash@.len() == vec_snd@.len(),
    ensures
        diffs_view(r@) == diff_spec(
            infos_view(vec_fst@),
            infos_view(vec_snd@),
            fst_skip@,
            snd_skip@,
            fst_hash@,
            snd_hash@,
        ),
{
    let ghost fv = infos_view(vec_fst@);
    let ghost sv = infos_view(vec_snd@);
    let mut i_fst = vec_fst.len() - 1;
    let mut i_snd = vec_snd.len() - 1;
    let mut res: Vec<FileDiff> = Vec::new();
    let ghost top = diff_walk(fv, sv, fst_skip@, snd_skip@, fst_hash@, snd_hash@, i_fst as int, i_snd as int);
    assert(diffs_view(res@) =~= Seq::<DiffModel>::empty());
    loop
        invariant_except_break
            ({
                let w = diff_walk(fv, sv, fst_skip@, snd_skip@, fst_hash@, snd_hash@, i_fst as int, i_snd as int);
                &&& top.0 == diffs_view(res@) + w.0
                &&& top.1 == w.1
                &&& top.2 == w.2
            }),
        invariant
            i_fst < vec_fst@.len(),
            i_snd < vec_snd@.len(),
            fv == infos_view(vec_fst@),
            sv == infos_view(vec_snd@),
            fst_skip@.len() == vec_fst@.len(),
            fst_hash@.len() == vec_fst@.len(),
            snd_skip@.len() == vec_snd@.len(),
            snd_hash@.len() == vec_snd@.len(),
            top == diff_walk(fv, sv, fst_skip@, snd_skip@, fst_hash@, snd_hash@, vec_fst@.len() - 1, vec_snd@.len() - 1),
        ensures
            top.0 == diffs_view(res@),
            top.1 == i_fst,
            top.2 == i_snd,
        decreases i_fst + i_snd,
    {
        let ghost before = diffs_view(res@);
        if fst_skip[i_fst] {
            if i_fst == 0 {
                assert(before + Seq::<DiffModel>::empty() =~= before);
                break;
            }
            i_fst = i_fst - 1;
            continue;
        }
        if snd_skip[i_snd] {
            if i_snd == 0 {
                assert(before + Seq::<DiffModel>::empty() =~= before);
                break;
            }
            i_snd = i_snd - 1;
            continue;
        }
        let a = vec_fst[i_fst].rel_path.as_str();
        let b = vec_snd[i_snd].rel_path.as_str();
        assert(fv[i_fst as int].rel_path == a@);
        assert(sv[i_snd as int].rel_path == b@);
        if str_eq(a, b) {
            if fst_hash[i_fst] != snd_hash[i_snd] {
                res.push(FileDiff::FileIsDifferent { fst: vec_fst[i_fst].clone(), snd: vec_snd[i_snd].clone() });
            }
            let ghost d = if fst_hash@[i_fst as int] != snd_hash@[i_snd as int] {
                seq![DiffModel::FileIsDifferent { fst: fv[i_fst as int], snd: sv[i_snd as int] }]
            } else {
                Seq::<DiffModel>::empty()
            };
            assert(diffs_view(res@) =~= before + d);
            if i_fst == 0 || i_snd == 0 {
                break;
            }
            let ghost r = diff_walk(fv, sv, fst_skip@, snd_skip@, fst_hash@, snd_hash@, i_fst - 1, i_snd - 1);
            assert(before + (d + r.0) =~= diffs_view(res@) + r.0);
            i_fst = i_fst - 1;
            i_snd = i_snd - 1;
        } else if !str_le(a, b) {
            res.push(FileDiff::OnlyOneExists(vec_fst[i_fst].clone()));
            let ghost d = seq![DiffModel::OnlyOneExists(fv[i_fst as int])];
            assert(diffs_view(res@) =~= before + d);
            if i_fst == 0 {
                break;
            }
            let ghost r = diff_walk(fv, sv, fst_skip@, snd_skip@, fst_hash@, snd_hash@, i_fst - 1, i_snd as int);
            assert(before + (d + r.0) =~= diffs_view(res@) + r.0);
            i_fst = i_fst - 1;
        } else {
            res.push(FileDiff::OnlyOneExists(vec_snd[i_snd].clone()));
            let ghost d = seq![DiffModel::OnlyOneExists(sv[i_snd as int])];
            assert(diffs_view(res@) =~= before + d);
            if i_snd == 0 {
                break;
            }
            let ghost r = diff_walk(fv, sv, fst_skip@, snd_skip@, fst_hash@, snd_hash@, i_fst as int, i_snd - 1);
            assert(before + (d + r.0) =~= diffs_view(res@) + r.0);
            i_snd = i_snd - 1;
        }
    }
    handle_last_diff(i_fst, vec_fst.as_slice(), &mut res);
    handle_last_diff(i_snd, vec_snd.as_slice(), &mut res);
    res
}

fn skip_list(v: &Vec<FileInfo>, skip: &SkipSet) -> (r: Vec<bool>)
    ensures
        r@ == skips(skip.patterns(), infos_view(v@)),
{
    let mut r: Vec<bool> = Vec::new();
    let mut i: usize = 0;
    while i < v.len()
        invariant
            i <= v@.len(),
            r@ == skips(skip.patterns(), infos_view(v@)).take(i as int),
        decreases v@.len() - i,
    {
        r.push(is_match(skip, v[i].rel_path.as_str()));
        i = i + 1;
        assert(r@ =~= skips(skip.patterns(), infos_view(v@)).take(i as int));
    }
    assert(r@ =~= skips(skip.patterns(), infos_view(v@)));
    r
}

/// Whether `h` is the hash that [`calc_fileinfo_hash`] gives for the `k`-th
/// file of `v`: that of the files at or below its path, for some byte order
/// of the numbers.
pub open spec fn subtree_hash(v: Seq<InfoModel>, o: HasherOptions, k: int, h: u64) -> bool {
    exists|les: Seq<Seq<bool>>| h == xxh64(#[trigger] prefixed_bytes(v, v[k].rel_path, o, les))
}

/// Whether `hash` holds, for each file of `v`, the hash of its subtree.
pub open spec fn subtree_hashes(v: Seq<InfoModel>, o: HasherOptions, hash: Seq<u64>) -> bool {
    &&& hash.len() == v.len()
    &&& forall|k: int| 0 <= k < v.len() ==> #[trigger] subtree_hash(v, o, k, hash[k])
}

fn hash_list(v: &Vec<FileInfo>, hasher_options: &HasherOptions) -> (r: Vec<u64>)
    ensures
        subtree_hashes(infos_view(v@), *hasher_options, r@),
{
    let mut r: Vec<u64> = Vec::new();
    let mut i: usize = 0;
    while i < v.len()
        invariant
            i <= v@.len(),
            r@.len() == i,
            forall|k: int| 0 <= k < i ==> #[trigger] subtree_hash(infos_view(v@), *hasher_options, k, r@[k]),
        decreases v@.len() - i,
    {
        let p = v[i].rel_path.as_str();
        let h = calc_fileinfo_hash(v, p, hasher_options);
        proof {
            assert(infos_view(v@)[i as int] == v@[i as int]@);
            assert(p@ == infos_view(v@)[i as int].rel_path);
            let les = choose|les: Seq<Seq<bool>>|
                h == xxh64(#[trigger] prefixed_bytes(infos_view(v@), p@, *hasher_options, les));
            assert(h == xxh64(prefixed_bytes(infos_view(v@), infos_view(v@)[i as int].rel_path, *hasher_options, les)));
        }
        r.push(h);
        i = i + 1;
    }
    r
}

/// Whether `d` are the differences between the listings `fst` and `snd`,
/// with the files that the patterns match skipped, and with each file's hash
/// that of its subtree (see [`calc_fileinfo_hash`]) under the options `o`.
pub open spec fn listing_diff(
    d: Seq<DiffModel>,
    fst: Seq<InfoModel>,
    snd: Seq<InfoModel>,
    fst_patterns: Seq<Seq<char>>,
    snd_patterns: Seq<Seq<char>>,
    o: HasherOptions,
) -> bool {
    exists|fst_hash: Seq<u64>, snd_hash: Seq<u64>|
        subtree_hashes(fst, o, fst_hash) && subtree_hashes(snd, o, snd_hash) && d == #[trigger] diff_spec(
            fst,
            snd,
            skips(fst_patterns, fst),
            skips(snd_patterns, snd),
            fst_hash,
            snd_hash,
        )
}

/// The differences between the file states of two file systems, each a
/// list of files sorted by path. Files whose path a skip set matches are
/// passed over; files with the same path differ when the hashes of their
/// subtrees (see `calc_fileinfo_hash`) differ.
pub fn get_diff(
    vec_fst: &Vec<FileInfo>,
    vec_snd: &Vec<FileInfo>,
    fst_skip: &SkipSet,
    snd_skip: &SkipSet,
    hasher_options: &HasherOptions,
) -> (r: Vec<FileDiff>)
    requires
        vec_fst@.len() > 0,
        vec_snd@.len() > 0,
    ensures
        listing_diff(
            diffs_view(r@),
            infos_view(vec_fst@),
            infos_view(vec_snd@),
            fst_skip.patterns(),
            snd_skip.patterns(),
            *hasher_options,
        ),
{
    let fs = skip_list(vec_fst, fst_skip);
    let ss = skip_list(vec_snd, snd_skip);
    let fh = hash_list(vec_fst, hasher_options);
    let sh = hash_list(vec_snd, hasher_options);
    let r = get_diff_hashed(vec_fst, vec_snd, &fs, &ss, &fh, &sh);
    assert(subtree_hashes(infos_view(vec_fst@), *hasher_options, fh@) && subtree_hashes(infos_view(vec_snd@), *hasher_options, sh@) && diffs_view(r@) == diff_spec(
        infos_view(vec_fst@),
        infos_view(vec_snd@),
        skips(fst_skip.patterns(), infos_view(vec_fst@)),
        skips(snd_skip.patterns(), infos_view(vec_snd@)),
        fh@,
        sh@,
    ));
    r
}

/// The files that the skip set does not match, in order.
pub open spec fn kept(patterns: Seq<Seq<char>>, v: Seq<InfoModel>) -> Seq<InfoModel>
    decreases v.len(),
{
    if v.len() == 0 {
        Seq::empty()
    } else if regex_set_is_match(patterns, v.last().rel_path) {
        kept(patterns, v.drop_last())
    } else {
        kept(patterns, v.drop_last()).push(v.last())
    }
}

/// The hash of a directory tree and its files: `entries` are the tree's
/// files in walk order (sorted by name within each directory); those whose
/// relative path the skip set matches are left out, the others are fed to
/// the hasher in order and returned.
pub fn calc_entries_hash(entries: Vec<FileInfo>, skip: &SkipSet, hasher_options: &HasherOptions) -> (r: (
    u64,
    Vec<FileInfo>,
))
    ensures
        infos_view(r.1@) == kept(skip.patterns(), infos_view(entries@)),
        exists|les: Seq<Seq<bool>>|
            r.0 == xxh64(#[trigger] listing_bytes(infos_view(r.1@), *hasher_options, les)),
{
    let mut hasher = new_hasher();
    let mut res: Vec<FileInfo> = Vec::new();
    let ghost mut les: Seq<Seq<bool>> = Seq::empty();
    let mut i: usize = 0;
    assert(infos_view(res@) =~= Seq::<InfoModel>::empty());
    while i < entries.len()
        invariant
            i <= entries@.len(),
            infos_view(res@) == kept(skip.patterns(), infos_view(entries@).take(i as int)),
            les.len() == res@.len(),
            xxh64_written(hasher) == listing_bytes(infos_view(res@), *hasher_options, les),
        decreases entries@.len() - i,
    {
        assert(infos_view(entries@).take(i + 1).drop_last() =~= infos_view(entries@).take(i as int));
        let file_info = entries[i].clone();
        if !is_match(skip, file_info.rel_path.as_str()) {
            let ghost w = xxh64_written(hasher);
            file_info.add_to_hasher(&mut hasher, hasher_options);
            let ghost before = infos_view(res@);
            let ghost fv = file_info@;
            let ghost le = choose|le: Seq<bool>|
                le.len() == 5 && xxh64_written(hasher) == w + #[trigger] info_bytes(fv, *hasher_options, le);
            res.push(file_info);
            proof {
                let after = infos_view(res@);
                assert(after =~= before.push(fv));
                assert(after.drop_last() =~= before);
                assert(Seq::<char>::empty().is_prefix_of(fv.rel_path));
                lemma_prefixed_bytes_extend(before, Seq::empty(), *hasher_options, les, le);
                les = les.push(le);
                assert(les[before.len() as int] == le);
            }
        }
        i = i + 1;
    }
    assert(infos_view(entries@).take(i as int) =~= infos_view(entries@));
    (hasher_finish(&hasher), res)
}

} // verus!
