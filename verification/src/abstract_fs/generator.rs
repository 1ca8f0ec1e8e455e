//! Random workloads. Each step looks at the nodes that can be reached from
//! the root, keeps the kinds of operation that can be applied to them, picks
//! one by weight, picks its arguments among the reachable nodes and applies it.

use vstd::prelude::*;

use rand::rngs::StdRng;

use super::alive::{alive_rounds, alive_spec, alive_start, AliveModel, MAX_SYMLINK_FOLLOW};
use super::flags::ModeFlag;
use super::fs::{
    apply_spec, fs_wf, init_model, lemma_replay_push, lemma_replay_recording, replay_spec, AbstractFS,
    FsErrorView, FsModel,
};
use super::node::{DirIndex, FileDescriptorIndex, FileIndex};
use super::operation::{OpView, OperationKind, OperationWeights};
use super::pathname::{path_join, Name, PathName};
use super::workload::Workload;
use crate::order::{keys, SortKey};
use crate::random::{choose_from, choose_weighted_from, weight_total};
use crate::text::{dec, lemma_dec_injective, str_eq, u64_to_string};

verus! {

broadcast use vstd::seq_lib::group_seq_properties;

// ---------------------------------------------------------------------------
// Interesting numbers
// ---------------------------------------------------------------------------

/// Sizes and offsets that often reveal bugs (from AFL++'s `config.h`): small
/// numbers, common buffer sizes, and the edges of 8- and 16-bit integers.
pub open spec fn interesting_unsigned() -> Seq<u64> {
    seq![
        0u64, 1, 16, 32, 64, 100, 127, 128, 255, 256, 512, 1000, 1024, 4096, 32767, 32768, 65535,
        65536, 100000,
    ]
}

fn interesting_values() -> (r: Vec<u64>)
    ensures
        r@ == interesting_unsigned(),
{
    let r: Vec<u64> = vec![
        0u64, 1, 16, 32, 64, 100, 127, 128, 255, 256, 512, 1000, 1024, 4096, 32767, 32768, 65535,
        65536, 100000,
    ];
    assert(r@ =~= interesting_unsigned());
    r
}

/// One of the interesting numbers, picked at random.
fn random_interesting_unsigned(rng: &mut StdRng) -> (r: u64)
    ensures
        interesting_unsigned().contains(r),
{
    let v = interesting_values();
    *choose_from(rng, v.as_slice())
}

// ---------------------------------------------------------------------------
// Fresh names
// ---------------------------------------------------------------------------

/// Names for new nodes: decimal numbers counting up from `next`, skipping
/// the names in `used`.
pub struct NameGen {
    pub next: usize,
    pub used: Vec<Name>,
}

/// The names as character sequences.
pub open spec fn names_view(v: Seq<Name>) -> Seq<Seq<char>> {
    v.map_values(|n: Name| n@)
}

/// The first number from `next` on whose name is not in `used`, looking at
/// no more than `fuel` numbers.
pub open spec fn first_free(next: nat, used: Seq<Seq<char>>, fuel: nat) -> nat
    decreases fuel,
{
    if fuel == 0 || !used.contains(dec(next)) {
        next
    } else {
        first_free(next + 1, used, (fuel - 1) as nat)
    }
}

/// The number of the next name: the first from `next` on that is not used
/// (one of the next `used.len() + 1` numbers is free).
pub open spec fn free_index(next: nat, used: Seq<Seq<char>>) -> nat {
    first_free(next, used, used.len() + 1)
}

/// The next name.
pub open spec fn step_name(next: nat, used: Seq<Seq<char>>) -> Seq<char> {
    dec(free_index(next, used))
}

proof fn lemma_names_bound(used: Seq<Seq<char>>, lo: nat, hi: nat)
    requires
        lo <= hi,
        forall|j: nat| lo <= j < hi ==> used.contains(#[trigger] dec(j)),
    ensures
        hi - lo <= used.len(),
{
    broadcast use vstd::seq_lib::seq_to_set_is_finite;

    let x = vstd::set_lib::set_int_range(lo as int, hi as int);
    vstd::set_lib::lemma_int_range(lo as int, hi as int);
    let f = |j: int| dec(j as nat);
    let y = x.map(f);
    assert(vstd::relations::injective_on(f, x)) by {
        assert forall|a: int, b: int| x.contains(a) && x.contains(b) && #[trigger] f(a) == #[trigger] f(b) implies a == b by {
            lemma_dec_injective(a as nat, b as nat);
        }
    }
    vstd::set_lib::lemma_map_size(x, y, f);
    assert(y.subset_of(used.to_set())) by {
        assert forall|n: Seq<char>| y.contains(n) implies used.to_set().contains(n) by {
            let j = choose|j: int| x.contains(j) && f(j) == n;
            assert(used.contains(dec(j as nat)));
        }
    }
    vstd::set_lib::lemma_len_subset(y, used.to_set());
    used.lemma_cardinality_of_set();
}

proof fn lemma_first_free_at_least(next: nat, used: Seq<Seq<char>>, fuel: nat)
    ensures
        first_free(next, used, fuel) >= next,
    decreases fuel,
{
    if fuel > 0 && used.contains(dec(next)) {
        lemma_first_free_at_least(next + 1, used, (fuel - 1) as nat);
    }
}

/// A name generator never hands out a name twice: the name that follows a
/// given one (the counter having moved past it) is a different name.
pub proof fn lemma_names_never_repeat(next: nat, used: Seq<Seq<char>>)
    ensures
        step_name(free_index(next, used) + 1, used) != step_name(next, used),
        free_index(next, used) >= next,
{
    let a = free_index(next, used);
    let b = free_index(a + 1, used);
    lemma_first_free_at_least(next, used, used.len() + 1);
    lemma_first_free_at_least(a + 1, used, used.len() + 1);
    if dec(a) == dec(b) {
        lemma_dec_injective(a, b);
    }
}

/// Whether `name` is one of `v`.
fn contains_name(v: &Vec<Name>, name: &str) -> (r: bool)
    ensures
        r == names_view(v@).contains(name@),
{
    let mut i: usize = 0;
    while i < v.len()
        invariant
            i <= v@.len(),
            forall|k: int| 0 <= k < i ==> v@[k]@ != name@,
        decreases v@.len() - i,
    {
        if str_eq(v[i].as_str(), name) {
            assert(names_view(v@)[i as int] == name@);
            return true;
        }
        i = i + 1;
    }
    proof {
        if names_view(v@).contains(name@) {
            let k = choose|k: int| 0 <= k < names_view(v@).len() && names_view(v@)[k] == name@;
            assert(v@[k]@ == name@);
        }
    }
    false
}

impl NameGen {
    /// Names `0`, `1`, `2`, ... in turn.
    pub fn new() -> (r: NameGen)
        ensures
            r.next == 0,
            r.used@.len() == 0,
    {
        NameGen { next: 0, used: Vec::new() }
    }

    /// Names `0`, `1`, `2`, ... in turn, skipping those of `used`.
    pub fn with_used(used: Vec<Name>) -> (r: NameGen)
        ensures
            r.next == 0,
            r.used@ == used@,
    {
        NameGen { next: 0, used }
    }

    /// The next free name.
    pub fn gen_name(&mut self) -> (r: Name)
        requires
            old(self).next + old(self).used@.len() < usize::MAX,
        ensures
            r@ == step_name(old(self).next as nat, names_view(old(self).used@)),
            final(self).next == free_index(old(self).next as nat, names_view(old(self).used@)) + 1,
            final(self).used@ == old(self).used@,
            !names_view(old(self).used@).contains(r@),
    {
        let ghost used = names_view(self.used@);
        let ghost start = self.next as nat;
        let mut k: usize = self.next;
        let mut name = u64_to_string(k as u64);
        while contains_name(&self.used, name.as_str())
            invariant
                used == names_view(self.used@),
                start <= k,
                k - start <= used.len(),
                start + used.len() < usize::MAX,
                name@ == dec(k as nat),
                forall|j: nat| start <= j < k ==> used.contains(#[trigger] dec(j)),
                first_free(start, used, used.len() + 1) == first_free(
                    k as nat,
                    used,
                    (used.len() + 1 - (k - start)) as nat,
                ),
            decreases used.len() - (k - start),
        {
            proof {
                lemma_names_bound(used, start, (k + 1) as nat);
            }
            k = k + 1;
            name = u64_to_string(k as u64);
        }
        self.next = k + 1;
        name
    }
}

// ---------------------------------------------------------------------------
// What a step may do
// ---------------------------------------------------------------------------

/// The paths of the entries.
pub open spec fn paths_of<I>(es: Seq<(I, Seq<char>)>) -> Seq<Seq<char>> {
    es.map_values(|e: (I, Seq<char>)| e.1)
}

/// The paths of the directories other than the root.
pub open spec fn non_root_paths(es: Seq<(DirIndex, Seq<char>)>) -> Seq<Seq<char>>
    decreases es.len(),
{
    if es.len() == 0 {
        Seq::empty()
    } else if es.last().0 != DirIndex(0) {
        non_root_paths(es.drop_last()).push(es.last().1)
    } else {
        non_root_paths(es.drop_last())
    }
}

/// The paths of the files that are not open.
pub open spec fn closed_paths(s: FsModel, es: Seq<(FileIndex, Seq<char>)>) -> Seq<Seq<char>>
    decreases es.len(),
{
    if es.len() == 0 {
        Seq::empty()
    } else if s.files[es.last().0.0 as int].descriptor is None {
        closed_paths(s, es.drop_last()).push(es.last().1)
    } else {
        closed_paths(s, es.drop_last())
    }
}

/// The descriptors of the files that are open.
pub open spec fn open_descriptors(s: FsModel, es: Seq<(FileIndex, Seq<char>)>) -> Seq<FileDescriptorIndex>
    decreases es.len(),
{
    if es.len() == 0 {
        Seq::empty()
    } else {
        match s.files[es.last().0.0 as int].descriptor {
            Some(d) => open_descriptors(s, es.drop_last()).push(d),
            None => open_descriptors(s, es.drop_last()),
        }
    }
}

/// Whether an operation of kind `k` has something to apply to.
pub open spec fn kind_allowed(s: FsModel, a: AliveModel, k: OperationKind) -> bool {
    match k {
        OperationKind::Remove => non_root_paths(a.dirs).len() > 0,
        OperationKind::Hardlink => a.files.len() > 0,
        OperationKind::Rename => non_root_paths(a.dirs).len() > 0 || a.files.len() > 0,
        OperationKind::Open => closed_paths(s, a.files).len() > 0,
        OperationKind::Close => open_descriptors(s, a.files).len() > 0,
        OperationKind::Read => open_descriptors(s, a.files).len() > 0,
        OperationKind::Write => open_descriptors(s, a.files).len() > 0,
        OperationKind::FSync => open_descriptors(s, a.files).len() > 0,
        _ => true,
    }
}

/// The weights of the kinds that can be applied, in their order.
pub open spec fn usable_weights(s: FsModel, a: AliveModel, w: Seq<(OperationKind, u32)>) -> Seq<(OperationKind, u32)>
    decreases w.len(),
{
    if w.len() == 0 {
        Seq::empty()
    } else if kind_allowed(s, a, w.last().0) {
        usable_weights(s, a, w.drop_last()).push(w.last())
    } else {
        usable_weights(s, a, w.drop_last())
    }
}

/// Whether kind `k` has a positive weight.
pub open spec fn has_weight(w: Seq<(OperationKind, u32)>, k: OperationKind) -> bool {
    exists|i: int| 0 <= i < w.len() && (#[trigger] w[i]).0 == k && w[i].1 > 0
}

/// The mode of the nodes the generator makes.
pub open spec fn gen_mode() -> Seq<ModeFlag> {
    seq![ModeFlag::S_IRWXU, ModeFlag::S_IRWXG, ModeFlag::S_IROTH, ModeFlag::S_IXOTH]
}

/// Whether `op` is one that a step may apply to `s`, with `a` the reachable
/// nodes, `fw` the usable weights and `name` the name a new node gets.
pub open spec fn is_candidate(s: FsModel, a: AliveModel, fw: Seq<(OperationKind, u32)>, name: Seq<char>, op: OpView) -> bool {
    match op {
        OpView::MkDir { path, mode } => has_weight(fw, OperationKind::MkDir) && mode == gen_mode()
            && exists|p: Seq<char>| paths_of(a.dirs).contains(p) && path == path_join(p, name),
        OpView::Create { path, mode } => has_weight(fw, OperationKind::Create) && mode == gen_mode()
            && exists|p: Seq<char>| paths_of(a.dirs).contains(p) && path == path_join(p, name),
        OpView::Remove { path } => has_weight(fw, OperationKind::Remove) && (non_root_paths(a.dirs)
            + paths_of(a.files)).contains(path),
        OpView::Hardlink { old_path, new_path } => has_weight(fw, OperationKind::Hardlink) && paths_of(
            a.files,
        ).contains(old_path) && exists|p: Seq<char>|
            paths_of(a.dirs).contains(p) && new_path == path_join(p, name),
        OpView::Rename { .. } => false,
        OpView::Open { path, des } => has_weight(fw, OperationKind::Open) && closed_paths(s, a.files).contains(path)
            && des == FileDescriptorIndex(s.descriptors.len() as usize),
        OpView::Close { des } => has_weight(fw, OperationKind::Close) && open_descriptors(s, a.files).contains(des),
        OpView::Read { des, size } => has_weight(fw, OperationKind::Read) && open_descriptors(s, a.files).contains(des)
            && interesting_unsigned().contains(size),
        OpView::Write { des, src_offset, size } => has_weight(fw, OperationKind::Write) && open_descriptors(
            s,
            a.files,
        ).contains(des) && interesting_unsigned().contains(src_offset) && interesting_unsigned().contains(size),
        OpView::FSync { des } => has_weight(fw, OperationKind::FSync) && open_descriptors(s, a.files).contains(des),
        OpView::Symlink { target, linkpath } => has_weight(fw, OperationKind::Symlink) && (paths_of(a.dirs)
            + paths_of(a.files)).contains(target) && exists|p: Seq<char>|
            paths_of(a.dirs).contains(p) && linkpath == path_join(p, name),
    }
}

/// Whether `op` names a new node.
pub open spec fn uses_name(op: OpView) -> bool {
    op is MkDir || op is Create || op is Hardlink || op is Symlink
}

/// The operations a step from `s` may apply.
pub open spec fn step_candidate(s: FsModel, next: nat, used: Seq<Seq<char>>, w: Seq<(OperationKind, u32)>, op: OpView) -> bool {
    is_candidate(s, alive_spec(s), usable_weights(s, alive_spec(s), w), step_name(next, used), op)
}

/// Whether a step from `s` goes through whatever is picked: the search for
/// reachable nodes ends, some usable kind has weight (and the weights fit in
/// `u32`), `Rename` is never picked (the step does not support it), the
/// names do not run out, and every operation that may be picked succeeds.
pub open spec fn step_ok(s: FsModel, next: nat, used: Seq<Seq<char>>, w: Seq<(OperationKind, u32)>) -> bool {
    let fw = usable_weights(s, alive_spec(s), w);
    &&& fs_wf(s)
    &&& alive_rounds(s, alive_start(), MAX_SYMLINK_FOLLOW as nat) is Some
    &&& next + used.len() < usize::MAX
    &&& 0 < weight_total(fw) <= u32::MAX
    &&& !has_weight(fw, OperationKind::Rename)
    &&& forall|op: OpView| #[trigger] step_candidate(s, next, used, w, op) ==> apply_spec(s, op).1 is Ok
}

/// The name counter after applying `op`.
pub open spec fn next_after(next: nat, used: Seq<Seq<char>>, op: OpView) -> nat {
    if uses_name(op) {
        free_index(next, used) + 1
    } else {
        next
    }
}

// ---------------------------------------------------------------------------
// Building the lists of a step
// ---------------------------------------------------------------------------

proof fn lemma_key_contains<T: SortKey>(v: Seq<T>, e: T)
    requires
        v.contains(e),
    ensures
        keys(v).contains(e.key()),
{
    let i = choose|i: int| 0 <= i < v.len() && v[i] == e;
    assert(keys(v)[i] == e.key());
}

proof fn lemma_path_contains<I>(es: Seq<(I, Seq<char>)>, e: (I, Seq<char>))
    requires
        es.contains(e),
    ensures
        paths_of(es).contains(e.1),
{
    let i = choose|i: int| 0 <= i < es.len() && es[i] == e;
    assert(paths_of(es)[i] == e.1);
}

fn non_root_dir_paths(dirs: &Vec<(DirIndex, PathName)>) -> (r: Vec<PathName>)
    ensures
        keys(r@) == non_root_paths(keys(dirs@)),
{
    let mut r: Vec<PathName> = Vec::new();
    let mut i: usize = 0;
    while i < dirs.len()
        invariant
            i <= dirs@.len(),
            keys(r@) == non_root_paths(keys(dirs@).take(i as int)),
        decreases dirs@.len() - i,
    {
        assert(keys(dirs@).take(i + 1).drop_last() =~= keys(dirs@).take(i as int));
        if dirs[i].0.0 != 0 {
            r.push(dirs[i].1.clone());
        }
        assert(keys(r@) =~= non_root_paths(keys(dirs@).take(i + 1)));
        i = i + 1;
    }
    assert(keys(dirs@).take(i as int) =~= keys(dirs@));
    r
}

fn dir_path_list(dirs: &Vec<(DirIndex, PathName)>) -> (r: Vec<PathName>)
    ensures
        keys(r@) == paths_of(keys(dirs@)),
{
    let mut r: Vec<PathName> = Vec::new();
    let mut i: usize = 0;
    while i < dirs.len()
        invariant
            i <= dirs@.len(),
            keys(r@) == paths_of(keys(dirs@).take(i as int)),
        decreases dirs@.len() - i,
    {
        let ghost prev = r@;
        let p = dirs[i].1.clone();
        r.push(p);
        assert(keys(r@) =~= keys(prev).push(p@));
        assert(keys(dirs@)[i as int] == dirs@[i as int].key());
        assert(paths_of(keys(dirs@).take(i + 1)) =~= paths_of(keys(dirs@).take(i as int)).push(p@));
        i = i + 1;
    }
    assert(keys(dirs@).take(i as int) =~= keys(dirs@));
    r
}

fn file_path_list(files: &Vec<(FileIndex, PathName)>) -> (r: Vec<PathName>)
    ensures
        keys(r@) == paths_of(keys(files@)),
{
    let mut r: Vec<PathName> = Vec::new();
    let mut i: usize = 0;
    while i < files.len()
        invariant
            i <= files@.len(),
            keys(r@) == paths_of(keys(files@).take(i as int)),
        decreases files@.len() - i,
    {
        let ghost prev = r@;
        let p = files[i].1.clone();
        r.push(p);
        assert(keys(r@) =~= keys(prev).push(p@));
        assert(keys(files@)[i as int] == files@[i as int].key());
        assert(paths_of(keys(files@).take(i + 1)) =~= paths_of(keys(files@).take(i as int)).push(p@));
        i = i + 1;
    }
    assert(keys(files@).take(i as int) =~= keys(files@));
    r
}

fn append_paths(a: &mut Vec<PathName>, b: &Vec<PathName>)
    ensures
        keys(final(a)@) == keys(old(a)@) + keys(b@),
{
    let mut i: usize = 0;
    while i < b.len()
        invariant
            i <= b@.len(),
            keys(a@) == keys(old(a)@) + keys(b@).take(i as int),
        decreases b@.len() - i,
    {
        let ghost prev = a@;
        let p = b[i].clone();
        a.push(p);
        assert(keys(a@) =~= keys(prev).push(p@));
        assert(keys(b@)[i as int] == b@[i as int].key());
        assert(keys(a@) =~= keys(old(a)@) + keys(b@).take(i + 1));
        i = i + 1;
    }
    assert(keys(b@).take(i as int) =~= keys(b@));
}

impl AbstractFS {
    fn closed_file_paths(&self, files: &Vec<(FileIndex, PathName)>) -> (r: Vec<PathName>)
        requires
            forall|k: int| 0 <= k < keys(files@).len() ==> (#[trigger] keys(files@)[k]).0.0 < self@.files.len(),
        ensures
            keys(r@) == closed_paths(self@, keys(files@)),
    {
        let mut r: Vec<PathName> = Vec::new();
        let mut i: usize = 0;
        while i < files.len()
            invariant
                i <= files@.len(),
                forall|k: int| 0 <= k < keys(files@).len() ==> (#[trigger] keys(files@)[k]).0.0 < self@.files.len(),
                keys(r@) == closed_paths(self@, keys(files@).take(i as int)),
            decreases files@.len() - i,
        {
            assert(keys(files@).take(i + 1).drop_last() =~= keys(files@).take(i as int));
            assert(keys(files@)[i as int].0 == files@[i as int].0);
            if self.file(&files[i].0).descriptor.is_none() {
                r.push(files[i].1.clone());
            }
            assert(keys(r@) =~= closed_paths(self@, keys(files@).take(i + 1)));
            i = i + 1;
        }
        assert(keys(files@).take(i as int) =~= keys(files@));
        r
    }

    fn open_file_descriptors(&self, files: &Vec<(FileIndex, PathName)>) -> (r: Vec<FileDescriptorIndex>)
        requires
            forall|k: int| 0 <= k < keys(files@).len() ==> (#[trigger] keys(files@)[k]).0.0 < self@.files.len(),
        ensures
            r@ == open_descriptors(self@, keys(files@)),
    {
        let mut r: Vec<FileDescriptorIndex> = Vec::new();
        let mut i: usize = 0;
        while i < files.len()
            invariant
                i <= files@.len(),
                forall|k: int| 0 <= k < keys(files@).len() ==> (#[trigger] keys(files@)[k]).0.0 < self@.files.len(),
                r@ == open_descriptors(self@, keys(files@).take(i as int)),
            decreases files@.len() - i,
        {
            assert(keys(files@).take(i + 1).drop_last() =~= keys(files@).take(i as int));
            assert(keys(files@)[i as int].0 == files@[i as int].0);
            match self.file(&files[i].0).descriptor {
                Some(d) => {
                    r.push(d);
                },
                None => {},
            }
            i = i + 1;
        }
        assert(keys(files@).take(i as int) =~= keys(files@));
        r
    }
}

fn kind_allowed_exec(k: OperationKind, non_root: usize, files: usize, closed: usize, open: usize) -> (r: bool)
    ensures
        r == match k {
            OperationKind::Remove => non_root > 0,
            OperationKind::Hardlink => files > 0,
            OperationKind::Rename => non_root > 0 || files > 0,
            OperationKind::Open => closed > 0,
            OperationKind::Close => open > 0,
            OperationKind::Read => open > 0,
            OperationKind::Write => open > 0,
            OperationKind::FSync => open > 0,
            _ => true,
        },
{
    match k {
        OperationKind::Remove => non_root > 0,
        OperationKind::Hardlink => files > 0,
        OperationKind::Rename => non_root > 0 || files > 0,
        OperationKind::Open => closed > 0,
        OperationKind::Close => open > 0,
        OperationKind::Read => open > 0,
        OperationKind::Write => open > 0,
        OperationKind::FSync => open > 0,
        _ => true,
    }
}

fn gen_mode_vec() -> (r: Vec<ModeFlag>)
    ensures
        r@ == gen_mode(),
{
    let r = vec![ModeFlag::S_IRWXU, ModeFlag::S_IRWXG, ModeFlag::S_IROTH, ModeFlag::S_IXOTH];
    assert(r@ =~= gen_mode());
    r
}

/// Whether the counts allow kind `k` (the usable kinds, computed from the list lengths).
pub open spec fn counts_allow(k: OperationKind, non_root: nat, files: nat, closed: nat, open: nat) -> bool {
    match k {
        OperationKind::Remove => non_root > 0,
        OperationKind::Hardlink => files > 0,
        OperationKind::Rename => non_root > 0 || files > 0,
        OperationKind::Open => closed > 0,
        OperationKind::Close => open > 0,
        OperationKind::Read => open > 0,
        OperationKind::Write => open > 0,
        OperationKind::FSync => open > 0,
        _ => true,
    }
}

fn usable_weight_list(
    w: &Vec<(OperationKind, u32)>,
    Ghost(s): Ghost<FsModel>,
    Ghost(a): Ghost<AliveModel>,
    non_root: usize,
    files: usize,
    closed: usize,
    open: usize,
) -> (r: Vec<(OperationKind, u32)>)
    requires
        non_root == non_root_paths(a.dirs).len(),
        files == a.files.len(),
        closed == closed_paths(s, a.files).len(),
        open == open_descriptors(s, a.files).len(),
    ensures
        r@ == usable_weights(s, a, w@),
{
    let mut r: Vec<(OperationKind, u32)> = Vec::new();
    let mut i: usize = 0;
    while i < w.len()
        invariant
            i <= w@.len(),
            non_root == non_root_paths(a.dirs).len(),
            files == a.files.len(),
            closed == closed_paths(s, a.files).len(),
            open == open_descriptors(s, a.files).len(),
            r@ == usable_weights(s, a, w@.take(i as int)),
        decreases w@.len() - i,
    {
        assert(w@.take(i + 1).drop_last() =~= w@.take(i as int));
        if kind_allowed_exec(w[i].0, non_root, files, closed, open) {
            r.push(w[i]);
        }
        i = i + 1;
    }
    assert(w@.take(i as int) =~= w@);
    r
}

proof fn lemma_usable_allowed(s: FsModel, a: AliveModel, w: Seq<(OperationKind, u32)>, k: OperationKind)
    requires
        has_weight(usable_weights(s, a, w), k),
    ensures
        kind_allowed(s, a, k),
    decreases w.len(),
{
    let u = usable_weights(s, a, w);
    let i = choose|i: int| 0 <= i < u.len() && (#[trigger] u[i]).0 == k && u[i].1 > 0;
    if w.len() > 0 {
        let u0 = usable_weights(s, a, w.drop_last());
        if kind_allowed(s, a, w.last().0) {
            if i < u0.len() {
                assert(u0[i] == u[i]);
                lemma_usable_allowed(s, a, w.drop_last(), k);
            }
        } else {
            lemma_usable_allowed(s, a, w.drop_last(), k);
        }
    }
}

/// Appends one random operation to the recording of `fs`: picks a usable
/// kind by weight and its arguments among the reachable nodes, and applies
/// it; new nodes are named by `names`.
#[verifier::rlimit(60)]
pub fn append_one(rng: &mut StdRng, fs: &mut AbstractFS, weights: &OperationWeights, names: &mut NameGen)
    requires
        step_ok(old(fs)@, old(names).next as nat, names_view(old(names).used@), weights.weights@),
    ensures
        final(fs).wf(),
        final(names).used@ == old(names).used@,
        exists|op: OpView|
            #[trigger] step_candidate(old(fs)@, old(names).next as nat, names_view(old(names).used@), weights.weights@, op)
                && final(fs)@ == apply_spec(old(fs)@, op).0
                && final(names).next == next_after(old(names).next as nat, names_view(old(names).used@), op),
{
    let ghost s = fs@;
    let ghost used = names_view(names.used@);
    let ghost next0 = names.next as nat;
    let ghost w = weights.weights@;
    let mode = gen_mode_vec();
    let alive = fs.alive();
    let ghost a = alive@;
    let non_root = non_root_dir_paths(&alive.dirs);
    let file_paths = file_path_list(&alive.files);
    let closed = fs.closed_file_paths(&alive.files);
    let open = fs.open_file_descriptors(&alive.files);
    let fw = usable_weight_list(
        &weights.weights,
        Ghost(s),
        Ghost(a),
        non_root.len(),
        alive.files.len(),
        closed.len(),
        open.len(),
    );
    let picked = choose_weighted_from(rng, fw.as_slice());
    let kind = picked.0;
    proof {
        let i = choose|i: int| 0 <= i < fw@.len() && fw@[i] == *picked;
        assert(fw@[i].0 == kind && fw@[i].1 > 0);
        assert(has_weight(fw@, kind));
        lemma_usable_allowed(s, a, w, kind);
    }
    match kind {
        OperationKind::MkDir => {
            let dir = choose_from(rng, alive.dirs.as_slice());
            let path = dir.1.clone();
            let name = names.gen_name();
            let new_path = path.join(name.as_str());
            let ghost op = OpView::MkDir { path: new_path@, mode: mode@ };
            proof {
                lemma_key_contains(alive.dirs@, *dir);
                lemma_path_contains(a.dirs, dir.key());
                assert(paths_of(a.dirs).contains(path@) && new_path@ == path_join(path@, name@));
                assert(step_candidate(s, next0, used, w, op));
            }
            let _ = fs.mkdir(new_path, mode);
            assert(step_candidate(s, next0, used, w, op) && fs@ == apply_spec(s, op).0);
        },
        OperationKind::Create => {
            let dir = choose_from(rng, alive.dirs.as_slice());
            let path = dir.1.clone();
            let name = names.gen_name();
            let new_path = path.join(name.as_str());
            let ghost op = OpView::Create { path: new_path@, mode: mode@ };
            proof {
                lemma_key_contains(alive.dirs@, *dir);
                lemma_path_contains(a.dirs, dir.key());
                assert(paths_of(a.dirs).contains(path@) && new_path@ == path_join(path@, name@));
                assert(step_candidate(s, next0, used, w, op));
            }
            let _ = fs.create(new_path, mode);
            assert(step_candidate(s, next0, used, w, op) && fs@ == apply_spec(s, op).0);
        },
        OperationKind::Remove => {
            let mut both = non_root;
            append_paths(&mut both, &file_paths);
            assert(keys(both@).len() == both@.len());
            let picked_path = choose_from(rng, both.as_slice());
            let path = picked_path.clone();
            let ghost op = OpView::Remove { path: path@ };
            proof {
                lemma_key_contains(both@, *picked_path);
                assert(step_candidate(s, next0, used, w, op));
            }
            let _ = fs.remove(path);
            assert(step_candidate(s, next0, used, w, op) && fs@ == apply_spec(s, op).0);
        },
        OperationKind::Hardlink => {
            let file = choose_from(rng, alive.files.as_slice());
            let file_path = file.1.clone();
            let dir = choose_from(rng, alive.dirs.as_slice());
            let dir_path = dir.1.clone();
            let name = names.gen_name();
            let new_path = dir_path.join(name.as_str());
            let ghost op = OpView::Hardlink { old_path: file_path@, new_path: new_path@ };
            proof {
                lemma_key_contains(alive.files@, *file);
                lemma_path_contains(a.files, file.key());
                lemma_key_contains(alive.dirs@, *dir);
                lemma_path_contains(a.dirs, dir.key());
                assert(paths_of(a.dirs).contains(dir_path@) && new_path@ == path_join(dir_path@, name@));
                assert(step_candidate(s, next0, used, w, op));
            }
            let _ = fs.hardlink(file_path, new_path);
            assert(step_candidate(s, next0, used, w, op) && fs@ == apply_spec(s, op).0);
        },
        OperationKind::Rename => {
            proof {
                assert(false);
            }
        },
        OperationKind::Open => {
            assert(keys(closed@).len() == closed@.len());
            let picked_path = choose_from(rng, closed.as_slice());
            let path = picked_path.clone();
            let ghost op = OpView::Open { path: path@, des: FileDescriptorIndex(fs.descriptors@.len() as usize) };
            proof {
                lemma_key_contains(closed@, *picked_path);
                assert(step_candidate(s, next0, used, w, op));
            }
            let _ = fs.open(path);
            assert(step_candidate(s, next0, used, w, op) && fs@ == apply_spec(s, op).0);
        },
        OperationKind::Close => {
            let des = *choose_from(rng, open.as_slice());
            let ghost op = OpView::Close { des };
            assert(step_candidate(s, next0, used, w, op));
            let _ = fs.close(des);
            assert(step_candidate(s, next0, used, w, op) && fs@ == apply_spec(s, op).0);
        },
        OperationKind::Read => {
            let des = *choose_from(rng, open.as_slice());
            let size = random_interesting_unsigned(rng);
            let ghost op = OpView::Read { des, size };
            assert(step_candidate(s, next0, used, w, op));
            let _ = fs.read(des, size);
            assert(step_candidate(s, next0, used, w, op) && fs@ == apply_spec(s, op).0);
        },
        OperationKind::Write => {
            let des = *choose_from(rng, open.as_slice());
            let src_offset = random_interesting_unsigned(rng);
            let size = random_interesting_unsigned(rng);
            let ghost op = OpView::Write { des, src_offset, size };
            assert(step_candidate(s, next0, used, w, op));
            let _ = fs.write(des, src_offset, size);
            assert(step_candidate(s, next0, used, w, op) && fs@ == apply_spec(s, op).0);
        },
        OperationKind::FSync => {
            let des = *choose_from(rng, open.as_slice());
            let ghost op = OpView::FSync { des };
            assert(step_candidate(s, next0, used, w, op));
            let _ = fs.fsync(des);
            assert(step_candidate(s, next0, used, w, op) && fs@ == apply_spec(s, op).0);
        },
        OperationKind::Symlink => {
            let mut targets = dir_path_list(&alive.dirs);
            append_paths(&mut targets, &file_paths);
            assert(keys(targets@).len() == targets@.len());
            let picked_target = choose_from(rng, targets.as_slice());
            let target = picked_target.clone();
            let dir = choose_from(rng, alive.dirs.as_slice());
            let link_dir = dir.1.clone();
            let name = names.gen_name();
            let linkpath = link_dir.join(name.as_str());
            let ghost op = OpView::Symlink { target: target@, linkpath: linkpath@ };
            proof {
                lemma_key_contains(targets@, *picked_target);
                lemma_key_contains(alive.dirs@, *dir);
                lemma_path_contains(a.dirs, dir.key());
                assert(paths_of(a.dirs).contains(link_dir@) && linkpath@ == path_join(link_dir@, name@));
                assert(step_candidate(s, next0, used, w, op));
            }
            let _ = fs.symlink(target, linkpath);
            assert(step_candidate(s, next0, used, w, op) && fs@ == apply_spec(s, op).0);
        },
    }
}

/// Whether `n` steps from `s` go through whatever is picked, with names
/// counted from `next` and none used beforehand.
#[verifier::opaque]
pub open spec fn gen_safe(s: FsModel, next: nat, w: Seq<(OperationKind, u32)>, n: nat) -> bool
    decreases n,
{
    n == 0 || (step_ok(s, next, Seq::empty(), w) && forall|op: OpView|
        #[trigger] step_candidate(s, next, Seq::empty(), w, op) ==> gen_safe(
            apply_spec(s, op).0,
            next_after(next, Seq::empty(), op),
            w,
            (n - 1) as nat,
        ))
}

/// Whether one step from `prev` (name counter `pnext`) may apply `op` and
/// end in `t` (name counter `tnext`).
#[verifier::opaque]
pub open spec fn gen_edge(w: Seq<(OperationKind, u32)>, prev: FsModel, pnext: nat, op: OpView, t: FsModel, tnext: nat) -> bool {
    step_candidate(prev, pnext, Seq::empty(), w, op) && t == apply_spec(prev, op).0 && tnext == next_after(
        pnext,
        Seq::empty(),
        op,
    )
}

/// Whether `n` steps from a new file system may end in state `t`, with the
/// name counter at `tnext`.
pub open spec fn gen_reaches(w: Seq<(OperationKind, u32)>, n: nat, t: FsModel, tnext: nat) -> bool
    decreases n,
{
    if n == 0 {
        t == init_model() && tnext == 0
    } else {
        exists|prev: FsModel, pnext: nat, op: OpView|
            #![trigger gen_edge(w, prev, pnext, op, t, tnext)]
            gen_reaches(w, (n - 1) as nat, prev, pnext) && gen_edge(w, prev, pnext, op, t, tnext)
    }
}

proof fn lemma_gen_safe_step(s: FsModel, next: nat, w: Seq<(OperationKind, u32)>, n: nat)
    requires
        gen_safe(s, next, w, n + 1),
    ensures
        step_ok(s, next, Seq::empty(), w),
        forall|op: OpView|
            #[trigger] step_candidate(s, next, Seq::empty(), w, op) ==> gen_safe(
                apply_spec(s, op).0,
                next_after(next, Seq::empty(), op),
                w,
                n,
            ),
{
    reveal(gen_safe);
}

proof fn lemma_gen_reaches_step(
    w: Seq<(OperationKind, u32)>,
    n: nat,
    prev: FsModel,
    pnext: nat,
    op: OpView,
    t: FsModel,
    tnext: nat,
)
    requires
        gen_reaches(w, n, prev, pnext),
        gen_edge(w, prev, pnext, op, t, tnext),
    ensures
        gen_reaches(w, n + 1, t, tnext),
{
    assert(((n + 1) - 1) as nat == n);
    assert(gen_reaches(w, ((n + 1) - 1) as nat, prev, pnext) && gen_edge(w, prev, pnext, op, t, tnext));

}

proof fn lemma_gen_reaches_start(w: Seq<(OperationKind, u32)>)
    ensures
        gen_reaches(w, 0, init_model(), 0),
{
}

/// A new random workload of `size` operations, each appended by
/// `append_one` to a new file system, with new nodes named `0`, `1`, ...
/// Replaying the workload on a new file system succeeds, with the state the
/// generator built.
pub fn generate_new(rng: &mut StdRng, size: usize, weights: &OperationWeights) -> (r: Workload)
    requires
        gen_safe(init_model(), 0, weights.weights@, size as nat),
    ensures
        exists|t: FsModel, tnext: nat|
            gen_reaches(weights.weights@, size as nat, t, tnext) && r@ == t.recording && replay_spec(init_model(), r@)
                == (t, Ok::<(), FsErrorView>(())),
{
    let ghost w = weights.weights@;
    let mut fs = AbstractFS::new();
    let mut names = NameGen::new();
    let mut i: usize = 0;
    let ghost mut applied: Seq<OpView> = Seq::empty();
    proof {
        lemma_gen_reaches_start(w);
    }
    while i < size
        invariant
            i <= size,
            w == weights.weights@,
            replay_spec(init_model(), applied) == (fs@, Ok::<(), FsErrorView>(())),
            names.used@.len() == 0,
            fs.wf(),
            gen_safe(fs@, names.next as nat, w, (size - i) as nat),
            gen_reaches(w, i as nat, fs@, names.next as nat),
        decreases size - i,
    {
        let ghost prev = fs@;
        let ghost pnext = names.next as nat;
        assert(names_view(names.used@) =~= Seq::<Seq<char>>::empty());
        proof {
            lemma_gen_safe_step(prev, pnext, w, (size - i - 1) as nat);
        }
        append_one(rng, &mut fs, weights, &mut names);
        proof {
            let op = choose|op: OpView|
                #[trigger] step_candidate(prev, pnext, Seq::empty(), w, op) && fs@ == apply_spec(prev, op).0
                    && names.next == next_after(pnext, Seq::empty(), op);
            assert(gen_edge(w, prev, pnext, op, fs@, names.next as nat)) by {
                reveal(gen_edge);
            }
            lemma_gen_reaches_step(w, i as nat, prev, pnext, op, fs@, names.next as nat);
            lemma_replay_push(init_model(), applied, prev, op);
            applied = applied.push(op);
        }
        i = i + 1;
    }
    proof {
        lemma_replay_recording(applied, fs@);
    }
    fs.recording
}

} // verus!
