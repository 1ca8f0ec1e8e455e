//! The abstract model of a file system that approximates file-system calls.
//!
//! All nodes are stored in tables and referred to by index (similar to
//! inodes). Removed nodes stay in the tables so that indices never change.
//! Every successful operation is recorded, so the state can be replayed.

use vstd::prelude::*;

use super::content::{total, slices_wf, Content, ContentError, SourceSlice, read_slices, write_slices, write_error, lemma_read_total, lemma_write_total};
use super::node::{entries_get, entries_insert, entries_remove, lemma_entries_get_mem, lemma_get_insert, lemma_get_remove, lemma_entries_insert_mem, lemma_entries_remove_mem, lemma_insert_keeps_names_distinct, lemma_remove_keeps_names_distinct, names_distinct, Dir, DirIndex, File, FileDescriptor, FileDescriptorIndex, FileIndex, FileModel, Node, Symlink, SymlinkIndex};
use super::operation::{OpView, Operation};
use super::flags::{Mode, ModeFlag, copy_mode};
use super::pathname::{is_root_path, path_name, path_parent};
use super::pathname::{is_valid_path, path_segments, PathName};
use super::workload::Workload;
use crate::text::{push_char, push_str};

verus! {

broadcast use {lemma_insert_keeps_names_distinct, lemma_remove_keeps_names_distinct};

/// Why an operation on the abstract file system is refused.
#[derive(Debug, PartialEq, Eq)]
pub enum FsError {
    NotAFile(PathName),
    NotADir(PathName),
    NameAlreadyExists(PathName),
    RootRemovalForbidden,
    NotFound(PathName),
    InvalidPath(PathName),
    DirNotEmpty(PathName),
    BadDescriptor(FileDescriptorIndex, usize),
    DescriptorWasClosed(FileDescriptorIndex),
    FileAlreadyOpened(PathName),
    RenameToSubdirectoryError(PathName, PathName),
    LoopExists(PathName),
    ContentError(ContentError),
}

/// The model of an error: paths as character sequences.
pub enum FsErrorView {
    NotAFile(Seq<char>),
    NotADir(Seq<char>),
    NameAlreadyExists(Seq<char>),
    RootRemovalForbidden,
    NotFound(Seq<char>),
    InvalidPath(Seq<char>),
    DirNotEmpty(Seq<char>),
    BadDescriptor(FileDescriptorIndex, usize),
    DescriptorWasClosed(FileDescriptorIndex),
    FileAlreadyOpened(Seq<char>),
    RenameToSubdirectoryError(Seq<char>, Seq<char>),
    LoopExists(Seq<char>),
    ContentError(ContentError),
}

impl View for FsError {
    type V = FsErrorView;

    open spec fn view(&self) -> FsErrorView {
        match self {
            FsError::NotAFile(p) => FsErrorView::NotAFile(p@),
            FsError::NotADir(p) => FsErrorView::NotADir(p@),
            FsError::NameAlreadyExists(p) => FsErrorView::NameAlreadyExists(p@),
            FsError::RootRemovalForbidden => FsErrorView::RootRemovalForbidden,
            FsError::NotFound(p) => FsErrorView::NotFound(p@),
            FsError::InvalidPath(p) => FsErrorView::InvalidPath(p@),
            FsError::DirNotEmpty(p) => FsErrorView::DirNotEmpty(p@),
            FsError::BadDescriptor(d, n) => FsErrorView::BadDescriptor(*d, *n),
            FsError::DescriptorWasClosed(d) => FsErrorView::DescriptorWasClosed(*d),
            FsError::FileAlreadyOpened(p) => FsErrorView::FileAlreadyOpened(p@),
            FsError::RenameToSubdirectoryError(a, b) => FsErrorView::RenameToSubdirectoryError(
                a@,
                b@,
            ),
            FsError::LoopExists(p) => FsErrorView::LoopExists(p@),
            FsError::ContentError(e) => FsErrorView::ContentError(*e),
        }
    }
}

/// The model of the whole file system.
pub struct FsModel {
    pub dirs: Seq<Seq<(Seq<char>, Node)>>,
    pub files: Seq<FileModel>,
    pub symlinks: Seq<Seq<char>>,
    pub descriptors: Seq<FileDescriptor>,
    pub recording: Seq<OpView>,
}

/// Whether `n` names an existing table entry.
pub open spec fn node_ok(s: FsModel, n: Node) -> bool {
    match n {
        Node::File(i) => i.0 < s.files.len(),
        Node::Dir(i) => i.0 < s.dirs.len(),
        Node::Symlink(i) => i.0 < s.symlinks.len(),
    }
}

/// The invariant of the model: the root exists, every entry names an existing
/// node, every descriptor names an existing file and lies within its content,
/// and every content is well formed with a size that fits in 64 bits.
pub open spec fn fs_wf(s: FsModel) -> bool {
    &&& s.dirs.len() >= 1
    &&& forall|d: int| 0 <= d < s.dirs.len() ==> #[trigger] names_distinct(s.dirs[d])
    &&& forall|d: int, k: int|
        0 <= d < s.dirs.len() && 0 <= k < s.dirs[d].len() ==> node_ok(s, (#[trigger] s.dirs[d][k]).1)
    &&& forall|k: int|
        0 <= k < s.descriptors.len() ==> {
            &&& (#[trigger] s.descriptors[k]).file.0 < s.files.len()
            &&& s.descriptors[k].offset <= total(s.files[s.descriptors[k].file.0 as int].content)
        }
    &&& forall|f: int|
        0 <= f < s.files.len() ==> {
            &&& slices_wf((#[trigger] s.files[f]).content)
            &&& total(s.files[f].content) <= u64::MAX
        }
}

// ---------------------------------------------------------------------------
// Path resolution
// ---------------------------------------------------------------------------

/// Walks the components `segs[i..]` from the node `last`, given the
/// directories passed so far and the path built so far. A symbolic link met
/// before the last component is resolved as a directory (always followed).
/// A link met when `fuel` nested lookups are used up is a loop.
pub open spec fn walk_f(
    s: FsModel,
    segs: Seq<Seq<char>>,
    i: int,
    dirs: Seq<DirIndex>,
    last: Node,
    cur: Seq<char>,
    fuel: nat,
) -> Result<(Seq<DirIndex>, Node, Seq<char>), FsErrorView>
    decreases fuel, 0nat, segs.len() - i,
{
    if i < 0 || i >= segs.len() {
        Ok((dirs, last, cur))
    } else {
        let cur2 = cur.push('/') + segs[i];
        let step: Result<(Seq<DirIndex>, DirIndex), FsErrorView> = match last {
            Node::Dir(idx) => Ok((dirs.push(idx), idx)),
            Node::Symlink(idx) => if fuel == 0 {
                Err(FsErrorView::LoopExists(cur2))
            } else {
                match resolve_f(s, s.symlinks[idx.0 as int], true, Seq::empty(), (fuel - 1) as nat) {
                    Err(e) => Err(e),
                    Ok((rd, n)) => match n {
                        Node::Dir(d) => Ok((dirs + rd.push(d), d)),
                        _ => Err(FsErrorView::NotADir(s.symlinks[idx.0 as int])),
                    },
                }
            },
            Node::File(_) => Err(FsErrorView::NotADir(cur2)),
        };
        match step {
            Err(e) => Err(e),
            Ok((dirs2, d)) => match entries_get(s.dirs[d.0 as int], segs[i]) {
                None => Err(FsErrorView::NotFound(cur2)),
                Some(n) => walk_f(s, segs, i + 1, dirs2, n, cur2, fuel),
            },
        }
    }
}

/// Resolves `path` to the directories passed on the way and the final node,
/// following a final symbolic link when `follow` holds (and refusing to
/// follow one of `visited` again). Links nested more than `fuel` deep are a
/// loop.
pub open spec fn resolve_f(
    s: FsModel,
    path: Seq<char>,
    follow: bool,
    visited: Seq<SymlinkIndex>,
    fuel: nat,
) -> Result<(Seq<DirIndex>, Node), FsErrorView>
    decreases fuel, 1nat, 0int,
{
    if !is_valid_path(path) {
        Err(FsErrorView::InvalidPath(path))
    } else {
        match walk_f(s, path_segments(path), 0, Seq::empty(), Node::Dir(DirIndex(0)), Seq::empty(), fuel) {
            Err(e) => Err(e),
            Ok((dirs, last, cur)) => match last {
                Node::Symlink(idx) => if follow {
                    if visited.contains(idx) || fuel == 0 {
                        Err(FsErrorView::LoopExists(cur))
                    } else {
                        match resolve_f(s, s.symlinks[idx.0 as int], follow, visited.push(idx), (fuel - 1) as nat) {
                            Err(e) => Err(e),
                            Ok((rd, l)) => Ok((dirs + rd, l)),
                        }
                    }
                } else {
                    Ok((dirs, last))
                },
                _ => Ok((dirs, last)),
            },
        }
    }
}

/// How deep symbolic links may nest while a path is resolved: once more
/// lookups are nested than there are links, some link is being resolved
/// within its own resolution, a loop.
pub open spec fn loop_bound(s: FsModel) -> nat {
    s.symlinks.len()
}

/// What resolving `path` gives.
pub open spec fn resolve_spec(s: FsModel, path: Seq<char>, follow: bool, visited: Seq<SymlinkIndex>) -> Result<
    (Seq<DirIndex>, Node),
    FsErrorView,
> {
    resolve_f(s, path, follow, visited, loop_bound(s))
}

/// What resolving `path` to a directory gives.
pub open spec fn resolve_dir_spec(s: FsModel, path: Seq<char>) -> Result<(Seq<DirIndex>, DirIndex), FsErrorView> {
    match resolve_spec(s, path, true, Seq::empty()) {
        Err(e) => Err(e),
        Ok((dirs, n)) => match n {
            Node::Dir(d) => Ok((dirs, d)),
            _ => Err(FsErrorView::NotADir(path)),
        },
    }
}

/// What resolving `path` to a file gives.
pub open spec fn resolve_file_spec(s: FsModel, path: Seq<char>) -> Result<(Seq<DirIndex>, FileIndex), FsErrorView> {
    match resolve_spec(s, path, true, Seq::empty()) {
        Err(e) => Err(e),
        Ok((dirs, n)) => match n {
            Node::File(f) => Ok((dirs, f)),
            _ => Err(FsErrorView::NotAFile(path)),
        },
    }
}

pub open spec fn dirs_view(v: Seq<DirIndex>) -> Seq<DirIndex> {
    v
}

/// The model of a resolution result.
pub open spec fn resolved_view(r: Result<(Vec<DirIndex>, Node), FsError>) -> Result<(Seq<DirIndex>, Node), FsErrorView> {
    match r {
        Ok((d, n)) => Ok((d@, n)),
        Err(e) => Err(e@),
    }
}

/// The model of a directory resolution result.
pub open spec fn resolved_dir_view(r: Result<(Vec<DirIndex>, DirIndex), FsError>) -> Result<(Seq<DirIndex>, DirIndex), FsErrorView> {
    match r {
        Ok((d, n)) => Ok((d@, n)),
        Err(e) => Err(e@),
    }
}

/// The model of a file resolution result.
pub open spec fn resolved_file_view(r: Result<(Vec<DirIndex>, FileIndex), FsError>) -> Result<(Seq<DirIndex>, FileIndex), FsErrorView> {
    match r {
        Ok((d, n)) => Ok((d@, n)),
        Err(e) => Err(e@),
    }
}

/// The abstract file system.
pub struct AbstractFS {
    pub dirs: Vec<Dir>,
    pub files: Vec<File>,
    pub symlinks: Vec<Symlink>,
    pub descriptors: Vec<FileDescriptor>,
    /// Every successful operation is recorded and can be replayed from scratch.
    pub recording: Workload,
}

// ---------------------------------------------------------------------------
// The operations, as functions of the model
// ---------------------------------------------------------------------------

/// The model of a new file system: an empty root directory and nothing else.
pub open spec fn init_model() -> FsModel {
    FsModel {
        dirs: seq![Seq::empty()],
        files: Seq::empty(),
        symlinks: Seq::empty(),
        descriptors: Seq::empty(),
        recording: Seq::empty(),
    }
}

/// `v` with the element at `i` replaced, where there is one.
pub open spec fn update_in<A>(v: Seq<A>, i: int, a: A) -> Seq<A> {
    if 0 <= i < v.len() {
        v.update(i, a)
    } else {
        v
    }
}

/// `s` with directory `p` holding `es`.
pub open spec fn with_dir(s: FsModel, p: int, es: Seq<(Seq<char>, Node)>) -> FsModel {
    FsModel { dirs: update_in(s.dirs, p, es), ..s }
}

/// `s` with `op` appended to the recording.
pub open spec fn record(s: FsModel, op: OpView) -> FsModel {
    FsModel { recording: s.recording.push(op), ..s }
}

/// `remove`: like `unlink` and `rmdir`; the root cannot be removed.
pub open spec fn remove_spec(s: FsModel, path: Seq<char>) -> (FsModel, Result<(), FsErrorView>) {
    if is_root_path(path) {
        (s, Err(FsErrorView::RootRemovalForbidden))
    } else {
        match resolve_dir_spec(s, path_parent(path)) {
            Err(e) => (s, Err(e)),
            Ok((_, p)) => if entries_get(s.dirs[p.0 as int], path_name(path)) is None {
                (s, Err(FsErrorView::NotFound(path)))
            } else {
                (
                    record(
                        with_dir(s, p.0 as int, entries_remove(s.dirs[p.0 as int], path_name(path))),
                        OpView::Remove { path },
                    ),
                    Ok(()),
                )
            },
        }
    }
}

/// `mkdir`: a new empty directory, named in its parent.
pub open spec fn mkdir_spec(s: FsModel, path: Seq<char>, mode: Seq<ModeFlag>) -> (FsModel, Result<DirIndex, FsErrorView>) {
    match resolve_dir_spec(s, path_parent(path)) {
        Err(e) => (s, Err(e)),
        Ok((_, p)) => if entries_get(s.dirs[p.0 as int], path_name(path)) is Some {
            (s, Err(FsErrorView::NameAlreadyExists(path)))
        } else {
            let idx = DirIndex(s.dirs.len() as usize);
            let s1 = FsModel { dirs: s.dirs.push(Seq::empty()), ..s };
            (
                record(
                    with_dir(s1, p.0 as int, entries_insert(s.dirs[p.0 as int], path_name(path), Node::Dir(idx))),
                    OpView::MkDir { path, mode },
                ),
                Ok(idx),
            )
        },
    }
}

/// `create`: a new empty, closed file, named in its parent.
pub open spec fn create_spec(s: FsModel, path: Seq<char>, mode: Seq<ModeFlag>) -> (FsModel, Result<FileIndex, FsErrorView>) {
    match resolve_dir_spec(s, path_parent(path)) {
        Err(e) => (s, Err(e)),
        Ok((_, p)) => if entries_get(s.dirs[p.0 as int], path_name(path)) is Some {
            (s, Err(FsErrorView::NameAlreadyExists(path)))
        } else {
            let idx = FileIndex(s.files.len() as usize);
            let s1 = FsModel {
                files: s.files.push(FileModel { descriptor: None, content: Seq::empty() }),
                ..s
            };
            (
                record(
                    with_dir(s1, p.0 as int, entries_insert(s.dirs[p.0 as int], path_name(path), Node::File(idx))),
                    OpView::Create { path, mode },
                ),
                Ok(idx),
            )
        },
    }
}

/// `hardlink`: a second name for an existing file, like `link`.
pub open spec fn hardlink_spec(s: FsModel, old_path: Seq<char>, new_path: Seq<char>) -> (FsModel, Result<FileIndex, FsErrorView>) {
    match resolve_file_spec(s, old_path) {
        Err(e) => (s, Err(e)),
        Ok((_, f)) => match resolve_dir_spec(s, path_parent(new_path)) {
            Err(e) => (s, Err(e)),
            Ok((_, p)) => if entries_get(s.dirs[p.0 as int], path_name(new_path)) is Some {
                (s, Err(FsErrorView::NameAlreadyExists(new_path)))
            } else {
                (
                    record(
                        with_dir(s, p.0 as int, entries_insert(s.dirs[p.0 as int], path_name(new_path), Node::File(f))),
                        OpView::Hardlink { old_path, new_path },
                    ),
                    Ok(f),
                )
            },
        },
    }
}

/// `symlink`: a new symbolic link to `target`, named `linkpath`.
pub open spec fn symlink_spec(s: FsModel, target: Seq<char>, linkpath: Seq<char>) -> (FsModel, Result<SymlinkIndex, FsErrorView>) {
    match resolve_dir_spec(s, path_parent(linkpath)) {
        Err(e) => (s, Err(e)),
        Ok((_, p)) => if entries_get(s.dirs[p.0 as int], path_name(linkpath)) is Some {
            (s, Err(FsErrorView::NameAlreadyExists(linkpath)))
        } else {
            let idx = SymlinkIndex(s.symlinks.len() as usize);
            let s1 = FsModel { symlinks: s.symlinks.push(target), ..s };
            (
                record(
                    with_dir(s1, p.0 as int, entries_insert(s.dirs[p.0 as int], path_name(linkpath), Node::Symlink(idx))),
                    OpView::Symlink { target, linkpath },
                ),
                Ok(idx),
            )
        },
    }
}

/// Whether renaming onto `new_path` is refused because a non-empty directory is there.
pub open spec fn rename_blocked(s: FsModel, new_path: Seq<char>) -> bool {
    match resolve_dir_spec(s, new_path) {
        Ok((_, d)) => s.dirs[d.0 as int].len() > 0,
        Err(_) => false,
    }
}

/// Whether moving `node` under directory `p`, reached through `dirs`, would
/// put a directory inside itself.
pub open spec fn rename_into_itself(node: Node, dirs: Seq<DirIndex>, p: DirIndex) -> bool {
    match node {
        Node::Dir(o) => dirs.contains(o) || p == o,
        _ => false,
    }
}

/// The state after the new name is bound and before the old one is removed.
pub open spec fn rename_mid(s: FsModel, p: DirIndex, new_path: Seq<char>, node: Node) -> FsModel {
    with_dir(s, p.0 as int, entries_insert(s.dirs[p.0 as int], path_name(new_path), node))
}

/// `rename`: binds the node at `old_path` to `new_path` (replacing what is
/// there, unless it is a non-empty directory) and then unbinds `old_path`.
/// Renaming a path onto itself leaves the tree as it is, as rename(2) does.
pub open spec fn rename_spec(s: FsModel, old_path: Seq<char>, new_path: Seq<char>) -> (FsModel, Result<Node, FsErrorView>) {
    if old_path == new_path {
        match resolve_spec(s, old_path, false, Seq::empty()) {
            Err(e) => (s, Err(e)),
            Ok((_, node)) => (record(s, OpView::Rename { old_path, new_path }), Ok(node)),
        }
    } else if rename_blocked(s, new_path) {
        (s, Err(FsErrorView::DirNotEmpty(new_path)))
    } else {
        match resolve_spec(s, old_path, false, Seq::empty()) {
            Err(e) => (s, Err(e)),
            Ok((_, node)) => match resolve_dir_spec(s, path_parent(new_path)) {
                Err(e) => (s, Err(e)),
                Ok((old_dirs, p)) => if rename_into_itself(node, old_dirs, p) {
                    (s, Err(FsErrorView::RenameToSubdirectoryError(old_path, new_path)))
                } else {
                    let s1 = rename_mid(s, p, new_path, node);
                    match resolve_dir_spec(s1, path_parent(old_path)) {
                        Err(e) => (s1, Err(e)),
                        Ok((_, q)) => (
                            record(
                                with_dir(s1, q.0 as int, entries_remove(s1.dirs[q.0 as int], path_name(old_path))),
                                OpView::Rename { old_path, new_path },
                            ),
                            Ok(node),
                        ),
                    }
                },
            },
        }
    }
}

/// `open`: opens a closed file; the descriptor is the next free index.
pub open spec fn open_spec(s: FsModel, path: Seq<char>) -> (FsModel, Result<FileDescriptorIndex, FsErrorView>) {
    let des = FileDescriptorIndex(s.descriptors.len() as usize);
    match resolve_file_spec(s, path) {
        Err(e) => (s, Err(e)),
        Ok((_, f)) => if s.files[f.0 as int].descriptor is Some {
            (s, Err(FsErrorView::FileAlreadyOpened(path)))
        } else {
            (
                record(
                    FsModel {
                        files: update_in(s.files, f.0 as int, FileModel { descriptor: Some(des), content: s.files[f.0 as int].content }),
                        descriptors: s.descriptors.push(FileDescriptor { file: f, offset: 0 }),
                        ..s
                    },
                    OpView::Open { path, des },
                ),
                Ok(des),
            )
        },
    }
}

/// The error of using descriptor `des`, if it does not exist or is not open.
pub open spec fn descriptor_error(s: FsModel, des: FileDescriptorIndex) -> Option<FsErrorView> {
    if des.0 >= s.descriptors.len() {
        Some(FsErrorView::BadDescriptor(des, s.descriptors.len() as usize))
    } else if s.files[s.descriptors[des.0 as int].file.0 as int].descriptor != Some(des) {
        Some(FsErrorView::DescriptorWasClosed(des))
    } else {
        None
    }
}

/// `close`: the file of the descriptor is no longer open.
pub open spec fn close_spec(s: FsModel, des: FileDescriptorIndex) -> (FsModel, Result<(), FsErrorView>) {
    match descriptor_error(s, des) {
        Some(e) => (s, Err(e)),
        None => {
            let f = s.descriptors[des.0 as int].file.0 as int;
            (
                record(
                    FsModel { files: update_in(s.files, f, FileModel { descriptor: None, content: s.files[f].content }), ..s },
                    OpView::Close { des },
                ),
                Ok(()),
            )
        },
    }
}

/// `read`: up to `size` bytes from the descriptor's position, which advances by what was read.
pub open spec fn read_spec(s: FsModel, des: FileDescriptorIndex, size: u64) -> (FsModel, Result<Seq<SourceSlice>, FsErrorView>) {
    match descriptor_error(s, des) {
        Some(e) => (s, Err(e)),
        None => {
            let d = s.descriptors[des.0 as int];
            let content = s.files[d.file.0 as int].content;
            if d.offset > total(content) {
                (s, Err(FsErrorView::ContentError(ContentError::OffsetOutOfRange)))
            } else {
                let c = read_slices(content, d.offset, size);
                (
                    record(
                        FsModel {
                            descriptors: s.descriptors.update(
                                des.0 as int,
                                FileDescriptor { file: d.file, offset: (d.offset + total(c)) as u64 },
                            ),
                            ..s
                        },
                        OpView::Read { des, size },
                    ),
                    Ok(c),
                )
            }
        },
    }
}

/// `write`: `size` source bytes from `src_offset` at the descriptor's
/// position, which advances by `size`.
pub open spec fn write_spec(s: FsModel, des: FileDescriptorIndex, src_offset: u64, size: u64) -> (FsModel, Result<(), FsErrorView>) {
    match descriptor_error(s, des) {
        Some(e) => (s, Err(e)),
        None => {
            let d = s.descriptors[des.0 as int];
            let f = d.file.0 as int;
            match write_error(s.files[f].content, src_offset, d.offset, size) {
                Some(e) => (s, Err(FsErrorView::ContentError(e))),
                None => (
                    record(
                        FsModel {
                            files: update_in(
                                s.files,
                                f,
                                FileModel {
                                    descriptor: s.files[f].descriptor,
                                    content: write_slices(s.files[f].content, src_offset, d.offset, size),
                                },
                            ),
                            descriptors: s.descriptors.update(
                                des.0 as int,
                                FileDescriptor { file: d.file, offset: (d.offset + size) as u64 },
                            ),
                            ..s
                        },
                        OpView::Write { des, src_offset, size },
                    ),
                    Ok(()),
                ),
            }
        },
    }
}

/// `fsync`: only recorded; the model keeps no separate storage.
pub open spec fn fsync_spec(s: FsModel, des: FileDescriptorIndex) -> (FsModel, Result<(), FsErrorView>) {
    match descriptor_error(s, des) {
        Some(e) => (s, Err(e)),
        None => (record(s, OpView::FSync { des }), Ok(())),
    }
}

/// The result of an operation, without its value.
pub open spec fn unit_result<T>(r: Result<T, FsErrorView>) -> Result<(), FsErrorView> {
    match r {
        Ok(_) => Ok(()),
        Err(e) => Err(e),
    }
}

/// What replaying one operation does. The descriptor recorded with `Open`
/// is not used: the call opens the next free one.
pub open spec fn apply_spec(s: FsModel, op: OpView) -> (FsModel, Result<(), FsErrorView>) {
    match op {
        OpView::MkDir { path, mode } => {
            let r = mkdir_spec(s, path, mode);
            (r.0, unit_result(r.1))
        },
        OpView::Create { path, mode } => {
            let r = create_spec(s, path, mode);
            (r.0, unit_result(r.1))
        },
        OpView::Remove { path } => remove_spec(s, path),
        OpView::Hardlink { old_path, new_path } => {
            let r = hardlink_spec(s, old_path, new_path);
            (r.0, unit_result(r.1))
        },
        OpView::Rename { old_path, new_path } => {
            let r = rename_spec(s, old_path, new_path);
            (r.0, unit_result(r.1))
        },
        OpView::Open { path, .. } => {
            let r = open_spec(s, path);
            (r.0, unit_result(r.1))
        },
        OpView::Close { des } => close_spec(s, des),
        OpView::Read { des, size } => {
            let r = read_spec(s, des, size);
            (r.0, unit_result(r.1))
        },
        OpView::Write { des, src_offset, size } => write_spec(s, des, src_offset, size),
        OpView::FSync { des } => fsync_spec(s, des),
        OpView::Symlink { target, linkpath } => {
            let r = symlink_spec(s, target, linkpath);
            (r.0, unit_result(r.1))
        },
    }
}

/// Replays `ops` in order from `s`, stopping at the first error.
pub open spec fn replay_spec(s: FsModel, ops: Seq<OpView>) -> (FsModel, Result<(), FsErrorView>)
    decreases ops.len(),
{
    if ops.len() == 0 {
        (s, Ok(()))
    } else {
        let (s1, r) = apply_spec(s, ops[0]);
        match r {
            Err(e) => (s1, Err(e)),
            Ok(()) => replay_spec(s1, ops.drop_first()),
        }
    }
}

/// The operation that a successful replay of `op` from `s` records.
pub open spec fn recorded_op(s: FsModel, op: OpView) -> OpView {
    match op {
        OpView::Open { path, .. } => OpView::Open { path, des: FileDescriptorIndex(s.descriptors.len() as usize) },
        _ => op,
    }
}

proof fn lemma_apply_records(s: FsModel, op: OpView)
    requires
        apply_spec(s, op).1 is Ok,
    ensures
        apply_spec(s, op).0.recording == s.recording.push(recorded_op(s, op)),
        apply_spec(s, recorded_op(s, op)) == apply_spec(s, op),
{
}

proof fn lemma_replay_tail(s0: FsModel, w: Seq<OpView>, s: FsModel)
    requires
        replay_spec(s0, w) == (s, Ok::<(), FsErrorView>(())),
    ensures
        s.recording.len() == s0.recording.len() + w.len(),
        s.recording.take(s0.recording.len() as int) == s0.recording,
        replay_spec(s0, s.recording.skip(s0.recording.len() as int)) == (s, Ok::<(), FsErrorView>(())),
    decreases w.len(),
{
    let n = s0.recording.len() as int;
    if w.len() == 0 {
        assert(s.recording.skip(n) =~= Seq::<OpView>::empty());
    } else {
        let (s1, r) = apply_spec(s0, w[0]);
        lemma_apply_records(s0, w[0]);
        lemma_replay_tail(s1, w.drop_first(), s);
        let tail = s.recording.skip(n);
        assert(s.recording.take(n + 1) == s1.recording);
        assert(s.recording.take(n) =~= s1.recording.take(n));
        assert(tail[0] == s1.recording[n]);
        assert(tail.drop_first() =~= s.recording.skip(n + 1));
    }
}

/// Every successful operation is recorded, and the recording can be replayed
/// from scratch: when replaying `w` on a new file system succeeds with state
/// `s`, replaying the recording of `s` on a new file system succeeds with
/// exactly `s` again, and the recording has one entry per operation of `w`.
pub proof fn lemma_replay_recording(w: Seq<OpView>, s: FsModel)
    requires
        replay_spec(init_model(), w) == (s, Ok::<(), FsErrorView>(())),
    ensures
        s.recording.len() == w.len(),
        replay_spec(init_model(), s.recording) == (s, Ok::<(), FsErrorView>(())),
{
    lemma_replay_tail(init_model(), w, s);
    assert(s.recording.skip(0) =~= s.recording);
}

/// Replaying `a + b` is replaying `a` and then, from where it left off,
/// `b`, provided replaying `a` succeeds.
pub proof fn lemma_replay_append(s: FsModel, a: Seq<OpView>, b: Seq<OpView>, s1: FsModel)
    requires
        replay_spec(s, a) == (s1, Ok::<(), FsErrorView>(())),
    ensures
        replay_spec(s, a + b) == replay_spec(s1, b),
    decreases a.len(),
{
    if a.len() == 0 {
        assert(a + b =~= b);
    } else {
        let (t, r) = apply_spec(s, a[0]);
        assert((a + b)[0] == a[0]);
        assert((a + b).drop_first() =~= a.drop_first() + b);
        lemma_replay_append(t, a.drop_first(), b, s1);
    }
}

/// Replaying one operation more: when replaying `a` succeeds with `s1` and
/// `op` succeeds from `s1`, replaying `a` with `op` appended succeeds with
/// the state `op` leaves.
pub proof fn lemma_replay_push(s: FsModel, a: Seq<OpView>, s1: FsModel, op: OpView)
    requires
        replay_spec(s, a) == (s1, Ok::<(), FsErrorView>(())),
        apply_spec(s1, op).1 is Ok,
    ensures
        replay_spec(s, a.push(op)) == (apply_spec(s1, op).0, Ok::<(), FsErrorView>(())),
{
    lemma_replay_append(s, a, seq![op], s1);
    assert(a + seq![op] =~= a.push(op));
    let one = seq![op];
    assert(one[0] == op);
    assert(one.drop_first() =~= Seq::<OpView>::empty());
    let t = apply_spec(s1, op).0;
    assert(replay_spec(t, one.drop_first()) == (t, Ok::<(), FsErrorView>(())));
    assert(apply_spec(s1, op).1 == Ok::<(), FsErrorView>(()));
}

/// Replaying stops at the first operation that fails: when the operations
/// before index `k` succeed, ending in `t`, and the one at `k` fails, the
/// replay ends with the error and the state that failing operation left,
/// and the operations after it are not applied.
pub proof fn lemma_replay_stops(s: FsModel, ops: Seq<OpView>, k: int, t: FsModel)
    requires
        0 <= k < ops.len(),
        replay_spec(s, ops.take(k)) == (t, Ok::<(), FsErrorView>(())),
        apply_spec(t, ops[k]).1 is Err,
    ensures
        replay_spec(s, ops) == apply_spec(t, ops[k]),
{
    lemma_replay_append(s, ops.take(k), ops.skip(k), t);
    assert(ops.take(k) + ops.skip(k) =~= ops);
    assert(ops.skip(k)[0] == ops[k]);
}

/// The state after calling each operation of `calls` in turn from `s`,
/// whether or not each call succeeds.
pub open spec fn calls_spec(s: FsModel, calls: Seq<OpView>) -> FsModel
    decreases calls.len(),
{
    if calls.len() == 0 {
        s
    } else {
        apply_spec(calls_spec(s, calls.drop_last()), calls.last()).0
    }
}

/// Whether each `rename` of `calls` from `s` that fails leaves the state as
/// it was (every other failed call does, see `lemma_failure_changes_nothing`).
pub open spec fn failed_renames_change_nothing(s: FsModel, calls: Seq<OpView>) -> bool {
    forall|i: int|
        #![trigger calls[i]]
        0 <= i < calls.len() ==> (calls[i] is Rename && apply_spec(calls_spec(s, calls.take(i)), calls[i]).1 is Err ==> apply_spec(
            calls_spec(s, calls.take(i)),
            calls[i],
        ).0 == calls_spec(s, calls.take(i)))
}

/// A failed call leaves the state as it was, for every operation but
/// `rename` (which binds the new name before it looks up the old parent).
pub proof fn lemma_failure_changes_nothing(s: FsModel, op: OpView)
    requires
        !(op is Rename),
        apply_spec(s, op).1 is Err,
    ensures
        apply_spec(s, op).0 == s,
{
}

/// The recording reproduces the state: after any sequence of calls on a new
/// file system (failed ones included, where a failed `rename` changes nothing),
/// replaying the recording on a new file system succeeds with exactly the
/// same state.
pub proof fn lemma_replay_reached(calls: Seq<OpView>)
    requires
        failed_renames_change_nothing(init_model(), calls),
    ensures
        replay_spec(init_model(), calls_spec(init_model(), calls).recording) == (
            calls_spec(init_model(), calls),
            Ok::<(), FsErrorView>(()),
        ),
    decreases calls.len(),
{
    if calls.len() == 0 {
        assert(init_model().recording =~= Seq::<OpView>::empty());
    } else {
        let n = calls.len() - 1;
        let pre = calls.drop_last();
        assert forall|i: int| 0 <= i < pre.len() implies (#[trigger] pre[i] is Rename && apply_spec(calls_spec(init_model(), pre.take(i)), pre[i]).1 is Err
            ==> apply_spec(calls_spec(init_model(), pre.take(i)), pre[i]).0 == calls_spec(init_model(), pre.take(i))) by {
            assert(pre.take(i) =~= calls.take(i));
            assert(pre[i] == calls[i]);
        }
        lemma_replay_reached(pre);
        let t = calls_spec(init_model(), pre);
        let op = calls.last();
        assert(calls.take(n) =~= pre);
        assert(calls[n] == op);
        if apply_spec(t, op).1 is Err && !(op is Rename) {
            lemma_failure_changes_nothing(t, op);
        }
        if apply_spec(t, op).1 is Ok {
            lemma_apply_records(t, op);
            lemma_replay_push(init_model(), t.recording, t, recorded_op(t, op));
        }
    }
}

/// The root exists and every directory entry names an existing node.
pub open spec fn entries_ok(s: FsModel) -> bool {
    &&& s.dirs.len() >= 1
    &&& forall|d: int, k: int|
        0 <= d < s.dirs.len() && 0 <= k < s.dirs[d].len() ==> node_ok(s, (#[trigger] s.dirs[d][k]).1)
}

proof fn lemma_entry_node_ok(s: FsModel, d: int, name: Seq<char>)
    requires
        entries_ok(s),
        0 <= d < s.dirs.len(),
    ensures
        entries_get(s.dirs[d], name) matches Some(n) ==> node_ok(s, n),
{
    lemma_entries_get_mem(s.dirs[d], name);
    if let Some(n) = entries_get(s.dirs[d], name) {
        let j = choose|j: int| 0 <= j < s.dirs[d].len() && (#[trigger] s.dirs[d][j]).1 == n;
        assert(node_ok(s, s.dirs[d][j].1));
    }
}

proof fn lemma_walk_node_ok(
    s: FsModel,
    segs: Seq<Seq<char>>,
    i: int,
    dirs: Seq<DirIndex>,
    last: Node,
    cur: Seq<char>,
    fuel: nat,
)
    requires
        entries_ok(s),
        node_ok(s, last),
    ensures
        walk_f(s, segs, i, dirs, last, cur, fuel) matches Ok((_, n, _)) ==> node_ok(s, n),
    decreases fuel, 0nat, segs.len() - i,
{
    if 0 <= i < segs.len() {
        let cur2 = cur.push('/') + segs[i];
        match last {
            Node::Dir(idx) => {
                lemma_entry_node_ok(s, idx.0 as int, segs[i]);
                if let Some(n) = entries_get(s.dirs[idx.0 as int], segs[i]) {
                    lemma_walk_node_ok(s, segs, i + 1, dirs.push(idx), n, cur2, fuel);
                }
            },
            Node::Symlink(idx) => {
                if fuel > 0 {
                    let tgt = s.symlinks[idx.0 as int];
                    lemma_resolve_node_ok(s, tgt, true, Seq::empty(), (fuel - 1) as nat);
                    if let Ok((rd, Node::Dir(d))) = resolve_f(s, tgt, true, Seq::empty(), (fuel - 1) as nat) {
                        lemma_entry_node_ok(s, d.0 as int, segs[i]);
                        if let Some(n) = entries_get(s.dirs[d.0 as int], segs[i]) {
                            lemma_walk_node_ok(s, segs, i + 1, dirs + rd.push(d), n, cur2, fuel);
                        }
                    }
                }
            },
            Node::File(_) => {},
        }
    }
}

/// Resolution ends at an existing node.
pub proof fn lemma_resolve_node_ok(s: FsModel, path: Seq<char>, follow: bool, visited: Seq<SymlinkIndex>, fuel: nat)
    requires
        entries_ok(s),
    ensures
        resolve_f(s, path, follow, visited, fuel) matches Ok((_, n)) ==> node_ok(s, n),
    decreases fuel, 1nat, 0int,
{
    if is_valid_path(path) {
        lemma_walk_node_ok(s, path_segments(path), 0, Seq::empty(), Node::Dir(DirIndex(0)), Seq::empty(), fuel);
        if let Ok((dirs, Node::Symlink(idx), cur)) = walk_f(
            s,
            path_segments(path),
            0,
            Seq::empty(),
            Node::Dir(DirIndex(0)),
            Seq::empty(),
            fuel,
        ) {
            if follow && !visited.contains(idx) && fuel > 0 {
                lemma_resolve_node_ok(s, s.symlinks[idx.0 as int], follow, visited.push(idx), (fuel - 1) as nat);
            }
        }
    }
}

/// A successful rename between two different paths moves the name. With
/// `p` the directory that `new_path`'s parent names and `q` the directory
/// that `old_path`'s parent names once the new name is bound: `q` no longer
/// has `old_path`'s name; `p` has `new_path`'s name bound to the renamed node
/// (the node that `old_path` named), unless that very entry is the one
/// unbound; and no other directory changes.
pub proof fn lemma_rename_moves(s: FsModel, old_path: Seq<char>, new_path: Seq<char>)
    requires
        fs_wf(s),
        old_path != new_path,
        rename_spec(s, old_path, new_path).1 is Ok,
    ensures
        ({
            let t = rename_spec(s, old_path, new_path).0;
            let node = rename_spec(s, old_path, new_path).1->Ok_0;
            let p = resolve_dir_spec(s, path_parent(new_path))->Ok_0.1;
            let q = resolve_dir_spec(rename_mid(s, p, new_path, node), path_parent(old_path))->Ok_0.1;
            &&& resolve_spec(s, old_path, false, Seq::empty()) matches Ok((_, n)) && n == node
            &&& p.0 < s.dirs.len() && q.0 < s.dirs.len()
            &&& t.dirs.len() == s.dirs.len()
            &&& entries_get(t.dirs[q.0 as int], path_name(old_path)) is None
            &&& (p != q || path_name(new_path) != path_name(old_path)) ==> entries_get(
                t.dirs[p.0 as int],
                path_name(new_path),
            ) == Some(node)
            &&& forall|d: int| 0 <= d < s.dirs.len() && d != p.0 && d != q.0 ==> t.dirs[d] == s.dirs[d]
        }),
{
    let node = resolve_spec(s, old_path, false, Seq::empty())->Ok_0.1;
    let p = resolve_dir_spec(s, path_parent(new_path))->Ok_0.1;
    lemma_resolve_node_ok(s, old_path, false, Seq::empty(), loop_bound(s));
    lemma_resolve_node_ok(s, path_parent(new_path), true, Seq::empty(), loop_bound(s));
    let s1 = rename_mid(s, p, new_path, node);
    let es1 = entries_insert(s.dirs[p.0 as int], path_name(new_path), node);
    assert(s1.dirs == s.dirs.update(p.0 as int, es1));
    lemma_entries_insert_mem(s.dirs[p.0 as int], path_name(new_path), node);
    assert(entries_ok(s1)) by {
        assert forall|d: int, k: int| 0 <= d < s1.dirs.len() && 0 <= k < s1.dirs[d].len() implies node_ok(
            s1,
            (#[trigger] s1.dirs[d][k]).1,
        ) by {
            if d == p.0 {
                if es1[k].1 != node {
                    let j = choose|j: int| 0 <= j < s.dirs[d].len() && (#[trigger] s.dirs[d][j]).1 == es1[k].1;
                    assert(node_ok(s, s.dirs[d][j].1));
                }
            } else {
                assert(s1.dirs[d] == s.dirs[d]);
                assert(node_ok(s, s.dirs[d][k].1));
            }
        }
    }
    lemma_resolve_node_ok(s1, path_parent(old_path), true, Seq::empty(), loop_bound(s1));
    let q = resolve_dir_spec(s1, path_parent(old_path))->Ok_0.1;
    assert(names_distinct(s1.dirs[q.0 as int])) by {
        if q == p {
            lemma_insert_keeps_names_distinct(s.dirs[p.0 as int], path_name(new_path), node);
        }
    }
    lemma_get_remove(s1.dirs[q.0 as int], path_name(old_path), path_name(old_path));
    lemma_get_insert(s.dirs[p.0 as int], path_name(new_path), node, path_name(new_path));
    if p == q {
        lemma_get_remove(s1.dirs[q.0 as int], path_name(old_path), path_name(new_path));
    }
}

/// Removed nodes stay in the tables, so indices never change: no operation
/// shrinks a table of nodes or of descriptors, and a symbolic link never
/// changes its target.
pub proof fn lemma_tables_only_grow(s: FsModel, op: OpView)
    ensures
        s.dirs.len() <= apply_spec(s, op).0.dirs.len(),
        s.files.len() <= apply_spec(s, op).0.files.len(),
        s.descriptors.len() <= apply_spec(s, op).0.descriptors.len(),
        s.symlinks.is_prefix_of(apply_spec(s, op).0.symlinks),
{
    assert(s.symlinks.is_prefix_of(s.symlinks));
    if let OpView::Symlink { target, linkpath } = op {
        assert(s.symlinks.is_prefix_of(s.symlinks.push(target)));
    }
}

impl View for AbstractFS {
    type V = FsModel;

    open spec fn view(&self) -> FsModel {
        FsModel {
            dirs: self.dirs@.map_values(|d: Dir| d@),
            files: self.files@.map_values(|f: File| f@),
            symlinks: self.symlinks@.map_values(|l: Symlink| l.target@),
            descriptors: self.descriptors@,
            recording: self.recording@,
        }
    }
}

fn vec_contains_symlink(v: &Vec<SymlinkIndex>, x: SymlinkIndex) -> (r: bool)
    ensures
        r == v@.contains(x),
{
    let mut i: usize = 0;
    while i < v.len()
        invariant
            i <= v@.len(),
            forall|k: int| 0 <= k < i ==> v@[k] != x,
        decreases v@.len() - i,
    {
        if v[i] == x {
            assert(v@[i as int] == x);
            return true;
        }
        i = i + 1;
    }
    false
}

fn append_dirs(a: &mut Vec<DirIndex>, b: Vec<DirIndex>)
    ensures
        final(a)@ == old(a)@ + b@,
{
    let mut i: usize = 0;
    while i < b.len()
        invariant
            i <= b@.len(),
            a@ == old(a)@ + b@.take(i as int),
        decreases b@.len() - i,
    {
        a.push(b[i]);
        i = i + 1;
        assert(a@ =~= old(a)@ + b@.take(i as int));
    }
    assert(b@.take(b@.len() as int) =~= b@);
}

impl AbstractFS {
    /// The invariant of the model holds.
    pub open spec fn wf(&self) -> bool {
        fs_wf(self@)
    }

    /// The index of the root directory.
    pub fn root_index() -> (r: DirIndex)
        ensures
            r == DirIndex(0),
    {
        DirIndex(0)
    }

    /// A new file system: an empty root directory.
    pub fn new() -> (r: AbstractFS)
        ensures
            r@ == init_model(),
            r.wf(),
    {
        let mut dirs: Vec<Dir> = Vec::new();
        dirs.push(Dir::new());
        let r = AbstractFS {
            dirs,
            files: Vec::new(),
            symlinks: Vec::new(),
            descriptors: Vec::new(),
            recording: Workload::new(),
        };
        assert(r@.dirs =~= seq![Seq::<(Seq<char>, Node)>::empty()]);
        assert(r@.files =~= Seq::<FileModel>::empty());
        assert(r@.symlinks =~= Seq::<Seq<char>>::empty());
        r
    }

    /// Resolves `path`, refusing to follow the links of `visited` again.
    pub fn resolve_node_rec(&self, path: PathName, follow: bool, visited: Vec<SymlinkIndex>) -> (r: Result<(Vec<DirIndex>, Node), FsError>)
        requires
            self.wf(),
        ensures
            resolved_view(r) == resolve_spec(self@, path@, follow, visited@),
            r matches Ok((_, n)) ==> node_ok(self@, n),
    {
        self.resolve_fuel_rec(&path, follow, visited, self.symlinks.len())
    }

    /// Resolves `path` to the directories passed on the way and the node it names.
    pub fn resolve_node(&self, path: PathName, follow_symlinks: bool) -> (r: Result<(Vec<DirIndex>, Node), FsError>)
        requires
            self.wf(),
        ensures
            resolved_view(r) == resolve_spec(self@, path@, follow_symlinks, Seq::empty()),
            r matches Ok((_, n)) ==> node_ok(self@, n),
    {
        let v: Vec<SymlinkIndex> = Vec::new();
        assert(v@ =~= Seq::<SymlinkIndex>::empty());
        self.resolve_node_rec(path, follow_symlinks, v)
    }

    /// Resolves `path` to a directory.
    pub fn resolve_dir(&self, path: PathName) -> (r: Result<(Vec<DirIndex>, DirIndex), FsError>)
        requires
            self.wf(),
        ensures
            resolved_dir_view(r) == resolve_dir_spec(self@, path@),
            r matches Ok((_, d)) ==> d.0 < self@.dirs.len(),
    {
        match self.resolve_node(path.clone(), true) {
            Err(e) => Err(e),
            Ok((dirs, n)) => match n {
                Node::Dir(d) => Ok((dirs, d)),
                _ => Err(FsError::NotADir(path)),
            },
        }
    }

    /// Resolves `path` to a file.
    pub fn resolve_file(&self, path: PathName) -> (r: Result<(Vec<DirIndex>, FileIndex), FsError>)
        requires
            self.wf(),
        ensures
            resolved_file_view(r) == resolve_file_spec(self@, path@),
            r matches Ok((_, f)) ==> f.0 < self@.files.len(),
    {
        match self.resolve_node(path.clone(), true) {
            Err(e) => Err(e),
            Ok((dirs, n)) => match n {
                Node::File(f) => Ok((dirs, f)),
                _ => Err(FsError::NotAFile(path)),
            },
        }
    }

    /// Whether directory `idx` has an entry `name`.
    fn name_exists(&self, idx: DirIndex, name: &str) -> (r: bool)
        requires
            idx.0 < self@.dirs.len(),
        ensures
            r == (entries_get(self@.dirs[idx.0 as int], name@) is Some),
    {
        self.dirs[idx.0].get(name).is_some()
    }

    /// Replaces the entries of directory `p`.
    fn set_dir(&mut self, p: usize, d: Dir)
        requires
            p < old(self)@.dirs.len(),
        ensures
            final(self)@ == with_dir(old(self)@, p as int, d@),
    {
        self.dirs.set(p, d);
        assert(self@.dirs =~= old(self)@.dirs.update(p as int, d@));
    }

    /// Appends to the recording.
    fn record_op(&mut self, op: Operation)
        ensures
            final(self)@ == record(old(self)@, op@),
    {
        self.recording.push(op);
    }

    /// Removes a node, similar to `unlink` (for files) and `rmdir` (for dirs).
    pub fn remove(&mut self, path: PathName) -> (r: Result<(), FsError>)
        requires
            old(self).wf(),
        ensures
            final(self).wf(),
            final(self)@ == remove_spec(old(self)@, path@).0,
            (match r { Ok(()) => Ok(()), Err(e) => Err(e@) }) == remove_spec(old(self)@, path@).1,
    {
        if path.is_root() {
            return Err(FsError::RootRemovalForbidden);
        }
        let (parent_path, name) = path.split();
        let (_, parent_idx) = match self.resolve_dir(parent_path) {
            Ok(x) => x,
            Err(e) => {
                return Err(e);
            },
        };
        let mut parent = self.dirs[parent_idx.0].clone();
        if !parent.remove(name.as_str()) {
            return Err(FsError::NotFound(path));
        }
        proof {
            lemma_entries_remove_mem(self@.dirs[parent_idx.0 as int], name@);
        }
        let ghost s0 = self@;
        self.set_dir(parent_idx.0, parent);
        proof {
            let s = self@;
            assert forall|d: int, k: int| 0 <= d < s.dirs.len() && 0 <= k < s.dirs[d].len() implies node_ok(s, (#[trigger] s.dirs[d][k]).1) by {
                if d == parent_idx.0 {
                    let j = choose|j: int| 0 <= j < s0.dirs[d].len() && (#[trigger] s0.dirs[d][j]).1 == s.dirs[d][k].1;
                }
            }
        }
        self.record_op(Operation::Remove { path });
        Ok(())
    }

    /// Creates an empty directory, similar to `mkdir`.
    pub fn mkdir(&mut self, path: PathName, mode: Mode) -> (r: Result<DirIndex, FsError>)
        requires
            old(self).wf(),
        ensures
            final(self).wf(),
            final(self)@ == mkdir_spec(old(self)@, path@, mode@).0,
            (match r { Ok(x) => Ok(x), Err(e) => Err(e@) }) == mkdir_spec(old(self)@, path@, mode@).1,
    {
        let (parent_path, name) = path.split();
        let (_, parent) = match self.resolve_dir(parent_path) {
            Ok(x) => x,
            Err(e) => {
                return Err(e);
            },
        };
        if self.name_exists(parent, name.as_str()) {
            return Err(FsError::NameAlreadyExists(path));
        }
        let ghost s0 = self@;
        let dir_idx = DirIndex(self.dirs.len());
        self.dirs.push(Dir::new());
        assert(self@.dirs =~= s0.dirs.push(Seq::empty()));
        let mut d = self.dirs[parent.0].clone();
        d.insert(name.as_str(), Node::Dir(dir_idx));
        proof {
            lemma_entries_insert_mem(s0.dirs[parent.0 as int], name@, Node::Dir(dir_idx));
        }
        self.set_dir(parent.0, d);
        proof {
            let s = self@;
            assert forall|dd: int, k: int| 0 <= dd < s.dirs.len() && 0 <= k < s.dirs[dd].len() implies node_ok(s, (#[trigger] s.dirs[dd][k]).1) by {
                if dd == parent.0 {
                    if s.dirs[dd][k].1 != Node::Dir(dir_idx) {
                        let j = choose|j: int| 0 <= j < s0.dirs[dd].len() && (#[trigger] s0.dirs[dd][j]).1 == s.dirs[dd][k].1;
                    }
                } else if dd < s0.dirs.len() {
                    assert(s.dirs[dd][k] == s0.dirs[dd][k]);
                }
            }
            assert forall|k: int| 0 <= k < s.descriptors.len() implies {
                &&& (#[trigger] s.descriptors[k]).file.0 < s.files.len()
                &&& s.descriptors[k].offset <= total(s.files[s.descriptors[k].file.0 as int].content)
            } by {
                assert(s0.descriptors[k] == s.descriptors[k]);
            }
        }
        self.record_op(Operation::MkDir { path, mode });
        Ok(dir_idx)
    }

    /// Creates an empty file, similar to `creat` but without an open descriptor.
    pub fn create(&mut self, path: PathName, mode: Mode) -> (r: Result<FileIndex, FsError>)
        requires
            old(self).wf(),
        ensures
            final(self).wf(),
            final(self)@ == create_spec(old(self)@, path@, mode@).0,
            (match r { Ok(x) => Ok(x), Err(e) => Err(e@) }) == create_spec(old(self)@, path@, mode@).1,
    {
        let (parent_path, name) = path.split();
        let (_, parent) = match self.resolve_dir(parent_path) {
            Ok(x) => x,
            Err(e) => {
                return Err(e);
            },
        };
        if self.name_exists(parent, name.as_str()) {
            return Err(FsError::NameAlreadyExists(path));
        }
        let ghost s0 = self@;
        let file_idx = FileIndex(self.files.len());
        self.files.push(File { descriptor: None, content: Content::new() });
        assert(self@.files =~= s0.files.push(FileModel { descriptor: None, content: Seq::empty() }));
        let mut d = self.dirs[parent.0].clone();
        d.insert(name.as_str(), Node::File(file_idx));
        proof {
            lemma_entries_insert_mem(s0.dirs[parent.0 as int], name@, Node::File(file_idx));
        }
        self.set_dir(parent.0, d);
        proof {
            let s = self@;
            assert forall|dd: int, k: int| 0 <= dd < s.dirs.len() && 0 <= k < s.dirs[dd].len() implies node_ok(s, (#[trigger] s.dirs[dd][k]).1) by {
                if dd == parent.0 {
                    if s.dirs[dd][k].1 != Node::File(file_idx) {
                        let j = choose|j: int| 0 <= j < s0.dirs[dd].len() && (#[trigger] s0.dirs[dd][j]).1 == s.dirs[dd][k].1;
                    }
                } else {
                    assert(s.dirs[dd][k] == s0.dirs[dd][k]);
                }
            }
            assert forall|k: int| 0 <= k < s.descriptors.len() implies {
                &&& (#[trigger] s.descriptors[k]).file.0 < s.files.len()
                &&& s.descriptors[k].offset <= total(s.files[s.descriptors[k].file.0 as int].content)
            } by {
                assert(s0.descriptors[k] == s.descriptors[k]);
                assert(s.files[s.descriptors[k].file.0 as int] == s0.files[s.descriptors[k].file.0 as int]);
            }
            assert forall|f: int| 0 <= f < s.files.len() implies {
                &&& slices_wf((#[trigger] s.files[f]).content)
                &&& total(s.files[f].content) <= u64::MAX
            } by {
                if f < s0.files.len() {
                    assert(s.files[f] == s0.files[f]);
                }
            }
        }
        self.record_op(Operation::Create { path, mode });
        Ok(file_idx)
    }

    /// Creates a "hard" link from one file to another, similar to `link`: both
    /// names refer to the same node.
    pub fn hardlink(&mut self, old_path: PathName, new_path: PathName) -> (r: Result<FileIndex, FsError>)
        requires
            old(self).wf(),
        ensures
            final(self).wf(),
            final(self)@ == hardlink_spec(old(self)@, old_path@, new_path@).0,
            (match r { Ok(x) => Ok(x), Err(e) => Err(e@) }) == hardlink_spec(old(self)@, old_path@, new_path@).1,
    {
        let (_, old_file) = match self.resolve_file(old_path.clone()) {
            Ok(x) => x,
            Err(e) => {
                return Err(e);
            },
        };
        let (parent_path, name) = new_path.split();
        let (_, parent) = match self.resolve_dir(parent_path) {
            Ok(x) => x,
            Err(e) => {
                return Err(e);
            },
        };
        if self.name_exists(parent, name.as_str()) {
            return Err(FsError::NameAlreadyExists(new_path));
        }
        let ghost s0 = self@;
        let mut d = self.dirs[parent.0].clone();
        d.insert(name.as_str(), Node::File(old_file));
        proof {
            lemma_entries_insert_mem(s0.dirs[parent.0 as int], name@, Node::File(old_file));
        }
        self.set_dir(parent.0, d);
        proof {
            let s = self@;
            assert forall|dd: int, k: int| 0 <= dd < s.dirs.len() && 0 <= k < s.dirs[dd].len() implies node_ok(s, (#[trigger] s.dirs[dd][k]).1) by {
                if dd == parent.0 {
                    if s.dirs[dd][k].1 != Node::File(old_file) {
                        let j = choose|j: int| 0 <= j < s0.dirs[dd].len() && (#[trigger] s0.dirs[dd][j]).1 == s.dirs[dd][k].1;
                    }
                } else {
                    assert(s.dirs[dd][k] == s0.dirs[dd][k]);
                }
            }
        }
        self.record_op(Operation::Hardlink { old_path, new_path });
        Ok(old_file)
    }

    /// Creates a symbolic link named `linkpath` that points to `target`.
    pub fn symlink(&mut self, target: PathName, linkpath: PathName) -> (r: Result<SymlinkIndex, FsError>)
        requires
            old(self).wf(),
        ensures
            final(self).wf(),
            final(self)@ == symlink_spec(old(self)@, target@, linkpath@).0,
            (match r { Ok(x) => Ok(x), Err(e) => Err(e@) }) == symlink_spec(old(self)@, target@, linkpath@).1,
    {
        let (parent_path, name) = linkpath.split();
        let (_, parent) = match self.resolve_dir(parent_path) {
            Ok(x) => x,
            Err(e) => {
                return Err(e);
            },
        };
        if self.name_exists(parent, name.as_str()) {
            return Err(FsError::NameAlreadyExists(linkpath));
        }
        let ghost s0 = self@;
        let sym_idx = SymlinkIndex(self.symlinks.len());
        self.symlinks.push(Symlink { target: target.clone() });
        assert(self@.symlinks =~= s0.symlinks.push(target@));
        let mut d = self.dirs[parent.0].clone();
        d.insert(name.as_str(), Node::Symlink(sym_idx));
        proof {
            lemma_entries_insert_mem(s0.dirs[parent.0 as int], name@, Node::Symlink(sym_idx));
        }
        self.set_dir(parent.0, d);
        proof {
            let s = self@;
            assert forall|dd: int, k: int| 0 <= dd < s.dirs.len() && 0 <= k < s.dirs[dd].len() implies node_ok(s, (#[trigger] s.dirs[dd][k]).1) by {
                if dd == parent.0 {
                    if s.dirs[dd][k].1 != Node::Symlink(sym_idx) {
                        let j = choose|j: int| 0 <= j < s0.dirs[dd].len() && (#[trigger] s0.dirs[dd][j]).1 == s.dirs[dd][k].1;
                    }
                } else {
                    assert(s.dirs[dd][k] == s0.dirs[dd][k]);
                }
            }
        }
        self.record_op(Operation::Symlink { target, linkpath });
        Ok(sym_idx)
    }

    /// Replaces file `f`.
    fn set_file(&mut self, f: usize, file: File)
        requires
            f < old(self)@.files.len(),
        ensures
            final(self)@ == (FsModel { files: old(self)@.files.update(f as int, file@), ..old(self)@ }),
    {
        self.files.set(f, file);
        assert(self@.files =~= old(self)@.files.update(f as int, file@));
    }

    /// Renames a node, moving it between directories if required, similar to `rename`.
    pub fn rename(&mut self, old_path: PathName, new_path: PathName) -> (r: Result<Node, FsError>)
        requires
            old(self).wf(),
        ensures
            final(self).wf(),
            final(self)@ == rename_spec(old(self)@, old_path@, new_path@).0,
            (match r { Ok(x) => Ok(x), Err(e) => Err(e@) }) == rename_spec(old(self)@, old_path@, new_path@).1,
    {
        if crate::text::str_eq(old_path.as_str(), new_path.as_str()) {
            let (_, node) = match self.resolve_node(old_path.clone(), false) {
                Ok(x) => x,
                Err(e) => {
                    return Err(e);
                },
            };
            self.record_op(Operation::Rename { old_path, new_path });
            return Ok(node);
        }
        let blocked = match self.resolve_dir(new_path.clone()) {
            Ok((_, dir_idx)) => !self.dirs[dir_idx.0].is_empty(),
            Err(_) => false,
        };
        if blocked {
            return Err(FsError::DirNotEmpty(new_path));
        }
        let (_, node) = match self.resolve_node(old_path.clone(), false) {
            Ok(x) => x,
            Err(e) => {
                return Err(e);
            },
        };
        let (parent_path, name) = new_path.split();
        let (old_dirs, parent) = match self.resolve_dir(parent_path) {
            Ok(x) => x,
            Err(e) => {
                return Err(e);
            },
        };
        if let Node::Dir(old_idx) = node {
            let mut inside = false;
            let mut i: usize = 0;
            while i < old_dirs.len()
                invariant
                    i <= old_dirs@.len(),
                    inside == (exists|k: int| 0 <= k < i && #[trigger] old_dirs@[k] == old_idx),
                decreases old_dirs@.len() - i,
            {
                if old_dirs[i] == old_idx {
                    inside = true;
                }
                i = i + 1;
            }
            if inside || parent == old_idx {
                return Err(FsError::RenameToSubdirectoryError(old_path, new_path));
            }
        }
        let ghost s0 = self@;
        let mut d = self.dirs[parent.0].clone();
        d.insert(name.as_str(), node);
        proof {
            lemma_entries_insert_mem(s0.dirs[parent.0 as int], name@, node);
        }
        self.set_dir(parent.0, d);
        proof {
            let s = self@;
            assert forall|dd: int, k: int| 0 <= dd < s.dirs.len() && 0 <= k < s.dirs[dd].len() implies node_ok(s, (#[trigger] s.dirs[dd][k]).1) by {
                if dd == parent.0 {
                    if s.dirs[dd][k].1 != node {
                        let j = choose|j: int| 0 <= j < s0.dirs[dd].len() && (#[trigger] s0.dirs[dd][j]).1 == s.dirs[dd][k].1;
                    }
                } else {
                    assert(s.dirs[dd][k] == s0.dirs[dd][k]);
                }
            }
        }
        let (old_parent_path, old_name) = old_path.split();
        let (_, old_parent) = match self.resolve_dir(old_parent_path) {
            Ok(x) => x,
            Err(e) => {
                return Err(e);
            },
        };
        let ghost s1 = self@;
        let mut d2 = self.dirs[old_parent.0].clone();
        d2.remove(old_name.as_str());
        proof {
            lemma_entries_remove_mem(s1.dirs[old_parent.0 as int], old_name@);
        }
        self.set_dir(old_parent.0, d2);
        proof {
            let s = self@;
            assert forall|dd: int, k: int| 0 <= dd < s.dirs.len() && 0 <= k < s.dirs[dd].len() implies node_ok(s, (#[trigger] s.dirs[dd][k]).1) by {
                if dd == old_parent.0 {
                    let j = choose|j: int| 0 <= j < s1.dirs[dd].len() && (#[trigger] s1.dirs[dd][j]).1 == s.dirs[dd][k].1;
                } else {
                    assert(s.dirs[dd][k] == s1.dirs[dd][k]);
                }
            }
        }
        self.record_op(Operation::Rename { old_path, new_path });
        Ok(node)
    }

    /// The descriptor `idx`, if it exists.
    fn descriptor(&self, idx: FileDescriptorIndex) -> (r: Result<FileDescriptor, FsError>)
        ensures
            idx.0 < self@.descriptors.len() ==> r == Ok::<FileDescriptor, FsError>(self@.descriptors[idx.0 as int]),
            idx.0 >= self@.descriptors.len() ==> r == Err::<FileDescriptor, FsError>(FsError::BadDescriptor(idx, self@.descriptors.len() as usize)),
    {
        if idx.0 < self.descriptors.len() {
            Ok(self.descriptors[idx.0])
        } else {
            Err(FsError::BadDescriptor(idx, self.descriptors.len()))
        }
    }

    /// The descriptor `idx`, checked to exist and to be open.
    fn open_descriptor(&self, idx: FileDescriptorIndex) -> (r: Result<FileDescriptor, FsError>)
        requires
            self.wf(),
        ensures
            descriptor_error(self@, idx) matches Some(e) ==> r matches Err(x) && x@ == e,
            descriptor_error(self@, idx) is None ==> r == Ok::<FileDescriptor, FsError>(self@.descriptors[idx.0 as int]),
    {
        let des = match self.descriptor(idx) {
            Ok(d) => d,
            Err(e) => {
                return Err(e);
            },
        };
        if self.files[des.file.0].descriptor != Some(idx) {
            return Err(FsError::DescriptorWasClosed(idx));
        }
        Ok(des)
    }

    /// Opens a file and returns its descriptor, similar to `open`.
    pub fn open(&mut self, path: PathName) -> (r: Result<FileDescriptorIndex, FsError>)
        requires
            old(self).wf(),
        ensures
            final(self).wf(),
            final(self)@ == open_spec(old(self)@, path@).0,
            (match r { Ok(x) => Ok(x), Err(e) => Err(e@) }) == open_spec(old(self)@, path@).1,
    {
        let des = FileDescriptorIndex(self.descriptors.len());
        let (_, file_idx) = match self.resolve_file(path.clone()) {
            Ok(x) => x,
            Err(e) => {
                return Err(e);
            },
        };
        if self.files[file_idx.0].descriptor.is_some() {
            return Err(FsError::FileAlreadyOpened(path));
        }
        let ghost s0 = self@;
        let file = File { descriptor: Some(des), content: self.files[file_idx.0].content.clone() };
        self.set_file(file_idx.0, file);
        self.descriptors.push(FileDescriptor { file: file_idx, offset: 0 });
        proof {
            let s = self@;
            assert forall|k: int| 0 <= k < s.descriptors.len() implies {
                &&& (#[trigger] s.descriptors[k]).file.0 < s.files.len()
                &&& s.descriptors[k].offset <= total(s.files[s.descriptors[k].file.0 as int].content)
            } by {
                if k < s0.descriptors.len() {
                    assert(s.descriptors[k] == s0.descriptors[k]);
                }
            }
        }
        self.record_op(Operation::Open { path, des });
        Ok(des)
    }

    /// Closes a file using its descriptor, similar to `close`.
    pub fn close(&mut self, des_idx: FileDescriptorIndex) -> (r: Result<(), FsError>)
        requires
            old(self).wf(),
        ensures
            final(self).wf(),
            final(self)@ == close_spec(old(self)@, des_idx).0,
            (match r { Ok(x) => Ok(x), Err(e) => Err(e@) }) == close_spec(old(self)@, des_idx).1,
    {
        let des = match self.open_descriptor(des_idx) {
            Ok(d) => d,
            Err(e) => {
                return Err(e);
            },
        };
        let file = File { descriptor: None, content: self.files[des.file.0].content.clone() };
        self.set_file(des.file.0, file);
        self.record_op(Operation::Close { des: des_idx });
        Ok(())
    }

    /// Reads up to `size` bytes using the descriptor, similar to `read`; the
    /// read position is kept by the descriptor.
    pub fn read(&mut self, des_idx: FileDescriptorIndex, size: u64) -> (r: Result<Content, FsError>)
        requires
            old(self).wf(),
        ensures
            final(self).wf(),
            final(self)@ == read_spec(old(self)@, des_idx, size).0,
            (match r { Ok(x) => Ok(x@), Err(e) => Err(e@) }) == read_spec(old(self)@, des_idx, size).1,
    {
        let des = match self.open_descriptor(des_idx) {
            Ok(d) => d,
            Err(e) => {
                return Err(e);
            },
        };
        let offset = des.offset;
        let content = match self.files[des.file.0].content.read(offset, size) {
            Ok(c) => c,
            Err(e) => {
                return Err(FsError::ContentError(e));
            },
        };
        proof {
            lemma_read_total(self@.files[des.file.0 as int].content, offset, size);
        }
        let read_size = content.size();
        let ghost s0 = self@;
        self.descriptors.set(des_idx.0, FileDescriptor { file: des.file, offset: offset + read_size });
        proof {
            let s = self@;
            assert forall|k: int| 0 <= k < s.descriptors.len() implies {
                &&& (#[trigger] s.descriptors[k]).file.0 < s.files.len()
                &&& s.descriptors[k].offset <= total(s.files[s.descriptors[k].file.0 as int].content)
            } by {
                if k != des_idx.0 {
                    assert(s.descriptors[k] == s0.descriptors[k]);
                }
            }
        }
        self.record_op(Operation::Read { des: des_idx, size });
        Ok(content)
    }

    /// Writes `size` source bytes from `src_offset` using the descriptor,
    /// similar to `write`; the write position is kept by the descriptor.
    pub fn write(&mut self, des_idx: FileDescriptorIndex, src_offset: u64, size: u64) -> (r: Result<(), FsError>)
        requires
            old(self).wf(),
        ensures
            final(self).wf(),
            final(self)@ == write_spec(old(self)@, des_idx, src_offset, size).0,
            (match r { Ok(x) => Ok(x), Err(e) => Err(e@) }) == write_spec(old(self)@, des_idx, src_offset, size).1,
    {
        let des = match self.open_descriptor(des_idx) {
            Ok(d) => d,
            Err(e) => {
                return Err(e);
            },
        };
        let offset = des.offset;
        let ghost s0 = self@;
        let mut content = self.files[des.file.0].content.clone();
        match content.write(src_offset, offset, size) {
            Ok(()) => {},
            Err(e) => {
                return Err(FsError::ContentError(e));
            },
        }
        proof {
            lemma_write_total(s0.files[des.file.0 as int].content, src_offset, offset, size);
        }
        let file = File { descriptor: self.files[des.file.0].descriptor, content };
        self.set_file(des.file.0, file);
        self.descriptors.set(des_idx.0, FileDescriptor { file: des.file, offset: offset + size });
        proof {
            let s = self@;
            assert forall|k: int| 0 <= k < s.descriptors.len() implies {
                &&& (#[trigger] s.descriptors[k]).file.0 < s.files.len()
                &&& s.descriptors[k].offset <= total(s.files[s.descriptors[k].file.0 as int].content)
            } by {
                if k != des_idx.0 {
                    assert(s.descriptors[k] == s0.descriptors[k]);
                }
            }
            assert forall|f: int| 0 <= f < s.files.len() implies {
                &&& slices_wf((#[trigger] s.files[f]).content)
                &&& total(s.files[f].content) <= u64::MAX
            } by {
                if f != des.file.0 {
                    assert(s.files[f] == s0.files[f]);
                }
            }
        }
        self.record_op(Operation::Write { des: des_idx, src_offset, size });
        Ok(())
    }

    /// Checks the descriptor and records the call; a no-op otherwise, similar to `fsync`.
    pub fn fsync(&mut self, des_idx: FileDescriptorIndex) -> (r: Result<(), FsError>)
        requires
            old(self).wf(),
        ensures
            final(self).wf(),
            final(self)@ == fsync_spec(old(self)@, des_idx).0,
            (match r { Ok(x) => Ok(x), Err(e) => Err(e@) }) == fsync_spec(old(self)@, des_idx).1,
    {
        match self.open_descriptor(des_idx) {
            Ok(_) => {},
            Err(e) => {
                return Err(e);
            },
        }
        self.record_op(Operation::FSync { des: des_idx });
        Ok(())
    }

    /// Replays the operations of `workload` on the current state, stopping at
    /// the first error.
    pub fn replay(&mut self, workload: &Workload) -> (r: Result<(), FsError>)
        requires
            old(self).wf(),
        ensures
            final(self).wf(),
            replay_spec(old(self)@, workload@) == (final(self)@, match r { Ok(x) => Ok(x), Err(e) => Err(e@) }),
    {
        let mut i: usize = 0;
        assert(workload@.skip(0) =~= workload@);
        while i < workload.ops.len()
            invariant
                self.wf(),
                i <= workload@.len(),
                workload@.len() == workload.ops@.len(),
                replay_spec(old(self)@, workload@) == replay_spec(self@, workload@.skip(i as int)),
            decreases workload.ops@.len() - i,
        {
            let ghost rest = workload@.skip(i as int);
            assert(rest[0] == workload.ops@[i as int]@);
            assert(rest.drop_first() =~= workload@.skip(i + 1));
            let res: Result<(), FsError> = match &workload.ops[i] {
                Operation::MkDir { path, mode } => match self.mkdir(path.clone(), copy_mode(mode)) {
                    Ok(_) => Ok(()),
                    Err(e) => Err(e),
                },
                Operation::Create { path, mode } => match self.create(path.clone(), copy_mode(mode)) {
                    Ok(_) => Ok(()),
                    Err(e) => Err(e),
                },
                Operation::Remove { path } => self.remove(path.clone()),
                Operation::Hardlink { old_path, new_path } => match self.hardlink(old_path.clone(), new_path.clone()) {
                    Ok(_) => Ok(()),
                    Err(e) => Err(e),
                },
                Operation::Rename { old_path, new_path } => match self.rename(old_path.clone(), new_path.clone()) {
                    Ok(_) => Ok(()),
                    Err(e) => Err(e),
                },
                Operation::Open { path, .. } => match self.open(path.clone()) {
                    Ok(_) => Ok(()),
                    Err(e) => Err(e),
                },
                Operation::Close { des } => self.close(*des),
                Operation::Read { des, size } => match self.read(*des, *size) {
                    Ok(_) => Ok(()),
                    Err(e) => Err(e),
                },
                Operation::Write { des, src_offset, size } => self.write(*des, *src_offset, *size),
                Operation::FSync { des } => self.fsync(*des),
                Operation::Symlink { target, linkpath } => match self.symlink(target.clone(), linkpath.clone()) {
                    Ok(_) => Ok(()),
                    Err(e) => Err(e),
                },
            };
            match res {
                Ok(()) => {},
                Err(e) => {
                    return Err(e);
                },
            }
            i = i + 1;
        }
        assert(workload@.skip(i as int) =~= Seq::<OpView>::empty());
        Ok(())
    }

    /// The file `idx`.
    pub fn file(&self, idx: &FileIndex) -> (r: &File)
        requires
            idx.0 < self@.files.len(),
        ensures
            r@ == self@.files[idx.0 as int],
    {
        &self.files[idx.0]
    }

    /// The directory `idx`.
    pub fn dir(&self, idx: &DirIndex) -> (r: &Dir)
        requires
            idx.0 < self@.dirs.len(),
        ensures
            r@ == self@.dirs[idx.0 as int],
    {
        &self.dirs[idx.0]
    }

    /// The symbolic link `idx`.
    pub fn sym(&self, idx: &SymlinkIndex) -> (r: &Symlink)
        requires
            idx.0 < self@.symlinks.len(),
        ensures
            r.target@ == self@.symlinks[idx.0 as int],
    {
        &self.symlinks[idx.0]
    }

    /// The root directory.
    pub fn root(&self) -> (r: &Dir)
        requires
            self.wf(),
        ensures
            r@ == self@.dirs[0],
    {
        &self.dirs[0]
    }

    proof fn lemma_node_ok(&self, d: int, name: Seq<char>)
        requires
            self.wf(),
            0 <= d < self@.dirs.len(),
        ensures
            entries_get(self@.dirs[d], name) matches Some(n) ==> node_ok(self@, n),
    {
        lemma_entries_get_mem(self@.dirs[d], name);
    }

    /// Resolves `path` with at most `fuel` nested link lookups.
    fn resolve_fuel_rec(
        &self,
        path: &PathName,
        follow: bool,
        visited: Vec<SymlinkIndex>,
        fuel: usize,
    ) -> (r: Result<(Vec<DirIndex>, Node), FsError>)
        requires
            self.wf(),
        ensures
            resolved_view(r) == resolve_f(self@, path@, follow, visited@, fuel as nat),
            r matches Ok((_, n)) ==> node_ok(self@, n),
        decreases fuel, 1nat,
    {
        if !path.is_valid() {
            return Err(FsError::InvalidPath(path.clone()));
        }
        let seg_vec = path.segments();
        let ghost segs = path_segments(path@);
        let mut dirs: Vec<DirIndex> = Vec::new();
        let mut last = Node::Dir(AbstractFS::root_index());
        let mut cur = String::new();
        let mut i: usize = 0;
        assert(dirs@ =~= Seq::<DirIndex>::empty());
        assert(cur@ =~= Seq::<char>::empty());
        while i < seg_vec.len()
            invariant
                self.wf(),
                seg_vec@.len() == segs.len(),
                forall|k: int| 0 <= k < seg_vec@.len() ==> #[trigger] seg_vec@[k]@ == segs[k],
                segs == path_segments(path@),
                is_valid_path(path@),
                i <= seg_vec.len(),
                node_ok(self@, last),
                walk_f(self@, segs, 0, Seq::empty(), Node::Dir(DirIndex(0)), Seq::empty(), fuel as nat)
                    == walk_f(self@, segs, i as int, dirs@, last, cur@, fuel as nat),
                decreases seg_vec.len() - i,
        {
            let ghost cur_old = cur@;
            push_char(&mut cur, '/');
            push_str(&mut cur, seg_vec[i].as_str());
            assert(cur@ == cur_old.push('/') + segs[i as int]);
            let d: DirIndex;
            match last {
                Node::Dir(idx) => {
                    dirs.push(idx);
                    d = idx;
                },
                Node::Symlink(idx) => {
                    if fuel == 0 {
                        return Err(FsError::LoopExists(PathName(cur)));
                    }
                    let target = self.sym(&idx).target.clone();
                    assert(target@ == self@.symlinks[idx.0 as int]);
                    let rd = self.resolve_dir_fuel(&target, fuel - 1);
                    match rd {
                        Err(e) => {
                            return Err(e);
                        },
                        Ok((rec_dirs, idx2)) => {
                            append_dirs(&mut dirs, rec_dirs);
                            dirs.push(idx2);
                            d = idx2;
                        },
                    }
                },
                Node::File(_) => {
                    return Err(FsError::NotADir(PathName(cur)));
                },
            }
            proof {
                self.lemma_node_ok(d.0 as int, segs[i as int]);
            }
            match self.dirs[d.0].get(seg_vec[i].as_str()) {
                None => {
                    return Err(FsError::NotFound(PathName(cur)));
                },
                Some(n) => {
                    last = n;
                },
            }
            i = i + 1;
        }
        proof {
            assert(walk_f(self@, segs, i as int, dirs@, last, cur@, fuel as nat) == Ok::<
                (Seq<DirIndex>, Node, Seq<char>),
                FsErrorView,
            >((dirs@, last, cur@)));
        }
        match last {
            Node::Symlink(idx) => {
                if follow {
                    if vec_contains_symlink(&visited, idx) || fuel == 0 {
                        return Err(FsError::LoopExists(PathName(cur)));
                    }
                    let target = self.sym(&idx).target.clone();
                    let mut visited2 = visited;
                    visited2.push(idx);
                    match self.resolve_fuel_rec(&target, follow, visited2, fuel - 1) {
                        Err(e) => Err(e),
                        Ok((rec_dirs, l)) => {
                            append_dirs(&mut dirs, rec_dirs);
                            Ok((dirs, l))
                        },
                    }
                } else {
                    Ok((dirs, last))
                }
            },
            _ => Ok((dirs, last)),
        }
    }

    /// Resolves `path` to a directory with at most `fuel` nested link lookups.
    fn resolve_dir_fuel(&self, path: &PathName, fuel: usize) -> (r: Result<
        (Vec<DirIndex>, DirIndex),
        FsError,
    >)
        requires
            self.wf(),
        ensures
            resolved_dir_view(r) == (match resolve_f(self@, path@, true, Seq::empty(), fuel as nat) {
                Err(e) => Err(e),
                Ok((dirs, n)) => match n {
                    Node::Dir(d) => Ok((dirs, d)),
                    _ => Err(FsErrorView::NotADir(path@)),
                },
            }),
            r matches Ok((_, d)) ==> d.0 < self@.dirs.len(),
        decreases fuel, 2nat,
    {
        let v: Vec<SymlinkIndex> = Vec::new();
        assert(v@ =~= Seq::<SymlinkIndex>::empty());
        match self.resolve_fuel_rec(path, true, v, fuel) {
            Err(e) => Err(e),
            Ok((dirs, n)) => match n {
                Node::Dir(d) => Ok((dirs, d)),
                _ => Err(FsError::NotADir(path.clone())),
            },
        }
    }
}

} // verus!
