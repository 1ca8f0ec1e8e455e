//! The operations of a workload.

use vstd::prelude::*;

use super::flags::{copy_mode, Mode, ModeFlag};
use super::node::FileDescriptorIndex;
use super::pathname::PathName;

verus! {

/// One file-system call of a test.
#[derive(Debug, PartialEq)]
pub enum Operation {
    MkDir { path: PathName, mode: Mode },
    Create { path: PathName, mode: Mode },
    Remove { path: PathName },
    Hardlink { old_path: PathName, new_path: PathName },
    Rename { old_path: PathName, new_path: PathName },
    Open { path: PathName, des: FileDescriptorIndex },
    Close { des: FileDescriptorIndex },
    Read { des: FileDescriptorIndex, size: u64 },
    Write { des: FileDescriptorIndex, src_offset: u64, size: u64 },
    FSync { des: FileDescriptorIndex },
    Symlink { target: PathName, linkpath: PathName },
}

/// The model of an operation: paths as character sequences.
pub enum OpView {
    MkDir { path: Seq<char>, mode: Seq<ModeFlag> },
    Create { path: Seq<char>, mode: Seq<ModeFlag> },
    Remove { path: Seq<char> },
    Hardlink { old_path: Seq<char>, new_path: Seq<char> },
    Rename { old_path: Seq<char>, new_path: Seq<char> },
    Open { path: Seq<char>, des: FileDescriptorIndex },
    Close { des: FileDescriptorIndex },
    Read { des: FileDescriptorIndex, size: u64 },
    Write { des: FileDescriptorIndex, src_offset: u64, size: u64 },
    FSync { des: FileDescriptorIndex },
    Symlink { target: Seq<char>, linkpath: Seq<char> },
}

impl View for Operation {
    type V = OpView;

    open spec fn view(&self) -> OpView {
        match self {
            Operation::MkDir { path, mode } => OpView::MkDir { path: path@, mode: mode@ },
            Operation::Create { path, mode } => OpView::Create { path: path@, mode: mode@ },
            Operation::Remove { path } => OpView::Remove { path: path@ },
            Operation::Hardlink { old_path, new_path } => OpView::Hardlink {
                old_path: old_path@,
                new_path: new_path@,
            },
            Operation::Rename { old_path, new_path } => OpView::Rename {
                old_path: old_path@,
                new_path: new_path@,
            },
            Operation::Open { path, des } => OpView::Open { path: path@, des: *des },
            Operation::Close { des } => OpView::Close { des: *des },
            Operation::Read { des, size } => OpView::Read { des: *des, size: *size },
            Operation::Write { des, src_offset, size } => OpView::Write {
                des: *des,
                src_offset: *src_offset,
                size: *size,
            },
            Operation::FSync { des } => OpView::FSync { des: *des },
            Operation::Symlink { target, linkpath } => OpView::Symlink {
                target: target@,
                linkpath: linkpath@,
            },
        }
    }
}

impl Clone for Operation {
    fn clone(&self) -> (r: Self)
        ensures
            r@ == self@,
    {
        match self {
            Operation::MkDir { path, mode } => Operation::MkDir {
                path: path.clone(),
                mode: copy_mode(mode),
            },
            Operation::Create { path, mode } => Operation::Create {
                path: path.clone(),
                mode: copy_mode(mode),
            },
            Operation::Remove { path } => Operation::Remove { path: path.clone() },
            Operation::Hardlink { old_path, new_path } => Operation::Hardlink {
                old_path: old_path.clone(),
                new_path: new_path.clone(),
            },
            Operation::Rename { old_path, new_path } => Operation::Rename {
                old_path: old_path.clone(),
                new_path: new_path.clone(),
            },
            Operation::Open { path, des } => Operation::Open { path: path.clone(), des: *des },
            Operation::Close { des } => Operation::Close { des: *des },
            Operation::Read { des, size } => Operation::Read { des: *des, size: *size },
            Operation::Write { des, src_offset, size } => Operation::Write {
                des: *des,
                src_offset: *src_offset,
                size: *size,
            },
            Operation::FSync { des } => Operation::FSync { des: *des },
            Operation::Symlink { target, linkpath } => Operation::Symlink {
                target: target.clone(),
                linkpath: linkpath.clone(),
            },
        }
    }
}

/// The kind of an operation, without its arguments.
#[derive(Debug, Clone, Copy, PartialEq, Eq, Hash, Structural)]
pub enum OperationKind {
    MkDir,
    Create,
    Remove,
    Hardlink,
    Rename,
    Open,
    Close,
    Read,
    Write,
    FSync,
    Symlink,
}

/// The kind of an operation.
pub open spec fn op_kind(op: OpView) -> OperationKind {
    match op {
        OpView::MkDir { .. } => OperationKind::MkDir,
        OpView::Create { .. } => OperationKind::Create,
        OpView::Remove { .. } => OperationKind::Remove,
        OpView::Hardlink { .. } => OperationKind::Hardlink,
        OpView::Rename { .. } => OperationKind::Rename,
        OpView::Open { .. } => OperationKind::Open,
        OpView::Close { .. } => OperationKind::Close,
        OpView::Read { .. } => OperationKind::Read,
        OpView::Write { .. } => OperationKind::Write,
        OpView::FSync { .. } => OperationKind::FSync,
        OpView::Symlink { .. } => OperationKind::Symlink,
    }
}

impl<'a> From<&'a Operation> for OperationKind {
    /// The kind of an operation.
    fn from(value: &'a Operation) -> (r: OperationKind) {
        match value {
            Operation::MkDir { .. } => OperationKind::MkDir,
            Operation::Create { .. } => OperationKind::Create,
            Operation::Remove { .. } => OperationKind::Remove,
            Operation::Hardlink { .. } => OperationKind::Hardlink,
            Operation::Rename { .. } => OperationKind::Rename,
            Operation::Open { .. } => OperationKind::Open,
            Operation::Close { .. } => OperationKind::Close,
            Operation::Read { .. } => OperationKind::Read,
            Operation::Write { .. } => OperationKind::Write,
            Operation::FSync { .. } => OperationKind::FSync,
            Operation::Symlink { .. } => OperationKind::Symlink,
        }
    }
}

impl<'a> vstd::std_specs::convert::FromSpecImpl<&'a Operation> for OperationKind {
    open spec fn obeys_from_spec() -> bool {
        true
    }

    open spec fn from_spec(value: &'a Operation) -> OperationKind {
        op_kind(value@)
    }
}

/// Weights determine the likelihood of an operation to be picked; a weight
/// counts only where the operation can be applied.
#[derive(Debug)]
pub struct OperationWeights {
    pub weights: Vec<(OperationKind, u32)>,
}

impl OperationWeights {
    pub fn new(weights: Vec<(OperationKind, u32)>) -> (r: Self)
        ensures
            r.weights@ == weights@,
    {
        Self { weights }
    }

    /// Every operation but `Symlink`, each with weight 100.
    pub fn uniform() -> (r: Self)
        ensures
            r.weights@ == seq![
                (OperationKind::Create, 100u32),
                (OperationKind::MkDir, 100u32),
                (OperationKind::Remove, 100u32),
                (OperationKind::Hardlink, 100u32),
                (OperationKind::Rename, 100u32),
                (OperationKind::Open, 100u32),
                (OperationKind::Close, 100u32),
                (OperationKind::Read, 100u32),
                (OperationKind::Write, 100u32),
                (OperationKind::FSync, 100u32),
            ],
    {
        let weights = vec![
            (OperationKind::Create, 100u32),
            (OperationKind::MkDir, 100u32),
            (OperationKind::Remove, 100u32),
            (OperationKind::Hardlink, 100u32),
            (OperationKind::Rename, 100u32),
            (OperationKind::Open, 100u32),
            (OperationKind::Close, 100u32),
            (OperationKind::Read, 100u32),
            (OperationKind::Write, 100u32),
            (OperationKind::FSync, 100u32),
        ];
        let r = Self { weights };
        assert(r.weights@ =~= seq![
            (OperationKind::Create, 100u32),
            (OperationKind::MkDir, 100u32),
            (OperationKind::Remove, 100u32),
            (OperationKind::Hardlink, 100u32),
            (OperationKind::Rename, 100u32),
            (OperationKind::Open, 100u32),
            (OperationKind::Close, 100u32),
            (OperationKind::Read, 100u32),
            (OperationKind::Write, 100u32),
            (OperationKind::FSync, 100u32),
        ]);
        r
    }
}

impl Clone for OperationWeights {
    fn clone(&self) -> (r: Self)
        ensures
            r.weights@ == self.weights@,
    {
        let mut v: Vec<(OperationKind, u32)> = Vec::new();
        let mut i: usize = 0;
        while i < self.weights.len()
            invariant
                i <= self.weights@.len(),
                v@ == self.weights@.take(i as int),
            decreases self.weights@.len() - i,
        {
            v.push(self.weights[i]);
            i = i + 1;
            assert(v@ =~= self.weights@.take(i as int));
        }
        assert(self.weights@.take(i as int) =~= self.weights@);
        OperationWeights { weights: v }
    }
}

} // verus!
