//! The nodes of the abstract file system and the indices that name them.

use vstd::prelude::*;

use super::content::{Content, SourceSlice};
use super::pathname::{Name, PathName};
use crate::text::{chars_eq, to_chars};

verus! {

/// A file, by its position in the file table (like an inode number).
#[derive(Debug, Clone, Copy, PartialEq, Eq, PartialOrd, Ord, Hash, Structural)]
pub struct FileIndex(pub usize);

/// A directory, by its position in the directory table.
#[derive(Debug, Clone, Copy, PartialEq, Eq, PartialOrd, Ord, Hash, Structural)]
pub struct DirIndex(pub usize);

/// A symbolic link, by its position in the link table.
#[derive(Debug, Clone, Copy, PartialEq, Eq, PartialOrd, Ord, Hash, Structural)]
pub struct SymlinkIndex(pub usize);

/// An open-file descriptor, by its position in the descriptor table.
#[derive(Debug, Clone, Copy, PartialEq, Eq, PartialOrd, Ord, Hash, Structural)]
pub struct FileDescriptorIndex(pub usize);

/// A regular file: the descriptor that has it open, if any, and its content.
#[derive(Debug)]
pub struct File {
    pub descriptor: Option<FileDescriptorIndex>,
    pub content: Content,
}

/// The model of a file.
pub struct FileModel {
    pub descriptor: Option<FileDescriptorIndex>,
    pub content: Seq<SourceSlice>,
}

impl View for File {
    type V = FileModel;

    open spec fn view(&self) -> FileModel {
        FileModel { descriptor: self.descriptor, content: self.content@ }
    }
}

impl Clone for File {
    fn clone(&self) -> (r: Self)
        ensures
            r@ == self@,
    {
        File { descriptor: self.descriptor, content: self.content.clone() }
    }
}

/// An open file: which file, and where the next read or write happens.
#[derive(Debug, Clone, Copy, PartialEq, Eq, Structural)]
pub struct FileDescriptor {
    pub file: FileIndex,
    pub offset: u64,
}

/// What a directory entry points at.
#[derive(Debug, Clone, Copy, PartialEq, Eq, PartialOrd, Ord, Hash, Structural)]
pub enum Node {
    File(FileIndex),
    Dir(DirIndex),
    Symlink(SymlinkIndex),
}

/// A symbolic link and the path it points to.
#[derive(Debug)]
pub struct Symlink {
    pub target: PathName,
}

/// A directory: its entries, each a name and the node it names. No name
/// occurs twice.
#[derive(Debug)]
pub struct Dir {
    pub children: Vec<(Name, Node)>,
}

/// The entries of a directory as a sequence of (name, node).
pub open spec fn entries_view(v: Seq<(Name, Node)>) -> Seq<(Seq<char>, Node)> {
    v.map_values(|e: (Name, Node)| (e.0@, e.1))
}

impl View for Dir {
    type V = Seq<(Seq<char>, Node)>;

    open spec fn view(&self) -> Seq<(Seq<char>, Node)> {
        entries_view(self.children@)
    }
}

/// The node named `name`, if any.
pub open spec fn entries_get(es: Seq<(Seq<char>, Node)>, name: Seq<char>) -> Option<Node>
    decreases es.len(),
{
    if es.len() == 0 {
        None
    } else if es[0].0 == name {
        Some(es[0].1)
    } else {
        entries_get(es.drop_first(), name)
    }
}

/// The entries with `name` bound to `node`: in place if the name is there, at the end otherwise.
pub open spec fn entries_insert(es: Seq<(Seq<char>, Node)>, name: Seq<char>, node: Node) -> Seq<
    (Seq<char>, Node),
>
    decreases es.len(),
{
    if es.len() == 0 {
        seq![(name, node)]
    } else if es[0].0 == name {
        es.update(0, (name, node))
    } else {
        seq![es[0]] + entries_insert(es.drop_first(), name, node)
    }
}

/// The entries without `name`.
pub open spec fn entries_remove(es: Seq<(Seq<char>, Node)>, name: Seq<char>) -> Seq<(Seq<char>, Node)>
    decreases es.len(),
{
    if es.len() == 0 {
        es
    } else if es[0].0 == name {
        es.drop_first()
    } else {
        seq![es[0]] + entries_remove(es.drop_first(), name)
    }
}

/// Whether `n` is the node of some entry of `es`.
pub open spec fn entries_has_node(es: Seq<(Seq<char>, Node)>, n: Node) -> bool {
    exists|j: int| 0 <= j < es.len() && (#[trigger] es[j]).1 == n
}

/// No name occurs twice among the entries.
pub open spec fn names_distinct(es: Seq<(Seq<char>, Node)>) -> bool {
    forall|i: int, j: int| 0 <= i < j < es.len() ==> (#[trigger] es[i]).0 != (#[trigger] es[j]).0
}

/// Whether some entry is named `name`.
pub open spec fn has_name(es: Seq<(Seq<char>, Node)>, name: Seq<char>) -> bool {
    exists|j: int| 0 <= j < es.len() && (#[trigger] es[j]).0 == name
}

proof fn lemma_insert_names(es: Seq<(Seq<char>, Node)>, name: Seq<char>, node: Node)
    ensures
        forall|k: int|
            0 <= k < entries_insert(es, name, node).len() ==> (#[trigger] entries_insert(es, name, node)[k]).0
                == name || has_name(es, entries_insert(es, name, node)[k].0),
    decreases es.len(),
{
    let r = entries_insert(es, name, node);
    if es.len() > 0 {
        if es[0].0 == name {
            assert forall|k: int| 0 <= k < r.len() implies (#[trigger] r[k]).0 == name || has_name(es, r[k].0) by {
                if k > 0 {
                    assert(r[k] == es[k]);
                }
            }
        } else {
            lemma_insert_names(es.drop_first(), name, node);
            let t = entries_insert(es.drop_first(), name, node);
            assert(r == seq![es[0]] + t);
            assert forall|k: int| 0 <= k < r.len() implies (#[trigger] r[k]).0 == name || has_name(es, r[k].0) by {
                if k == 0 {
                    assert(r[0] == es[0]);
                } else {
                    assert(r[k] == t[k - 1]);
                    if t[k - 1].0 != name {
                        let j = choose|j: int| 0 <= j < es.drop_first().len() && (#[trigger] es.drop_first()[j]).0 == t[k - 1].0;
                        assert(es[j + 1] == es.drop_first()[j]);
                    }
                }
            }
        }
    }
}

proof fn lemma_remove_names(es: Seq<(Seq<char>, Node)>, name: Seq<char>)
    ensures
        forall|k: int|
            0 <= k < entries_remove(es, name).len() ==> has_name(es, (#[trigger] entries_remove(es, name)[k]).0),
    decreases es.len(),
{
    let r = entries_remove(es, name);
    if es.len() > 0 {
        if es[0].0 == name {
            assert forall|k: int| 0 <= k < r.len() implies has_name(es, (#[trigger] r[k]).0) by {
                assert(r[k] == es[k + 1]);
            }
        } else {
            lemma_remove_names(es.drop_first(), name);
            let t = entries_remove(es.drop_first(), name);
            assert(r == seq![es[0]] + t);
            assert forall|k: int| 0 <= k < r.len() implies has_name(es, (#[trigger] r[k]).0) by {
                if k == 0 {
                    assert(r[0] == es[0]);
                } else {
                    assert(r[k] == t[k - 1]);
                    let j = choose|j: int| 0 <= j < es.drop_first().len() && (#[trigger] es.drop_first()[j]).0 == t[k - 1].0;
                    assert(es[j + 1] == es.drop_first()[j]);
                }
            }
        }
    }
}

/// Binding a name keeps the names of a directory distinct.
pub broadcast proof fn lemma_insert_keeps_names_distinct(es: Seq<(Seq<char>, Node)>, name: Seq<char>, node: Node)
    requires
        names_distinct(es),
    ensures
        #[trigger] names_distinct(entries_insert(es, name, node)),
    decreases es.len(),
{
    let r = entries_insert(es, name, node);
    if es.len() > 0 {
        if es[0].0 == name {
            assert forall|i: int, j: int| 0 <= i < j < r.len() implies (#[trigger] r[i]).0 != (#[trigger] r[j]).0 by {
                assert(es[i].0 == r[i].0 && es[j].0 == r[j].0);
            }
        } else {
            let rest = es.drop_first();
            assert forall|i: int, j: int| 0 <= i < j < rest.len() implies (#[trigger] rest[i]).0 != (#[trigger] rest[j]).0 by {
                assert(rest[i] == es[i + 1] && rest[j] == es[j + 1]);
            }
            lemma_insert_keeps_names_distinct(rest, name, node);
            lemma_insert_names(rest, name, node);
            let t = entries_insert(rest, name, node);
            assert(r == seq![es[0]] + t);
            assert forall|i: int, j: int| 0 <= i < j < r.len() implies (#[trigger] r[i]).0 != (#[trigger] r[j]).0 by {
                assert(r[j] == t[j - 1]);
                if i == 0 {
                    assert(r[0] == es[0]);
                    if t[j - 1].0 != name {
                        let m = choose|m: int| 0 <= m < rest.len() && (#[trigger] rest[m]).0 == t[j - 1].0;
                        assert(rest[m] == es[m + 1]);
                    }
                } else {
                    assert(r[i] == t[i - 1]);
                }
            }
        }
    }
}

/// Removing a name keeps the names of a directory distinct.
pub broadcast proof fn lemma_remove_keeps_names_distinct(es: Seq<(Seq<char>, Node)>, name: Seq<char>)
    requires
        names_distinct(es),
    ensures
        #[trigger] names_distinct(entries_remove(es, name)),
    decreases es.len(),
{
    let r = entries_remove(es, name);
    if es.len() > 0 {
        let rest = es.drop_first();
        assert forall|i: int, j: int| 0 <= i < j < rest.len() implies (#[trigger] rest[i]).0 != (#[trigger] rest[j]).0 by {
            assert(rest[i] == es[i + 1] && rest[j] == es[j + 1]);
        }
        if es[0].0 != name {
            lemma_remove_keeps_names_distinct(rest, name);
            lemma_remove_names(rest, name);
            let t = entries_remove(rest, name);
            assert(r == seq![es[0]] + t);
            assert forall|i: int, j: int| 0 <= i < j < r.len() implies (#[trigger] r[i]).0 != (#[trigger] r[j]).0 by {
                assert(r[j] == t[j - 1]);
                if i == 0 {
                    assert(r[0] == es[0]);
                    let m = choose|m: int| 0 <= m < rest.len() && (#[trigger] rest[m]).0 == t[j - 1].0;
                    assert(rest[m] == es[m + 1]);
                } else {
                    assert(r[i] == t[i - 1]);
                }
            }
        }
    }
}

pub proof fn lemma_entries_get_mem(es: Seq<(Seq<char>, Node)>, name: Seq<char>)
    ensures
        entries_get(es, name) matches Some(n) ==> entries_has_node(es, n),
    decreases es.len(),
{
    if es.len() > 0 {
        if es[0].0 == name {
            assert(es[0].1 == es[0].1);
        } else {
            lemma_entries_get_mem(es.drop_first(), name);
            if let Some(n) = entries_get(es, name) {
                let j = choose|j: int| 0 <= j < es.drop_first().len() && (#[trigger] es.drop_first()[j]).1 == n;
                assert(es[j + 1] == es.drop_first()[j]);
            }
        }
    }
}

pub proof fn lemma_entries_insert_mem(es: Seq<(Seq<char>, Node)>, name: Seq<char>, node: Node)
    ensures
        forall|k: int|
            0 <= k < entries_insert(es, name, node).len() ==> (#[trigger] entries_insert(es, name, node)[k]).1
                == node || entries_has_node(es, entries_insert(es, name, node)[k].1),
    decreases es.len(),
{
    let r = entries_insert(es, name, node);
    if es.len() == 0 {
    } else if es[0].0 == name {
        assert forall|k: int| 0 <= k < r.len() implies (#[trigger] r[k]).1 == node || entries_has_node(es, r[k].1) by {
            if k > 0 {
                assert(r[k] == es[k]);
            }
        }
    } else {
        lemma_entries_insert_mem(es.drop_first(), name, node);
        let t = entries_insert(es.drop_first(), name, node);
        assert(r == seq![es[0]] + t);
        assert forall|k: int| 0 <= k < r.len() implies (#[trigger] r[k]).1 == node || entries_has_node(es, r[k].1) by {
            if k == 0 {
                assert(es[0] == r[0]);
            } else {
                assert(r[k] == t[k - 1]);
                if t[k - 1].1 != node {
                    let j = choose|j: int| 0 <= j < es.drop_first().len() && (#[trigger] es.drop_first()[j]).1 == t[k - 1].1;
                    assert(es[j + 1] == es.drop_first()[j]);
                }
            }
        }
    }
}

pub proof fn lemma_entries_remove_mem(es: Seq<(Seq<char>, Node)>, name: Seq<char>)
    ensures
        forall|k: int|
            0 <= k < entries_remove(es, name).len() ==> entries_has_node(es, (#[trigger] entries_remove(es, name)[k]).1),
    decreases es.len(),
{
    let r = entries_remove(es, name);
    if es.len() == 0 {
    } else if es[0].0 == name {
        assert forall|k: int| 0 <= k < r.len() implies entries_has_node(es, (#[trigger] r[k]).1) by {
            assert(r[k] == es[k + 1]);
        }
    } else {
        lemma_entries_remove_mem(es.drop_first(), name);
        let t = entries_remove(es.drop_first(), name);
        assert(r == seq![es[0]] + t);
        assert forall|k: int| 0 <= k < r.len() implies entries_has_node(es, (#[trigger] r[k]).1) by {
            if k == 0 {
                assert(es[0] == r[0]);
            } else {
                assert(r[k] == t[k - 1]);
                let j = choose|j: int| 0 <= j < es.drop_first().len() && (#[trigger] es.drop_first()[j]).1 == t[k - 1].1;
                assert(es[j + 1] == es.drop_first()[j]);
            }
        }
    }
}

/// Looking up a name after binding one: the bound node for that name, what
/// was there before for every other name.
pub proof fn lemma_get_insert(es: Seq<(Seq<char>, Node)>, name: Seq<char>, node: Node, m: Seq<char>)
    ensures
        entries_get(entries_insert(es, name, node), m) == if m == name {
            Some(node)
        } else {
            entries_get(es, m)
        },
    decreases es.len(),
{
    let r = entries_insert(es, name, node);
    if es.len() == 0 {
        assert(r[0] == (name, node));
        assert(r.drop_first() =~= Seq::<(Seq<char>, Node)>::empty());
    } else if es[0].0 == name {
        assert(r[0] == (name, node));
        assert(r.drop_first() =~= es.drop_first());
    } else {
        lemma_get_insert(es.drop_first(), name, node, m);
        assert(r[0] == es[0]);
        assert(r.drop_first() =~= entries_insert(es.drop_first(), name, node));
        if m == es[0].0 {
            assert(entries_get(r, m) == Some(es[0].1));
        } else {
            assert(entries_get(r, m) == entries_get(r.drop_first(), m));
        }
    }
}

proof fn lemma_get_absent(es: Seq<(Seq<char>, Node)>, name: Seq<char>)
    requires
        forall|j: int| 0 <= j < es.len() ==> (#[trigger] es[j]).0 != name,
    ensures
        entries_get(es, name) is None,
    decreases es.len(),
{
    if es.len() > 0 {
        assert forall|j: int| 0 <= j < es.drop_first().len() implies (#[trigger] es.drop_first()[j]).0 != name by {
            assert(es.drop_first()[j] == es[j + 1]);
        }
        lemma_get_absent(es.drop_first(), name);
    }
}

/// Looking up a name after unbinding one (the names being distinct): nothing
/// for that name, what was there before for every other name.
pub proof fn lemma_get_remove(es: Seq<(Seq<char>, Node)>, name: Seq<char>, m: Seq<char>)
    requires
        names_distinct(es),
    ensures
        entries_get(entries_remove(es, name), m) == if m == name {
            None
        } else {
            entries_get(es, m)
        },
    decreases es.len(),
{
    let r = entries_remove(es, name);
    if es.len() > 0 {
        let rest = es.drop_first();
        assert(names_distinct(rest)) by {
            assert forall|i: int, j: int| 0 <= i < j < rest.len() implies (#[trigger] rest[i]).0 != (#[trigger] rest[j]).0 by {
                assert(rest[i] == es[i + 1] && rest[j] == es[j + 1]);
            }
        }
        if es[0].0 == name {
            if m == name {
                assert forall|j: int| 0 <= j < rest.len() implies (#[trigger] rest[j]).0 != name by {
                    assert(rest[j] == es[j + 1]);
                    assert(es[0].0 != es[j + 1].0);
                }
                lemma_get_absent(rest, name);
            }
        } else {
            lemma_get_remove(rest, name, m);
            assert(r[0] == es[0]);
            assert(r.drop_first() =~= entries_remove(rest, name));
        }
    }
}

fn copy_name(s: &Name) -> (r: Name)
    ensures
        r@ == s@,
{
    s.clone()
}

impl Dir {
    /// An empty directory.
    pub fn new() -> (r: Dir)
        ensures
            r@ == Seq::<(Seq<char>, Node)>::empty(),
    {
        let r = Dir { children: Vec::new() };
        assert(r@ =~= Seq::<(Seq<char>, Node)>::empty());
        r
    }

    /// The number of entries.
    pub fn len(&self) -> (r: usize)
        ensures
            r == self@.len(),
    {
        self.children.len()
    }

    /// Whether the directory has no entries.
    pub fn is_empty(&self) -> (r: bool)
        ensures
            r == (self@.len() == 0),
    {
        self.children.len() == 0
    }

    /// The node named `name`, if any.
    pub fn get(&self, name: &str) -> (r: Option<Node>)
        ensures
            r == entries_get(self@, name@),
    {
        let target = to_chars(name);
        let mut i: usize = 0;
        assert(self@.skip(0) =~= self@);
        while i < self.children.len()
            invariant
                i <= self.children@.len(),
                target@ == name@,
                entries_get(self@.skip(i as int), name@) == entries_get(self@, name@),
            decreases self.children@.len() - i,
        {
            let entry_name = to_chars(self.children[i].0.as_str());
            assert(self@.skip(i as int)[0] == (self.children@[i as int].0@, self.children@[i as int].1));
            if chars_eq(entry_name.as_slice(), target.as_slice()) {
                return Some(self.children[i].1);
            }
            assert(self@.skip(i as int).drop_first() =~= self@.skip(i + 1));
            i = i + 1;
        }
        None
    }

    /// Binds `name` to `node`, replacing an entry of that name.
    pub fn insert(&mut self, name: &str, node: Node)
        ensures
            final(self)@ == entries_insert(old(self)@, name@, node),
    {
        let target = to_chars(name);
        let mut i: usize = 0;
        let ghost es = old(self)@;
        assert(es.skip(0) =~= es);
        assert(es.take(0) + entries_insert(es.skip(0), name@, node) =~= entries_insert(es, name@, node));
        while i < self.children.len()
            invariant
                i <= self.children@.len(),
                target@ == name@,
                es == old(self)@,
                self@ == es,
                es.take(i as int) + entries_insert(es.skip(i as int), name@, node) == entries_insert(es, name@, node),
            decreases self.children@.len() - i,
        {
            let entry_name = to_chars(self.children[i].0.as_str());
            assert(es.skip(i as int)[0] == (self.children@[i as int].0@, self.children@[i as int].1));
            if chars_eq(entry_name.as_slice(), target.as_slice()) {
                let new_name = name.to_owned();
                let ghost before = self.children@;
                self.children.set(i, (new_name, node));
                proof {
                    assert(es.skip(i as int)[0].0 == name@);
                    assert(entries_insert(es.skip(i as int), name@, node) == es.skip(i as int).update(0, (name@, node)));
                    assert(entries_view(self.children@) =~= es.update(i as int, (name@, node)));
                    assert(es.update(i as int, (name@, node)) =~= es.take(i as int) + es.skip(i as int).update(0, (name@, node)));
                }
                return;
            }
            proof {
                assert(es.skip(i as int).drop_first() =~= es.skip(i + 1));
                assert(es.take(i + 1) =~= es.take(i as int).push(es[i as int]));
                assert(es.take(i as int) + (seq![es[i as int]] + entries_insert(es.skip(i + 1), name@, node))
                    =~= es.take(i + 1) + entries_insert(es.skip(i + 1), name@, node));
            }
            i = i + 1;
        }
        self.children.push((name.to_owned(), node));
        proof {
            assert(es.skip(i as int) =~= Seq::<(Seq<char>, Node)>::empty());
            assert(es.take(i as int) =~= es);
            assert(self@ =~= es.push((name@, node)));
        }
    }

    /// Removes the entry named `name`; says whether there was one.
    pub fn remove(&mut self, name: &str) -> (r: bool)
        ensures
            r == (entries_get(old(self)@, name@) is Some),
            final(self)@ == entries_remove(old(self)@, name@),
    {
        let target = to_chars(name);
        let mut i: usize = 0;
        let ghost es = old(self)@;
        assert(es.skip(0) =~= es);
        assert(es.take(0) + entries_remove(es.skip(0), name@) =~= entries_remove(es, name@));
        while i < self.children.len()
            invariant
                i <= self.children@.len(),
                target@ == name@,
                es == old(self)@,
                self@ == es,
                es.take(i as int) + entries_remove(es.skip(i as int), name@) == entries_remove(es, name@),
                entries_get(es.skip(i as int), name@) == entries_get(es, name@),
            decreases self.children@.len() - i,
        {
            let entry_name = to_chars(self.children[i].0.as_str());
            assert(es.skip(i as int)[0] == (self.children@[i as int].0@, self.children@[i as int].1));
            if chars_eq(entry_name.as_slice(), target.as_slice()) {
                let ghost before = self.children@;
                self.children.remove(i);
                proof {
                    assert(es.skip(i as int)[0].0 == name@);
                    assert(entries_get(es.skip(i as int), name@) == Some(es.skip(i as int)[0].1));
                    assert(entries_remove(es.skip(i as int), name@) == es.skip(i as int).drop_first());
                    assert(self.children@ =~= before.take(i as int) + before.skip(i + 1));
                    assert(entries_view(self.children@) =~= es.take(i as int) + es.skip(i as int).drop_first());
                }
                return true;
            }
            proof {
                assert(es.skip(i as int).drop_first() =~= es.skip(i + 1));
                assert(es.take(i + 1) =~= es.take(i as int).push(es[i as int]));
                assert(es.take(i as int) + (seq![es[i as int]] + entries_remove(es.skip(i + 1), name@))
                    =~= es.take(i + 1) + entries_remove(es.skip(i + 1), name@));
            }
            i = i + 1;
        }
        proof {
            assert(es.skip(i as int) =~= Seq::<(Seq<char>, Node)>::empty());
            assert(es.take(i as int) =~= es);
        }
        false
    }
}

impl Clone for Dir {
    fn clone(&self) -> (r: Self)
        ensures
            r@ == self@,
    {
        let mut v: Vec<(Name, Node)> = Vec::new();
        let mut i: usize = 0;
        while i < self.children.len()
            invariant
                i <= self.children@.len(),
                v@.len() == i,
                forall|k: int| 0 <= k < i ==> (#[trigger] v@[k]).0@ == self.children@[k].0@ && v@[k].1 == self.children@[k].1,
            decreases self.children@.len() - i,
        {
            let n = copy_name(&self.children[i].0);
            v.push((n, self.children[i].1));
            i = i + 1;
        }
        let r = Dir { children: v };
        assert(r@ =~= self@);
        r
    }
}

impl Clone for Symlink {
    fn clone(&self) -> (r: Self)
        ensures
            r.target@ == self.target@,
    {
        Symlink { target: self.target.clone() }
    }
}

} // verus!
