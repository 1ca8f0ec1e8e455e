//! The nodes that can be reached from the root: a breadth-first search of
//! the directory tree that follows symbolic links a bounded number of times.

use vstd::prelude::*;

use super::fs::{node_ok, resolve_spec, AbstractFS, FsModel};
use super::node::{DirIndex, FileIndex, Node};
use super::pathname::{path_join, PathName};
use crate::order::{chars_le, lemma_chars_le_antisymmetric, lemma_chars_le_reflexive,
    lemma_chars_le_total, lemma_chars_le_transitive, key_order, keys, sort_by_key, str_le, SortKey};

verus! {

/// Because symbolic links can loop back, they are followed only this many times.
pub const MAX_SYMLINK_FOLLOW: u8 = 3;

/// File nodes that are accessible from the root (not removed).
#[derive(Debug, PartialEq, Eq)]
pub struct AliveNodes {
    pub dirs: Vec<(DirIndex, PathName)>,
    pub files: Vec<(FileIndex, PathName)>,
    pub symlinks: Vec<PathName>,
}

/// The model of `AliveNodes`: paths as character sequences.
pub struct AliveModel {
    pub dirs: Seq<(DirIndex, Seq<char>)>,
    pub files: Seq<(FileIndex, Seq<char>)>,
    pub symlinks: Seq<Seq<char>>,
}

impl View for AliveNodes {
    type V = AliveModel;

    open spec fn view(&self) -> AliveModel {
        AliveModel {
            dirs: keys(self.dirs@),
            files: keys(self.files@),
            symlinks: keys(self.symlinks@),
        }
    }
}

impl SortKey for (DirIndex, PathName) {
    type K = (DirIndex, Seq<char>);

    open spec fn key(&self) -> (DirIndex, Seq<char>) {
        (self.0, self.1@)
    }

    open spec fn key_le(a: (DirIndex, Seq<char>), b: (DirIndex, Seq<char>)) -> bool {
        a.0.0 < b.0.0 || (a.0 == b.0 && chars_le(a.1, b.1))
    }

    proof fn lemma_key_le_total() {
        assert forall|a: (DirIndex, Seq<char>)| #[trigger] Self::key_le(a, a) by {
            lemma_chars_le_reflexive(a.1);
        }
        assert forall|a: (DirIndex, Seq<char>), b: (DirIndex, Seq<char>)|
            #![trigger Self::key_le(a, b), Self::key_le(b, a)]
            Self::key_le(a, b) && Self::key_le(b, a) implies a == b by {
            if a.0 == b.0 {
                lemma_chars_le_antisymmetric(a.1, b.1);
            }
        }
        assert forall|a: (DirIndex, Seq<char>), b: (DirIndex, Seq<char>), c: (DirIndex, Seq<char>)|
            #![trigger Self::key_le(a, b), Self::key_le(b, c)]
            Self::key_le(a, b) && Self::key_le(b, c) implies Self::key_le(a, c) by {
            if a.0 == b.0 && b.0 == c.0 {
                lemma_chars_le_transitive(a.1, b.1, c.1);
            }
        }
        assert forall|a: (DirIndex, Seq<char>), b: (DirIndex, Seq<char>)|
            #![trigger Self::key_le(a, b)]
            Self::key_le(a, b) || Self::key_le(b, a) by {
            lemma_chars_le_total(a.1, b.1);
        }
    }

    fn le(&self, other: &Self) -> (r: bool) {
        self.0.0 < other.0.0 || (self.0.0 == other.0.0 && str_le(self.1.as_str(), other.1.as_str()))
    }
}

impl SortKey for (FileIndex, PathName) {
    type K = (FileIndex, Seq<char>);

    open spec fn key(&self) -> (FileIndex, Seq<char>) {
        (self.0, self.1@)
    }

    open spec fn key_le(a: (FileIndex, Seq<char>), b: (FileIndex, Seq<char>)) -> bool {
        a.0.0 < b.0.0 || (a.0 == b.0 && chars_le(a.1, b.1))
    }

    proof fn lemma_key_le_total() {
        assert forall|a: (FileIndex, Seq<char>)| #[trigger] Self::key_le(a, a) by {
            lemma_chars_le_reflexive(a.1);
        }
        assert forall|a: (FileIndex, Seq<char>), b: (FileIndex, Seq<char>)|
            #![trigger Self::key_le(a, b), Self::key_le(b, a)]
            Self::key_le(a, b) && Self::key_le(b, a) implies a == b by {
            if a.0 == b.0 {
                lemma_chars_le_antisymmetric(a.1, b.1);
            }
        }
        assert forall|a: (FileIndex, Seq<char>), b: (FileIndex, Seq<char>), c: (FileIndex, Seq<char>)|
            #![trigger Self::key_le(a, b), Self::key_le(b, c)]
            Self::key_le(a, b) && Self::key_le(b, c) implies Self::key_le(a, c) by {
            if a.0 == b.0 && b.0 == c.0 {
                lemma_chars_le_transitive(a.1, b.1, c.1);
            }
        }
        assert forall|a: (FileIndex, Seq<char>), b: (FileIndex, Seq<char>)|
            #![trigger Self::key_le(a, b)]
            Self::key_le(a, b) || Self::key_le(b, a) by {
            lemma_chars_le_total(a.1, b.1);
        }
    }

    fn le(&self, other: &Self) -> (r: bool) {
        self.0.0 < other.0.0 || (self.0.0 == other.0.0 && str_le(self.1.as_str(), other.1.as_str()))
    }
}

impl SortKey for PathName {
    type K = Seq<char>;

    open spec fn key(&self) -> Seq<char> {
        self@
    }

    open spec fn key_le(a: Seq<char>, b: Seq<char>) -> bool {
        chars_le(a, b)
    }

    proof fn lemma_key_le_total() {
        assert forall|a: Seq<char>| #[trigger] Self::key_le(a, a) by {
            lemma_chars_le_reflexive(a);
        }
        assert forall|a: Seq<char>, b: Seq<char>|
            #![trigger Self::key_le(a, b), Self::key_le(b, a)]
            Self::key_le(a, b) && Self::key_le(b, a) implies a == b by {
            lemma_chars_le_antisymmetric(a, b);
        }
        assert forall|a: Seq<char>, b: Seq<char>, c: Seq<char>|
            #![trigger Self::key_le(a, b), Self::key_le(b, c)]
            Self::key_le(a, b) && Self::key_le(b, c) implies Self::key_le(a, c) by {
            lemma_chars_le_transitive(a, b, c);
        }
        assert forall|a: Seq<char>, b: Seq<char>| #![trigger Self::key_le(a, b)] Self::key_le(a, b) || Self::key_le(b, a) by {
            lemma_chars_le_total(a, b);
        }
    }

    fn le(&self, other: &Self) -> (r: bool) {
        str_le(self.as_str(), other.as_str())
    }
}

/// The state of the search: the directories still to visit, the
/// directories reached through a symbolic link (visited in the next round),
/// and what was found so far.
pub struct Search {
    pub queue: Seq<(Seq<char>, DirIndex)>,
    pub next: Seq<(Seq<char>, DirIndex)>,
    pub found: AliveModel,
}

/// What the entry `e` of the directory at path `p` adds to the search. A
/// directory is visited later in this round; a symbolic link is listed and
/// resolved: a file it names is listed under the link's path, a directory is
/// listed and visited in the next round.
pub open spec fn visit_entry(s: FsModel, st: Search, p: Seq<char>, e: (Seq<char>, Node)) -> Search {
    let path = path_join(p, e.0);
    match e.1 {
        Node::Dir(i) => Search {
            queue: st.queue.push((path, i)),
            found: AliveModel { dirs: st.found.dirs.push((i, path)), ..st.found },
            ..st
        },
        Node::File(i) => Search { found: AliveModel { files: st.found.files.push((i, path)), ..st.found }, ..st },
        Node::Symlink(i) => {
            let found = AliveModel { symlinks: st.found.symlinks.push(path), ..st.found };
            match resolve_spec(s, s.symlinks[i.0 as int], true, Seq::empty()) {
                Ok((_, Node::File(f))) => Search { found: AliveModel { files: found.files.push((f, path)), ..found }, ..st },
                Ok((_, Node::Dir(d))) => Search {
                    next: st.next.push((path, d)),
                    found: AliveModel { dirs: found.dirs.push((d, path)), ..found },
                    ..st
                },
                _ => Search { found, ..st },
            }
        },
    }
}

/// Visits the first `k` entries of `es`, in order.
pub open spec fn visit_entries(s: FsModel, st: Search, p: Seq<char>, es: Seq<(Seq<char>, Node)>, k: int) -> Search
    decreases k,
{
    if k <= 0 {
        st
    } else {
        visit_entry(s, visit_entries(s, st, p, es, k - 1), p, es[k - 1])
    }
}

/// Takes directories from the front of the queue until it is empty.
/// `None`: more than `fuel` directories.
pub open spec fn search_f(s: FsModel, st: Search, fuel: nat) -> Option<Search>
    decreases fuel,
{
    if st.queue.len() == 0 {
        Some(st)
    } else if fuel == 0 {
        None
    } else {
        let (p, d) = st.queue[0];
        let es = s.dirs[d.0 as int];
        search_f(
            s,
            visit_entries(s, Search { queue: st.queue.drop_first(), ..st }, p, es, es.len() as int),
            (fuel - 1) as nat,
        )
    }
}

/// Whether the search from `st` comes to an end.
pub open spec fn search_ends(s: FsModel, st: Search) -> bool {
    exists|f: nat| (#[trigger] search_f(s, st, f)) is Some
}

/// Where the search from `st` ends.
pub open spec fn search_spec(s: FsModel, st: Search) -> Search {
    search_f(s, st, choose|f: nat| (#[trigger] search_f(s, st, f)) is Some)->0
}

/// The start: the root, found and to be visited.
pub open spec fn alive_start() -> Search {
    Search {
        queue: seq![(seq!['/'], DirIndex(0))],
        next: Seq::empty(),
        found: AliveModel { dirs: seq![(DirIndex(0), seq!['/'])], files: Seq::empty(), symlinks: Seq::empty() },
    }
}

/// `n` rounds of search, each visiting the directories that the last one
/// reached through symbolic links. `None`: some round does not end.
pub open spec fn alive_rounds(s: FsModel, st: Search, n: nat) -> Option<Search>
    decreases n,
{
    if n == 0 {
        Some(st)
    } else if !search_ends(s, st) {
        None
    } else {
        let r = search_spec(s, st);
        alive_rounds(s, Search { queue: r.next, next: Seq::empty(), found: r.found }, (n - 1) as nat)
    }
}

/// What `alive` finds, each list sorted.
pub open spec fn alive_spec(s: FsModel) -> AliveModel {
    let found = alive_rounds(s, alive_start(), MAX_SYMLINK_FOLLOW as nat)->0.found;
    AliveModel {
        dirs: found.dirs.sort_by(key_order::<(DirIndex, PathName)>()),
        files: found.files.sort_by(key_order::<(FileIndex, PathName)>()),
        symlinks: found.symlinks.sort_by(key_order::<PathName>()),
    }
}

/// The model of a queue of directories.
pub open spec fn queue_view(v: Seq<(PathName, DirIndex)>) -> Seq<(Seq<char>, DirIndex)> {
    v.map_values(|e: (PathName, DirIndex)| (e.0@, e.1))
}

/// Every directory and file found exists.
pub open spec fn found_ok(s: FsModel, a: AliveModel) -> bool {
    &&& forall|k: int| 0 <= k < a.dirs.len() ==> (#[trigger] a.dirs[k]).0.0 < s.dirs.len()
    &&& forall|k: int| 0 <= k < a.files.len() ==> (#[trigger] a.files[k]).0.0 < s.files.len()
}

proof fn lemma_sorted_found_ok(s: FsModel, a: AliveModel)
    requires
        found_ok(s, a),
    ensures
        found_ok(
            s,
            AliveModel {
                dirs: a.dirs.sort_by(key_order::<(DirIndex, PathName)>()),
                files: a.files.sort_by(key_order::<(FileIndex, PathName)>()),
                symlinks: a.symlinks,
            },
        ),
        a.dirs.sort_by(key_order::<(DirIndex, PathName)>()).len() == a.dirs.len(),
{
    let dl = key_order::<(DirIndex, PathName)>();
    let fl = key_order::<(FileIndex, PathName)>();
    <(DirIndex, PathName) as SortKey>::lemma_key_le_total();
    <(FileIndex, PathName) as SortKey>::lemma_key_le_total();
    assert(vstd::relations::total_ordering(dl)) by {
        assert forall|x: (DirIndex, Seq<char>), y: (DirIndex, Seq<char>)| #[trigger] dl(x, y) || dl(y, x) by {
            assert(<(DirIndex, PathName) as SortKey>::key_le(x, y) || <(DirIndex, PathName) as SortKey>::key_le(y, x));
        }
    }
    assert(vstd::relations::total_ordering(fl)) by {
        assert forall|x: (FileIndex, Seq<char>), y: (FileIndex, Seq<char>)| #[trigger] fl(x, y) || fl(y, x) by {
            assert(<(FileIndex, PathName) as SortKey>::key_le(x, y) || <(FileIndex, PathName) as SortKey>::key_le(y, x));
        }
    }
    a.dirs.lemma_sort_by_ensures(dl);
    a.files.lemma_sort_by_ensures(fl);
    let sd = a.dirs.sort_by(dl);
    let sf = a.files.sort_by(fl);
    vstd::seq_lib::to_multiset_len(a.dirs);
    vstd::seq_lib::to_multiset_len(sd);
    assert forall|k: int| 0 <= k < sd.len() implies (#[trigger] sd[k]).0.0 < s.dirs.len() by {
        assert(sd.contains(sd[k]));
        let j = choose|j: int| 0 <= j < a.dirs.len() && a.dirs[j] == sd[k];
    }
    assert forall|k: int| 0 <= k < sf.len() implies (#[trigger] sf[k]).0.0 < s.files.len() by {
        assert(sf.contains(sf[k]));
        let j = choose|j: int| 0 <= j < a.files.len() && a.files[j] == sf[k];
    }
}

/// Every directory of the queue exists.
pub open spec fn queue_ok(s: FsModel, q: Seq<(Seq<char>, DirIndex)>) -> bool {
    forall|k: int| 0 <= k < q.len() ==> (#[trigger] q[k]).1.0 < s.dirs.len()
}

impl AbstractFS {
    /// The nodes that are accessible from the root, each list sorted.
    pub fn alive(&self) -> (r: AliveNodes)
        requires
            self.wf(),
            alive_rounds(self@, alive_start(), MAX_SYMLINK_FOLLOW as nat) is Some,
        ensures
            r@ == alive_spec(self@),
            found_ok(self@, r@),
            r@.dirs.len() > 0,
    {
        let root = AbstractFS::root_index();
        let mut alive = AliveNodes { dirs: Vec::new(), files: Vec::new(), symlinks: Vec::new() };
        alive.dirs.push((root, PathName::root()));
        let mut queue: Vec<(PathName, DirIndex)> = Vec::new();
        queue.push((PathName::root(), root));
        let ghost start = Search { queue: queue_view(queue@), next: Seq::empty(), found: alive@ };
        assert(start == alive_start()) by {
            assert(queue_view(queue@) =~= seq![(seq!['/'], DirIndex(0))]);
            assert(alive@.dirs =~= seq![(DirIndex(0), seq!['/'])]);
            assert(alive@.files =~= Seq::<(FileIndex, Seq<char>)>::empty());
            assert(alive@.symlinks =~= Seq::<Seq<char>>::empty());
        }
        let mut round: u8 = 1;
        while round <= MAX_SYMLINK_FOLLOW
            invariant
                self.wf(),
                1 <= round <= MAX_SYMLINK_FOLLOW + 1,
                queue_ok(self@, queue_view(queue@)),
                found_ok(self@, alive@),
                alive@.dirs.len() > 0,
                alive_rounds(self@, alive_start(), MAX_SYMLINK_FOLLOW as nat) == alive_rounds(
                    self@,
                    Search { queue: queue_view(queue@), next: Seq::empty(), found: alive@ },
                    (MAX_SYMLINK_FOLLOW - round + 1) as nat,
                ),
                alive_rounds(self@, alive_start(), MAX_SYMLINK_FOLLOW as nat) is Some,
            decreases MAX_SYMLINK_FOLLOW + 1 - round,
        {
            queue = self.alive_follow_once(&mut alive, queue);
            round = round + 1;
        }
        let ghost found = alive@;
        proof {
            lemma_sorted_found_ok(self@, found);
        }
        let dirs = sort_by_key(alive.dirs);
        let files = sort_by_key(alive.files);
        let symlinks = sort_by_key(alive.symlinks);
        let r = AliveNodes { dirs, files, symlinks };
        assert(r@.dirs == found.dirs.sort_by(key_order::<(DirIndex, PathName)>()));
        assert(r@.files == found.files.sort_by(key_order::<(FileIndex, PathName)>()));
        assert(found_ok(self@, r@)) by {
            let sorted = AliveModel {
                dirs: found.dirs.sort_by(key_order::<(DirIndex, PathName)>()),
                files: found.files.sort_by(key_order::<(FileIndex, PathName)>()),
                symlinks: found.symlinks,
            };
            assert(found_ok(self@, sorted));
            assert(r@.dirs == sorted.dirs);
            assert(r@.files == sorted.files);
        }

        r
    }

    /// Breadth-first search of the queue; returns the directories reached
    /// through symbolic links.
    fn alive_follow_once(&self, alive: &mut AliveNodes, queue: Vec<(PathName, DirIndex)>) -> (next: Vec<
        (PathName, DirIndex),
    >)
        requires
            self.wf(),
            queue_ok(self@, queue_view(queue@)),
            found_ok(self@, old(alive)@),
            search_ends(self@, Search { queue: queue_view(queue@), next: Seq::empty(), found: old(alive)@ }),
        ensures
            queue_ok(self@, queue_view(next@)),
            found_ok(self@, final(alive)@),
            final(alive)@.dirs.len() >= old(alive)@.dirs.len(),
            search_spec(self@, Search { queue: queue_view(queue@), next: Seq::empty(), found: old(alive)@ })
                == (Search { queue: Seq::empty(), next: queue_view(next@), found: final(alive)@ }),
    {
        let ghost s = self@;
        let ghost st0 = Search { queue: queue_view(queue@), next: Seq::empty(), found: alive@ };
        let ghost fuel0 = choose|f: nat| (#[trigger] search_f(s, st0, f)) is Some;
        let ghost mut fuel = fuel0;
        let mut queue = queue;
        let mut qi: usize = 0;
        let mut follow_next: Vec<(PathName, DirIndex)> = Vec::new();
        assert(queue_view(queue@).skip(0) =~= queue_view(queue@));
        assert(queue_view(follow_next@) =~= Seq::<(Seq<char>, DirIndex)>::empty());
        while qi < queue.len()
            invariant
                self.wf(),
                s == self@,
                qi <= queue@.len(),
                queue_ok(s, queue_view(queue@)),
                queue_ok(s, queue_view(follow_next@)),
                found_ok(s, alive@),
                alive@.dirs.len() >= st0.found.dirs.len(),
                search_f(s, st0, fuel0) is Some,
                search_f(s, st0, fuel0) == search_f(
                    s,
                    Search { queue: queue_view(queue@).skip(qi as int), next: queue_view(follow_next@), found: alive@ },
                    fuel,
                ),
            decreases fuel,
        {
            let ghost cur = Search { queue: queue_view(queue@).skip(qi as int), next: queue_view(follow_next@), found: alive@ };
            let dir_path = queue[qi].0.clone();
            let idx = queue[qi].1;
            assert(cur.queue[0] == queue_view(queue@)[qi as int]);
            assert(queue_view(queue@)[qi as int].1.0 < s.dirs.len());
            qi = qi + 1;
            let ghost es = s.dirs[idx.0 as int];
            let ghost popped = Search { queue: cur.queue.drop_first(), ..cur };
            assert(queue_view(queue@).skip(qi as int) =~= cur.queue.drop_first());
            let n = self.dirs[idx.0].children.len();
            let mut k: usize = 0;
            while k < n
                invariant
                    self.wf(),
                    s == self@,
                    idx.0 < s.dirs.len(),
                    es == s.dirs[idx.0 as int],
                    n == es.len(),
                    k <= n,
                    dir_path@ == cur.queue[0].0,
                    qi <= queue@.len(),
                    queue_ok(s, queue_view(queue@)),
                    queue_ok(s, queue_view(follow_next@)),
                    found_ok(s, alive@),
                    alive@.dirs.len() >= st0.found.dirs.len(),
                    visit_entries(s, popped, dir_path@, es, k as int) == (Search {
                        queue: queue_view(queue@).skip(qi as int),
                        next: queue_view(follow_next@),
                        found: alive@,
                    }),
                decreases n - k,
            {
                let ghost before = Search { queue: queue_view(queue@).skip(qi as int), next: queue_view(follow_next@), found: alive@ };
                let child_name = self.dirs[idx.0].children[k].0.as_str();
                let node = self.dirs[idx.0].children[k].1;
                assert(es[k as int] == (child_name@, node));
                assert(node_ok(s, node)) by {
                    assert(s.dirs[idx.0 as int][k as int] == es[k as int]);
                }
                let path = dir_path.join(child_name);
                let ghost qv = queue_view(queue@);
                let ghost av = alive@;
                match node {
                    Node::Dir(d) => {
                        assert(d.0 < s.dirs.len());
                        queue.push((path.clone(), d));
                        alive.dirs.push((d, path));
                        assert(queue_view(queue@) =~= qv.push((path@, d)));
                        assert(queue_view(queue@).skip(qi as int) =~= before.queue.push((path@, d)));
                        assert(alive@.dirs =~= av.dirs.push((d, path@)));
                        assert(alive@.files =~= av.files);
                        assert(found_ok(s, alive@));
                    },
                    Node::File(f) => {
                        alive.files.push((f, path));
                        assert(alive@.files =~= av.files.push((f, path@)));
                        assert(found_ok(s, alive@));
                    },
                    Node::Symlink(l) => {
                        alive.symlinks.push(path.clone());
                        assert(alive@.symlinks =~= av.symlinks.push(path@));
                        let ghost av2 = alive@;
                        assert(av2.dirs =~= av.dirs);
                        assert(av2.files =~= av.files);
                        assert(found_ok(s, av2));
                        let target = self.sym(&l).target.clone();
                        assert(target@ == s.symlinks[l.0 as int]);
                        let res = self.resolve_node(target, true);
                        assert(res matches Ok((_, n)) ==> node_ok(s, n));
                        match res {
                            Ok((_, Node::File(f))) => {
                                assert(f.0 < s.files.len());
                                alive.files.push((f, path));
                                assert(alive@.files =~= av2.files.push((f, path@)));
                                assert(found_ok(s, alive@));
                            },
                            Ok((_, Node::Dir(d))) => {
                                assert(d.0 < s.dirs.len());
                                let ghost fv = queue_view(follow_next@);
                                follow_next.push((path.clone(), d));
                                alive.dirs.push((d, path));
                                assert(queue_view(follow_next@) =~= fv.push((path@, d)));
                                assert(alive@.dirs =~= av2.dirs.push((d, path@)));
                                assert(found_ok(s, alive@));
                            },
                            _ => {},
                        }
                    },
                }
                k = k + 1;
            }
            proof {
                fuel = (fuel - 1) as nat;
            }
        }
        proof {
            assert(queue_view(queue@).skip(qi as int) =~= Seq::<(Seq<char>, DirIndex)>::empty());
            lemma_search_spec(s, st0, fuel0);
        }
        follow_next
    }
}

proof fn lemma_search_fuel(s: FsModel, st: Search, f: nat, g: nat)
    requires
        search_f(s, st, f) is Some,
        f <= g,
    ensures
        search_f(s, st, g) == search_f(s, st, f),
    decreases f,
{
    if st.queue.len() > 0 && f > 0 {
        let (p, d) = st.queue[0];
        let es = s.dirs[d.0 as int];
        let t = visit_entries(s, Search { queue: st.queue.drop_first(), ..st }, p, es, es.len() as int);
        lemma_search_fuel(s, t, (f - 1) as nat, (g - 1) as nat);
    }
}

proof fn lemma_search_spec(s: FsModel, st: Search, f: nat)
    requires
        search_f(s, st, f) is Some,
    ensures
        search_spec(s, st) == search_f(s, st, f)->0,
{
    let g = choose|g: nat| (#[trigger] search_f(s, st, g)) is Some;
    if f <= g {
        lemma_search_fuel(s, st, f, g);
    } else {
        lemma_search_fuel(s, st, g, f);
    }
}

} // verus!
