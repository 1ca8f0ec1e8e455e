//! Absolute path names inside the abstract file system.

use vstd::prelude::*;

use crate::text::{push_str, split_by, split_chars, to_chars, chars_to_string};

verus! {

/// A single path component.
pub type Name = String;

/// An absolute path such as `/foo/bar`; `/` is the root.
#[derive(Debug, PartialEq, Eq, Hash, PartialOrd, Ord)]
pub struct PathName(pub String);

impl View for PathName {
    type V = Seq<char>;

    open spec fn view(&self) -> Seq<char> {
        self.0@
    }
}

impl Clone for PathName {
    fn clone(&self) -> (r: Self)
        ensures
            r@ == self@,
    {
        PathName(self.0.clone())
    }
}

/// Whether `p` is the root path `/`.
pub open spec fn is_root_path(p: Seq<char>) -> bool {
    p == seq!['/']
}

/// A valid path starts with `/`, and is either the root or has no empty
/// component (no doubled and no trailing `/`).
pub open spec fn is_valid_path(p: Seq<char>) -> bool {
    &&& p.len() > 0
    &&& p[0] == '/'
    &&& (is_root_path(p) || forall|i: int|
        0 <= i < split_by(p.drop_first(), seq!['/']).len() ==> #[trigger] split_by(
            p.drop_first(),
            seq!['/'],
        )[i].len() > 0)
}

/// The components of a path: none for the root, otherwise the pieces between `/`.
pub open spec fn path_segments(p: Seq<char>) -> Seq<Seq<char>> {
    if p.len() == 0 || is_root_path(p) {
        Seq::empty()
    } else if p[0] == '/' {
        split_by(p.drop_first(), seq!['/'])
    } else {
        split_by(p, seq!['/'])
    }
}

/// The index of the last `/` in `p`, if any.
pub open spec fn last_slash(p: Seq<char>) -> Option<int>
    decreases p.len(),
{
    if p.len() == 0 {
        None
    } else if p.last() == '/' {
        Some(p.len() - 1)
    } else {
        last_slash(p.drop_last())
    }
}

/// The parent of a path: what precedes its last `/` (the root when that is the
/// first character), or the empty path when there is no `/`.
pub open spec fn path_parent(p: Seq<char>) -> Seq<char> {
    match last_slash(p) {
        None => Seq::empty(),
        Some(k) => if k == 0 {
            seq!['/']
        } else {
            p.take(k)
        },
    }
}

/// The last component of a path: what follows its last `/`.
pub open spec fn path_name(p: Seq<char>) -> Seq<char> {
    match last_slash(p) {
        None => p,
        Some(k) => p.skip(k + 1),
    }
}

/// `p` extended by one component.
pub open spec fn path_join(p: Seq<char>, name: Seq<char>) -> Seq<char> {
    if is_root_path(p) {
        p + name
    } else {
        p.push('/') + name
    }
}

proof fn lemma_last_slash(p: Seq<char>)
    ensures
        last_slash(p) matches Some(k) ==> 0 <= k < p.len() && p[k] == '/' && forall|j: int|
            k < j < p.len() ==> p[j] != '/',
        last_slash(p) is None ==> forall|j: int| 0 <= j < p.len() ==> p[j] != '/',
    decreases p.len(),
{
    if p.len() > 0 && p.last() != '/' {
        lemma_last_slash(p.drop_last());
        assert forall|j: int| 0 <= j < p.len() - 1 implies p.drop_last()[j] == p[j] by {}
    }
}

impl PathName {
    /// A path from its text.
    pub fn new(s: &str) -> (r: PathName)
        ensures
            r@ == s@,
    {
        PathName(s.to_owned())
    }

    /// The root path `/`.
    pub fn root() -> (r: PathName)
        ensures
            is_root_path(r@),
    {
        let mut s = String::new();
        crate::text::push_char(&mut s, '/');
        assert(s@ =~= seq!['/']);
        PathName(s)
    }

    /// The text of the path.
    pub fn as_str(&self) -> (r: &str)
        ensures
            r@ == self@,
    {
        self.0.as_str()
    }

    /// The characters of the path.
    pub fn chars(&self) -> (r: Vec<char>)
        ensures
            r@ == self@,
    {
        to_chars(self.0.as_str())
    }

    pub fn is_root(&self) -> (r: bool)
        ensures
            r == is_root_path(self@),
    {
        let c = self.chars();
        let r = c.len() == 1 && c[0] == '/';
        proof {
            if c.len() == 1 && c[0] == '/' {
                assert(self@ =~= seq!['/']);
            }
        }
        r
    }

    pub fn is_valid(&self) -> (r: bool)
        ensures
            r == is_valid_path(self@),
    {
        let c = self.chars();
        if c.len() == 0 || c[0] != '/' {
            return false;
        }
        if c.len() == 1 {
            assert(self@ =~= seq!['/']);
            return true;
        }
        assert(!is_root_path(self@));
        let rest = slice_from(&c, 1);
        assert(c@.skip(1) =~= self@.drop_first());
        let parts = split_chars(rest.as_slice(), &['/']);
        assert(seq!['/'] =~= [ '/' ]@);
        let mut i: usize = 0;
        while i < parts.len()
            invariant
                !is_root_path(self@),
                self@.len() > 0,
                self@[0] == '/',
                rest@ == self@.drop_first(),
                parts@.len() == split_by(rest@, seq!['/']).len(),
                forall|k: int| 0 <= k < parts@.len() ==> #[trigger] parts@[k]@ == split_by(rest@, seq!['/'])[k],
                i <= parts.len(),
                forall|k: int| 0 <= k < i ==> #[trigger] split_by(rest@, seq!['/'])[k].len() > 0,
            decreases parts.len() - i,
        {
            if parts[i].len() == 0 {
                assert(split_by(rest@, seq!['/'])[i as int].len() == 0);
                assert(split_by(self@.drop_first(), seq!['/'])[i as int].len() == 0);
                return false;
            }
            i = i + 1;
        }
        true
    }

    /// The components of the path.
    pub fn segments(&self) -> (r: Vec<Name>)
        ensures
            r@.len() == path_segments(self@).len(),
            forall|i: int| 0 <= i < r@.len() ==> #[trigger] r@[i]@ == path_segments(self@)[i],
    {
        let c = self.chars();
        if c.len() == 0 || (c.len() == 1 && c[0] == '/') {
            proof {
                if c.len() == 1 {
                    assert(self@ =~= seq!['/']);
                }
            }
            return Vec::new();
        }
        assert(!is_root_path(self@));
        let rest = if c[0] == '/' {
            slice_from(&c, 1)
        } else {
            slice_from(&c, 0)
        };
        assert(self@.skip(0) =~= self@);
        let parts = split_chars(rest.as_slice(), &['/']);
        assert(seq!['/'] =~= [ '/' ]@);
        let mut r: Vec<Name> = Vec::new();
        let mut i: usize = 0;
        while i < parts.len()
            invariant
                rest@ == (if self@[0] == '/' { self@.drop_first() } else { self@ }),
                parts@.len() == split_by(rest@, seq!['/']).len(),
                forall|k: int| 0 <= k < parts@.len() ==> #[trigger] parts@[k]@ == split_by(rest@, seq!['/'])[k],
                i <= parts.len(),
                r@.len() == i,
                forall|k: int| 0 <= k < i ==> #[trigger] r@[k]@ == split_by(rest@, seq!['/'])[k],
            decreases parts.len() - i,
        {
            let s = chars_to_string(parts[i].as_slice());
            r.push(s);
            i = i + 1;
        }
        r
    }

    /// Splits the path into its parent and its last component.
    pub fn split(&self) -> (r: (PathName, Name))
        ensures
            r.0@ == path_parent(self@),
            r.1@ == path_name(self@),
    {
        let c = self.chars();
        let mut k: usize = c.len();
        assert(c@.take(c@.len() as int) =~= c@);
        while k > 0 && c[k - 1] != '/'
            invariant
                k <= c.len(),
                c@ == self@,
                last_slash(self@) == last_slash(c@.take(k as int)),
            decreases k,
        {
            assert(c@.take(k as int).drop_last() =~= c@.take(k - 1));
            k = k - 1;
        }
        proof {
            lemma_last_slash(self@);
            assert(c@.take(c@.len() as int) =~= c@);
            if k > 0 {
                assert(c@.take(k as int).last() == '/');
            }
        }
        if k == 0 {
            assert(c@.take(0) =~= Seq::<char>::empty());
            (PathName(String::new()), chars_to_string(c.as_slice()))
        } else {
            let parent = if k == 1 {
                PathName::root()
            } else {
                let p = slice_to(&c, k - 1);
                PathName(chars_to_string(p.as_slice()))
            };
            let name = slice_from(&c, k);
            (parent, chars_to_string(name.as_slice()))
        }
    }

    /// The path extended by one component.
    pub fn join(&self, name: &str) -> (r: PathName)
        ensures
            r@ == path_join(self@, name@),
    {
        let mut s = self.0.clone();
        if !self.is_root() {
            crate::text::push_char(&mut s, '/');
        }
        push_str(&mut s, name);
        PathName(s)
    }

    /// Whether the components of this path begin the components of `other`.
    pub fn is_prefix_of(&self, other: &PathName) -> (r: bool)
        ensures
            r == path_segments(self@).is_prefix_of(path_segments(other@)),
    {
        let a = self.segments();
        let b = other.segments();
        if a.len() > b.len() {
            return false;
        }
        let mut i: usize = 0;
        while i < a.len()
            invariant
                i <= a.len() <= b.len(),
                a@.len() == path_segments(self@).len(),
                b@.len() == path_segments(other@).len(),
                forall|k: int| 0 <= k < a@.len() ==> #[trigger] a@[k]@ == path_segments(self@)[k],
                forall|k: int| 0 <= k < b@.len() ==> #[trigger] b@[k]@ == path_segments(other@)[k],
                forall|k: int| 0 <= k < i ==> path_segments(self@)[k] == path_segments(other@)[k],
            decreases a.len() - i,
        {
            if a[i] != b[i] {
                return false;
            }
            i = i + 1;
        }
        true
    }
}

/// The characters of `v` from index `k` on.
pub fn slice_from(v: &Vec<char>, k: usize) -> (r: Vec<char>)
    requires
        k <= v.len(),
    ensures
        r@ == v@.skip(k as int),
{
    let mut r: Vec<char> = Vec::new();
    let mut i: usize = k;
    while i < v.len()
        invariant
            k <= i <= v.len(),
            r@ == v@.subrange(k as int, i as int),
        decreases v.len() - i,
    {
        r.push(v[i]);
        i = i + 1;
        assert(r@ =~= v@.subrange(k as int, i as int));
    }
    assert(r@ =~= v@.skip(k as int));
    r
}

/// The first `k` characters of `v`.
pub fn slice_to(v: &Vec<char>, k: usize) -> (r: Vec<char>)
    requires
        k <= v.len(),
    ensures
        r@ == v@.take(k as int),
{
    let mut r: Vec<char> = Vec::new();
    let mut i: usize = 0;
    while i < k
        invariant
            i <= k <= v.len(),
            r@ == v@.take(i as int),
        decreases k - i,
    {
        r.push(v[i]);
        i = i + 1;
        assert(r@ =~= v@.take(i as int));
    }
    r
}

} // verus!
