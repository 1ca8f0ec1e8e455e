//! Ordering of strings and sorting by a key.
//!
//! Strings are ordered as `String` orders them: byte by byte, which for
//! UTF-8 is the same as character by character by code point.

use vstd::prelude::*;
use vstd::relations::{sorted_by, total_ordering};

use crate::text::to_chars;

verus! {

broadcast use vstd::seq_lib::group_to_multiset_ensures;

/// Lexicographic order on character sequences, by code point.
pub open spec fn chars_le(a: Seq<char>, b: Seq<char>) -> bool
    decreases a.len(),
{
    if a.len() == 0 {
        true
    } else if b.len() == 0 {
        false
    } else if a[0] != b[0] {
        (a[0] as int) < (b[0] as int)
    } else {
        chars_le(a.drop_first(), b.drop_first())
    }
}

pub proof fn lemma_chars_le_reflexive(a: Seq<char>)
    ensures
        chars_le(a, a),
    decreases a.len(),
{
    if a.len() > 0 {
        lemma_chars_le_reflexive(a.drop_first());
    }
}

pub proof fn lemma_chars_le_antisymmetric(a: Seq<char>, b: Seq<char>)
    requires
        chars_le(a, b),
        chars_le(b, a),
    ensures
        a == b,
    decreases a.len(),
{
    if a.len() > 0 && b.len() > 0 {
        if a[0] == b[0] {
            lemma_chars_le_antisymmetric(a.drop_first(), b.drop_first());
            assert(a =~= seq![a[0]] + a.drop_first());
            assert(b =~= seq![b[0]] + b.drop_first());
        }
    }
}

pub proof fn lemma_chars_le_transitive(a: Seq<char>, b: Seq<char>, c: Seq<char>)
    requires
        chars_le(a, b),
        chars_le(b, c),
    ensures
        chars_le(a, c),
    decreases a.len(),
{
    if a.len() > 0 && b.len() > 0 && c.len() > 0 {
        if a[0] == b[0] && b[0] == c[0] {
            lemma_chars_le_transitive(a.drop_first(), b.drop_first(), c.drop_first());
        }
    }
}

pub proof fn lemma_chars_le_total(a: Seq<char>, b: Seq<char>)
    ensures
        chars_le(a, b) || chars_le(b, a),
    decreases a.len(),
{
    if a.len() > 0 && b.len() > 0 && a[0] == b[0] {
        lemma_chars_le_total(a.drop_first(), b.drop_first());
    }
}

/// Whether `a` comes before `b` or equals it, as `String`s compare.
pub fn str_le(a: &str, b: &str) -> (r: bool)
    ensures
        r == chars_le(a@, b@),
{
    let x = to_chars(a);
    let y = to_chars(b);
    let mut i: usize = 0;
    assert(a@.skip(0) =~= a@ && b@.skip(0) =~= b@);
    while i < x.len()
        invariant
            x@ == a@,
            y@ == b@,
            i <= x@.len(),
            i <= y@.len(),
            forall|k: int| 0 <= k < i ==> x@[k] == y@[k],
            chars_le(a@, b@) == chars_le(a@.skip(i as int), b@.skip(i as int)),
        decreases x@.len() - i,
    {
        if i >= y.len() {
            return false;
        }
        let c = x[i];
        let d = y[i];
        assert(a@.skip(i as int)[0] == c && b@.skip(i as int)[0] == d);
        if c != d {
            return c < d;
        }
        assert(a@.skip(i as int).drop_first() =~= a@.skip(i + 1));
        assert(b@.skip(i as int).drop_first() =~= b@.skip(i + 1));
        i = i + 1;
    }
    true
}

/// Values that are sorted by a key with a total order on it.
pub trait SortKey: Sized {
    type K;

    /// The key the value is sorted by.
    spec fn key(&self) -> Self::K;

    /// The order on keys.
    spec fn key_le(a: Self::K, b: Self::K) -> bool;

    proof fn lemma_key_le_total()
        ensures
            forall|a: Self::K| #[trigger] Self::key_le(a, a),
            forall|a: Self::K, b: Self::K|
                #![trigger Self::key_le(a, b), Self::key_le(b, a)]
                Self::key_le(a, b) && Self::key_le(b, a) ==> a == b,
            forall|a: Self::K, b: Self::K, c: Self::K|
                #![trigger Self::key_le(a, b), Self::key_le(b, c)]
                Self::key_le(a, b) && Self::key_le(b, c) ==> Self::key_le(a, c),
            forall|a: Self::K, b: Self::K| #![trigger Self::key_le(a, b)] Self::key_le(a, b) || Self::key_le(b, a),
    ;

    /// Compares the keys of two values.
    fn le(&self, other: &Self) -> (r: bool)
        ensures
            r == Self::key_le(self.key(), other.key()),
    ;
}

/// The order on the keys of `T`.
pub open spec fn key_order<T: SortKey>() -> spec_fn(T::K, T::K) -> bool {
    |a: T::K, b: T::K| T::key_le(a, b)
}

/// The keys of a sequence of values.
pub open spec fn keys<T: SortKey>(s: Seq<T>) -> Seq<T::K> {
    s.map_values(|x: T| x.key())
}

/// Sorts `v` by key (insertion sort).
pub fn sort_by_key<T: SortKey>(v: Vec<T>) -> (r: Vec<T>)
    ensures
        keys(r@) == keys(v@).sort_by(key_order::<T>()),
{
    let ghost leq = key_order::<T>();
    proof {
        T::lemma_key_le_total();
        assert(total_ordering(leq)) by {
            assert forall|a: T::K, b: T::K| #[trigger] leq(a, b) || leq(b, a) by {
                assert(T::key_le(a, b) || T::key_le(b, a));
            }
        }
    }
    let ghost v0 = v@;
    let mut v = v;
    let mut r: Vec<T> = Vec::new();
    assert(keys(r@) =~= Seq::<T::K>::empty());
    while v.len() > 0
        invariant
            total_ordering(leq),
            leq == key_order::<T>(),
            sorted_by(keys(r@), leq),
            keys(r@).to_multiset().add(keys(v@).to_multiset()) == keys(v0).to_multiset(),
        decreases v@.len(),
    {
        let ghost vb = v@;
        let x = v.pop().unwrap();
        assert(keys(vb) =~= keys(v@).push(x.key()));
        let mut j: usize = 0;
        while j < r.len() && r[j].le(&x)
            invariant
                j <= r@.len(),
                forall|k: int| 0 <= k < j ==> T::key_le(#[trigger] r@[k].key(), x.key()),
            decreases r@.len() - j,
        {
            j = j + 1;
        }
        let ghost rb = r@;
        r.insert(j, x);
        proof {
            let kr = keys(r@);
            let kb = keys(rb);
            let xk = x.key();
            assert(kr =~= kb.insert(j as int, xk));
            if j < rb.len() {
                assert(!T::key_le(rb[j as int].key(), xk));
                assert(leq(xk, kb[j as int]) || leq(kb[j as int], xk));
            }
            assert forall|a: int, b: int| 0 <= a < b < kr.len() implies #[trigger] leq(kr[a], kr[b]) by {
                if b < j {
                    assert(kr[a] == kb[a] && kr[b] == kb[b]);
                } else if b == j {
                    assert(kr[a] == kb[a] && kr[b] == xk);
                    assert(T::key_le(rb[a].key(), xk));
                } else if a > j {
                    assert(kr[a] == kb[a - 1] && kr[b] == kb[b - 1]);
                } else if a == j {
                    assert(kr[a] == xk && kr[b] == kb[b - 1]);
                    if b - 1 > j {
                        assert(leq(kb[j as int], kb[b - 1]));
                    }
                } else {
                    assert(kr[a] == kb[a] && kr[b] == kb[b - 1]);
                    assert(leq(kb[a], kb[b - 1]));
                }
            }
            vstd::seq_lib::to_multiset_insert(kb, j as int, xk);
            assert(kr.to_multiset() == kb.to_multiset().insert(xk));
            assert(keys(vb).to_multiset() == keys(v@).to_multiset().insert(xk));
            assert(kr.to_multiset().add(keys(v@).to_multiset()) =~= kb.to_multiset().add(keys(vb).to_multiset()));
        }
    }
    proof {
        assert(keys(v@) =~= Seq::<T::K>::empty());
        assert(keys(r@).to_multiset() =~= keys(v0).to_multiset());
        keys(v0).lemma_sort_by_ensures(leq);
        vstd::seq_lib::lemma_sorted_unique(keys(r@), keys(v0).sort_by(leq), leq);
    }
    r
}

} // verus!
