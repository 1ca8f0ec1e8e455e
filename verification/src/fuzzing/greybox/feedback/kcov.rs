//! Kernel coverage: the kcov file lists one hexadecimal address per line,
//! once for each time the kernel passed it.

use vstd::prelude::*;

use std::collections::{HashMap, HashSet};

use super::{CoverageType, FeedbackOpinion};
use crate::text::{lines_of, lines_spec, parse_unsigned, parse_unsigned_chars, to_chars, ParseIntError};

verus! {

broadcast use vstd::std_specs::hash::group_hash_axioms;

/// The name of the coverage file that a test run leaves.
pub const KCOV_FILENAME: &'static str = "kcov.dat";

/// `s` without any number of leading `0x`.
pub open spec fn strip_hex_prefix(s: Seq<char>) -> Seq<char>
    decreases s.len(),
{
    if s.len() >= 2 && s[0] == '0' && s[1] == 'x' {
        strip_hex_prefix(s.skip(2))
    } else {
        s
    }
}

/// An address: hexadecimal digits, after any number of `0x` prefixes.
pub open spec fn parse_addr_spec(addr: Seq<char>) -> Result<u64, ParseIntError> {
    match parse_unsigned(strip_hex_prefix(addr), 16, u64::MAX as nat) {
        Ok(v) => Ok(v as u64),
        Err(k) => Err(ParseIntError { kind: k }),
    }
}

/// The addresses of the lines, in order, or the error of the first bad line.
pub open spec fn parse_addrs(lines: Seq<Seq<char>>) -> Result<Seq<u64>, ParseIntError>
    decreases lines.len(),
{
    if lines.len() == 0 {
        Ok(Seq::empty())
    } else {
        match parse_addrs(lines.drop_last()) {
            Err(e) => Err(e),
            Ok(v) => match parse_addr_spec(lines.last()) {
                Err(e) => Err(e),
                Ok(a) => Ok(v.push(a)),
            },
        }
    }
}

/// Parses an address as the kcov file writes it.
pub fn parse_addr(addr: &str) -> (r: Result<u64, ParseIntError>)
    ensures
        r == parse_addr_spec(addr@),
{
    let c = to_chars(addr);
    let mut start: usize = 0;
    assert(c@.skip(0) =~= c@);
    while c.len() - start >= 2 && c[start] == '0' && c[start + 1] == 'x'
        invariant
            start <= c@.len(),
            c@ == addr@,
            strip_hex_prefix(addr@) == strip_hex_prefix(c@.skip(start as int)),
        decreases c@.len() - start,
    {
        assert(c@.skip(start as int).skip(2) =~= c@.skip(start + 2));
        start = start + 2;
    }
    let mut rest: Vec<char> = Vec::new();
    let mut i = start;
    while i < c.len()
        invariant
            start <= i <= c@.len(),
            rest@ == c@.subrange(start as int, i as int),
        decreases c@.len() - i,
    {
        rest.push(c[i]);
        i = i + 1;
        assert(rest@ =~= c@.subrange(start as int, i as int));
    }
    assert(rest@ =~= c@.skip(start as int));
    parse_unsigned_chars(rest.as_slice(), 16, u64::MAX)
}

/// The addresses of a kcov file, in order.
pub fn parse_kcov_addrs(text: &str) -> (r: Result<Vec<u64>, ParseIntError>)
    ensures
        match r {
            Ok(v) => parse_addrs(lines_spec(text@)) == Ok::<Seq<u64>, ParseIntError>(v@),
            Err(e) => parse_addrs(lines_spec(text@)) == Err::<Seq<u64>, ParseIntError>(e),
        },
{
    let lines = lines_of(text);
    let ghost ls = lines_spec(text@);
    let mut addrs: Vec<u64> = Vec::new();
    let mut i: usize = 0;
    while i < lines.len()
        invariant
            ls == lines_spec(text@),
            lines@.len() == ls.len(),
            forall|k: int| 0 <= k < lines@.len() ==> #[trigger] lines@[k]@ == ls[k],
            i <= lines@.len(),
            parse_addrs(ls.take(i as int)) == Ok::<Seq<u64>, ParseIntError>(addrs@),
        decreases lines@.len() - i,
    {
        assert(ls.take(i + 1).drop_last() =~= ls.take(i as int));
        assert(ls.take(i + 1).last() == lines@[i as int]@);
        let line = crate::text::chars_to_string(lines[i].as_slice());
        match parse_addr(line.as_str()) {
            Ok(a) => {
                addrs.push(a);
            },
            Err(e) => {
                proof {
                    assert(parse_addrs(ls.take(i + 1)) == Err::<Seq<u64>, ParseIntError>(e));
                    lemma_parse_addrs_err(ls, i as int + 1, e);
                }
                return Err(e);
            },
        }
        i = i + 1;
    }
    assert(ls.take(i as int) =~= ls);
    Ok(addrs)
}

proof fn lemma_parse_addrs_err(ls: Seq<Seq<char>>, i: int, e: ParseIntError)
    requires
        0 < i <= ls.len(),
        parse_addrs(ls.take(i)) == Err::<Seq<u64>, ParseIntError>(e),
    ensures
        parse_addrs(ls) == Err::<Seq<u64>, ParseIntError>(e),
    decreases ls.len() - i,
{
    if i < ls.len() {
        assert(ls.take(i + 1).drop_last() =~= ls.take(i));
        lemma_parse_addrs_err(ls, i + 1, e);
    } else {
        assert(ls.take(i) =~= ls);
    }
}

/// Feedback that keeps the set of all kernel addresses seen so far.
pub struct KCovFeedback {
    pub all_coverage: HashSet<u64>,
    pub kcov_path: String,
}

impl KCovFeedback {
    pub fn new(kcov_path: String) -> (r: Self)
        ensures
            r.all_coverage@ == Set::<u64>::empty(),
            r.kcov_path@ == kcov_path@,
    {
        Self { all_coverage: HashSet::new(), kcov_path }
    }

    /// Adds the addresses of a test run; whether some of them were new.
    pub fn absorb(&mut self, new_coverage: &Vec<u64>) -> (r: bool)
        ensures
            r == !new_coverage@.to_set().subset_of(old(self).all_coverage@),
            final(self).all_coverage@ == old(self).all_coverage@.union(new_coverage@.to_set()),
            final(self).kcov_path == old(self).kcov_path,
    {
        let ghost old_set = self.all_coverage@;
        let mut any_new = false;
        let mut i: usize = 0;
        while i < new_coverage.len()
            invariant
                i <= new_coverage@.len(),
                self.all_coverage@ == old_set.union(new_coverage@.take(i as int).to_set()),
                any_new == !new_coverage@.take(i as int).to_set().subset_of(old_set),
                self.kcov_path == old(self).kcov_path,
            decreases new_coverage@.len() - i,
        {
            let a = new_coverage[i];
            if !self.all_coverage.contains(&a) {
                assert(!old_set.contains(a));
                any_new = true;
            }
            self.all_coverage.insert(a);
            assert(new_coverage@.take(i + 1) =~= new_coverage@.take(i as int).push(a));
            proof {
                new_coverage@.take(i as int).lemma_push_to_set_commute(a);
            }
            assert(self.all_coverage@ =~= old_set.union(new_coverage@.take(i + 1).to_set()));
            i = i + 1;
        }
        assert(new_coverage@.take(i as int) =~= new_coverage@);
        any_new
    }

    /// Reads the addresses of a test run from the kcov file's text; whether
    /// some of them were new. A bad line is an error and changes nothing.
    pub fn is_interesting(&mut self, kcov: &str) -> (r: Result<bool, ParseIntError>)
        ensures
            match parse_addrs(lines_spec(kcov@)) {
                Err(e) => r == Err::<bool, ParseIntError>(e) && final(self).all_coverage@ == old(
                    self,
                ).all_coverage@,
                Ok(v) => r == Ok::<bool, ParseIntError>(!v.to_set().subset_of(old(self).all_coverage@))
                    && final(self).all_coverage@ == old(self).all_coverage@.union(v.to_set()),
            },
    {
        match parse_kcov_addrs(kcov) {
            Err(e) => Err(e),
            Ok(v) => Ok(self.absorb(&v)),
        }
    }
}

/// The number of times each address occurs.
pub open spec fn addr_counts(v: Seq<u64>) -> Map<u64, nat>
    decreases v.len(),
{
    if v.len() == 0 {
        Map::empty()
    } else {
        let m = addr_counts(v.drop_last());
        m.insert(v.last(), if m.contains_key(v.last()) { m[v.last()] + 1 } else { 1 })
    }
}

/// The total coverage after a run with the given counts: each address of
/// the run adds its count.
pub open spec fn add_counts(total: Map<u64, u64>, counts: Map<u64, nat>) -> Map<u64, int> {
    Map::new(
        |a: u64| total.contains_key(a) || counts.contains_key(a),
        |a: u64|
            (if total.contains_key(a) { total[a] as int } else { 0 }) + (if counts.contains_key(a) {
                counts[a] as int
            } else {
                0
            }),
    )
}

/// Whether the run reached `a` and its total so far is zero.
pub open spec fn fresh_addr(total: Map<u64, u64>, counts: Map<u64, nat>, a: u64) -> bool {
    counts.contains_key(a) && (!total.contains_key(a) || total[a] == 0)
}

/// Whether a run reached an address whose total so far is zero.
pub open spec fn reaches_new(total: Map<u64, u64>, counts: Map<u64, nat>) -> bool {
    exists|a: u64| #[trigger] fresh_addr(total, counts, a)
}

/// The addresses of a kcov file (none if a line is bad).
pub open spec fn kcov_addrs(text: Seq<char>) -> Seq<u64> {
    match parse_addrs(lines_spec(text)) {
        Ok(v) => v,
        Err(_) => Seq::empty(),
    }
}

/// Whether the totals after a run with addresses `v` still fit in 64 bits.
pub open spec fn counts_fit(total: Map<u64, u64>, v: Seq<u64>) -> bool {
    forall|a: u64|
        add_counts(total, addr_counts(v)).contains_key(a) ==> #[trigger] add_counts(total, addr_counts(v))[a]
            <= u64::MAX
}

proof fn lemma_counts_step(v: Seq<u64>, i: int)
    requires
        0 <= i < v.len(),
    ensures
        addr_counts(v.take(i + 1)) == addr_counts(v.take(i)).insert(
            v[i],
            if addr_counts(v.take(i)).contains_key(v[i]) {
                addr_counts(v.take(i))[v[i]] + 1
            } else {
                1
            },
        ),
{
    assert(v.take(i + 1).drop_last() =~= v.take(i));
}

proof fn lemma_counts_prefix(v: Seq<u64>, i: int, a: u64)
    requires
        0 <= i <= v.len(),
        addr_counts(v.take(i)).contains_key(a),
    ensures
        addr_counts(v).contains_key(a),
        addr_counts(v.take(i))[a] <= addr_counts(v)[a],
    decreases v.len() - i,
{
    if i < v.len() {
        lemma_counts_step(v, i);
        lemma_counts_prefix(v, i + 1, a);
    } else {
        assert(v.take(i) =~= v);
    }
}

/// Kernel coverage feedback: the total count of each address seen so far.
pub struct KCovCoverageFeedback {
    pub map: HashMap<u64, u64>,
}

impl KCovCoverageFeedback {
    pub fn new() -> (r: Self)
        ensures
            r.map@ == Map::<u64, u64>::empty(),
    {
        Self { map: HashMap::new() }
    }

    pub fn coverage_type(&self) -> (r: CoverageType)
        ensures
            r == CoverageType::KCov,
    {
        CoverageType::KCov
    }

    /// Judges a test run by the text of its kcov file: interesting if it
    /// reached an address whose total was zero; each address's total grows
    /// by the number of times the run reached it. A bad line is an error
    /// and changes nothing.
    pub fn opinion(&mut self, kcov: &str) -> (r: Result<FeedbackOpinion, ParseIntError>)
        requires
            counts_fit(old(self).map@, kcov_addrs(kcov@)),
        ensures
            match parse_addrs(lines_spec(kcov@)) {
                Err(e) => r matches Err(x) && x == e && final(self).map@ == old(self).map@,
                Ok(v) => r matches Ok(o) && (o is Interesting) == reaches_new(old(self).map@, addr_counts(v))
                    && (match o {
                        FeedbackOpinion::Interesting(c) => c@,
                        FeedbackOpinion::NotInteresting(c) => c@,
                    }) == v.to_set() && final(self).map@.dom() == add_counts(old(self).map@, addr_counts(v)).dom()
                    && forall|a: u64| #[trigger]
                        final(self).map@.contains_key(a) ==> final(self).map@[a] == add_counts(
                            old(self).map@,
                            addr_counts(v),
                        )[a],
            },
    {
        let addrs = match parse_kcov_addrs(kcov) {
            Err(e) => {
                return Err(e);
            },
            Ok(v) => v,
        };
        let ghost old_map = self.map@;
        let ghost v = addrs@;
        let mut interesting = false;
        let mut coverage: HashSet<u64> = HashSet::new();
        let mut i: usize = 0;
        assert(v.take(0) =~= Seq::<u64>::empty());
        assert(coverage@ =~= v.take(0).to_set());
        assert(self.map@ =~= old_map);
        assert(kcov_addrs(kcov@) == v);
        while i < addrs.len()
            invariant
                v == addrs@,
                i <= v.len(),
                forall|a: u64|
                    add_counts(old_map, addr_counts(v)).contains_key(a) ==> #[trigger] add_counts(
                        old_map,
                        addr_counts(v),
                    )[a] <= u64::MAX,
                coverage@ == v.take(i as int).to_set(),
                forall|a: u64| coverage@.contains(a) <==> #[trigger] addr_counts(v.take(i as int)).contains_key(a),
                interesting == reaches_new(old_map, addr_counts(v.take(i as int))),
                forall|a: u64| #[trigger] self.map@.contains_key(a) <==> add_counts(old_map, addr_counts(v.take(i as int))).contains_key(a),
                forall|a: u64| self.map@.contains_key(a) ==> #[trigger] self.map@[a] == add_counts(old_map, addr_counts(v.take(i as int)))[a],
            decreases v.len() - i,
        {
            let a = addrs[i];
            proof {
                lemma_counts_step(v, i as int);
                assert(v.take(i + 1) =~= v.take(i as int).push(a));
                v.take(i as int).lemma_push_to_set_commute(a);
                lemma_counts_prefix(v, i + 1, a);
            }
            let first = !coverage.contains(&a);
            let total: u64 = match self.map.get(&a) {
                Some(t) => *t,
                None => 0,
            };
            if first && total == 0 {
                interesting = true;
            }
            proof {
                let c0 = addr_counts(v.take(i as int));
                let c1 = addr_counts(v.take(i + 1));
                assert(add_counts(old_map, c1).contains_key(a));
                assert(add_counts(old_map, c1)[a] <= add_counts(old_map, addr_counts(v))[a]);
                let zero_a = !old_map.contains_key(a) || old_map[a] == 0;
                assert(v[i as int] == a);
                assert(c1.dom() =~= c0.dom().insert(a));
                if first {
                    assert(!c0.contains_key(a));
                    assert(total == 0 <==> zero_a);
                }
                assert(reaches_new(old_map, c1) == (reaches_new(old_map, c0) || zero_a)) by {
                    if reaches_new(old_map, c1) {
                        let b = choose|b: u64| fresh_addr(old_map, c1, b);
                        if b != a {
                            assert(fresh_addr(old_map, c0, b));
                        }
                    }
                    if zero_a {
                        assert(fresh_addr(old_map, c1, a));
                    }
                    if reaches_new(old_map, c0) {
                        let b = choose|b: u64| fresh_addr(old_map, c0, b);
                        assert(fresh_addr(old_map, c1, b));
                    }
                }
                if !first && zero_a {
                    assert(fresh_addr(old_map, c0, a));
                }
            }
            self.map.insert(a, total + 1);
            coverage.insert(a);
            proof {
                let c1 = addr_counts(v.take(i + 1));
                assert forall|b: u64| #[trigger] self.map@.contains_key(b) <==> add_counts(old_map, c1).contains_key(b) by {}
                assert forall|b: u64| self.map@.contains_key(b) implies #[trigger] self.map@[b] == add_counts(old_map, c1)[b] by {}
                assert forall|b: u64| coverage@.contains(b) <==> #[trigger] c1.contains_key(b) by {}
            }
            i = i + 1;
        }
        proof {
            assert(v.take(i as int) =~= v);
            assert(self.map@.dom() =~= add_counts(old_map, addr_counts(v)).dom());
        }
        if interesting {
            Ok(FeedbackOpinion::Interesting(coverage))
        } else {
            Ok(FeedbackOpinion::NotInteresting(coverage))
        }
    }
}

proof fn lemma_counts_keys(v: Seq<u64>, a: u64)
    ensures
        addr_counts(v).contains_key(a) <==> v.to_set().contains(a),
    decreases v.len(),
{
    if v.len() > 0 {
        lemma_counts_keys(v.drop_last(), a);
        assert(v =~= v.drop_last().push(v.last()));
        assert(v.to_set() =~= v.drop_last().to_set().insert(v.last()));
    }
}

proof fn lemma_counts_positive(v: Seq<u64>, a: u64)
    requires
        addr_counts(v).contains_key(a),
    ensures
        addr_counts(v)[a] >= 1,
    decreases v.len(),
{
    if v.len() > 0 && a != v.last() {
        lemma_counts_positive(v.drop_last(), a);
    }
}

/// Coverage that has been absorbed is never new again: after a run's
/// addresses are absorbed, the same addresses are no longer interesting,
/// and no address seen before is lost.
pub proof fn lemma_absorbed_not_interesting(all: Set<u64>, v: Seq<u64>)
    ensures
        v.to_set().subset_of(all.union(v.to_set())),
        all.subset_of(all.union(v.to_set())),
{
}

/// After a run is counted, the same run reaches no address whose total is
/// zero: judging it again gives "not interesting".
pub proof fn lemma_counted_not_new(total: Map<u64, u64>, v: Seq<u64>, after: Map<u64, u64>)
    requires
        after.dom() == add_counts(total, addr_counts(v)).dom(),
        forall|a: u64| #[trigger] after.contains_key(a) ==> after[a] == add_counts(total, addr_counts(v))[a],
    ensures
        !reaches_new(after, addr_counts(v)),
{
    assert forall|a: u64| !(#[trigger] fresh_addr(after, addr_counts(v), a)) by {
        if addr_counts(v).contains_key(a) {
            lemma_counts_positive(v, a);
            assert(add_counts(total, addr_counts(v)).dom().contains(a));
            assert(after.contains_key(a));
        }
    }
}

} // verus!
