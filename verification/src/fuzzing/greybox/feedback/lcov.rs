//! Line coverage of user-space file systems, read from LCOV tracefiles.

use vstd::prelude::*;

use std::collections::{HashMap, HashSet};
use std::collections::hash_map::DefaultHasher;
use std::hash::Hasher;
use vstd::std_specs::hash::DefaultHasherAdditionalSpecFns;
use vstd::utf8::encode_utf8;
use vstd::std_specs::iter::IteratorSpec;

use super::{CoverageType, FeedbackOpinion};
use crate::text::{
    chars_eq, chars_to_string, lines_of, lines_spec, parse_u32, parse_u64, parse_unsigned, split_by,
    split_chars, str_eq, to_chars, trim, trimmed,
};

verus! {

broadcast use vstd::std_specs::hash::group_hash_axioms;

/// One line of a tracefile that matters here.
pub enum LCovLine {
    SourceFileName(String),
    LineExecutionCount(u32, u64),
    EndOfRecord(),
}

/// The model of a tracefile line.
pub enum LineModel {
    SourceFileName(Seq<char>),
    LineExecutionCount(u32, u64),
    EndOfRecord,
}

impl View for LCovLine {
    type V = LineModel;

    open spec fn view(&self) -> LineModel {
        match self {
            LCovLine::SourceFileName(f) => LineModel::SourceFileName(f@),
            LCovLine::LineExecutionCount(l, c) => LineModel::LineExecutionCount(*l, *c),
            LCovLine::EndOfRecord() => LineModel::EndOfRecord,
        }
    }
}

/// The index of the first `c` in `s`.
pub open spec fn first_index(s: Seq<char>, c: char) -> Option<int>
    decreases s.len(),
{
    if s.len() == 0 {
        None
    } else if s[0] == c {
        Some(0)
    } else {
        match first_index(s.drop_first(), c) {
            Some(k) => Some(k + 1),
            None => None,
        }
    }
}

/// What a tracefile line says: the file of a record (`SF:`), an executed
/// line with its count (`DA:line,count`, only when the count is positive),
/// or the end of a record. Other lines say nothing.
pub open spec fn parse_lcov_line(line: Seq<char>) -> Option<LineModel> {
    let t = trim(line);
    if t == "end_of_record"@ {
        Some(LineModel::EndOfRecord)
    } else {
        match first_index(t, ':') {
            None => None,
            Some(k) => {
                let tag = t.take(k);
                let data = t.skip(k + 1);
                if tag == seq!['S', 'F'] {
                    Some(LineModel::SourceFileName(data))
                } else if tag == seq!['D', 'A'] {
                    let segs = split_by(data, seq![',']);
                    if segs.len() >= 2 {
                        match (parse_unsigned(segs[0], 10, u32::MAX as nat), parse_unsigned(segs[1], 10, u64::MAX as nat)) {
                            (Ok(l), Ok(c)) => if c > 0 {
                                Some(LineModel::LineExecutionCount(l as u32, c as u64))
                            } else {
                                None
                            },
                            _ => None,
                        }
                    } else {
                        None
                    }
                } else {
                    None
                }
            },
        }
    }
}

fn first_colon(s: &[char]) -> (r: Option<usize>)
    ensures
        match r {
            Some(k) => first_index(s@, ':') == Some(k as int) && k < s@.len(),
            None => first_index(s@, ':') is None,
        },
{
    let mut i: usize = 0;
    assert(s@.skip(0) =~= s@);
    while i < s.len()
        invariant
            i <= s@.len(),
            first_index(s@, ':') == match first_index(s@.skip(i as int), ':') {
                Some(k) => Some(k + i),
                None => None::<int>,
            },
        decreases s@.len() - i,
    {
        if s[i] == ':' {
            return Some(i);
        }
        assert(s@.skip(i as int).drop_first() =~= s@.skip(i + 1));
        i = i + 1;
    }
    None
}

fn sub_chars(s: &[char], from: usize, to: usize) -> (r: Vec<char>)
    requires
        from <= to <= s@.len(),
    ensures
        r@ == s@.subrange(from as int, to as int),
{
    let mut r: Vec<char> = Vec::new();
    let mut i = from;
    while i < to
        invariant
            from <= i <= to <= s@.len(),
            r@ == s@.subrange(from as int, i as int),
        decreases to - i,
    {
        r.push(s[i]);
        i = i + 1;
        assert(r@ =~= s@.subrange(from as int, i as int));
    }
    r
}

impl LCovLine {
    /// Reads one tracefile line.
    pub fn parse_from(line: &str) -> (r: Option<LCovLine>)
        ensures
            match r {
                Some(l) => parse_lcov_line(line@) == Some(l@),
                None => parse_lcov_line(line@) is None,
            },
    {
        let chars = to_chars(line);
        let t = trimmed(chars.as_slice());
        let ts = chars_to_string(t.as_slice());
        if str_eq(ts.as_str(), "end_of_record") {
            return Some(LCovLine::EndOfRecord());
        }
        let k = match first_colon(t.as_slice()) {
            None => {
                return None;
            },
            Some(k) => k,
        };
        assert(k < t@.len());
        assert(t@ == trim(line@));
        assert(t@ != "end_of_record"@);
        assert(first_index(trim(line@), ':') == Some(k as int));
        let tag = sub_chars(t.as_slice(), 0, k);
        let data = sub_chars(t.as_slice(), k + 1, t.len());
        assert(tag@ =~= t@.take(k as int));
        assert(data@ =~= t@.skip(k + 1));
        let sf: Vec<char> = vec!['S', 'F'];
        let da: Vec<char> = vec!['D', 'A'];
        assert(sf@ =~= seq!['S', 'F']);
        assert(da@ =~= seq!['D', 'A']);
        if chars_eq(tag.as_slice(), sf.as_slice()) {
            return Some(LCovLine::SourceFileName(chars_to_string(data.as_slice())));
        }
        if chars_eq(tag.as_slice(), da.as_slice()) {
            let comma: Vec<char> = vec![','];
            assert(comma@ =~= seq![',']);
            let segs = split_chars(data.as_slice(), comma.as_slice());
            if segs.len() >= 2 {
                let l = parse_u32(segs[0].as_slice());
                let c = parse_u64(segs[1].as_slice());
                proof {
                    crate::text::lemma_parse_bounds(segs@[0]@, 10, u32::MAX as nat, 0);
                    crate::text::lemma_parse_bounds(segs@[1]@, 10, u64::MAX as nat, 0);
                }
                match (l, c) {
                    (Ok(l), Ok(c)) => {
                        if c > 0 {
                            return Some(LCovLine::LineExecutionCount(l, c));
                        } else {
                            return None;
                        }
                    },
                    _ => {
                        return None;
                    },
                }
            }
        }
        None
    }
}

/// The coverage of one source file: the count of each executed line.
#[derive(Debug, PartialEq, Eq)]
pub struct LCovTraceOneFile {
    pub coverage_map: HashMap<u32, u64>,
}

impl LCovTraceOneFile {
    pub fn new() -> (r: Self)
        ensures
            r.coverage_map@ == Map::<u32, u64>::empty(),
    {
        Self { coverage_map: HashMap::new() }
    }

    pub fn add_line(&mut self, line: u32, count: u64)
        ensures
            final(self).coverage_map@ == old(self).coverage_map@.insert(line, count),
    {
        self.coverage_map.insert(line, count);
    }
}

/// The coverage of each source file of a tracefile, in the order the
/// records end; no file occurs twice (a later record replaces an earlier one).
#[derive(Debug, PartialEq, Eq)]
pub struct LCovTrace {
    pub files: Vec<(String, LCovTraceOneFile)>,
}

/// The model of a trace's files.
pub open spec fn files_view(v: Seq<(String, LCovTraceOneFile)>) -> Seq<(Seq<char>, Map<u32, u64>)> {
    v.map_values(|e: (String, LCovTraceOneFile)| (e.0@, e.1.coverage_map@))
}

/// `files` with `name` bound to `cov`: in place if the name is there, at the end otherwise.
pub open spec fn add_file_spec(files: Seq<(Seq<char>, Map<u32, u64>)>, name: Seq<char>, cov: Map<u32, u64>) -> Seq<
    (Seq<char>, Map<u32, u64>),
>
    decreases files.len(),
{
    if files.len() == 0 {
        seq![(name, cov)]
    } else if files[0].0 == name {
        files.update(0, (name, cov))
    } else {
        seq![files[0]] + add_file_spec(files.drop_first(), name, cov)
    }
}

/// No source file occurs twice.
pub open spec fn file_names_distinct(files: Seq<(Seq<char>, Map<u32, u64>)>) -> bool {
    forall|i: int, j: int| 0 <= i < j < files.len() ==> (#[trigger] files[i]).0 != (#[trigger] files[j]).0
}

proof fn lemma_add_file_names(files: Seq<(Seq<char>, Map<u32, u64>)>, name: Seq<char>, cov: Map<u32, u64>)
    ensures
        forall|k: int|
            0 <= k < add_file_spec(files, name, cov).len() ==> (#[trigger] add_file_spec(files, name, cov)[k]).0
                == name || exists|j: int| 0 <= j < files.len() && files[j].0 == add_file_spec(files, name, cov)[k].0,
    decreases files.len(),
{
    let r = add_file_spec(files, name, cov);
    if files.len() > 0 {
        if files[0].0 == name {
            assert forall|k: int| 0 <= k < r.len() implies (#[trigger] r[k]).0 == name || exists|j: int|
                0 <= j < files.len() && files[j].0 == r[k].0 by {
                if k > 0 {
                    assert(r[k] == files[k]);
                }
            }
        } else {
            let rest = files.drop_first();
            lemma_add_file_names(rest, name, cov);
            let t = add_file_spec(rest, name, cov);
            assert(r == seq![files[0]] + t);
            assert forall|k: int| 0 <= k < r.len() implies (#[trigger] r[k]).0 == name || exists|j: int|
                0 <= j < files.len() && files[j].0 == r[k].0 by {
                if k == 0 {
                    assert(r[0] == files[0]);
                } else {
                    assert(r[k] == t[k - 1]);
                    if t[k - 1].0 != name {
                        let m = choose|m: int| 0 <= m < rest.len() && rest[m].0 == t[k - 1].0;
                        assert(files[m + 1] == rest[m]);
                    }
                }
            }
        }
    }
}

proof fn lemma_add_file_distinct(files: Seq<(Seq<char>, Map<u32, u64>)>, name: Seq<char>, cov: Map<u32, u64>)
    requires
        file_names_distinct(files),
    ensures
        file_names_distinct(add_file_spec(files, name, cov)),
    decreases files.len(),
{
    let r = add_file_spec(files, name, cov);
    if files.len() > 0 {
        if files[0].0 == name {
            assert forall|i: int, j: int| 0 <= i < j < r.len() implies (#[trigger] r[i]).0 != (#[trigger] r[j]).0 by {
                assert(files[i].0 == r[i].0 && files[j].0 == r[j].0);
            }
        } else {
            let rest = files.drop_first();
            assert forall|i: int, j: int| 0 <= i < j < rest.len() implies (#[trigger] rest[i]).0 != (#[trigger] rest[j]).0 by {
                assert(rest[i] == files[i + 1] && rest[j] == files[j + 1]);
            }
            lemma_add_file_distinct(rest, name, cov);
            lemma_add_file_names(rest, name, cov);
            let t = add_file_spec(rest, name, cov);
            assert(r == seq![files[0]] + t);
            assert forall|i: int, j: int| 0 <= i < j < r.len() implies (#[trigger] r[i]).0 != (#[trigger] r[j]).0 by {
                assert(r[j] == t[j - 1]);
                if i == 0 {
                    assert(r[0] == files[0]);
                    if t[j - 1].0 != name {
                        let m = choose|m: int| 0 <= m < rest.len() && rest[m].0 == t[j - 1].0;
                        assert(rest[m] == files[m + 1]);
                    }
                } else {
                    assert(r[i] == t[i - 1]);
                }
            }
        }
    }
}

/// Reading a tracefile never records a source file twice: a later record
/// of a file replaces the earlier one.
pub proof fn lemma_read_files_distinct(lines: Seq<Seq<char>>)
    ensures
        file_names_distinct(lcov_read(lines).files),
    decreases lines.len(),
{
    if lines.len() > 0 {
        lemma_read_files_distinct(lines.drop_last());
        let st = lcov_read(lines.drop_last());
        if let Some(LineModel::EndOfRecord) = parse_lcov_line(lines.last()) {
            if let Some(f) = st.current {
                lemma_add_file_distinct(st.files, f, st.lines);
            }
        }
    }
}

/// The state of reading a tracefile: the files read, the file of the
/// current record (the first `SF:` of it), and the lines counted so far.
pub struct LcovState {
    pub files: Seq<(Seq<char>, Map<u32, u64>)>,
    pub current: Option<Seq<char>>,
    pub lines: Map<u32, u64>,
}

/// Reads one line. A record's lines stay counted until a record with a
/// file ends; they then belong to that file.
pub open spec fn lcov_step(st: LcovState, line: Seq<char>) -> LcovState {
    match parse_lcov_line(line) {
        None => st,
        Some(LineModel::SourceFileName(f)) => if st.current is None {
            LcovState { current: Some(f), ..st }
        } else {
            st
        },
        Some(LineModel::LineExecutionCount(l, c)) => LcovState { lines: st.lines.insert(l, c), ..st },
        Some(LineModel::EndOfRecord) => match st.current {
            Some(f) => LcovState { files: add_file_spec(st.files, f, st.lines), current: None, lines: Map::empty() },
            None => st,
        },
    }
}

/// The state after reading `lines` in order.
pub open spec fn lcov_read(lines: Seq<Seq<char>>) -> LcovState
    decreases lines.len(),
{
    if lines.len() == 0 {
        LcovState { files: Seq::empty(), current: None, lines: Map::empty() }
    } else {
        lcov_step(lcov_read(lines.drop_last()), lines.last())
    }
}

impl LCovTrace {
    pub fn new() -> (r: Self)
        ensures
            r.files@.len() == 0,
    {
        Self { files: Vec::new() }
    }

    /// Binds `name` to the coverage `file`, replacing an earlier record of it.
    pub fn add_file(&mut self, name: String, file: LCovTraceOneFile)
        ensures
            files_view(final(self).files@) == add_file_spec(files_view(old(self).files@), name@, file.coverage_map@),
    {
        let ghost old_files = files_view(self.files@);
        let mut i: usize = 0;
        assert(old_files.skip(0) =~= old_files);
        while i < self.files.len()
            invariant
                i <= self.files@.len(),
                self.files@ == old(self).files@,
                old_files == files_view(self.files@),
                forall|k: int| 0 <= k < i ==> old_files[k].0 != name@,
                add_file_spec(old_files, name@, file.coverage_map@) == old_files.take(i as int) + add_file_spec(
                    old_files.skip(i as int),
                    name@,
                    file.coverage_map@,
                ),
            decreases self.files@.len() - i,
        {
            if str_eq(self.files[i].0.as_str(), name.as_str()) {
                let ghost rest = old_files.skip(i as int);
                assert(rest[0].0 == name@);
                self.files.set(i, (name, file));
                assert(files_view(self.files@) =~= old_files.take(i as int) + rest.update(0, (name@, file.coverage_map@)));
                return;
            }
            let ghost rest = old_files.skip(i as int);
            assert(rest.drop_first() =~= old_files.skip(i + 1));
            assert(old_files.take(i as int) + (seq![rest[0]] + add_file_spec(rest.drop_first(), name@, file.coverage_map@))
                =~= old_files.take(i + 1) + add_file_spec(old_files.skip(i + 1), name@, file.coverage_map@));
            i = i + 1;
        }
        let ghost cov = file.coverage_map@;
        let ghost nv = name@;
        self.files.push((name, file));
        assert(old_files.skip(i as int) =~= Seq::<(Seq<char>, Map<u32, u64>)>::empty());
        assert(files_view(self.files@) =~= old_files.take(i as int) + seq![(nv, cov)]);
    }

    /// The coverage of the trace by location: each counted line of each file
    /// at its location, with its count (a location two files share keeps the
    /// count of one of them).
    pub fn map(&self) -> (r: HashMap<u64, u64>)
        ensures
            r@.dom() == trace_locations(files_view(self.files@)),
            forall|k: u64| #[trigger] r@.contains_key(k) ==> located_count(files_view(self.files@), k, r@[k]),
    {
        let ghost fv = files_view(self.files@);
        let mut coverage_map: HashMap<u64, u64> = HashMap::new();
        let mut i: usize = 0;
        assert(coverage_map@.dom() =~= locations_upto(fv, 0));
        while i < self.files.len()
            invariant
                i <= self.files@.len(),
                fv == files_view(self.files@),
                coverage_map@.dom() == locations_upto(fv, i as int),
                forall|k: u64| #[trigger] coverage_map@.contains_key(k) ==> located_count(fv, k, coverage_map@[k]),
            decreases self.files@.len() - i,
        {
            let sh = fold_high_of(name_hash_of(self.files[i].0.as_str()));
            let lines = map_keys(&self.files[i].1.coverage_map);
            let ghost name = fv[i as int].0;
            let ghost cov = fv[i as int].1;
            let ghost before = locations_upto(fv, i as int);
            let mut j: usize = 0;
            assert(lines@.take(0).to_set() =~= Set::<u32>::empty());
            assert(before.union(file_locations(name, Set::<u32>::empty())) =~= before);
            while j < lines.len()
                invariant
                    i < self.files@.len(),
                    j <= lines@.len(),
                    fv == files_view(self.files@),
                    name == fv[i as int].0,
                    cov == fv[i as int].1,
                    sh == fold_high(name_hash(name)),
                    lines@.to_set() == cov.dom(),
                    before == locations_upto(fv, i as int),
                    coverage_map@.dom() == before.union(file_locations(name, lines@.take(j as int).to_set())),
                    forall|k: u64| #[trigger] coverage_map@.contains_key(k) ==> located_count(fv, k, coverage_map@[k]),
                decreases lines@.len() - j,
            {
                let line = lines[j];
                assert(lines@.to_set().contains(line));
                let count = *self.files[i].1.coverage_map.get(&line).unwrap();
                proof {
                    lemma_location_fits(name_hash(name), line);
                }
                let loc = sh + line as u64;
                let ghost done = lines@.take(j as int).to_set();
                coverage_map.insert(loc, count);
                proof {
                    assert(lines@.take(j + 1) =~= lines@.take(j as int).push(line));
                    lemma_to_set_push(lines@.take(j as int), line);
                    assert(loc == location(name, line));
                    assert forall|k: u64| #[trigger] file_locations(name, done.insert(line)).contains(k) <==> file_locations(
                        name,
                        done,
                    ).insert(loc).contains(k) by {
                        if k == loc {
                            assert(done.insert(line).contains(line) && k == location(name, line));
                        }
                        if file_locations(name, done).contains(k) {
                            let l = choose|l: u32| done.contains(l) && k == location(name, l);
                            assert(done.insert(line).contains(l));
                        }
                    }
                    assert(file_locations(name, done.insert(line)) =~= file_locations(name, done).insert(loc));
                    assert(coverage_map@.dom() =~= before.union(file_locations(name, lines@.take(j + 1).to_set())));
                    assert forall|k: u64| #[trigger] coverage_map@.contains_key(k) implies located_count(
                        fv,
                        k,
                        coverage_map@[k],
                    ) by {
                        if k == loc {
                            assert(fv[i as int].1.contains_key(line));
                        }
                    }
                }
                j = j + 1;
            }
            proof {
                assert(lines@.take(j as int) =~= lines@);
                assert(coverage_map@.dom() =~= locations_upto(fv, i + 1));
            }
            i = i + 1;
        }
        coverage_map
    }

    /// Reads a tracefile: the line counts of each source file whose record ended.
    pub fn parse_from(data: &str) -> (r: Self)
        ensures
            files_view(r.files@) == lcov_read(lines_spec(data@)).files,
            file_names_distinct(files_view(r.files@)),
    {
        let lines = lines_of(data);
        let ghost ls = lines_spec(data@);
        let mut lcov = LCovTrace::new();
        let mut current_file: Option<String> = None;
        let mut trace = LCovTraceOneFile::new();
        let mut i: usize = 0;
        assert(files_view(lcov.files@) =~= Seq::<(Seq<char>, Map<u32, u64>)>::empty());
        while i < lines.len()
            invariant
                i <= lines@.len(),
                ls == lines_spec(data@),
                lines@.len() == ls.len(),
                forall|k: int| 0 <= k < lines@.len() ==> #[trigger] lines@[k]@ == ls[k],
                lcov_read(ls.take(i as int)) == (LcovState {
                    files: files_view(lcov.files@),
                    current: match current_file {
                        Some(f) => Some(f@),
                        None => None,
                    },
                    lines: trace.coverage_map@,
                }),
            decreases lines@.len() - i,
        {
            assert(ls.take(i + 1).drop_last() =~= ls.take(i as int));
            assert(ls.take(i + 1).last() == lines@[i as int]@);
            let line = chars_to_string(lines[i].as_slice());
            match LCovLine::parse_from(line.as_str()) {
                None => {},
                Some(LCovLine::SourceFileName(next_file)) => {
                    if current_file.is_none() {
                        current_file = Some(next_file);
                    }
                },
                Some(LCovLine::LineExecutionCount(l, c)) => {
                    trace.add_line(l, c);
                },
                Some(LCovLine::EndOfRecord()) => {
                    match current_file {
                        Some(file) => {
                            let old = trace;
                            trace = LCovTraceOneFile::new();
                            lcov.add_file(file, old);
                            current_file = None;
                        },
                        None => {},
                    }
                },
            }
            i = i + 1;
        }
        assert(ls.take(i as int) =~= ls);
        proof {
            lemma_read_files_distinct(ls);
        }
        lcov
    }
}

/// The keys of a map, each once.
fn map_keys<K: Copy, V>(m: &HashMap<K, V>) -> (r: Vec<K>)
    requires
        vstd::std_specs::hash::obeys_key_model::<K>(),
    ensures
        r@.no_duplicates(),
        r@.to_set() == m@.dom(),
{
    let mut r: Vec<K> = Vec::new();
    proof {
        vstd::std_specs::hash::axiom_spec_keys_iter(m);
    }
    for k in it: m.keys()
        invariant
            r@ == it.seq().take(it.index() as int).map_values(|x: &K| *x),
            it.seq() == vstd::std_specs::hash::spec_keys_iter(m).remaining(),
    {
        r.push(*k);
    }
    proof {
        let ks = vstd::std_specs::hash::spec_keys_iter(m).remaining();
        assert(r@ =~= ks.unref());
    }
    r
}

/// The hash of a source file's name, as a `DefaultHasher` gives it for a
/// string: fed the string's UTF-8 bytes and then the byte `0xff`.
pub open spec fn name_hash(name: Seq<char>) -> u64 {
    DefaultHasher::spec_finish(seq![encode_utf8(name), seq![0xffu8]])
}

/// A hash folded to 32 bits (its high half xor its low half) and moved to
/// the high half.
pub open spec fn fold_high(h: u64) -> u64 {
    ((((h >> 32u64) as u32) ^ (h as u32)) as u64) << 32u64
}

/// The location of a line of a source file: the folded hash of the file's
/// name plus the line number.
pub open spec fn location(name: Seq<char>, line: u32) -> u64 {
    (fold_high(name_hash(name)) + line) as u64
}

/// The locations of the given lines of a source file.
pub open spec fn file_locations(name: Seq<char>, lines: Set<u32>) -> Set<u64> {
    Set::new(|k: u64| exists|l: u32| lines.contains(l) && k == location(name, l))
}

/// The locations of the counted lines of the first `n` files.
pub open spec fn locations_upto(files: Seq<(Seq<char>, Map<u32, u64>)>, n: int) -> Set<u64>
    decreases n,
{
    if n <= 0 {
        Set::empty()
    } else {
        locations_upto(files, n - 1).union(file_locations(files[n - 1].0, files[n - 1].1.dom()))
    }
}

/// The locations of all counted lines of a trace.
pub open spec fn trace_locations(files: Seq<(Seq<char>, Map<u32, u64>)>) -> Set<u64> {
    locations_upto(files, files.len() as int)
}

/// Whether `c` is the count of a line of some file whose location is `k`.
pub open spec fn located_count(files: Seq<(Seq<char>, Map<u32, u64>)>, k: u64, c: u64) -> bool {
    exists|i: int, l: u32|
        0 <= i < files.len() && #[trigger] files[i].1.contains_key(l) && k == location(files[i].0, l) && c
            == files[i].1[l]
}

fn name_hash_of(name: &str) -> (r: u64)
    ensures
        r == name_hash(name@),
{
    let mut hasher = DefaultHasher::new();
    hasher.write(name.as_bytes());
    let end: [u8; 1] = [0xffu8];
    hasher.write(end.as_slice());
    proof {
        assert(end@ =~= seq![0xffu8]);
        assert(hasher@ =~= seq![encode_utf8(name@), seq![0xffu8]]);
    }
    hasher.finish()
}

fn fold_high_of(h: u64) -> (r: u64)
    ensures
        r == fold_high(h),
{
    let high32 = (h >> 32u64) as u32;
    let low32 = h as u32;
    let x = (high32 ^ low32) as u64;
    x << 32u64
}

proof fn lemma_location_fits(h: u64, l: u32)
    ensures
        fold_high(h) + l <= u64::MAX,
{
    assert((((((h >> 32u64) as u32) ^ (h as u32)) as u64) << 32u64) + (l as u64) <= u64::MAX) by (bit_vector);
}

/// Line coverage feedback: the number of runs that reached each location.
pub struct LCovCoverageFeedback {
    pub map: HashMap<u64, u64>,
}

impl LCovCoverageFeedback {
    pub fn new() -> (r: Self)
        ensures
            r.map@ == Map::<u64, u64>::empty(),
    {
        Self { map: HashMap::new() }
    }

    pub fn coverage_type(&self) -> (r: CoverageType)
        ensures
            r == CoverageType::LCov,
    {
        CoverageType::LCov
    }

    /// Judges a test run by the text of its tracefile: interesting if it
    /// reached a location whose total was zero; the total of each location
    /// it reached grows by one.
    pub fn opinion(&mut self, lcov: &str) -> (r: FeedbackOpinion)
        requires
            forall|k: u64|
                #![trigger old(self).map@.contains_key(k)]
                trace_locations(lcov_read(lines_spec(lcov@)).files).contains(k) && old(self).map@.contains_key(k)
                    ==> old(self).map@[k] < u64::MAX,
        ensures
            (r is Interesting) == reaches_fresh(old(self).map@, trace_locations(lcov_read(lines_spec(lcov@)).files)),
            opinion_coverage(r) == trace_locations(lcov_read(lines_spec(lcov@)).files),
            final(self).map@ == bumped(old(self).map@, trace_locations(lcov_read(lines_spec(lcov@)).files)),
    {
        let ghost locs = trace_locations(lcov_read(lines_spec(lcov@)).files);
        let ghost total = self.map@;
        let trace = LCovTrace::parse_from(lcov);
        let new_coverage = trace.map();
        let keys = map_keys(&new_coverage);
        let mut is_interesting = false;
        let mut coverage: HashSet<u64> = HashSet::new();
        let mut j: usize = 0;
        assert(keys@.take(0).to_set() =~= Set::<u64>::empty());
        assert(self.map@ =~= bumped(total, Set::<u64>::empty()));
        while j < keys.len()
            invariant
                j <= keys@.len(),
                keys@.no_duplicates(),
                keys@.to_set() == locs,
                locs == trace_locations(lcov_read(lines_spec(lcov@)).files),
                forall|k: u64| #![trigger total.contains_key(k)] locs.contains(k) && total.contains_key(k) ==> total[k] < u64::MAX,
                self.map@ == bumped(total, keys@.take(j as int).to_set()),
                coverage@ == keys@.take(j as int).to_set(),
                is_interesting == reaches_fresh(total, keys@.take(j as int).to_set()),
            decreases keys@.len() - j,
        {
            let addr = keys[j];
            let ghost done = keys@.take(j as int).to_set();
            let ghost t1 = keys@.take(j + 1);
            proof {
                assert(t1 =~= keys@.take(j as int).push(addr));
                lemma_to_set_push(keys@.take(j as int), addr);
                assert(!done.contains(addr)) by {
                    if done.contains(addr) {
                        let m = choose|m: int| 0 <= m < j && keys@.take(j as int)[m] == addr;
                        assert(keys@[m] == keys@[j as int]);
                    }
                }
                assert(keys@.to_set().contains(addr));
            }
            let total_here: u64 = match self.map.get(&addr) {
                Some(t) => *t,
                None => 0,
            };
            if total_here == 0 {
                is_interesting = true;
            }
            self.map.insert(addr, total_here + 1);
            coverage.insert(addr);
            proof {
                assert(self.map@ =~= bumped(total, done.insert(addr)));
                assert(coverage@ =~= done.insert(addr));
                if total_here == 0 {
                    assert(fresh_in(total, addr));
                }
                assert(is_interesting == reaches_fresh(total, done.insert(addr)));
            }
            j = j + 1;
        }
        proof {
            assert(keys@.take(j as int) =~= keys@);
        }
        if is_interesting {
            FeedbackOpinion::Interesting(coverage)
        } else {
            FeedbackOpinion::NotInteresting(coverage)
        }
    }
}

proof fn lemma_to_set_push<A>(s: Seq<A>, a: A)
    ensures
        s.push(a).to_set() == s.to_set().insert(a),
{
    let t = s.push(a);
    assert forall|x: A| t.to_set().contains(x) <==> #[trigger] s.to_set().insert(a).contains(x) by {
        if t.contains(x) {
            let m = choose|m: int| 0 <= m < t.len() && t[m] == x;
            if m < s.len() {
                assert(s[m] == x);
            }
        }
        if s.contains(x) {
            let m = choose|m: int| 0 <= m < s.len() && s[m] == x;
            assert(t[m] == x);
        }
        if x == a {
            assert(t[s.len() as int] == x);
        }
    }
    assert(t.to_set() =~= s.to_set().insert(a));
}

/// The total so far of a location: zero if it was never reached.
pub open spec fn total_of(total: Map<u64, u64>, k: u64) -> int {
    if total.contains_key(k) {
        total[k] as int
    } else {
        0
    }
}

/// Whether location `k`'s total is zero.
pub open spec fn fresh_in(total: Map<u64, u64>, k: u64) -> bool {
    total_of(total, k) == 0
}

/// Whether one of the locations has total zero.
pub open spec fn reaches_fresh(total: Map<u64, u64>, locs: Set<u64>) -> bool {
    exists|k: u64| locs.contains(k) && #[trigger] fresh_in(total, k)
}

/// The totals after a run that reached `locs`: each of them grows by one.
pub open spec fn bumped(total: Map<u64, u64>, locs: Set<u64>) -> Map<u64, u64> {
    Map::new(
        |k: u64| total.contains_key(k) || locs.contains(k),
        |k: u64|
            if locs.contains(k) {
                (total_of(total, k) + 1) as u64
            } else {
                total[k]
            },
    )
}

/// After a run is counted, the same run reaches no location whose total is
/// zero: judging it again gives "not interesting". Totals never shrink.
pub proof fn lemma_counted_not_fresh(total: Map<u64, u64>, locs: Set<u64>)
    requires
        forall|k: u64| #![trigger total.contains_key(k)] locs.contains(k) && total.contains_key(k) ==> total[k] < u64::MAX,
    ensures
        !reaches_fresh(bumped(total, locs), locs),
        forall|k: u64| #[trigger] total.contains_key(k) ==> bumped(total, locs).contains_key(k) && total[k] <= bumped(total, locs)[k],
{
    assert forall|k: u64| locs.contains(k) implies !(#[trigger] fresh_in(bumped(total, locs), k)) by {
        assert(bumped(total, locs).contains_key(k));
    }
}

/// The coverage an opinion carries.
pub open spec fn opinion_coverage(o: FeedbackOpinion) -> Set<u64> {
    match o {
        FeedbackOpinion::Interesting(c) => c@,
        FeedbackOpinion::NotInteresting(c) => c@,
    }
}

} // verus!
