//! File content, kept as the sequence of "source" ranges it was written from.
//!
//! A test writes bytes taken from a shared source buffer; the model remembers,
//! for every byte of a file, which source byte it came from, grouped into
//! inclusive ranges (slices).

use vstd::prelude::*;

verus! {

/// The source bytes `from..=to`.
#[derive(Debug, Clone, Copy, PartialEq, Eq, Structural)]
pub struct SourceSlice {
    pub from: u64,
    pub to: u64,
}

/// Why a read or a write is refused.
#[derive(Debug, Clone, Copy, PartialEq, Eq, Structural)]
pub enum ContentError {
    /// The position lies past the end of the content.
    OffsetOutOfRange,
    /// A position or a source index would not fit in 64 bits.
    Overflow,
}

/// The number of bytes in a slice.
pub open spec fn slice_len(s: SourceSlice) -> nat {
    (s.to - s.from + 1) as nat
}

/// The number of bytes in a sequence of slices.
pub open spec fn total(ss: Seq<SourceSlice>) -> nat
    decreases ss.len(),
{
    if ss.len() == 0 {
        0
    } else {
        total(ss.drop_last()) + slice_len(ss.last())
    }
}

/// Every slice is a proper range.
pub open spec fn slices_wf(ss: Seq<SourceSlice>) -> bool {
    forall|i: int| 0 <= i < ss.len() ==> (#[trigger] ss[i]).from <= ss[i].to
}

/// The slices that hold the first `n` bytes (the last one cut short if needed).
pub open spec fn take_bytes(ss: Seq<SourceSlice>, n: nat) -> Seq<SourceSlice>
    decreases ss.len(),
{
    if ss.len() == 0 || n == 0 {
        Seq::empty()
    } else if n >= slice_len(ss[0]) {
        seq![ss[0]] + take_bytes(ss.drop_first(), (n - slice_len(ss[0])) as nat)
    } else {
        seq![SourceSlice { from: ss[0].from, to: (ss[0].from + n - 1) as u64 }]
    }
}

/// The slices that hold the bytes after the first `n` (the first one cut short if needed).
pub open spec fn skip_bytes(ss: Seq<SourceSlice>, n: nat) -> Seq<SourceSlice>
    decreases ss.len(),
{
    if ss.len() == 0 {
        Seq::empty()
    } else if n == 0 {
        ss
    } else if n >= slice_len(ss[0]) {
        skip_bytes(ss.drop_first(), (n - slice_len(ss[0])) as nat)
    } else {
        seq![SourceSlice { from: (ss[0].from + n) as u64, to: ss[0].to }] + ss.drop_first()
    }
}

/// What writing `size` source bytes starting at `src_offset`, at position
/// `offset`, leaves: the bytes before `offset`, the new slice, the bytes after.
pub open spec fn write_slices(ss: Seq<SourceSlice>, src_offset: u64, offset: u64, size: u64) -> Seq<
    SourceSlice,
> {
    take_bytes(ss, offset as nat) + (if size == 0 {
        Seq::<SourceSlice>::empty()
    } else {
        seq![SourceSlice { from: src_offset, to: (src_offset + size - 1) as u64 }]
    }) + skip_bytes(ss, offset as nat + size as nat)
}

/// The error of a write, if it is refused.
pub open spec fn write_error(ss: Seq<SourceSlice>, src_offset: u64, offset: u64, size: u64) -> Option<
    ContentError,
> {
    if offset > total(ss) {
        Some(ContentError::OffsetOutOfRange)
    } else if offset as nat + size as nat > u64::MAX || (size > 0 && src_offset as nat + size as nat
        - 1 > u64::MAX) {
        Some(ContentError::Overflow)
    } else {
        None
    }
}

/// What reading `size` bytes at `offset` gives (fewer near the end).
pub open spec fn read_slices(ss: Seq<SourceSlice>, offset: u64, size: u64) -> Seq<SourceSlice> {
    take_bytes(skip_bytes(ss, offset as nat), size as nat)
}

pub proof fn lemma_total_concat(a: Seq<SourceSlice>, b: Seq<SourceSlice>)
    ensures
        total(a + b) == total(a) + total(b),
    decreases b.len(),
{
    if b.len() > 0 {
        assert((a + b).drop_last() =~= a + b.drop_last());
        lemma_total_concat(a, b.drop_last());
    } else {
        assert(a + b =~= a);
    }
}

pub proof fn lemma_total_single(x: SourceSlice)
    ensures
        total(seq![x]) == slice_len(x),
{
    reveal_with_fuel(total, 2);
    assert(seq![x].drop_last() =~= Seq::<SourceSlice>::empty());
}

pub proof fn lemma_total_first(ss: Seq<SourceSlice>)
    requires
        ss.len() > 0,
    ensures
        total(ss) == slice_len(ss[0]) + total(ss.drop_first()),
{
    lemma_total_concat(seq![ss[0]], ss.drop_first());
    assert(seq![ss[0]] + ss.drop_first() =~= ss);
    lemma_total_single(ss[0]);
}

pub proof fn lemma_take_bytes(ss: Seq<SourceSlice>, n: nat)
    requires
        slices_wf(ss),
    ensures
        slices_wf(take_bytes(ss, n)),
        total(take_bytes(ss, n)) == if n < total(ss) {
            n
        } else {
            total(ss)
        },
    decreases ss.len(),
{
    if ss.len() == 0 || n == 0 {
        if ss.len() > 0 {
            lemma_total_first(ss);
        }
    } else {
        lemma_total_first(ss);
        if n >= slice_len(ss[0]) {
            let rest = take_bytes(ss.drop_first(), (n - slice_len(ss[0])) as nat);
            lemma_take_bytes(ss.drop_first(), (n - slice_len(ss[0])) as nat);
            lemma_total_concat(seq![ss[0]], rest);
            lemma_total_single(ss[0]);
            assert forall|i: int| 0 <= i < (seq![ss[0]] + rest).len() implies (#[trigger] (
            seq![ss[0]] + rest)[i]).from <= (seq![ss[0]] + rest)[i].to by {
                if i > 0 {
                    assert((seq![ss[0]] + rest)[i] == rest[i - 1]);
                }
            }
        } else {
            let s = SourceSlice { from: ss[0].from, to: (ss[0].from + n - 1) as u64 };
            lemma_total_single(s);
        }
    }
}

pub proof fn lemma_skip_bytes(ss: Seq<SourceSlice>, n: nat)
    requires
        slices_wf(ss),
    ensures
        slices_wf(skip_bytes(ss, n)),
        total(skip_bytes(ss, n)) == if n < total(ss) {
            (total(ss) - n) as nat
        } else {
            0
        },
    decreases ss.len(),
{
    if ss.len() == 0 {
    } else if n == 0 {
    } else {
        lemma_total_first(ss);
        if n >= slice_len(ss[0]) {
            lemma_skip_bytes(ss.drop_first(), (n - slice_len(ss[0])) as nat);
        } else {
            let s = SourceSlice { from: (ss[0].from + n) as u64, to: ss[0].to };
            let r = seq![s] + ss.drop_first();
            lemma_total_concat(seq![s], ss.drop_first());
            lemma_total_single(s);
            assert forall|i: int| 0 <= i < r.len() implies (#[trigger] r[i]).from <= r[i].to by {
                if i > 0 {
                    assert(r[i] == ss[i]);
                }
            }
        }
    }
}

/// A write that is not refused leaves well-formed content whose size is the
/// larger of the old size and the written end.
pub proof fn lemma_write_total(ss: Seq<SourceSlice>, src_offset: u64, offset: u64, size: u64)
    requires
        slices_wf(ss),
        write_error(ss, src_offset, offset, size) is None,
    ensures
        slices_wf(write_slices(ss, src_offset, offset, size)),
        total(write_slices(ss, src_offset, offset, size)) == if offset + size > total(ss) {
            (offset + size) as nat
        } else {
            total(ss)
        },
{
    let mid: Seq<SourceSlice> = if size == 0 {
        Seq::<SourceSlice>::empty()
    } else {
        seq![SourceSlice { from: src_offset, to: (src_offset + size - 1) as u64 }]
    };
    lemma_take_bytes(ss, offset as nat);
    lemma_skip_bytes(ss, offset as nat + size as nat);
    if size > 0 {
        lemma_total_single(mid[0]);
        assert(mid =~= seq![mid[0]]);
    }
    lemma_total_concat(take_bytes(ss, offset as nat), mid);
    lemma_total_concat(take_bytes(ss, offset as nat) + mid, skip_bytes(ss, offset as nat + size as nat));
    lemma_wf_concat(take_bytes(ss, offset as nat), mid);
    lemma_wf_concat(take_bytes(ss, offset as nat) + mid, skip_bytes(ss, offset as nat + size as nat));
}

/// What a read gives is well formed and holds what lies between the offset
/// and the end, at most `size` bytes.
pub proof fn lemma_read_total(ss: Seq<SourceSlice>, offset: u64, size: u64)
    requires
        slices_wf(ss),
        offset <= total(ss),
    ensures
        slices_wf(read_slices(ss, offset, size)),
        total(read_slices(ss, offset, size)) == if size < total(ss) - offset {
            size as nat
        } else {
            (total(ss) - offset) as nat
        },
{
    lemma_skip_bytes(ss, offset as nat);
    lemma_take_bytes(skip_bytes(ss, offset as nat), size as nat);
}

proof fn lemma_skip_whole(a: Seq<SourceSlice>, b: Seq<SourceSlice>)
    requires
        slices_wf(a),
    ensures
        skip_bytes(a + b, total(a)) == b,
    decreases a.len(),
{
    if a.len() == 0 {
        assert(a + b =~= b);
    } else {
        lemma_total_first(a);
        let rest = a.drop_first();
        assert(slices_wf(rest)) by {
            assert forall|i: int| 0 <= i < rest.len() implies (#[trigger] rest[i]).from <= rest[i].to by {
                assert(rest[i] == a[i + 1]);
            }
        }
        assert((a + b)[0] == a[0]);
        assert((a + b).drop_first() =~= rest + b);
        lemma_skip_whole(rest, b);
    }
}

/// Reading back what was just written gives the written source bytes: after
/// a write of `size > 0` bytes from `src_offset` at `offset` that is not
/// refused, reading `size` bytes at `offset` gives the one slice
/// `src_offset..=src_offset + size - 1`.
pub proof fn lemma_read_after_write(ss: Seq<SourceSlice>, src_offset: u64, offset: u64, size: u64)
    requires
        slices_wf(ss),
        write_error(ss, src_offset, offset, size) is None,
        size > 0,
    ensures
        read_slices(write_slices(ss, src_offset, offset, size), offset, size) == seq![
            SourceSlice { from: src_offset, to: (src_offset + size - 1) as u64 },
        ],
{
    let x = SourceSlice { from: src_offset, to: (src_offset + size - 1) as u64 };
    let a = take_bytes(ss, offset as nat);
    let r = skip_bytes(ss, offset as nat + size as nat);
    lemma_take_bytes(ss, offset as nat);
    assert(write_slices(ss, src_offset, offset, size) =~= a + (seq![x] + r));
    lemma_skip_whole(a, seq![x] + r);
    assert((seq![x] + r)[0] == x);
    assert((seq![x] + r).drop_first() =~= r);
    assert(slice_len(x) == size);
    assert(take_bytes(seq![x] + r, size as nat) =~= seq![x] + take_bytes(r, 0));
    assert(take_bytes(r, 0) =~= Seq::<SourceSlice>::empty());
}

proof fn lemma_wf_concat(a: Seq<SourceSlice>, b: Seq<SourceSlice>)
    requires
        slices_wf(a),
        slices_wf(b),
    ensures
        slices_wf(a + b),
{
    assert forall|i: int| 0 <= i < (a + b).len() implies (#[trigger] (a + b)[i]).from <= (a
        + b)[i].to by {
        if i >= a.len() {
            assert((a + b)[i] == b[i - a.len()]);
        }
    }
}

/// The content of a file.
#[derive(Debug, PartialEq, Eq)]
pub struct Content {
    slices: Vec<SourceSlice>,
}

impl View for Content {
    type V = Seq<SourceSlice>;

    closed spec fn view(&self) -> Seq<SourceSlice> {
        self.slices@
    }
}

impl Content {
    #[verifier::type_invariant]
    closed spec fn inv(self) -> bool {
        &&& slices_wf(self.slices@)
        &&& total(self.slices@) <= u64::MAX
    }

    /// Empty content.
    pub fn new() -> (r: Content)
        ensures
            r@ == Seq::<SourceSlice>::empty(),
            total(r@) == 0,
    {
        Content { slices: Vec::new() }
    }

    /// The number of bytes.
    pub fn size(&self) -> (r: u64)
        ensures
            r == total(self@),
            slices_wf(self@),
    {
        proof {
            use_type_invariant(self);
        }
        let mut sum: u64 = 0;
        let mut i: usize = 0;
        while i < self.slices.len()
            invariant
                i <= self.slices@.len(),
                sum == total(self.slices@.take(i as int)),
                slices_wf(self.slices@),
                total(self.slices@) <= u64::MAX,
            decreases self.slices@.len() - i,
        {
            proof {
                assert(self.slices@.take(i + 1).drop_last() =~= self.slices@.take(i as int));
                assert(self.slices@ =~= self.slices@.take(i + 1) + self.slices@.skip(i + 1));
                lemma_total_concat(self.slices@.take(i + 1), self.slices@.skip(i + 1));
            }
            let s = self.slices[i];
            sum = sum + (s.to - s.from) + 1;
            i = i + 1;
        }
        assert(self.slices@.take(i as int) =~= self.slices@);
        sum
    }

    /// The slices, in order.
    pub fn slices(&self) -> (r: Vec<SourceSlice>)
        ensures
            r@ == self@,
    {
        copy_slices(&self.slices)
    }

    /// Reads `size` bytes at `offset`, fewer if the content ends first.
    pub fn read(&self, offset: u64, size: u64) -> (r: Result<Content, ContentError>)
        ensures
            offset > total(self@) ==> r == Err::<Content, ContentError>(
                ContentError::OffsetOutOfRange,
            ),
            offset <= total(self@) ==> (r matches Ok(c) && c@ == read_slices(self@, offset, size)),
            r matches Ok(c) ==> slices_wf(c@) && total(c@) <= u64::MAX,
    {
        proof {
            use_type_invariant(self);
        }
        let total_size = self.size();
        if offset > total_size {
            return Err(ContentError::OffsetOutOfRange);
        }
        let rest = skip_slices(&self.slices, offset);
        proof {
            lemma_skip_bytes(self.slices@, offset as nat);
        }
        let taken = take_slices(&rest, size);
        proof {
            lemma_take_bytes(rest@, size as nat);
        }
        Ok(Content { slices: taken })
    }

    /// Overwrites the bytes from `offset` on with `size` source bytes starting
    /// at `src_offset`, extending the content if it is shorter.
    pub fn write(&mut self, src_offset: u64, offset: u64, size: u64) -> (r: Result<(), ContentError>)
        ensures
            write_error(old(self)@, src_offset, offset, size) matches Some(e) ==> r == Err::<
                (),
                ContentError,
            >(e) && final(self)@ == old(self)@,
            write_error(old(self)@, src_offset, offset, size) is None ==> r is Ok && final(self)@
                == write_slices(old(self)@, src_offset, offset, size),
            slices_wf(final(self)@),
            total(final(self)@) <= u64::MAX,
    {
        proof {
            use_type_invariant(&*self);
        }
        let total_size = self.size();
        if offset > total_size {
            return Err(ContentError::OffsetOutOfRange);
        }
        if size > u64::MAX - offset || (size > 0 && src_offset > u64::MAX - (size - 1)) {
            return Err(ContentError::Overflow);
        }
        let mut before = take_slices(&self.slices, offset);
        let after = skip_slices(&self.slices, offset + size);
        let ghost mid: Seq<SourceSlice> = if size == 0 {
            Seq::<SourceSlice>::empty()
        } else {
            seq![SourceSlice { from: src_offset, to: (src_offset + size - 1) as u64 }]
        };
        if size > 0 {
            before.push(SourceSlice { from: src_offset, to: src_offset + (size - 1) });
        }
        let ghost b2 = before@;
        let mut i: usize = 0;
        while i < after.len()
            invariant
                i <= after@.len(),
                before@ == b2 + after@.take(i as int),
            decreases after@.len() - i,
        {
            before.push(after[i]);
            i = i + 1;
            assert(before@ =~= b2 + after@.take(i as int));
        }
        proof {
            assert(after@.take(after@.len() as int) =~= after@);
            let ss = old(self).slices@;
            lemma_take_bytes(ss, offset as nat);
            lemma_skip_bytes(ss, offset as nat + size as nat);
            assert(slices_wf(mid));
            assert(total(mid) == size) by {
                if size > 0 {
                    lemma_total_single(mid[0]);
                    assert(mid =~= seq![mid[0]]);
                }
            }
            assert(b2 =~= take_bytes(ss, offset as nat) + mid);
            lemma_total_concat(take_bytes(ss, offset as nat), mid);
            lemma_total_concat(b2, after@);
            lemma_wf_concat(take_bytes(ss, offset as nat), mid);
            lemma_wf_concat(b2, after@);
            assert(before@ =~= write_slices(ss, src_offset, offset, size));
        }
        self.slices = before;
        Ok(())
    }
}

impl Clone for Content {
    fn clone(&self) -> (r: Self)
        ensures
            r@ == self@,
            slices_wf(r@),
            total(r@) <= u64::MAX,
    {
        proof {
            use_type_invariant(self);
        }
        Content { slices: copy_slices(&self.slices) }
    }
}

fn copy_slices(v: &Vec<SourceSlice>) -> (r: Vec<SourceSlice>)
    ensures
        r@ == v@,
{
    let mut r: Vec<SourceSlice> = Vec::new();
    let mut i: usize = 0;
    while i < v.len()
        invariant
            i <= v@.len(),
            r@ == v@.take(i as int),
        decreases v@.len() - i,
    {
        r.push(v[i]);
        i = i + 1;
        assert(r@ =~= v@.take(i as int));
    }
    assert(v@.take(v@.len() as int) =~= v@);
    r
}

/// The slices holding the first `n` bytes of `ss`.
fn take_slices(ss: &Vec<SourceSlice>, n: u64) -> (r: Vec<SourceSlice>)
    requires
        slices_wf(ss@),
    ensures
        r@ == take_bytes(ss@, n as nat),
{
    let mut r: Vec<SourceSlice> = Vec::new();
    let mut rem: u64 = n;
    let mut i: usize = 0;
    assert(ss@.skip(0) =~= ss@);
    while i < ss.len() && rem > 0
        invariant
            i <= ss@.len(),
            slices_wf(ss@),
            r@ + take_bytes(ss@.skip(i as int), rem as nat) == take_bytes(ss@, n as nat),
        decreases ss@.len() - i,
    {
        let s = ss[i];
        assert(ss@.skip(i as int)[0] == s);
        assert(ss@.skip(i as int).drop_first() =~= ss@.skip(i + 1));
        if rem > s.to - s.from {
            r.push(s);
            rem = rem - (s.to - s.from) - 1;
            i = i + 1;
            proof {
                let t = take_bytes(ss@.skip(i as int), rem as nat);
                assert(r@ + t =~= r@.drop_last() + (seq![s] + t));
            }
        } else {
            let piece = SourceSlice { from: s.from, to: s.from + (rem - 1) };
            r.push(piece);
            rem = 0;
            i = i + 1;
            proof {
                assert(r@ + take_bytes(ss@.skip(i as int), 0) =~= r@);
            }
        }
    }
    proof {
        if i == ss@.len() {
            assert(ss@.skip(i as int).len() == 0);
        }
        assert(r@ + take_bytes(ss@.skip(i as int), rem as nat) =~= r@);
    }
    r
}

/// The slices holding the bytes of `ss` after the first `n`.
fn skip_slices(ss: &Vec<SourceSlice>, n: u64) -> (r: Vec<SourceSlice>)
    requires
        slices_wf(ss@),
    ensures
        r@ == skip_bytes(ss@, n as nat),
{
    let mut rem: u64 = n;
    let mut i: usize = 0;
    assert(ss@.skip(0) =~= ss@);
    while i < ss.len() && rem > 0 && rem > ss[i].to - ss[i].from
        invariant
            i <= ss@.len(),
            slices_wf(ss@),
            skip_bytes(ss@.skip(i as int), rem as nat) == skip_bytes(ss@, n as nat),
        decreases ss@.len() - i,
    {
        let s = ss[i];
        assert(ss@.skip(i as int)[0] == s);
        assert(ss@.skip(i as int).drop_first() =~= ss@.skip(i + 1));
        rem = rem - (s.to - s.from) - 1;
        i = i + 1;
    }
    let mut r: Vec<SourceSlice> = Vec::new();
    if i == ss.len() {
        assert(ss@.skip(i as int).len() == 0);
        return r;
    }
    let s = ss[i];
    assert(ss@.skip(i as int)[0] == s);
    assert(ss@.skip(i as int).drop_first() =~= ss@.skip(i + 1));
    let mut j: usize = i;
    if rem > 0 {
        r.push(SourceSlice { from: s.from + rem, to: s.to });
        j = i + 1;
    }
    let ghost head = r@;
    let ghost j0 = j;
    while j < ss.len()
        invariant
            j0 <= j <= ss@.len(),
            r@ == head + ss@.subrange(j0 as int, j as int),
        decreases ss@.len() - j,
    {
        r.push(ss[j]);
        j = j + 1;
        assert(r@ =~= head + ss@.subrange(j0 as int, j as int));
    }
    proof {
        if rem > 0 {
            assert(r@ =~= seq![SourceSlice { from: (s.from + rem) as u64, to: s.to }] + ss@.skip(
                i as int,
            ).drop_first());
        } else {
            assert(r@ =~= ss@.skip(i as int));
        }
    }
    r
}

} // verus!
