//! A workload: the sequence of operations a test runs.

use vstd::prelude::*;

use base64::prelude::BASE64_URL_SAFE;
use base64::Engine;
use twox_hash::XxHash3_128;

use super::operation::{OpView, Operation};

verus! {

/// The streaming 128-bit XXH3 hasher.
#[verifier::external_type_specification]
#[verifier::external_body]
pub struct ExXxHash3_128(XxHash3_128);

/// The bytes written to an XXH3 hasher so far.
pub uninterp spec fn xxh3_state(h: XxHash3_128) -> Seq<u8>;

/// The 128-bit XXH3 hash (seed 0, default secret) of `data`.
pub uninterp spec fn xxh3_128(data: Seq<u8>) -> u128;

/// The URL-safe base64 digit for `v < 64`: `A`-`Z`, `a`-`z`, `0`-`9`, `-`, `_`.
pub open spec fn base64_digit(v: int) -> char {
    if v < 26 {
        (65 + v) as char
    } else if v < 52 {
        (97 + v - 26) as char
    } else if v < 62 {
        (48 + v - 52) as char
    } else if v == 62 {
        '-'
    } else {
        '_'
    }
}

/// URL-safe base64 (with padding) of `data`: each group of three bytes
/// gives four digits of six bits each, most significant first; a last group
/// of one or two bytes is padded with zero bits and `=`.
pub open spec fn base64_url_safe(data: Seq<u8>) -> Seq<char>
    decreases data.len(),
{
    let b0 = data[0] as int;
    let b1 = data[1] as int;
    let b2 = data[2] as int;
    if data.len() == 0 {
        Seq::empty()
    } else if data.len() == 1 {
        seq![base64_digit(b0 / 4), base64_digit((b0 % 4) * 16), '=', '=']
    } else if data.len() == 2 {
        seq![base64_digit(b0 / 4), base64_digit((b0 % 4) * 16 + b1 / 16), base64_digit((b1 % 16) * 4), '=']
    } else {
        seq![
            base64_digit(b0 / 4),
            base64_digit((b0 % 4) * 16 + b1 / 16),
            base64_digit((b1 % 16) * 4 + b2 / 64),
            base64_digit(b2 % 64),
        ] + base64_url_safe(data.skip(3))
    }
}

/// `XxHash3_128::new`: a hasher with nothing written.
#[verifier::external_body]
fn xxh3_new() -> (r: XxHash3_128)
    ensures
        xxh3_state(r) == Seq::<u8>::empty(),
{
    XxHash3_128::new()
}

/// `XxHash3_128::write`: appends `data` to what was written.
#[verifier::external_body]
fn xxh3_write(h: &mut XxHash3_128, data: &[u8])
    ensures
        xxh3_state(*final(h)) == xxh3_state(*old(h)) + data@,
{
    h.write(data)
}

/// `XxHash3_128::finish_128`: the hash of what was written (streaming
/// gives the same hash as hashing all of it at once).
#[verifier::external_body]
fn xxh3_finish(h: &XxHash3_128) -> (r: u128)
    ensures
        r == xxh3_128(xxh3_state(*h)),
{
    h.finish_128()
}

/// `Engine::encode` of `BASE64_URL_SAFE`.
#[verifier::external_body]
fn base64_url_safe_encode(data: &[u8]) -> (r: String)
    ensures
        r@ == base64_url_safe(data@),
{
    BASE64_URL_SAFE.encode(data)
}

/// The little-endian bytes of `x`.
pub open spec fn le_bytes_u128(x: u128) -> Seq<u8> {
    Seq::new(16, |i: int| ((x >> (8 * i) as u128) & 0xff) as u8)
}

/// The bytes of `x`, least significant first.
fn u128_le_bytes(x: u128) -> (r: Vec<u8>)
    ensures
        r@ == le_bytes_u128(x),
{
    let mut r: Vec<u8> = Vec::new();
    let mut i: u32 = 0;
    while i < 16
        invariant
            i <= 16,
            r@ == le_bytes_u128(x).take(i as int),
        decreases 16 - i,
    {
        let b = ((x >> (8 * i)) & 0xff) as u8;
        assert(b == le_bytes_u128(x)[i as int]);
        r.push(b);
        i = i + 1;
        assert(r@ =~= le_bytes_u128(x).take(i as int));
    }
    assert(r@ =~= le_bytes_u128(x));
    r
}

/// The name of a test case whose serialized form is `bytes`: the URL-safe
/// base64 of the little-endian bytes of the bytes' 128-bit XXH3 hash.
pub fn name_from_bytes(bytes: &[u8]) -> (r: String)
    ensures
        r@ == base64_url_safe(le_bytes_u128(xxh3_128(bytes@))),
{
    let mut hasher = xxh3_new();
    xxh3_write(&mut hasher, bytes);
    assert(xxh3_state(hasher) =~= bytes@);
    let hash = xxh3_finish(&hasher);
    let le = u128_le_bytes(hash);
    base64_url_safe_encode(le.as_slice())
}

/// Sequence of operations to be run in a test.
#[derive(Debug, PartialEq)]
pub struct Workload {
    pub ops: Vec<Operation>,
}

impl View for Workload {
    type V = Seq<OpView>;

    open spec fn view(&self) -> Seq<OpView> {
        self.ops@.map_values(|op: Operation| op@)
    }
}

impl Workload {
    /// The empty workload.
    pub fn new() -> (r: Workload)
        ensures
            r@ == Seq::<OpView>::empty(),
    {
        let r = Workload { ops: Vec::new() };
        assert(r@ =~= Seq::<OpView>::empty());
        r
    }

    /// Appends an operation.
    pub fn push(&mut self, op: Operation)
        ensures
            final(self)@ == old(self)@.push(op@),
    {
        self.ops.push(op);
        assert(self@ =~= old(self)@.push(op@));
    }

    /// The number of operations.
    pub fn len(&self) -> (r: usize)
        ensures
            r == self@.len(),
    {
        self.ops.len()
    }
}

impl Clone for Workload {
    fn clone(&self) -> (r: Self)
        ensures
            r@ == self@,
    {
        let mut v: Vec<Operation> = Vec::new();
        let mut i: usize = 0;
        while i < self.ops.len()
            invariant
                i <= self.ops@.len(),
                v@.len() == i,
                forall|k: int| 0 <= k < i ==> (#[trigger] v@[k])@ == self.ops@[k]@,
            decreases self.ops@.len() - i,
        {
            v.push(self.ops[i].clone());
            i = i + 1;
        }
        let r = Workload { ops: v };
        assert(r@ =~= self@);
        r
    }
}

} // verus!
