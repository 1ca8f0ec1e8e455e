//! Character-level helpers shared by the encoders and parsers: decimal and
//! hexadecimal numbers, splitting, trimming and line handling.

use vstd::prelude::*;

verus! {

/// Appends one character to a string (`String::push`).
#[verifier::external_body]
pub(crate) fn push_char(s: &mut String, c: char)
    ensures
        final(s)@ == old(s)@.push(c),
{
    s.push(c);
}

/// Appends a string slice to a string.
pub fn push_str(s: &mut String, t: &str)
    ensures
        final(s)@ == old(s)@ + t@,
{
    s.append(t);
}

/// The characters of a string slice, in order.
pub fn to_chars(s: &str) -> (r: Vec<char>)
    ensures
        r@ == s@,
{
    let mut r: Vec<char> = Vec::new();
    for c in it: s.chars()
        invariant
            r@ == it.seq().take(it.index() as int),
    {
        r.push(c);
    }
    r
}

/// A string made of the given characters.
pub fn chars_to_string(v: &[char]) -> (r: String)
    ensures
        r@ == v@,
{
    let mut r = String::new();
    let mut i: usize = 0;
    while i < v.len()
        invariant
            i <= v.len(),
            r@ == v@.take(i as int),
        decreases v.len() - i,
    {
        push_char(&mut r, v[i]);
        i = i + 1;
        assert(r@ =~= v@.take(i as int));
    }
    assert(v@.take(v.len() as int) =~= v@);
    r
}

/// Appends the given characters to a string.
pub fn push_chars(s: &mut String, v: &[char])
    ensures
        final(s)@ == old(s)@ + v@,
{
    let mut i: usize = 0;
    while i < v.len()
        invariant
            i <= v.len(),
            s@ == old(s)@ + v@.take(i as int),
        decreases v.len() - i,
    {
        push_char(s, v[i]);
        i = i + 1;
        assert(s@ =~= old(s)@ + v@.take(i as int));
    }
    assert(v@.take(v.len() as int) =~= v@);
}

/// Whether two character sequences are equal.
pub fn chars_eq(a: &[char], b: &[char]) -> (r: bool)
    ensures
        r == (a@ == b@),
{
    if a.len() != b.len() {
        return false;
    }
    let mut i: usize = 0;
    while i < a.len()
        invariant
            a.len() == b.len(),
            i <= a.len(),
            a@.take(i as int) == b@.take(i as int),
        decreases a.len() - i,
    {
        if a[i] != b[i] {
            assert(a@[i as int] != b@[i as int]);
            return false;
        }
        i = i + 1;
        assert(a@.take(i as int) =~= b@.take(i as int));
    }
    assert(a@ =~= a@.take(a.len() as int));
    assert(b@ =~= b@.take(b.len() as int));
    true
}

/// Whether two strings are equal.
pub fn str_eq(a: &str, b: &str) -> (r: bool)
    ensures
        r == (a@ == b@),
{
    let x = to_chars(a);
    let y = to_chars(b);
    chars_eq(x.as_slice(), y.as_slice())
}

/// Whether `s` begins with `prefix`.
pub fn starts_with(s: &str, prefix: &str) -> (r: bool)
    ensures
        r == prefix@.is_prefix_of(s@),
{
    let a = to_chars(s);
    let b = to_chars(prefix);
    if b.len() > a.len() {
        return false;
    }
    let mut i: usize = 0;
    while i < b.len()
        invariant
            i <= b@.len() <= a@.len(),
            a@ == s@,
            b@ == prefix@,
            forall|k: int| 0 <= k < i ==> a@[k] == b@[k],
        decreases b@.len() - i,
    {
        if a[i] != b[i] {
            return false;
        }
        i = i + 1;
    }
    true
}

// ---------------------------------------------------------------------------
// Decimal rendering
// ---------------------------------------------------------------------------

/// The decimal digit character for `d < 10`.
pub open spec fn digit_char(d: nat) -> char {
    if d == 0 {
        '0'
    } else if d == 1 {
        '1'
    } else if d == 2 {
        '2'
    } else if d == 3 {
        '3'
    } else if d == 4 {
        '4'
    } else if d == 5 {
        '5'
    } else if d == 6 {
        '6'
    } else if d == 7 {
        '7'
    } else if d == 8 {
        '8'
    } else {
        '9'
    }
}

/// The shortest decimal representation of `n` (`"0"` for zero).
pub open spec fn dec(n: nat) -> Seq<char>
    decreases n,
{
    if n < 10 {
        seq![digit_char(n)]
    } else {
        dec(n / 10).push(digit_char(n % 10))
    }
}

proof fn lemma_dec_len(n: nat)
    ensures
        dec(n).len() >= 1,
        (dec(n).len() == 1) == (n < 10),
    decreases n,
{
    if n >= 10 {
        lemma_dec_len(n / 10);
    }
}

/// Different numbers have different decimal representations.
pub proof fn lemma_dec_injective(a: nat, b: nat)
    requires
        dec(a) == dec(b),
    ensures
        a == b,
    decreases a,
{
    lemma_dec_len(a);
    lemma_dec_len(b);
    if a >= 10 {
        assert(dec(a).drop_last() == dec(a / 10));
        assert(dec(b).drop_last() == dec(b / 10));
        assert(dec(a).last() == digit_char(a % 10));
        assert(dec(b).last() == digit_char(b % 10));
        lemma_dec_injective(a / 10, b / 10);
    } else {
        assert(dec(a)[0] == digit_char(a));
        assert(dec(b)[0] == digit_char(b));
    }
}

/// The decimal representation of a signed number, with a leading `-` when negative.
pub open spec fn dec_int(n: int) -> Seq<char> {
    if n < 0 {
        seq!['-'] + dec((-n) as nat)
    } else {
        dec(n as nat)
    }
}

fn digit_to_char(d: u64) -> (c: char)
    requires
        d < 10,
    ensures
        c == digit_char(d as nat),
{
    if d == 0 {
        '0'
    } else if d == 1 {
        '1'
    } else if d == 2 {
        '2'
    } else if d == 3 {
        '3'
    } else if d == 4 {
        '4'
    } else if d == 5 {
        '5'
    } else if d == 6 {
        '6'
    } else if d == 7 {
        '7'
    } else if d == 8 {
        '8'
    } else {
        '9'
    }
}

/// Appends the decimal representation of `n`.
pub fn push_u64(s: &mut String, n: u64)
    ensures
        final(s)@ == old(s)@ + dec(n as nat),
    decreases n,
{
    if n < 10 {
        push_char(s, digit_to_char(n));
        assert(dec(n as nat) =~= seq![digit_char(n as nat)]);
    } else {
        push_u64(s, n / 10);
        push_char(s, digit_to_char(n % 10));
        assert(final(s)@ =~= old(s)@ + dec(n as nat));
    }
}

/// The decimal representation of `n`, as `n.to_string()` gives it.
pub fn u64_to_string(n: u64) -> (r: String)
    ensures
        r@ == dec(n as nat),
{
    let mut r = String::new();
    push_u64(&mut r, n);
    assert(r@ =~= dec(n as nat));
    r
}

/// Appends the decimal representation of a signed number.
pub fn push_i64(s: &mut String, n: i64)
    ensures
        final(s)@ == old(s)@ + dec_int(n as int),
{
    if n < 0 {
        push_char(s, '-');
        let m: u64 = if n == i64::MIN {
            9223372036854775808u64
        } else {
            (-n) as u64
        };
        push_u64(s, m);
        assert(final(s)@ =~= old(s)@ + dec_int(n as int));
    } else {
        push_u64(s, n as u64);
    }
}

// ---------------------------------------------------------------------------
// Integer parsing, as `str::parse` and `from_str_radix` do it
// ---------------------------------------------------------------------------

/// Why a string is not a number (the kinds of `core::num::IntErrorKind`).
#[derive(Debug, Clone, Copy, PartialEq, Eq, Structural)]
pub enum IntErrorKind {
    Empty,
    InvalidDigit,
    PosOverflow,
    NegOverflow,
}

/// The error of a failed integer parse.
#[derive(Debug, Clone, Copy, PartialEq, Eq, Structural)]
pub struct ParseIntError {
    pub kind: IntErrorKind,
}

/// The value of `c` as a digit in the given radix (10 or 16, either letter case).
pub open spec fn digit_value(c: char, radix: nat) -> Option<nat> {
    if '0' <= c && c <= '9' && (c as nat) - ('0' as nat) < radix {
        Some(((c as nat) - ('0' as nat)) as nat)
    } else if radix > 10 && 'a' <= c && c <= 'z' && (c as nat) - ('a' as nat) + 10 < radix {
        Some(((c as nat) - ('a' as nat) + 10) as nat)
    } else if radix > 10 && 'A' <= c && c <= 'Z' && (c as nat) - ('A' as nat) + 10 < radix {
        Some(((c as nat) - ('A' as nat) + 10) as nat)
    } else {
        None
    }
}

/// Accumulates digits from the left: a non-digit is `InvalidDigit`, a value
/// above `max` is `PosOverflow`, each checked at the digit where it occurs.
pub open spec fn acc_pos(s: Seq<char>, radix: nat, max: nat, acc: nat) -> Result<nat, IntErrorKind>
    decreases s.len(),
{
    if s.len() == 0 {
        Ok(acc)
    } else {
        match digit_value(s[0], radix) {
            None => Err(IntErrorKind::InvalidDigit),
            Some(d) => {
                let v = acc * radix + d;
                if v > max {
                    Err(IntErrorKind::PosOverflow)
                } else {
                    acc_pos(s.drop_first(), radix, max, v)
                }
            },
        }
    }
}

/// Accumulates digits of a negative number; a value below `-min_abs` is `NegOverflow`.
pub open spec fn acc_neg(s: Seq<char>, radix: nat, min_abs: nat, acc: nat) -> Result<nat, IntErrorKind>
    decreases s.len(),
{
    if s.len() == 0 {
        Ok(acc)
    } else {
        match digit_value(s[0], radix) {
            None => Err(IntErrorKind::InvalidDigit),
            Some(d) => {
                let v = acc * radix + d;
                if v > min_abs {
                    Err(IntErrorKind::NegOverflow)
                } else {
                    acc_neg(s.drop_first(), radix, min_abs, v)
                }
            },
        }
    }
}

/// What parsing `s` as an unsigned number of at most `max` gives.
pub open spec fn parse_unsigned(s: Seq<char>, radix: nat, max: nat) -> Result<nat, IntErrorKind> {
    if s.len() == 0 {
        Err(IntErrorKind::Empty)
    } else if (s[0] == '+' || s[0] == '-') && s.len() == 1 {
        Err(IntErrorKind::InvalidDigit)
    } else if s[0] == '+' {
        acc_pos(s.drop_first(), radix, max, 0)
    } else {
        acc_pos(s, radix, max, 0)
    }
}

/// What parsing `s` as a signed decimal number in `[-min_abs, max]` gives.
pub open spec fn parse_signed(s: Seq<char>, max: nat, min_abs: nat) -> Result<int, IntErrorKind> {
    if s.len() == 0 {
        Err(IntErrorKind::Empty)
    } else if (s[0] == '+' || s[0] == '-') && s.len() == 1 {
        Err(IntErrorKind::InvalidDigit)
    } else if s[0] == '-' {
        match acc_neg(s.drop_first(), 10, min_abs, 0) {
            Ok(v) => Ok(-(v as int)),
            Err(e) => Err(e),
        }
    } else if s[0] == '+' {
        match acc_pos(s.drop_first(), 10, max, 0) {
            Ok(v) => Ok(v as int),
            Err(e) => Err(e),
        }
    } else {
        match acc_pos(s, 10, max, 0) {
            Ok(v) => Ok(v as int),
            Err(e) => Err(e),
        }
    }
}

proof fn lemma_acc_pos_bound(s: Seq<char>, radix: nat, max: nat, acc: nat)
    requires
        acc <= max,
    ensures
        acc_pos(s, radix, max, acc) matches Ok(v) ==> v <= max,
    decreases s.len(),
{
    if s.len() > 0 {
        if let Some(d) = digit_value(s[0], radix) {
            if acc * radix + d <= max {
                lemma_acc_pos_bound(s.drop_first(), radix, max, acc * radix + d);
            }
        }
    }
}

proof fn lemma_acc_neg_bound(s: Seq<char>, radix: nat, max: nat, acc: nat)
    requires
        acc <= max,
    ensures
        acc_neg(s, radix, max, acc) matches Ok(v) ==> v <= max,
    decreases s.len(),
{
    if s.len() > 0 {
        if let Some(d) = digit_value(s[0], radix) {
            if acc * radix + d <= max {
                lemma_acc_neg_bound(s.drop_first(), radix, max, acc * radix + d);
            }
        }
    }
}

/// Parsed values stay within the bounds they were parsed against.
pub proof fn lemma_parse_bounds(s: Seq<char>, radix: nat, max: nat, min_abs: nat)
    ensures
        parse_unsigned(s, radix, max) matches Ok(v) ==> v <= max,
        parse_signed(s, max, min_abs) matches Ok(v) ==> -(min_abs as int) <= v <= max,
{
    lemma_acc_pos_bound(s, radix, max, 0);
    lemma_acc_pos_bound(s.drop_first(), radix, max, 0);
    lemma_acc_pos_bound(s, 10, max, 0);
    lemma_acc_pos_bound(s.drop_first(), 10, max, 0);
    lemma_acc_neg_bound(s.drop_first(), 10, min_abs, 0);
}

fn digit_of(c: char, radix: u32) -> (r: Option<u32>)
    requires
        radix == 10 || radix == 16,
    ensures
        r matches Some(d) ==> digit_value(c, radix as nat) == Some(d as nat) && d < radix,
        r is None ==> digit_value(c, radix as nat) is None,
{
    if '0' <= c && c <= '9' {
        Some((c as u32) - ('0' as u32))
    } else if radix == 16 && 'a' <= c && c <= 'f' {
        Some((c as u32) - ('a' as u32) + 10)
    } else if radix == 16 && 'A' <= c && c <= 'F' {
        Some((c as u32) - ('A' as u32) + 10)
    } else {
        None
    }
}

proof fn lemma_acc_pos_step(s: Seq<char>, radix: nat, max: nat, acc: nat, i: int)
    requires
        0 <= i < s.len(),
        digit_value(s[i], radix) is Some,
        acc * radix + digit_value(s[i], radix)->0 <= max,
    ensures
        acc_pos(s.skip(i), radix, max, acc) == acc_pos(
            s.skip(i + 1),
            radix,
            max,
            acc * radix + digit_value(s[i], radix)->0,
        ),
{
    assert(s.skip(i).drop_first() =~= s.skip(i + 1));
}

proof fn lemma_acc_neg_step(s: Seq<char>, radix: nat, max: nat, acc: nat, i: int)
    requires
        0 <= i < s.len(),
        digit_value(s[i], radix) is Some,
        acc * radix + digit_value(s[i], radix)->0 <= max,
    ensures
        acc_neg(s.skip(i), radix, max, acc) == acc_neg(
            s.skip(i + 1),
            radix,
            max,
            acc * radix + digit_value(s[i], radix)->0,
        ),
{
    assert(s.skip(i).drop_first() =~= s.skip(i + 1));
}

/// Accumulates `s[start..]` as digits of a non-negative number bounded by `max`.
fn acc_digits(s: &[char], start: usize, radix: u32, max: u64, neg: bool) -> (r: Result<u64, IntErrorKind>)
    requires
        radix == 10 || radix == 16,
        start <= s.len(),
    ensures
        !neg ==> r == (match acc_pos(s@.skip(start as int), radix as nat, max as nat, 0) {
            Ok(v) => Ok::<u64, IntErrorKind>(v as u64),
            Err(e) => Err(e),
        }),
        neg ==> r == (match acc_neg(s@.skip(start as int), radix as nat, max as nat, 0) {
            Ok(v) => Ok::<u64, IntErrorKind>(v as u64),
            Err(e) => Err(e),
        }),
        r matches Ok(v) ==> v <= max,
{
    let mut acc: u64 = 0;
    let mut i: usize = start;
    while i < s.len()
        invariant
            radix == 10 || radix == 16,
            start <= i <= s.len(),
            acc <= max,
            !neg ==> acc_pos(s@.skip(start as int), radix as nat, max as nat, 0) == acc_pos(
                s@.skip(i as int),
                radix as nat,
                max as nat,
                acc as nat,
            ),
            neg ==> acc_neg(s@.skip(start as int), radix as nat, max as nat, 0) == acc_neg(
                s@.skip(i as int),
                radix as nat,
                max as nat,
                acc as nat,
            ),
        decreases s.len() - i,
    {
        let c = s[i];
        assert(s@.skip(i as int)[0] == c);
        match digit_of(c, radix) {
            None => {
                return Err(IntErrorKind::InvalidDigit);
            },
            Some(d) => {
                let big: u128 = (acc as u128) * (radix as u128) + (d as u128);
                assert(big == acc * radix + d) by (nonlinear_arith)
                    requires
                        big == (acc as u128) * (radix as u128) + (d as u128),
                        acc <= u64::MAX,
                        radix <= 16,
                        d < 16,
                ;
                if big > max as u128 {
                    if neg {
                        return Err(IntErrorKind::NegOverflow);
                    } else {
                        return Err(IntErrorKind::PosOverflow);
                    }
                }
                proof {
                    if neg {
                        lemma_acc_neg_step(s@, radix as nat, max as nat, acc as nat, i as int);
                    } else {
                        lemma_acc_pos_step(s@, radix as nat, max as nat, acc as nat, i as int);
                    }
                }
                acc = big as u64;
            },
        }
        i = i + 1;
    }
    assert(s@.skip(i as int).len() == 0);
    Ok(acc)
}

/// Parses an unsigned number in radix 10 or 16 bounded by `max`, as
/// `str::parse` and `u64::from_str_radix` do.
pub fn parse_unsigned_chars(s: &[char], radix: u32, max: u64) -> (r: Result<u64, ParseIntError>)
    requires
        radix == 10 || radix == 16,
    ensures
        r == (match parse_unsigned(s@, radix as nat, max as nat) {
            Ok(v) => Ok::<u64, ParseIntError>(v as u64),
            Err(e) => Err(ParseIntError { kind: e }),
        }),
        r matches Ok(v) ==> v <= max,
{
    if s.len() == 0 {
        return Err(ParseIntError { kind: IntErrorKind::Empty });
    }
    if (s[0] == '+' || s[0] == '-') && s.len() == 1 {
        return Err(ParseIntError { kind: IntErrorKind::InvalidDigit });
    }
    let start: usize = if s[0] == '+' {
        1
    } else {
        0
    };
    assert(s@.skip(1) =~= s@.drop_first());
    assert(s@.skip(0) =~= s@);
    match acc_digits(s, start, radix, max, false) {
        Ok(v) => Ok(v),
        Err(e) => Err(ParseIntError { kind: e }),
    }
}

/// Parses a signed decimal number in `[-min_abs, max]`, as `str::parse` does.
pub fn parse_signed_chars(s: &[char], max: u64, min_abs: u64) -> (r: Result<i128, ParseIntError>)
    ensures
        r == (match parse_signed(s@, max as nat, min_abs as nat) {
            Ok(v) => Ok::<i128, ParseIntError>(v as i128),
            Err(e) => Err(ParseIntError { kind: e }),
        }),
        r matches Ok(v) ==> -(min_abs as int) <= v <= max,
{
    proof {
        lemma_parse_bounds(s@, 10, max as nat, min_abs as nat);
    }
    if s.len() == 0 {
        return Err(ParseIntError { kind: IntErrorKind::Empty });
    }
    if (s[0] == '+' || s[0] == '-') && s.len() == 1 {
        return Err(ParseIntError { kind: IntErrorKind::InvalidDigit });
    }
    assert(s@.skip(1) =~= s@.drop_first());
    assert(s@.skip(0) =~= s@);
    if s[0] == '-' {
        match acc_digits(s, 1, 10, min_abs, true) {
            Ok(v) => Ok(-(v as i128)),
            Err(e) => Err(ParseIntError { kind: e }),
        }
    } else {
        let start: usize = if s[0] == '+' {
            1
        } else {
            0
        };
        match acc_digits(s, start, 10, max, false) {
            Ok(v) => Ok(v as i128),
            Err(e) => Err(ParseIntError { kind: e }),
        }
    }
}

/// Parses a decimal `u32`, as `str::parse::<u32>` does.
pub fn parse_u32(s: &[char]) -> (r: Result<u32, ParseIntError>)
    ensures
        r == (match parse_unsigned(s@, 10, u32::MAX as nat) {
            Ok(v) => Ok::<u32, ParseIntError>(v as u32),
            Err(e) => Err(ParseIntError { kind: e }),
        }),
{
    proof {
        lemma_parse_bounds(s@, 10, u32::MAX as nat, 0);
    }
    match parse_unsigned_chars(s, 10, u32::MAX as u64) {
        Ok(v) => Ok(v as u32),
        Err(e) => Err(e),
    }
}

/// Parses a decimal `u64`, as `str::parse::<u64>` does.
pub fn parse_u64(s: &[char]) -> (r: Result<u64, ParseIntError>)
    ensures
        r == (match parse_unsigned(s@, 10, u64::MAX as nat) {
            Ok(v) => Ok::<u64, ParseIntError>(v as u64),
            Err(e) => Err(ParseIntError { kind: e }),
        }),
{
    parse_unsigned_chars(s, 10, u64::MAX)
}

/// Parses a decimal `i32`, as `str::parse::<i32>` does.
pub fn parse_i32(s: &[char]) -> (r: Result<i32, ParseIntError>)
    ensures
        r == (match parse_signed(s@, i32::MAX as nat, 2147483648) {
            Ok(v) => Ok::<i32, ParseIntError>(v as i32),
            Err(e) => Err(ParseIntError { kind: e }),
        }),
{
    proof {
        lemma_parse_bounds(s@, 10, i32::MAX as nat, 2147483648);
    }
    match parse_signed_chars(s, i32::MAX as u64, 2147483648) {
        Ok(v) => Ok(v as i32),
        Err(e) => Err(e),
    }
}

// ---------------------------------------------------------------------------
// Whitespace, splitting and lines
// ---------------------------------------------------------------------------

/// Unicode white space, as `char::is_whitespace` decides it.
pub open spec fn is_ws(c: char) -> bool {
    ||| c == ' '
    ||| ('\t' <= c && c <= '\r')
    ||| c == '\u{85}'
    ||| c == '\u{A0}'
    ||| c == '\u{1680}'
    ||| ('\u{2000}' <= c && c <= '\u{200A}')
    ||| c == '\u{2028}'
    ||| c == '\u{2029}'
    ||| c == '\u{202F}'
    ||| c == '\u{205F}'
    ||| c == '\u{3000}'
}

pub fn is_whitespace(c: char) -> (r: bool)
    ensures
        r == is_ws(c),
{
    c == ' ' || ('\t' <= c && c <= '\r') || c == '\u{85}' || c == '\u{A0}' || c == '\u{1680}'
        || ('\u{2000}' <= c && c <= '\u{200A}') || c == '\u{2028}' || c == '\u{2029}' || c
        == '\u{202F}' || c == '\u{205F}' || c == '\u{3000}'
}

/// `s` without its leading white space.
pub open spec fn trim_start(s: Seq<char>) -> Seq<char>
    decreases s.len(),
{
    if s.len() > 0 && is_ws(s[0]) {
        trim_start(s.drop_first())
    } else {
        s
    }
}

/// `s` without its trailing white space.
pub open spec fn trim_end(s: Seq<char>) -> Seq<char>
    decreases s.len(),
{
    if s.len() > 0 && is_ws(s.last()) {
        trim_end(s.drop_last())
    } else {
        s
    }
}

/// `s` without leading and trailing white space (`str::trim`).
pub open spec fn trim(s: Seq<char>) -> Seq<char> {
    trim_end(trim_start(s))
}

/// The bounds `[lo, hi)` of `trim(s)` inside `s`.
pub fn trim_bounds(s: &[char]) -> (r: (usize, usize))
    ensures
        r.0 <= r.1 <= s.len(),
        s@.subrange(r.0 as int, r.1 as int) == trim(s@),
{
    let mut lo: usize = 0;
    assert(s@.subrange(0, s.len() as int) =~= s@);
    while lo < s.len() && is_whitespace(s[lo])
        invariant
            lo <= s.len(),
            trim_start(s@) == trim_start(s@.subrange(lo as int, s.len() as int)),
        decreases s.len() - lo,
    {
        assert(s@.subrange(lo as int, s.len() as int).drop_first() =~= s@.subrange(
            lo + 1,
            s.len() as int,
        ));
        lo = lo + 1;
    }
    assert(trim_start(s@) == s@.subrange(lo as int, s.len() as int));
    let mut hi: usize = s.len();
    while hi > lo && is_whitespace(s[hi - 1])
        invariant
            lo <= hi <= s.len(),
            trim(s@) == trim_end(s@.subrange(lo as int, hi as int)),
        decreases hi,
    {
        assert(s@.subrange(lo as int, hi as int).drop_last() =~= s@.subrange(
            lo as int,
            hi - 1,
        ));
        hi = hi - 1;
    }
    (lo, hi)
}

/// The characters of `trim(s)`.
pub fn trimmed(s: &[char]) -> (r: Vec<char>)
    ensures
        r@ == trim(s@),
{
    let (lo, hi) = trim_bounds(s);
    let mut r: Vec<char> = Vec::new();
    let mut i = lo;
    while i < hi
        invariant
            lo <= i <= hi <= s.len(),
            r@ == s@.subrange(lo as int, i as int),
        decreases hi - i,
    {
        r.push(s[i]);
        i = i + 1;
        assert(r@ =~= s@.subrange(lo as int, i as int));
    }
    r
}

/// The pieces of `s` between the characters of `seps` (`str::split`); there is
/// always at least one piece.
pub open spec fn split_by(s: Seq<char>, seps: Seq<char>) -> Seq<Seq<char>>
    decreases s.len(),
{
    if s.len() == 0 {
        seq![Seq::<char>::empty()]
    } else {
        let init = split_by(s.drop_last(), seps);
        if seps.contains(s.last()) {
            init.push(Seq::<char>::empty())
        } else {
            init.update(init.len() - 1, init.last().push(s.last()))
        }
    }
}

pub proof fn lemma_split_by_nonempty(s: Seq<char>, seps: Seq<char>)
    ensures
        split_by(s, seps).len() >= 1,
    decreases s.len(),
{
    if s.len() > 0 {
        lemma_split_by_nonempty(s.drop_last(), seps);
    }
}

/// Whether `c` occurs in `v`.
pub fn char_in(v: &[char], c: char) -> (r: bool)
    ensures
        r == v@.contains(c),
{
    let mut j: usize = 0;
    while j < v.len()
        invariant
            j <= v.len(),
            forall|k: int| 0 <= k < j ==> v@[k] != c,
        decreases v.len() - j,
    {
        if v[j] == c {
            assert(v@[j as int] == c);
            return true;
        }
        j = j + 1;
    }
    false
}

/// Splits `s` at every character that `seps` holds.
pub fn split_chars(s: &[char], seps: &[char]) -> (r: Vec<Vec<char>>)
    ensures
        r@.len() == split_by(s@, seps@).len(),
        forall|i: int| 0 <= i < r@.len() ==> #[trigger] r@[i]@ == split_by(s@, seps@)[i],
{
    let mut done: Vec<Vec<char>> = Vec::new();
    let mut cur: Vec<char> = Vec::new();
    let mut i: usize = 0;
    while i < s.len()
        invariant
            i <= s.len(),
            done@.len() + 1 == split_by(s@.take(i as int), seps@).len(),
            forall|k: int|
                0 <= k < done@.len() ==> #[trigger] done@[k]@ == split_by(
                    s@.take(i as int),
                    seps@,
                )[k],
            cur@ == split_by(s@.take(i as int), seps@).last(),
        decreases s.len() - i,
    {
        let c = s[i];
        let is_sep = char_in(seps, c);
        proof {
            lemma_split_by_nonempty(s@.take(i as int), seps@);
            assert(s@.take(i + 1).drop_last() =~= s@.take(i as int));
            assert(s@.take(i + 1).last() == c);
        }
        if is_sep {
            let piece = cur;
            done.push(piece);
            cur = Vec::new();
        } else {
            cur.push(c);
        }
        i = i + 1;
    }
    assert(s@.take(s.len() as int) =~= s@);
    proof {
        lemma_split_by_nonempty(s@, seps@);
    }
    let ghost before = done@;
    done.push(cur);
    done
}

/// The lines of `s` as `str::lines` gives them: split at `\n`, a `\r`
/// before a `\n` dropped, and no line after a final `\n`.
pub open spec fn lines_spec(s: Seq<char>) -> Seq<Seq<char>> {
    let parts = split_by(s, seq!['\n']);
    let n = parts.len() as int;
    let ended = Seq::new(
        (n - 1) as nat,
        |i: int|
            if parts[i].len() > 0 && parts[i].last() == '\r' {
                parts[i].drop_last()
            } else {
                parts[i]
            },
    );
    if parts[n - 1].len() > 0 {
        ended.push(parts[n - 1])
    } else {
        ended
    }
}

/// The lines of `text`, as `str::lines` splits them.
pub fn lines_of(text: &str) -> (r: Vec<Vec<char>>)
    ensures
        r@.len() == lines_spec(text@).len(),
        forall|i: int| 0 <= i < r@.len() ==> #[trigger] r@[i]@ == lines_spec(text@)[i],
{
    let c = to_chars(text);
    let nl: Vec<char> = vec!['\n'];
    assert(nl@ =~= seq!['\n']);
    let parts = split_chars(c.as_slice(), nl.as_slice());
    proof {
        crate::text::lemma_split_by_nonempty(text@, seq!['\n']);
    }
    let ghost spec_lines = lines_spec(text@);
    let n = parts.len();
    let mut r: Vec<Vec<char>> = Vec::new();
    let mut i: usize = 0;
    while i + 1 < n
        invariant
            n == parts@.len(),
            n >= 1,
            i <= n - 1,
            parts@.len() == split_by(text@, seq!['\n']).len(),
            forall|k: int| 0 <= k < parts@.len() ==> #[trigger] parts@[k]@ == split_by(text@, seq!['\n'])[k],
            r@.len() == i,
            forall|k: int| 0 <= k < i ==> #[trigger] r@[k]@ == spec_lines[k],
            spec_lines == lines_spec(text@),
        decreases n - i,
    {
        let p = &parts[i];
        let mut line: Vec<char> = Vec::new();
        let len = p.len();
        let end = if len > 0 && p[len - 1] == '\r' {
            len - 1
        } else {
            len
        };
        let mut j: usize = 0;
        while j < end
            invariant
                end <= p@.len(),
                j <= end,
                line@ == p@.take(j as int),
            decreases end - j,
        {
            line.push(p[j]);
            j = j + 1;
            assert(line@ =~= p@.take(j as int));
        }
        assert(line@ =~= spec_lines[i as int]);
        r.push(line);
        i = i + 1;
    }
    let last = &parts[n - 1];
    if last.len() > 0 {
        let mut line: Vec<char> = Vec::new();
        let mut j: usize = 0;
        while j < last.len()
            invariant
                j <= last@.len(),
                line@ == last@.take(j as int),
            decreases last@.len() - j,
        {
            line.push(last[j]);
            j = j + 1;
            assert(line@ =~= last@.take(j as int));
        }
        assert(line@ =~= last@);
        r.push(line);
    }
    r
}

} // verus!
