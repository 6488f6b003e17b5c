//! Bytes of cell text: character classes, runs of letters, digits and spaces,
//! and the numbers that runs of digits spell.

use vstd::prelude::*;

verus! {

pub const SPACE: u8 = 32;
pub const LPAREN: u8 = 40;
pub const RPAREN: u8 = 41;
pub const STAR: u8 = 42;
pub const PLUS: u8 = 43;
pub const COMMA: u8 = 44;
pub const MINUS: u8 = 45;
pub const DOT: u8 = 46;
pub const SLASH: u8 = 47;
pub const ZERO: u8 = 48;
pub const NINE: u8 = 57;
pub const COLON: u8 = 58;
pub const LESS: u8 = 60;
pub const EQUALS: u8 = 61;
pub const GREATER: u8 = 62;
pub const UPPER_A: u8 = 65;
pub const UPPER_Z: u8 = 90;
pub const LOWER_A: u8 = 97;
pub const LOWER_E: u8 = 101;
pub const LOWER_Z: u8 = 122;

/// Row numbers past this one read as this one: both lie far outside the grid.
pub const ROW_NUMBER_MAX: u64 = 4_000_000_000;

pub open spec fn is_digit(c: u8) -> bool {
    ZERO <= c <= NINE
}

pub open spec fn is_alpha(c: u8) -> bool {
    UPPER_A <= c <= UPPER_Z || LOWER_A <= c <= LOWER_Z
}

/// The byte with a lowercase letter folded to uppercase.
pub open spec fn upper(c: u8) -> u8 {
    if LOWER_A <= c <= LOWER_Z {
        (c - 32) as u8
    } else {
        c
    }
}

pub open spec fn upper_all(s: Seq<u8>) -> Seq<u8> {
    Seq::new(s.len(), |i: int| upper(s[i]))
}

/// The first position at or after `p` that holds no digit.
pub open spec fn digits_end(b: Seq<u8>, p: int) -> int
    decreases b.len() - p,
{
    if 0 <= p < b.len() && is_digit(b[p]) {
        digits_end(b, p + 1)
    } else {
        p
    }
}

/// The first position at or after `p` that holds no letter.
pub open spec fn alphas_end(b: Seq<u8>, p: int) -> int
    decreases b.len() - p,
{
    if 0 <= p < b.len() && is_alpha(b[p]) {
        alphas_end(b, p + 1)
    } else {
        p
    }
}

/// The first position at or after `p` that holds no space.
pub open spec fn spaces_end(b: Seq<u8>, p: int) -> int
    decreases b.len() - p,
{
    if 0 <= p < b.len() && b[p] == SPACE {
        spaces_end(b, p + 1)
    } else {
        p
    }
}

/// The number that the digits in `b[i..j]` spell.
pub open spec fn digits_value(b: Seq<u8>, i: int, j: int) -> int
    decreases j - i,
{
    if j <= i {
        0
    } else {
        digits_value(b, i, j - 1) * 10 + (b[j - 1] - ZERO)
    }
}

/// The row number that the digits in `b[i..j]` spell.
pub open spec fn row_number(b: Seq<u8>, i: int, j: int) -> int {
    if digits_value(b, i, j) > ROW_NUMBER_MAX {
        ROW_NUMBER_MAX as int
    } else {
        digits_value(b, i, j)
    }
}

/// The bytes of a literal of ASCII characters.
pub open spec fn bytes_of(s: &str) -> Seq<u8> {
    Seq::new(s@.len(), |i: int| s@[i] as u8)
}

/// The characters of ASCII bytes.
pub open spec fn chars_of(b: Seq<u8>) -> Seq<char> {
    Seq::new(b.len(), |i: int| b[i] as char)
}

pub open spec fn all_ascii(b: Seq<u8>) -> bool {
    forall|i: int| 0 <= i < b.len() ==> #[trigger] b[i] < 128
}

pub proof fn lemma_digits_end(b: Seq<u8>, p: int)
    requires
        0 <= p <= b.len(),
    ensures
        p <= digits_end(b, p) <= b.len(),
        forall|i: int| p <= i < digits_end(b, p) ==> is_digit(#[trigger] b[i]),
        digits_end(b, p) < b.len() ==> !is_digit(b[digits_end(b, p)]),
    decreases b.len() - p,
{
    if p < b.len() && is_digit(b[p]) {
        lemma_digits_end(b, p + 1);
    }
}

/// Any position reached over digits alone has the same run's end.
pub proof fn lemma_digits_end_from(b: Seq<u8>, p: int, q: int)
    requires
        0 <= p <= q <= b.len(),
        forall|i: int| p <= i < q ==> is_digit(#[trigger] b[i]),
    ensures
        digits_end(b, p) == digits_end(b, q),
    decreases q - p,
{
    if p < q {
        assert(is_digit(b[p]));
        lemma_digits_end_from(b, p + 1, q);
    }
}

pub proof fn lemma_alphas_end(b: Seq<u8>, p: int)
    requires
        0 <= p <= b.len(),
    ensures
        p <= alphas_end(b, p) <= b.len(),
        forall|i: int| p <= i < alphas_end(b, p) ==> is_alpha(#[trigger] b[i]),
        alphas_end(b, p) < b.len() ==> !is_alpha(b[alphas_end(b, p)]),
    decreases b.len() - p,
{
    if p < b.len() && is_alpha(b[p]) {
        lemma_alphas_end(b, p + 1);
    }
}

pub proof fn lemma_spaces_end(b: Seq<u8>, p: int)
    requires
        0 <= p <= b.len(),
    ensures
        p <= spaces_end(b, p) <= b.len(),
        forall|i: int| p <= i < spaces_end(b, p) ==> #[trigger] b[i] == SPACE,
        spaces_end(b, p) < b.len() ==> b[spaces_end(b, p)] != SPACE,
    decreases b.len() - p,
{
    if p < b.len() && b[p] == SPACE {
        lemma_spaces_end(b, p + 1);
    }
}

pub proof fn lemma_digits_value_nonneg(b: Seq<u8>, i: int, j: int)
    requires
        0 <= i,
        j <= b.len(),
        forall|k: int| i <= k < j ==> is_digit(#[trigger] b[k]),
    ensures
        digits_value(b, i, j) >= 0,
    decreases j - i,
{
    if i < j {
        lemma_digits_value_nonneg(b, i, j - 1);
    }
}

/// A longer run of digits spells no smaller a number.
pub proof fn lemma_digits_value_grows(b: Seq<u8>, i: int, j: int, k: int)
    requires
        0 <= i <= j <= k <= b.len(),
        forall|m: int| i <= m < k ==> is_digit(#[trigger] b[m]),
    ensures
        digits_value(b, i, j) <= digits_value(b, i, k),
    decreases k - j,
{
    if j < k {
        lemma_digits_value_grows(b, i, j, k - 1);
        lemma_digits_value_nonneg(b, i, k - 1);
    }
}

/// The number depends on the bytes between its ends alone.
pub proof fn lemma_digits_value_same(a: Seq<u8>, i: int, j: int, b: Seq<u8>, k: int)
    requires
        0 <= i <= j <= a.len(),
        0 <= k,
        k + j - i <= b.len(),
        forall|m: int| 0 <= m < j - i ==> #[trigger] a[i + m] == b[k + m],
    ensures
        digits_value(a, i, j) == digits_value(b, k, k + j - i),
    decreases j - i,
{
    if i < j {
        assert(a[i + (j - 1 - i)] == b[k + (j - 1 - i)]);
        lemma_digits_value_same(a, i, j - 1, b, k);
    }
}

pub fn is_ascii_digit(c: u8) -> (r: bool)
    ensures
        r == is_digit(c),
{
    ZERO <= c && c <= NINE
}

pub fn is_ascii_alphabetic(c: u8) -> (r: bool)
    ensures
        r == is_alpha(c),
{
    (UPPER_A <= c && c <= UPPER_Z) || (LOWER_A <= c && c <= LOWER_Z)
}

pub fn to_ascii_uppercase(c: u8) -> (r: u8)
    ensures
        r == upper(c),
{
    if LOWER_A <= c && c <= LOWER_Z {
        c - 32
    } else {
        c
    }
}

/// The end of the run of letters that starts at `p`.
pub fn skip_alphas(b: &[u8], p: usize) -> (q: usize)
    requires
        p <= b@.len(),
    ensures
        q == alphas_end(b@, p as int),
        p <= q <= b@.len(),
{
    let mut q: usize = p;
    while q < b.len() && is_ascii_alphabetic(b[q])
        invariant
            p <= q <= b@.len(),
            alphas_end(b@, p as int) == alphas_end(b@, q as int),
        decreases b@.len() - q,
    {
        q += 1;
    }
    q
}

/// Read the row number whose digits start at `*p`, leaving `*p` past them.
pub fn read_row_number(b: &[u8], p: &mut usize) -> (n: u64)
    requires
        *old(p) <= b@.len(),
    ensures
        *final(p) == digits_end(b@, *old(p) as int),
        *old(p) <= *final(p) <= b@.len(),
        n == row_number(b@, *old(p) as int, *final(p) as int),
{
    let start: usize = *p;
    let mut q: usize = start;
    let mut n: u64 = 0;
    while q < b.len() && is_ascii_digit(b[q])
        invariant
            start <= q <= b@.len(),
            digits_end(b@, start as int) == digits_end(b@, q as int),
            forall|i: int| start <= i < q ==> is_digit(#[trigger] b@[i]),
            n == row_number(b@, start as int, q as int),
            n <= ROW_NUMBER_MAX,
        decreases b@.len() - q,
    {
        proof {
            lemma_digits_value_nonneg(b@, start as int, q as int);
        }
        n = n * 10 + (b[q] - ZERO) as u64;
        if n > ROW_NUMBER_MAX {
            n = ROW_NUMBER_MAX;
        }
        q += 1;
    }
    *p = q;
    n
}

/// The bytes of an ASCII literal.
pub fn str_bytes(s: &str) -> (b: &[u8])
    requires
        s.is_ascii(),
    ensures
        b@ == bytes_of(s),
{
    s.as_bytes()
}

/// `std::str::from_utf8` on bytes that are all ASCII: each byte is one
/// character, and the conversion does not fail.
#[verifier::external_body]
pub(crate) fn ascii_str(b: &[u8]) -> (s: &str)
    requires
        all_ascii(b@),
    ensures
        s@ == chars_of(b@),
{
    std::str::from_utf8(b).unwrap()
}

/// Append a copy of the bytes `b[i..j]`.
pub fn push_range(out: &mut Vec<u8>, b: &[u8], i: usize, j: usize)
    requires
        i <= j <= b@.len(),
    ensures
        final(out)@ == old(out)@ + b@.subrange(i as int, j as int),
{
    let mut k: usize = i;
    while k < j
        invariant
            i <= k <= j <= b@.len(),
            out@ == old(out)@ + b@.subrange(i as int, k as int),
        decreases j - k,
    {
        out.push(b[k]);
        k += 1;
        assert(out@ =~= old(out)@ + b@.subrange(i as int, k as int));
    }
}

/// Append a copy of all the bytes of `b`.
pub fn push_all(out: &mut Vec<u8>, b: &[u8])
    ensures
        final(out)@ == old(out)@ + b@,
{
    push_range(out, b, 0, b.len());
    assert(b@.subrange(0, b@.len() as int) =~= b@);
}

} // verus!
