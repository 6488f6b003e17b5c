//! Numbers as cell text: reading a typed number, and writing a value, in full
//! or squeezed into a column.

use vstd::arithmetic::power::pow;
use vstd::prelude::*;

use crate::ascii::{
    all_ascii, ascii_str, chars_of, digits_end, digits_value, is_ascii_digit, is_digit,
    lemma_digits_end, lemma_digits_end_from, lemma_digits_value_grows, lemma_digits_value_nonneg,
    lemma_digits_value_same, push_all, push_range, DOT, LOWER_E, MINUS, PLUS, ZERO,
};
use crate::decimal::{
    dec, lemma_dec_digits, lemma_dec_leading, lemma_dec_len, lemma_dec_value, push_dec,
};
use crate::fixed::{magnitude, signed, unsigned_abs, DECIMALS, ONE};

verus! {

/// The scaled value of the fraction digits `b[i..j]`, the first of which is
/// worth `place`; digits worth less than one are ignored.
pub open spec fn frac_value(b: Seq<u8>, i: int, j: int, place: int) -> int
    decreases j - i,
{
    if i >= j || place < 1 {
        0
    } else {
        (b[i] - ZERO) * place + frac_value(b, i + 1, j, place / 10)
    }
}

pub open spec fn is_sign(c: u8) -> bool {
    c == MINUS || c == PLUS
}

/// Where the digits of a number that starts at `p` begin: past its sign.
pub open spec fn number_digits(b: Seq<u8>, p: int) -> int {
    if p < b.len() && is_sign(b[p]) {
        p + 1
    } else {
        p
    }
}

/// The number `[+-]digits[.digits]` that starts at `p`: its scaled value and
/// where it ends. None without any digit, and none if the value does not fit.
pub open spec fn number_at(b: Seq<u8>, p: int) -> Option<(i64, int)> {
    let neg = p < b.len() && b[p] == MINUS;
    let i0 = number_digits(b, p);
    let i1 = digits_end(b, i0);
    let dotted = i1 < b.len() && b[i1] == DOT;
    let end = if dotted {
        digits_end(b, i1 + 1)
    } else {
        i1
    };
    let any = i0 < i1 || (dotted && i1 + 1 < end);
    let frac = if dotted {
        frac_value(b, i1 + 1, end, ONE as int / 10)
    } else {
        0
    };
    let mag = digits_value(b, i0, i1) * ONE + frac;
    if any && mag <= i64::MAX {
        Some((signed(neg, mag) as i64, end))
    } else {
        None
    }
}

/// The value of a text that is one number from end to end.
pub open spec fn whole_number(b: Seq<u8>) -> Option<i64> {
    match number_at(b, 0) {
        Some((v, end)) => if end == b.len() {
            Some(v)
        } else {
            None
        },
        None => None,
    }
}

pub proof fn lemma_frac_value_bounds(b: Seq<u8>, i: int, j: int, place: int)
    requires
        0 <= i <= j <= b.len(),
        forall|k: int| i <= k < j ==> is_digit(#[trigger] b[k]),
        0 <= place,
    ensures
        0 <= frac_value(b, i, j, place) <= 10 * place,
    decreases j - i,
{
    if i < j && place >= 1 {
        lemma_frac_value_bounds(b, i + 1, j, place / 10);
        assert(0 <= (b[i] - ZERO) * place <= 9 * place) by (nonlinear_arith)
            requires
                0 <= b[i] - ZERO <= 9,
                place >= 1,
        ;
    }
}

/// Equal digits have equal values wherever they stand.
pub proof fn lemma_frac_same(a: Seq<u8>, i: int, j: int, b: Seq<u8>, k: int, place: int)
    requires
        0 <= i <= j <= a.len(),
        0 <= k,
        k + j - i <= b.len(),
        forall|m: int| 0 <= m < j - i ==> #[trigger] a[i + m] == b[k + m],
    ensures
        frac_value(a, i, j, place) == frac_value(b, k, k + j - i, place),
    decreases j - i,
{
    if i < j && place >= 1 {
        assert(a[i + 0] == b[k + 0]);
        assert forall|m: int| 0 <= m < j - (i + 1) implies #[trigger] a[(i + 1) + m] == b[(k + 1)
            + m] by {
            assert(a[i + (m + 1)] == b[k + (m + 1)]);
        }
        lemma_frac_same(a, i + 1, j, b, k + 1, place / 10);
    }
}

/// Where a number ends lies within the text.
pub proof fn lemma_number_at(b: Seq<u8>, p: int)
    requires
        0 <= p <= b.len(),
    ensures
        number_at(b, p) matches Some((v, end)) ==> p < end <= b.len(),
{
    let i0 = number_digits(b, p);
    lemma_digits_end(b, i0);
    let i1 = digits_end(b, i0);
    if i1 < b.len() {
        lemma_digits_end(b, i1 + 1);
    }
}

/// Parse a bare decimal number consuming the whole slice, else `None`.
pub fn parse_number_full(b: &[u8]) -> (r: Option<i64>)
    ensures
        r == whole_number(b@),
{
    let mut p: usize = 0;
    let v: i64 = read_number(b, &mut p)?;
    if p == b.len() {
        Some(v)
    } else {
        None
    }
}

/// Whether the digits from `i` on, read one by one, first spell more than an
/// `i64` holds with the one at `q`.
pub open spec fn overflows_at(b: Seq<u8>, i: int, q: int) -> bool {
    &&& i <= q < digits_end(b, i)
    &&& digits_value(b, i, q) <= i64::MAX < digits_value(b, i, q + 1)
}

/// Read the digits at `*p` as an integer, advancing `*p` past them; `None` at
/// the digit with which they spell more than an `i64` holds.
fn read_whole(b: &[u8], p: &mut usize) -> (r: Option<i64>)
    requires
        *old(p) <= b@.len(),
    ensures
        *final(p) <= b@.len(),
        ({
            let end = digits_end(b@, *old(p) as int);
            let n = digits_value(b@, *old(p) as int, end);
            match r {
                Some(v) => v == n && *final(p) == end,
                None => n > i64::MAX && overflows_at(b@, *old(p) as int, *final(p) as int),
            }
        }),
{
    let start: usize = *p;
    let mut n: i64 = 0;
    while *p < b.len() && is_ascii_digit(b[*p])
        invariant
            start == *old(p),
            start <= *p <= b@.len(),
            digits_end(b@, start as int) == digits_end(b@, *p as int),
            forall|i: int| start <= i < *p ==> is_digit(#[trigger] b@[i]),
            n == digits_value(b@, start as int, *p as int),
            n >= 0,
        decreases b@.len() - *p,
    {
        let d: i64 = (b[*p] - ZERO) as i64;
        let ghost more = digits_value(b@, start as int, *p + 1);
        assert(more == n * 10 + d);
        proof {
            lemma_digits_end(b@, start as int);
            let end = digits_end(b@, start as int);
            lemma_digits_end(b@, *p + 1);
            assert(digits_end(b@, *p as int) == digits_end(b@, *p + 1));
            lemma_digits_value_grows(b@, start as int, *p + 1, end);
        }
        n = n.checked_mul(10)?.checked_add(d)?;
        *p += 1;
    }
    Some(n)
}

/// Whether `[+-]digits[.digits]` at `p` has a digit anywhere.
pub open spec fn has_digit(b: Seq<u8>, p: int) -> bool {
    let i0 = number_digits(b, p);
    let i1 = digits_end(b, i0);
    i0 < i1 || (i1 < b.len() && b[i1] == DOT && i1 + 1 < digits_end(b, i1 + 1))
}

/// Where `[+-]digits[.digits]` at `p` ends.
pub open spec fn number_end(b: Seq<u8>, p: int) -> int {
    let i1 = digits_end(b, number_digits(b, p));
    if i1 < b.len() && b[i1] == DOT {
        digits_end(b, i1 + 1)
    } else {
        i1
    }
}

/// Read `[+-]digits[.digits]` starting at `*p`, advancing `*p`. The value is
/// scaled by `ONE`. At least one digit is required somewhere; without one
/// `*p` stays. A value that does not fit is read up to where that shows.
pub fn read_number(b: &[u8], p: &mut usize) -> (r: Option<i64>)
    requires
        *old(p) <= b@.len(),
    ensures
        *final(p) <= b@.len(),
        match r {
            Some(v) => number_at(b@, *old(p) as int) == Some((v, *final(p) as int)),
            None => number_at(b@, *old(p) as int) is None,
        },
        !has_digit(b@, *old(p) as int) ==> *final(p) == *old(p),
        r is None && has_digit(b@, *old(p) as int) ==> {
            let i0 = number_digits(b@, *old(p) as int);
            if digits_value(b@, i0, digits_end(b@, i0)) > i64::MAX {
                overflows_at(b@, i0, *final(p) as int)
            } else {
                *final(p) == number_end(b@, *old(p) as int)
            }
        },
{
    let start: usize = *p;
    let mut neg = false;
    if *p < b.len() && (b[*p] == MINUS || b[*p] == PLUS) {
        neg = b[*p] == MINUS;
        *p += 1;
    }
    let first: usize = *p;
    proof {
        lemma_digits_end(b@, first as int);
        let i1 = digits_end(b@, first as int);
        lemma_digits_value_nonneg(b@, first as int, i1);
        if i1 < b@.len() {
            lemma_digits_end(b@, i1 + 1);
            lemma_frac_value_bounds(b@, i1 + 1, digits_end(b@, i1 + 1), ONE as int / 10);
        }
    }
    let int_part: i64 = read_whole(b, p)?;
    let mut any = *p > first;
    let mut frac: i64 = 0;
    if *p < b.len() && b[*p] == DOT {
        *p += 1;
        let ghost i2 = *p as int;
        let ghost end = digits_end(b@, i2);
        let ghost total = frac_value(b@, i2, end, ONE as int / 10);
        // The weight of the next fraction digit; digits past the last place
        // have weight zero and are ignored.
        let mut place: i64 = ONE / 10;
        while *p < b.len() && is_ascii_digit(b[*p])
            invariant
                i2 <= *p <= end <= b@.len(),
                end == digits_end(b@, i2),
                end == digits_end(b@, *p as int),
                forall|i: int| i2 <= i < end ==> is_digit(#[trigger] b@[i]),
                0 <= place <= ONE / 10,
                0 <= frac <= ONE,
                frac + frac_value(b@, *p as int, end, place as int) == total,
                total <= ONE,
                any == (first < i2 - 1 || i2 < *p),
            decreases b@.len() - *p,
        {
            assert(*p < end) by {
                lemma_digits_end(b@, *p + 1);
            }
            if place >= 1 {
                proof {
                    lemma_frac_value_bounds(b@, *p + 1, end, place as int / 10);
                }
                let d: i64 = (b[*p] - ZERO) as i64;
                assert(0 <= d * place <= 9 * place) by (nonlinear_arith)
                    requires
                        0 <= d <= 9,
                        0 <= place,
                ;
                frac += d * place;
                place = place / 10;
            }
            *p += 1;
            any = true;
        }
        proof {
            lemma_digits_end(b@, *p as int);
            if *p < end {
                assert(is_digit(b@[*p as int]));
            }
        }
    }
    if !any {
        *p = start;
        return None;
    }
    let mag: i64 = int_part.checked_mul(ONE)?.checked_add(frac)?;
    Some(if neg { -mag } else { mag })
}

/// The text without its trailing zeros.
pub open spec fn trim_zeros(s: Seq<u8>) -> Seq<u8>
    decreases s.len(),
{
    if s.len() > 0 && s.last() == ZERO {
        trim_zeros(s.drop_last())
    } else {
        s
    }
}

/// A fraction of `ONE` as four digits.
pub open spec fn frac_digits(frac: int) -> Seq<u8> {
    seq![
        (ZERO + frac / 1000) as u8,
        (ZERO + frac / 100 % 10) as u8,
        (ZERO + frac / 10 % 10) as u8,
        (ZERO + frac % 10) as u8,
    ]
}

pub open spec fn sign_text(neg: bool) -> Seq<u8> {
    if neg {
        seq![MINUS]
    } else {
        seq![]
    }
}

/// A value in full: whole numbers without a point, fractions without trailing
/// zeros.
pub open spec fn value_text(v: int) -> Seq<u8> {
    let mag = magnitude(v);
    let frac = mag % ONE as int;
    sign_text(v < 0) + dec((mag / ONE as int) as nat) + if frac == 0 {
        seq![]
    } else {
        seq![DOT] + trim_zeros(frac_digits(frac))
    }
}

/// The digits that compact notation shows after the leading one, when the
/// leading digit, point and digits may take `room` characters.
pub open spec fn mantissa_tail(digits: Seq<u8>, room: int) -> Seq<u8> {
    if room < 3 {
        seq![]
    } else {
        let shown = if room - 2 < digits.len() - 1 {
            room - 2
        } else {
            digits.len() - 1
        };
        trim_zeros(digits.subrange(1, 1 + shown))
    }
}

/// The characters that compact notation leaves for the digits.
pub open spec fn mantissa_room(neg: bool, exponent: Seq<u8>, width: int) -> int {
    let used = 1 + exponent.len() + if neg {
        1int
    } else {
        0
    };
    if width - used >= 1 {
        width - used
    } else {
        1
    }
}

/// The digits that compact notation takes from: those of the whole part or,
/// of a value below one, those of the fraction from its first other than zero.
pub open spec fn significant(v: int) -> Seq<u8> {
    let mag = magnitude(v);
    if 0 < mag < ONE {
        dec(mag as nat)
    } else {
        dec((mag / ONE as int) as nat)
    }
}

/// The power of ten that the first of the significant digits stands for.
pub open spec fn exponent_of(v: int) -> int {
    let n = significant(v).len();
    if 0 < magnitude(v) < ONE {
        n - 1 - DECIMALS
    } else {
        n - 1
    }
}

/// An integer's text.
pub open spec fn int_text(n: int) -> Seq<u8> {
    sign_text(n < 0) + dec(magnitude(n) as nat)
}

/// Compact scientific notation, sized to `width`: `1.23e8`, `5e-2`. Digits
/// that do not fit are cut off.
pub open spec fn compact_text(v: int, width: int) -> Seq<u8> {
    let digits = significant(v);
    let exponent = int_text(exponent_of(v));
    let tail = mantissa_tail(digits, mantissa_room(v < 0, exponent, width));
    sign_text(v < 0) + seq![digits[0]] + (if tail.len() == 0 {
        seq![]
    } else {
        seq![DOT] + tail
    }) + seq![LOWER_E] + exponent
}

/// A value within `width` characters: in full if that fits, else compact. A
/// width below five may be exceeded: compact notation takes three to five
/// characters at the least, five for a negative value below one or of ten
/// billion and more.
pub open spec fn fitted_text(v: int, width: int) -> Seq<u8> {
    if value_text(v).len() <= width {
        value_text(v)
    } else {
        compact_text(v, width)
    }
}

proof fn lemma_trim_zeros(s: Seq<u8>)
    ensures
        trim_zeros(s).len() <= s.len(),
        trim_zeros(s) == s.take(trim_zeros(s).len() as int),
    decreases s.len(),
{
    if s.len() > 0 && s.last() == ZERO {
        lemma_trim_zeros(s.drop_last());
        assert(s.take(trim_zeros(s).len() as int) =~= s.drop_last().take(
            trim_zeros(s).len() as int,
        ));
    } else {
        assert(s.take(s.len() as int) =~= s);
    }
}

/// Four digits, trimmed, lose their trailing zeros and nothing else.
proof fn lemma_trim_four(d: Seq<u8>)
    requires
        d.len() == 4,
        d[0] != ZERO || d[1] != ZERO || d[2] != ZERO || d[3] != ZERO,
    ensures
        1 <= trim_zeros(d).len() <= 4,
        trim_zeros(d).len() < 4 ==> d[3] == ZERO,
        trim_zeros(d).len() < 3 ==> d[2] == ZERO,
        trim_zeros(d).len() < 2 ==> d[1] == ZERO,
{
    let d3 = d.drop_last();
    let d2 = d3.drop_last();
    let d1 = d2.drop_last();
    if d[3] == ZERO {
        assert(trim_zeros(d) == trim_zeros(d3));
        if d[2] == ZERO {
            assert(trim_zeros(d3) == trim_zeros(d2));
            if d[1] == ZERO {
                assert(trim_zeros(d2) == trim_zeros(d1));
                assert(trim_zeros(d1) == d1);
            } else {
                assert(trim_zeros(d2) == d2);
            }
        } else {
            assert(trim_zeros(d3) == d3);
        }
    }
}

/// The four digits of a fraction are digits, and spell it.
#[verifier::rlimit(40)]
proof fn lemma_frac_digits(frac: int)
    requires
        0 <= frac < ONE,
    ensures
        is_digit(frac_digits(frac)[0]),
        is_digit(frac_digits(frac)[1]),
        is_digit(frac_digits(frac)[2]),
        is_digit(frac_digits(frac)[3]),
        frac == (frac_digits(frac)[0] - ZERO) * 1000 + (frac_digits(frac)[1] - ZERO) * 100 + (
        frac_digits(frac)[2] - ZERO) * 10 + (frac_digits(frac)[3] - ZERO),
{
    let tens = frac / 10;
    let hundreds = tens / 10;
    let thousands = hundreds / 10;
    assert(frac / 100 == hundreds);
    assert(frac / 1000 == thousands);
    assert(0 <= thousands < 10);
    assert(hundreds == thousands * 10 + hundreds % 10);
    assert(tens == hundreds * 10 + tens % 10);
    assert(frac == tens * 10 + frac % 10);
}

/// Reading back the trimmed digits of a fraction gives the fraction.
proof fn lemma_frac_digits_value(b: Seq<u8>, i: int, frac: int)
    requires
        0 < frac < ONE,
        0 <= i,
        i + trim_zeros(frac_digits(frac)).len() == b.len(),
        b.skip(i) == trim_zeros(frac_digits(frac)),
    ensures
        b.len() > i,
        forall|k: int| i <= k < b.len() ==> is_digit(#[trigger] b[k]),
        frac_value(b, i, b.len() as int, 1000) == frac,
{
    let d = frac_digits(frac);
    let t = trim_zeros(d);
    let j = b.len() as int;
    lemma_frac_digits(frac);
    lemma_trim_four(d);
    lemma_trim_zeros(d);
    assert forall|k: int| i <= k < j implies is_digit(#[trigger] b[k]) && b[k] == d[k - i] by {
        assert(b[k] == b.skip(i)[k - i]);
        assert(t[k - i] == d.take(t.len() as int)[k - i]);
    }
    assert(frac_value(b, i + 4, j, 0) == 0);
    assert(frac_value(b, i + 3, j, 1) == d[3] - ZERO);
    assert(frac_value(b, i + 2, j, 10) == (d[2] - ZERO) * 10 + (d[3] - ZERO));
    assert(frac_value(b, i + 1, j, 100) == (d[1] - ZERO) * 100 + (d[2] - ZERO) * 10 + (d[3] - ZERO));
}

/// A written value reads back as itself. The one value whose magnitude no
/// typed number can have is left out.
pub proof fn law_value_round_trip(v: i64)
    requires
        v != i64::MIN,
    ensures
        whole_number(value_text(v as int)) == Some(v),
{
    let mag = magnitude(v as int);
    let d = dec((mag / ONE as int) as nat);
    let frac = mag % ONE as int;
    let s = sign_text(v < 0);
    let b = value_text(v as int);
    let i0 = s.len() as int;
    let i1 = i0 + d.len();
    lemma_dec_digits((mag / ONE as int) as nat);
    lemma_dec_value((mag / ONE as int) as nat);
    assert forall|k: int| i0 <= k < i1 implies is_digit(#[trigger] b[k]) && b[k] == d[k - i0] by {
        assert(b[k] == d[k - i0]);
    }
    assert(number_digits(b, 0) == i0) by {
        if v >= 0 {
            assert(is_digit(b[0]));
        } else {
            assert(b[0] == MINUS);
        }
    }
    lemma_digits_value_same(b, i0, i1, d, 0);
    lemma_digits_end_from(b, i0, i1);
    if frac == 0 {
        assert(b.len() == i1);
        assert(digits_end(b, i1) == i1);
    } else {
        let t = trim_zeros(frac_digits(frac));
        assert(b[i1] == DOT);
        assert(digits_end(b, i1) == i1);
        assert(b.skip(i1 + 1) =~= t);
        lemma_frac_digits_value(b, i1 + 1, frac);
        lemma_digits_end_from(b, i1 + 1, b.len() as int);
        assert(digits_end(b, b.len() as int) == b.len());
    }
    assert(mag == (mag / ONE as int) * ONE + frac);
}

proof fn lemma_dec_of_value(m: int)
    requires
        0 <= m <= 0x8000_0000_0000_0000,
    ensures
        dec((m / ONE as int) as nat).len() <= 15,
{
    vstd::arithmetic::power::lemma_pow_adds(10, 5, 5);
    vstd::arithmetic::power::lemma_pow_adds(10, 10, 5);
    assert(vstd::arithmetic::power::pow(10, 5) == 100_000) by {
        reveal_with_fuel(vstd::arithmetic::power::pow, 6);
    }
    lemma_dec_len((m / ONE as int) as nat, 1_000_000_000_000_000, 15);
}

/// No written value takes more than twenty-one characters, all of them ASCII.
pub proof fn lemma_value_text_len(v: i64)
    ensures
        1 <= value_text(v as int).len() <= 21,
        all_ascii(value_text(v as int)),
{
    let mag = magnitude(v as int);
    lemma_dec_of_value(mag);
    lemma_dec_digits((mag / ONE as int) as nat);
    let frac = mag % ONE as int;
    lemma_trim_zeros(frac_digits(frac));
    assert forall|i: int| 0 <= i < value_text(v as int).len() implies #[trigger] value_text(
        v as int,
    )[i] < 128 by {
        let s = sign_text(v < 0);
        let d = dec((mag / ONE as int) as nat);
        if s.len() <= i < s.len() + d.len() {
            assert(value_text(v as int)[i] == d[i - s.len()]);
        } else if i > s.len() + d.len() {
            let j = i - s.len() - d.len() - 1;
            assert(value_text(v as int)[i] == trim_zeros(frac_digits(frac))[j]);
            assert(frac_digits(frac)[j] < 128);
        }
    }
}

/// Whether compact notation of a value needs no more than four characters:
/// not so for a negative value with a two-digit exponent, or below one.
pub open spec fn fits_four(v: int) -> bool {
    v >= 0 || 1 <= magnitude(v) / ONE as int && magnitude(v) / (ONE as int) < 10_000_000_000
}

/// A fitted value takes no more than the width asked for. A width of four is
/// too narrow for a sign, a digit and an exponent of two characters; every
/// other width from four up is met.
pub proof fn law_fitted_text_fits(v: i64, width: nat)
    requires
        width >= 4,
        width == 4 ==> fits_four(v as int),
    ensures
        1 <= fitted_text(v as int, width as int).len() <= width,
        all_ascii(fitted_text(v as int, width as int)),
{
    lemma_value_text_len(v);
    lemma_compact_text_len(v, width);
}

/// Whatever the width, a fitted value is short.
pub proof fn lemma_fitted_text_short(v: i64, width: nat)
    ensures
        1 <= fitted_text(v as int, width as int).len() <= 21,
{
    lemma_value_text_len(v);
    lemma_compact_text_len(v, width);
}

/// A value has at most fifteen significant digits, and an exponent of at most
/// two characters.
proof fn lemma_significant(v: i64)
    ensures
        1 <= significant(v as int).len() <= 15,
        forall|i: int|
            0 <= i < significant(v as int).len() ==> is_digit(#[trigger] significant(v as int)[i]),
        v != 0 ==> significant(v as int)[0] != ZERO,
        0 < magnitude(v as int) < ONE ==> -4 <= exponent_of(v as int) <= -1,
        !(0 < magnitude(v as int) < ONE) ==> 0 <= exponent_of(v as int) <= 14,
        1 <= int_text(exponent_of(v as int)).len() <= 2,
        all_ascii(int_text(exponent_of(v as int))),
        fits_four(v as int) && v < 0 ==> int_text(exponent_of(v as int)).len() == 1,
{
    let mag = magnitude(v as int);
    let n = (if 0 < mag < ONE {
        mag
    } else {
        mag / ONE as int
    }) as nat;
    lemma_dec_of_value(mag);
    lemma_dec_digits(n);
    if 0 < mag < ONE {
        assert(vstd::arithmetic::power::pow(10, 4) == 10_000) by {
            reveal_with_fuel(vstd::arithmetic::power::pow, 5);
        }
        lemma_dec_len(n, 10_000, 4);
    }
    let e = exponent_of(v as int);
    let m = magnitude(e) as nat;
    lemma_dec_digits(m);
    assert(dec(m).len() <= 2 && (m < 10 ==> dec(m).len() == 1)) by {
        reveal_with_fuel(dec, 3);
    }
    if 1 <= n < 10_000_000_000 && mag >= ONE {
        vstd::arithmetic::power::lemma_pow_adds(10, 5, 5);
        assert(vstd::arithmetic::power::pow(10, 5) == 100_000) by {
            reveal_with_fuel(vstd::arithmetic::power::pow, 6);
        }
        lemma_dec_len(n, 10_000_000_000, 10);
    }
}

proof fn lemma_compact_text_len(v: i64, width: nat)
    ensures
        1 <= compact_text(v as int, width as int).len() <= 20,
        width >= 4 && (width == 4 ==> fits_four(v as int)) ==> compact_text(
            v as int,
            width as int,
        ).len() <= width,
        all_ascii(compact_text(v as int, width as int)),
{
    let digits = significant(v as int);
    let exponent = int_text(exponent_of(v as int));
    let room = mantissa_room(v < 0, exponent, width as int);
    let tail = mantissa_tail(digits, room);
    lemma_significant(v);
    if room >= 3 {
        let shown = if room - 2 < digits.len() - 1 {
            room - 2
        } else {
            digits.len() - 1
        };
        lemma_trim_zeros(digits.subrange(1, 1 + shown));
        assert(tail.len() <= room - 2 && tail.len() <= digits.len() - 1);
    }
    let t = compact_text(v as int, width as int);
    let s = sign_text(v < 0);
    let mid = if tail.len() == 0 {
        Seq::<u8>::empty()
    } else {
        seq![DOT] + tail
    };
    assert(t =~= s + seq![digits[0]] + mid + seq![LOWER_E] + exponent);
    assert forall|i: int| 0 <= i < t.len() implies #[trigger] t[i] < 128 by {
        let k = i - s.len() - 1;
        if 1 <= k < mid.len() {
            assert(t[i] == tail[k - 1]);
            assert(tail[k - 1] == digits[k]) by {
                let shown = if room - 2 < digits.len() - 1 {
                    room - 2
                } else {
                    digits.len() - 1
                };
                let all = digits.subrange(1, 1 + shown);
                lemma_trim_zeros(all);
                assert(tail[k - 1] == all[k - 1]);
            }
            assert(is_digit(digits[k]));
        } else if k > mid.len() {
            assert(t[i] == exponent[k - mid.len() - 1]);
        } else if k == -1 {
            assert(t[i] == digits[0]);
        }
    }
}

/// A digit sequence without trailing zeros ends in another digit.
proof fn lemma_trimmed_end(s: Seq<u8>)
    ensures
        trim_zeros(s).len() > 0 ==> trim_zeros(s).last() != ZERO,
    decreases s.len(),
{
    if s.len() > 0 && s.last() == ZERO {
        lemma_trimmed_end(s.drop_last());
    }
}

/// Compact notation shows a value's magnitude: its first digit, which is not
/// zero, is that of the value at the power of ten that the exponent names, so
/// that the value lies from that digit up to the next one; further digits do
/// not end in a zero.
pub proof fn law_compact_shows_magnitude(v: i64, width: nat)
    requires
        v != 0,
    ensures
        ({
            let d = significant(v as int)[0] - ZERO;
            let n = exponent_of(v as int);
            let mag = magnitude(v as int);
            let exponent = int_text(n);
            let tail = mantissa_tail(
                significant(v as int),
                mantissa_room(v < 0, exponent, width as int),
            );
            &&& compact_text(v as int, width as int) == sign_text(v < 0) + seq![(ZERO + d) as u8]
                + (if tail.len() == 0 {
                seq![]
            } else {
                seq![DOT] + tail
            }) + seq![LOWER_E] + exponent
            &&& 1 <= d <= 9
            &&& n >= 0 ==> d * pow(10, n as nat) * ONE <= mag < (d + 1) * pow(10, n as nat) * ONE
            &&& n < 0 ==> d * ONE <= mag * pow(10, (-n) as nat) < (d + 1) * ONE
            &&& tail.len() > 0 ==> tail.last() != ZERO
        }),
{
    lemma_significant(v);
    let digits = significant(v as int);
    let d = digits[0] - ZERO;
    let n = exponent_of(v as int);
    let mag = magnitude(v as int);
    assert(is_digit(digits[0]));
    let room = mantissa_room(v < 0, int_text(n), width as int);
    if room >= 3 {
        let shown = if room - 2 < digits.len() - 1 {
            room - 2
        } else {
            digits.len() - 1
        };
        lemma_trimmed_end(digits.subrange(1, 1 + shown));
    }
    if n >= 0 {
        let whole = mag / ONE as int;
        lemma_dec_leading(whole as nat);
        let p = pow(10, n as nat);
        assert(d * p <= whole < (d + 1) * p);
        assert(d * p * ONE <= whole * ONE <= mag < (whole + 1) * ONE <= (d + 1) * p * ONE)
            by (nonlinear_arith)
            requires
                d * p <= whole < (d + 1) * p,
                whole == mag / ONE as int,
                ONE == 10_000,
        ;
    } else {
        lemma_dec_leading(mag as nat);
        let k = (digits.len() - 1) as nat;
        let p = pow(10, k);
        let q = pow(10, (-n) as nat);
        vstd::arithmetic::power::lemma_pow_adds(10, k, (-n) as nat);
        assert(p * q == 10_000) by {
            reveal_with_fuel(pow, 5);
        }
        assert(q > 0) by {
            vstd::arithmetic::power::lemma_pow_positive(10, (-n) as nat);
        }
        assert(d * ONE <= mag * q < (d + 1) * ONE) by (nonlinear_arith)
            requires
                d * p <= mag < (d + 1) * p,
                p * q == 10_000,
                q > 0,
                ONE == 10_000,
        ;
    }
}

/// Drop the trailing zeros.
fn trim(v: &mut Vec<u8>)
    ensures
        final(v)@ == trim_zeros(old(v)@),
{
    while v.len() > 0 && v[v.len() - 1] == ZERO
        invariant
            trim_zeros(v@) == trim_zeros(old(v)@),
        decreases v@.len(),
    {
        v.pop();
    }
}

/// The text of a value in full.
pub fn write_value(v: i64) -> (t: Vec<u8>)
    ensures
        t@ == value_text(v as int),
{
    let mut t: Vec<u8> = Vec::new();
    let mag: u64 = unsigned_abs(v);
    let one: u64 = ONE as u64;
    let frac: u64 = mag % one;
    if v < 0 {
        t.push(MINUS);
    }
    assert(t@ =~= sign_text(v < 0));
    push_dec(&mut t, mag / one);
    if frac != 0 {
        let mut digits: Vec<u8> = Vec::new();
        digits.push(ZERO + (frac / 1000) as u8);
        digits.push(ZERO + (frac / 100 % 10) as u8);
        digits.push(ZERO + (frac / 10 % 10) as u8);
        digits.push(ZERO + (frac % 10) as u8);
        assert(digits@ =~= frac_digits(frac as int));
        trim(&mut digits);
        t.push(DOT);
        push_all(&mut t, digits.as_slice());
    }
    assert(t@ =~= value_text(v as int));
    t
}

/// The text of a value within `width` characters.
pub fn write_value_fit(v: i64, width: usize) -> (t: Vec<u8>)
    ensures
        t@ == fitted_text(v as int, width as int),
{
    let full: Vec<u8> = write_value(v);
    if full.len() <= width {
        return full;
    }
    let neg = v < 0;
    let mag: u64 = unsigned_abs(v);
    let below_one = 0 < mag && mag < ONE as u64;
    proof {
        lemma_significant(v);
    }
    let mut digits: Vec<u8> = Vec::new();
    push_dec(&mut digits, if below_one { mag } else { mag / ONE as u64 });
    assert(digits@ =~= significant(v as int));
    let mut exponent: Vec<u8> = Vec::new();
    if below_one {
        exponent.push(MINUS);
        push_dec(&mut exponent, (DECIMALS + 1 - digits.len()) as u64);
    } else {
        push_dec(&mut exponent, (digits.len() - 1) as u64);
    }
    assert(exponent@ =~= int_text(exponent_of(v as int)));
    let used: usize = 1 + exponent.len() + if neg { 1 } else { 0 };
    let room: usize = if width > used { width - used } else { 1 };
    let mut t: Vec<u8> = Vec::new();
    if neg {
        t.push(MINUS);
    }
    assert(t@ =~= sign_text(neg));
    t.push(digits[0]);
    let mut tail: Vec<u8> = Vec::new();
    if room >= 3 {
        let shown: usize = if room - 2 < digits.len() - 1 { room - 2 } else { digits.len() - 1 };
        push_range(&mut tail, digits.as_slice(), 1, 1 + shown);
        assert(tail@ =~= digits@.subrange(1, 1 + shown));
        trim(&mut tail);
    }
    assert(tail@ =~= mantissa_tail(digits@, room as int));
    if tail.len() > 0 {
        t.push(DOT);
        push_all(&mut t, tail.as_slice());
    }
    t.push(LOWER_E);
    push_all(&mut t, exponent.as_slice());
    assert(t@ =~= compact_text(v as int, width as int));
    t
}

/// The buffer with `text` at its front.
pub open spec fn overlaid(buf: Seq<u8>, text: Seq<u8>) -> Seq<u8> {
    text + buf.skip(text.len() as int)
}

/// Copy `text` to the front of `out`.
pub fn copy_to_front(out: &mut [u8], text: &[u8])
    requires
        text@.len() <= old(out)@.len(),
    ensures
        final(out)@ == overlaid(old(out)@, text@),
{
    let mut i: usize = 0;
    while i < text.len()
        invariant
            i <= text@.len() <= out@.len(),
            out@ == overlaid(old(out)@, text@.take(i as int)),
            out@.len() == old(out)@.len(),
        decreases text@.len() - i,
    {
        out[i] = text[i];
        i += 1;
        assert(out@ =~= overlaid(old(out)@, text@.take(i as int)));
    }
    assert(text@.take(text@.len() as int) =~= text@);
    assert(out@ =~= overlaid(old(out)@, text@));
}

/// Format a value into `out`, returning the written text. Whole numbers print
/// without a decimal point; fractions print up to `DECIMALS` places with
/// trailing zeros trimmed.
pub fn fmt_value<'a>(v: i64, out: &'a mut [u8]) -> (s: &'a str)
    requires
        value_text(v as int).len() <= old(out)@.len(),
    ensures
        s@ == chars_of(value_text(v as int)),
        final(out)@ == overlaid(old(out)@, value_text(v as int)),
{
    let text: Vec<u8> = write_value(v);
    proof {
        lemma_value_text_len(v);
    }
    copy_to_front(out, text.as_slice());
    let shown: &[u8] = vstd::slice::slice_subrange(out, 0, text.len());
    assert(shown@ =~= text@);
    ascii_str(shown)
}

/// Format a value to fit within `width` characters: the full number if it
/// fits, otherwise compact scientific notation (`1.23e8`, `5e-2`), so that a
/// wide value shows its magnitude instead of a wrong number.
///
/// A width below five may be exceeded: compact notation takes three to five
/// characters at the least, five for a negative value below one (`-1e-1`) or of
/// ten billion and more.
pub fn fmt_value_fit<'a>(v: i64, width: usize, out: &'a mut [u8]) -> (s: &'a str)
    requires
        fitted_text(v as int, width as int).len() <= old(out)@.len(),
    ensures
        s@ == chars_of(fitted_text(v as int, width as int)),
        final(out)@ == overlaid(old(out)@, fitted_text(v as int, width as int)),
{
    let text: Vec<u8> = write_value_fit(v, width);
    proof {
        lemma_value_text_len(v);
        lemma_compact_text_len(v, width as nat);
    }
    copy_to_front(out, text.as_slice());
    let shown: &[u8] = vstd::slice::slice_subrange(out, 0, text.len());
    assert(shown@ =~= text@);
    ascii_str(shown)
}

} // verus!
