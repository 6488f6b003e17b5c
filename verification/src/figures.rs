//! Laws of numbers as text: what a digit adds, and how a value is written.

use vstd::arithmetic::power::pow;
use vstd::prelude::*;

use crate::ascii::{
    digits_end, digits_value, is_digit, lemma_digits_end, lemma_digits_end_from,
    lemma_digits_value_nonneg, lemma_digits_value_same, spaces_end, DOT, LOWER_E, MINUS, PLUS, ZERO,
};
use crate::decimal::{dec, lemma_dec_digits, lemma_dec_value, lemma_digits_below};
use crate::fixed::{magnitude, ONE};
use crate::meaning::{factor_of, factor_value};
use crate::number::{
    compact_text, exponent_of, fitted_text, frac_digits, frac_value, int_text, lemma_frac_same,
    lemma_number_at, mantissa_tail, number_at, number_digits, overlaid, sign_text, significant,
    trim_zeros, value_text, whole_number,
};

verus! {

/// Nothing but digits, and at least one.
pub open spec fn all_digits(s: Seq<u8>) -> bool {
    s.len() > 0 && forall|i: int| 0 <= i < s.len() ==> is_digit(#[trigger] s[i])
}

/// What the digit behind `n` digits of a fraction is worth.
pub open spec fn place_value(n: int) -> int {
    if n == 0 {
        1000
    } else if n == 1 {
        100
    } else if n == 2 {
        10
    } else if n == 3 {
        1
    } else {
        0
    }
}

/// A text of digits is worth what they spell.
proof fn lemma_whole(s: Seq<u8>)
    requires
        all_digits(s),
    ensures
        ({
            let v = digits_value(s, 0, s.len() as int) * ONE;
            whole_number(s) == if v <= i64::MAX {
                Some(v as i64)
            } else {
                None
            }
        }),
        digits_value(s, 0, s.len() as int) >= 0,
{
    let n = s.len() as int;
    assert(is_digit(s[0]));
    lemma_digits_end_from(s, 0, n);
    assert(digits_end(s, n) == n);
    lemma_digits_value_nonneg(s, 0, n);
}

/// A digit alone is worth itself.
pub proof fn law_digit_reads(d: u8)
    requires
        is_digit(d),
    ensures
        whole_number(seq![d]) == Some(((d - 48) * 10_000) as i64),
{
    let s = seq![d];
    lemma_whole(s);
    assert(digits_value(s, 0, 0) == 0);
}

/// A digit behind a whole number adds itself to ten times that number, unless
/// the value is too large.
pub proof fn law_digit_appended(s: Seq<u8>, d: u8)
    requires
        all_digits(s),
        is_digit(d),
    ensures
        match whole_number(s) {
            Some(v) => {
                let w = 10 * v + (d - 48) * 10_000;
                whole_number(s.push(d)) == if w <= i64::MAX {
                    Some(w as i64)
                } else {
                    None
                }
            },
            None => whole_number(s.push(d)) is None,
        },
{
    let t = s.push(d);
    let n = s.len() as int;
    assert(all_digits(t)) by {
        assert forall|i: int| 0 <= i < t.len() implies is_digit(#[trigger] t[i]) by {
            if i < n {
                assert(t[i] == s[i]);
            }
        }
    }
    lemma_whole(s);
    lemma_whole(t);
    assert forall|m: int| 0 <= m < n implies #[trigger] s[0 + m] == t[0 + m] by {}
    lemma_digits_value_same(s, 0, n, t, 0);
    assert(digits_value(t, 0, n + 1) == digits_value(t, 0, n) * 10 + (d - ZERO));
}

/// One more digit of a fraction adds what it is worth at its place.
proof fn lemma_frac_more(b: Seq<u8>, i: int, j: int, n: int)
    requires
        0 <= i <= j < b.len(),
        0 <= n,
    ensures
        frac_value(b, i, j + 1, place_value(n)) == frac_value(b, i, j, place_value(n)) + (b[j]
            - ZERO) * place_value(n + j - i),
    decreases j - i,
{
    assert(place_value(n) >= 1 ==> place_value(n) / 10 == place_value(n + 1));
    if i < j {
        if place_value(n) >= 1 {
            lemma_frac_more(b, i + 1, j, n + 1);
        } else {
            assert((b[j] - ZERO) * place_value(n + j - i) == 0) by (nonlinear_arith)
                requires
                    place_value(n + j - i) == 0,
            ;
        }
    } else if place_value(n) >= 1 {
        assert(frac_value(b, j + 1, j + 1, place_value(n) / 10) == 0);
    } else {
        assert((b[j] - ZERO) * place_value(n + j - i) == 0) by (nonlinear_arith)
            requires
                place_value(n + j - i) == 0,
        ;
    }
}

/// A number with a fraction is worth its whole part and its fraction.
proof fn lemma_dotted(s: Seq<u8>, f: Seq<u8>)
    requires
        all_digits(s),
        f.len() == 0 || all_digits(f),
    ensures
        ({
            let t = s + seq![DOT] + f;
            let n = s.len() as int;
            let v = digits_value(s, 0, n) * ONE + frac_value(t, n + 1, t.len() as int, 1000);
            &&& v >= 0
            &&& whole_number(t) == if v <= i64::MAX {
                Some(v as i64)
            } else {
                None
            }
        }),
{
    let t = s + seq![DOT] + f;
    let n = s.len() as int;
    let end = t.len() as int;
    assert forall|i: int| 0 <= i < n implies is_digit(#[trigger] t[i]) by {
        assert(t[i] == s[i]);
    }
    assert(is_digit(t[0]));
    assert(t[n] == DOT);
    lemma_digits_end_from(t, 0, n);
    assert(digits_end(t, n) == n);
    assert forall|i: int| n + 1 <= i < end implies is_digit(#[trigger] t[i]) by {
        assert(t[i] == f[i - n - 1]);
    }
    lemma_digits_end_from(t, n + 1, end);
    assert(digits_end(t, end) == end);
    assert forall|m: int| 0 <= m < n implies #[trigger] s[0 + m] == t[0 + m] by {}
    lemma_digits_value_same(s, 0, n, t, 0);
    lemma_digits_value_nonneg(s, 0, n);
    crate::number::lemma_frac_value_bounds(t, n + 1, end, 1000);
}

/// A point behind a whole number changes nothing, and a digit behind the point
/// adds a tenth of itself, the next a hundredth, down to four places; further
/// digits add nothing.
pub proof fn law_fraction_digit_appended(s: Seq<u8>, f: Seq<u8>, d: u8)
    requires
        all_digits(s),
        f.len() == 0 || all_digits(f),
        is_digit(d),
    ensures
        whole_number(s + seq![DOT]) == whole_number(s),
        match whole_number(s + seq![DOT] + f) {
            Some(v) => {
                let w = v + (d - 48) * place_value(f.len() as int);
                whole_number(s + seq![DOT] + f.push(d)) == if w <= i64::MAX {
                    Some(w as i64)
                } else {
                    None
                }
            },
            None => whole_number(s + seq![DOT] + f.push(d)) is None,
        },
{
    let none = Seq::<u8>::empty();
    let n = s.len() as int;
    lemma_whole(s);
    lemma_dotted(s, none);
    assert(s + seq![DOT] + none =~= s + seq![DOT]);
    assert(frac_value(s + seq![DOT], n + 1, n + 1, 1000) == 0);
    let g = f.push(d);
    assert(all_digits(g)) by {
        assert forall|i: int| 0 <= i < g.len() implies is_digit(#[trigger] g[i]) by {
            if i < f.len() {
                assert(g[i] == f[i]);
            }
        }
    }
    lemma_dotted(s, f);
    lemma_dotted(s, g);
    let t = s + seq![DOT] + f;
    let u = s + seq![DOT] + g;
    let end = t.len() as int;
    assert forall|m: int| 0 <= m < end - (n + 1) implies #[trigger] t[(n + 1) + m] == u[(n + 1)
        + m] by {}
    lemma_frac_same(t, n + 1, end, u, n + 1, 1000);
    lemma_frac_more(u, n + 1, end, 0);
    assert(u[end] == d);
    assert(u.len() == end + 1);
    assert(frac_value(u, n + 1, end + 1, 1000) == frac_value(t, n + 1, end, 1000) + (d - ZERO)
        * place_value(f.len() as int));
    assert((d - 48) * place_value(f.len() as int) >= 0) by (nonlinear_arith)
        requires
            d >= 48,
            place_value(f.len() as int) >= 0,
    ;
}

/// A text that starts with a digit or a point reads the same behind a sign,
/// negated behind a minus.
pub proof fn law_sign_before_number(s: Seq<u8>)
    requires
        s.len() > 0,
        is_digit(s[0]) || s[0] == DOT,
    ensures
        whole_number(seq![PLUS] + s) == whole_number(s),
        match whole_number(s) {
            Some(v) => whole_number(seq![MINUS] + s) == Some((-v) as i64),
            None => whole_number(seq![MINUS] + s) is None,
        },
        whole_number(s) matches Some(v) ==> v >= 0,
{
    lemma_behind_sign(PLUS, s);
    lemma_behind_sign(MINUS, s);
    lemma_digits_end(s, 0);
    let i1 = digits_end(s, 0);
    lemma_digits_value_nonneg(s, 0, i1);
    if i1 < s.len() {
        lemma_digits_end(s, i1 + 1);
        crate::number::lemma_frac_value_bounds(s, i1 + 1, digits_end(s, i1 + 1), 1000);
    }
}

proof fn lemma_digits_end_behind(c: u8, s: Seq<u8>, p: int)
    requires
        0 <= p <= s.len(),
    ensures
        digits_end(seq![c] + s, p + 1) == digits_end(s, p) + 1,
    decreases s.len() - p,
{
    let b = seq![c] + s;
    if p < s.len() {
        assert(b[p + 1] == s[p]);
        if is_digit(s[p]) {
            lemma_digits_end_behind(c, s, p + 1);
        }
    }
}

proof fn lemma_behind_sign(c: u8, s: Seq<u8>)
    requires
        c == PLUS || c == MINUS,
        s.len() > 0,
        is_digit(s[0]) || s[0] == DOT,
    ensures
        match number_at(s, 0) {
            Some((v, end)) => number_at(seq![c] + s, 0) == Some(
                (
                    if c == MINUS {
                        (-v) as i64
                    } else {
                        v
                    },
                    end + 1,
                ),
            ) && v >= 0,
            None => number_at(seq![c] + s, 0) is None,
        },
{
    let b = seq![c] + s;
    assert(b[0] == c);
    lemma_digits_end_behind(c, s, 0);
    lemma_digits_end(s, 0);
    let i1 = digits_end(s, 0);
    assert forall|m: int| 0 <= m < i1 implies #[trigger] s[0 + m] == b[1 + m] by {}
    lemma_digits_value_same(s, 0, i1, b, 1);
    lemma_digits_value_nonneg(s, 0, i1);
    if i1 < s.len() {
        assert(b[i1 + 1] == s[i1]);
        lemma_digits_end_behind(c, s, i1 + 1);
        lemma_digits_end(s, i1 + 1);
        let end = digits_end(s, i1 + 1);
        assert forall|m: int| 0 <= m < end - (i1 + 1) implies #[trigger] s[(i1 + 1) + m] == b[(i1
            + 2) + m] by {}
        lemma_frac_same(s, i1 + 1, end, b, i1 + 2, 1000);
        crate::number::lemma_frac_value_bounds(s, i1 + 1, end, 1000);
    }
}

/// In a formula a number without a sign is worth what it is worth in a cell.
pub proof fn law_number_in_formula(s: Seq<u8>, vals: Seq<i64>, nums: Seq<bool>)
    requires
        s.len() > 0,
        is_digit(s[0]) || s[0] == DOT,
    ensures
        factor_value(s, vals, nums) == whole_number(s),
        factor_of(s) is Some <==> whole_number(s) is Some,
{
    assert(spaces_end(s, 0) == 0);
}

/// The digits of a number read back as the number.
pub proof fn law_whole_number_reads(n: nat)
    requires
        n * 10_000 <= i64::MAX,
    ensures
        whole_number(dec(n)) == Some((n * 10_000) as i64),
{
    lemma_dec_digits(n);
    lemma_dec_value(n);
    lemma_whole(dec(n));
}

// ---------------------------------------------------------------------------
// Writing
// ---------------------------------------------------------------------------

proof fn lemma_trimmed(s: Seq<u8>)
    ensures
        trim_zeros(s).len() <= s.len(),
        trim_zeros(s) == s.take(trim_zeros(s).len() as int),
        trim_zeros(s).len() > 0 ==> trim_zeros(s).last() != ZERO,
        forall|i: int| trim_zeros(s).len() <= i < s.len() ==> #[trigger] s[i] == ZERO,
    decreases s.len(),
{
    if s.len() > 0 && s.last() == ZERO {
        let less = s.drop_last();
        lemma_trimmed(less);
        assert(trim_zeros(s) =~= s.take(trim_zeros(s).len() as int));
        assert forall|i: int| trim_zeros(s).len() <= i < s.len() implies #[trigger] s[i]
            == ZERO by {
            if i < s.len() - 1 {
                assert(less[i] == s[i]);
            }
        }
    } else {
        assert(trim_zeros(s) =~= s.take(s.len() as int));
    }
}

/// A value is written plainly: a minus if it is negative, digits without a
/// needless zero before them, and, unless it is whole, a point and up to four
/// digits, the last of them not zero.
pub proof fn law_value_text_is_plain(v: i64) -> (point: int)
    ensures
        ({
            let t = value_text(v as int);
            let p = if v < 0 {
                1int
            } else {
                0
            };
            &&& v < 0 <==> t[0] == MINUS
            &&& p < point <= t.len()
            &&& forall|i: int| p <= i < t.len() && i != point ==> is_digit(#[trigger] t[i])
            &&& t[p] == ZERO ==> point == p + 1
            &&& point == t.len() || (t[point] == DOT && point + 1 < t.len() <= point + 5
                && t[t.len() - 1] != ZERO)
        }),
{
    let mag = magnitude(v as int);
    let d = dec((mag / ONE as int) as nat);
    let frac = mag % ONE as int;
    let t = value_text(v as int);
    let p = sign_text(v < 0).len() as int;
    let point = p + d.len();
    lemma_dec_digits((mag / ONE as int) as nat);
    let f = trim_zeros(frac_digits(frac));
    lemma_trimmed(frac_digits(frac));
    assert(t[p] == d[0]);
    assert forall|i: int| p <= i < t.len() && i != point implies is_digit(#[trigger] t[i]) by {
        if i < point {
            assert(t[i] == d[i - p]);
        } else {
            assert(t[i] == f[i - point - 1]);
            assert(f[i - point - 1] == frac_digits(frac)[i - point - 1]);
        }
    }
    if t[p] == ZERO {
        assert(mag / ONE as int == 0);
        assert(d.len() == 1);
    }
    if frac != 0 {
        assert(t[point] == DOT);
        if f.len() == 0 {
            let g = frac_digits(frac);
            assert(g[0] == ZERO && g[1] == ZERO && g[2] == ZERO && g[3] == ZERO);
        }
        assert(t[t.len() - 1] == f.last());
    }
    if v >= 0 {
        assert(is_digit(t[0]));
    }
    point
}

/// Where a value's whole text fits the width it is shown, and otherwise the
/// value is in compact notation, which alone has an `e`.
pub proof fn law_fitted_shows_all(v: i64, width: nat)
    ensures
        value_text(v as int).len() <= width ==> fitted_text(v as int, width as int) == value_text(
            v as int,
        ),
        fitted_text(v as int, width as int).contains(LOWER_E) <==> value_text(v as int).len()
            > width,
{
    let t = value_text(v as int);
    let point = law_value_text_is_plain(v);
    if t.len() <= width {
        assert forall|i: int| 0 <= i < t.len() implies t[i] != LOWER_E by {
            if i == point {
                assert(t[i] == DOT);
            } else if !(v < 0 && i == 0) {
                assert(is_digit(t[i]));
            }
        }
    } else {
        let digits = significant(v as int);
        let exponent = int_text(exponent_of(v as int));
        let room = crate::number::mantissa_room(v < 0, exponent, width as int);
        let tail = mantissa_tail(digits, room);
        let c = compact_text(v as int, width as int);
        let k = c.len() - exponent.len() - 1;
        assert(c[k] == LOWER_E);
    }
}

/// Digits read in two parts.
proof fn lemma_digits_split(b: Seq<u8>, i: int, j: int, k: int)
    requires
        0 <= i <= j <= k <= b.len(),
    ensures
        digits_value(b, i, k) == digits_value(b, i, j) * pow(10, (k - j) as nat) + digits_value(
            b,
            j,
            k,
        ),
    decreases k - j,
{
    reveal(pow);
    if j < k {
        lemma_digits_split(b, i, j, k - 1);
        let p = pow(10, (k - 1 - j) as nat);
        let a = digits_value(b, i, j);
        assert(pow(10, (k - j) as nat) == 10 * p);
        assert((a * p) * 10 == a * (10 * p)) by (nonlinear_arith);
    } else {
        assert(pow(10, 0) == 1);
    }
}

proof fn lemma_zeros_spell_nothing(b: Seq<u8>, i: int, j: int)
    requires
        0 <= i <= j <= b.len(),
        forall|k: int| i <= k < j ==> #[trigger] b[k] == ZERO,
    ensures
        digits_value(b, i, j) == 0,
    decreases j - i,
{
    if i < j {
        lemma_zeros_spell_nothing(b, i, j - 1);
        assert(b[j - 1] == ZERO);
    }
}

/// Compact notation cuts off no more than it must. Of a value of at least one
/// it writes the digits of the whole part from the first one on, of another
/// the digits of the fraction from the first that is not zero: with `k` digits
/// behind the first one these are worth the value down to their last place,
/// and what is missing is less than one at the last place that the width has
/// room for.
pub proof fn law_compact_cuts_what_does_not_fit(v: i64, width: nat)
    ensures
        ({
            let mag = magnitude(v as int);
            let whole = if 0 < mag < ONE {
                mag
            } else {
                mag / ONE as int
            };
            let digits = significant(v as int);
            let exponent = int_text(exponent_of(v as int));
            let room = width - exponent.len() - 1 - if v < 0 {
                1int
            } else {
                0
            };
            let tail = mantissa_tail(
                digits,
                crate::number::mantissa_room(v < 0, exponent, width as int),
            );
            let places = digits.len() - 1;
            let shown = if room < 3 {
                0
            } else if room - 2 < places {
                room - 2
            } else {
                places
            };
            let written = seq![digits[0]] + tail;
            let k = tail.len() as int;
            &&& k <= shown
            &&& digits_value(digits, 0, digits.len() as int) == whole
            &&& digits_value(written, 0, k + 1) * pow(10, (places - k) as nat) <= whole
            &&& whole < digits_value(written, 0, k + 1) * pow(10, (places - k) as nat) + pow(
                10,
                (places - shown) as nat,
            )
        }),
{
    let mag = magnitude(v as int);
    let whole = if 0 < mag < ONE {
        mag
    } else {
        mag / ONE as int
    };
    let digits = significant(v as int);
    assert(digits == dec(whole as nat));
    lemma_dec_digits(whole as nat);
    lemma_dec_value(whole as nat);
    let exponent = int_text(exponent_of(v as int));
    let room = crate::number::mantissa_room(v < 0, exponent, width as int);
    let tail = mantissa_tail(digits, room);
    let places = digits.len() - 1;
    let shown = if room < 3 {
        0
    } else if room - 2 < places {
        room - 2
    } else {
        places
    };
    let k = tail.len() as int;
    let written = seq![digits[0]] + tail;
    let all = digits.subrange(1, 1 + shown);
    if room >= 3 {
        lemma_trimmed(all);
    }
    assert(k <= shown);
    assert forall|m: int| 0 <= m < k + 1 implies #[trigger] written[0 + m] == digits[0 + m] by {
        if m > 0 {
            assert(tail[m - 1] == all[m - 1]);
        }
    }
    lemma_digits_value_same(written, 0, k + 1, digits, 0);
    let m = digits_value(digits, 0, k + 1);
    let n = places + 1;
    lemma_digits_split(digits, 0, k + 1, n);
    lemma_digits_split(digits, k + 1, shown + 1, n);
    assert forall|i: int| k + 1 <= i < shown + 1 implies #[trigger] digits[i] == ZERO by {
        assert(all[i - 1] == digits[i]);
    }
    lemma_zeros_spell_nothing(digits, k + 1, shown + 1);
    lemma_digits_below(digits, shown + 1, n);
    assert(0 * pow(10, (n - shown - 1) as nat) == 0);
}

/// Text written to the front of a buffer stands there, and what lies behind it
/// stays; the buffer keeps its length.
pub proof fn law_text_goes_to_front(buf: Seq<u8>, text: Seq<u8>, k: int)
    requires
        text.len() <= buf.len(),
        0 <= k < buf.len(),
    ensures
        overlaid(buf, text).len() == buf.len(),
        overlaid(buf, text)[k] == if k < text.len() {
            text[k]
        } else {
            buf[k]
        },
{
}

// ---------------------------------------------------------------------------
// What is no number
// ---------------------------------------------------------------------------

/// A text is a number only if it is made of digits, with no more than one
/// point among them, at least one digit, and at most a sign before them.
pub proof fn law_number_is_made_of_digits(b: Seq<u8>) -> (point: int)
    requires
        whole_number(b) is Some,
    ensures
        ({
            let start: int = if b[0] == PLUS || b[0] == MINUS {
                1
            } else {
                0
            };
            &&& b.len() > start
            &&& start <= point <= b.len()
            &&& point < b.len() ==> b[point] == DOT
            &&& forall|i: int| start <= i < b.len() && i != point ==> is_digit(#[trigger] b[i])
            &&& exists|i: int| start <= i < b.len() && is_digit(#[trigger] b[i])
        }),
{
    lemma_number_at(b, 0);
    let start = number_digits(b, 0);
    let point = digits_end(b, start);
    lemma_digits_end(b, start);
    if point < b.len() {
        assert(b[point] == DOT);
        lemma_digits_end(b, point + 1);
        if point == start {
            assert(is_digit(b[point + 1]));
        } else {
            assert(is_digit(b[start]));
        }
    } else {
        assert(is_digit(b[start]));
    }
    point
}

/// A fraction may stand without the zero before its point.
pub proof fn law_zero_before_point_is_optional(f: Seq<u8>)
    requires
        all_digits(f),
    ensures
        whole_number(seq![DOT] + f) == whole_number(seq![ZERO, DOT] + f),
{
    let zero = seq![ZERO];
    lemma_dotted(zero, f);
    let t = zero + seq![DOT] + f;
    assert(t =~= seq![ZERO, DOT] + f);
    assert(digits_value(zero, 0, 0) == 0);
    assert(digits_value(zero, 0, 1) == 0);
    let b = seq![DOT] + f;
    let end = b.len() as int;
    assert(b[0] == DOT);
    assert(digits_end(b, 0) == 0);
    assert forall|i: int| 1 <= i < end implies is_digit(#[trigger] b[i]) by {
        assert(b[i] == f[i - 1]);
    }
    lemma_digits_end_from(b, 1, end);
    assert(digits_end(b, end) == end);
    assert(digits_value(b, 0, 0) == 0);
    assert forall|m: int| 0 <= m < end - 1 implies #[trigger] b[1 + m] == t[2 + m] by {}
    lemma_frac_same(b, 1, end, t, 2, 1000);
    crate::number::lemma_frac_value_bounds(b, 1, end, 1000);
}

} // verus!
