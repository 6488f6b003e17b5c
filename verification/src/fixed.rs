//! Fixed-point arithmetic. A value `x` is stored as `x * ONE` in an `i64`;
//! every operation whose result leaves the range says so with `None`.

use vstd::prelude::*;

verus! {

/// Decimal places of fixed-point precision.
pub const DECIMALS: usize = 4;

/// The fixed-point scale, ten to the power `DECIMALS`.
pub const ONE: i64 = 10_000;

/// Boolean truth as a fixed-point value: one.
pub const TRUE_V: i64 = 10_000;

pub open spec fn magnitude(x: int) -> int {
    if x < 0 {
        -x
    } else {
        x
    }
}

/// `mag` with the sign that `neg` says.
pub open spec fn signed(neg: bool, mag: int) -> int {
    if neg {
        -mag
    } else {
        mag
    }
}

/// The integer as an `i64`, if it fits.
pub open spec fn fit(x: int) -> Option<i64> {
    if i64::MIN <= x <= i64::MAX {
        Some(x as i64)
    } else {
        None
    }
}

/// A result given by sign and magnitude: the magnitude must fit an `i64`.
pub open spec fn fit_signed(neg: bool, mag: int) -> Option<i64> {
    if mag <= i64::MAX {
        Some(signed(neg, mag) as i64)
    } else {
        None
    }
}

/// The fixed-point product: the scaled product must fit 64 bits, and the
/// excess digits are cut off toward zero.
pub open spec fn product(a: int, b: int) -> Option<i64> {
    let scaled = magnitude(a) * magnitude(b);
    if scaled <= u64::MAX {
        fit_signed((a < 0) != (b < 0), scaled / ONE as int)
    } else {
        None
    }
}

/// The fixed-point quotient: none for a zero divisor, the scaled numerator
/// must fit 64 bits, and the excess digits are cut off toward zero.
pub open spec fn quotient(a: int, b: int) -> Option<i64> {
    let scaled = magnitude(a) * ONE;
    if b != 0 && scaled <= u64::MAX {
        fit_signed((a < 0) != (b < 0), scaled / magnitude(b))
    } else {
        None
    }
}

/// The greatest whole number not above the value.
pub open spec fn floor_whole(v: int) -> Option<i64> {
    fit((v / ONE as int) * ONE)
}

/// The nearest whole number, a half rounding away from zero. The value moved
/// half a unit away from zero must still fit.
pub open spec fn nearest_whole(v: int) -> Option<i64> {
    let moved = magnitude(v) + ONE / 2;
    if fit(signed(v < 0, moved)) is Some {
        Some(signed(v < 0, (moved / ONE as int) * ONE) as i64)
    } else {
        None
    }
}

/// The remainder with the sign of the divisor.
pub open spec fn remainder(a: int, b: int) -> Option<i64> {
    if b == 0 {
        None
    } else if b > 0 {
        Some((a % b) as i64)
    } else {
        Some((-((-a) % (-b))) as i64)
    }
}

/// `INT` gives a whole number, not above the value and less than one below it.
pub proof fn law_floor_is_next_below(v: i64)
    requires
        floor_whole(v as int) is Some,
    ensures
        ({
            let w = floor_whole(v as int)->Some_0;
            &&& w % ONE == 0
            &&& w <= v < w + ONE
        }),
{
}

/// `ROUND` gives a whole number at most half a unit away; at half a unit it
/// gives the one farther from zero. Values of opposite sign round alike.
pub proof fn law_round_is_nearest(v: i64)
    requires
        nearest_whole(v as int) is Some,
    ensures
        ({
            let w = nearest_whole(v as int)->Some_0;
            &&& w % ONE == 0
            &&& -ONE <= 2 * (w - v) <= ONE
            &&& 2 * (w - v) == ONE ==> v > 0
            &&& 2 * (w - v) == -ONE ==> v < 0
            &&& nearest_whole(-v) is Some ==> nearest_whole(-v)->Some_0 == -w
        }),
{
}

/// `MOD` gives what is left of `a` after whole multiples of `b`: less than `b`
/// in magnitude, and of its sign.
pub proof fn law_mod_takes_sign_of_divisor(a: i64, b: i64)
    requires
        b != 0,
    ensures
        ({
            let r = remainder(a as int, b as int)->Some_0;
            &&& remainder(a as int, b as int) is Some
            &&& magnitude(r as int) < magnitude(b as int)
            &&& r != 0 ==> (r < 0 <==> b < 0)
            &&& (a - r) % b as int == 0
        }),
{
    let x = a as int;
    let y = b as int;
    let r = remainder(x, y)->Some_0;
    if y > 0 {
        assert(0 <= x % y < y) by (nonlinear_arith)
            requires
                y > 0,
        ;
        let k = x / y;
        assert(x == k * y + x % y) by (nonlinear_arith)
            requires
                y > 0,
                k == x / y,
        ;
        assert(x - r == k * y);
        assert((k * y) % y == 0) by (nonlinear_arith)
            requires
                y > 0,
        ;
    } else {
        let m = -y;
        let n = -x;
        assert(0 <= n % m < m) by (nonlinear_arith)
            requires
                m > 0,
        ;
        let k = n / m;
        assert(n == k * m + n % m) by (nonlinear_arith)
            requires
                m > 0,
                k == n / m,
        ;
        assert(x - r == k * y) by (nonlinear_arith)
            requires
                m == -y,
                -x == k * m - r,
        ;
        assert((k * y) % y == 0) by (nonlinear_arith)
            requires
                y < 0,
        ;
    }
}

/// A product is less than one last place away from the exact one, not farther
/// from zero, and has its sign.
pub proof fn law_product_cuts_toward_zero(a: i64, b: i64)
    requires
        product(a as int, b as int) is Some,
    ensures
        ({
            let p = product(a as int, b as int)->Some_0;
            &&& magnitude(p as int) * ONE <= magnitude(a as int) * magnitude(b as int) < (magnitude(
                p as int,
            ) + 1) * ONE
            &&& p != 0 ==> (p < 0 <==> (a < 0) != (b < 0))
        }),
{
    assert(magnitude(a as int) * magnitude(b as int) >= 0) by (nonlinear_arith);
}

/// The absolute value as an unsigned number.
pub fn unsigned_abs(v: i64) -> (m: u64)
    ensures
        m == magnitude(v as int),
{
    if v >= 0 {
        v as u64
    } else {
        (-(v + 1)) as u64 + 1
    }
}

/// Fixed-point multiply, `a * b / ONE`. Overflow gives `None`.
pub fn fmul(a: i64, b: i64) -> (r: Option<i64>)
    ensures
        r == product(a as int, b as int),
{
    let neg = (a < 0) != (b < 0);
    let mag: u64 = unsigned_abs(a).checked_mul(unsigned_abs(b))? / ONE as u64;
    if mag > i64::MAX as u64 {
        return None;
    }
    let mag: i64 = mag as i64;
    Some(if neg { -mag } else { mag })
}

/// Fixed-point divide, `a * ONE / b`. Overflow and a zero divisor give `None`.
pub fn fdiv(a: i64, b: i64) -> (r: Option<i64>)
    ensures
        r == quotient(a as int, b as int),
{
    if b == 0 {
        return None;
    }
    let mag: u64 = unsigned_abs(a).checked_mul(ONE as u64)? / unsigned_abs(b);
    if mag > i64::MAX as u64 {
        return None;
    }
    let mag: i64 = mag as i64;
    Some(if (a < 0) != (b < 0) { -mag } else { mag })
}

/// Floor to a whole number (toward negative infinity). Overflow gives `None`.
pub fn fint(v: i64) -> (r: Option<i64>)
    ensures
        r == floor_whole(v as int),
{
    let m: u64 = unsigned_abs(v);
    let q: i64 = (m / ONE as u64) as i64;
    if v < 0 {
        let down: i64 = if m % (ONE as u64) != 0 { -q - 1 } else { -q };
        assert(down == (v as int) / (ONE as int));
        down.checked_mul(ONE)
    } else {
        Some(q * ONE)
    }
}

/// Modulo with the sign of the divisor. A zero divisor gives `None`.
pub fn fmod(a: i64, b: i64) -> (r: Option<i64>)
    ensures
        r == remainder(a as int, b as int),
{
    if b == 0 {
        return None;
    }
    let ma: u64 = unsigned_abs(a);
    let mb: u64 = unsigned_abs(b);
    let r_mag: i64 = (ma % mb) as i64;
    let mut r: i64 = if a < 0 { -r_mag } else { r_mag };
    proof {
        lemma_remainder(a as int, b as int);
    }
    if r != 0 && (r < 0) != (b < 0) {
        r += b;
    }
    Some(r)
}

proof fn lemma_remainder(a: int, b: int)
    requires
        b != 0,
    ensures
        ({
            let m = magnitude(a) % magnitude(b);
            let r = signed(a < 0, m);
            let e = if b > 0 { a % b } else { -((-a) % (-b)) };
            &&& 0 <= m < magnitude(b)
            &&& e == if r != 0 && (r < 0) != (b < 0) { r + b } else { r }
        }),
{
    let mb = magnitude(b);
    assert(0 <= magnitude(a) % mb < mb) by (nonlinear_arith)
        requires
            mb > 0,
    ;
    lemma_neg_mod(magnitude(a), mb);
}

/// The remainder of a negated number, from that of the number.
proof fn lemma_neg_mod(x: int, m: int)
    requires
        m > 0,
    ensures
        (-x) % m == if x % m == 0 { 0 } else { m - x % m },
{
    vstd::arithmetic::div_mod::lemma_fundamental_div_mod(x, m);
    let q = x / m;
    let r = x % m;
    if r == 0 {
        assert(-x == m * (-q)) by (nonlinear_arith)
            requires
                x == m * q,
        ;
        vstd::arithmetic::div_mod::lemma_fundamental_div_mod_converse(-x, m, -q, 0);
    } else {
        assert(-x == m * (-q - 1) + (m - r)) by (nonlinear_arith)
            requires
                x == m * q + r,
        ;
        assert(0 <= r < m) by (nonlinear_arith)
            requires
                r == x % m,
                m > 0,
        ;
        vstd::arithmetic::div_mod::lemma_fundamental_div_mod_converse(-x, m, -q - 1, m - r);
    }
}

/// Round to the nearest whole number, a half away from zero. Overflow gives
/// `None`.
pub fn round_int(v: i64) -> (r: Option<i64>)
    ensures
        r == nearest_whole(v as int),
{
    let bump: i64 = if v >= 0 { ONE / 2 } else { -(ONE / 2) };
    let moved: i64 = v.checked_add(bump)?;
    Some((moved / ONE) * ONE)
}

/// Add, holding the sum at the ends of the range.
pub fn saturating_sum(a: i64, b: i64) -> (r: i64)
    ensures
        r == saturated(a + b),
{
    match a.checked_add(b) {
        Some(s) => s,
        None => if a < 0 {
            i64::MIN
        } else {
            i64::MAX
        },
    }
}

/// The integer, held at the ends of the `i64` range.
pub open spec fn saturated(x: int) -> i64 {
    if x > i64::MAX {
        i64::MAX
    } else if x < i64::MIN {
        i64::MIN
    } else {
        x as i64
    }
}

/// A value that leaves the range is taken as the nearest one in it.
pub proof fn law_saturated_is_nearest(x: int, y: i64)
    ensures
        magnitude(saturated(x) - x) <= magnitude(y - x),
{
}

} // verus!
