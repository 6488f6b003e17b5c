//! Numbers written as decimal digits.

use vstd::prelude::*;

use crate::ascii::{digits_value, is_digit, ZERO};

verus! {

/// The decimal digits of `n`, most significant first, without leading zeros.
pub open spec fn dec(n: nat) -> Seq<u8>
    decreases n,
{
    if n < 10 {
        seq![(ZERO + n) as u8]
    } else {
        dec(n / 10).push((ZERO + n % 10) as u8)
    }
}

pub proof fn lemma_dec_digits(n: nat)
    ensures
        dec(n).len() >= 1,
        forall|i: int| 0 <= i < dec(n).len() ==> is_digit(#[trigger] dec(n)[i]),
        dec(n)[0] == ZERO ==> n == 0,
    decreases n,
{
    if n >= 10 {
        lemma_dec_digits(n / 10);
        assert(dec(n)[0] == dec(n / 10)[0]);
    }
}

pub proof fn lemma_dec_value(n: nat)
    ensures
        digits_value(dec(n), 0, dec(n).len() as int) == n,
    decreases n,
{
    if n < 10 {
        assert(digits_value(dec(n), 0, 0) == 0);
        assert(digits_value(dec(n), 0, 1) == n);
    } else {
        let d = dec(n / 10);
        lemma_dec_value(n / 10);
        crate::ascii::lemma_digits_value_same(d, 0, d.len() as int, dec(n), 0);
        assert(dec(n).len() == d.len() + 1);
        assert(digits_value(dec(n), 0, dec(n).len() as int) == digits_value(dec(n), 0, d.len() as int)
            * 10 + n % 10);
    }
}

/// What digits spell is below the power of ten of their number.
pub proof fn lemma_digits_below(b: Seq<u8>, i: int, j: int)
    requires
        0 <= i <= j <= b.len(),
        forall|k: int| i <= k < j ==> is_digit(#[trigger] b[k]),
    ensures
        0 <= digits_value(b, i, j) < vstd::arithmetic::power::pow(10, (j - i) as nat),
    decreases j - i,
{
    reveal(vstd::arithmetic::power::pow);
    if i < j {
        lemma_digits_below(b, i, j - 1);
        assert(is_digit(b[j - 1]));
    }
}

/// Numbers below `10^k` take at most `k` digits.
pub proof fn lemma_dec_len(n: nat, bound: nat, k: nat)
    requires
        k >= 1,
        n < bound,
        bound == vstd::arithmetic::power::pow(10, k),
    ensures
        dec(n).len() <= k,
    decreases k,
{
    reveal(vstd::arithmetic::power::pow);
    if n >= 10 {
        if k == 1 {
            assert(vstd::arithmetic::power::pow(10, 1) == 10 * vstd::arithmetic::power::pow(10, 0));
        } else {
            let b = vstd::arithmetic::power::pow(10, (k - 1) as nat);
            assert(bound == 10 * b);
            lemma_dec_len(n / 10, b as nat, (k - 1) as nat);
        }
    }
}

/// The first of `n`'s digits, at its power of ten, is the most of it that fits.
pub proof fn lemma_dec_leading(n: nat)
    ensures
        ({
            let d = dec(n)[0] - ZERO;
            let p = vstd::arithmetic::power::pow(10, (dec(n).len() - 1) as nat);
            d * p <= n < (d + 1) * p
        }),
    decreases n,
{
    reveal(vstd::arithmetic::power::pow);
    lemma_dec_digits(n);
    if n >= 10 {
        lemma_dec_digits(n / 10);
        lemma_dec_leading(n / 10);
        let d = dec(n)[0] - ZERO;
        let k = (dec(n).len() - 1) as nat;
        let q = vstd::arithmetic::power::pow(10, (k - 1) as nat);
        let p = vstd::arithmetic::power::pow(10, k);
        assert(p == 10 * q);
        let m = n / 10;
        assert(d * p == 10 * (d * q) && (d + 1) * p == 10 * ((d + 1) * q)) by (nonlinear_arith)
            requires
                p == 10 * q,
        ;
        assert(d * q <= m < (d + 1) * q);
    } else {
        assert(vstd::arithmetic::power::pow(10, 0) == 1);
    }
}

/// Append the decimal digits of `v`.
pub fn push_dec(out: &mut Vec<u8>, v: u64)
    ensures
        final(out)@ == old(out)@ + dec(v as nat),
    decreases v,
{
    if v >= 10 {
        push_dec(out, v / 10);
    }
    out.push(ZERO + (v % 10) as u8);
    assert(out@ =~= old(out)@ + dec(v as nat));
}

} // verus!
