//! Short texts of the interface.

use vstd::prelude::*;
use vstd::string::*;

use crate::ascii::{bytes_of, push_all, push_range, COLON, SLASH, UPPER_A};
use crate::decimal::{dec, push_dec};
use crate::refs::truncated;

verus! {

/// The bytes of a text.
pub open spec fn utf8(s: &str) -> Seq<u8> {
    s.spec_bytes()
}

/// An ASCII text has one byte for each character.
pub proof fn lemma_utf8_ascii(s: &str)
    requires
        s.is_ascii(),
    ensures
        utf8(s) == bytes_of(s),
{
    is_ascii_spec_bytes(s);
    assert(utf8(s) =~= bytes_of(s));
}

/// A copy of the bytes of a text.
pub fn bytes(s: &str) -> (b: Vec<u8>)
    ensures
        b@ == utf8(s),
{
    copied(s.as_bytes())
}

/// A copy of some bytes.
pub fn copied(b: &[u8]) -> (v: Vec<u8>)
    ensures
        v@ == b@,
{
    let mut v: Vec<u8> = Vec::new();
    push_all(&mut v, b);
    assert(v@ =~= b@);
    v
}

/// A column's letter and a row's number: `B12`.
pub open spec fn cell_name(col: int, row: int) -> Seq<u8> {
    seq![(UPPER_A + col) as u8] + dec((row + 1) as nat)
}

/// Append the name of a cell.
pub fn push_cell_name(out: &mut Vec<u8>, col: usize, row: usize)
    requires
        col <= 190,
        row < u32::MAX,
    ensures
        final(out)@ == old(out)@ + cell_name(col as int, row as int),
{
    out.push(UPPER_A + col as u8);
    push_dec(out, row as u64 + 1);
    assert(out@ =~= old(out)@ + cell_name(col as int, row as int));
}

/// The name of a cell with a colon behind it: `B3:`.
pub fn cell_ref(col: usize, row: usize) -> (s: Vec<u8>)
    requires
        col <= 190,
        row < u32::MAX,
    ensures
        s@ == cell_name(col as int, row as int).push(COLON),
{
    let mut s: Vec<u8> = Vec::new();
    push_cell_name(&mut s, col, row);
    s.push(COLON);
    assert(s@ =~= cell_name(col as int, row as int).push(COLON));
    s
}

/// The two corners of a range: `A1:B5`.
pub open spec fn range_name(c0: int, r0: int, c1: int, r1: int) -> Seq<u8> {
    cell_name(c0, r0).push(COLON) + cell_name(c1, r1)
}

/// The name of a range: `A1:B5`.
pub fn range_ref(c0: usize, r0: usize, c1: usize, r1: usize) -> (s: Vec<u8>)
    requires
        c0 <= 190,
        r0 < u32::MAX,
        c1 <= 190,
        r1 < u32::MAX,
    ensures
        s@ == range_name(c0 as int, r0 as int, c1 as int, r1 as int),
{
    let mut s: Vec<u8> = cell_ref(c0, r0);
    push_cell_name(&mut s, c1, r1);
    s
}

/// A position in a list: `3/17`.
pub open spec fn frac_text(n: nat, total: nat) -> Seq<u8> {
    dec(n).push(SLASH) + dec(total)
}

/// A position in a list: `3/17`.
pub fn build_frac(n: usize, total: usize) -> (s: Vec<u8>)
    ensures
        s@ == frac_text(n as nat, total as nat),
{
    let mut s: Vec<u8> = Vec::new();
    push_dec(&mut s, n as u64);
    s.push(SLASH);
    push_dec(&mut s, total as u64);
    assert(s@ =~= frac_text(n as nat, total as nat));
    s
}

/// `TRI:<next> View   O:Back`.
pub open spec fn chart_hint(next: Seq<u8>) -> Seq<u8> {
    utf8("TRI:") + next + utf8(" View   O:Back")
}

/// The chart view's controls: `TRI:<next> View   O:Back`.
pub fn build_chart_hint(next: &str) -> (s: Vec<u8>)
    ensures
        s@ == chart_hint(utf8(next)),
{
    let mut s: Vec<u8> = bytes("TRI:");
    push_all(&mut s, next.as_bytes());
    push_all(&mut s, " View   O:Back".as_bytes());
    s
}

/// The first `n` bytes of a text, or all of a shorter one.
pub fn clip(s: &[u8], n: usize) -> (t: Vec<u8>)
    ensures
        t@ == truncated(s@, n as int),
{
    let mut t: Vec<u8> = Vec::new();
    let m: usize = if s.len() <= n {
        s.len()
    } else {
        n
    };
    push_range(&mut t, s, 0, m);
    assert(t@ =~= truncated(s@, n as int));
    t
}

} // verus!
