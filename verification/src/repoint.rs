//! Re-pointing a formula's text re-points exactly the references in it, and
//! the formula keeps its value if its data moves along.

use vstd::prelude::*;

use crate::ascii::{
    alphas_end, digits_end, is_alpha, is_digit, lemma_alphas_end, lemma_digits_end,
    lemma_digits_end_from, lemma_digits_value_same, lemma_spaces_end, row_number, spaces_end, COLON,
    COMMA, DOT, LPAREN, MINUS, PLUS, RPAREN, SLASH, SPACE, STAR, UPPER_A,
};
use crate::decimal::{dec, lemma_dec_digits, lemma_dec_value};
use crate::fixed::ONE;
use crate::formula::{
    argument_at, cell_name_at, column, comparison_at, factor_at, formula, function_named, name_at,
    past, range_at, relation_at, row_at, sum_at, sum_rest, term_at, term_rest, Aggregate, Binary,
    Expr, Function, Unary,
};
use crate::grid::{least_of, most_of, on_grid, COLS, ROWS};
use crate::number::{lemma_frac_same, number_at};
use crate::refs::{ref_starts, ref_text, rewritten, rewritten_from, shifted, Shift};

verus! {

/// Whether every cell that an expression names, and both corners of every
/// range, still has a place after the shift, a range's first corner before its
/// last.
pub open spec fn keeps_targets(e: Expr, shift: Shift) -> bool
    decreases e,
{
    match e {
        Expr::Number(_) => true,
        Expr::Cell { col, row } => shifted(shift, col, row) is Some,
        Expr::One(_, a) => keeps_targets(*a, shift),
        Expr::Two(_, a, b) => keeps_targets(*a, shift) && keeps_targets(*b, shift),
        Expr::If(c, a, b) => keeps_targets(*c, shift) && keeps_targets(*a, shift) && keeps_targets(
            *b,
            shift,
        ),
        Expr::Range { over, c0, r0, c1, r1 } => keeps_corners(shift, c0, r0, c1, r1),
    }
}

/// Whether a range's corners still have a place after the shift, the first
/// before the last.
pub open spec fn keeps_corners(shift: Shift, c0: int, r0: int, c1: int, r1: int) -> bool {
    &&& shifted(shift, c0, r0) matches Some((ca, ra))
    &&& shifted(shift, c1, r1) matches Some((cb, rb))
    &&& ca <= cb
    &&& ra <= rb
}

/// The expression with every cell and every range's corners moved.
pub open spec fn shifted_expr(e: Expr, shift: Shift) -> Expr
    decreases e,
{
    match e {
        Expr::Number(v) => Expr::Number(v),
        Expr::Cell { col, row } => {
            let (c, r) = shifted(shift, col, row)->Some_0;
            Expr::Cell { col: c, row: r }
        },
        Expr::One(op, a) => Expr::One(op, Box::new(shifted_expr(*a, shift))),
        Expr::Two(op, a, b) => Expr::Two(
            op,
            Box::new(shifted_expr(*a, shift)),
            Box::new(shifted_expr(*b, shift)),
        ),
        Expr::If(c, a, b) => Expr::If(
            Box::new(shifted_expr(*c, shift)),
            Box::new(shifted_expr(*a, shift)),
            Box::new(shifted_expr(*b, shift)),
        ),
        Expr::Range { over, c0, r0, c1, r1 } => {
            let (ca, ra) = shifted(shift, c0, r0)->Some_0;
            let (cb, rb) = shifted(shift, c1, r1)->Some_0;
            Expr::Range { over, c0: ca, r0: ra, c1: cb, r1: rb }
        },
    }
}

/// From `p2` on `b2` is what `b` from `p` on is rewritten to.
pub open spec fn follows(b: Seq<u8>, p: int, b2: Seq<u8>, p2: int, shift: Shift) -> bool {
    &&& 0 <= p <= b.len()
    &&& 0 <= p2 <= b2.len()
    &&& b2.skip(p2) == rewritten_from(b, p, shift)
}

/// What is rewritten starts with a letter where a letter stands, and with the
/// same byte where another stands.
pub proof fn lemma_first(b: Seq<u8>, p: int, b2: Seq<u8>, p2: int, shift: Shift)
    requires
        follows(b, p, b2, p2, shift),
    ensures
        p < b.len() <==> p2 < b2.len(),
        p < b.len() ==> (is_alpha(b[p]) <==> is_alpha(b2[p2])),
        p < b.len() && !is_alpha(b[p]) ==> b2[p2] == b[p] && follows(
            b,
            p + 1,
            b2,
            p2 + 1,
            shift,
        ),
{
    let out = rewritten_from(b, p, shift);
    assert(b2.skip(p2).len() == b2.len() - p2);
    if p < b.len() {
        if is_alpha(b[p]) {
            let j = alphas_end(b, p);
            lemma_alphas_end(b, p + 1);
            assert(j == alphas_end(b, p + 1));
            if j == p + 1 && ref_starts(b, p) {
                let k = digits_end(b, j);
                lemma_digits_end(b, j);
                let text = ref_text(shift, column(b[p]), row_number(b, j, k));
                assert(out[0] == text[0]);
                assert(0 <= column(b[p]) < COLS);
            } else {
                assert(out[0] == b.subrange(p, j)[0]);
            }
            assert(b2[p2] == b2.skip(p2)[0]);
        } else {
            let rest = rewritten_from(b, p + 1, shift);
            assert(out == seq![b[p]] + rest);
            assert(b2[p2] == b2.skip(p2)[0]);
            assert(b2.skip(p2 + 1) =~= b2.skip(p2).skip(1));
            assert(b2.skip(p2 + 1) =~= rest);
        }
    }
}

/// Spaces are copied.
proof fn lemma_spaces(b: Seq<u8>, p: int, b2: Seq<u8>, p2: int, shift: Shift)
    requires
        follows(b, p, b2, p2, shift),
    ensures
        follows(b, spaces_end(b, p), b2, spaces_end(b2, p2), shift),
        spaces_end(b2, p2) >= p2,
    decreases b.len() - p,
{
    lemma_first(b, p, b2, p2, shift);
    if p < b.len() && b[p] == SPACE {
        lemma_spaces(b, p + 1, b2, p2 + 1, shift);
    }
}

/// Digits are copied.
proof fn lemma_digits(b: Seq<u8>, p: int, b2: Seq<u8>, p2: int, shift: Shift)
    requires
        follows(b, p, b2, p2, shift),
    ensures
        follows(b, digits_end(b, p), b2, digits_end(b2, p2), shift),
        digits_end(b, p) - p == digits_end(b2, p2) - p2,
        digits_end(b, p) >= p,
        forall|m: int| 0 <= m < digits_end(b, p) - p ==> #[trigger] b[p + m] == b2[p2 + m],
    decreases b.len() - p,
{
    lemma_first(b, p, b2, p2, shift);
    if p < b.len() && is_digit(b[p]) {
        lemma_digits(b, p + 1, b2, p2 + 1, shift);
        assert forall|m: int| 0 <= m < digits_end(b, p) - p implies #[trigger] b[p + m] == b2[p2
            + m] by {
            if m > 0 {
                assert(b[(p + 1) + (m - 1)] == b2[(p2 + 1) + (m - 1)]);
            }
        }
    }
}

/// Numbers are copied.
proof fn lemma_number(b: Seq<u8>, p: int, b2: Seq<u8>, p2: int, shift: Shift) -> (q2: int)
    requires
        follows(b, p, b2, p2, shift),
        p < b.len(),
        is_digit(b[p]) || b[p] == DOT,
        number_at(b, p) is Some,
    ensures
        ({
            let (v, q) = number_at(b, p)->Some_0;
            &&& number_at(b2, p2) == Some((v, q2))
            &&& follows(b, q, b2, q2, shift)
            &&& p2 < q2
        }),
{
    lemma_first(b, p, b2, p2, shift);
    lemma_digits(b, p, b2, p2, shift);
    lemma_digits_end(b, p);
    lemma_digits_end(b2, p2);
    let i1 = digits_end(b, p);
    let j1 = digits_end(b2, p2);
    lemma_digits_value_same(b, p, i1, b2, p2);
    lemma_first(b, i1, b2, j1, shift);
    if i1 < b.len() && b[i1] == DOT {
        lemma_digits(b, i1 + 1, b2, j1 + 1, shift);
        lemma_digits_end(b, i1 + 1);
        lemma_digits_end(b2, j1 + 1);
        let i2 = digits_end(b, i1 + 1);
        let j2 = digits_end(b2, j1 + 1);
        lemma_frac_same(b, i1 + 1, i2, b2, j1 + 1, ONE as int / 10);
        j2
    } else {
        if j1 < b2.len() && b2[j1] == DOT {
            assert(is_alpha(b[i1]) || b[i1] == b2[j1]);
        }
        j1
    }
}

/// A closing byte is copied.
proof fn lemma_past(b: Seq<u8>, p: int, b2: Seq<u8>, p2: int, shift: Shift, ch: u8) -> (q2: int)
    requires
        follows(b, p, b2, p2, shift),
        !is_alpha(ch),
        past(b, p, ch) is Some,
    ensures
        past(b2, p2, ch) == Some(q2),
        follows(b, past(b, p, ch)->Some_0, b2, q2, shift),
        p2 < q2,
{
    lemma_spaces(b, p, b2, p2, shift);
    let q = spaces_end(b, p);
    let s2 = spaces_end(b2, p2);
    lemma_first(b, q, b2, s2, shift);
    s2 + 1
}

/// A relation is copied, and none appears where there was none.
proof fn lemma_relation(b: Seq<u8>, s: int, b2: Seq<u8>, s2: int, shift: Shift)
    requires
        follows(b, s, b2, s2, shift),
    ensures
        match relation_at(b, s) {
            None => relation_at(b2, s2) is None,
            Some((rel, t)) => relation_at(b2, s2) == Some((rel, s2 + (t - s))) && follows(
                b,
                t,
                b2,
                s2 + (t - s),
                shift,
            ) && t > s,
        },
{
    lemma_first(b, s, b2, s2, shift);
    if s < b.len() && !is_alpha(b[s]) {
        lemma_first(b, s + 1, b2, s2 + 1, shift);
    }
}

/// A reference moves as its coordinates do.
pub proof fn lemma_reference(b: Seq<u8>, p: int, b2: Seq<u8>, p2: int, shift: Shift) -> (q2: int)
    requires
        follows(b, p, b2, p2, shift),
        p < b.len(),
        is_alpha(b[p]),
        row_at(b, p + 1) is Some,
        ({
            let (row, q) = row_at(b, p + 1)->Some_0;
            row < ROWS && shifted(shift, column(b[p]), row) is Some
        }),
    ensures
        ({
            let (row, q) = row_at(b, p + 1)->Some_0;
            let (c, r) = shifted(shift, column(b[p]), row)->Some_0;
            &&& p2 + 1 < q2
            &&& is_alpha(b2[p2])
            &&& column(b2[p2]) == c
            &&& row_at(b2, p2 + 1) == Some((r, q2))
            &&& r < ROWS
            &&& follows(b, q, b2, q2, shift)
            &&& alphas_end(b2, p2) == p2 + 1
            &&& is_digit(b2[p2 + 1])
        }),
{
    let (row, q) = row_at(b, p + 1)->Some_0;
    let (c, r) = shifted(shift, column(b[p]), row)->Some_0;
    lemma_digits_end(b, p + 1);
    assert(is_digit(b[p + 1]));
    assert(alphas_end(b, p + 1) == p + 1);
    assert(alphas_end(b, p) == p + 1);
    crate::ascii::lemma_digits_value_nonneg(b, p + 1, q);
    let text = ref_text(shift, column(b[p]), row_number(b, p + 1, q));
    let digits = dec((r + 1) as nat);
    assert(0 <= column(b[p]) < COLS);
    assert(0 <= c < COLS && 0 <= r < ROWS);
    assert(text == seq![(UPPER_A + c) as u8] + digits);
    let rest = rewritten_from(b, q, shift);
    let out = b2.skip(p2);
    assert(out == text + rest);
    lemma_dec_digits((r + 1) as nat);
    lemma_dec_value((r + 1) as nat);
    let q2 = p2 + 1 + digits.len();
    assert(b2[p2] == out[0]);
    assert(out[0] == text[0]);
    assert forall|m: int| 0 <= m < digits.len() implies #[trigger] digits[0 + m] == b2[p2 + 1
        + m] by {
        assert(b2[p2 + 1 + m] == out[1 + m]);
        assert(out[1 + m] == text[1 + m]);
    }
    assert(b2.len() == p2 + text.len() + rest.len());
    assert(b2.skip(q2) =~= rest) by {
        assert forall|k: int| 0 <= k < rest.len() implies b2.skip(q2)[k] == rest[k] by {
            assert(b2[q2 + k] == out[text.len() + k]);
        }
    }
    assert(follows(b, q, b2, q2, shift));
    lemma_first(b, q, b2, q2, shift);
    assert forall|i: int| p2 + 1 <= i < q2 implies is_digit(#[trigger] b2[i]) by {
        assert(digits[0 + (i - p2 - 1)] == b2[p2 + 1 + (i - p2 - 1)]);
    }
    lemma_digits_end_from(b2, p2 + 1, q2);
    assert(digits_end(b2, q2) == q2) by {
        if q2 < b2.len() && is_digit(b2[q2]) {
            assert(b2[q2] == b[q]);
        }
    }
    lemma_digits_value_same(digits, 0, digits.len() as int, b2, p2 + 1);
    assert(row_number(b2, p2 + 1, q2) == r + 1);
    assert(is_digit(b2[p2 + 1]));
    assert(alphas_end(b2, p2 + 1) == p2 + 1);
    assert(alphas_end(b2, p2) == alphas_end(b2, p2 + 1));
    q2
}

/// A word before a bracket is copied.
proof fn lemma_word(b: Seq<u8>, p: int, b2: Seq<u8>, p2: int, shift: Shift)
    requires
        follows(b, p, b2, p2, shift),
        p < b.len(),
        is_alpha(b[p]),
        alphas_end(b, p) < b.len(),
        b[alphas_end(b, p)] == LPAREN,
    ensures
        ({
            let w = alphas_end(b, p);
            let w2 = p2 + (w - p);
            &&& p < w
            &&& alphas_end(b2, p2) == w2
            &&& w2 < b2.len()
            &&& b2[w2] == LPAREN
            &&& b2.subrange(p2, w2) == b.subrange(p, w)
            &&& follows(b, w + 1, b2, w2 + 1, shift)
        }),
{
    let w = alphas_end(b, p);
    lemma_alphas_end(b, p);
    lemma_alphas_end(b, p + 1);
    assert(w == alphas_end(b, p + 1));
    let chunk = b.subrange(p, w);
    let rest = rewritten_from(b, w, shift);
    let out = b2.skip(p2);
    if ref_starts(b, p) && w == p + 1 {
        assert(is_digit(b[w]));
    }
    assert(out == chunk + rest);
    let w2 = p2 + (w - p);
    assert(b2.len() == p2 + out.len());
    assert(b2.skip(w2) =~= rest) by {
        assert forall|k: int| 0 <= k < rest.len() implies b2.skip(w2)[k] == rest[k] by {
            assert(b2[w2 + k] == out[chunk.len() + k]);
        }
    }
    assert forall|k: int| 0 <= k < chunk.len() implies b2[p2 + k] == #[trigger] chunk[k] by {
        assert(b2[p2 + k] == out[k]);
    }
    assert(b2.subrange(p2, w2) =~= chunk);
    lemma_first(b, w, b2, w2, shift);
    assert forall|i: int| p2 <= i < w2 implies is_alpha(#[trigger] b2[i]) by {
        assert(b2[p2 + (i - p2)] == chunk[i - p2]);
        assert(is_alpha(b[p + (i - p2)]));
    }
    lemma_alphas_from(b2, p2, w2);
}

/// A position reached over letters alone has the same run's end.
pub proof fn lemma_alphas_from(b: Seq<u8>, p: int, q: int)
    requires
        0 <= p <= q <= b.len(),
        forall|i: int| p <= i < q ==> is_alpha(#[trigger] b[i]),
    ensures
        alphas_end(b, p) == alphas_end(b, q),
    decreases q - p,
{
    if p < q {
        assert(is_alpha(b[p]));
        lemma_alphas_from(b, p + 1, q);
    }
}

// ---------------------------------------------------------------------------
// The grammar
// ---------------------------------------------------------------------------

/// `parsed2` is what `parsed` becomes by the shift.
spec fn moves(
    b: Seq<u8>,
    parsed: Option<(Expr, int)>,
    b2: Seq<u8>,
    p2: int,
    parsed2: Option<(Expr, int)>,
    shift: Shift,
) -> bool {
    let (e, q) = parsed->Some_0;
    &&& parsed2 matches Some((e2, q2)) && e2 == shifted_expr(e, shift) && follows(
        b,
        q,
        b2,
        q2,
        shift,
    ) && p2 < q2
}

spec fn kept(parsed: Option<(Expr, int)>, shift: Shift) -> bool {
    parsed matches Some((e, q)) && keeps_targets(e, shift)
}

/// A cell's name moves as the cell does.
proof fn lemma_cell_name(b: Seq<u8>, p: int, b2: Seq<u8>, p2: int, shift: Shift)
    requires
        follows(b, p, b2, p2, shift),
        cell_name_at(b, p) matches Some((col, row, q)) && shifted(shift, col, row) is Some,
    ensures
        ({
            let (col, row, q) = cell_name_at(b, p)->Some_0;
            let (c, r) = shifted(shift, col, row)->Some_0;
            cell_name_at(b2, p2) matches Some((c2, r2, q2)) && c2 == c && r2 == r && follows(
                b,
                q,
                b2,
                q2,
                shift,
            ) && p2 < q2
        }),
{
    lemma_spaces(b, p, b2, p2, shift);
    let s = spaces_end(b, p);
    let s2 = spaces_end(b2, p2);
    let q2 = lemma_reference(b, s, b2, s2, shift);
}

/// A range's corners in order move as the corners do.
proof fn lemma_corners(shift: Shift, ca: int, ra: int, cb: int, rb: int)
    requires
        on_grid(ca, ra),
        on_grid(cb, rb),
        keeps_corners(
            shift,
            least_of(ca, cb),
            least_of(ra, rb),
            most_of(ca, cb),
            most_of(ra, rb),
        ),
    ensures
        shifted(shift, ca, ra) is Some,
        shifted(shift, cb, rb) is Some,
        ({
            let (c0, r0) = shifted(shift, least_of(ca, cb), least_of(ra, rb))->Some_0;
            let (c1, r1) = shifted(shift, most_of(ca, cb), most_of(ra, rb))->Some_0;
            let (xa, ya) = shifted(shift, ca, ra)->Some_0;
            let (xb, yb) = shifted(shift, cb, rb)->Some_0;
            &&& c0 == least_of(xa, xb)
            &&& r0 == least_of(ya, yb)
            &&& c1 == most_of(xa, xb)
            &&& r1 == most_of(ya, yb)
        }),
{
}

proof fn lemma_range(b: Seq<u8>, p: int, b2: Seq<u8>, p2: int, shift: Shift, over: Aggregate)
    requires
        follows(b, p, b2, p2, shift),
        kept(range_at(b, p, over), shift),
    ensures
        moves(b, range_at(b, p, over), b2, p2, range_at(b2, p2, over), shift),
{
    let (ca, ra, q) = cell_name_at(b, p)->Some_0;
    let s = past(b, q, COLON)->Some_0;
    let (cb, rb, t) = cell_name_at(b, s)->Some_0;
    crate::ascii::lemma_spaces_end(b, p);
    lemma_name_on_grid(b, p);
    lemma_name_on_grid_at(b, q, s);
    lemma_corners(shift, ca, ra, cb, rb);
    lemma_cell_name(b, p, b2, p2, shift);
    let (ca2, ra2, q2) = cell_name_at(b2, p2)->Some_0;
    let s2 = lemma_past(b, q, b2, q2, shift, COLON);
    lemma_cell_name(b, s, b2, s2, shift);
    let (cb2, rb2, t2) = cell_name_at(b2, s2)->Some_0;
    let end2 = lemma_past(b, t, b2, t2, shift, RPAREN);
}

proof fn lemma_name_on_grid(b: Seq<u8>, p: int)
    requires
        0 <= p <= b.len(),
    ensures
        cell_name_at(b, p) matches Some((c, r, q)) ==> on_grid(c, r) && p < q <= b.len(),
{
    lemma_spaces_end(b, p);
    let q = spaces_end(b, p);
    if q < b.len() {
        lemma_digits_end(b, q + 1);
        crate::ascii::lemma_digits_value_nonneg(b, q + 1, digits_end(b, q + 1));
    }
}

proof fn lemma_name_on_grid_at(b: Seq<u8>, q: int, s: int)
    requires
        0 <= q <= b.len(),
        past(b, q, COLON) == Some(s),
    ensures
        0 <= s <= b.len(),
        cell_name_at(b, s) matches Some((c, r, t)) ==> on_grid(c, r),
{
    lemma_spaces_end(b, q);
    lemma_name_on_grid(b, s);
}

/// What a sum is built from still has its places if the sum has.
proof fn lemma_sum_rest_kept(b: Seq<u8>, acc: Expr, p: int, shift: Shift)
    requires
        0 <= p <= b.len(),
        kept(sum_rest(b, acc, p), shift),
    ensures
        keeps_targets(acc, shift),
    decreases b.len() - p,
{
    let q = spaces_end(b, p);
    lemma_spaces_end(b, p);
    if q < b.len() && (b[q] == PLUS || b[q] == MINUS) {
        let (t, r) = term_at(b, q + 1)->Some_0;
        let op = if b[q] == PLUS {
            Binary::Add
        } else {
            Binary::Sub
        };
        lemma_sum_rest_kept(b, Expr::Two(op, Box::new(acc), Box::new(t)), r, shift);
    }
}

proof fn lemma_term_rest_kept(b: Seq<u8>, acc: Expr, p: int, shift: Shift)
    requires
        0 <= p <= b.len(),
        kept(term_rest(b, acc, p), shift),
    ensures
        keeps_targets(acc, shift),
    decreases b.len() - p,
{
    let q = spaces_end(b, p);
    lemma_spaces_end(b, p);
    if q < b.len() && (b[q] == STAR || b[q] == SLASH) {
        let (f, r) = factor_at(b, q + 1)->Some_0;
        let op = if b[q] == STAR {
            Binary::Mul
        } else {
            Binary::Div
        };
        lemma_term_rest_kept(b, Expr::Two(op, Box::new(acc), Box::new(f)), r, shift);
    }
}

proof fn lemma_comparison(b: Seq<u8>, p: int, b2: Seq<u8>, p2: int, shift: Shift)
    requires
        follows(b, p, b2, p2, shift),
        kept(comparison_at(b, p), shift),
    ensures
        moves(b, comparison_at(b, p), b2, p2, comparison_at(b2, p2), shift),
    decreases b.len() - p, 5nat,
{
    let (l, q) = sum_at(b, p)->Some_0;
    let s = spaces_end(b, q);
    lemma_spaces_end(b, q);
    match relation_at(b, s) {
        None => {},
        Some((rel, t)) => {
            let (r, end) = sum_at(b, t)->Some_0;
            let e = comparison_at(b, p)->Some_0.0;
            assert(e == Expr::Two(Binary::Compare(rel), Box::new(l), Box::new(r)));
        },
    }
    lemma_sum(b, p, b2, p2, shift);
    let (l2, q2) = sum_at(b2, p2)->Some_0;
    lemma_spaces(b, q, b2, q2, shift);
    let s2 = spaces_end(b2, q2);
    lemma_relation(b, s, b2, s2, shift);
    if let Some((rel, t)) = relation_at(b, s) {
        lemma_sum(b, t, b2, s2 + (t - s), shift);
    }
}

proof fn lemma_sum(b: Seq<u8>, p: int, b2: Seq<u8>, p2: int, shift: Shift)
    requires
        follows(b, p, b2, p2, shift),
        kept(sum_at(b, p), shift),
    ensures
        moves(b, sum_at(b, p), b2, p2, sum_at(b2, p2), shift),
    decreases b.len() - p, 4nat,
{
    let (t, q) = term_at(b, p)->Some_0;
    lemma_sum_rest_kept(b, t, q, shift);
    lemma_term(b, p, b2, p2, shift);
    let (t2, q2) = term_at(b2, p2)->Some_0;
    lemma_sum_rest(b, t, q, b2, q2, shift);
}

proof fn lemma_sum_rest(b: Seq<u8>, acc: Expr, p: int, b2: Seq<u8>, p2: int, shift: Shift)
    requires
        follows(b, p, b2, p2, shift),
        0 < p2,
        kept(sum_rest(b, acc, p), shift),
    ensures
        ({
            let (e, q) = sum_rest(b, acc, p)->Some_0;
            sum_rest(b2, shifted_expr(acc, shift), p2) matches Some((e2, q2)) && e2
                == shifted_expr(e, shift) && follows(b, q, b2, q2, shift) && p2 <= q2
        }),
    decreases b.len() - p, 3nat,
{
    lemma_spaces(b, p, b2, p2, shift);
    lemma_spaces_end(b, p);
    lemma_spaces_end(b2, p2);
    let q = spaces_end(b, p);
    let q2 = spaces_end(b2, p2);
    lemma_first(b, q, b2, q2, shift);
    if q < b.len() && (b[q] == PLUS || b[q] == MINUS) {
        let (t, r) = term_at(b, q + 1)->Some_0;
        let op = if b[q] == PLUS {
            Binary::Add
        } else {
            Binary::Sub
        };
        let more = Expr::Two(op, Box::new(acc), Box::new(t));
        lemma_sum_rest_kept(b, more, r, shift);
        lemma_term(b, q + 1, b2, q2 + 1, shift);
        let (t2, r2) = term_at(b2, q2 + 1)->Some_0;
        lemma_sum_rest(b, more, r, b2, r2, shift);
        assert(shifted_expr(more, shift) == Expr::Two(
            op,
            Box::new(shifted_expr(acc, shift)),
            Box::new(t2),
        ));
    } else {
        if q2 < b2.len() && (b2[q2] == PLUS || b2[q2] == MINUS) {
            assert(b2[q2] == b[q]);
        }
    }
}

proof fn lemma_term(b: Seq<u8>, p: int, b2: Seq<u8>, p2: int, shift: Shift)
    requires
        follows(b, p, b2, p2, shift),
        kept(term_at(b, p), shift),
    ensures
        moves(b, term_at(b, p), b2, p2, term_at(b2, p2), shift),
    decreases b.len() - p, 2nat,
{
    let (f, q) = factor_at(b, p)->Some_0;
    lemma_term_rest_kept(b, f, q, shift);
    lemma_factor(b, p, b2, p2, shift);
    let (f2, q2) = factor_at(b2, p2)->Some_0;
    lemma_term_rest(b, f, q, b2, q2, shift);
}

proof fn lemma_term_rest(b: Seq<u8>, acc: Expr, p: int, b2: Seq<u8>, p2: int, shift: Shift)
    requires
        follows(b, p, b2, p2, shift),
        0 < p2,
        kept(term_rest(b, acc, p), shift),
    ensures
        ({
            let (e, q) = term_rest(b, acc, p)->Some_0;
            term_rest(b2, shifted_expr(acc, shift), p2) matches Some((e2, q2)) && e2
                == shifted_expr(e, shift) && follows(b, q, b2, q2, shift) && p2 <= q2
        }),
    decreases b.len() - p, 2nat,
{
    lemma_spaces(b, p, b2, p2, shift);
    lemma_spaces_end(b, p);
    lemma_spaces_end(b2, p2);
    let q = spaces_end(b, p);
    let q2 = spaces_end(b2, p2);
    lemma_first(b, q, b2, q2, shift);
    if q < b.len() && (b[q] == STAR || b[q] == SLASH) {
        let (f, r) = factor_at(b, q + 1)->Some_0;
        let op = if b[q] == STAR {
            Binary::Mul
        } else {
            Binary::Div
        };
        let more = Expr::Two(op, Box::new(acc), Box::new(f));
        lemma_term_rest_kept(b, more, r, shift);
        lemma_factor(b, q + 1, b2, q2 + 1, shift);
        let (f2, r2) = factor_at(b2, q2 + 1)->Some_0;
        lemma_term_rest(b, more, r, b2, r2, shift);
        assert(shifted_expr(more, shift) == Expr::Two(
            op,
            Box::new(shifted_expr(acc, shift)),
            Box::new(f2),
        ));
    } else {
        if q2 < b2.len() && (b2[q2] == STAR || b2[q2] == SLASH) {
            assert(b2[q2] == b[q]);
        }
    }
}

proof fn lemma_factor(b: Seq<u8>, p: int, b2: Seq<u8>, p2: int, shift: Shift)
    requires
        follows(b, p, b2, p2, shift),
        kept(factor_at(b, p), shift),
    ensures
        moves(b, factor_at(b, p), b2, p2, factor_at(b2, p2), shift),
    decreases b.len() - p, 1nat,
{
    lemma_spaces(b, p, b2, p2, shift);
    lemma_spaces_end(b, p);
    lemma_spaces_end(b2, p2);
    let q = spaces_end(b, p);
    let q2 = spaces_end(b2, p2);
    lemma_first(b, q, b2, q2, shift);
    if b[q] == LPAREN {
        lemma_argument(b, q + 1, b2, q2 + 1, shift, RPAREN);
    } else if b[q] == MINUS {
        let (f, end) = factor_at(b, q + 1)->Some_0;
        assert(factor_at(b, p)->Some_0.0 == Expr::One(Unary::Neg, Box::new(f)));
        lemma_factor(b, q + 1, b2, q2 + 1, shift);
    } else if b[q] == PLUS {
        lemma_factor(b, q + 1, b2, q2 + 1, shift);
    } else if is_digit(b[q]) || b[q] == DOT {
        let end2 = lemma_number(b, q, b2, q2, shift);
    } else {
        lemma_name(b, q, b2, q2, shift);
    }
}

proof fn lemma_argument(b: Seq<u8>, p: int, b2: Seq<u8>, p2: int, shift: Shift, ch: u8)
    requires
        follows(b, p, b2, p2, shift),
        !is_alpha(ch),
        kept(argument_at(b, p, ch), shift),
    ensures
        moves(b, argument_at(b, p, ch), b2, p2, argument_at(b2, p2, ch), shift),
    decreases b.len() - p, 6nat,
{
    lemma_comparison(b, p, b2, p2, shift);
    let (e, q) = comparison_at(b, p)->Some_0;
    let (e2, q2) = comparison_at(b2, p2)->Some_0;
    let end2 = lemma_past(b, q, b2, q2, shift, ch);
}

proof fn lemma_name(b: Seq<u8>, p: int, b2: Seq<u8>, p2: int, shift: Shift)
    requires
        follows(b, p, b2, p2, shift),
        p < b.len(),
        is_alpha(b[p]),
        kept(name_at(b, p), shift),
    ensures
        moves(b, name_at(b, p), b2, p2, name_at(b2, p2), shift),
    decreases b.len() - p, 0nat,
{
    let w = alphas_end(b, p);
    lemma_alphas_end(b, p);
    if w < b.len() && b[w] == LPAREN {
        lemma_word(b, p, b2, p2, shift);
        let w2 = p2 + (w - p);
        let e = name_at(b, p)->Some_0.0;
        match function_named(b.subrange(p, w))->Some_0 {
            Function::If => {
                let (c, q) = argument_at(b, w + 1, COMMA)->Some_0;
                let (x, r) = argument_at(b, q, COMMA)->Some_0;
                let (y, end) = argument_at(b, r, RPAREN)->Some_0;
                assert(e == Expr::If(Box::new(c), Box::new(x), Box::new(y)));
                lemma_argument(b, w + 1, b2, w2 + 1, shift, COMMA);
                let (c2, q2) = argument_at(b2, w2 + 1, COMMA)->Some_0;
                lemma_argument(b, q, b2, q2, shift, COMMA);
                let (x2, r2) = argument_at(b2, q2, COMMA)->Some_0;
                lemma_argument(b, r, b2, r2, shift, RPAREN);
            },
            Function::Abs => {
                let (x, end) = argument_at(b, w + 1, RPAREN)->Some_0;
                assert(e == Expr::One(Unary::Abs, Box::new(x)));
                lemma_argument(b, w + 1, b2, w2 + 1, shift, RPAREN);
            },
            Function::Round => {
                let (x, end) = argument_at(b, w + 1, RPAREN)->Some_0;
                assert(e == Expr::One(Unary::Round, Box::new(x)));
                lemma_argument(b, w + 1, b2, w2 + 1, shift, RPAREN);
            },
            Function::Int => {
                let (x, end) = argument_at(b, w + 1, RPAREN)->Some_0;
                assert(e == Expr::One(Unary::Int, Box::new(x)));
                lemma_argument(b, w + 1, b2, w2 + 1, shift, RPAREN);
            },
            Function::Mod => {
                let (x, q) = argument_at(b, w + 1, COMMA)->Some_0;
                let (y, end) = argument_at(b, q, RPAREN)->Some_0;
                assert(e == Expr::Two(Binary::Mod, Box::new(x), Box::new(y)));
                lemma_argument(b, w + 1, b2, w2 + 1, shift, COMMA);
                let (x2, q2) = argument_at(b2, w2 + 1, COMMA)->Some_0;
                lemma_argument(b, q, b2, q2, shift, RPAREN);
            },
            Function::Over(over) => {
                lemma_range(b, w + 1, b2, w2 + 1, shift, over);
            },
        }
    } else {
        let (row, end) = row_at(b, w)->Some_0;
        assert(name_at(b, p)->Some_0.0 == Expr::Cell { col: column(b[p]), row });
        let q2 = lemma_reference(b, p, b2, p2, shift);
    }
}

/// A formula stays a formula when its references are moved, and says the same
/// of the moved cells.
pub proof fn law_rewriting_moves_references(b: Seq<u8>, shift: Shift)
    requires
        formula(b) matches Some(e) && keeps_targets(e, shift),
    ensures
        formula(rewritten(b, shift)) == Some(shifted_expr(formula(b)->Some_0, shift)),
{
    let b2 = rewritten(b, shift);
    assert(b2.skip(0) =~= b2);
    assert(follows(b, 0, b2, 0, shift));
    lemma_spaces(b, 0, b2, 0, shift);
    lemma_spaces_end(b, 0);
    lemma_spaces_end(b2, 0);
    let p = spaces_end(b, 0);
    let p2 = spaces_end(b2, 0);
    lemma_comparison(b, p, b2, p2, shift);
    let (e, q) = comparison_at(b, p)->Some_0;
    let (e2, q2) = comparison_at(b2, p2)->Some_0;
    lemma_spaces(b, q, b2, q2, shift);
    lemma_first(b, spaces_end(b, q), b2, spaces_end(b2, q2), shift);
}

} // verus!
