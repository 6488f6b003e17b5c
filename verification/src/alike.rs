//! Texts that are read alike: in either case of letters, and as a part of a
//! longer text.

use vstd::prelude::*;

use crate::ascii::{
    alphas_end, digits_end, digits_value, is_alpha, is_digit, lemma_alphas_end, lemma_digits_end,
    lemma_digits_value_same, lemma_spaces_end, spaces_end, upper, upper_all, COLON, COMMA, DOT,
    EQUALS, GREATER, LESS, LPAREN, MINUS, PLUS, RPAREN, SLASH, SPACE, STAR,
};
use crate::fixed::{ONE, TRUE_V};
use crate::formula::{
    argument_at, cell_name_at, classified, comparison_at, eval, factor_at, formula, formula_value,
    function_named, holds, is_formula, name_at, past, range_at, relation_at, row_at, sum_at,
    sum_rest, term_at, term_rest, Aggregate, Binary, Expr, Function, Relation,
};
use crate::grid::Kind;
use crate::number::{lemma_frac_same, number_at, number_digits, whole_number};

verus! {

pub open spec fn is_relation_byte(c: u8) -> bool {
    c == EQUALS || c == LESS || c == GREATER
}

/// Bytes before which every word and number ends.
pub open spec fn is_stop_byte(c: u8) -> bool {
    is_relation_byte(c) || c == PLUS || c == MINUS || c == STAR || c == SLASH || c == RPAREN || c
        == COMMA || c == COLON
}

pub open spec fn no_times(b: Seq<u8>, i: int) -> bool {
    i < b.len() ==> b[i] != STAR && b[i] != SLASH
}

pub open spec fn no_plus(b: Seq<u8>, i: int) -> bool {
    i < b.len() ==> b[i] != PLUS && b[i] != MINUS
}

pub open spec fn no_relation(b: Seq<u8>, i: int) -> bool {
    i < b.len() ==> !is_relation_byte(b[i])
}

/// Whether `b`, but for the case of its letters, stands in `b2` from `n` on,
/// as its rest or before a stop.
pub open spec fn stands_in(b: Seq<u8>, b2: Seq<u8>, n: int) -> bool {
    &&& 0 <= n
    &&& n + b.len() <= b2.len()
    &&& n + b.len() == b2.len() || is_stop_byte(b2[n + b.len()])
    &&& forall|i: int| 0 <= i < b.len() ==> upper(#[trigger] b[i]) == upper(b2[n + i])
}

/// Bytes that are alike but for the case.
pub proof fn lemma_byte(b: Seq<u8>, b2: Seq<u8>, n: int, i: int)
    requires
        stands_in(b, b2, n),
        0 <= i <= b.len(),
    ensures
        i < b.len() ==> (is_alpha(b[i]) <==> is_alpha(b2[n + i])),
        i < b.len() && !is_alpha(b[i]) ==> b[i] == b2[n + i],
        i == b.len() ==> n + i == b2.len() || is_stop_byte(b2[n + i]),
{
    if i < b.len() {
        assert(upper(b[i]) == upper(b2[n + i]));
    }
}

pub proof fn lemma_spaces(b: Seq<u8>, b2: Seq<u8>, n: int, p: int)
    requires
        stands_in(b, b2, n),
        0 <= p <= b.len(),
    ensures
        spaces_end(b2, n + p) == n + spaces_end(b, p),
        p <= spaces_end(b, p) <= b.len(),
    decreases b.len() - p,
{
    lemma_byte(b, b2, n, p);
    if p < b.len() && b[p] == SPACE {
        lemma_spaces(b, b2, n, p + 1);
    }
}

pub proof fn lemma_alphas(b: Seq<u8>, b2: Seq<u8>, n: int, p: int)
    requires
        stands_in(b, b2, n),
        0 <= p <= b.len(),
    ensures
        alphas_end(b2, n + p) == n + alphas_end(b, p),
        p <= alphas_end(b, p) <= b.len(),
    decreases b.len() - p,
{
    lemma_byte(b, b2, n, p);
    if p < b.len() && is_alpha(b[p]) {
        lemma_alphas(b, b2, n, p + 1);
    }
}

pub proof fn lemma_digits(b: Seq<u8>, b2: Seq<u8>, n: int, p: int)
    requires
        stands_in(b, b2, n),
        0 <= p <= b.len(),
    ensures
        digits_end(b2, n + p) == n + digits_end(b, p),
        p <= digits_end(b, p) <= b.len(),
        forall|m: int| 0 <= m < digits_end(b, p) - p ==> #[trigger] b[p + m] == b2[n + p + m],
        digits_value(b2, n + p, n + digits_end(b, p)) == digits_value(b, p, digits_end(b, p)),
{
    lemma_digits_run(b, b2, n, p);
    let end = digits_end(b, p);
    lemma_digits_end(b, p);
    assert forall|m: int| 0 <= m < end - p implies #[trigger] b[p + m] == b2[n + p + m] by {
        lemma_byte(b, b2, n, p + m);
        assert(is_digit(b[p + m]));
    }
    lemma_digits_value_same(b, p, end, b2, n + p);
}

proof fn lemma_digits_run(b: Seq<u8>, b2: Seq<u8>, n: int, p: int)
    requires
        stands_in(b, b2, n),
        0 <= p <= b.len(),
    ensures
        digits_end(b2, n + p) == n + digits_end(b, p),
        p <= digits_end(b, p) <= b.len(),
    decreases b.len() - p,
{
    lemma_byte(b, b2, n, p);
    if p < b.len() && is_digit(b[p]) {
        lemma_digits_run(b, b2, n, p + 1);
    }
}

/// A number is read alike.
pub proof fn lemma_number(b: Seq<u8>, b2: Seq<u8>, n: int, p: int)
    requires
        stands_in(b, b2, n),
        0 <= p <= b.len(),
        number_at(b, p) is Some,
    ensures
        number_at(b2, n + p) == Some(
            (number_at(b, p)->Some_0.0, n + number_at(b, p)->Some_0.1),
        ),
{
    lemma_byte(b, b2, n, p);
    let i0 = number_digits(b, p);
    assert(number_digits(b2, n + p) == n + i0);
    lemma_digits(b, b2, n, i0);
    let i1 = digits_end(b, i0);
    lemma_byte(b, b2, n, i1);
    if i1 < b.len() && b[i1] == DOT {
        lemma_digits(b, b2, n, i1 + 1);
        let end = digits_end(b, i1 + 1);
        assert forall|m: int| 0 <= m < end - (i1 + 1) implies #[trigger] b[(i1 + 1) + m] == b2[(n
            + i1 + 1) + m] by {
            assert(b[(i1 + 1) + m] == b2[n + (i1 + 1) + m]);
        }
        lemma_frac_same(b, i1 + 1, end, b2, n + i1 + 1, ONE as int / 10);
    }
}

pub proof fn lemma_past(b: Seq<u8>, b2: Seq<u8>, n: int, p: int, ch: u8)
    requires
        stands_in(b, b2, n),
        0 <= p <= b.len(),
        !is_alpha(ch),
        past(b, p, ch) is Some,
    ensures
        past(b2, n + p, ch) == Some(n + past(b, p, ch)->Some_0),
        p < past(b, p, ch)->Some_0 <= b.len(),
{
    lemma_spaces(b, b2, n, p);
    lemma_byte(b, b2, n, spaces_end(b, p));
}

pub proof fn lemma_row(b: Seq<u8>, b2: Seq<u8>, n: int, p: int)
    requires
        stands_in(b, b2, n),
        0 <= p <= b.len(),
        row_at(b, p) is Some,
    ensures
        row_at(b2, n + p) == Some((row_at(b, p)->Some_0.0, n + row_at(b, p)->Some_0.1)),
        p < row_at(b, p)->Some_0.1 <= b.len(),
{
    lemma_digits(b, b2, n, p);
}

pub proof fn lemma_cell_name(b: Seq<u8>, b2: Seq<u8>, n: int, p: int)
    requires
        stands_in(b, b2, n),
        0 <= p <= b.len(),
        cell_name_at(b, p) is Some,
    ensures
        ({
            let (c, r, q) = cell_name_at(b, p)->Some_0;
            cell_name_at(b2, n + p) == Some((c, r, n + q)) && p < q <= b.len()
        }),
{
    lemma_spaces(b, b2, n, p);
    let q = spaces_end(b, p);
    lemma_byte(b, b2, n, q);
    assert(upper(b[q]) == upper(b2[n + q]));
    lemma_row(b, b2, n, q + 1);
}

pub proof fn lemma_range(b: Seq<u8>, b2: Seq<u8>, n: int, p: int, over: Aggregate)
    requires
        stands_in(b, b2, n),
        0 <= p <= b.len(),
        range_at(b, p, over) is Some,
    ensures
        moved_on(range_at(b, p, over), range_at(b2, n + p, over), n),
        p < range_at(b, p, over)->Some_0.1 <= b.len(),
{
    lemma_cell_name(b, b2, n, p);
    let (ca, ra, q) = cell_name_at(b, p)->Some_0;
    lemma_past(b, b2, n, q, COLON);
    let s = past(b, q, COLON)->Some_0;
    lemma_cell_name(b, b2, n, s);
    let (cb, rb, t) = cell_name_at(b, s)->Some_0;
    lemma_past(b, b2, n, t, RPAREN);
}

/// The same expression, which ends `n` later.
pub open spec fn moved_on(parsed: Option<(Expr, int)>, parsed2: Option<(Expr, int)>, n: int) -> bool {
    parsed matches Some((e, q)) && parsed2 == Some((e, n + q))
}

/// A comparison is read alike, if nothing that goes on with it stands behind.
#[verifier::rlimit(40)]
pub proof fn lemma_comparison(b: Seq<u8>, b2: Seq<u8>, n: int, p: int)
    requires
        stands_in(b, b2, n),
        0 <= p <= b.len(),
        comparison_at(b, p) is Some,
        comparison_at(b, p)->Some_0.1 < b.len() || (no_times(b2, n + b.len()) && no_plus(
            b2,
            n + b.len(),
        ) && no_relation(b2, n + b.len())),
    ensures
        moved_on(comparison_at(b, p), comparison_at(b2, n + p), n),
        p < comparison_at(b, p)->Some_0.1 <= b.len(),
    decreases b.len() - p, 5nat,
{
    lemma_sum(b, b2, n, p);
    let (l, q) = sum_at(b, p)->Some_0;
    lemma_spaces(b, b2, n, q);
    let s = spaces_end(b, q);
    if let Some((rel, t)) = relation_at(b, s) {
        lemma_sum_starts(b, t);
        lemma_relation(b, b2, n, s);
        lemma_sum(b, b2, n, t);
    } else {
        lemma_relation(b, b2, n, s);
    }
}

/// A relation is read alike if something stands behind it, and none where there
/// is none.
proof fn lemma_relation(b: Seq<u8>, b2: Seq<u8>, n: int, s: int)
    requires
        stands_in(b, b2, n),
        0 <= s <= b.len(),
        match relation_at(b, s) {
            Some((rel, t)) => t < b.len() && !is_relation_byte(b[t]),
            None => s < b.len() || no_relation(b2, n + b.len()),
        },
    ensures
        match relation_at(b, s) {
            Some((rel, t)) => relation_at(b2, n + s) == Some((rel, n + t)),
            None => relation_at(b2, n + s) is None,
        },
{
    lemma_byte(b, b2, n, s);
    if s < b.len() {
        lemma_byte(b, b2, n, s + 1);
    }
}

/// A sum starts before the text ends, and not with a relation.
pub proof fn lemma_sum_starts(b: Seq<u8>, p: int)
    requires
        0 <= p,
        p <= b.len(),
        sum_at(b, p) is Some,
    ensures
        p < b.len(),
        !is_relation_byte(b[p]),
{
    lemma_spaces_end(b, p);
    let t = term_at(b, p);
    let f = factor_at(b, p);
    assert(t is Some);
    assert(f is Some);
}

/// A sum is read alike up to where `b` ends, and goes on from there.
pub proof fn lemma_sum(b: Seq<u8>, b2: Seq<u8>, n: int, p: int)
    requires
        stands_in(b, b2, n),
        0 <= p <= b.len(),
        sum_at(b, p) is Some,
        sum_at(b, p)->Some_0.1 < b.len() || no_times(b2, n + b.len()),
    ensures
        ({
            let (e, q) = sum_at(b, p)->Some_0;
            &&& p < q <= b.len()
            &&& sum_at(b2, n + p) == sum_rest(b2, e, n + q)
            &&& q < b.len() || no_plus(b2, n + b.len()) ==> moved_on(
                sum_at(b, p),
                sum_at(b2, n + p),
                n,
            )
        }),
    decreases b.len() - p, 4nat,
{
    let (t, q) = term_at(b, p)->Some_0;
    lemma_term(b, b2, n, p);
    lemma_sum_rest(b, b2, n, t, q);
}

pub proof fn lemma_sum_rest(b: Seq<u8>, b2: Seq<u8>, n: int, acc: Expr, p: int)
    requires
        stands_in(b, b2, n),
        0 <= p <= b.len(),
        sum_rest(b, acc, p) is Some,
        sum_rest(b, acc, p)->Some_0.1 < b.len() || no_times(b2, n + b.len()),
    ensures
        ({
            let (e, q) = sum_rest(b, acc, p)->Some_0;
            &&& p <= q <= b.len()
            &&& sum_rest(b2, acc, n + p) == sum_rest(b2, e, n + q)
            &&& q < b.len() || no_plus(b2, n + b.len()) ==> moved_on(
                sum_rest(b, acc, p),
                sum_rest(b2, acc, n + p),
                n,
            )
        }),
    decreases b.len() - p, 3nat,
{
    lemma_spaces(b, b2, n, p);
    let q = spaces_end(b, p);
    lemma_byte(b, b2, n, q);
    if q < b.len() && (b[q] == PLUS || b[q] == MINUS) {
        let (t, r) = term_at(b, q + 1)->Some_0;
        let op = if b[q] == PLUS {
            Binary::Add
        } else {
            Binary::Sub
        };
        let more = Expr::Two(op, Box::new(acc), Box::new(t));
        lemma_term(b, b2, n, q + 1);
        lemma_sum_rest(b, b2, n, more, r);
    } else {
        lemma_spaces_twice(b, p);
        lemma_spaces(b, b2, n, q);
    }
}

/// A term is read alike up to where `b` ends, and goes on from there.
pub proof fn lemma_term(b: Seq<u8>, b2: Seq<u8>, n: int, p: int)
    requires
        stands_in(b, b2, n),
        0 <= p <= b.len(),
        term_at(b, p) is Some,
    ensures
        ({
            let (e, q) = term_at(b, p)->Some_0;
            &&& p < q <= b.len()
            &&& term_at(b2, n + p) == term_rest(b2, e, n + q)
            &&& q < b.len() || no_times(b2, n + b.len()) ==> moved_on(
                term_at(b, p),
                term_at(b2, n + p),
                n,
            )
        }),
    decreases b.len() - p, 2nat,
{
    lemma_factor(b, b2, n, p);
    let (f, q) = factor_at(b, p)->Some_0;
    lemma_term_rest(b, b2, n, f, q);
}

pub proof fn lemma_term_rest(b: Seq<u8>, b2: Seq<u8>, n: int, acc: Expr, p: int)
    requires
        stands_in(b, b2, n),
        0 <= p <= b.len(),
        term_rest(b, acc, p) is Some,
    ensures
        ({
            let (e, q) = term_rest(b, acc, p)->Some_0;
            &&& p <= q <= b.len()
            &&& term_rest(b2, acc, n + p) == term_rest(b2, e, n + q)
            &&& q < b.len() || no_times(b2, n + b.len()) ==> moved_on(
                term_rest(b, acc, p),
                term_rest(b2, acc, n + p),
                n,
            )
        }),
    decreases b.len() - p, 2nat,
{
    lemma_spaces(b, b2, n, p);
    let q = spaces_end(b, p);
    lemma_byte(b, b2, n, q);
    if q < b.len() && (b[q] == STAR || b[q] == SLASH) {
        let (f, r) = factor_at(b, q + 1)->Some_0;
        let op = if b[q] == STAR {
            Binary::Mul
        } else {
            Binary::Div
        };
        lemma_factor(b, b2, n, q + 1);
        lemma_term_rest(b, b2, n, Expr::Two(op, Box::new(acc), Box::new(f)), r);
    } else {
        lemma_spaces_twice(b, p);
        lemma_spaces(b, b2, n, q);
    }
}

pub proof fn lemma_factor(b: Seq<u8>, b2: Seq<u8>, n: int, p: int)
    requires
        stands_in(b, b2, n),
        0 <= p <= b.len(),
        factor_at(b, p) is Some,
    ensures
        moved_on(factor_at(b, p), factor_at(b2, n + p), n),
        p < factor_at(b, p)->Some_0.1 <= b.len(),
    decreases b.len() - p, 1nat,
{
    lemma_spaces(b, b2, n, p);
    let q = spaces_end(b, p);
    lemma_byte(b, b2, n, q);
    if b[q] == LPAREN {
        lemma_argument(b, b2, n, q + 1, RPAREN);
    } else if b[q] == MINUS || b[q] == PLUS {
        lemma_factor(b, b2, n, q + 1);
    } else if is_digit(b[q]) || b[q] == DOT {
        lemma_number(b, b2, n, q);
        crate::number::lemma_number_at(b, q);
    } else {
        lemma_name(b, b2, n, q);
    }
}

pub proof fn lemma_argument(b: Seq<u8>, b2: Seq<u8>, n: int, p: int, ch: u8)
    requires
        stands_in(b, b2, n),
        0 <= p <= b.len(),
        !is_alpha(ch),
        argument_at(b, p, ch) is Some,
    ensures
        moved_on(argument_at(b, p, ch), argument_at(b2, n + p, ch), n),
        p < argument_at(b, p, ch)->Some_0.1 <= b.len(),
    decreases b.len() - p, 6nat,
{
    let (e, q) = comparison_at(b, p)->Some_0;
    crate::grammar::lemma_comparison(b, p);
    lemma_spaces_end(b, q);
    lemma_comparison(b, b2, n, p);
    lemma_past(b, b2, n, q, ch);
}

/// A word means the same function.
proof fn lemma_word(b: Seq<u8>, b2: Seq<u8>, n: int, p: int, w: int)
    requires
        stands_in(b, b2, n),
        0 <= p <= w <= b.len(),
    ensures
        function_named(b2.subrange(n + p, n + w)) == function_named(b.subrange(p, w)),
{
    let word = b.subrange(p, w);
    let word2 = b2.subrange(n + p, n + w);
    assert forall|i: int| 0 <= i < word.len() implies upper(#[trigger] word[i]) == upper(
        word2[i],
    ) by {
        assert(upper(b[p + i]) == upper(b2[n + (p + i)]));
    }
    assert(upper_all(word) =~= upper_all(word2));
}

/// The call of a function, whose bracket is at `w`, is read alike.
#[verifier::rlimit(40)]
proof fn lemma_call(b: Seq<u8>, b2: Seq<u8>, n: int, p: int, w: int, f: Function)
    requires
        stands_in(b, b2, n),
        0 <= p < w < b.len(),
        w == alphas_end(b, p),
        n + w == alphas_end(b2, n + p),
        b[w] == LPAREN,
        b2[n + w] == LPAREN,
        function_named(b.subrange(p, w)) == Some(f),
        function_named(b2.subrange(n + p, n + w)) == Some(f),
        name_at(b, p) is Some,
    ensures
        moved_on(name_at(b, p), name_at(b2, n + p), n),
        p < name_at(b, p)->Some_0.1 <= b.len(),
    decreases b.len() - w, 0nat,
{
    match f {
        Function::If => {
            lemma_argument(b, b2, n, w + 1, COMMA);
            let (c, q) = argument_at(b, w + 1, COMMA)->Some_0;
            lemma_argument(b, b2, n, q, COMMA);
            let (x, r) = argument_at(b, q, COMMA)->Some_0;
            lemma_argument(b, b2, n, r, RPAREN);
        },
        Function::Mod => {
            lemma_argument(b, b2, n, w + 1, COMMA);
            let (x, q) = argument_at(b, w + 1, COMMA)->Some_0;
            lemma_argument(b, b2, n, q, RPAREN);
        },
        Function::Over(over) => {
            lemma_range(b, b2, n, w + 1, over);
        },
        Function::Abs => {
            lemma_argument(b, b2, n, w + 1, RPAREN);
        },
        Function::Round => {
            lemma_argument(b, b2, n, w + 1, RPAREN);
        },
        Function::Int => {
            lemma_argument(b, b2, n, w + 1, RPAREN);
        },
    }
}

pub proof fn lemma_name(b: Seq<u8>, b2: Seq<u8>, n: int, p: int)
    requires
        stands_in(b, b2, n),
        0 <= p < b.len(),
        is_alpha(b[p]),
        name_at(b, p) is Some,
    ensures
        moved_on(name_at(b, p), name_at(b2, n + p), n),
        p < name_at(b, p)->Some_0.1 <= b.len(),
    decreases b.len() - p, 0nat,
{
    let w = alphas_end(b, p);
    lemma_alphas(b, b2, n, p);
    lemma_alphas_end(b, p + 1);
    assert(w == alphas_end(b, p + 1));
    lemma_byte(b, b2, n, w);
    if w < b.len() && b[w] == LPAREN {
        lemma_word(b, b2, n, p, w);
        let f = function_named(b.subrange(p, w))->Some_0;
        lemma_call(b, b2, n, p, w, f);
    } else {
        assert(upper(b[p]) == upper(b2[n + p]));
        lemma_row(b, b2, n, w);
    }
}

// ---------------------------------------------------------------------------
// Letters in either case
// ---------------------------------------------------------------------------

proof fn lemma_formula_alike(b: Seq<u8>, b2: Seq<u8>)
    requires
        b.len() == b2.len(),
        stands_in(b, b2, 0),
        formula(b) is Some,
    ensures
        formula(b2) == formula(b),
{
    lemma_spaces(b, b2, 0, 0);
    let p = spaces_end(b, 0);
    lemma_comparison(b, b2, 0, p);
    let (e, q) = comparison_at(b, p)->Some_0;
    lemma_spaces(b, b2, 0, q);
}

/// A text and the same text in capitals are worth the same: letter case never
/// changes a result, in function names or in cell references.
pub proof fn law_case_is_ignored(raw: Seq<u8>, vals: Seq<i64>, nums: Seq<bool>)
    ensures
        classified(upper_all(raw), vals, nums) == classified(raw, vals, nums),
{
    let up = upper_all(raw);
    assert(stands_in(raw, up, 0));
    assert(stands_in(up, raw, 0));
    if raw.len() > 0 {
        lemma_byte(raw, up, 0, 0);
        lemma_byte(up, raw, 0, 0);
    }
    if is_formula(raw) {
        let b = raw.subrange(1, raw.len() as int);
        let c = up.subrange(1, up.len() as int);
        assert(stands_in(b, c, 0));
        assert(stands_in(c, b, 0));
        if formula(b) is Some {
            lemma_formula_alike(b, c);
        } else if formula(c) is Some {
            lemma_formula_alike(c, b);
        }
    } else {
        if number_at(raw, 0) is Some {
            lemma_number(raw, up, 0, 0);
        } else if number_at(up, 0) is Some {
            lemma_number(up, raw, 0, 0);
        }
        assert(whole_number(up) == whole_number(raw));
    }
}

// ---------------------------------------------------------------------------
// Comparisons
// ---------------------------------------------------------------------------

/// How a relation is written.
pub open spec fn relation_text(rel: Relation) -> Seq<u8> {
    match rel {
        Relation::Eq => seq![EQUALS],
        Relation::Ne => seq![LESS, GREATER],
        Relation::Lt => seq![LESS],
        Relation::Le => seq![LESS, EQUALS],
        Relation::Gt => seq![GREATER],
        Relation::Ge => seq![GREATER, EQUALS],
    }
}

/// Two texts with a relation between them.
pub open spec fn joined(x: Seq<u8>, rel: Relation, y: Seq<u8>) -> Seq<u8> {
    x + relation_text(rel) + y
}

/// The value of a text that is a sum from end to end, spaces behind it
/// included.
pub open spec fn sum_value(x: Seq<u8>, vals: Seq<i64>, nums: Seq<bool>) -> Option<i64> {
    match sum_at(x, 0) {
        Some((e, q)) => if q == x.len() {
            eval(e, vals, nums)
        } else {
            None
        },
        None => None,
    }
}

/// The value of the comparison at the start of a text.
pub open spec fn comparison_value(b: Seq<u8>, vals: Seq<i64>, nums: Seq<bool>) -> Option<i64> {
    match comparison_at(b, 0) {
        Some((e, q)) => eval(e, vals, nums),
        None => None,
    }
}

/// Two texts with a relation between them stand in the whole, and the relation
/// is read between them.
proof fn lemma_sides(x: Seq<u8>, rel: Relation, y: Seq<u8>)
    requires
        y.len() > 0,
        !is_relation_byte(y[0]),
    ensures
        ({
            let op = relation_text(rel);
            let b = x + op + y;
            &&& b.len() == x.len() + op.len() + y.len()
            &&& stands_in(x, b, 0)
            &&& stands_in(y, b, (x.len() + op.len()) as int)
            &&& spaces_end(b, x.len() as int) == x.len()
            &&& relation_at(b, x.len() as int) == Some((rel, (x.len() + op.len()) as int))
        }),
{
    let op = relation_text(rel);
    let b = x + op + y;
    let s = x.len() as int;
    let n = s + op.len();
    assert(b[s] == op[0]);
    assert(b[n] == y[0]);
    if op.len() == 2 {
        assert(b[s + 1] == op[1]);
    }
    assert forall|i: int| 0 <= i < x.len() implies upper(#[trigger] x[i]) == upper(b[0 + i]) by {
        assert(b[i] == x[i]);
    }
    assert forall|i: int| 0 <= i < y.len() implies upper(#[trigger] y[i]) == upper(b[n + i]) by {
        assert(b[n + i] == y[i]);
    }
}

/// Two sums with a relation between them are one comparison, and a formula.
#[verifier::rlimit(40)]
pub proof fn lemma_joined(x: Seq<u8>, rel: Relation, y: Seq<u8>) -> (e: Expr)
    requires
        sum_at(x, 0) matches Some((l, q)) && q == x.len(),
        sum_at(y, 0) matches Some((r, q)) && q == y.len(),
    ensures
        e == Expr::Two(
            Binary::Compare(rel),
            Box::new(sum_at(x, 0)->Some_0.0),
            Box::new(sum_at(y, 0)->Some_0.0),
        ),
        comparison_at(joined(x, rel, y), 0) == Some((e, joined(x, rel, y).len() as int)),
        formula(joined(x, rel, y)) == Some(e),
{
    let b = joined(x, rel, y);
    let s = x.len() as int;
    let n = s + relation_text(rel).len();
    lemma_sum_starts(y, 0);
    lemma_sides(x, rel, y);
    lemma_sum(x, b, 0, 0);
    lemma_sum(y, b, n, 0);
    let (l, q) = sum_at(x, 0)->Some_0;
    let (r, end) = sum_at(y, 0)->Some_0;
    let e = Expr::Two(Binary::Compare(rel), Box::new(l), Box::new(r));
    assert(comparison_at(b, 0) == Some((e, n + end)));
    lemma_spaces_first(b);
    assert(spaces_end(b, b.len() as int) == b.len());
    e
}

/// Two sums with a relation between them compare as their values do.
pub proof fn lemma_compared(
    x: Seq<u8>,
    rel: Relation,
    y: Seq<u8>,
    vals: Seq<i64>,
    nums: Seq<bool>,
)
    requires
        sum_value(x, vals, nums) is Some,
        sum_value(y, vals, nums) is Some,
    ensures
        ({
            let b = joined(x, rel, y);
            let v = if holds(
                rel,
                sum_value(x, vals, nums)->Some_0,
                sum_value(y, vals, nums)->Some_0,
            ) {
                TRUE_V
            } else {
                0
            };
            &&& comparison_value(b, vals, nums) == Some(v)
            &&& comparison_at(b, 0) matches Some((e, q)) && q == b.len()
            &&& formula_value(b, vals, nums) == Some(v)
        }),
{
    let e = lemma_joined(x, rel, y);
    assert(eval(e, vals, nums) == Some(
        if holds(rel, sum_value(x, vals, nums)->Some_0, sum_value(y, vals, nums)->Some_0) {
            TRUE_V
        } else {
            0
        },
    ));
}

/// Spaces before a comparison make no difference.
pub proof fn lemma_spaces_first(b: Seq<u8>)
    requires
        comparison_at(b, 0) is Some,
    ensures
        comparison_at(b, spaces_end(b, 0)) == comparison_at(b, 0),
{
    let s = spaces_end(b, 0);
    lemma_spaces_end(b, 0);
    lemma_spaces_twice(b, 0);
    assert(stands_in(b, b, 0));
    lemma_sum(b, b, 0, 0);
    lemma_term(b, b, 0, 0);
    lemma_factor(b, b, 0, 0);
    assert(factor_at(b, s) == factor_at(b, 0));
    lemma_factor(b, b, 0, s);
    assert(term_at(b, s) == term_at(b, 0));
    lemma_term(b, b, 0, s);
    assert(sum_at(b, s) == sum_at(b, 0));
    lemma_sum(b, b, 0, s);
}

pub proof fn lemma_spaces_twice(b: Seq<u8>, p: int)
    ensures
        spaces_end(b, spaces_end(b, p)) == spaces_end(b, p),
    decreases b.len() - p,
{
    if 0 <= p < b.len() && b[p] == SPACE {
        lemma_spaces_twice(b, p + 1);
    }
}

/// A comparison of two sums, which takes the whole text, is one or zero; `<`
/// and `>=`, `<=` and `>`, `=` and `<>` are each other's opposites; `<=` is `<`
/// or `=`. The same holds of the text as a formula, and of a cell with it.
pub proof fn law_relations_complement(
    x: Seq<u8>,
    y: Seq<u8>,
    vals: Seq<i64>,
    nums: Seq<bool>,
)
    requires
        sum_value(x, vals, nums) is Some,
        sum_value(y, vals, nums) is Some,
    ensures
        ({
            let c = |rel: Relation| comparison_value(joined(x, rel, y), vals, nums);
            &&& forall|rel: Relation| #[trigger] c(rel) == Some(0i64) || c(rel) == Some(ONE)
            &&& c(Relation::Lt)->Some_0 + c(Relation::Ge)->Some_0 == ONE
            &&& c(Relation::Le)->Some_0 + c(Relation::Gt)->Some_0 == ONE
            &&& c(Relation::Eq)->Some_0 + c(Relation::Ne)->Some_0 == ONE
            &&& c(Relation::Le) == Some(ONE) <==> c(Relation::Lt) == Some(ONE) || c(Relation::Eq)
                == Some(ONE)
        }),
        forall|rel: Relation|
            {
                let b = #[trigger] joined(x, rel, y);
                let v = comparison_value(b, vals, nums);
                &&& comparison_at(b, 0) matches Some((e, q)) && q == b.len()
                &&& formula_value(b, vals, nums) == v
                &&& classified(seq![EQUALS] + b, vals, nums) == (v->Some_0, Kind::Num)
            },
{
    assert forall|rel: Relation|
        {
            let b = #[trigger] joined(x, rel, y);
            let v = comparison_value(b, vals, nums);
            &&& v == Some(
                if holds(rel, sum_value(x, vals, nums)->Some_0, sum_value(y, vals, nums)->Some_0) {
                    TRUE_V
                } else {
                    0
                },
            )
            &&& comparison_at(b, 0) matches Some((e, q)) && q == b.len()
            &&& formula_value(b, vals, nums) == v
            &&& classified(seq![EQUALS] + b, vals, nums) == (v->Some_0, Kind::Num)
        } by {
        lemma_compared(x, rel, y, vals, nums);
        let b = joined(x, rel, y);
        let raw = seq![EQUALS] + b;
        assert(raw.subrange(1, raw.len() as int) =~= b);
    }
}

} // verus!
