//! What holds of every formula that parses.

use vstd::prelude::*;

use crate::ascii::{
    alphas_end, digits_end, digits_value, is_alpha, is_digit, lemma_alphas_end, lemma_digits_end,
    lemma_digits_value_nonneg, lemma_spaces_end, spaces_end, COLON, COMMA, DOT, LPAREN, MINUS, PLUS,
    RPAREN, SLASH, STAR,
};
use crate::formula::{
    argument_at, cell_name_at, classified, comparison_at, factor_at, formula, function_named,
    is_formula, name_at, past, range_at, reads, relation_at, row_at, sum_at, sum_rest, term_at,
    term_rest, text_reads, Aggregate, Binary, Expr, Function,
};
use crate::grid::{lemma_rect_cells_on_grid, on_grid, rect_cells, Kind, COLS, NCELLS, ROWS};
use crate::number::{lemma_number_at, number_at, number_digits};

verus! {

/// Every cell and every range that an expression names lies on the grid.
pub open spec fn names_grid(e: Expr) -> bool
    decreases e,
{
    match e {
        Expr::Number(_) => true,
        Expr::Cell { col, row } => on_grid(col, row),
        Expr::One(_, a) => names_grid(*a),
        Expr::Two(_, a, b) => names_grid(*a) && names_grid(*b),
        Expr::If(c, a, b) => names_grid(*c) && names_grid(*a) && names_grid(*b),
        Expr::Range { over, c0, r0, c1, r1 } => 0 <= c0 <= c1 < COLS && 0 <= r0 <= r1 < ROWS,
    }
}

/// Whether a reference to row zero starts at `i`: a letter that no letter
/// stands before, with digits behind it that spell zero.
pub open spec fn names_row_zero(b: Seq<u8>, i: int) -> bool {
    &&& 0 <= i
    &&& i + 1 < b.len()
    &&& is_alpha(b[i])
    &&& i == 0 || !is_alpha(b[i - 1])
    &&& is_digit(b[i + 1])
    &&& digits_value(b, i + 1, digits_end(b, i + 1)) == 0
}

/// No reference to row zero starts in `b[p..q]`.
pub open spec fn rows_named(b: Seq<u8>, p: int, q: int) -> bool {
    forall|i: int| p <= i < q ==> !#[trigger] names_row_zero(b, i)
}

pub open spec fn sound(b: Seq<u8>, p: int, parsed: Option<(Expr, int)>) -> bool {
    parsed matches Some((e, q)) ==> p < q <= b.len() && names_grid(e) && rows_named(b, p, q)
}

proof fn lemma_spaces(b: Seq<u8>, p: int)
    requires
        0 <= p <= b.len(),
    ensures
        p <= spaces_end(b, p) <= b.len(),
        rows_named(b, p, spaces_end(b, p)),
{
    lemma_spaces_end(b, p);
}

proof fn lemma_past(b: Seq<u8>, p: int, ch: u8)
    requires
        0 <= p <= b.len(),
        !is_alpha(ch),
    ensures
        past(b, p, ch) matches Some(q) ==> p < q <= b.len() && rows_named(b, p, q),
{
    lemma_spaces(b, p);
}

proof fn lemma_number(b: Seq<u8>, p: int)
    requires
        0 <= p <= b.len(),
    ensures
        number_at(b, p) matches Some((v, q)) ==> p < q <= b.len() && rows_named(b, p, q),
{
    lemma_number_at(b, p);
    let i0 = number_digits(b, p);
    lemma_digits_end(b, i0);
    let i1 = digits_end(b, i0);
    if i1 < b.len() {
        lemma_digits_end(b, i1 + 1);
    }
}

/// A row number behind a letter at `p`.
proof fn lemma_row(b: Seq<u8>, p: int)
    requires
        0 <= p < b.len(),
    ensures
        row_at(b, p + 1) matches Some((row, q)) ==> p + 1 < q <= b.len() && row >= 0 && rows_named(
            b,
            p,
            q,
        ),
{
    lemma_digits_end(b, p + 1);
    let q = digits_end(b, p + 1);
    lemma_digits_value_nonneg(b, p + 1, q);
    assert forall|i: int| p <= i < q && row_at(b, p + 1) is Some implies !#[trigger] names_row_zero(
        b,
        i,
    ) by {
        if i > p {
            assert(is_digit(b[i]));
        }
    }
}

proof fn lemma_cell_name(b: Seq<u8>, p: int)
    requires
        0 <= p <= b.len(),
    ensures
        cell_name_at(b, p) matches Some((col, row, q)) ==> p < q <= b.len() && on_grid(col, row)
            && rows_named(b, p, q),
{
    lemma_spaces(b, p);
    let q = spaces_end(b, p);
    if q < b.len() {
        lemma_row(b, q);
    }
}

proof fn lemma_range(b: Seq<u8>, p: int, over: Aggregate)
    requires
        0 <= p <= b.len(),
    ensures
        sound(b, p, range_at(b, p, over)),
{
    lemma_cell_name(b, p);
    if let Some((ca, ra, q)) = cell_name_at(b, p) {
        lemma_past(b, q, COLON);
        if let Some(s) = past(b, q, COLON) {
            lemma_cell_name(b, s);
            if let Some((cb, rb, t)) = cell_name_at(b, s) {
                lemma_past(b, t, RPAREN);
            }
        }
    }
}

/// A comparison ends within the text, and names the grid alone.
pub proof fn lemma_comparison(b: Seq<u8>, p: int)
    requires
        0 <= p <= b.len(),
    ensures
        sound(b, p, comparison_at(b, p)),
    decreases b.len() - p, 5nat,
{
    lemma_sum(b, p);
    if let Some((l, q)) = sum_at(b, p) {
        lemma_spaces(b, q);
        let s = spaces_end(b, q);
        if let Some((rel, t)) = relation_at(b, s) {
            lemma_sum(b, t);
            assert(rows_named(b, s, t));
        }
    }
}

proof fn lemma_sum(b: Seq<u8>, p: int)
    requires
        0 <= p <= b.len(),
    ensures
        sound(b, p, sum_at(b, p)),
    decreases b.len() - p, 4nat,
{
    lemma_term(b, p);
    if let Some((t, q)) = term_at(b, p) {
        lemma_sum_rest(b, t, q, p);
    }
}

proof fn lemma_sum_rest(b: Seq<u8>, acc: Expr, p: int, start: int)
    requires
        0 <= start < p <= b.len(),
        names_grid(acc),
        rows_named(b, start, p),
    ensures
        sound(b, start, sum_rest(b, acc, p)),
    decreases b.len() - p, 3nat,
{
    lemma_spaces(b, p);
    let q = spaces_end(b, p);
    if q < b.len() && (b[q] == PLUS || b[q] == MINUS) {
        lemma_term(b, q + 1);
        if let Some((t, r)) = term_at(b, q + 1) {
            let op = if b[q] == PLUS {
                Binary::Add
            } else {
                Binary::Sub
            };
            lemma_sum_rest(b, Expr::Two(op, Box::new(acc), Box::new(t)), r, start);
        }
    }
}

proof fn lemma_term(b: Seq<u8>, p: int)
    requires
        0 <= p <= b.len(),
    ensures
        sound(b, p, term_at(b, p)),
    decreases b.len() - p, 2nat,
{
    lemma_factor(b, p);
    if let Some((f, q)) = factor_at(b, p) {
        lemma_term_rest(b, f, q, p);
    }
}

proof fn lemma_term_rest(b: Seq<u8>, acc: Expr, p: int, start: int)
    requires
        0 <= start < p <= b.len(),
        names_grid(acc),
        rows_named(b, start, p),
    ensures
        sound(b, start, term_rest(b, acc, p)),
    decreases b.len() - p, 2nat,
{
    lemma_spaces(b, p);
    let q = spaces_end(b, p);
    if q < b.len() && (b[q] == STAR || b[q] == SLASH) {
        lemma_factor(b, q + 1);
        if let Some((f, r)) = factor_at(b, q + 1) {
            let op = if b[q] == STAR {
                Binary::Mul
            } else {
                Binary::Div
            };
            lemma_term_rest(b, Expr::Two(op, Box::new(acc), Box::new(f)), r, start);
        }
    }
}

proof fn lemma_factor(b: Seq<u8>, p: int)
    requires
        0 <= p <= b.len(),
    ensures
        sound(b, p, factor_at(b, p)),
    decreases b.len() - p, 1nat,
{
    lemma_spaces(b, p);
    let q = spaces_end(b, p);
    if q < b.len() {
        if b[q] == LPAREN {
            lemma_argument(b, q + 1, RPAREN);
        } else if b[q] == MINUS || b[q] == PLUS {
            lemma_factor(b, q + 1);
        } else if is_digit(b[q]) || b[q] == DOT {
            lemma_number(b, q);
        } else if is_alpha(b[q]) {
            lemma_name(b, q);
        }
    }
}

proof fn lemma_argument(b: Seq<u8>, p: int, ch: u8)
    requires
        0 <= p <= b.len(),
        !is_alpha(ch),
    ensures
        sound(b, p, argument_at(b, p, ch)),
    decreases b.len() - p, 6nat,
{
    lemma_comparison(b, p);
    if let Some((e, q)) = comparison_at(b, p) {
        lemma_past(b, q, ch);
    }
}

proof fn lemma_name(b: Seq<u8>, p: int)
    requires
        0 <= p < b.len(),
        is_alpha(b[p]),
    ensures
        sound(b, p, name_at(b, p)),
    decreases b.len() - p, 0nat,
{
    let w = alphas_end(b, p);
    lemma_alphas_end(b, p);
    assert(w > p) by {
        assert(alphas_end(b, p) == alphas_end(b, p + 1));
        lemma_alphas_end(b, p + 1);
    }
    if w < b.len() && b[w] == LPAREN {
        assert(rows_named(b, p, w + 1)) by {
            assert forall|i: int| p <= i < w + 1 implies !#[trigger] names_row_zero(b, i) by {
                if i + 1 < w {
                    assert(is_alpha(b[i + 1]));
                }
            }
        }
        match function_named(b.subrange(p, w)) {
            None => {},
            Some(Function::If) => {
                lemma_argument(b, w + 1, COMMA);
                if let Some((c, q)) = argument_at(b, w + 1, COMMA) {
                    lemma_argument(b, q, COMMA);
                    if let Some((x, r)) = argument_at(b, q, COMMA) {
                        lemma_argument(b, r, RPAREN);
                    }
                }
            },
            Some(Function::Abs) => {
                lemma_argument(b, w + 1, RPAREN);
            },
            Some(Function::Round) => {
                lemma_argument(b, w + 1, RPAREN);
            },
            Some(Function::Int) => {
                lemma_argument(b, w + 1, RPAREN);
            },
            Some(Function::Mod) => {
                lemma_argument(b, w + 1, COMMA);
                if let Some((x, q)) = argument_at(b, w + 1, COMMA) {
                    lemma_argument(b, q, RPAREN);
                }
            },
            Some(Function::Over(over)) => {
                lemma_range(b, w + 1, over);
            },
        }
    } else {
        lemma_row(b, p);
    }
}

/// A formula names only cells of the grid, and no row zero.
pub proof fn law_formula_names_grid(b: Seq<u8>)
    ensures
        formula(b) matches Some(e) ==> names_grid(e) && rows_named(b, 0, b.len() as int),
{
    lemma_spaces(b, 0);
    let p = spaces_end(b, 0);
    lemma_comparison(b, p);
    if let Some((e, q)) = comparison_at(b, p) {
        lemma_spaces(b, q);
    }
}

/// A formula in which a reference names row zero, as it does after its row or
/// column was deleted, is an error.
pub proof fn law_row_zero_is_error(raw: Seq<u8>, i: int, vals: Seq<i64>, nums: Seq<bool>)
    requires
        is_formula(raw),
        names_row_zero(raw, i),
    ensures
        classified(raw, vals, nums) == (0i64, Kind::Error),
{
    let b = raw.subrange(1, raw.len() as int);
    law_formula_names_grid(b);
    assert(i >= 1);
    assert(b[i - 1] == raw[i]);
    assert(b[i] == raw[i + 1]);
    if i >= 2 {
        assert(b[i - 2] == raw[i - 1]);
    }
    lemma_tail_digits(raw, i + 1);
    assert(names_row_zero(b, i - 1));
}

/// The digits behind the first byte spell the same number without that byte.
pub proof fn lemma_tail_digits(raw: Seq<u8>, p: int)
    requires
        1 <= p <= raw.len(),
    ensures
        ({
            let b = raw.subrange(1, raw.len() as int);
            &&& digits_end(b, p - 1) == digits_end(raw, p) - 1
            &&& digits_value(b, p - 1, digits_end(b, p - 1)) == digits_value(
                raw,
                p,
                digits_end(raw, p),
            )
        }),
{
    let b = raw.subrange(1, raw.len() as int);
    lemma_tail_digits_end(raw, p);
    lemma_digits_end(raw, p);
    let end = digits_end(raw, p);
    assert forall|m: int| 0 <= m < end - p implies #[trigger] raw[p + m] == b[p - 1 + m] by {}
    crate::ascii::lemma_digits_value_same(raw, p, end, b, p - 1);
}

proof fn lemma_tail_digits_end(raw: Seq<u8>, p: int)
    requires
        1 <= p <= raw.len(),
    ensures
        digits_end(raw.subrange(1, raw.len() as int), p - 1) == digits_end(raw, p) - 1,
    decreases raw.len() - p,
{
    if p < raw.len() && is_digit(raw[p]) {
        assert(raw.subrange(1, raw.len() as int)[p - 1] == raw[p]);
        lemma_tail_digits_end(raw, p + 1);
    } else if p < raw.len() {
        assert(raw.subrange(1, raw.len() as int)[p - 1] == raw[p]);
    }
}

/// An expression that names the grid reads no cell outside it.
pub proof fn lemma_reads_grid(e: Expr, i: int)
    requires
        names_grid(e),
        reads(e, i),
    ensures
        0 <= i < NCELLS,
    decreases e,
{
    match e {
        Expr::Number(_) => {},
        Expr::Cell { col, row } => {},
        Expr::One(_, a) => {
            lemma_reads_grid(*a, i);
        },
        Expr::Two(_, a, b) => {
            if reads(*a, i) {
                lemma_reads_grid(*a, i);
            } else {
                lemma_reads_grid(*b, i);
            }
        },
        Expr::If(c, a, b) => {
            if reads(*c, i) {
                lemma_reads_grid(*c, i);
            } else if reads(*a, i) {
                lemma_reads_grid(*a, i);
            } else {
                lemma_reads_grid(*b, i);
            }
        },
        Expr::Range { over, c0, r0, c1, r1 } => {
            lemma_rect_cells_on_grid(c0, r0, c1, r1);
            let cells = rect_cells(c0, r0, c1, r1);
            let k = choose|k: int| 0 <= k < cells.len() && cells[k] == i;
            assert(cells[k] == i);
        },
    }
}

/// A cell's text reads cells of the grid alone.
pub proof fn law_text_reads_grid(raw: Seq<u8>, i: int)
    requires
        text_reads(raw, i),
    ensures
        0 <= i < NCELLS,
{
    let b = raw.subrange(1, raw.len() as int);
    law_formula_names_grid(b);
    lemma_reads_grid(formula(b)->Some_0, i);
}

} // verus!
