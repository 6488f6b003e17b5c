//! Formulas: their grammar, their meaning, and the evaluator.
//!
//! ```text
//! comparison := sum (('=' | '<' | '>' | '<=' | '>=' | '<>') sum)?
//! sum        := term (('+' | '-') term)*
//! term       := factor (('*' | '/') factor)*
//! factor     := number | cell | call | '(' comparison ')' | ('-' | '+') factor
//! call       := (SUM|AVG|MIN|MAX|COUNT) '(' cell ':' cell ')'
//!             | (ABS|ROUND|INT) '(' comparison ')'
//!             | MOD '(' comparison ',' comparison ')'
//!             | IF '(' comparison ',' comparison ',' comparison ')'
//! cell       := [A-Z][0-9]+
//! ```
//!
//! Names and references are read in either case. All values are scaled by
//! `ONE`; a comparison is worth one or zero, and `IF` takes anything but zero
//! as true.

use vstd::prelude::*;

use crate::ascii::{
    alphas_end, bytes_of, digits_end, digits_value, is_alpha, is_ascii_alphabetic, is_ascii_digit,
    is_digit, lemma_alphas_end, lemma_digits_end, lemma_digits_value_nonneg, lemma_spaces_end,
    read_row_number, row_number, skip_alphas, spaces_end, str_bytes, to_ascii_uppercase, upper,
    upper_all, COLON, COMMA, DOT, EQUALS, GREATER, LESS, LPAREN, MINUS, PLUS, ROW_NUMBER_MAX,
    RPAREN, SLASH, SPACE, STAR, UPPER_A,
};
use crate::fixed::{
    fdiv, fint, fit, floor_whole, fmod, fmul, magnitude, nearest_whole, product, quotient,
    remainder, round_int, signed, ONE, TRUE_V,
};
use crate::grid::{
    idx, index_of, least_of, lemma_row_cells_push, max_of, min_of, most_of, on_grid, rect_cells,
    row_cells, Kind, COLS, NCELLS, ROWS,
};
use crate::number::{lemma_number_at, number_at, parse_number_full, read_number, whole_number};

verus! {

/// A comparison of two values.
#[derive(Copy, Clone, PartialEq, Eq, Structural)]
pub enum Relation {
    Eq,
    Ne,
    Lt,
    Le,
    Gt,
    Ge,
}

/// A function over a range of cells.
#[derive(Copy, Clone, PartialEq, Eq, Structural)]
pub enum Aggregate {
    Sum,
    Avg,
    Min,
    Max,
    Count,
}

/// A function that a formula can call.
#[derive(Copy, Clone, PartialEq, Eq, Structural)]
pub enum Function {
    If,
    Abs,
    Round,
    Int,
    Mod,
    Over(Aggregate),
}

/// An operation on one value.
pub enum Unary {
    Neg,
    Abs,
    Round,
    Int,
}

/// An operation on two values.
pub enum Binary {
    Add,
    Sub,
    Mul,
    Div,
    Mod,
    Compare(Relation),
}

/// What a formula says.
pub enum Expr {
    Number(i64),
    Cell { col: int, row: int },
    One(Unary, Box<Expr>),
    Two(Binary, Box<Expr>, Box<Expr>),
    If(Box<Expr>, Box<Expr>, Box<Expr>),
    Range { over: Aggregate, c0: int, r0: int, c1: int, r1: int },
}

// ---------------------------------------------------------------------------
// Meaning
// ---------------------------------------------------------------------------

/// Whether two values stand in a relation.
pub open spec fn holds(rel: Relation, a: i64, b: i64) -> bool {
    match rel {
        Relation::Eq => a == b,
        Relation::Ne => a != b,
        Relation::Lt => a < b,
        Relation::Le => a <= b,
        Relation::Gt => a > b,
        Relation::Ge => a >= b,
    }
}

pub open spec fn unary_value(op: Unary, a: i64) -> Option<i64> {
    match op {
        Unary::Neg => fit(-a),
        Unary::Abs => fit(magnitude(a as int)),
        Unary::Round => nearest_whole(a as int),
        Unary::Int => floor_whole(a as int),
    }
}

pub open spec fn binary_value(op: Binary, a: i64, b: i64) -> Option<i64> {
    match op {
        Binary::Add => fit(a + b),
        Binary::Sub => fit(a - b),
        Binary::Mul => product(a as int, b as int),
        Binary::Div => quotient(a as int, b as int),
        Binary::Mod => remainder(a as int, b as int),
        Binary::Compare(rel) => Some(
            if holds(rel, a, b) {
                TRUE_V
            } else {
                0
            },
        ),
    }
}

/// The sum of the cells in order; none as soon as a partial sum does not fit.
pub open spec fn total(cells: Seq<int>, vals: Seq<i64>) -> Option<i64>
    decreases cells.len(),
{
    if cells.len() == 0 {
        Some(0)
    } else {
        match total(cells.drop_last(), vals) {
            Some(s) => fit(s + vals[cells.last()]),
            None => None,
        }
    }
}

pub open spec fn smallest(cells: Seq<int>, vals: Seq<i64>) -> i64
    decreases cells.len(),
{
    if cells.len() == 0 {
        i64::MAX
    } else {
        let s = smallest(cells.drop_last(), vals);
        let v = vals[cells.last()];
        if v < s {
            v
        } else {
            s
        }
    }
}

pub open spec fn largest(cells: Seq<int>, vals: Seq<i64>) -> i64
    decreases cells.len(),
{
    if cells.len() == 0 {
        i64::MIN
    } else {
        let s = largest(cells.drop_last(), vals);
        let v = vals[cells.last()];
        if v > s {
            v
        } else {
            s
        }
    }
}

/// How many of the cells hold a number.
pub open spec fn numeric_count(cells: Seq<int>, nums: Seq<bool>) -> nat
    decreases cells.len(),
{
    if cells.len() == 0 {
        0
    } else {
        numeric_count(cells.drop_last(), nums) + if nums[cells.last()] {
            1nat
        } else {
            0
        }
    }
}

/// A function over cells. Whatever the function, the cells must have a sum.
pub open spec fn aggregate_value(
    over: Aggregate,
    cells: Seq<int>,
    vals: Seq<i64>,
    nums: Seq<bool>,
) -> Option<i64> {
    match total(cells, vals) {
        None => None,
        Some(sum) => match over {
            Aggregate::Sum => Some(sum),
            Aggregate::Avg => if cells.len() == 0 {
                None
            } else {
                Some(signed(sum < 0, magnitude(sum as int) / cells.len() as int) as i64)
            },
            Aggregate::Min => Some(smallest(cells, vals)),
            Aggregate::Max => Some(largest(cells, vals)),
            Aggregate::Count => fit(numeric_count(cells, nums) * ONE),
        },
    }
}

/// The value of an expression, given every cell's value and which cells hold
/// a number. None if any part has no value: `IF` needs both of its branches.
pub open spec fn eval(e: Expr, vals: Seq<i64>, nums: Seq<bool>) -> Option<i64>
    decreases e,
{
    match e {
        Expr::Number(v) => Some(v),
        Expr::Cell { col, row } => Some(vals[index_of(col, row)]),
        Expr::One(op, a) => match eval(*a, vals, nums) {
            Some(x) => unary_value(op, x),
            None => None,
        },
        Expr::Two(op, a, b) => match (eval(*a, vals, nums), eval(*b, vals, nums)) {
            (Some(x), Some(y)) => binary_value(op, x, y),
            _ => None,
        },
        Expr::If(c, a, b) => match (
            eval(*c, vals, nums),
            eval(*a, vals, nums),
            eval(*b, vals, nums),
        ) {
            (Some(x), Some(y), Some(z)) => Some(
                if x != 0 {
                    y
                } else {
                    z
                },
            ),
            _ => None,
        },
        Expr::Range { over, c0, r0, c1, r1 } => aggregate_value(
            over,
            rect_cells(c0, r0, c1, r1),
            vals,
            nums,
        ),
    }
}

/// Whether an expression names cell `i`.
pub open spec fn reads(e: Expr, i: int) -> bool
    decreases e,
{
    match e {
        Expr::Number(_) => false,
        Expr::Cell { col, row } => i == index_of(col, row),
        Expr::One(_, a) => reads(*a, i),
        Expr::Two(_, a, b) => reads(*a, i) || reads(*b, i),
        Expr::If(c, a, b) => reads(*c, i) || reads(*a, i) || reads(*b, i),
        Expr::Range { over, c0, r0, c1, r1 } => rect_cells(c0, r0, c1, r1).contains(i),
    }
}

// ---------------------------------------------------------------------------
// Grammar
// ---------------------------------------------------------------------------

pub open spec fn advances(b: Seq<u8>, p: int, q: int) -> bool {
    p < q <= b.len()
}

/// Past the byte `ch`, which may stand behind spaces.
pub open spec fn past(b: Seq<u8>, p: int, ch: u8) -> Option<int> {
    let q = spaces_end(b, p);
    if 0 <= q < b.len() && b[q] == ch {
        Some(q + 1)
    } else {
        None
    }
}

/// The relation written at `q`, and where it ends.
pub open spec fn relation_at(b: Seq<u8>, q: int) -> Option<(Relation, int)> {
    if !(0 <= q < b.len()) {
        None
    } else if b[q] == EQUALS {
        Some((Relation::Eq, q + 1))
    } else if b[q] == LESS {
        if q + 1 < b.len() && b[q + 1] == EQUALS {
            Some((Relation::Le, q + 2))
        } else if q + 1 < b.len() && b[q + 1] == GREATER {
            Some((Relation::Ne, q + 2))
        } else {
            Some((Relation::Lt, q + 1))
        }
    } else if b[q] == GREATER {
        if q + 1 < b.len() && b[q + 1] == EQUALS {
            Some((Relation::Ge, q + 2))
        } else {
            Some((Relation::Gt, q + 1))
        }
    } else {
        None
    }
}

/// The 0-based row of the 1-based row number at `p`, and where it ends.
pub open spec fn row_at(b: Seq<u8>, p: int) -> Option<(int, int)> {
    let q = digits_end(b, p);
    if q > p && digits_value(b, p, q) != 0 {
        Some((row_number(b, p, q) - 1, q))
    } else {
        None
    }
}

/// The column of a letter.
pub open spec fn column(letter: u8) -> int {
    upper(letter) - UPPER_A
}

/// The cell named at `p`, behind spaces, and where its name ends.
pub open spec fn cell_name_at(b: Seq<u8>, p: int) -> Option<(int, int, int)> {
    let q = spaces_end(b, p);
    if 0 <= q < b.len() && is_alpha(b[q]) {
        match row_at(b, q + 1) {
            Some((row, end)) => if row < ROWS {
                Some((column(b[q]), row, end))
            } else {
                None
            },
            None => None,
        }
    } else {
        None
    }
}

/// The function with that name, in either case.
pub open spec fn function_named(word: Seq<u8>) -> Option<Function> {
    let w = upper_all(word);
    if w == bytes_of("IF") {
        Some(Function::If)
    } else if w == bytes_of("ABS") {
        Some(Function::Abs)
    } else if w == bytes_of("ROUND") {
        Some(Function::Round)
    } else if w == bytes_of("INT") {
        Some(Function::Int)
    } else if w == bytes_of("MOD") {
        Some(Function::Mod)
    } else if w == bytes_of("SUM") {
        Some(Function::Over(Aggregate::Sum))
    } else if w == bytes_of("AVG") {
        Some(Function::Over(Aggregate::Avg))
    } else if w == bytes_of("MIN") {
        Some(Function::Over(Aggregate::Min))
    } else if w == bytes_of("MAX") {
        Some(Function::Over(Aggregate::Max))
    } else if w == bytes_of("COUNT") {
        Some(Function::Over(Aggregate::Count))
    } else {
        None
    }
}

/// A range `cell : cell )` at `p`, its corners put in order.
pub open spec fn range_at(b: Seq<u8>, p: int, over: Aggregate) -> Option<(Expr, int)> {
    match cell_name_at(b, p) {
        None => None,
        Some((ca, ra, q)) => match past(b, q, COLON) {
            None => None,
            Some(s) => match cell_name_at(b, s) {
                None => None,
                Some((cb, rb, t)) => match past(b, t, RPAREN) {
                    None => None,
                    Some(end) => Some(
                        (
                            Expr::Range {
                                over,
                                c0: least_of(ca, cb),
                                r0: least_of(ra, rb),
                                c1: most_of(ca, cb),
                                r1: most_of(ra, rb),
                            },
                            end,
                        ),
                    ),
                },
            },
        },
    }
}

/// A comparison at `p`: what it says and where it ends.
pub open spec fn comparison_at(b: Seq<u8>, p: int) -> Option<(Expr, int)>
    decreases b.len() - p, 5nat,
    when 0 <= p <= b.len()
{
    match sum_at(b, p) {
        None => None,
        Some((l, q)) => if !advances(b, p, q) {
            None
        } else {
            let s = spaces_end(b, q);
            proof {
                lemma_spaces_end(b, q);
            }
            match relation_at(b, s) {
                None => Some((l, s)),
                Some((rel, t)) => match sum_at(b, t) {
                    None => None,
                    Some((r, end)) => Some(
                        (Expr::Two(Binary::Compare(rel), Box::new(l), Box::new(r)), end),
                    ),
                },
            }
        },
    }
}

pub open spec fn sum_at(b: Seq<u8>, p: int) -> Option<(Expr, int)>
    decreases b.len() - p, 4nat,
    when 0 <= p <= b.len()
{
    match term_at(b, p) {
        None => None,
        Some((t, q)) => if advances(b, p, q) {
            sum_rest(b, t, q)
        } else {
            None
        },
    }
}

/// The rest of a sum whose terms up to `p` are `acc`.
pub open spec fn sum_rest(b: Seq<u8>, acc: Expr, p: int) -> Option<(Expr, int)>
    decreases b.len() - p, 3nat,
    when 0 <= p <= b.len()
{
    let q = spaces_end(b, p);
    proof {
        lemma_spaces_end(b, p);
    }
    if q < b.len() && (b[q] == PLUS || b[q] == MINUS) {
        match term_at(b, q + 1) {
            None => None,
            Some((t, r)) => if advances(b, q, r) {
                let op = if b[q] == PLUS {
                    Binary::Add
                } else {
                    Binary::Sub
                };
                sum_rest(b, Expr::Two(op, Box::new(acc), Box::new(t)), r)
            } else {
                None
            },
        }
    } else {
        Some((acc, q))
    }
}

pub open spec fn term_at(b: Seq<u8>, p: int) -> Option<(Expr, int)>
    decreases b.len() - p, 2nat,
    when 0 <= p <= b.len()
{
    match factor_at(b, p) {
        None => None,
        Some((f, q)) => if advances(b, p, q) {
            term_rest(b, f, q)
        } else {
            None
        },
    }
}

/// The rest of a term whose factors up to `p` are `acc`.
pub open spec fn term_rest(b: Seq<u8>, acc: Expr, p: int) -> Option<(Expr, int)>
    decreases b.len() - p, 2nat,
    when 0 <= p <= b.len()
{
    let q = spaces_end(b, p);
    proof {
        lemma_spaces_end(b, p);
    }
    if q < b.len() && (b[q] == STAR || b[q] == SLASH) {
        match factor_at(b, q + 1) {
            None => None,
            Some((f, r)) => if advances(b, q, r) {
                let op = if b[q] == STAR {
                    Binary::Mul
                } else {
                    Binary::Div
                };
                term_rest(b, Expr::Two(op, Box::new(acc), Box::new(f)), r)
            } else {
                None
            },
        }
    } else {
        Some((acc, q))
    }
}

pub open spec fn factor_at(b: Seq<u8>, p: int) -> Option<(Expr, int)>
    decreases b.len() - p, 1nat,
    when 0 <= p <= b.len()
{
    let q = spaces_end(b, p);
    proof {
        lemma_spaces_end(b, p);
    }
    if q >= b.len() {
        None
    } else if b[q] == LPAREN {
        argument_at(b, q + 1, RPAREN)
    } else if b[q] == MINUS {
        match factor_at(b, q + 1) {
            Some((f, end)) => Some((Expr::One(Unary::Neg, Box::new(f)), end)),
            None => None,
        }
    } else if b[q] == PLUS {
        factor_at(b, q + 1)
    } else if is_digit(b[q]) || b[q] == DOT {
        match number_at(b, q) {
            Some((v, end)) => Some((Expr::Number(v), end)),
            None => None,
        }
    } else if is_alpha(b[q]) {
        name_at(b, q)
    } else {
        None
    }
}

/// A comparison at `p` and the byte `ch` that closes it.
pub open spec fn argument_at(b: Seq<u8>, p: int, ch: u8) -> Option<(Expr, int)>
    decreases b.len() - p, 6nat,
    when 0 <= p <= b.len()
{
    match comparison_at(b, p) {
        None => None,
        Some((e, q)) => match past(b, q, ch) {
            Some(end) => Some((e, end)),
            None => None,
        },
    }
}

/// A word at `p`: the call of a function, or a single letter that names a
/// cell.
pub open spec fn name_at(b: Seq<u8>, p: int) -> Option<(Expr, int)>
    decreases b.len() - p, 0nat,
    when 0 <= p <= b.len()
{
    let w = alphas_end(b, p);
    proof {
        lemma_alphas_end(b, p);
    }
    if w < b.len() && b[w] == LPAREN {
        match function_named(b.subrange(p, w)) {
            None => None,
            Some(Function::If) => match argument_at(b, w + 1, COMMA) {
                None => None,
                Some((c, q)) => if !advances(b, w, q) {
                    None
                } else {
                    match argument_at(b, q, COMMA) {
                        None => None,
                        Some((x, r)) => if !advances(b, w, r) {
                            None
                        } else {
                            match argument_at(b, r, RPAREN) {
                                None => None,
                                Some((y, end)) => Some(
                                    (Expr::If(Box::new(c), Box::new(x), Box::new(y)), end),
                                ),
                            }
                        },
                    }
                },
            },
            Some(Function::Abs) => match argument_at(b, w + 1, RPAREN) {
                Some((x, end)) => Some((Expr::One(Unary::Abs, Box::new(x)), end)),
                None => None,
            },
            Some(Function::Round) => match argument_at(b, w + 1, RPAREN) {
                Some((x, end)) => Some((Expr::One(Unary::Round, Box::new(x)), end)),
                None => None,
            },
            Some(Function::Int) => match argument_at(b, w + 1, RPAREN) {
                Some((x, end)) => Some((Expr::One(Unary::Int, Box::new(x)), end)),
                None => None,
            },
            Some(Function::Mod) => match argument_at(b, w + 1, COMMA) {
                None => None,
                Some((x, q)) => if !advances(b, w, q) {
                    None
                } else {
                    match argument_at(b, q, RPAREN) {
                        Some((y, end)) => Some(
                            (Expr::Two(Binary::Mod, Box::new(x), Box::new(y)), end),
                        ),
                        None => None,
                    }
                },
            },
            Some(Function::Over(over)) => range_at(b, w + 1, over),
        }
    } else if w == p + 1 {
        match row_at(b, w) {
            Some((row, end)) => if row < ROWS {
                Some((Expr::Cell { col: column(b[p]), row }, end))
            } else {
                None
            },
            None => None,
        }
    } else {
        None
    }
}

/// The formula that a text is from end to end, but for spaces around it.
pub open spec fn formula(b: Seq<u8>) -> Option<Expr> {
    formula_from(b, 0)
}

/// The formula that a text is from `p` to its end, but for spaces around it.
pub open spec fn formula_from(b: Seq<u8>, p: int) -> Option<Expr> {
    match comparison_at(b, spaces_end(b, p)) {
        Some((e, q)) => if spaces_end(b, q) == b.len() {
            Some(e)
        } else {
            None
        },
        None => None,
    }
}

/// The value of a formula's text.
pub open spec fn formula_value(b: Seq<u8>, vals: Seq<i64>, nums: Seq<bool>) -> Option<i64> {
    match formula(b) {
        Some(e) => eval(e, vals, nums),
        None => None,
    }
}

/// A cell's text is a formula if it starts with `=`.
pub open spec fn is_formula(raw: Seq<u8>) -> bool {
    raw.len() > 0 && raw[0] == EQUALS
}

/// What a cell with the text `raw` is, and its value: nothing, a formula and
/// its value or an error, a number, or a text.
pub open spec fn classified(raw: Seq<u8>, vals: Seq<i64>, nums: Seq<bool>) -> (i64, Kind) {
    if raw.len() == 0 {
        (0, Kind::Empty)
    } else if raw[0] == EQUALS {
        match formula_value(raw.subrange(1, raw.len() as int), vals, nums) {
            Some(v) => (v, Kind::Num),
            None => (0, Kind::Error),
        }
    } else {
        match whole_number(raw) {
            Some(v) => (v, Kind::Num),
            None => (0, Kind::Text),
        }
    }
}

/// Whether a cell with the text `raw` reads cell `i`.
pub open spec fn text_reads(raw: Seq<u8>, i: int) -> bool {
    is_formula(raw) && (formula(raw.subrange(1, raw.len() as int)) matches Some(e) && reads(e, i))
}

// ---------------------------------------------------------------------------
// Facts about the meaning
// ---------------------------------------------------------------------------

/// An expression without a value has none whatever is added behind it.
proof fn lemma_sum_rest_none(b: Seq<u8>, acc: Expr, p: int, vals: Seq<i64>, nums: Seq<bool>)
    requires
        0 <= p <= b.len(),
        eval(acc, vals, nums) is None,
    ensures
        sum_rest(b, acc, p) matches Some((e, q)) ==> eval(e, vals, nums) is None,
    decreases b.len() - p,
{
    let q = spaces_end(b, p);
    lemma_spaces_end(b, p);
    if q < b.len() && (b[q] == PLUS || b[q] == MINUS) {
        if let Some((t, r)) = term_at(b, q + 1) {
            if advances(b, q, r) {
                let op = if b[q] == PLUS {
                    Binary::Add
                } else {
                    Binary::Sub
                };
                lemma_sum_rest_none(b, Expr::Two(op, Box::new(acc), Box::new(t)), r, vals, nums);
            }
        }
    }
}

/// An expression without a value has none whatever it is multiplied with.
proof fn lemma_term_rest_none(b: Seq<u8>, acc: Expr, p: int, vals: Seq<i64>, nums: Seq<bool>)
    requires
        0 <= p <= b.len(),
        eval(acc, vals, nums) is None,
    ensures
        term_rest(b, acc, p) matches Some((e, q)) ==> eval(e, vals, nums) is None,
    decreases b.len() - p,
{
    let q = spaces_end(b, p);
    lemma_spaces_end(b, p);
    if q < b.len() && (b[q] == STAR || b[q] == SLASH) {
        if let Some((f, r)) = factor_at(b, q + 1) {
            if advances(b, q, r) {
                let op = if b[q] == STAR {
                    Binary::Mul
                } else {
                    Binary::Div
                };
                lemma_term_rest_none(b, Expr::Two(op, Box::new(acc), Box::new(f)), r, vals, nums);
            }
        }
    }
}

/// Cells whose first few have no sum have none.
proof fn lemma_total_prefix(a: Seq<int>, b: Seq<int>, vals: Seq<i64>)
    requires
        a.is_prefix_of(b),
        total(a, vals) is None,
    ensures
        total(b, vals) is None,
    decreases b.len(),
{
    if a.len() == b.len() {
        assert(a =~= b);
    } else {
        assert(a.is_prefix_of(b.drop_last()));
        lemma_total_prefix(a, b.drop_last(), vals);
    }
}

/// The cells up to one of its cells start a rectangle.
proof fn lemma_rect_prefix(c0: int, r0: int, c1: int, r1: int, col: int, row: int)
    requires
        col <= c1,
        r0 <= row <= r1,
    ensures
        (rect_cells(c0, r0, c1, row - 1) + row_cells(c0, col, row)).is_prefix_of(
            rect_cells(c0, r0, c1, r1),
        ),
    decreases r1 - row,
{
    if row < r1 {
        lemma_rect_prefix(c0, r0, c1, r1 - 1, col, row);
    }
}

proof fn lemma_aggregate_local(
    cells: Seq<int>,
    v1: Seq<i64>,
    n1: Seq<bool>,
    v2: Seq<i64>,
    n2: Seq<bool>,
)
    requires
        forall|k: int|
            0 <= k < cells.len() ==> v1[#[trigger] cells[k]] == v2[cells[k]] && n1[cells[k]]
                == n2[cells[k]],
    ensures
        total(cells, v1) == total(cells, v2),
        smallest(cells, v1) == smallest(cells, v2),
        largest(cells, v1) == largest(cells, v2),
        numeric_count(cells, n1) == numeric_count(cells, n2),
    decreases cells.len(),
{
    if cells.len() > 0 {
        let rest = cells.drop_last();
        assert forall|k: int| 0 <= k < rest.len() implies v1[#[trigger] rest[k]] == v2[rest[k]]
            && n1[rest[k]] == n2[rest[k]] by {
            assert(rest[k] == cells[k]);
        }
        lemma_aggregate_local(rest, v1, n1, v2, n2);
        assert(cells.last() == cells[cells.len() - 1]);
    }
}

/// An expression's value depends on the cells that it reads alone.
pub proof fn lemma_eval_local(
    e: Expr,
    v1: Seq<i64>,
    n1: Seq<bool>,
    v2: Seq<i64>,
    n2: Seq<bool>,
)
    requires
        forall|i: int| #[trigger] reads(e, i) ==> v1[i] == v2[i] && n1[i] == n2[i],
    ensures
        eval(e, v1, n1) == eval(e, v2, n2),
    decreases e,
{
    match e {
        Expr::Number(_) => {},
        Expr::Cell { col, row } => {
            assert(reads(e, index_of(col, row)));
        },
        Expr::One(_, a) => {
            assert forall|i: int| #[trigger] reads(*a, i) implies v1[i] == v2[i] && n1[i]
                == n2[i] by {
                assert(reads(e, i));
            }
            lemma_eval_local(*a, v1, n1, v2, n2);
        },
        Expr::Two(_, a, b) => {
            assert forall|i: int| #[trigger] reads(*a, i) implies v1[i] == v2[i] && n1[i]
                == n2[i] by {
                assert(reads(e, i));
            }
            assert forall|i: int| #[trigger] reads(*b, i) implies v1[i] == v2[i] && n1[i]
                == n2[i] by {
                assert(reads(e, i));
            }
            lemma_eval_local(*a, v1, n1, v2, n2);
            lemma_eval_local(*b, v1, n1, v2, n2);
        },
        Expr::If(c, a, b) => {
            assert forall|i: int| #[trigger] reads(*c, i) implies v1[i] == v2[i] && n1[i]
                == n2[i] by {
                assert(reads(e, i));
            }
            assert forall|i: int| #[trigger] reads(*a, i) implies v1[i] == v2[i] && n1[i]
                == n2[i] by {
                assert(reads(e, i));
            }
            assert forall|i: int| #[trigger] reads(*b, i) implies v1[i] == v2[i] && n1[i]
                == n2[i] by {
                assert(reads(e, i));
            }
            lemma_eval_local(*c, v1, n1, v2, n2);
            lemma_eval_local(*a, v1, n1, v2, n2);
            lemma_eval_local(*b, v1, n1, v2, n2);
        },
        Expr::Range { over, c0, r0, c1, r1 } => {
            let cells = rect_cells(c0, r0, c1, r1);
            assert forall|k: int| 0 <= k < cells.len() implies v1[#[trigger] cells[k]]
                == v2[cells[k]] && n1[cells[k]] == n2[cells[k]] by {
                assert(cells.contains(cells[k]));
                assert(reads(e, cells[k]));
            }
            lemma_aggregate_local(cells, v1, n1, v2, n2);
        },
    }
}

/// What a cell is depends on the cells that its text reads alone.
pub proof fn lemma_classified_local(
    raw: Seq<u8>,
    v1: Seq<i64>,
    n1: Seq<bool>,
    v2: Seq<i64>,
    n2: Seq<bool>,
)
    requires
        forall|i: int| #[trigger] text_reads(raw, i) ==> v1[i] == v2[i] && n1[i] == n2[i],
    ensures
        classified(raw, v1, n1) == classified(raw, v2, n2),
{
    if is_formula(raw) {
        if let Some(e) = formula(raw.subrange(1, raw.len() as int)) {
            assert forall|i: int| #[trigger] reads(e, i) implies v1[i] == v2[i] && n1[i]
                == n2[i] by {
                assert(text_reads(raw, i));
            }
            lemma_eval_local(e, v1, n1, v2, n2);
        }
    }
}

// ---------------------------------------------------------------------------
// The evaluator
// ---------------------------------------------------------------------------

/// Whether `r`, reached at `end`, is the value of what was parsed.
pub open spec fn denotes(
    parsed: Option<(Expr, int)>,
    vals: Seq<i64>,
    nums: Seq<bool>,
    r: Option<i64>,
    end: int,
) -> bool {
    match r {
        Some(v) => parsed matches Some((e, q)) && eval(e, vals, nums) == Some(v) && q == end,
        None => parsed matches Some((e, q)) ==> eval(e, vals, nums) is None,
    }
}

/// The word in uppercase is `name`.
fn same_word(word: &[u8], name: &str) -> (r: bool)
    requires
        name.is_ascii(),
    ensures
        r == (upper_all(word@) == bytes_of(name)),
{
    let n: &[u8] = str_bytes(name);
    if word.len() != n.len() {
        return false;
    }
    let mut i: usize = 0;
    while i < word.len()
        invariant
            i <= word@.len() == n@.len(),
            n@ == bytes_of(name),
            forall|k: int| 0 <= k < i ==> upper(#[trigger] word@[k]) == n@[k],
        decreases word@.len() - i,
    {
        if to_ascii_uppercase(word[i]) != n[i] {
            assert(upper_all(word@)[i as int] != n@[i as int]);
            return false;
        }
        i += 1;
    }
    assert(upper_all(word@) =~= n@);
    true
}

/// The function that a word names, in either case.
pub fn lookup(word: &[u8]) -> (f: Option<Function>)
    ensures
        f == function_named(word@),
{
    proof {
        reveal_strlit("IF");
        reveal_strlit("ABS");
        reveal_strlit("ROUND");
        reveal_strlit("INT");
        reveal_strlit("MOD");
        reveal_strlit("SUM");
        reveal_strlit("AVG");
        reveal_strlit("MIN");
        reveal_strlit("MAX");
        reveal_strlit("COUNT");
    }
    if same_word(word, "IF") {
        Some(Function::If)
    } else if same_word(word, "ABS") {
        Some(Function::Abs)
    } else if same_word(word, "ROUND") {
        Some(Function::Round)
    } else if same_word(word, "INT") {
        Some(Function::Int)
    } else if same_word(word, "MOD") {
        Some(Function::Mod)
    } else if same_word(word, "SUM") {
        Some(Function::Over(Aggregate::Sum))
    } else if same_word(word, "AVG") {
        Some(Function::Over(Aggregate::Avg))
    } else if same_word(word, "MIN") {
        Some(Function::Over(Aggregate::Min))
    } else if same_word(word, "MAX") {
        Some(Function::Over(Aggregate::Max))
    } else if same_word(word, "COUNT") {
        Some(Function::Over(Aggregate::Count))
    } else {
        None
    }
}

/// Read a referenced cell's cached value from the snapshot.
pub fn cell_at(snap: &[i64], col: usize, row: usize) -> (r: Option<i64>)
    requires
        snap@.len() >= NCELLS,
    ensures
        r == if on_grid(col as int, row as int) {
            Some(snap@[index_of(col as int, row as int)])
        } else {
            None
        },
{
    if col >= COLS || row >= ROWS {
        return None;
    }
    Some(snap[idx(col, row)])
}

/// A formula's text being evaluated against a snapshot of the sheet: `snap`
/// holds every cell's value, `nums` which cells hold a number.
pub struct Parser<'a> {
    pub b: &'a [u8],
    pub pos: usize,
    pub snap: &'a [i64],
    pub nums: &'a [bool],
}

impl<'a> Parser<'a> {
    pub open spec fn wf(&self) -> bool {
        &&& self.pos <= self.b@.len()
        &&& self.snap@.len() >= NCELLS
        &&& self.nums@.len() >= NCELLS
    }

    /// Only the position differs.
    pub open spec fn same_input(&self, other: &Parser) -> bool {
        &&& self.b@ == other.b@
        &&& self.snap@ == other.snap@
        &&& self.nums@ == other.nums@
    }

    /// Evaluate the text, from the present place to its end, as one formula.
    pub fn parse_full(&mut self) -> (r: Option<i64>)
        requires
            old(self).wf(),
        ensures
            final(self).wf(),
            final(self).same_input(old(self)),
            r == match formula_from(old(self).b@, old(self).pos as int) {
                Some(e) => eval(e, old(self).snap@, old(self).nums@),
                None => None,
            },
    {
        self.skip_ws();
        let v: i64 = self.comparison()?;
        self.skip_ws();
        if self.pos == self.b.len() {
            Some(v)
        } else {
            None
        }
    }

    pub(crate) fn skip_ws(&mut self)
        requires
            old(self).wf(),
        ensures
            final(self).wf(),
            final(self).same_input(old(self)),
            final(self).pos == spaces_end(old(self).b@, old(self).pos as int),
            final(self).pos >= old(self).pos,
    {
        while self.pos < self.b.len() && self.b[self.pos] == SPACE
            invariant
                self.wf(),
                self.same_input(old(self)),
                self.pos >= old(self).pos,
                spaces_end(old(self).b@, old(self).pos as int) == spaces_end(
                    self.b@,
                    self.pos as int,
                ),
            decreases self.b@.len() - self.pos,
        {
            self.pos += 1;
        }
    }

    /// Consume `ch` (after spaces), or fail the parse.
    pub(crate) fn eat(&mut self, ch: u8) -> (r: Option<()>)
        requires
            old(self).wf(),
        ensures
            final(self).wf(),
            final(self).same_input(old(self)),
            match r {
                Some(_) => past(old(self).b@, old(self).pos as int, ch) == Some(
                    final(self).pos as int,
                ),
                None => past(old(self).b@, old(self).pos as int, ch) is None,
            },
            r is Some ==> final(self).pos > old(self).pos,
    {
        self.skip_ws();
        if self.peek() == Some(ch) {
            self.pos += 1;
            Some(())
        } else {
            None
        }
    }

    pub(crate) fn peek(&self) -> (r: Option<u8>)
        requires
            self.wf(),
        ensures
            r == if self.pos < self.b@.len() {
                Some(self.b@[self.pos as int])
            } else {
                None
            },
            r is Some ==> self.pos < usize::MAX,
    {
        if self.pos < self.b.len() {
            Some(self.b[self.pos])
        } else {
            None
        }
    }

    /// The relation that stands at the position, if any does.
    pub(crate) fn relation(&mut self) -> (r: Option<Relation>)
        requires
            old(self).wf(),
        ensures
            final(self).wf(),
            final(self).same_input(old(self)),
            match r {
                Some(rel) => relation_at(old(self).b@, old(self).pos as int) == Some(
                    (rel, final(self).pos as int),
                ) && final(self).pos > old(self).pos,
                None => relation_at(old(self).b@, old(self).pos as int) is None
                    && final(self).pos == old(self).pos,
            },
    {
        match self.peek() {
            Some(c) => {
                if c == EQUALS {
                    self.pos += 1;
                    Some(Relation::Eq)
                } else if c == LESS {
                    self.pos += 1;
                    if self.peek() == Some(EQUALS) {
                        self.pos += 1;
                        Some(Relation::Le)
                    } else if self.peek() == Some(GREATER) {
                        self.pos += 1;
                        Some(Relation::Ne)
                    } else {
                        Some(Relation::Lt)
                    }
                } else if c == GREATER {
                    self.pos += 1;
                    if self.peek() == Some(EQUALS) {
                        self.pos += 1;
                        Some(Relation::Ge)
                    } else {
                        Some(Relation::Gt)
                    }
                } else {
                    None
                }
            },
            None => None,
        }
    }

    /// A single optional comparison over two arithmetic expressions.
    pub fn comparison(&mut self) -> (r: Option<i64>)
        requires
            old(self).wf(),
        ensures
            final(self).wf(),
            final(self).same_input(old(self)),
            denotes(
                comparison_at(old(self).b@, old(self).pos as int),
                old(self).snap@,
                old(self).nums@,
                r,
                final(self).pos as int,
            ),
            r is Some ==> final(self).pos > old(self).pos,
        decreases old(self).b@.len() - old(self).pos, 5nat,
    {
        let a: i64 = self.expr()?;
        self.skip_ws();
        match self.relation() {
            None => Some(a),
            Some(rel) => {
                let b: i64 = self.expr()?;
                let t = match rel {
                    Relation::Eq => a == b,
                    Relation::Ne => a != b,
                    Relation::Lt => a < b,
                    Relation::Le => a <= b,
                    Relation::Gt => a > b,
                    Relation::Ge => a >= b,
                };
                Some(if t { TRUE_V } else { 0 })
            },
        }
    }

    /// Terms joined by `+` and `-`.
    pub fn expr(&mut self) -> (r: Option<i64>)
        requires
            old(self).wf(),
        ensures
            final(self).wf(),
            final(self).same_input(old(self)),
            denotes(
                sum_at(old(self).b@, old(self).pos as int),
                old(self).snap@,
                old(self).nums@,
                r,
                final(self).pos as int,
            ),
            r is Some ==> final(self).pos > old(self).pos,
        decreases old(self).b@.len() - old(self).pos, 4nat,
    {
        proof {
            if let Some((first, q)) = term_at(self.b@, self.pos as int) {
                if advances(self.b@, self.pos as int, q) && eval(first, self.snap@, self.nums@)
                    is None {
                    lemma_sum_rest_none(self.b@, first, q, self.snap@, self.nums@);
                }
            }
        }
        let mut acc: i64 = self.term()?;
        let ghost mut e: Expr = (term_at(self.b@, old(self).pos as int)->Some_0).0;
        loop
            invariant
                self.wf(),
                self.same_input(old(self)),
                self.pos > old(self).pos,
                sum_at(self.b@, old(self).pos as int) == sum_rest(self.b@, e, self.pos as int),
                eval(e, self.snap@, self.nums@) == Some(acc),
            decreases self.b@.len() - self.pos,
        {
            self.skip_ws();
            let op: Option<u8> = self.peek();
            if op != Some(PLUS) && op != Some(MINUS) {
                return Some(acc);
            }
            let ghost q = self.pos as int;
            let ghost e0 = e;
            self.pos += 1;
            proof {
                if let Some((t, end)) = term_at(self.b@, q + 1) {
                    let more = Expr::Two(
                        if op == Some(PLUS) {
                            Binary::Add
                        } else {
                            Binary::Sub
                        },
                        Box::new(e0),
                        Box::new(t),
                    );
                    if advances(self.b@, q, end) && eval(more, self.snap@, self.nums@) is None {
                        lemma_sum_rest_none(self.b@, more, end, self.snap@, self.nums@);
                    }
                    e = more;
                }
            }
            let t: i64 = self.term()?;
            if op == Some(PLUS) {
                acc = acc.checked_add(t)?;
            } else {
                acc = acc.checked_sub(t)?;
            }
        }
    }

    /// Factors joined by `*` and `/`.
    fn term(&mut self) -> (r: Option<i64>)
        requires
            old(self).wf(),
        ensures
            final(self).wf(),
            final(self).same_input(old(self)),
            denotes(
                term_at(old(self).b@, old(self).pos as int),
                old(self).snap@,
                old(self).nums@,
                r,
                final(self).pos as int,
            ),
            r is Some ==> final(self).pos > old(self).pos,
        decreases old(self).b@.len() - old(self).pos, 3nat,
    {
        proof {
            if let Some((first, q)) = factor_at(self.b@, self.pos as int) {
                if advances(self.b@, self.pos as int, q) && eval(first, self.snap@, self.nums@)
                    is None {
                    lemma_term_rest_none(self.b@, first, q, self.snap@, self.nums@);
                }
            }
        }
        let mut acc: i64 = self.factor()?;
        let ghost mut e: Expr = (factor_at(self.b@, old(self).pos as int)->Some_0).0;
        loop
            invariant
                self.wf(),
                self.same_input(old(self)),
                self.pos > old(self).pos,
                term_at(self.b@, old(self).pos as int) == term_rest(self.b@, e, self.pos as int),
                eval(e, self.snap@, self.nums@) == Some(acc),
            decreases self.b@.len() - self.pos,
        {
            self.skip_ws();
            let op: Option<u8> = self.peek();
            if op != Some(STAR) && op != Some(SLASH) {
                return Some(acc);
            }
            let ghost q = self.pos as int;
            let ghost e0 = e;
            self.pos += 1;
            proof {
                if let Some((f, end)) = factor_at(self.b@, q + 1) {
                    let more = Expr::Two(
                        if op == Some(STAR) {
                            Binary::Mul
                        } else {
                            Binary::Div
                        },
                        Box::new(e0),
                        Box::new(f),
                    );
                    if advances(self.b@, q, end) && eval(more, self.snap@, self.nums@) is None {
                        lemma_term_rest_none(self.b@, more, end, self.snap@, self.nums@);
                    }
                    e = more;
                }
            }
            let f: i64 = self.factor()?;
            if op == Some(STAR) {
                acc = fmul(acc, f)?;
            } else {
                acc = fdiv(acc, f)?;
            }
        }
    }

    /// A number, a name, a comparison in brackets, or a signed factor.
    fn factor(&mut self) -> (r: Option<i64>)
        requires
            old(self).wf(),
        ensures
            final(self).wf(),
            final(self).same_input(old(self)),
            denotes(
                factor_at(old(self).b@, old(self).pos as int),
                old(self).snap@,
                old(self).nums@,
                r,
                final(self).pos as int,
            ),
            r is Some ==> final(self).pos > old(self).pos,
        decreases old(self).b@.len() - old(self).pos, 2nat,
    {
        self.skip_ws();
        let c: u8 = self.peek()?;
        if c == LPAREN {
            self.pos += 1;
            self.argument(RPAREN)
        } else if c == MINUS {
            self.pos += 1;
            let v: i64 = self.factor()?;
            if v == i64::MIN {
                None
            } else {
                Some(-v)
            }
        } else if c == PLUS {
            self.pos += 1;
            self.factor()
        } else if is_ascii_digit(c) || c == DOT {
            proof {
                lemma_number_at(self.b@, self.pos as int);
            }
            read_number(self.b, &mut self.pos)
        } else if is_ascii_alphabetic(c) {
            self.name()
        } else {
            None
        }
    }

    /// A comparison and the byte `ch` that closes it.
    fn argument(&mut self, ch: u8) -> (r: Option<i64>)
        requires
            old(self).wf(),
        ensures
            final(self).wf(),
            final(self).same_input(old(self)),
            denotes(
                argument_at(old(self).b@, old(self).pos as int, ch),
                old(self).snap@,
                old(self).nums@,
                r,
                final(self).pos as int,
            ),
            r is Some ==> final(self).pos > old(self).pos,
        decreases old(self).b@.len() - old(self).pos, 6nat,
    {
        let v: i64 = self.comparison()?;
        self.eat(ch)?;
        Some(v)
    }

    /// A leading letter is either a function call or a single-letter cell
    /// reference, in either case.
    fn name(&mut self) -> (r: Option<i64>)
        requires
            old(self).wf(),
        ensures
            final(self).wf(),
            final(self).same_input(old(self)),
            denotes(
                name_at(old(self).b@, old(self).pos as int),
                old(self).snap@,
                old(self).nums@,
                r,
                final(self).pos as int,
            ),
            r is Some ==> final(self).pos > old(self).pos,
        decreases old(self).b@.len() - old(self).pos, 1nat,
    {
        let start: usize = self.pos;
        self.pos = skip_alphas(self.b, start);
        let word: &[u8] = vstd::slice::slice_subrange(self.b, start, self.pos);
        if self.peek() == Some(LPAREN) {
            self.pos += 1;
            return self.call(lookup(word)?, start);
        }
        // Cell reference: single letter followed by row digits.
        if word.len() != 1 {
            return None;
        }
        proof {
            lemma_alphas_end(self.b@, start as int);
            assert(is_alpha(self.b@[start as int]));
        }
        let col: usize = (to_ascii_uppercase(word[0]) - UPPER_A) as usize;
        let row: usize = self.read_row()?;
        cell_at(self.snap, col, row)
    }

    /// The arguments of a call, up to its closing bracket, and its value.
    fn call(&mut self, f: Function, start: usize) -> (r: Option<i64>)
        requires
            old(self).wf(),
            start < old(self).pos,
            ({
                let w = alphas_end(old(self).b@, start as int);
                &&& old(self).pos == w + 1
                &&& w < old(self).b@.len()
                &&& old(self).b@[w] == LPAREN
                &&& function_named(old(self).b@.subrange(start as int, w)) == Some(f)
            }),
        ensures
            final(self).wf(),
            final(self).same_input(old(self)),
            denotes(
                name_at(old(self).b@, start as int),
                old(self).snap@,
                old(self).nums@,
                r,
                final(self).pos as int,
            ),
            r is Some ==> final(self).pos > old(self).pos,
        decreases old(self).b@.len() - old(self).pos, 7nat,
    {
        match f {
            Function::If => {
                let cond: i64 = self.argument(COMMA)?;
                let then: i64 = self.argument(COMMA)?;
                let els: i64 = self.argument(RPAREN)?;
                Some(if cond != 0 { then } else { els })
            },
            Function::Abs => {
                let v: i64 = self.argument(RPAREN)?;
                if v == i64::MIN {
                    None
                } else {
                    Some(if v < 0 { -v } else { v })
                }
            },
            Function::Round => {
                let v: i64 = self.argument(RPAREN)?;
                round_int(v)
            },
            Function::Int => {
                let v: i64 = self.argument(RPAREN)?;
                fint(v)
            },
            Function::Mod => {
                let a: i64 = self.argument(COMMA)?;
                let b: i64 = self.argument(RPAREN)?;
                fmod(a, b)
            },
            Function::Over(over) => {
                let (c0, r0) = self.cellref_coords()?;
                self.eat(COLON)?;
                let (c1, r1) = self.cellref_coords()?;
                self.eat(RPAREN)?;
                self.range_fn(over, c0, r0, c1, r1)
            },
        }
    }

    /// Parse a reference like `A12` at the position: its column and row,
    /// counted from zero.
    pub(crate) fn cellref_coords(&mut self) -> (r: Option<(usize, usize)>)
        requires
            old(self).wf(),
        ensures
            final(self).wf(),
            final(self).same_input(old(self)),
            match r {
                Some((col, row)) => cell_name_at(old(self).b@, old(self).pos as int) == Some(
                    (col as int, row as int, final(self).pos as int),
                ) && on_grid(col as int, row as int) && final(self).pos > old(self).pos,
                None => cell_name_at(old(self).b@, old(self).pos as int) is None,
            },
    {
        self.skip_ws();
        let c: u8 = self.peek()?;
        if !is_ascii_alphabetic(c) {
            return None;
        }
        self.pos += 1;
        let col: usize = (to_ascii_uppercase(c) - UPPER_A) as usize;
        let row: usize = self.read_row()?;
        if col >= COLS || row >= ROWS {
            return None;
        }
        Some((col, row))
    }

    /// Read a row number counted from one; return it counted from zero.
    pub(crate) fn read_row(&mut self) -> (r: Option<usize>)
        requires
            old(self).wf(),
        ensures
            final(self).wf(),
            final(self).same_input(old(self)),
            match r {
                Some(row) => row_at(old(self).b@, old(self).pos as int) == Some(
                    (row as int, final(self).pos as int),
                ) && final(self).pos > old(self).pos,
                None => row_at(old(self).b@, old(self).pos as int) is None,
            },
    {
        let start: usize = self.pos;
        let n: u64 = read_row_number(self.b, &mut self.pos);
        proof {
            lemma_digits_end(self.b@, start as int);
            lemma_digits_value_nonneg(self.b@, start as int, self.pos as int);
        }
        if self.pos == start || n == 0 {
            return None;
        }
        assert(n <= ROW_NUMBER_MAX);
        Some((n - 1) as usize)
    }

    /// A function over a rectangle of cells.
    fn range_fn(&self, over: Aggregate, c0: usize, r0: usize, c1: usize, r1: usize) -> (r: Option<
        i64,
    >)
        requires
            self.wf(),
            on_grid(c0 as int, r0 as int),
            on_grid(c1 as int, r1 as int),
        ensures
            r == aggregate_value(
                over,
                rect_cells(
                    least_of(c0 as int, c1 as int),
                    least_of(r0 as int, r1 as int),
                    most_of(c0 as int, c1 as int),
                    most_of(r0 as int, r1 as int),
                ),
                self.snap@,
                self.nums@,
            ),
    {
        let ca: usize = min_of(c0, c1);
        let cb: usize = max_of(c0, c1);
        let ra: usize = min_of(r0, r1);
        let rb: usize = max_of(r0, r1);
        let ghost cells = rect_cells(ca as int, ra as int, cb as int, rb as int);
        let mut sum: i64 = 0;
        let mut count: i64 = 0;
        let mut numeric: i64 = 0;
        let mut mn: i64 = i64::MAX;
        let mut mx: i64 = i64::MIN;
        let ghost mut seen: Seq<int> = seq![];
        let mut row: usize = ra;
        while row <= rb
            invariant
                self.wf(),
                ca <= cb < COLS,
                ra <= row <= rb + 1,
                rb < ROWS,
                cells == rect_cells(ca as int, ra as int, cb as int, rb as int),
                ca == least_of(c0 as int, c1 as int),
                cb == most_of(c0 as int, c1 as int),
                ra == least_of(r0 as int, r1 as int),
                rb == most_of(r0 as int, r1 as int),
                seen == rect_cells(ca as int, ra as int, cb as int, row - 1),
                total(seen, self.snap@) == Some(sum),
                smallest(seen, self.snap@) == mn,
                largest(seen, self.snap@) == mx,
                numeric_count(seen, self.nums@) == numeric,
                count == seen.len(),
                0 <= numeric <= count <= 26 * (row - ra),
            decreases rb + 1 - row,
        {
            let mut col: usize = ca;
            let ghost above = seen;
            while col <= cb
                invariant
                    self.wf(),
                    ca <= col <= cb + 1,
                    cb < COLS,
                    ra <= row <= rb < ROWS,
                    cells == rect_cells(ca as int, ra as int, cb as int, rb as int),
                    ca == least_of(c0 as int, c1 as int),
                    cb == most_of(c0 as int, c1 as int),
                    ra == least_of(r0 as int, r1 as int),
                    rb == most_of(r0 as int, r1 as int),
                    above == rect_cells(ca as int, ra as int, cb as int, row - 1),
                    seen == above + row_cells(ca as int, col - 1, row as int),
                    total(seen, self.snap@) == Some(sum),
                    smallest(seen, self.snap@) == mn,
                    largest(seen, self.snap@) == mx,
                    numeric_count(seen, self.nums@) == numeric,
                    count == seen.len(),
                    0 <= numeric <= count <= 26 * (row - ra) + (col - ca),
                decreases cb + 1 - col,
            {
                let i: usize = idx(col, row);
                let v: i64 = self.snap[i];
                proof {
                    lemma_row_cells_push(ca as int, col as int, row as int);
                    let next = seen.push(i as int);
                    assert(next =~= above + row_cells(ca as int, col as int, row as int));
                    assert(next.drop_last() =~= seen);
                    lemma_rect_prefix(
                        ca as int,
                        ra as int,
                        cb as int,
                        rb as int,
                        col as int,
                        row as int,
                    );
                    if total(next, self.snap@) is None {
                        lemma_total_prefix(next, cells, self.snap@);
                    }
                    seen = next;
                }
                sum = sum.checked_add(v)?;
                count += 1;
                if self.nums[i] {
                    numeric += 1;
                }
                if v < mn {
                    mn = v;
                }
                if v > mx {
                    mx = v;
                }
                col += 1;
            }
            row += 1;
        }
        match over {
            Aggregate::Sum => Some(sum),
            Aggregate::Avg => {
                if count == 0 {
                    None
                } else {
                    Some(sum / count)
                }
            },
            Aggregate::Min => Some(mn),
            Aggregate::Max => Some(mx),
            Aggregate::Count => numeric.checked_mul(ONE),
        }
    }
}

/// Decide what a raw cell is and its numeric value.
/// - empty            -> (0, Empty)
/// - leading `=`      -> formula, evaluated against `snap`
/// - parses as number -> that value, Num
/// - anything else    -> text (0, Text)
pub fn classify(raw: &[u8], snap: &[i64], nums: &[bool]) -> (r: (i64, Kind))
    requires
        snap@.len() >= NCELLS,
        nums@.len() >= NCELLS,
    ensures
        r == classified(raw@, snap@, nums@),
{
    if raw.len() == 0 {
        return (0, Kind::Empty);
    }
    if raw[0] == EQUALS {
        let body: &[u8] = vstd::slice::slice_subrange(raw, 1, raw.len());
        let mut p = Parser { b: body, pos: 0, snap, nums };
        return match p.parse_full() {
            Some(v) => (v, Kind::Num),
            None => (0, Kind::Error),
        };
    }
    match parse_number_full(raw) {
        Some(v) => (v, Kind::Num),
        None => (0, Kind::Text),
    }
}

} // verus!
