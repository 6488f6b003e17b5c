//! What the functions over a rectangle of cells are worth, said of the cells.

use vstd::prelude::*;

use crate::ascii::{bytes_of, is_alpha, spaces_end, upper_all, COLON, EQUALS, LPAREN, RPAREN};
use crate::calc::{nums, vals};
use crate::fixed::{magnitude, ONE};
use crate::formula::{
    cell_name_at, formula, function_named, largest, name_at, numeric_count, past, range_at, reads,
    smallest, text_reads, total, Aggregate, Expr, Function,
};
use crate::grid::{
    index_of, least_of, lemma_rect_cells_len, most_of, on_grid, rect_cells, row_cells, Kind,
};
use crate::labels::cell_name;
use crate::meaning::{
    between, called, factor_of, factor_value, law_cell_shows_value, law_factor_is_term,
    law_reference_reads_cell, law_sum_is_side, law_term_is_sum, lemma_call_head, lemma_name_read,
};
use crate::moves::lemma_name_is_formula;
use crate::sheet::{sum_and_count, Grid};

verus! {

/// A call of the function `word` over the cells between two named corners.
pub open spec fn range_text(word: Seq<u8>, ca: int, ra: int, cb: int, rb: int) -> Seq<u8> {
    called(word, between(cell_name(ca, ra), COLON, cell_name(cb, rb)))
}

/// What such a call is worth.
pub open spec fn range_value(
    word: Seq<u8>,
    ca: int,
    ra: int,
    cb: int,
    rb: int,
    vals: Seq<i64>,
    nums: Seq<bool>,
) -> Option<i64> {
    factor_value(range_text(word, ca, ra, cb, rb), vals, nums)
}

/// `x` is neither before both of `a` and `b` nor behind both.
pub open spec fn amid(a: int, x: int, b: int) -> bool {
    a <= x <= b || b <= x <= a
}

/// The cell at `col` and `row` lies in the rectangle with these corners.
pub open spec fn spans(ca: int, ra: int, cb: int, rb: int, col: int, row: int) -> bool {
    amid(ca, col, cb) && amid(ra, row, rb)
}

/// The names of the functions over a range.
pub proof fn lemma_range_names()
    ensures
        function_named(bytes_of("SUM")) == Some(Function::Over(Aggregate::Sum)),
        function_named(bytes_of("AVG")) == Some(Function::Over(Aggregate::Avg)),
        function_named(bytes_of("MIN")) == Some(Function::Over(Aggregate::Min)),
        function_named(bytes_of("MAX")) == Some(Function::Over(Aggregate::Max)),
        function_named(bytes_of("COUNT")) == Some(Function::Over(Aggregate::Count)),
        forall|i: int| 0 <= i < bytes_of("SUM").len() ==> is_alpha(#[trigger] bytes_of("SUM")[i]),
        forall|i: int| 0 <= i < bytes_of("AVG").len() ==> is_alpha(#[trigger] bytes_of("AVG")[i]),
        forall|i: int| 0 <= i < bytes_of("MIN").len() ==> is_alpha(#[trigger] bytes_of("MIN")[i]),
        forall|i: int| 0 <= i < bytes_of("MAX").len() ==> is_alpha(#[trigger] bytes_of("MAX")[i]),
        forall|i: int|
            0 <= i < bytes_of("COUNT").len() ==> is_alpha(#[trigger] bytes_of("COUNT")[i]),
        bytes_of("SUM").len() == 3,
        bytes_of("AVG").len() == 3,
        bytes_of("MIN").len() == 3,
        bytes_of("MAX").len() == 3,
        bytes_of("COUNT").len() == 5,
{
    reveal_strlit("IF");
    reveal_strlit("ABS");
    reveal_strlit("ROUND");
    reveal_strlit("INT");
    reveal_strlit("MOD");
    reveal_strlit("SUM");
    reveal_strlit("AVG");
    reveal_strlit("MIN");
    reveal_strlit("MAX");
    reveal_strlit("COUNT");
    assert(upper_all(bytes_of("SUM")) =~= bytes_of("SUM"));
    assert(upper_all(bytes_of("AVG")) =~= bytes_of("AVG"));
    assert(upper_all(bytes_of("MIN")) =~= bytes_of("MIN"));
    assert(upper_all(bytes_of("MAX")) =~= bytes_of("MAX"));
    assert(upper_all(bytes_of("COUNT")) =~= bytes_of("COUNT"));
    assert(bytes_of("SUM")[0] == 'S' as u8 && bytes_of("AVG")[0] == 'A' as u8);
    assert(bytes_of("AVG")[1] == 'V' as u8 && bytes_of("ABS")[1] == 'B' as u8);
    assert(bytes_of("MIN")[1] == 'I' as u8 && bytes_of("MAX")[1] == 'A' as u8);
    assert(bytes_of("MOD")[1] == 'O' as u8 && bytes_of("INT")[0] == 'I' as u8);
    assert(bytes_of("COUNT")[0] == 'C' as u8 && bytes_of("ROUND")[0] == 'R' as u8);
    assert(bytes_of("ABS")[0] == 'A' as u8 && bytes_of("MOD")[0] == 'M' as u8);
    assert(bytes_of("MIN")[0] == 'M' as u8 && bytes_of("MAX")[0] == 'M' as u8);
}

/// A call over a range is read as the range with its corners in order.
#[verifier::rlimit(40)]
proof fn lemma_range_text(word: Seq<u8>, over: Aggregate, ca: int, ra: int, cb: int, rb: int)
    requires
        on_grid(ca, ra),
        on_grid(cb, rb),
        word.len() > 0,
        forall|i: int| 0 <= i < word.len() ==> is_alpha(#[trigger] word[i]),
        function_named(word) == Some(Function::Over(over)),
    ensures
        factor_of(range_text(word, ca, ra, cb, rb)) == Some(
            Expr::Range {
                over,
                c0: least_of(ca, cb),
                r0: least_of(ra, rb),
                c1: most_of(ca, cb),
                r1: most_of(ra, rb),
            },
        ),
{
    let x = cell_name(ca, ra);
    let y = cell_name(cb, rb);
    let b = range_text(word, ca, ra, cb, rb);
    let w = word.len() as int;
    let m = w + 1 + x.len();
    let k = m + 1 + y.len();
    assert(b[w] == LPAREN);
    assert(b.subrange(0, w) =~= word);
    assert(b[m] == COLON);
    assert(b[k] == RPAREN);
    assert(b.len() == k + 1);
    assert(cell_name_at(b, w + 1) == Some((ca, ra, m))) by {
        assert(b.subrange(w + 1, m) =~= x);
        lemma_name_read(b, w + 1, ca, ra);
        assert(spaces_end(b, w + 1) == w + 1);
    }
    assert(cell_name_at(b, m + 1) == Some((cb, rb, k))) by {
        assert(b.subrange(m + 1, k) =~= y);
        lemma_name_read(b, m + 1, cb, rb);
        assert(spaces_end(b, m + 1) == m + 1);
    }
    assert(past(b, m, COLON) == Some(m + 1)) by {
        assert(spaces_end(b, m) == m);
    }
    assert(past(b, k, RPAREN) == Some(k + 1)) by {
        assert(spaces_end(b, k) == k);
    }
    lemma_call_head(word, b);
    assert(name_at(b, 0) == range_at(b, w + 1, over));
}

// ---------------------------------------------------------------------------
// The cells of a rectangle
// ---------------------------------------------------------------------------

/// Every cell of a rectangle is listed.
pub proof fn lemma_rect_has(c0: int, r0: int, c1: int, r1: int, col: int, row: int)
    requires
        c0 <= col <= c1,
        r0 <= row <= r1,
    ensures
        rect_cells(c0, r0, c1, r1).contains(index_of(col, row)),
    decreases r1 - row,
{
    let a = rect_cells(c0, r0, c1, r1 - 1);
    let b = row_cells(c0, c1, r1);
    if row == r1 {
        assert(b[col - c0] == index_of(col, row));
        assert((a + b)[a.len() as int + col - c0] == index_of(col, row));
    } else {
        lemma_rect_has(c0, r0, c1, r1 - 1, col, row);
        let k = choose|k: int| 0 <= k < a.len() && a[k] == index_of(col, row);
        assert((a + b)[k] == index_of(col, row));
    }
}

/// Nothing else is listed: where a listed cell lies.
pub proof fn lemma_rect_lies(c0: int, r0: int, c1: int, r1: int, k: int) -> (at: (int, int))
    requires
        0 <= k < rect_cells(c0, r0, c1, r1).len(),
    ensures
        c0 <= at.0 <= c1,
        r0 <= at.1 <= r1,
        rect_cells(c0, r0, c1, r1)[k] == index_of(at.0, at.1),
    decreases r1 - r0 + 1,
{
    let a = rect_cells(c0, r0, c1, r1 - 1);
    let b = row_cells(c0, c1, r1);
    if k < a.len() {
        assert((a + b)[k] == a[k]);
        lemma_rect_lies(c0, r0, c1, r1 - 1, k)
    } else {
        assert((a + b)[k] == b[k - a.len()]);
        (c0 + k - a.len(), r1)
    }
}

// ---------------------------------------------------------------------------
// The least and the greatest
// ---------------------------------------------------------------------------

proof fn lemma_smallest(cells: Seq<int>, vals: Seq<i64>)
    ensures
        forall|k: int| 0 <= k < cells.len() ==> smallest(cells, vals) <= vals[#[trigger] cells[k]],
        cells.len() > 0 ==> exists|k: int|
            0 <= k < cells.len() && smallest(cells, vals) == vals[#[trigger] cells[k]],
    decreases cells.len(),
{
    if cells.len() > 0 {
        let rest = cells.drop_last();
        let n = cells.len() as int;
        lemma_smallest(rest, vals);
        assert forall|k: int| 0 <= k < n implies smallest(cells, vals)
            <= vals[#[trigger] cells[k]] by {
            if k < n - 1 {
                assert(rest[k] == cells[k]);
            }
        }
        if smallest(cells, vals) == vals[cells[n - 1]] {
        } else if rest.len() > 0 {
            let k = choose|k: int|
                0 <= k < rest.len() && smallest(rest, vals) == vals[#[trigger] rest[k]];
            assert(cells[k] == rest[k]);
        } else {
            assert(vals[cells[n - 1]] == i64::MAX);
        }
    }
}

proof fn lemma_largest(cells: Seq<int>, vals: Seq<i64>)
    ensures
        forall|k: int| 0 <= k < cells.len() ==> largest(cells, vals) >= vals[#[trigger] cells[k]],
        cells.len() > 0 ==> exists|k: int|
            0 <= k < cells.len() && largest(cells, vals) == vals[#[trigger] cells[k]],
    decreases cells.len(),
{
    if cells.len() > 0 {
        let rest = cells.drop_last();
        let n = cells.len() as int;
        lemma_largest(rest, vals);
        assert forall|k: int| 0 <= k < n implies largest(cells, vals)
            >= vals[#[trigger] cells[k]] by {
            if k < n - 1 {
                assert(rest[k] == cells[k]);
            }
        }
        if largest(cells, vals) == vals[cells[n - 1]] {
        } else if rest.len() > 0 {
            let k = choose|k: int|
                0 <= k < rest.len() && largest(rest, vals) == vals[#[trigger] rest[k]];
            assert(cells[k] == rest[k]);
        } else {
            assert(vals[cells[n - 1]] == i64::MIN);
        }
    }
}

/// `MIN` is not above the value of any cell between its corners, and is the
/// value of one of them. It has a value whenever `SUM` has one.
pub proof fn law_min_is_least(
    ca: int,
    ra: int,
    cb: int,
    rb: int,
    vals: Seq<i64>,
    nums: Seq<bool>,
)
    requires
        on_grid(ca, ra),
        on_grid(cb, rb),
    ensures
        ({
            let m = range_value(bytes_of("MIN"), ca, ra, cb, rb, vals, nums);
            &&& m is Some <==> range_value(bytes_of("SUM"), ca, ra, cb, rb, vals, nums) is Some
            &&& m is Some ==> forall|col: int, row: int| #[trigger]
                spans(ca, ra, cb, rb, col, row) ==> m->Some_0 <= vals[26 * row + col]
            &&& m is Some ==> exists|col: int, row: int| #[trigger]
                spans(ca, ra, cb, rb, col, row) && m->Some_0 == vals[26 * row + col]
        }),
{
    lemma_range_names();
    lemma_range_text(bytes_of("MIN"), Aggregate::Min, ca, ra, cb, rb);
    lemma_range_text(bytes_of("SUM"), Aggregate::Sum, ca, ra, cb, rb);
    let (c0, r0) = (least_of(ca, cb), least_of(ra, rb));
    let (c1, r1) = (most_of(ca, cb), most_of(ra, rb));
    let cells = rect_cells(c0, r0, c1, r1);
    let m = smallest(cells, vals);
    lemma_smallest(cells, vals);
    assert forall|col: int, row: int| #[trigger] spans(ca, ra, cb, rb, col, row) implies m
        <= vals[26 * row + col] by {
        lemma_rect_has(c0, r0, c1, r1, col, row);
        let k = choose|k: int| 0 <= k < cells.len() && cells[k] == index_of(col, row);
        assert(m <= vals[cells[k]]);
    }
    lemma_rect_has(c0, r0, c1, r1, ca, ra);
    let k = choose|k: int| 0 <= k < cells.len() && m == vals[#[trigger] cells[k]];
    let at = lemma_rect_lies(c0, r0, c1, r1, k);
    assert(spans(ca, ra, cb, rb, at.0, at.1));
}

/// `MAX` is not below the value of any cell between its corners, and is the
/// value of one of them. It has a value whenever `SUM` has one.
pub proof fn law_max_is_greatest(
    ca: int,
    ra: int,
    cb: int,
    rb: int,
    vals: Seq<i64>,
    nums: Seq<bool>,
)
    requires
        on_grid(ca, ra),
        on_grid(cb, rb),
    ensures
        ({
            let m = range_value(bytes_of("MAX"), ca, ra, cb, rb, vals, nums);
            &&& m is Some <==> range_value(bytes_of("SUM"), ca, ra, cb, rb, vals, nums) is Some
            &&& m is Some ==> forall|col: int, row: int| #[trigger]
                spans(ca, ra, cb, rb, col, row) ==> m->Some_0 >= vals[26 * row + col]
            &&& m is Some ==> exists|col: int, row: int| #[trigger]
                spans(ca, ra, cb, rb, col, row) && m->Some_0 == vals[26 * row + col]
        }),
{
    lemma_range_names();
    lemma_range_text(bytes_of("MAX"), Aggregate::Max, ca, ra, cb, rb);
    lemma_range_text(bytes_of("SUM"), Aggregate::Sum, ca, ra, cb, rb);
    let (c0, r0) = (least_of(ca, cb), least_of(ra, rb));
    let (c1, r1) = (most_of(ca, cb), most_of(ra, rb));
    let cells = rect_cells(c0, r0, c1, r1);
    let m = largest(cells, vals);
    lemma_largest(cells, vals);
    assert forall|col: int, row: int| #[trigger] spans(ca, ra, cb, rb, col, row) implies m
        >= vals[26 * row + col] by {
        lemma_rect_has(c0, r0, c1, r1, col, row);
        let k = choose|k: int| 0 <= k < cells.len() && cells[k] == index_of(col, row);
        assert(m >= vals[cells[k]]);
    }
    lemma_rect_has(c0, r0, c1, r1, ca, ra);
    let k = choose|k: int| 0 <= k < cells.len() && m == vals[#[trigger] cells[k]];
    let at = lemma_rect_lies(c0, r0, c1, r1, k);
    assert(spans(ca, ra, cb, rb, at.0, at.1));
}

// ---------------------------------------------------------------------------
// Sums and counts
// ---------------------------------------------------------------------------

/// What cells weigh together.
spec fn weighed(cells: Seq<int>, weight: spec_fn(int) -> int) -> int
    decreases cells.len(),
{
    if cells.len() == 0 {
        0
    } else {
        weighed(cells.drop_last(), weight) + weight(cells.last())
    }
}

proof fn lemma_weighed_joined(a: Seq<int>, b: Seq<int>, weight: spec_fn(int) -> int)
    ensures
        weighed(a + b, weight) == weighed(a, weight) + weighed(b, weight),
    decreases b.len(),
{
    if b.len() == 0 {
        assert(a + b =~= a);
    } else {
        lemma_weighed_joined(a, b.drop_last(), weight);
        assert((a + b).drop_last() =~= a + b.drop_last());
        assert((a + b).last() == b.last());
    }
}

proof fn lemma_weighed_rows(
    c0: int,
    r0: int,
    c1: int,
    r1: int,
    r: int,
    weight: spec_fn(int) -> int,
)
    requires
        r0 - 1 <= r <= r1,
    ensures
        weighed(rect_cells(c0, r0, c1, r1), weight) == weighed(
            rect_cells(c0, r0, c1, r),
            weight,
        ) + weighed(rect_cells(c0, r + 1, c1, r1), weight),
    decreases r1 - r,
{
    if r < r1 {
        lemma_weighed_rows(c0, r0, c1, r1 - 1, r, weight);
        let line = row_cells(c0, c1, r1);
        lemma_weighed_joined(rect_cells(c0, r0, c1, r1 - 1), line, weight);
        lemma_weighed_joined(rect_cells(c0, r + 1, c1, r1 - 1), line, weight);
    } else {
        assert(rect_cells(c0, r + 1, c1, r1) =~= seq![]);
    }
}

proof fn lemma_weighed_cols(
    c0: int,
    r0: int,
    c1: int,
    r1: int,
    c: int,
    weight: spec_fn(int) -> int,
)
    requires
        c0 - 1 <= c <= c1,
    ensures
        weighed(rect_cells(c0, r0, c1, r1), weight) == weighed(
            rect_cells(c0, r0, c, r1),
            weight,
        ) + weighed(rect_cells(c + 1, r0, c1, r1), weight),
    decreases r1 - r0 + 1,
{
    if r0 <= r1 {
        lemma_weighed_cols(c0, r0, c1, r1 - 1, c, weight);
        let a = row_cells(c0, c, r1);
        let b = row_cells(c + 1, c1, r1);
        assert(row_cells(c0, c1, r1) =~= a + b);
        lemma_weighed_joined(a, b, weight);
        lemma_weighed_joined(rect_cells(c0, r0, c1, r1 - 1), row_cells(c0, c1, r1), weight);
        lemma_weighed_joined(rect_cells(c0, r0, c, r1 - 1), a, weight);
        lemma_weighed_joined(rect_cells(c + 1, r0, c1, r1 - 1), b, weight);
    }
}

/// A total that fits is what the cells' values make together.
proof fn lemma_total_weighs(cells: Seq<int>, vals: Seq<i64>)
    ensures
        total(cells, vals) is Some ==> total(cells, vals)->Some_0 == weighed(
            cells,
            |i: int| vals[i] as int,
        ),
    decreases cells.len(),
{
    if cells.len() > 0 {
        lemma_total_weighs(cells.drop_last(), vals);
    }
}

proof fn lemma_count_weighs(cells: Seq<int>, nums: Seq<bool>)
    ensures
        numeric_count(cells, nums) == weighed(
            cells,
            |i: int|
                if nums[i] {
                    1int
                } else {
                    0
                },
        ),
        numeric_count(cells, nums) <= cells.len(),
    decreases cells.len(),
{
    if cells.len() > 0 {
        lemma_count_weighs(cells.drop_last(), nums);
    }
}

/// Cells none of which is large have a total.
proof fn lemma_total_fits(cells: Seq<int>, vals: Seq<i64>, m: int)
    requires
        0 <= m,
        cells.len() * m <= i64::MAX,
        forall|k: int| 0 <= k < cells.len() ==> -m <= vals[#[trigger] cells[k]] <= m,
    ensures
        total(cells, vals) is Some,
        -(cells.len() * m) <= total(cells, vals)->Some_0 <= cells.len() * m,
    decreases cells.len(),
{
    if cells.len() > 0 {
        let rest = cells.drop_last();
        let n = cells.len() as int;
        assert forall|k: int| 0 <= k < rest.len() implies -m <= vals[#[trigger] rest[k]] <= m by {
            assert(rest[k] == cells[k]);
        }
        assert(n * m == (n - 1) * m + m) by (nonlinear_arith);
        lemma_total_fits(rest, vals, m);
        assert(-m <= vals[cells[n - 1]] <= m);
    }
}

/// `SUM` over one cell is that cell.
pub proof fn law_sum_of_one_cell(col: int, row: int, vals: Seq<i64>, nums: Seq<bool>)
    requires
        on_grid(col, row),
    ensures
        range_value(bytes_of("SUM"), col, row, col, row, vals, nums) == Some(vals[26 * row + col]),
{
    lemma_range_names();
    lemma_range_text(bytes_of("SUM"), Aggregate::Sum, col, row, col, row);
    let cells = rect_cells(col, row, col, row);
    assert(rect_cells(col, row, col, row - 1) =~= seq![]);
    assert(cells =~= seq![index_of(col, row)]);
    assert(cells.drop_last() =~= seq![]);
    assert(total(cells.drop_last(), vals) == Some(0i64));
}

/// `SUM` over a range is `SUM` over its upper rows and its lower rows together,
/// and `SUM` over its left columns and its right columns together.
pub proof fn law_sum_splits(
    c0: int,
    r0: int,
    c1: int,
    r1: int,
    c: int,
    r: int,
    vals: Seq<i64>,
    nums: Seq<bool>,
)
    requires
        on_grid(c0, r0),
        on_grid(c1, r1),
        c0 <= c <= c1,
        r0 <= r <= r1,
    ensures
        ({
            let sum = |c0: int, r0: int, c1: int, r1: int|
                range_value(bytes_of("SUM"), c0, r0, c1, r1, vals, nums);
            &&& r < r1 && sum(c0, r0, c1, r1) is Some && sum(c0, r0, c1, r) is Some && sum(
                c0,
                r + 1,
                c1,
                r1,
            ) is Some ==> sum(c0, r0, c1, r1)->Some_0 == sum(c0, r0, c1, r)->Some_0 + sum(
                c0,
                r + 1,
                c1,
                r1,
            )->Some_0
            &&& c < c1 && sum(c0, r0, c1, r1) is Some && sum(c0, r0, c, r1) is Some && sum(
                c + 1,
                r0,
                c1,
                r1,
            ) is Some ==> sum(c0, r0, c1, r1)->Some_0 == sum(c0, r0, c, r1)->Some_0 + sum(
                c + 1,
                r0,
                c1,
                r1,
            )->Some_0
        }),
{
    let word = bytes_of("SUM");
    let weight = |i: int| vals[i] as int;
    lemma_range_names();
    lemma_range_text(word, Aggregate::Sum, c0, r0, c1, r1);
    lemma_total_weighs(rect_cells(c0, r0, c1, r1), vals);
    if r < r1 {
        lemma_range_text(word, Aggregate::Sum, c0, r0, c1, r);
        lemma_range_text(word, Aggregate::Sum, c0, r + 1, c1, r1);
        lemma_total_weighs(rect_cells(c0, r0, c1, r), vals);
        lemma_total_weighs(rect_cells(c0, r + 1, c1, r1), vals);
        lemma_weighed_rows(c0, r0, c1, r1, r, weight);
    }
    if c < c1 {
        lemma_range_text(word, Aggregate::Sum, c0, r0, c, r1);
        lemma_range_text(word, Aggregate::Sum, c + 1, r0, c1, r1);
        lemma_total_weighs(rect_cells(c0, r0, c, r1), vals);
        lemma_total_weighs(rect_cells(c + 1, r0, c1, r1), vals);
        lemma_weighed_cols(c0, r0, c1, r1, c, weight);
    }
}

/// `SUM` has a value where no cell of the range is too large for all cells of
/// a sheet to have a sum.
pub proof fn law_sum_has_value(
    ca: int,
    ra: int,
    cb: int,
    rb: int,
    vals: Seq<i64>,
    nums: Seq<bool>,
)
    requires
        on_grid(ca, ra),
        on_grid(cb, rb),
        forall|col: int, row: int| #[trigger]
            spans(ca, ra, cb, rb, col, row) ==> -7_000_000_000_000_000 <= vals[26 * row + col]
                <= 7_000_000_000_000_000,
    ensures
        range_value(bytes_of("SUM"), ca, ra, cb, rb, vals, nums) is Some,
{
    lemma_range_names();
    lemma_range_text(bytes_of("SUM"), Aggregate::Sum, ca, ra, cb, rb);
    let (c0, r0) = (least_of(ca, cb), least_of(ra, rb));
    let (c1, r1) = (most_of(ca, cb), most_of(ra, rb));
    let cells = rect_cells(c0, r0, c1, r1);
    let m = 7_000_000_000_000_000int;
    assert forall|k: int| 0 <= k < cells.len() implies -m <= vals[#[trigger] cells[k]] <= m by {
        let at = lemma_rect_lies(c0, r0, c1, r1, k);
        assert(spans(ca, ra, cb, rb, at.0, at.1));
    }
    lemma_rect_cells_len(c0, r0, c1, r1);
    assert((c1 - c0 + 1) * (r1 - r0 + 1) <= 1300) by (nonlinear_arith)
        requires
            1 <= c1 - c0 + 1 <= 26,
            1 <= r1 - r0 + 1 <= 50,
    ;
    lemma_total_fits(cells, vals, m);
}

/// The corners of a range may be given in any order.
pub proof fn law_corners_in_any_order(
    word: Seq<u8>,
    over: Aggregate,
    ca: int,
    ra: int,
    cb: int,
    rb: int,
    vals: Seq<i64>,
    nums: Seq<bool>,
)
    requires
        on_grid(ca, ra),
        on_grid(cb, rb),
        word.len() > 0,
        forall|i: int| 0 <= i < word.len() ==> is_alpha(#[trigger] word[i]),
        function_named(word) == Some(Function::Over(over)),
    ensures
        range_value(word, ca, ra, cb, rb, vals, nums) == range_value(
            word,
            cb,
            rb,
            ca,
            ra,
            vals,
            nums,
        ),
        range_value(word, ca, ra, cb, rb, vals, nums) == range_value(
            word,
            ca,
            rb,
            cb,
            ra,
            vals,
            nums,
        ),
{
    lemma_range_text(word, over, ca, ra, cb, rb);
    lemma_range_text(word, over, cb, rb, ca, ra);
    lemma_range_text(word, over, ca, rb, cb, ra);
}

/// `AVG` times the number of cells is `SUM`, but for what is cut off toward
/// zero.
pub proof fn law_avg_shares_sum(
    ca: int,
    ra: int,
    cb: int,
    rb: int,
    vals: Seq<i64>,
    nums: Seq<bool>,
)
    requires
        on_grid(ca, ra),
        on_grid(cb, rb),
    ensures
        ({
            let a = range_value(bytes_of("AVG"), ca, ra, cb, rb, vals, nums);
            let s = range_value(bytes_of("SUM"), ca, ra, cb, rb, vals, nums);
            let n = (magnitude(cb - ca) + 1) * (magnitude(rb - ra) + 1);
            &&& a is Some <==> s is Some
            &&& a is Some ==> magnitude(a->Some_0 as int) * n <= magnitude(s->Some_0 as int) < (
            magnitude(a->Some_0 as int) + 1) * n
            &&& a is Some && a->Some_0 != 0 ==> (a->Some_0 < 0 <==> s->Some_0 < 0)
        }),
{
    lemma_range_names();
    lemma_range_text(bytes_of("AVG"), Aggregate::Avg, ca, ra, cb, rb);
    lemma_range_text(bytes_of("SUM"), Aggregate::Sum, ca, ra, cb, rb);
    let (c0, r0) = (least_of(ca, cb), least_of(ra, rb));
    let (c1, r1) = (most_of(ca, cb), most_of(ra, rb));
    let cells = rect_cells(c0, r0, c1, r1);
    lemma_rect_cells_len(c0, r0, c1, r1);
    let n = (magnitude(cb - ca) + 1) * (magnitude(rb - ra) + 1);
    assert(cells.len() == n);
    assert(n >= 1) by (nonlinear_arith)
        requires
            n == (magnitude(cb - ca) + 1) * (magnitude(rb - ra) + 1),
            magnitude(cb - ca) >= 0,
            magnitude(rb - ra) >= 0,
    ;
    if total(cells, vals) is Some {
        let s = magnitude(total(cells, vals)->Some_0 as int);
        let q = s / n;
        assert(q * n <= s < (q + 1) * n && 0 <= q <= s) by (nonlinear_arith)
            requires
                q == s / n,
                n >= 1,
                s >= 0,
        ;
        if s == i64::MAX + 1 && n == 1 {
            assert(q == s);
        }
    }
}

/// `COUNT` over one cell is one if it holds a number, and zero if not.
pub proof fn law_count_of_one_cell(col: int, row: int, vals: Seq<i64>, nums: Seq<bool>)
    requires
        on_grid(col, row),
    ensures
        range_value(bytes_of("COUNT"), col, row, col, row, vals, nums) == Some(
            if nums[26 * row + col] {
                ONE
            } else {
                0
            },
        ),
{
    law_sum_of_one_cell(col, row, vals, nums);
    lemma_range_names();
    lemma_range_text(bytes_of("SUM"), Aggregate::Sum, col, row, col, row);
    lemma_range_text(bytes_of("COUNT"), Aggregate::Count, col, row, col, row);
    let cells = rect_cells(col, row, col, row);
    assert(rect_cells(col, row, col, row - 1) =~= seq![]);
    assert(cells =~= seq![index_of(col, row)]);
    assert(cells.drop_last() =~= seq![]);
    assert(numeric_count(cells.drop_last(), nums) == 0);
}

/// `COUNT` over a range is `COUNT` over its upper rows and its lower rows
/// together, and over its left columns and its right columns together.
pub proof fn law_count_splits(
    c0: int,
    r0: int,
    c1: int,
    r1: int,
    c: int,
    r: int,
    vals: Seq<i64>,
    nums: Seq<bool>,
)
    requires
        on_grid(c0, r0),
        on_grid(c1, r1),
        c0 <= c <= c1,
        r0 <= r <= r1,
    ensures
        ({
            let count = |c0: int, r0: int, c1: int, r1: int|
                range_value(bytes_of("COUNT"), c0, r0, c1, r1, vals, nums);
            &&& r < r1 && count(c0, r0, c1, r1) is Some && count(c0, r0, c1, r) is Some && count(
                c0,
                r + 1,
                c1,
                r1,
            ) is Some ==> count(c0, r0, c1, r1)->Some_0 == count(c0, r0, c1, r)->Some_0 + count(
                c0,
                r + 1,
                c1,
                r1,
            )->Some_0
            &&& c < c1 && count(c0, r0, c1, r1) is Some && count(c0, r0, c, r1) is Some && count(
                c + 1,
                r0,
                c1,
                r1,
            ) is Some ==> count(c0, r0, c1, r1)->Some_0 == count(c0, r0, c, r1)->Some_0 + count(
                c + 1,
                r0,
                c1,
                r1,
            )->Some_0
            &&& count(c0, r0, c1, r1) is Some <==> range_value(
                bytes_of("SUM"),
                c0,
                r0,
                c1,
                r1,
                vals,
                nums,
            ) is Some
        }),
{
    let word = bytes_of("COUNT");
    let weight = |i: int|
        if nums[i] {
            1int
        } else {
            0
        };
    lemma_range_names();
    lemma_range_text(bytes_of("SUM"), Aggregate::Sum, c0, r0, c1, r1);
    lemma_range_text(word, Aggregate::Count, c0, r0, c1, r1);
    lemma_count_weighs(rect_cells(c0, r0, c1, r1), nums);
    lemma_rect_cells_len(c0, r0, c1, r1);
    assert((c1 - c0 + 1) * (r1 - r0 + 1) <= 1300) by (nonlinear_arith)
        requires
            1 <= c1 - c0 + 1 <= 26,
            1 <= r1 - r0 + 1 <= 50,
    ;
    if r < r1 {
        lemma_range_text(word, Aggregate::Count, c0, r0, c1, r);
        lemma_range_text(word, Aggregate::Count, c0, r + 1, c1, r1);
        lemma_count_weighs(rect_cells(c0, r0, c1, r), nums);
        lemma_count_weighs(rect_cells(c0, r + 1, c1, r1), nums);
        lemma_weighed_rows(c0, r0, c1, r1, r, weight);
    }
    if c < c1 {
        lemma_range_text(word, Aggregate::Count, c0, r0, c, r1);
        lemma_range_text(word, Aggregate::Count, c + 1, r0, c1, r1);
        lemma_count_weighs(rect_cells(c0, r0, c, r1), nums);
        lemma_count_weighs(rect_cells(c + 1, r0, c1, r1), nums);
        lemma_weighed_cols(c0, r0, c1, r1, c, weight);
    }
}

// ---------------------------------------------------------------------------
// The readout of a selection
// ---------------------------------------------------------------------------

proof fn lemma_stats_weigh(cells: Seq<int>, results: Seq<(i64, Kind)>, m: int)
    requires
        0 <= m,
        cells.len() * m <= i64::MAX,
    ensures
        sum_and_count(cells, results).1 == weighed(
            cells,
            |i: int|
                if results[i].1 == Kind::Num {
                    1int
                } else {
                    0
                },
        ),
        (forall|k: int| 0 <= k < cells.len() ==> -m <= results[#[trigger] cells[k]].0 <= m) ==> {
            &&& sum_and_count(cells, results).0 == weighed(
                cells,
                |i: int|
                    if results[i].1 == Kind::Num {
                        results[i].0 as int
                    } else {
                        0
                    },
            )
            &&& -(cells.len() * m) <= sum_and_count(cells, results).0 <= cells.len() * m
        },
    decreases cells.len(),
{
    if cells.len() > 0 {
        let rest = cells.drop_last();
        let n = cells.len() as int;
        assert(n * m == (n - 1) * m + m) by (nonlinear_arith);
        lemma_stats_weigh(rest, results, m);
        if forall|k: int| 0 <= k < cells.len() ==> -m <= results[#[trigger] cells[k]].0 <= m {
            assert forall|k: int| 0 <= k < rest.len() implies -m
                <= results[#[trigger] rest[k]].0 <= m by {
                assert(rest[k] == cells[k]);
            }
            assert(-m <= results[cells[n - 1]].0 <= m);
        }
    }
}

/// The readout of one cell: its value and one if it is a number, else nothing.
pub proof fn law_stats_of_one_cell(g: Grid, col: int, row: int)
    requires
        on_grid(col, row),
    ensures
        g.results[26 * row + col].1 == Kind::Num ==> g.stats(col, row, col, row) == (
            g.results[26 * row + col].0,
            1nat,
        ),
        g.results[26 * row + col].1 != Kind::Num ==> g.stats(col, row, col, row) == (0i64, 0nat),
{
    let cells = rect_cells(col, row, col, row);
    assert(rect_cells(col, row, col, row - 1) =~= seq![]);
    assert(cells =~= seq![index_of(col, row)]);
    assert(cells.drop_last() =~= seq![]);
    assert(sum_and_count(cells.drop_last(), g.results) == (0i64, 0nat));
}

/// No cell of a rectangle is too large for all cells of a sheet to have a sum.
pub open spec fn none_is_large(g: Grid, c0: int, r0: int, c1: int, r1: int) -> bool {
    forall|col: int, row: int|
        c0 <= col <= c1 && r0 <= row <= r1 ==> -7_000_000_000_000_000
            <= (#[trigger] g.results[index_of(col, row)]).0 <= 7_000_000_000_000_000
}

proof fn lemma_stats(g: Grid, c0: int, r0: int, c1: int, r1: int)
    requires
        on_grid(c0, r0),
        on_grid(c1, r1),
        c0 <= c1,
        r0 <= r1,
    ensures
        ({
            let cells = rect_cells(c0, r0, c1, r1);
            &&& g.stats(c0, r0, c1, r1).1 == weighed(
                cells,
                |i: int|
                    if g.results[i].1 == Kind::Num {
                        1int
                    } else {
                        0
                    },
            )
            &&& none_is_large(g, c0, r0, c1, r1) ==> g.stats(c0, r0, c1, r1).0 == weighed(
                cells,
                |i: int|
                    if g.results[i].1 == Kind::Num {
                        g.results[i].0 as int
                    } else {
                        0
                    },
            )
        }),
{
    let cells = rect_cells(c0, r0, c1, r1);
    let m = 7_000_000_000_000_000int;
    lemma_rect_cells_len(c0, r0, c1, r1);
    assert((c1 - c0 + 1) * (r1 - r0 + 1) <= 1300) by (nonlinear_arith)
        requires
            1 <= c1 - c0 + 1 <= 26,
            1 <= r1 - r0 + 1 <= 50,
    ;
    lemma_stats_weigh(cells, g.results, m);
    if none_is_large(g, c0, r0, c1, r1) {
        assert forall|k: int| 0 <= k < cells.len() implies -m <= g.results[#[trigger] cells[k]].0
            <= m by {
            let at = lemma_rect_lies(c0, r0, c1, r1, k);
            assert(-m <= g.results[index_of(at.0, at.1)].0 <= m);
        }
    }
}

/// The readout of a rectangle is that of its upper rows and its lower rows
/// together, and that of its left columns and its right columns together; the
/// sums, as long as no cell is very large.
pub proof fn law_stats_split(g: Grid, c0: int, r0: int, c1: int, r1: int, c: int, r: int)
    requires
        on_grid(c0, r0),
        on_grid(c1, r1),
        c0 <= c <= c1,
        r0 <= r <= r1,
    ensures
        r < r1 ==> g.stats(c0, r0, c1, r1).1 == g.stats(c0, r0, c1, r).1 + g.stats(
            c0,
            r + 1,
            c1,
            r1,
        ).1,
        c < c1 ==> g.stats(c0, r0, c1, r1).1 == g.stats(c0, r0, c, r1).1 + g.stats(
            c + 1,
            r0,
            c1,
            r1,
        ).1,
        none_is_large(g, c0, r0, c1, r1) && r < r1 ==> g.stats(c0, r0, c1, r1).0 == g.stats(
            c0,
            r0,
            c1,
            r,
        ).0 + g.stats(c0, r + 1, c1, r1).0,
        none_is_large(g, c0, r0, c1, r1) && c < c1 ==> g.stats(c0, r0, c1, r1).0 == g.stats(
            c0,
            r0,
            c,
            r1,
        ).0 + g.stats(c + 1, r0, c1, r1).0,
{
    let ones = |i: int|
        if g.results[i].1 == Kind::Num {
            1int
        } else {
            0
        };
    let values = |i: int|
        if g.results[i].1 == Kind::Num {
            g.results[i].0 as int
        } else {
            0
        };
    lemma_stats(g, c0, r0, c1, r1);
    if r < r1 {
        lemma_stats(g, c0, r0, c1, r);
        lemma_stats(g, c0, r + 1, c1, r1);
        lemma_weighed_rows(c0, r0, c1, r1, r, ones);
        lemma_weighed_rows(c0, r0, c1, r1, r, values);
    }
    if c < c1 {
        lemma_stats(g, c0, r0, c, r1);
        lemma_stats(g, c + 1, r0, c1, r1);
        lemma_weighed_cols(c0, r0, c1, r1, c, ones);
        lemma_weighed_cols(c0, r0, c1, r1, c, values);
    }
}

/// A rectangle that reaches beyond the grid counts as far as the grid does.
pub proof fn law_stats_stop_at_edge(g: Grid, c0: int, r0: int, c1: int, r1: int)
    requires
        c1 >= 25,
        r1 >= 49,
    ensures
        g.stats(c0, r0, c1, r1) == g.stats(c0, r0, 25, 49),
{
}

/// A formula reads what the sheet shows: a cell's name is worth the cell's
/// value, and `COUNT` counts a cell if it shows a number.
pub proof fn law_formula_reads_what_is_shown(g: Grid, col: int, row: int)
    requires
        g.results.len() == 1300,
        on_grid(col, row),
    ensures
        factor_value(cell_name(col, row), vals(g.results), nums(g.results)) == Some(
            g.results[26 * row + col].0,
        ),
        range_value(
            bytes_of("COUNT"),
            col,
            row,
            col,
            row,
            vals(g.results),
            nums(g.results),
        ) == Some(
            if g.results[26 * row + col].1 == Kind::Num {
                ONE
            } else {
                0
            },
        ),
{
    law_reference_reads_cell(col, row, vals(g.results), nums(g.results));
    law_count_of_one_cell(col, row, vals(g.results), nums(g.results));
}

/// A cell's name reads that cell alone.
pub proof fn law_reference_reads_one_cell(ca: int, ra: int, col: int, row: int)
    requires
        on_grid(ca, ra),
        on_grid(col, row),
    ensures
        text_reads(seq![EQUALS] + cell_name(ca, ra), 26 * row + col) <==> col == ca && row == ra,
{
    let name = cell_name(ca, ra);
    let raw = seq![EQUALS] + name;
    assert(raw.subrange(1, raw.len() as int) =~= name);
    lemma_name_is_formula(ca, ra);
    assert(index_of(ca, ra) == 26 * row + col <==> col == ca && row == ra);
}

proof fn lemma_reads_of(text: Seq<u8>, e: Expr, i: int)
    requires
        formula(text) == Some(e),
    ensures
        text_reads(seq![EQUALS] + text, i) <==> reads(e, i),
{
    let raw = seq![EQUALS] + text;
    assert(raw.subrange(1, raw.len() as int) =~= text);
}

proof fn lemma_formula_of_range(ca: int, ra: int, cb: int, rb: int)
    requires
        on_grid(ca, ra),
        on_grid(cb, rb),
    ensures
        formula(range_text(bytes_of("SUM"), ca, ra, cb, rb)) == Some(
            Expr::Range {
                over: Aggregate::Sum,
                c0: least_of(ca, cb),
                r0: least_of(ra, rb),
                c1: most_of(ca, cb),
                r1: most_of(ra, rb),
            },
        ),
{
    let text = range_text(bytes_of("SUM"), ca, ra, cb, rb);
    lemma_range_names();
    lemma_range_text(bytes_of("SUM"), Aggregate::Sum, ca, ra, cb, rb);
    lemma_formula_of_factor(text);
}

proof fn lemma_formula_of_factor(text: Seq<u8>)
    requires
        factor_of(text) is Some,
    ensures
        formula(text) == factor_of(text),
{
    let none = Seq::<i64>::empty();
    let no = Seq::<bool>::empty();
    law_factor_is_term(text, none, no);
    law_term_is_sum(text, none, no);
    law_sum_is_side(text, none, no);
    law_cell_shows_value(text, none, no);
}

/// A function over a range reads the cells between its corners alone.
pub proof fn law_range_reads_its_cells(ca: int, ra: int, cb: int, rb: int, col: int, row: int)
    requires
        on_grid(ca, ra),
        on_grid(cb, rb),
        on_grid(col, row),
    ensures
        text_reads(seq![EQUALS] + range_text(bytes_of("SUM"), ca, ra, cb, rb), 26 * row + col)
            <==> spans(ca, ra, cb, rb, col, row),
{
    let i = index_of(col, row);
    let (c0, r0) = (least_of(ca, cb), least_of(ra, rb));
    let (c1, r1) = (most_of(ca, cb), most_of(ra, rb));
    let e = Expr::Range { over: Aggregate::Sum, c0, r0, c1, r1 };
    lemma_formula_of_range(ca, ra, cb, rb);
    lemma_reads_of(range_text(bytes_of("SUM"), ca, ra, cb, rb), e, i);
    let cells = rect_cells(c0, r0, c1, r1);
    if spans(ca, ra, cb, rb, col, row) {
        lemma_rect_has(c0, r0, c1, r1, col, row);
    }
    if cells.contains(i) {
        let k = choose|k: int| 0 <= k < cells.len() && cells[k] == i;
        let at = lemma_rect_lies(c0, r0, c1, r1, k);
        assert(at.0 == col && at.1 == row);
    }
}

} // verus!
