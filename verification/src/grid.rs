//! The dimensions of the sheet and the order of its cells.

use vstd::prelude::*;

verus! {

/// Columns A to Z.
pub const COLS: usize = 26;

/// Rows 1 to 50.
pub const ROWS: usize = 50;

/// Cells of the whole sheet.
pub const NCELLS: usize = 1300;

/// The most raw characters that a cell holds.
pub const INPUT_CAP: usize = 24;

/// What a cell turned out to be.
#[derive(Copy, Clone, PartialEq, Eq, Structural)]
pub enum Kind {
    Empty,
    Num,
    Text,
    Error,
}

/// The place of column `col` of row `row` among the cells, row after row.
pub open spec fn index_of(col: int, row: int) -> int {
    row * COLS + col
}

pub open spec fn on_grid(col: int, row: int) -> bool {
    0 <= col < COLS && 0 <= row < ROWS
}

/// The cells of columns `c0..=c1` of one row, from left to right.
pub open spec fn row_cells(c0: int, c1: int, row: int) -> Seq<int> {
    if c1 < c0 {
        seq![]
    } else {
        Seq::new((c1 - c0 + 1) as nat, |k: int| index_of(c0 + k, row))
    }
}

/// The cells of the rectangle `(c0, r0)..=(c1, r1)`, row after row.
pub open spec fn rect_cells(c0: int, r0: int, c1: int, r1: int) -> Seq<int>
    decreases r1 - r0 + 1,
{
    if r1 < r0 {
        seq![]
    } else {
        rect_cells(c0, r0, c1, r1 - 1) + row_cells(c0, c1, r1)
    }
}

pub open spec fn in_rect(c0: int, r0: int, c1: int, r1: int, i: int) -> bool {
    c0 <= i % COLS as int <= c1 && r0 <= i / COLS as int <= r1
}

/// The smaller of two positions.
pub open spec fn least_of(a: int, b: int) -> int {
    if a <= b {
        a
    } else {
        b
    }
}

/// The larger of two positions.
pub open spec fn most_of(a: int, b: int) -> int {
    if a >= b {
        a
    } else {
        b
    }
}

pub proof fn lemma_row_cells_push(c0: int, c1: int, row: int)
    requires
        c0 <= c1,
    ensures
        row_cells(c0, c1, row) == row_cells(c0, c1 - 1, row).push(index_of(c1, row)),
{
    assert(row_cells(c0, c1, row) =~= row_cells(c0, c1 - 1, row).push(index_of(c1, row)));
}

/// The cells of a rectangle on the grid are cells of the grid.
pub proof fn lemma_rect_cells_on_grid(c0: int, r0: int, c1: int, r1: int)
    requires
        0 <= c0,
        0 <= r0,
        c1 < COLS,
        r1 < ROWS,
    ensures
        forall|k: int|
            0 <= k < rect_cells(c0, r0, c1, r1).len() ==> 0 <= #[trigger] rect_cells(
                c0,
                r0,
                c1,
                r1,
            )[k] < NCELLS,
    decreases r1 - r0 + 1,
{
    if r0 <= r1 {
        lemma_rect_cells_on_grid(c0, r0, c1, r1 - 1);
        let a = rect_cells(c0, r0, c1, r1 - 1);
        let b = row_cells(c0, c1, r1);
        assert forall|k: int| 0 <= k < (a + b).len() implies 0 <= #[trigger] (a + b)[k] < NCELLS by {
            if k < a.len() {
                assert((a + b)[k] == a[k]);
            } else {
                assert((a + b)[k] == b[k - a.len()]);
            }
        }
    }
}

/// How many cells a rectangle has.
pub proof fn lemma_rect_cells_len(c0: int, r0: int, c1: int, r1: int)
    requires
        c0 <= c1,
        r0 <= r1 + 1,
    ensures
        rect_cells(c0, r0, c1, r1).len() == (c1 - c0 + 1) * (r1 - r0 + 1),
    decreases r1 - r0 + 1,
{
    if r0 <= r1 {
        lemma_rect_cells_len(c0, r0, c1, r1 - 1);
        assert((c1 - c0 + 1) * (r1 - r0 + 1) == (c1 - c0 + 1) * (r1 - r0) + (c1 - c0 + 1))
            by (nonlinear_arith);
    } else {
        assert((c1 - c0 + 1) * (r1 - r0 + 1) == 0) by (nonlinear_arith)
            requires
                r1 - r0 + 1 == 0,
        ;
    }
}

/// The place of a cell, `row * COLS + col`.
pub fn idx(col: usize, row: usize) -> (i: usize)
    requires
        index_of(col as int, row as int) <= usize::MAX,
    ensures
        i == index_of(col as int, row as int),
{
    row * COLS + col
}

/// The smaller of two positions.
pub fn min_of(a: usize, b: usize) -> (m: usize)
    ensures
        m == least_of(a as int, b as int),
{
    if a <= b {
        a
    } else {
        b
    }
}

/// The larger of two positions.
pub fn max_of(a: usize, b: usize) -> (m: usize)
    ensures
        m == most_of(a as int, b as int),
{
    if a >= b {
        a
    } else {
        b
    }
}

} // verus!
