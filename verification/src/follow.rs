//! Inserting or deleting a row or column leaves the values of a sheet as they
//! were, where the formulas' data moved along.

use vstd::prelude::*;

use crate::ascii::{alphas_end, digits_end, is_alpha, lemma_alphas_end, lemma_digits_end};
use crate::calc::{is_settled, law_settled_stays, nums, sweep, vals};
use crate::formula::{
    classified, eval, formula, is_formula, largest, numeric_count, reads, smallest, total, Expr,
};
use crate::grammar::{law_formula_names_grid, lemma_reads_grid, lemma_tail_digits, names_grid};
use crate::grid::{
    index_of, lemma_rect_cells_on_grid, on_grid, rect_cells, Kind, COLS, INPUT_CAP, NCELLS, ROWS,
};
use crate::refs::{
    law_shift_stays_on_grid, ref_starts, rewritten, rewritten_from, shifted, truncated, Shift,
};
use crate::repoint::{keeps_targets, law_rewriting_moves_references, shifted_expr};
use crate::sheet::Grid;

verus! {

/// Where a shift takes cell `i`.
pub open spec fn moved_cell(shift: Shift, i: int) -> int {
    let (c, r) = shifted(shift, i % COLS as int, i / COLS as int)->Some_0;
    index_of(c, r)
}

/// Whether a shift takes cell `i` to a place of its own: it neither removes it
/// nor pushes it off the grid.
pub open spec fn stays_on_sheet(shift: Shift, i: int) -> bool {
    let col = i % COLS as int;
    let row = i / COLS as int;
    &&& shifted(shift, col, row) is Some
    &&& match shift {
        Shift::Fill { dcol, drow } => on_grid(col + dcol, row + drow),
        Shift::Rows { at, delta } => row < at || 0 <= row + delta < ROWS,
        Shift::Cols { at, delta } => col < at || 0 <= col + delta < COLS,
    }
}

/// Whether every range of an expression covers, after the shift, the cells
/// that it covered before, one for one.
pub open spec fn moves_whole(e: Expr, shift: Shift) -> bool
    decreases e,
{
    match e {
        Expr::Number(_) => true,
        Expr::Cell { col, row } => true,
        Expr::One(_, a) => moves_whole(*a, shift),
        Expr::Two(_, a, b) => moves_whole(*a, shift) && moves_whole(*b, shift),
        Expr::If(c, a, b) => moves_whole(*c, shift) && moves_whole(*a, shift) && moves_whole(
            *b,
            shift,
        ),
        Expr::Range { over, c0, r0, c1, r1 } => {
            let (ca, ra) = shifted(shift, c0, r0)->Some_0;
            let (cb, rb) = shifted(shift, c1, r1)->Some_0;
            let cells = rect_cells(c0, r0, c1, r1);
            rect_cells(ca, ra, cb, rb) == Seq::new(
                cells.len(),
                |k: int| moved_cell(shift, cells[k]),
            )
        },
    }
}

/// Whether a shift leaves a formula's meaning alone: its rewritten text fits
/// the cell, and all that it reads stays on the sheet, each range as a whole.
/// A text that is no well-formed formula must not become one.
pub open spec fn undisturbed(raw: Seq<u8>, shift: Shift) -> bool {
    is_formula(raw) ==> {
        let now = rewritten(raw, shift);
        &&& now.len() <= INPUT_CAP
        &&& match formula(raw.subrange(1, raw.len() as int)) {
            Some(e) => {
                &&& keeps_targets(e, shift)
                &&& moves_whole(e, shift)
                &&& forall|i: int| #[trigger] reads(e, i) ==> stays_on_sheet(shift, i)
            },
            None => formula(now.subrange(1, now.len() as int)) is None,
        }
    }
}

proof fn lemma_aggregate_moved(
    a: Seq<int>,
    v1: Seq<i64>,
    n1: Seq<bool>,
    b: Seq<int>,
    v2: Seq<i64>,
    n2: Seq<bool>,
)
    requires
        a.len() == b.len(),
        forall|k: int|
            0 <= k < a.len() ==> v1[#[trigger] a[k]] == v2[b[k]] && n1[a[k]] == n2[b[k]],
    ensures
        total(a, v1) == total(b, v2),
        smallest(a, v1) == smallest(b, v2),
        largest(a, v1) == largest(b, v2),
        numeric_count(a, n1) == numeric_count(b, n2),
    decreases a.len(),
{
    if a.len() > 0 {
        let x = a.drop_last();
        let y = b.drop_last();
        assert forall|k: int| 0 <= k < x.len() implies v1[#[trigger] x[k]] == v2[y[k]] && n1[x[k]]
            == n2[y[k]] by {
            assert(x[k] == a[k]);
        }
        lemma_aggregate_moved(x, v1, n1, y, v2, n2);
        assert(a.last() == a[a.len() - 1]);
    }
}

/// An expression whose references move with the results that they name keeps
/// its value.
pub proof fn law_value_follows_data(
    e: Expr,
    shift: Shift,
    before: Seq<(i64, Kind)>,
    after: Seq<(i64, Kind)>,
)
    requires
        before.len() == NCELLS,
        after.len() == NCELLS,
        names_grid(e),
        keeps_targets(e, shift),
        moves_whole(e, shift),
        forall|i: int| #[trigger] reads(e, i) ==> after[moved_cell(shift, i)] == before[i],
    ensures
        eval(shifted_expr(e, shift), vals(after), nums(after)) == eval(
            e,
            vals(before),
            nums(before),
        ),
    decreases e,
{
    match e {
        Expr::Number(_) => {},
        Expr::Cell { col, row } => {
            let i = index_of(col, row);
            assert(reads(e, i));
            law_shift_stays_on_grid(shift, col, row);
            assert(i % COLS as int == col && i / COLS as int == row);
        },
        Expr::One(_, a) => {
            assert forall|i: int| #[trigger] reads(*a, i) implies after[moved_cell(shift, i)]
                == before[i] by {
                assert(reads(e, i));
            }
            law_value_follows_data(*a, shift, before, after);
        },
        Expr::Two(_, a, b) => {
            assert forall|i: int| #[trigger] reads(*a, i) implies after[moved_cell(shift, i)]
                == before[i] by {
                assert(reads(e, i));
            }
            assert forall|i: int| #[trigger] reads(*b, i) implies after[moved_cell(shift, i)]
                == before[i] by {
                assert(reads(e, i));
            }
            law_value_follows_data(*a, shift, before, after);
            law_value_follows_data(*b, shift, before, after);
        },
        Expr::If(c, a, b) => {
            assert forall|i: int| #[trigger] reads(*c, i) implies after[moved_cell(shift, i)]
                == before[i] by {
                assert(reads(e, i));
            }
            assert forall|i: int| #[trigger] reads(*a, i) implies after[moved_cell(shift, i)]
                == before[i] by {
                assert(reads(e, i));
            }
            assert forall|i: int| #[trigger] reads(*b, i) implies after[moved_cell(shift, i)]
                == before[i] by {
                assert(reads(e, i));
            }
            law_value_follows_data(*c, shift, before, after);
            law_value_follows_data(*a, shift, before, after);
            law_value_follows_data(*b, shift, before, after);
        },
        Expr::Range { over, c0, r0, c1, r1 } => {
            let (ca, ra) = shifted(shift, c0, r0)->Some_0;
            let (cb, rb) = shifted(shift, c1, r1)->Some_0;
            law_shift_stays_on_grid(shift, c0, r0);
            law_shift_stays_on_grid(shift, c1, r1);
            let old_cells = rect_cells(c0, r0, c1, r1);
            let new_cells = rect_cells(ca, ra, cb, rb);
            lemma_rect_cells_on_grid(c0, r0, c1, r1);
            lemma_rect_cells_on_grid(ca, ra, cb, rb);
            assert forall|k: int| 0 <= k < old_cells.len() implies vals(before)[#[trigger]
            old_cells[k]] == vals(after)[new_cells[k]] && nums(before)[old_cells[k]] == nums(
                after,
            )[new_cells[k]] by {
                assert(old_cells.contains(old_cells[k]));
                assert(reads(e, old_cells[k]));
                assert(new_cells[k] == moved_cell(shift, old_cells[k]));
            }
            lemma_aggregate_moved(
                old_cells,
                vals(before),
                nums(before),
                new_cells,
                vals(after),
                nums(after),
            );
        },
    }
}

// ---------------------------------------------------------------------------
// From the formula to the cell
// ---------------------------------------------------------------------------

proof fn lemma_tail_alphas(raw: Seq<u8>, p: int)
    requires
        1 <= p <= raw.len(),
    ensures
        alphas_end(raw.subrange(1, raw.len() as int), p - 1) == alphas_end(raw, p) - 1,
    decreases raw.len() - p,
{
    if p < raw.len() {
        assert(raw.subrange(1, raw.len() as int)[p - 1] == raw[p]);
        if is_alpha(raw[p]) {
            lemma_tail_alphas(raw, p + 1);
        }
    }
}

/// What is behind the first byte is rewritten alike without that byte.
proof fn lemma_tail_rewritten(raw: Seq<u8>, p: int, shift: Shift)
    requires
        1 <= p <= raw.len(),
    ensures
        rewritten_from(raw.subrange(1, raw.len() as int), p - 1, shift) == rewritten_from(
            raw,
            p,
            shift,
        ),
    decreases raw.len() - p,
{
    let b = raw.subrange(1, raw.len() as int);
    if p < raw.len() {
        assert(b[p - 1] == raw[p]);
        if is_alpha(raw[p]) {
            let j = alphas_end(raw, p);
            assert(j == alphas_end(raw, p + 1));
            lemma_alphas_end(raw, p + 1);
            lemma_tail_alphas(raw, p);
            if p + 1 < raw.len() {
                assert(b[p] == raw[p + 1]);
            }
            assert(ref_starts(raw, p) <==> ref_starts(b, p - 1));
            if j == p + 1 && ref_starts(raw, p) {
                lemma_digits_end(raw, j);
                lemma_tail_digits(raw, j);
                lemma_tail_rewritten(raw, digits_end(raw, j), shift);
            } else {
                assert(b.subrange(p - 1, j - 1) =~= raw.subrange(p, j));
                lemma_tail_rewritten(raw, j, shift);
            }
        } else {
            lemma_tail_rewritten(raw, p + 1, shift);
        }
    }
}

/// A formula's text is rewritten behind its `=`.
pub proof fn lemma_formula_rewritten(raw: Seq<u8>, shift: Shift)
    requires
        is_formula(raw),
    ensures
        ({
            let now = rewritten(raw, shift);
            &&& is_formula(now)
            &&& now.subrange(1, now.len() as int) == rewritten(
                raw.subrange(1, raw.len() as int),
                shift,
            )
        }),
{
    let now = rewritten(raw, shift);
    let rest = rewritten_from(raw, 1, shift);
    assert(now == seq![raw[0]] + rest);
    assert(now.subrange(1, now.len() as int) =~= rest);
    lemma_tail_rewritten(raw, 1, shift);
}

/// A cell's formula is worth the same after the shift.
proof fn lemma_cell_kept(
    raw: Seq<u8>,
    shift: Shift,
    before: Seq<(i64, Kind)>,
    after: Seq<(i64, Kind)>,
)
    requires
        before.len() == NCELLS,
        after.len() == NCELLS,
        is_formula(raw),
        undisturbed(raw, shift),
        forall|i: int|
            0 <= i < NCELLS && #[trigger] stays_on_sheet(shift, i) ==> after[moved_cell(shift, i)]
                == before[i],
    ensures
        classified(
            truncated(rewritten(raw, shift), INPUT_CAP as int),
            vals(after),
            nums(after),
        ) == classified(raw, vals(before), nums(before)),
{
    let b = raw.subrange(1, raw.len() as int);
    lemma_formula_rewritten(raw, shift);
    if let Some(e) = formula(b) {
        law_rewriting_moves_references(b, shift);
        law_formula_names_grid(b);
        assert forall|i: int| #[trigger] reads(e, i) implies after[moved_cell(shift, i)]
            == before[i] by {
            lemma_reads_grid(e, i);
            assert(stays_on_sheet(shift, i));
        }
        law_value_follows_data(e, shift, before, after);
    }
}

/// Whether every cell of `there` either came from `g` or is blank.
spec fn comes_from(g: Grid, there: Grid) -> bool {
    &&& there.texts.len() == NCELLS
    &&& there.results.len() == NCELLS
    &&& forall|j: int|
        0 <= j < NCELLS ==> {
            ||| #[trigger] there.texts[j] == Seq::<u8>::empty() && there.results[j] == (
                0i64,
                Kind::Empty,
            )
            ||| exists|i: int|
                0 <= i < NCELLS && there.texts[j] == #[trigger] g.texts[i] && there.results[j]
                    == g.results[i]
        }
}

proof fn lemma_sheet_kept(g: Grid, there: Grid, shift: Shift)
    requires
        g.wf(),
        is_settled(g.texts, g.results),
        comes_from(g, there),
        forall|i: int| 0 <= i < NCELLS ==> undisturbed(#[trigger] there.texts[i], shift),
        forall|i: int|
            0 <= i < NCELLS && #[trigger] stays_on_sheet(shift, i) ==> there.results[moved_cell(
                shift,
                i,
            )] == g.results[i],
    ensures
        there.repointed(shift).recalculated() == there.repointed(shift),
{
    let now = there.repointed(shift);
    let next = sweep(now.texts, now.results);
    assert forall|j: int| 0 <= j < NCELLS implies next[j] == there.results[j] by {
        let raw = there.texts[j];
        if !(raw == Seq::<u8>::empty() && there.results[j] == (0i64, Kind::Empty)) {
            let i = choose|i: int|
                0 <= i < NCELLS && there.texts[j] == #[trigger] g.texts[i] && there.results[j]
                    == g.results[i];
            assert(sweep(g.texts, g.results)[i] == g.results[i]);
            assert(there.results[j] == classified(raw, vals(g.results), nums(g.results)));
            if is_formula(raw) {
                lemma_cell_kept(raw, shift, g.results, there.results);
            }
        }
    }
    assert(next =~= now.results);
    law_settled_stays(now.texts, now.results);
}

/// Inserting a row leaves every value as it was, in its new place, if it does
/// not disturb the formulas.
#[verifier::rlimit(40)]
pub proof fn law_insert_row_keeps_values(g: Grid, at: usize)
    requires
        g.wf(),
        is_settled(g.texts, g.results),
        at < ROWS,
        forall|i: int|
            0 <= i < NCELLS ==> undisturbed(
                #[trigger] g.with_row(at as int).texts[i],
                (Shift::Rows { at, delta: 1 }),
            ),
    ensures
        g.with_row(at as int).repointed(Shift::Rows { at, delta: 1 }).recalculated().results
            == g.with_row(at as int).results,
{
    let shift = Shift::Rows { at, delta: 1 };
    let there = g.with_row(at as int);
    assert(comes_from(g, there)) by {
        assert forall|j: int| 0 <= j < NCELLS implies {
            ||| #[trigger] there.texts[j] == Seq::<u8>::empty() && there.results[j] == (
                0i64,
                Kind::Empty,
            )
            ||| exists|i: int|
                0 <= i < NCELLS && there.texts[j] == #[trigger] g.texts[i] && there.results[j]
                    == g.results[i]
        } by {
            let row = j / COLS as int;
            if row > at {
                assert(there.texts[j] == g.texts[j - COLS]);
            } else if row < at {
                assert(there.texts[j] == g.texts[j]);
            }
        }
    }
    assert forall|i: int| 0 <= i < NCELLS && #[trigger] stays_on_sheet(shift, i) implies
        there.results[moved_cell(shift, i)] == g.results[i] by {
        assert(0 <= moved_cell(shift, i) < NCELLS);
    }
    lemma_sheet_kept(g, there, shift);
}

/// Deleting a row leaves every other value as it was, in its new place, if it
/// does not disturb the formulas.
#[verifier::rlimit(40)]
pub proof fn law_delete_row_keeps_values(g: Grid, at: usize)
    requires
        g.wf(),
        is_settled(g.texts, g.results),
        at < ROWS,
        forall|i: int|
            0 <= i < NCELLS ==> undisturbed(
                #[trigger] g.without_row(at as int).texts[i],
                (Shift::Rows { at, delta: (-1) as i32 }),
            ),
    ensures
        g.without_row(at as int).repointed(
            Shift::Rows { at, delta: (-1) as i32 },
        ).recalculated().results == g.without_row(at as int).results,
{
    let shift = Shift::Rows { at, delta: (-1) as i32 };
    let there = g.without_row(at as int);
    assert(comes_from(g, there)) by {
        assert forall|j: int| 0 <= j < NCELLS implies {
            ||| #[trigger] there.texts[j] == Seq::<u8>::empty() && there.results[j] == (
                0i64,
                Kind::Empty,
            )
            ||| exists|i: int|
                0 <= i < NCELLS && there.texts[j] == #[trigger] g.texts[i] && there.results[j]
                    == g.results[i]
        } by {
            let row = j / COLS as int;
            if row < ROWS - 1 && row >= at {
                assert(there.texts[j] == g.texts[j + COLS]);
            } else if row < ROWS - 1 {
                assert(there.texts[j] == g.texts[j]);
            }
        }
    }
    assert forall|i: int| 0 <= i < NCELLS && #[trigger] stays_on_sheet(shift, i) implies
        there.results[moved_cell(shift, i)] == g.results[i] by {
        assert(0 <= moved_cell(shift, i) < NCELLS);
    }
    lemma_sheet_kept(g, there, shift);
}

/// Inserting a column leaves every value as it was, in its new place, if it
/// does not disturb the formulas.
#[verifier::rlimit(40)]
pub proof fn law_insert_col_keeps_values(g: Grid, at: usize)
    requires
        g.wf(),
        is_settled(g.texts, g.results),
        at < COLS,
        forall|i: int|
            0 <= i < NCELLS ==> undisturbed(
                #[trigger] g.with_col(at as int).texts[i],
                (Shift::Cols { at, delta: 1 }),
            ),
    ensures
        g.with_col(at as int).repointed(Shift::Cols { at, delta: 1 }).recalculated().results
            == g.with_col(at as int).results,
{
    let shift = Shift::Cols { at, delta: 1 };
    let there = g.with_col(at as int);
    assert(comes_from(g, there)) by {
        assert forall|j: int| 0 <= j < NCELLS implies {
            ||| #[trigger] there.texts[j] == Seq::<u8>::empty() && there.results[j] == (
                0i64,
                Kind::Empty,
            )
            ||| exists|i: int|
                0 <= i < NCELLS && there.texts[j] == #[trigger] g.texts[i] && there.results[j]
                    == g.results[i]
        } by {
            let col = j % COLS as int;
            if col > at {
                assert(there.texts[j] == g.texts[j - 1]);
            } else if col < at {
                assert(there.texts[j] == g.texts[j]);
            }
        }
    }
    assert forall|i: int| 0 <= i < NCELLS && #[trigger] stays_on_sheet(shift, i) implies
        there.results[moved_cell(shift, i)] == g.results[i] by {
        let col = i % COLS as int;
        if col >= at {
            assert(moved_cell(shift, i) == i + 1);
            assert((i + 1) % COLS as int == col + 1);
        } else {
            assert(moved_cell(shift, i) == i);
        }
    }
    lemma_sheet_kept(g, there, shift);
}

/// Deleting a column leaves every other value as it was, in its new place, if
/// it does not disturb the formulas.
#[verifier::rlimit(40)]
pub proof fn law_delete_col_keeps_values(g: Grid, at: usize)
    requires
        g.wf(),
        is_settled(g.texts, g.results),
        at < COLS,
        forall|i: int|
            0 <= i < NCELLS ==> undisturbed(
                #[trigger] g.without_col(at as int).texts[i],
                (Shift::Cols { at, delta: (-1) as i32 }),
            ),
    ensures
        g.without_col(at as int).repointed(
            Shift::Cols { at, delta: (-1) as i32 },
        ).recalculated().results == g.without_col(at as int).results,
{
    let shift = Shift::Cols { at, delta: (-1) as i32 };
    let there = g.without_col(at as int);
    assert(comes_from(g, there)) by {
        assert forall|j: int| 0 <= j < NCELLS implies {
            ||| #[trigger] there.texts[j] == Seq::<u8>::empty() && there.results[j] == (
                0i64,
                Kind::Empty,
            )
            ||| exists|i: int|
                0 <= i < NCELLS && there.texts[j] == #[trigger] g.texts[i] && there.results[j]
                    == g.results[i]
        } by {
            let col = j % COLS as int;
            if col < COLS - 1 && col >= at {
                assert(there.texts[j] == g.texts[j + 1]);
            } else if col < COLS - 1 {
                assert(there.texts[j] == g.texts[j]);
            }
        }
    }
    assert forall|i: int| 0 <= i < NCELLS && #[trigger] stays_on_sheet(shift, i) implies
        there.results[moved_cell(shift, i)] == g.results[i] by {
        let col = i % COLS as int;
        if col > at {
            assert(moved_cell(shift, i) == i - 1);
            assert((i - 1) % COLS as int == col - 1);
        } else {
            assert(moved_cell(shift, i) == i);
        }
    }
    lemma_sheet_kept(g, there, shift);
}

} // verus!
