//! Deleting the row or column that was just inserted gives back every text.

use vstd::prelude::*;

use crate::ascii::{
    alphas_end, digits_end, is_alpha, is_digit, lemma_alphas_end, lemma_digits_end, row_number,
};
use crate::follow::lemma_formula_rewritten;
use crate::formula::{column, is_formula, row_at};
use crate::grid::{index_of, on_grid, COLS, INPUT_CAP, NCELLS, ROWS};
use crate::labels::cell_name;
use crate::refs::{
    law_delete_col_undoes_insert, law_delete_row_undoes_insert, ref_starts, rewritten,
    rewritten_from, shifted, truncated, Shift,
};
use crate::repoint::{follows, lemma_alphas_from, lemma_first, lemma_reference};
use crate::sheet::Grid;

verus! {

/// Whether a reference starts at `i`: a single letter and a row number.
pub open spec fn ref_at(src: Seq<u8>, i: int) -> bool {
    ref_starts(src, i) && (i == 0 || !is_alpha(src[i - 1]))
}

/// The cell of the reference at `i`.
pub open spec fn ref_cell(src: Seq<u8>, i: int) -> (int, int) {
    (column(src[i]), row_number(src, i + 1, digits_end(src, i + 1)) - 1)
}

/// Whether every reference of a text names a cell left of column `cols` and
/// above row `rows`, in capitals and without leading zeros.
pub open spec fn plain_refs(src: Seq<u8>, cols: int, rows: int) -> bool {
    forall|i: int| #[trigger]
        ref_at(src, i) ==> {
            let (col, row) = ref_cell(src, i);
            &&& 0 <= col < cols
            &&& 0 <= row < rows
            &&& src.subrange(i, digits_end(src, i + 1)) == cell_name(col, row)
        }
}

/// Whether one shift takes every reference of the grid's part up to column
/// `cols` and row `rows` to where another takes it back.
spec fn takes_back(there: Shift, back: Shift, cols: int, rows: int) -> bool {
    &&& cols <= COLS
    &&& rows <= ROWS
    &&& forall|col: int, row: int|
        0 <= col < cols && 0 <= row < rows ==> (#[trigger] shifted(there, col, row) matches Some(
            (c, r),
        ) && on_grid(c, r) && shifted(back, c, r) == Some((col, row)))
}

/// A run of letters that is no reference is copied, and is none either.
proof fn lemma_run(t: Seq<u8>, p: int, w: Seq<u8>, p2: int, there: Shift)
    requires
        follows(t, p, w, p2, there),
        p < t.len(),
        is_alpha(t[p]),
        !(alphas_end(t, p) == p + 1 && ref_starts(t, p)),
    ensures
        ({
            let j = alphas_end(t, p);
            let j2 = p2 + (j - p);
            &&& p < j
            &&& alphas_end(w, p2) == j2
            &&& !(j2 == p2 + 1 && ref_starts(w, p2))
            &&& w.subrange(p2, j2) == t.subrange(p, j)
            &&& follows(t, j, w, j2, there)
        }),
{
    let j = alphas_end(t, p);
    lemma_alphas_end(t, p);
    lemma_alphas_end(t, p + 1);
    assert(j == alphas_end(t, p + 1));
    let chunk = t.subrange(p, j);
    let rest = rewritten_from(t, j, there);
    let out = w.skip(p2);
    assert(out == chunk + rest);
    let j2 = p2 + (j - p);
    assert(w.len() == p2 + out.len());
    assert(w.skip(j2) =~= rest) by {
        assert forall|k: int| 0 <= k < rest.len() implies w.skip(j2)[k] == rest[k] by {
            assert(w[j2 + k] == out[chunk.len() + k]);
        }
    }
    assert forall|k: int| 0 <= k < chunk.len() implies w[p2 + k] == #[trigger] chunk[k] by {
        assert(w[p2 + k] == out[k]);
    }
    assert(w.subrange(p2, j2) =~= chunk);
    assert(follows(t, j, w, j2, there));
    lemma_first(t, j, w, j2, there);
    assert forall|i: int| p2 <= i < j2 implies is_alpha(#[trigger] w[i]) by {
        assert(w[p2 + (i - p2)] == chunk[i - p2]);
        assert(is_alpha(t[p + (i - p2)]));
    }
    lemma_alphas_from(w, p2, j2);
    assert(alphas_end(w, j2) == j2);
    if j2 == p2 + 1 && ref_starts(w, p2) {
        assert(is_digit(w[j2]));
        assert(t[j] == w[j2]);
    }
}

/// What was rewritten is rewritten back to what it came from.
proof fn lemma_back(
    t: Seq<u8>,
    p: int,
    w: Seq<u8>,
    p2: int,
    there: Shift,
    back: Shift,
    cols: int,
    rows: int,
)
    requires
        follows(t, p, w, p2, there),
        takes_back(there, back, cols, rows),
        plain_refs(t, cols, rows),
        p == 0 || p == t.len() || !is_alpha(t[p - 1]) || !is_alpha(t[p]),
    ensures
        rewritten_from(w, p2, back) == t.skip(p),
    decreases t.len() - p,
{
    lemma_first(t, p, w, p2, there);
    if p == t.len() {
        assert(t.skip(p) =~= Seq::<u8>::empty());
    } else if !is_alpha(t[p]) {
        lemma_back(t, p + 1, w, p2 + 1, there, back, cols, rows);
        assert(t.skip(p) =~= seq![t[p]] + t.skip(p + 1));
    } else if alphas_end(t, p) == p + 1 && ref_starts(t, p) {
        assert(ref_at(t, p));
        let (col, row) = ref_cell(t, p);
        let q = digits_end(t, p + 1);
        lemma_digits_end(t, p + 1);
        assert(q > p + 1) by {
            assert(digits_end(t, p + 1) == digits_end(t, p + 2));
            lemma_digits_end(t, p + 2);
        }
        assert(row_at(t, p + 1) == Some((row, q)));
        let (c, r) = shifted(there, col, row)->Some_0;
        let q2 = lemma_reference(t, p, w, p2, there);
        assert(row_at(w, p2 + 1) == Some((r, q2)));
        assert(shifted(back, c, r) == Some((col, row)));
        assert(is_digit(t[q - 1]));
        lemma_back(t, q, w, q2, there, back, cols, rows);
        assert(rewritten_from(w, p2, back) == cell_name(col, row) + rewritten_from(w, q2, back));
        assert(t.skip(p) =~= t.subrange(p, q) + t.skip(q));
    } else {
        lemma_run(t, p, w, p2, there);
        let j = alphas_end(t, p);
        let j2 = p2 + (j - p);
        lemma_alphas_end(t, p);
        lemma_back(t, j, w, j2, there, back, cols, rows);
        assert(t.skip(p) =~= t.subrange(p, j) + t.skip(j));
    }
}

proof fn lemma_rewritten_back(
    t: Seq<u8>,
    there: Shift,
    back: Shift,
    cols: int,
    rows: int,
)
    requires
        takes_back(there, back, cols, rows),
        plain_refs(t, cols, rows),
    ensures
        rewritten(rewritten(t, there), back) == t,
{
    let w = rewritten(t, there);
    assert(w.skip(0) =~= w);
    lemma_back(t, 0, w, 0, there, back, cols, rows);
    assert(t.skip(0) =~= t);
}

/// A cell's text after the two re-pointings.
proof fn lemma_text_back(t: Seq<u8>, there: Shift, back: Shift, cols: int, rows: int)
    requires
        takes_back(there, back, cols, rows),
        t.len() <= INPUT_CAP,
        is_formula(t) ==> plain_refs(t, cols, rows) && rewritten(t, there).len() <= INPUT_CAP,
    ensures
        ({
            let once = if is_formula(t) {
                truncated(rewritten(t, there), INPUT_CAP as int)
            } else {
                t
            };
            (if is_formula(once) {
                truncated(rewritten(once, back), INPUT_CAP as int)
            } else {
                once
            }) == t
        }),
{
    if is_formula(t) {
        lemma_formula_rewritten(t, there);
        lemma_rewritten_back(t, there, back, cols, rows);
    }
}

/// Deleting the row that was just inserted gives back every text of a sheet
/// whose last row is empty, if its formulas name rows above the last, in
/// capitals and without leading zeros, and fit their cells while the row is
/// there.
pub proof fn law_delete_inserted_row_restores_texts(g: Grid, at: usize)
    requires
        g.wf(),
        at < ROWS,
        forall|col: int|
            0 <= col < COLS ==> #[trigger] g.texts[index_of(col, ROWS - 1)] == Seq::<u8>::empty(),
        forall|i: int|
            0 <= i < NCELLS && is_formula(#[trigger] g.texts[i]) ==> plain_refs(
                g.texts[i],
                COLS as int,
                ROWS - 1,
            ) && rewritten(g.texts[i], (Shift::Rows { at, delta: 1 })).len() <= INPUT_CAP,
    ensures
        g.with_row(at as int).repointed(
            Shift::Rows { at, delta: 1 },
        ).recalculated().without_row(at as int).repointed(
            Shift::Rows { at, delta: (-1) as i32 },
        ).recalculated().texts == g.texts,
{
    let there = Shift::Rows { at, delta: 1 };
    let back = Shift::Rows { at, delta: (-1) as i32 };
    assert forall|col: int, row: int| 0 <= col < COLS && 0 <= row < ROWS - 1 implies (
    #[trigger] shifted(there, col, row) matches Some((c, r)) && on_grid(c, r) && shifted(
        back,
        c,
        r,
    ) == Some((col, row))) by {
        law_delete_row_undoes_insert(at, col, row);
    }
    assert(takes_back(there, back, COLS as int, ROWS - 1));
    let now = g.with_row(at as int).repointed(there).recalculated();
    let end = now.without_row(at as int).repointed(back).recalculated();
    assert forall|i: int| 0 <= i < NCELLS implies end.texts[i] == g.texts[i] by {
        let row = i / COLS as int;
        let col = i % COLS as int;
        if row == ROWS - 1 {
            assert(i == index_of(col, row));
            assert(g.texts[index_of(col, ROWS - 1)] == Seq::<u8>::empty());
        } else {
            lemma_text_back(g.texts[i], there, back, COLS as int, ROWS - 1);
            if row >= at {
                assert((i + COLS) / COLS as int == row + 1);
            }
        }
    }
    assert(end.texts =~= g.texts);
}

/// Deleting the column that was just inserted gives back every text of a sheet
/// whose last column is empty, if its formulas name columns left of the last,
/// in capitals and without leading zeros, and fit their cells while the column
/// is there.
pub proof fn law_delete_inserted_col_restores_texts(g: Grid, at: usize)
    requires
        g.wf(),
        at < COLS,
        forall|row: int|
            0 <= row < ROWS ==> #[trigger] g.texts[index_of(COLS - 1, row)] == Seq::<u8>::empty(),
        forall|i: int|
            0 <= i < NCELLS && is_formula(#[trigger] g.texts[i]) ==> plain_refs(
                g.texts[i],
                COLS - 1,
                ROWS as int,
            ) && rewritten(g.texts[i], (Shift::Cols { at, delta: 1 })).len() <= INPUT_CAP,
    ensures
        g.with_col(at as int).repointed(
            Shift::Cols { at, delta: 1 },
        ).recalculated().without_col(at as int).repointed(
            Shift::Cols { at, delta: (-1) as i32 },
        ).recalculated().texts == g.texts,
{
    let there = Shift::Cols { at, delta: 1 };
    let back = Shift::Cols { at, delta: (-1) as i32 };
    assert forall|col: int, row: int| 0 <= col < COLS - 1 && 0 <= row < ROWS implies (
    #[trigger] shifted(there, col, row) matches Some((c, r)) && on_grid(c, r) && shifted(
        back,
        c,
        r,
    ) == Some((col, row))) by {
        law_delete_col_undoes_insert(at, col, row);
    }
    assert(takes_back(there, back, COLS - 1, ROWS as int));
    let now = g.with_col(at as int).repointed(there).recalculated();
    let end = now.without_col(at as int).repointed(back).recalculated();
    assert forall|i: int| 0 <= i < NCELLS implies end.texts[i] == g.texts[i] by {
        let row = i / COLS as int;
        let col = i % COLS as int;
        if col == COLS - 1 {
            assert(i == index_of(col, row));
            assert(g.texts[index_of(COLS - 1, row)] == Seq::<u8>::empty());
        } else {
            lemma_text_back(g.texts[i], there, back, COLS - 1, ROWS as int);
            if col >= at {
                assert((i + 1) % COLS as int == col + 1);
            }
        }
    }
    assert(end.texts =~= g.texts);
}

} // verus!
