//! Laws that tie the operations of a sheet together.

use vstd::prelude::*;

use crate::ascii::{
    alphas_end, digits_end, digits_value, is_alpha, is_digit, lemma_alphas_end, lemma_digits_end,
    row_number, EQUALS, PLUS, UPPER_A, ZERO,
};
use crate::calc::{
    acyclic, comes_round, goes_on, is_settled, law_acyclic_unique, law_settled_stays, leads,
    lemma_sweeps_stay, nums, reads_circle, settled, sweep, sweeps, vals, SWEEP_CAP,
};
use crate::decimal::{dec, lemma_dec_digits};
use crate::figures::{law_number_in_formula, law_whole_number_reads};
use crate::formula::{
    classified, column, formula, is_formula, lemma_classified_local, reads, text_reads, Binary,
    Expr,
};
use crate::grammar::{law_row_zero_is_error, law_text_reads_grid, names_row_zero};
use crate::grid::{index_of, on_grid, Kind, COLS, INPUT_CAP, NCELLS, ROWS};
use crate::labels::{cell_name, lemma_utf8_ascii, utf8};
use crate::meaning::{
    between, law_cell_shows_value, law_factor_is_term, law_reference_reads_cell, law_sum_adds,
    law_sum_is_side, law_term_is_sum, lemma_sum_grows, term_of,
};
use crate::moves::{along, lands, law_fill_moves_references, relocated, says_moved};
use crate::refs::{ref_starts, ref_text, rewritten, rewritten_from, shifted, truncated, Shift};
use crate::samples::fibonacci;
use crate::save::{encoded, law_load_gives_back_save, loaded};
use crate::sheet::{repointed, Grid};

verus! {

/// A sheet without circles comes back from its save as it was, values and all.
pub proof fn law_load_restores_sheet(g: Grid)
    requires
        g.wf(),
        acyclic(g.texts),
        is_settled(g.texts, g.results),
    ensures
        loaded(encoded(g.texts)) == g,
{
    law_load_gives_back_save(g.texts);
    law_acyclic_unique(g.texts, Grid::blank().results, g.results);
}

/// Recalculating twice is recalculating once, where the first has settled.
pub proof fn law_recalculation_is_done_once(g: Grid)
    requires
        is_settled(g.texts, settled(g.texts, g.results)),
    ensures
        g.recalculated().recalculated() == g.recalculated(),
{
    law_settled_stays(g.texts, settled(g.texts, g.results));
}

/// The preview of a text is what setting it shows, on a settled sheet where
/// neither the text nor any formula reads the cell; no other cell changes.
pub proof fn law_preview_shows_commit(g: Grid, col: int, row: int, raw: Seq<u8>)
    requires
        g.wf(),
        is_settled(g.texts, g.results),
        on_grid(col, row),
        raw.len() <= INPUT_CAP,
        !text_reads(raw, index_of(col, row)),
        forall|j: int|
            0 <= j < NCELLS ==> !text_reads(#[trigger] g.texts[j], index_of(col, row)),
    ensures
        g.set(col, row, raw).results == g.results.update(
            index_of(col, row),
            classified(raw, vals(g.results), nums(g.results)),
        ),
{
    let i = index_of(col, row);
    let texts = g.texts.update(i, raw);
    let shown = classified(raw, vals(g.results), nums(g.results));
    let after = g.results.update(i, shown);
    let first = sweep(texts, g.results);
    assert forall|j: int| 0 <= j < NCELLS implies first[j] == after[j] by {
        assert(sweep(g.texts, g.results)[j] == g.results[j]);
    }
    assert(first =~= after);
    let second = sweep(texts, after);
    assert forall|j: int| 0 <= j < NCELLS implies second[j] == after[j] by {
        let text = texts[j];
        assert(!text_reads(text, i));
        assert forall|k: int| #[trigger] text_reads(text, k) implies vals(after)[k] == vals(
            g.results,
        )[k] && nums(after)[k] == nums(g.results)[k] by {
            law_text_reads_grid(text, k);
        }
        lemma_classified_local(text, vals(after), nums(after), vals(g.results), nums(g.results));
        assert(second[j] == first[j]);
    }
    assert(second =~= after);
    assert(sweeps(texts, g.results, 0) == g.results);
    assert(sweeps(texts, g.results, 1) == after);
    lemma_sweeps_stay(texts, g.results, 1, NCELLS as nat);
    lemma_sweeps_stay(texts, g.results, 1, SWEEP_CAP as nat);
    assert(settled(texts, g.results) =~= after);
    assert(truncated(raw, INPUT_CAP as int) == raw);
}

/// The text that adds a whole number to a cell.
pub open spec fn counting_text(col: int, row: int, n: nat) -> Seq<u8> {
    between(cell_name(col, row), PLUS, dec(n))
}

/// Such a text is worth what the cell is worth, and the number.
#[verifier::rlimit(40)]
proof fn lemma_counting_text(
    col: int,
    row: int,
    n: nat,
    vals: Seq<i64>,
    nums: Seq<bool>,
)
    requires
        on_grid(col, row),
        n <= 1_000_000,
        i64::MIN <= vals[index_of(col, row)] + n * 10_000 <= i64::MAX,
    ensures
        classified(seq![EQUALS] + counting_text(col, row, n), vals, nums) == (
            (vals[index_of(col, row)] + n * 10_000) as i64,
            Kind::Num,
        ),
        text_reads(seq![EQUALS] + counting_text(col, row, n), index_of(col, row)),
{
    let name = cell_name(col, row);
    let number = dec(n);
    let text = counting_text(col, row, n);
    law_reference_reads_cell(col, row, vals, nums);
    law_factor_is_term(name, vals, nums);
    law_term_is_sum(name, vals, nums);
    lemma_dec_digits(n);
    law_whole_number_reads(n);
    law_number_in_formula(number, vals, nums);
    law_factor_is_term(number, vals, nums);
    law_sum_adds(name, number, vals, nums);
    law_cell_shows_value(text, vals, nums);
    lemma_sum_grows(name, PLUS, number);
    law_sum_is_side(text, vals, nums);
    let raw = seq![EQUALS] + text;
    assert(raw.subrange(1, raw.len() as int) =~= text);
    let cell = Expr::Cell { col, row };
    let e = formula(text)->Some_0;
    assert(e == Expr::Two(Binary::Add, Box::new(cell), Box::new(term_of(number)->Some_0)));
    assert(reads(cell, index_of(col, row)));
    assert(reads(e, index_of(col, row)));
}

/// A cell that adds a number to itself has no value to settle at: one
/// recalculation adds the number fifty-two times, and leaves it at that.
pub proof fn law_circle_goes_around_bounded(g: Grid, col: int, row: int, n: nat)
    requires
        g.wf(),
        on_grid(col, row),
        n <= 1_000_000,
        -1_000_000_000_000_000 <= g.results[index_of(col, row)].0 <= 1_000_000_000_000_000,
        g.texts[index_of(col, row)] == seq![EQUALS] + counting_text(col, row, n),
    ensures
        g.recalculated().results[index_of(col, row)] == (
            (g.results[index_of(col, row)].0 + 52 * n * 10_000) as i64,
            Kind::Num,
        ),
{
    let i = index_of(col, row);
    lemma_counting_text(col, row, n, vals(g.results), nums(g.results));
    let path = seq![i, i];
    assert(goes_on(g.texts, path, 0));
    assert(leads(g.texts, path));
    assert(path[0] == path[1]);
    assert(comes_round(g.texts, i, path));
    assert(reads_circle(g.texts, i));
    lemma_counted(g, col, row, n, 52);
}

proof fn lemma_counted(g: Grid, col: int, row: int, n: nat, k: nat)
    requires
        g.wf(),
        on_grid(col, row),
        n <= 1_000_000,
        k <= 52,
        -1_000_000_000_000_000 <= g.results[index_of(col, row)].0 <= 1_000_000_000_000_000,
        g.texts[index_of(col, row)] == seq![EQUALS] + counting_text(col, row, n),
    ensures
        ({
            let now = sweeps(g.texts, g.results, k);
            &&& now.len() == NCELLS
            &&& now[index_of(col, row)].0 == g.results[index_of(col, row)].0 + k * n * 10_000
            &&& k > 0 ==> now[index_of(col, row)].1 == Kind::Num
        }),
    decreases k,
{
    let i = index_of(col, row);
    assert(0 <= k * n <= 52_000_000) by (nonlinear_arith)
        requires
            0 <= k <= 52,
            0 <= n <= 1_000_000,
    ;
    if k > 0 {
        let less = (k - 1) as nat;
        lemma_counted(g, col, row, n, less);
        let before = sweeps(g.texts, g.results, less);
        assert(k * n == less * n + n) by (nonlinear_arith)
            requires
                k == less + 1,
        ;
        lemma_counting_text(col, row, n, vals(before), nums(before));
        assert(sweeps(g.texts, g.results, k) == sweep(g.texts, before));
    } else {
        assert(k * n == 0) by (nonlinear_arith)
            requires
                k == 0,
        ;
    }
}

/// When a row is inserted, a reference to any row but the last goes where its
/// data went.
pub proof fn law_insert_row_follows_data(g: Grid, at: usize, col: int, row: int)
    requires
        g.wf(),
        at < ROWS,
        on_grid(col, row),
        row < ROWS - 1,
    ensures
        shifted(Shift::Rows { at, delta: 1 }, col, row) matches Some((c, r)) && on_grid(c, r)
            && g.with_row(at as int).texts[index_of(c, r)] == g.texts[index_of(col, row)]
            && g.with_row(at as int).results[index_of(c, r)] == g.results[index_of(col, row)],
{
}

/// When a row is deleted, a reference to any other row goes where its data
/// went, and only a reference to the deleted row has nowhere to go.
pub proof fn law_delete_row_follows_data(g: Grid, at: usize, col: int, row: int)
    requires
        g.wf(),
        at < ROWS,
        on_grid(col, row),
    ensures
        shifted(Shift::Rows { at, delta: (-1) as i32 }, col, row) is None <==> row == at,
        shifted(Shift::Rows { at, delta: (-1) as i32 }, col, row) matches Some((c, r)) ==> on_grid(
            c,
            r,
        ) && g.without_row(at as int).texts[index_of(c, r)] == g.texts[index_of(col, row)]
            && g.without_row(at as int).results[index_of(c, r)] == g.results[index_of(col, row)],
{
}

/// When a column is inserted, a reference to any column but the last goes
/// where its data went.
pub proof fn law_insert_col_follows_data(g: Grid, at: usize, col: int, row: int)
    requires
        g.wf(),
        at < COLS,
        on_grid(col, row),
        col < COLS - 1,
    ensures
        shifted(Shift::Cols { at, delta: 1 }, col, row) matches Some((c, r)) && on_grid(c, r)
            && g.with_col(at as int).texts[index_of(c, r)] == g.texts[index_of(col, row)]
            && g.with_col(at as int).results[index_of(c, r)] == g.results[index_of(col, row)],
{
}

/// When a column is deleted, a reference to any other column goes where its
/// data went, and only a reference to the deleted column has nowhere to go.
pub proof fn law_delete_col_follows_data(g: Grid, at: usize, col: int, row: int)
    requires
        g.wf(),
        at < COLS,
        on_grid(col, row),
    ensures
        shifted(Shift::Cols { at, delta: (-1) as i32 }, col, row) is None <==> col == at,
        shifted(Shift::Cols { at, delta: (-1) as i32 }, col, row) matches Some((c, r)) ==> on_grid(
            c,
            r,
        ) && g.without_col(at as int).texts[index_of(c, r)] == g.texts[index_of(col, row)]
            && g.without_col(at as int).results[index_of(c, r)] == g.results[index_of(col, row)],
{
}

/// Deleting the row that was just inserted takes every text and result back,
/// but for the last row, which comes back blank.
pub proof fn law_delete_row_restores(g: Grid, at: int)
    requires
        g.wf(),
        0 <= at < ROWS,
    ensures
        ({
            let back = g.with_row(at).without_row(at);
            &&& forall|i: int|
                0 <= i < NCELLS - COLS ==> #[trigger] back.texts[i] == g.texts[i]
                    && back.results[i] == g.results[i]
            &&& forall|i: int|
                NCELLS - COLS <= i < NCELLS ==> #[trigger] back.texts[i] == Seq::<u8>::empty()
        }),
{
}

/// Deleting the column that was just inserted takes every text and result
/// back, but for the last column, which comes back blank.
pub proof fn law_delete_col_restores(g: Grid, at: int)
    requires
        g.wf(),
        0 <= at < COLS,
    ensures
        ({
            let back = g.with_col(at).without_col(at);
            &&& forall|i: int|
                0 <= i < NCELLS && i % COLS as int != COLS - 1 ==> #[trigger] back.texts[i]
                    == g.texts[i] && back.results[i] == g.results[i]
            &&& forall|i: int|
                0 <= i < NCELLS && i % COLS as int == COLS - 1 ==> #[trigger] back.texts[i]
                    == Seq::<u8>::empty()
        }),
{
    let there = g.with_col(at);
    let back = there.without_col(at);
    assert forall|i: int| 0 <= i < NCELLS && i % COLS as int != COLS - 1 implies #[trigger]
    back.texts[i] == g.texts[i] && back.results[i] == g.results[i] by {
        assert((i + 1) % COLS as int == i % COLS as int + 1);
    }
}

/// Whether a reference at `t` points at a row or column that a shift removes.
pub open spec fn loses_target(src: Seq<u8>, t: int, shift: Shift) -> bool {
    &&& ref_starts(src, t)
    &&& t == 0 || !is_alpha(src[t - 1])
    &&& shifted(
        shift,
        column(src[t]),
        row_number(src, t + 1, digits_end(src, t + 1)) - 1,
    ) is None
}

/// What is rewritten from a place where no digit stands does not start with a
/// digit.
proof fn lemma_rewritten_start(src: Seq<u8>, i: int, shift: Shift)
    requires
        0 <= i < src.len(),
        !is_digit(src[i]),
    ensures
        rewritten_from(src, i, shift).len() > 0,
        !is_digit(rewritten_from(src, i, shift)[0]),
{
    if is_alpha(src[i]) {
        let j = alphas_end(src, i);
        assert(alphas_end(src, i) == alphas_end(src, i + 1));
        lemma_alphas_end(src, i + 1);
        if j == i + 1 && ref_starts(src, i) {
            let k = digits_end(src, j);
            lemma_digits_end(src, j);
            let text = ref_text(shift, column(src[i]), row_number(src, j, k));
            assert(rewritten_from(src, i, shift)[0] == text[0]);
            assert(0 <= column(src[i]) < COLS);
        } else {
            assert(rewritten_from(src, i, shift)[0] == src.subrange(i, j)[0]);
        }
    } else {
        assert(rewritten_from(src, i, shift)[0] == src[i]);
    }
}

/// A text with `[letter]0` at `p`, no letter before it and no digit behind it
/// names row zero there.
proof fn lemma_zero_here(b: Seq<u8>, p: int)
    requires
        0 <= p,
        p + 1 < b.len(),
        is_alpha(b[p]),
        p == 0 || !is_alpha(b[p - 1]),
        b[p + 1] == ZERO,
        p + 2 == b.len() || !is_digit(b[p + 2]),
    ensures
        names_row_zero(b, p),
{
    assert(digits_end(b, p + 2) == p + 2);
    assert(digits_end(b, p + 1) == digits_end(b, p + 2));
    assert(digits_value(b, p + 1, p + 1) == 0);
    assert(digits_value(b, p + 1, p + 2) == 0);
}

proof fn lemma_lost_target(pre: Seq<u8>, src: Seq<u8>, i: int, t: int, shift: Shift)
    requires
        0 <= i <= t < src.len(),
        loses_target(src, t, shift),
        i == 0 || !is_alpha(src[i - 1]) || !is_alpha(src[i]),
        pre.len() > 0 && is_alpha(pre.last()) ==> i > 0 && is_alpha(src[i - 1]),
    ensures
        exists|p: int| #[trigger] names_row_zero(pre + rewritten_from(src, i, shift), p),
    decreases src.len() - i,
{
    let rest_of = |k: int| rewritten_from(src, k, shift);
    let all = pre + rewritten_from(src, i, shift);
    if is_alpha(src[i]) {
        let j = alphas_end(src, i);
        assert(alphas_end(src, i) == alphas_end(src, i + 1));
        lemma_alphas_end(src, i);
        lemma_alphas_end(src, i + 1);
        if j == i + 1 && ref_starts(src, i) {
            let k = digits_end(src, j);
            lemma_digits_end(src, j);
            let chunk = ref_text(shift, column(src[i]), row_number(src, j, k));
            crate::decimal::lemma_dec_digits(0);
            if t == i {
                let p = pre.len() as int;
                assert(chunk == seq![(UPPER_A + column(src[i])) as u8, ZERO]) by {
                    assert(dec(0) =~= seq![ZERO]);
                    assert(chunk =~= seq![(UPPER_A + column(src[i])) as u8, ZERO]);
                }
                if k < src.len() {
                    lemma_rewritten_start(src, k, shift);
                }
                let rest = rewritten_from(src, k, shift);
                assert(all[p] == chunk[0]);
                assert(all[p + 1] == chunk[1]);
                if rest.len() > 0 {
                    assert(all[p + 2] == rest[0]);
                }
                if p > 0 {
                    assert(all[p - 1] == pre.last());
                }
                lemma_zero_here(all, p);
            } else {
                assert(t >= k) by {
                    if t < k {
                        assert(is_digit(src[t]));
                    }
                }
                lemma_ref_text_end(shift, column(src[i]), row_number(src, j, k));
                assert((pre + chunk).last() == chunk.last());
                assert(is_digit(src[k - 1]));
                lemma_lost_target(pre + chunk, src, k, t, shift);
                assert(all =~= (pre + chunk) + rewritten_from(src, k, shift));
            }
        } else {
            let chunk = src.subrange(i, j);
            assert(t >= j) by {
                if t < j && t > i {
                    assert(is_alpha(src[t - 1]));
                }
                if t == i && j > i + 1 {
                    assert(is_alpha(src[i + 1]));
                }
            }
            assert((pre + chunk).last() == src[j - 1]);
            lemma_lost_target(pre + chunk, src, j, t, shift);
            assert(all =~= (pre + chunk) + rewritten_from(src, j, shift));
        }
    } else {
        let chunk = seq![src[i]];
        assert((pre + chunk).last() == src[i]);
        lemma_lost_target(pre + chunk, src, i + 1, t, shift);
        assert(all =~= (pre + chunk) + rewritten_from(src, i + 1, shift));
    }
}

/// A reference ends in a digit.
proof fn lemma_ref_text_end(shift: Shift, col: int, row1: int)
    ensures
        ref_text(shift, col, row1).len() >= 2,
        is_digit(ref_text(shift, col, row1).last()),
{
    match shifted(shift, col, row1 - 1) {
        Some((c, r)) => {
            crate::decimal::lemma_dec_digits((r + 1) as nat);
        },
        None => {
            crate::decimal::lemma_dec_digits(0);
        },
    }
}

/// A formula that referred to a deleted row or column shows an error, whatever
/// slid into that place, as long as its rewritten text still fits the cell.
pub proof fn law_lost_reference_is_error(
    texts: Seq<Seq<u8>>,
    results: Seq<(i64, Kind)>,
    shift: Shift,
    i: int,
    t: int,
)
    requires
        texts.len() == NCELLS,
        results.len() == NCELLS,
        0 <= i < NCELLS,
        is_formula(texts[i]),
        loses_target(texts[i], t, shift),
        rewritten(texts[i], shift).len() <= INPUT_CAP,
    ensures
        settled(repointed(texts, shift), results)[i] == (0i64, Kind::Error),
{
    let src = texts[i];
    let now = repointed(texts, shift);
    let raw = now[i];
    lemma_lost_target(Seq::<u8>::empty(), src, 0, t, shift);
    assert(Seq::<u8>::empty() + rewritten_from(src, 0, shift) =~= raw);
    let p = choose|p: int| #[trigger] names_row_zero(raw, p);
    assert(raw[0] == EQUALS) by {
        assert(rewritten_from(src, 0, shift)[0] == src[0]);
    }
    let n = NCELLS as nat;
    let m = SWEEP_CAP as nat;
    let a = sweeps(now, results, (n - 1) as nat);
    let b = sweeps(now, results, (m - 1) as nat);
    law_row_zero_is_error(raw, p, vals(a), nums(a));
    law_row_zero_is_error(raw, p, vals(b), nums(b));
    assert(sweeps(now, results, n) == sweep(now, a));
    assert(sweeps(now, results, m) == sweep(now, b));
}

proof fn lemma_set_keeps_wf(g: Grid, col: int, row: int, text: Seq<u8>)
    requires
        g.wf(),
        on_grid(col, row),
    ensures
        g.set(col, row, text).wf(),
{
}

/// What `=A2+A3` says.
proof fn lemma_sum_of_two()
    ensures
        ({
            let raw = utf8("=A2+A3");
            &&& is_formula(raw)
            &&& raw.len() == 6
            &&& formula(raw.skip(1)) == Some(
                Expr::Two(
                    Binary::Add,
                    Box::new(Expr::Cell { col: 0, row: 1 }),
                    Box::new(Expr::Cell { col: 0, row: 2 }),
                ),
            )
        }),
{
    let raw = utf8("=A2+A3");
    let a = cell_name(0, 1);
    let b = cell_name(0, 2);
    let body = between(a, PLUS, b);
    assert(raw == seq![EQUALS] + body) by {
        reveal_strlit("=A2+A3");
        lemma_utf8_ascii("=A2+A3");
        assert(dec(2) =~= seq![50u8] && dec(3) =~= seq![51u8]);
        assert(raw =~= seq![EQUALS] + body);
    }
    assert(raw.len() == 6) by {
        assert(dec(2).len() == 1 && dec(3).len() == 1);
    }
    assert(raw.skip(1) =~= body);
    let none = Seq::<i64>::empty();
    let no = Seq::<bool>::empty();
    law_reference_reads_cell(0, 1, none, no);
    law_reference_reads_cell(0, 2, none, no);
    law_factor_is_term(a, none, no);
    law_factor_is_term(b, none, no);
    law_term_is_sum(a, none, no);
    lemma_sum_grows(a, PLUS, b);
    law_sum_is_side(body, none, no);
    law_cell_shows_value(body, none, no);
}

/// In the Fibonacci sample each cell below the first ones is the sum of the two
/// above it.
pub proof fn law_fibonacci_adds_two_above(row: int)
    requires
        3 <= row <= 41,
    ensures
        ({
            let text = fibonacci().texts[26 * row];
            &&& is_formula(text)
            &&& formula(text.skip(1)) == Some(
                Expr::Two(
                    Binary::Add,
                    Box::new(Expr::Cell { col: 0, row: row - 2 }),
                    Box::new(Expr::Cell { col: 0, row: row - 1 }),
                ),
            )
        }),
{
    let raw = utf8("=A2+A3");
    lemma_sum_of_two();
    let blank = Grid::blank();
    let one = blank.set(0, 0, utf8("FIB"));
    let two = one.set(0, 1, utf8("1"));
    let three = two.set(0, 2, utf8("1"));
    let g = three.set(0, 3, raw);
    assert(g.wf()) by {
        lemma_set_keeps_wf(blank, 0, 0, utf8("FIB"));
        lemma_set_keeps_wf(one, 0, 1, utf8("1"));
        lemma_set_keeps_wf(two, 0, 2, utf8("1"));
        lemma_set_keeps_wf(three, 0, 3, raw);
    }
    let now = fibonacci().texts[26 * row];
    let cols = along(0);
    let rows = along(row - 3);
    assert(says_moved(raw, now, cols, rows)) by {
        law_fill_moves_references(g, 0, 3, raw, 0, 3, 0, 41, 0, row);
    }
    let left = Expr::Cell { col: 0, row: 1 };
    let right = Expr::Cell { col: 0, row: 2 };
    let e = Expr::Two(Binary::Add, Box::new(left), Box::new(right));
    assert(lands(left, cols, rows) && lands(right, cols, rows));
    assert(lands(e, cols, rows));
    assert(relocated(left, cols, rows) == Expr::Cell { col: 0, row: row - 2 });
    assert(relocated(right, cols, rows) == Expr::Cell { col: 0, row: row - 1 });
}

} // verus!
