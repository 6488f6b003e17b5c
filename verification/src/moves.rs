//! Where the texts of a sheet, and the references in them, go: laws by column
//! and row.

use vstd::arithmetic::power::pow;
use vstd::prelude::*;

use crate::ascii::{
    alphas_end, digits_end, is_alpha, is_digit, lemma_alphas_end, lemma_digits_end,
    lemma_digits_value_same, row_number, EQUALS,
};
use crate::calc::{nums, settled, sweep, sweeps, vals, SWEEP_CAP};
use crate::decimal::{lemma_dec_len, lemma_digits_below};
use crate::follow::lemma_formula_rewritten;
use crate::formula::{classified, column, formula, is_formula, Expr};
use crate::grammar::{law_formula_names_grid, names_grid};
use crate::grid::{index_of, on_grid, Kind, COLS, INPUT_CAP, NCELLS, ROWS};
use crate::labels::cell_name;
use crate::meaning::{
    law_cell_shows_value, law_factor_is_term, law_reference_reads_cell, law_sum_is_side,
    law_term_is_sum, lemma_name_read,
};
use crate::number::whole_number;
use crate::refs::{ref_starts, ref_text, rewritten, rewritten_from, shifted, truncated, Shift};
use crate::repoint::{keeps_targets, law_rewriting_moves_references, shifted_expr};
use crate::sheet::{carried, Grid};

verus! {

// ---------------------------------------------------------------------------
// Expressions with their references moved
// ---------------------------------------------------------------------------

/// The expression with every column and every row that it names replaced.
pub open spec fn relocated(e: Expr, cols: spec_fn(int) -> int, rows: spec_fn(int) -> int) -> Expr
    decreases e,
{
    match e {
        Expr::Number(v) => Expr::Number(v),
        Expr::Cell { col, row } => Expr::Cell { col: cols(col), row: rows(row) },
        Expr::One(op, a) => Expr::One(op, Box::new(relocated(*a, cols, rows))),
        Expr::Two(op, a, b) => Expr::Two(
            op,
            Box::new(relocated(*a, cols, rows)),
            Box::new(relocated(*b, cols, rows)),
        ),
        Expr::If(c, a, b) => Expr::If(
            Box::new(relocated(*c, cols, rows)),
            Box::new(relocated(*a, cols, rows)),
            Box::new(relocated(*b, cols, rows)),
        ),
        Expr::Range { over, c0, r0, c1, r1 } => Expr::Range {
            over,
            c0: cols(c0),
            r0: rows(r0),
            c1: cols(c1),
            r1: rows(r1),
        },
    }
}

/// Whether all that an expression names is on the grid once it is replaced.
pub open spec fn lands(e: Expr, cols: spec_fn(int) -> int, rows: spec_fn(int) -> int) -> bool
    decreases e,
{
    match e {
        Expr::Number(v) => true,
        Expr::Cell { col, row } => on_grid(cols(col), rows(row)),
        Expr::One(op, a) => lands(*a, cols, rows),
        Expr::Two(op, a, b) => lands(*a, cols, rows) && lands(*b, cols, rows),
        Expr::If(c, a, b) => lands(*c, cols, rows) && lands(*a, cols, rows) && lands(
            *b,
            cols,
            rows,
        ),
        Expr::Range { over, c0, r0, c1, r1 } => on_grid(cols(c0), rows(r0)) && on_grid(
            cols(c1),
            rows(r1),
        ),
    }
}

/// A position moved by a distance.
pub open spec fn along(d: int) -> spec_fn(int) -> int {
    |x: int| x + d
}

/// A position with a new one opened at `at`.
pub open spec fn opened(at: int) -> spec_fn(int) -> int {
    |x: int|
        if x >= at {
            x + 1
        } else {
            x
        }
}

/// A position with the one at `at` closed, which is then nowhere.
pub open spec fn closed_up(at: int) -> spec_fn(int) -> int {
    |x: int|
        if x > at {
            x - 1
        } else if x == at {
            -1
        } else {
            x
        }
}

/// A shift does what replacing columns and rows does.
spec fn agrees(shift: Shift, cols: spec_fn(int) -> int, rows: spec_fn(int) -> int) -> bool {
    &&& forall|c: int, r: int|
        on_grid(c, r) && on_grid(cols(c), rows(r)) ==> #[trigger] shifted(shift, c, r) == Some(
            (cols(c), rows(r)),
        )
    &&& forall|x: int, y: int|
        0 <= cols(x) && 0 <= cols(y) && x <= y ==> #[trigger] cols(x) <= #[trigger] cols(y)
    &&& forall|x: int, y: int|
        0 <= rows(x) && 0 <= rows(y) && x <= y ==> #[trigger] rows(x) <= #[trigger] rows(y)
}

proof fn lemma_relocated(
    e: Expr,
    shift: Shift,
    cols: spec_fn(int) -> int,
    rows: spec_fn(int) -> int,
)
    requires
        agrees(shift, cols, rows),
        names_grid(e),
        lands(e, cols, rows),
    ensures
        keeps_targets(e, shift),
        shifted_expr(e, shift) == relocated(e, cols, rows),
    decreases e,
{
    match e {
        Expr::Number(v) => {},
        Expr::Cell { col, row } => {
            assert(shifted(shift, col, row) == Some((cols(col), rows(row))));
        },
        Expr::One(op, a) => {
            lemma_relocated(*a, shift, cols, rows);
        },
        Expr::Two(op, a, b) => {
            lemma_relocated(*a, shift, cols, rows);
            lemma_relocated(*b, shift, cols, rows);
        },
        Expr::If(c, a, b) => {
            lemma_relocated(*c, shift, cols, rows);
            lemma_relocated(*a, shift, cols, rows);
            lemma_relocated(*b, shift, cols, rows);
        },
        Expr::Range { over, c0, r0, c1, r1 } => {
            assert(shifted(shift, c0, r0) == Some((cols(c0), rows(r0))));
            assert(shifted(shift, c1, r1) == Some((cols(c1), rows(r1))));
            assert(cols(c0) <= cols(c1));
            assert(rows(r0) <= rows(r1));
        },
    }
}

/// A rewritten text is at most half as long again.
proof fn lemma_rewritten_len(b: Seq<u8>, i: int, shift: Shift)
    requires
        0 <= i <= b.len(),
    ensures
        2 * rewritten_from(b, i, shift).len() <= 3 * (b.len() - i),
    decreases b.len() - i,
{
    if i < b.len() {
        if is_alpha(b[i]) {
            let j = alphas_end(b, i);
            lemma_alphas_end(b, i);
            lemma_alphas_end(b, i + 1);
            assert(j == alphas_end(b, i + 1));
            if j == i + 1 && ref_starts(b, i) {
                let k = digits_end(b, j);
                lemma_digits_end(b, j);
                lemma_digits_end(b, j + 1);
                assert(k == digits_end(b, j + 1));
                lemma_rewritten_len(b, k, shift);
                lemma_ref_text_len(b, i, k, shift);
            } else {
                lemma_rewritten_len(b, j, shift);
            }
        } else {
            lemma_rewritten_len(b, i + 1, shift);
        }
    }
}

/// A reference is rewritten to three characters at most, or to no more than
/// there were.
proof fn lemma_ref_text_len(b: Seq<u8>, i: int, k: int, shift: Shift)
    requires
        0 <= i,
        i + 1 < k <= b.len(),
        forall|m: int| i + 1 <= m < k ==> is_digit(#[trigger] b[m]),
    ensures
        ({
            let n = ref_text(shift, column(b[i]), row_number(b, i + 1, k)).len();
            n <= 3 || n <= k - i
        }),
{
    let row1 = row_number(b, i + 1, k);
    lemma_digits_below(b, i + 1, k);
    lemma_dec_len(row1 as nat, pow(10, (k - i - 1) as nat) as nat, (k - i - 1) as nat);
    assert(pow(10, 1) == 10 && pow(10, 2) == 100) by {
        reveal_with_fuel(pow, 3);
    }
    lemma_dec_len(0, 10, 1);
    match shifted(shift, column(b[i]), row1 - 1) {
        Some((c, r)) => {
            if 0 <= r + 1 < 100 {
                lemma_dec_len((r + 1) as nat, 100, 2);
            } else {
                assert(r + 1 == row1);
            }
        },
        None => {},
    }
}

// ---------------------------------------------------------------------------
// Texts with their references moved
// ---------------------------------------------------------------------------

/// `now` is what `raw` says with every column and row that it names replaced:
/// the same text if it is no formula, and for a formula the formula with its
/// references replaced, as far as they stay on the grid. A cell cuts a text
/// that grew too long; one of no more than sixteen characters never does.
pub open spec fn says_moved(
    raw: Seq<u8>,
    now: Seq<u8>,
    cols: spec_fn(int) -> int,
    rows: spec_fn(int) -> int,
) -> bool {
    &&& !is_formula(raw) ==> now == raw
    &&& is_formula(raw) && (raw.len() <= 16 || now.len() < INPUT_CAP) ==> {
        &&& is_formula(now)
        &&& formula(raw.skip(1)) matches Some(e) ==> (lands(e, cols, rows) ==> formula(now.skip(1))
            == Some(relocated(e, cols, rows)))
    }
}

proof fn lemma_says_moved(
    raw: Seq<u8>,
    shift: Shift,
    cols: spec_fn(int) -> int,
    rows: spec_fn(int) -> int,
)
    requires
        is_formula(raw),
        agrees(shift, cols, rows),
    ensures
        says_moved(raw, truncated(rewritten(raw, shift), INPUT_CAP as int), cols, rows),
{
    let whole = rewritten(raw, shift);
    let now = truncated(whole, INPUT_CAP as int);
    if raw.len() <= 16 || now.len() < INPUT_CAP {
        lemma_rewritten_len(raw, 0, shift);
        assert(now == whole);
        lemma_formula_rewritten(raw, shift);
        let body = raw.subrange(1, raw.len() as int);
        assert(raw.skip(1) =~= body);
        assert(now.skip(1) =~= now.subrange(1, now.len() as int));
        if formula(body) is Some {
            let e = formula(body)->Some_0;
            law_formula_names_grid(body);
            if lands(e, cols, rows) {
                lemma_relocated(e, shift, cols, rows);
                law_rewriting_moves_references(body, shift);
            }
        }
    }
}

/// A text carried to another place keeps what it says, but for its references,
/// which go as far as the text went.
pub proof fn law_carried_text_moves(raw: Seq<u8>, dcol: int, drow: int)
    requires
        raw.len() <= INPUT_CAP,
        i32::MIN <= dcol <= i32::MAX,
        i32::MIN <= drow <= i32::MAX,
    ensures
        says_moved(raw, carried(raw, dcol, drow), along(dcol), along(drow)),
{
    if is_formula(raw) {
        let shift = Shift::Fill { dcol: dcol as i32, drow: drow as i32 };
        lemma_says_moved(raw, shift, along(dcol), along(drow));
    }
}

/// How far apart two positions are.
pub open spec fn apart(x: int, y: int) -> int {
    if x >= y {
        x - y
    } else {
        y - x
    }
}

/// A cell's name is the formula that reads it.
pub proof fn lemma_name_is_formula(col: int, row: int)
    requires
        on_grid(col, row),
    ensures
        formula(cell_name(col, row)) == Some(Expr::Cell { col, row }),
{
    let name = cell_name(col, row);
    law_reference_reads_cell(col, row, Seq::empty(), Seq::empty());
    law_factor_is_term(name, Seq::empty(), Seq::empty());
    law_term_is_sum(name, Seq::empty(), Seq::empty());
    law_sum_is_side(name, Seq::empty(), Seq::empty());
    law_cell_shows_value(name, Seq::empty(), Seq::empty());
}

/// A reference that would leave the grid stops at its edge: it goes to the
/// column and the row of the grid that are nearest to where it was to go.
pub proof fn law_reference_stops_at_edge(col: int, row: int, dcol: int, drow: int)
    requires
        on_grid(col, row),
        i32::MIN <= dcol <= i32::MAX,
        i32::MIN <= drow <= i32::MAX,
    ensures
        ({
            let now = carried(seq![EQUALS] + cell_name(col, row), dcol, drow);
            &&& is_formula(now)
            &&& formula(now.skip(1)) matches Some(Expr::Cell { col: c, row: r }) && {
                &&& on_grid(c, r)
                &&& forall|k: int|
                    0 <= k < 26 ==> apart(c, col + dcol) <= #[trigger] apart(k, col + dcol)
                &&& forall|k: int|
                    0 <= k < 50 ==> apart(r, row + drow) <= #[trigger] apart(k, row + drow)
            }
        }),
{
    let name = cell_name(col, row);
    let raw = seq![EQUALS] + name;
    let shift = Shift::Fill { dcol: dcol as i32, drow: drow as i32 };
    lemma_name_is_formula(col, row);
    law_rewriting_moves_references(name, shift);
    assert(raw.subrange(1, raw.len() as int) =~= name);
    lemma_formula_rewritten(raw, shift);
    let now = rewritten(raw, shift);
    assert(pow(10, 2) == 100) by {
        reveal_with_fuel(pow, 3);
    }
    lemma_dec_len((row + 1) as nat, 100, 2);
    lemma_rewritten_len(raw, 0, shift);
    assert(carried(raw, dcol, drow) == now);
    assert(now.skip(1) =~= now.subrange(1, now.len() as int));
}

/// A fill writes into every cell of its rectangle what the source says, its
/// references moved by the way from the source to the cell, and leaves the
/// text of every other cell alone.
pub proof fn law_fill_moves_references(
    g: Grid,
    src_col: int,
    src_row: int,
    raw: Seq<u8>,
    c0: int,
    r0: int,
    c1: int,
    r1: int,
    col: int,
    row: int,
)
    requires
        g.wf(),
        raw.len() <= INPUT_CAP,
        0 <= src_col <= i32::MAX,
        0 <= src_row <= i32::MAX,
        on_grid(col, row),
    ensures
        ({
            let now = g.filled(src_col, src_row, raw, c0, r0, c1, r1).recalculated().texts[26 * row
                + col];
            if c0 <= col <= c1 && r0 <= row <= r1 {
                says_moved(raw, now, along(col - src_col), along(row - src_row))
            } else {
                now == g.texts[26 * row + col]
            }
        }),
{
    let i = 26 * row + col;
    assert(i / COLS as int == row && i % COLS as int == col);
    law_carried_text_moves(raw, col - src_col, row - src_row);
}

/// Writing one text with its references moved changes that cell alone.
pub proof fn law_shifted_text_lands_once(
    g: Grid,
    at_col: int,
    at_row: int,
    raw: Seq<u8>,
    dcol: int,
    drow: int,
    col: int,
    row: int,
)
    requires
        g.wf(),
        raw.len() <= INPUT_CAP,
        i32::MIN <= dcol <= i32::MAX,
        i32::MIN <= drow <= i32::MAX,
        0 <= at_col,
        0 <= at_row,
        on_grid(col, row),
    ensures
        ({
            let now = g.set_shifted(at_col, at_row, raw, dcol, drow).texts[26 * row + col];
            if col == at_col && row == at_row {
                says_moved(raw, now, along(dcol), along(drow))
            } else {
                now == g.texts[26 * row + col]
            }
        }),
{
    law_carried_text_moves(raw, dcol, drow);
    let t = carried(raw, dcol, drow);
    assert(truncated(t, INPUT_CAP as int) =~= t);
    if on_grid(at_col, at_row) && index_of(at_col, at_row) == 26 * row + col {
        assert(at_row == row && at_col == col);
    }
}

// ---------------------------------------------------------------------------
// Results of texts that read nothing
// ---------------------------------------------------------------------------

/// Whatever a sheet showed before, after a recalculation a cell without text
/// is empty and worth nothing, a number is worth itself, and any other text
/// that is no formula is a text, worth nothing.
pub proof fn law_plain_cells(g: Grid, i: int)
    requires
        g.wf(),
        0 <= i < NCELLS,
        !is_formula(g.texts[i]),
    ensures
        g.recalculated().texts[i] == g.texts[i],
        g.texts[i].len() == 0 ==> g.recalculated().results[i] == (0i64, Kind::Empty),
        g.texts[i].len() > 0 ==> g.recalculated().results[i] == match whole_number(g.texts[i]) {
            Some(v) => (v, Kind::Num),
            None => (0i64, Kind::Text),
        },
{
    let n: nat = if crate::calc::reads_circle(g.texts, i) {
        SWEEP_CAP as nat
    } else {
        NCELLS as nat
    };
    let before = sweeps(g.texts, g.results, (n - 1) as nat);
    assert(sweeps(g.texts, g.results, n) == sweep(g.texts, before));
    assert(settled(g.texts, g.results)[i] == classified(g.texts[i], vals(before), nums(before)));
}

/// Emptying a rectangle empties each of its cells, and leaves the text of
/// every other cell alone.
pub proof fn law_clear_empties_rectangle(
    g: Grid,
    c0: int,
    r0: int,
    c1: int,
    r1: int,
    col: int,
    row: int,
)
    requires
        g.wf(),
        on_grid(col, row),
    ensures
        ({
            let now = g.cleared(c0, r0, c1, r1).recalculated();
            let i = 26 * row + col;
            if c0 <= col <= c1 && r0 <= row <= r1 {
                now.texts[i].len() == 0 && now.results[i] == (0i64, Kind::Empty)
            } else {
                now.texts[i] == g.texts[i]
            }
        }),
{
    let i = 26 * row + col;
    assert(i / COLS as int == row && i % COLS as int == col);
    let there = g.cleared(c0, r0, c1, r1);
    if c0 <= col <= c1 && r0 <= row <= r1 {
        law_plain_cells(there, i);
    }
}

/// Setting a cell gives it the text, as far as it fits, and leaves the text of
/// every other cell alone.
pub proof fn law_set_changes_one_cell(
    g: Grid,
    at_col: int,
    at_row: int,
    text: Seq<u8>,
    col: int,
    row: int,
)
    requires
        g.wf(),
        on_grid(at_col, at_row),
        on_grid(col, row),
    ensures
        ({
            let now = g.set(at_col, at_row, text).texts[26 * row + col];
            if col == at_col && row == at_row {
                &&& now.len() == if text.len() < 24 {
                    text.len()
                } else {
                    24
                }
                &&& forall|k: int| 0 <= k < now.len() ==> #[trigger] now[k] == text[k]
            } else {
                now == g.texts[26 * row + col]
            }
        }),
{
    if index_of(at_col, at_row) == 26 * row + col {
        assert(at_row == row && at_col == col);
    }
}

// ---------------------------------------------------------------------------
// Rows and columns put in and taken out
// ---------------------------------------------------------------------------

proof fn lemma_repointed_says(
    g: Grid,
    shift: Shift,
    cols: spec_fn(int) -> int,
    rows: spec_fn(int) -> int,
    i: int,
)
    requires
        g.texts.len() == NCELLS,
        0 <= i < NCELLS,
        agrees(shift, cols, rows),
    ensures
        says_moved(g.texts[i], g.repointed(shift).recalculated().texts[i], cols, rows),
{
    if is_formula(g.texts[i]) {
        lemma_says_moved(g.texts[i], shift, cols, rows);
    }
}

/// Putting a row in leaves every cell of it empty and worth nothing.
pub proof fn law_new_row_is_empty(g: Grid, at: usize, col: int)
    requires
        g.wf(),
        at < ROWS,
        0 <= col < COLS,
    ensures
        g.with_row(at as int).texts[26 * at + col].len() == 0,
        g.with_row(at as int).results[26 * at + col] == (0i64, Kind::Empty),
        g.row_inserted(at).texts[26 * at + col].len() == 0,
        g.row_inserted(at).results[26 * at + col] == (0i64, Kind::Empty),
{
    let i = 26 * at + col;
    assert(i / COLS as int == at);
    lemma_blank_stays(g.with_row(at as int), Shift::Rows { at, delta: 1 }, i);
}

/// Putting a column in leaves every cell of it empty and worth nothing.
pub proof fn law_new_col_is_empty(g: Grid, at: usize, row: int)
    requires
        g.wf(),
        at < COLS,
        0 <= row < ROWS,
    ensures
        g.with_col(at as int).texts[26 * row + at].len() == 0,
        g.with_col(at as int).results[26 * row + at] == (0i64, Kind::Empty),
        g.col_inserted(at).texts[26 * row + at].len() == 0,
        g.col_inserted(at).results[26 * row + at] == (0i64, Kind::Empty),
{
    let i = 26 * row + at;
    assert(i % COLS as int == at);
    lemma_blank_stays(g.with_col(at as int), Shift::Cols { at, delta: 1 }, i);
}

/// Taking a row out leaves the last row empty and worth nothing.
pub proof fn law_last_row_is_empty(g: Grid, at: usize, col: int)
    requires
        g.wf(),
        at < ROWS,
        0 <= col < COLS,
    ensures
        g.row_deleted(at).texts[26 * 49 + col].len() == 0,
        g.row_deleted(at).results[26 * 49 + col] == (0i64, Kind::Empty),
{
    let i = 26 * 49 + col;
    assert(i / COLS as int == 49);
    lemma_blank_stays(g.without_row(at as int), Shift::Rows { at, delta: (-1) as i32 }, i);
}

/// Taking a column out leaves the last column empty and worth nothing.
pub proof fn law_last_col_is_empty(g: Grid, at: usize, row: int)
    requires
        g.wf(),
        at < COLS,
        0 <= row < ROWS,
    ensures
        g.col_deleted(at).texts[26 * row + 25].len() == 0,
        g.col_deleted(at).results[26 * row + 25] == (0i64, Kind::Empty),
{
    let i = 26 * row + 25;
    assert(i % COLS as int == 25);
    lemma_blank_stays(g.without_col(at as int), Shift::Cols { at, delta: (-1) as i32 }, i);
}

proof fn lemma_blank_stays(g: Grid, shift: Shift, i: int)
    requires
        g.texts.len() == NCELLS,
        g.results.len() == NCELLS,
        forall|k: int| 0 <= k < NCELLS ==> (#[trigger] g.texts[k]).len() <= INPUT_CAP,
        0 <= i < NCELLS,
        g.texts[i].len() == 0,
    ensures
        g.repointed(shift).recalculated().texts[i].len() == 0,
        g.repointed(shift).recalculated().results[i] == (0i64, Kind::Empty),
{
    let there = g.repointed(shift);
    assert(there.wf());
    law_plain_cells(there, i);
}

/// A row or a column put in repeats nothing: two different cells outside of it
/// have their texts and results from two different cells.
pub proof fn law_insertion_repeats_nothing(g: Grid, at: int, i: int, j: int) -> (from: (
    (int, int),
    (int, int),
))
    requires
        g.wf(),
        0 <= i < NCELLS,
        0 <= j < NCELLS,
        i != j,
        0 <= at,
    ensures
        at < ROWS && i / 26 != at && j / 26 != at ==> {
            let (a, b) = from.0;
            &&& 0 <= a < NCELLS && 0 <= b < NCELLS && a != b
            &&& g.with_row(at).texts[i] == g.texts[a] && g.with_row(at).texts[j] == g.texts[b]
            &&& g.with_row(at).results[i] == g.results[a]
            &&& g.with_row(at).results[j] == g.results[b]
        },
        at < COLS && i % 26 != at && j % 26 != at ==> {
            let (a, b) = from.1;
            &&& 0 <= a < NCELLS && 0 <= b < NCELLS && a != b
            &&& g.with_col(at).texts[i] == g.texts[a] && g.with_col(at).texts[j] == g.texts[b]
            &&& g.with_col(at).results[i] == g.results[a]
            &&& g.with_col(at).results[j] == g.results[b]
        },
{
    let above = |k: int|
        if k / 26 > at {
            k - 26
        } else {
            k
        };
    let left = |k: int|
        if k % 26 > at {
            k - 1
        } else {
            k
        };
    ((above(i), above(j)), (left(i), left(j)))
}

/// Putting a row in keeps what stood above it where it was and moves the rest
/// down by one, references along with what they name.
pub proof fn law_rows_make_room(g: Grid, at: usize, col: int, row: int)
    requires
        g.wf(),
        at < ROWS,
        on_grid(col, row),
        row != at,
    ensures
        says_moved(
            g.texts[26 * (if row < at {
                row
            } else {
                row - 1
            }) + col],
            g.row_inserted(at).texts[26 * row + col],
            along(0),
            opened(at as int),
        ),
{
    let i = 26 * row + col;
    assert(i / COLS as int == row);
    lemma_repointed_says(
        g.with_row(at as int),
        Shift::Rows { at, delta: 1 },
        along(0),
        opened(at as int),
        i,
    );
}

/// Putting a column in keeps what stood left of it where it was and moves the
/// rest right by one, references along with what they name.
pub proof fn law_cols_make_room(g: Grid, at: usize, col: int, row: int)
    requires
        g.wf(),
        at < COLS,
        on_grid(col, row),
        col != at,
    ensures
        says_moved(
            g.texts[26 * row + (if col < at {
                col
            } else {
                col - 1
            })],
            g.col_inserted(at).texts[26 * row + col],
            opened(at as int),
            along(0),
        ),
{
    let i = 26 * row + col;
    assert(i % COLS as int == col);
    lemma_repointed_says(
        g.with_col(at as int),
        Shift::Cols { at, delta: 1 },
        opened(at as int),
        along(0),
        i,
    );
}

/// Taking a row out keeps what stood above it where it was and moves the rest
/// up by one, references along with what they name.
pub proof fn law_rows_close_up(g: Grid, at: usize, col: int, row: int)
    requires
        g.wf(),
        at < ROWS,
        on_grid(col, row),
        row < ROWS - 1,
    ensures
        says_moved(
            g.texts[26 * (if row < at {
                row
            } else {
                row + 1
            }) + col],
            g.row_deleted(at).texts[26 * row + col],
            along(0),
            closed_up(at as int),
        ),
{
    let i = 26 * row + col;
    assert(i / COLS as int == row);
    lemma_repointed_says(
        g.without_row(at as int),
        Shift::Rows { at, delta: (-1) as i32 },
        along(0),
        closed_up(at as int),
        i,
    );
}

/// Taking a column out keeps what stood left of it where it was and moves the
/// rest left by one, references along with what they name.
pub proof fn law_cols_close_up(g: Grid, at: usize, col: int, row: int)
    requires
        g.wf(),
        at < COLS,
        on_grid(col, row),
        col < COLS - 1,
    ensures
        says_moved(
            g.texts[26 * row + (if col < at {
                col
            } else {
                col + 1
            })],
            g.col_deleted(at).texts[26 * row + col],
            closed_up(at as int),
            along(0),
        ),
{
    let i = 26 * row + col;
    assert(i % COLS as int == col);
    lemma_repointed_says(
        g.without_col(at as int),
        Shift::Cols { at, delta: (-1) as i32 },
        closed_up(at as int),
        along(0),
        i,
    );
}

/// A reference to the last row or column stays where it is when a line put in
/// before it pushes what it named off the sheet.
pub proof fn law_pushed_off_reference_stays(at_row: usize, at_col: usize, col: int, row: int)
    requires
        on_grid(col, row),
        at_row < ROWS,
        at_col < COLS,
    ensures
        ({
            let by_row = rewritten(cell_name(col, 49), Shift::Rows { at: at_row, delta: 1 });
            let by_col = rewritten(cell_name(25, row), Shift::Cols { at: at_col, delta: 1 });
            &&& formula(by_row) == Some(Expr::Cell { col, row: 49 })
            &&& formula(by_col) == Some(Expr::Cell { col: 25, row })
        }),
{
    lemma_name_is_formula(col, 49);
    lemma_name_is_formula(25, row);
    law_rewriting_moves_references(cell_name(col, 49), Shift::Rows { at: at_row, delta: 1 });
    law_rewriting_moves_references(cell_name(25, row), Shift::Cols { at: at_col, delta: 1 });
}

// ---------------------------------------------------------------------------
// Rewriting, piece by piece
// ---------------------------------------------------------------------------

/// `s` stands in `b` from `n` on, and no letter or digit follows it.
spec fn stands_apart(s: Seq<u8>, b: Seq<u8>, n: int) -> bool {
    &&& 0 <= n
    &&& n + s.len() <= b.len()
    &&& forall|i: int| 0 <= i < s.len() ==> #[trigger] b[n + i] == s[i]
    &&& n + s.len() == b.len() || (!is_alpha(b[n + s.len()]) && !is_digit(b[n + s.len()]))
}

proof fn lemma_apart_ends(s: Seq<u8>, b: Seq<u8>, n: int, p: int)
    requires
        stands_apart(s, b, n),
        0 <= p <= s.len(),
    ensures
        alphas_end(b, n + p) == n + alphas_end(s, p),
        digits_end(b, n + p) == n + digits_end(s, p),
    decreases s.len() - p,
{
    if p < s.len() {
        assert(b[n + p] == s[p]);
        lemma_apart_ends(s, b, n, p + 1);
    }
}

/// A piece is rewritten alike wherever it stands.
proof fn lemma_piece_rewritten(s: Seq<u8>, b: Seq<u8>, n: int, p: int, shift: Shift)
    requires
        stands_apart(s, b, n),
        0 <= p <= s.len(),
    ensures
        rewritten_from(b, n + p, shift) == rewritten_from(s, p, shift) + rewritten_from(
            b,
            n + s.len(),
            shift,
        ),
    decreases s.len() - p,
{
    let rest = rewritten_from(b, n + s.len(), shift);
    if p >= s.len() {
        assert(rewritten_from(s, p, shift) + rest =~= rest);
    } else {
        assert(b[n + p] == s[p]);
        if is_alpha(s[p]) {
            let j = alphas_end(s, p);
            lemma_alphas_end(s, p);
            lemma_alphas_end(s, p + 1);
            assert(j == alphas_end(s, p + 1));
            lemma_apart_ends(s, b, n, p);
            if p + 1 < s.len() {
                assert(b[n + (p + 1)] == s[p + 1]);
            }
            assert(ref_starts(s, p) <==> ref_starts(b, n + p));
            if j == p + 1 && ref_starts(s, p) {
                let k = digits_end(s, j);
                lemma_digits_end(s, j);
                lemma_apart_ends(s, b, n, j);
                lemma_piece_rewritten(s, b, n, k, shift);
                assert forall|m: int| 0 <= m < k - j implies #[trigger] s[j + m] == b[(n + j)
                    + m] by {
                    assert(b[n + (j + m)] == s[j + m]);
                }
                lemma_digits_value_same(s, j, k, b, n + j);
                let text = ref_text(shift, column(s[p]), row_number(s, j, k));
                assert(text + rewritten_from(s, k, shift) + rest =~= text + (rewritten_from(
                    s,
                    k,
                    shift,
                ) + rest));
            } else {
                lemma_piece_rewritten(s, b, n, j, shift);
                let word = s.subrange(p, j);
                assert(b.subrange(n + p, n + j) =~= word) by {
                    let there = b.subrange(n + p, n + j);
                    assert forall|m: int| 0 <= m < j - p implies #[trigger] there[m] == word[m] by {
                        assert(b[n + (p + m)] == s[p + m]);
                    }
                }
                assert(word + rewritten_from(s, j, shift) + rest =~= word + (rewritten_from(
                    s,
                    j,
                    shift,
                ) + rest));
            }
        } else {
            lemma_piece_rewritten(s, b, n, p + 1, shift);
            assert(seq![s[p]] + rewritten_from(s, p + 1, shift) + rest =~= seq![s[p]] + (
            rewritten_from(s, p + 1, shift) + rest));
        }
    }
}

/// A text is rewritten piece by piece: a byte that is neither letter nor digit
/// stays, and what stands before it and behind it is rewritten by itself.
pub proof fn law_rewriting_goes_by_pieces(a: Seq<u8>, c: u8, b: Seq<u8>, shift: Shift)
    requires
        !is_alpha(c),
        !is_digit(c),
    ensures
        rewritten(a + seq![c] + b, shift) == rewritten(a, shift) + seq![c] + rewritten(b, shift),
{
    let all = a + seq![c] + b;
    let n = a.len() as int;
    assert(all[n] == c);
    assert(stands_apart(a, all, 0));
    lemma_piece_rewritten(a, all, 0, 0, shift);
    assert forall|i: int| 0 <= i < b.len() implies #[trigger] all[(n + 1) + i] == b[i] by {}
    assert(stands_apart(b, all, n + 1));
    lemma_piece_rewritten(b, all, n + 1, 0, shift);
    assert(rewritten_from(all, all.len() as int, shift).len() == 0);
    assert(rewritten(b, shift) + rewritten_from(all, all.len() as int, shift) =~= rewritten(
        b,
        shift,
    ));
    assert(rewritten_from(all, n, shift) == seq![c] + rewritten_from(all, n + 1, shift));
    assert(rewritten(a, shift) + (seq![c] + rewritten(b, shift)) =~= rewritten(a, shift) + seq![c]
        + rewritten(b, shift));
}

/// A word of two letters or more stays as it is, and so do digits; a cell's
/// name becomes the name of the cell that it now means.
pub proof fn law_only_references_are_rewritten(s: Seq<u8>, shift: Shift, col: int, row: int)
    ensures
        s.len() > 1 && (forall|i: int| 0 <= i < s.len() ==> is_alpha(#[trigger] s[i])) ==> rewritten(
            s,
            shift,
        ) == s,
        (forall|i: int| 0 <= i < s.len() ==> !is_alpha(#[trigger] s[i])) ==> rewritten(s, shift)
            == s,
        on_grid(col, row) && (shifted(shift, col, row) matches Some((c, r)) && on_grid(c, r))
            ==> rewritten(cell_name(col, row), shift) == cell_name(
            shifted(shift, col, row)->Some_0.0,
            shifted(shift, col, row)->Some_0.1,
        ),
{
    let n = s.len() as int;
    if n > 1 && forall|i: int| 0 <= i < s.len() ==> is_alpha(#[trigger] s[i]) {
        crate::repoint::lemma_alphas_from(s, 0, n);
        assert(alphas_end(s, n) == n);
        assert(is_alpha(s[0]));
        assert(s.subrange(0, n) =~= s);
        assert(rewritten_from(s, n, shift).len() == 0);
        assert(s + rewritten_from(s, n, shift) =~= s);
    }
    if forall|i: int| 0 <= i < s.len() ==> !is_alpha(#[trigger] s[i]) {
        lemma_plain_stays(s, 0, shift);
        assert(s.skip(0) =~= s);
    }
    if on_grid(col, row) {
        let name = cell_name(col, row);
        let end = name.len() as int;
        assert(name.subrange(0, end) =~= name);
        lemma_name_read(name, 0, col, row);
        assert(row_number(name, 1, end) == row + 1);
        assert(rewritten_from(name, end, shift).len() == 0);
        assert(ref_text(shift, col, row + 1) + rewritten_from(name, end, shift) =~= ref_text(
            shift,
            col,
            row + 1,
        ));
    }
}

proof fn lemma_plain_stays(s: Seq<u8>, p: int, shift: Shift)
    requires
        0 <= p <= s.len(),
        forall|i: int| 0 <= i < s.len() ==> !is_alpha(#[trigger] s[i]),
    ensures
        rewritten_from(s, p, shift) == s.skip(p),
    decreases s.len() - p,
{
    if p < s.len() {
        lemma_plain_stays(s, p + 1, shift);
        assert(seq![s[p]] + s.skip(p + 1) =~= s.skip(p));
    } else {
        assert(s.skip(p) =~= seq![]);
    }
}

/// A rewritten text that is too long for a cell is cut at the cell's end, and
/// only then.
pub proof fn law_long_text_is_cut(raw: Seq<u8>, dcol: int, drow: int)
    requires
        is_formula(raw),
    ensures
        ({
            let whole = rewritten(raw, Shift::Fill { dcol: dcol as i32, drow: drow as i32 });
            let now = carried(raw, dcol, drow);
            &&& now.is_prefix_of(whole)
            &&& now.len() == if whole.len() < 24 {
                whole.len()
            } else {
                24
            }
        }),
{
}

} // verus!
