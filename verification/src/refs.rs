//! Moving the relative cell references inside a formula's text.

use vstd::prelude::*;

use crate::ascii::{
    alphas_end, digits_end, is_alpha, is_ascii_alphabetic, is_ascii_digit, is_digit,
    lemma_alphas_end, lemma_digits_end, lemma_digits_value_nonneg, push_range, read_row_number,
    row_number, skip_alphas, to_ascii_uppercase, ROW_NUMBER_MAX, UPPER_A,
};
use crate::decimal::{dec, push_dec};
use crate::formula::column;
use crate::grid::{on_grid, COLS, ROWS};
use crate::number::{copy_to_front, overlaid};

verus! {

/// How [`rewrite_refs`] moves each reference it finds.
#[derive(Copy, Clone, PartialEq, Eq, Structural)]
pub enum Shift {
    /// Fill / paste: every reference moves by `(dcol, drow)`, clamped to the
    /// grid.
    Fill { dcol: i32, drow: i32 },
    /// A row was inserted at `at` (`delta` = +1) or deleted (`delta` = -1).
    /// References below the line follow their data; on a delete, references
    /// to the removed row are invalidated.
    Rows { at: usize, delta: i32 },
    /// The column equivalent of [`Shift::Rows`].
    Cols { at: usize, delta: i32 },
}

pub open spec fn clamped(x: int, lo: int, hi: int) -> int {
    if x < lo {
        lo
    } else if x > hi {
        hi
    } else {
        x
    }
}

/// Where one coordinate goes when a line was inserted or deleted at `at`.
pub open spec fn moved(at: int, delta: int, x: int, last: int) -> Option<int> {
    if delta < 0 && x == at {
        None
    } else if x >= at {
        Some(clamped(x + delta, 0, last))
    } else {
        Some(x)
    }
}

/// Where a reference to `(col, row)` ends up. `None` if the row or column that
/// it pointed at has been deleted.
pub open spec fn shifted(shift: Shift, col: int, row: int) -> Option<(int, int)> {
    match shift {
        Shift::Fill { dcol, drow } => Some(
            (clamped(col + dcol, 0, COLS - 1), clamped(row + drow, 0, ROWS - 1)),
        ),
        Shift::Rows { at, delta } => match moved(at as int, delta as int, row, ROWS - 1) {
            Some(r) => Some((col, r)),
            None => None,
        },
        Shift::Cols { at, delta } => match moved(at as int, delta as int, col, COLS - 1) {
            Some(c) => Some((c, row)),
            None => None,
        },
    }
}

/// A reference, to column `col` and the row that the text calls `row1`, as it
/// is written after the shift. One whose target is gone names row 0, which is
/// no cell.
pub open spec fn ref_text(shift: Shift, col: int, row1: int) -> Seq<u8> {
    match shifted(shift, col, row1 - 1) {
        Some((c, r)) => seq![(UPPER_A + c) as u8] + dec((r + 1) as nat),
        None => seq![(UPPER_A + col) as u8] + dec(0),
    }
}

/// Whether a reference starts at `i`, where a run of letters does: one letter
/// and a digit behind it.
pub open spec fn ref_starts(src: Seq<u8>, i: int) -> bool {
    &&& 0 <= i
    &&& i + 1 < src.len()
    &&& is_alpha(src[i])
    &&& is_digit(src[i + 1])
}

/// The text from `i` on with every reference shifted: a reference is a single
/// letter with digits behind it; longer words, numbers and signs stay.
pub open spec fn rewritten_from(src: Seq<u8>, i: int, shift: Shift) -> Seq<u8>
    decreases src.len() - i,
    when 0 <= i <= src.len()
{
    if i >= src.len() {
        seq![]
    } else if is_alpha(src[i]) {
        let j = alphas_end(src, i);
        proof {
            lemma_alphas_end(src, i);
            assert(j > i);
        }
        if j == i + 1 && ref_starts(src, i) {
            let k = digits_end(src, j);
            proof {
                lemma_digits_end(src, j);
            }
            ref_text(shift, column(src[i]), row_number(src, j, k)) + rewritten_from(src, k, shift)
        } else {
            src.subrange(i, j) + rewritten_from(src, j, shift)
        }
    } else {
        seq![src[i]] + rewritten_from(src, i + 1, shift)
    }
}

/// A formula's text with every reference shifted.
pub open spec fn rewritten(src: Seq<u8>, shift: Shift) -> Seq<u8> {
    rewritten_from(src, 0, shift)
}

/// As much of a text as fits into `room` bytes.
pub open spec fn truncated(text: Seq<u8>, room: int) -> Seq<u8> {
    if text.len() <= room {
        text
    } else {
        text.take(room)
    }
}

/// Deleting the row that was just inserted takes every reference back, but for
/// the last row, which the insertion pushed off the grid.
pub proof fn law_delete_row_undoes_insert(at: usize, col: int, row: int)
    requires
        at < ROWS,
        on_grid(col, row),
        row < ROWS - 1,
    ensures
        shifted(Shift::Rows { at, delta: 1 }, col, row) matches Some((c, r)) && shifted(
            Shift::Rows { at, delta: (-1) as i32 },
            c,
            r,
        ) == Some((col, row)),
{
}

/// Deleting the column that was just inserted takes every reference back, but
/// for the last column, which the insertion pushed off the grid.
pub proof fn law_delete_col_undoes_insert(at: usize, col: int, row: int)
    requires
        at < COLS,
        on_grid(col, row),
        col < COLS - 1,
    ensures
        shifted(Shift::Cols { at, delta: 1 }, col, row) matches Some((c, r)) && shifted(
            Shift::Cols { at, delta: (-1) as i32 },
            c,
            r,
        ) == Some((col, row)),
{
}

/// A shifted reference to a cell of the grid names a cell of the grid.
pub proof fn law_shift_stays_on_grid(shift: Shift, col: int, row: int)
    requires
        on_grid(col, row),
    ensures
        shifted(shift, col, row) matches Some((c, r)) ==> on_grid(c, r),
{
}

fn clamp(x: i64, lo: i64, hi: i64) -> (r: i64)
    ensures
        r == clamped(x as int, lo as int, hi as int),
{
    if x < lo {
        lo
    } else if x > hi {
        hi
    } else {
        x
    }
}

/// Where one coordinate goes when a line was inserted or deleted.
fn move_line(at: usize, delta: i32, x: i64, last: i64) -> (r: Option<i64>)
    requires
        i32::MIN <= x < ROW_NUMBER_MAX,
    ensures
        match r {
            Some(y) => moved(at as int, delta as int, x as int, last as int) == Some(y as int),
            None => moved(at as int, delta as int, x as int, last as int) is None,
        },
{
    let line: i64 = if at as u64 > ROW_NUMBER_MAX {
        ROW_NUMBER_MAX as i64
    } else {
        at as i64
    };
    if delta < 0 && x == line {
        None
    } else if x >= line {
        Some(clamp(x + delta as i64, 0, last))
    } else {
        Some(x)
    }
}

/// Where a reference to `(col, row)`, counted from zero, ends up. `None` means
/// that it pointed at a row or column that has just been deleted.
pub fn shift_ref(shift: Shift, col: i64, row: i64) -> (r: Option<(i64, i64)>)
    requires
        i32::MIN <= col < ROW_NUMBER_MAX,
        i32::MIN <= row < ROW_NUMBER_MAX,
    ensures
        match r {
            Some((c, r)) => shifted(shift, col as int, row as int) == Some((c as int, r as int)),
            None => shifted(shift, col as int, row as int) is None,
        },
{
    let cmax: i64 = COLS as i64 - 1;
    let rmax: i64 = ROWS as i64 - 1;
    match shift {
        Shift::Fill { dcol, drow } => {
            Some((clamp(col + dcol as i64, 0, cmax), clamp(row + drow as i64, 0, rmax)))
        },
        Shift::Rows { at, delta } => {
            match move_line(at, delta, row, rmax) {
                Some(r) => Some((col, r)),
                None => None,
            }
        },
        Shift::Cols { at, delta } => {
            match move_line(at, delta, col, cmax) {
                Some(c) => Some((c, row)),
                None => None,
            }
        },
    }
}

/// Append a reference as it is written after the shift.
fn push_ref(out: &mut Vec<u8>, shift: Shift, col: i64, row1: u64)
    requires
        0 <= col < COLS,
        row1 <= ROW_NUMBER_MAX,
    ensures
        final(out)@ == old(out)@ + ref_text(shift, col as int, row1 as int),
{
    let (ncol, nrow): (i64, i64) = match shift_ref(shift, col, row1 as i64 - 1) {
        Some((c, r)) => (c, r + 1),
        None => (col, 0),
    };
    out.push(UPPER_A + ncol as u8);
    push_dec(out, nrow as u64);
    assert(out@ =~= old(out)@ + (seq![(UPPER_A + ncol) as u8] + dec(nrow as nat)));
}

/// A formula's text with every reference shifted.
pub fn rewrite(src: &[u8], shift: Shift) -> (out: Vec<u8>)
    ensures
        out@ == rewritten(src@, shift),
{
    let mut out: Vec<u8> = Vec::new();
    let mut i: usize = 0;
    while i < src.len()
        invariant
            i <= src@.len(),
            out@ + rewritten_from(src@, i as int, shift) == rewritten(src@, shift),
        decreases src@.len() - i,
    {
        let ghost before = out@;
        let ghost i0 = i as int;
        let c: u8 = src[i];
        if is_ascii_alphabetic(c) {
            let a0: usize = i;
            i = skip_alphas(src, i);
            proof {
                lemma_alphas_end(src@, a0 as int);
                if i < src@.len() {
                    lemma_digits_end(src@, i as int);
                }
            }
            assert(i > a0);
            if i - a0 == 1 && i < src.len() && is_ascii_digit(src[i]) {
                // Relative reference: <letter><digits>.
                let col: i64 = (to_ascii_uppercase(c) - UPPER_A) as i64;
                let row1: u64 = read_row_number(src, &mut i);
                proof {
                    lemma_digits_value_nonneg(src@, a0 + 1, i as int);
                }
                push_ref(&mut out, shift, col, row1);
            } else {
                // Function name: copy the run as it is.
                push_range(&mut out, src, a0, i);
            }
        } else {
            out.push(c);
            i += 1;
        }
        proof {
            let rest = rewritten_from(src@, i as int, shift);
            let chunk = out@.skip(before.len() as int);
            assert(out@ =~= before + chunk);
            assert(rewritten_from(src@, i0, shift) =~= chunk + rest);
            assert(out@ + rest =~= before + (chunk + rest));
        }
    }
    assert(out@ =~= rewritten(src@, shift));
    out
}

/// Rewrite every relative cell reference in `src` under `shift` into `out`.
/// Returns the number of bytes written, which is less than the whole text if
/// that does not fit.
pub fn rewrite_refs(src: &[u8], shift: Shift, out: &mut [u8]) -> (n: usize)
    ensures
        n == truncated(rewritten(src@, shift), old(out)@.len() as int).len(),
        final(out)@ == overlaid(
            old(out)@,
            truncated(rewritten(src@, shift), old(out)@.len() as int),
        ),
{
    let text: Vec<u8> = rewrite(src, shift);
    let n: usize = if text.len() < out.len() {
        text.len()
    } else {
        out.len()
    };
    let shown: &[u8] = vstd::slice::slice_subrange(text.as_slice(), 0, n);
    assert(shown@ =~= truncated(text@, out@.len() as int));
    copy_to_front(out, shown);
    n
}

} // verus!
