//! The sheet: a fixed grid of cells, each with the text that was typed into it
//! and the result of that text.

use vstd::prelude::*;

use crate::ascii::EQUALS;
use crate::calc::{
    bounded, is_settled, lemma_bounded_agree, lemma_bounded_more, lemma_bounds_rest,
    lemma_free_is_bounded, lemma_sweeps_stay, nums, reads_circle, settled, sweep, sweeps, vals,
    SWEEP_CAP,
};
use crate::fixed::{saturated, saturating_sum};
use crate::formula::{classified, classify, is_formula, text_reads};
use crate::grammar::law_text_reads_grid;
use crate::grid::{
    idx, in_rect, index_of, least_of, lemma_row_cells_push, min_of, rect_cells, row_cells, Kind,
    COLS, INPUT_CAP, NCELLS, ROWS,
};
use crate::refs::{rewrite, rewritten, truncated, Shift};
use crate::trace::{cells_read, names};

verus! {

/// One cell: its raw text, and what that text is worth.
#[derive(Copy, Clone)]
pub struct Cell {
    pub buf: [u8; INPUT_CAP],
    pub len: u8,
    /// Scaled by `ONE`; meaningful for a number, else zero.
    pub value: i64,
    pub kind: Kind,
}

impl Cell {
    pub open spec fn wf(&self) -> bool {
        self.len <= INPUT_CAP
    }

    pub open spec fn text(&self) -> Seq<u8> {
        self.buf@.take(self.len as int)
    }

    pub open spec fn result(&self) -> (i64, Kind) {
        (self.value, self.kind)
    }

    /// A cell without text.
    pub fn empty() -> (c: Cell)
        ensures
            c.wf(),
            c.text() == Seq::<u8>::empty(),
            c.result() == (0i64, Kind::Empty),
            c.len == 0,
            forall|k: int| 0 <= k < INPUT_CAP ==> #[trigger] c.buf@[k] == 0,
    {
        let c = Cell { buf: [0;INPUT_CAP], len: 0, value: 0, kind: Kind::Empty };
        assert(c.text() =~= Seq::<u8>::empty());
        c
    }

    pub fn raw(&self) -> (r: &[u8])
        requires
            self.wf(),
        ensures
            r@ == self.text(),
    {
        let r: &[u8] = vstd::slice::slice_subrange(self.buf.as_slice(), 0, self.len as usize);
        assert(r@ =~= self.text());
        r
    }

    pub fn is_empty(&self) -> (r: bool)
        requires
            self.wf(),
        ensures
            r == (self.text().len() == 0),
    {
        self.len == 0
    }

    /// Put as much of `text` into the cell as it holds.
    pub fn put(&mut self, text: &[u8])
        requires
            old(self).wf(),
        ensures
            final(self).wf(),
            final(self).text() == truncated(text@, INPUT_CAP as int),
            final(self).result() == old(self).result(),
    {
        let n: usize = if text.len() < INPUT_CAP {
            text.len()
        } else {
            INPUT_CAP
        };
        let mut i: usize = 0;
        while i < n
            invariant
                i <= n <= INPUT_CAP,
                n <= text@.len(),
                self.result() == old(self).result(),
                self.buf@.take(i as int) == text@.take(i as int),
            decreases n - i,
        {
            self.buf[i] = text[i];
            i += 1;
            assert(self.buf@.take(i as int) =~= text@.take(i as int));
        }
        self.len = n as u8;
        assert(self.text() =~= truncated(text@, INPUT_CAP as int));
    }
}

/// What a sheet holds: every cell's text and result, row after row.
#[verifier::ext_equal]
pub struct Grid {
    pub texts: Seq<Seq<u8>>,
    pub results: Seq<(i64, Kind)>,
}

/// The texts with every formula re-pointed under a shift.
pub open spec fn repointed(texts: Seq<Seq<u8>>, shift: Shift) -> Seq<Seq<u8>> {
    Seq::new(
        texts.len(),
        |i: int|
            if is_formula(texts[i]) {
                truncated(rewritten(texts[i], shift), INPUT_CAP as int)
            } else {
                texts[i]
            },
    )
}

/// What a cell gets by a fill or a paste of `raw` that moved by
/// `(dcol, drow)`: a formula with its references moved, anything else as it is.
pub open spec fn carried(raw: Seq<u8>, dcol: int, drow: int) -> Seq<u8> {
    truncated(
        if is_formula(raw) {
            rewritten(raw, Shift::Fill { dcol: dcol as i32, drow: drow as i32 })
        } else {
            raw
        },
        INPUT_CAP as int,
    )
}

/// A sequence of cells with a blank row at `at`: rows from there on move down
/// and the last one falls off.
pub open spec fn rows_down<T>(s: Seq<T>, at: int, blank: T) -> Seq<T> {
    Seq::new(
        NCELLS as nat,
        |i: int|
            if i / COLS as int == at {
                blank
            } else if i / COLS as int > at {
                s[i - COLS]
            } else {
                s[i]
            },
    )
}

/// A sequence of cells without row `at`: rows below it move up and the last
/// one is blank.
pub open spec fn rows_up<T>(s: Seq<T>, at: int, blank: T) -> Seq<T> {
    Seq::new(
        NCELLS as nat,
        |i: int|
            if i / COLS as int == ROWS - 1 {
                blank
            } else if i / COLS as int >= at {
                s[i + COLS]
            } else {
                s[i]
            },
    )
}

/// A sequence of cells with a blank column at `at`: columns from there on move
/// right and the last one falls off.
pub open spec fn cols_right<T>(s: Seq<T>, at: int, blank: T) -> Seq<T> {
    Seq::new(
        NCELLS as nat,
        |i: int|
            if i % COLS as int == at {
                blank
            } else if i % COLS as int > at {
                s[i - 1]
            } else {
                s[i]
            },
    )
}

/// A sequence of cells without column `at`: columns right of it move left and
/// the last one is blank.
pub open spec fn cols_left<T>(s: Seq<T>, at: int, blank: T) -> Seq<T> {
    Seq::new(
        NCELLS as nat,
        |i: int|
            if i % COLS as int == COLS - 1 {
                blank
            } else if i % COLS as int >= at {
                s[i + 1]
            } else {
                s[i]
            },
    )
}

/// The sum of the numbers among the cells, taken in order without leaving the
/// range of a value, and how many they are.
pub open spec fn sum_and_count(cells: Seq<int>, results: Seq<(i64, Kind)>) -> (i64, nat)
    decreases cells.len(),
{
    if cells.len() == 0 {
        (0, 0)
    } else {
        let (sum, count) = sum_and_count(cells.drop_last(), results);
        let (v, kind) = results[cells.last()];
        if kind == Kind::Num {
            (saturated(sum + v), count + 1)
        } else {
            (sum, count)
        }
    }
}

impl Grid {
    pub open spec fn blank() -> Grid {
        Grid {
            texts: Seq::new(NCELLS as nat, |i: int| Seq::<u8>::empty()),
            results: Seq::new(NCELLS as nat, |i: int| (0i64, Kind::Empty)),
        }
    }

    /// One text and one result for each cell, and no text too long.
    pub open spec fn wf(self) -> bool {
        &&& self.texts.len() == NCELLS
        &&& self.results.len() == NCELLS
        &&& forall|i: int| 0 <= i < NCELLS ==> (#[trigger] self.texts[i]).len() <= INPUT_CAP
    }

    pub open spec fn recalculated(self) -> Grid {
        Grid { texts: self.texts, results: settled(self.texts, self.results) }
    }

    /// Cell `i` given the text, as far as it fits.
    pub open spec fn with_text(self, i: int, text: Seq<u8>) -> Grid {
        Grid {
            texts: self.texts.update(i, truncated(text, INPUT_CAP as int)),
            results: self.results,
        }
    }

    pub open spec fn set(self, col: int, row: int, text: Seq<u8>) -> Grid {
        self.with_text(index_of(col, row), text).recalculated()
    }

    pub open spec fn set_shifted(
        self,
        col: int,
        row: int,
        raw: Seq<u8>,
        dcol: int,
        drow: int,
    ) -> Grid {
        if 0 <= col < COLS && 0 <= row < ROWS {
            self.with_text(index_of(col, row), carried(raw, dcol, drow))
        } else {
            self
        }
    }

    /// Every cell of the rectangle given `raw`, moved by its way from
    /// `(src_col, src_row)`.
    pub open spec fn filled(
        self,
        src_col: int,
        src_row: int,
        raw: Seq<u8>,
        c0: int,
        r0: int,
        c1: int,
        r1: int,
    ) -> Grid {
        Grid {
            texts: Seq::new(
                NCELLS as nat,
                |i: int|
                    if in_rect(c0, r0, c1, r1, i) {
                        carried(raw, i % COLS as int - src_col, i / COLS as int - src_row)
                    } else {
                        self.texts[i]
                    },
            ),
            results: self.results,
        }
    }

    pub open spec fn cleared(self, c0: int, r0: int, c1: int, r1: int) -> Grid {
        Grid {
            texts: Seq::new(
                NCELLS as nat,
                |i: int|
                    if in_rect(c0, r0, c1, r1, i) {
                        Seq::<u8>::empty()
                    } else {
                        self.texts[i]
                    },
            ),
            results: Seq::new(
                NCELLS as nat,
                |i: int|
                    if in_rect(c0, r0, c1, r1, i) {
                        (0i64, Kind::Empty)
                    } else {
                        self.results[i]
                    },
            ),
        }
    }

    pub open spec fn repointed(self, shift: Shift) -> Grid {
        Grid { texts: repointed(self.texts, shift), results: self.results }
    }

    pub open spec fn with_row(self, at: int) -> Grid {
        Grid {
            texts: rows_down(self.texts, at, Seq::<u8>::empty()),
            results: rows_down(self.results, at, (0i64, Kind::Empty)),
        }
    }

    pub open spec fn without_row(self, at: int) -> Grid {
        Grid {
            texts: rows_up(self.texts, at, Seq::<u8>::empty()),
            results: rows_up(self.results, at, (0i64, Kind::Empty)),
        }
    }

    pub open spec fn with_col(self, at: int) -> Grid {
        Grid {
            texts: cols_right(self.texts, at, Seq::<u8>::empty()),
            results: cols_right(self.results, at, (0i64, Kind::Empty)),
        }
    }

    pub open spec fn without_col(self, at: int) -> Grid {
        Grid {
            texts: cols_left(self.texts, at, Seq::<u8>::empty()),
            results: cols_left(self.results, at, (0i64, Kind::Empty)),
        }
    }

    /// The sum of the numbers in a rectangle, as far as it lies on the grid,
    /// and how many they are.
    pub open spec fn stats(self, c0: int, r0: int, c1: int, r1: int) -> (i64, nat) {
        sum_and_count(
            rect_cells(c0, r0, least_of(c1, COLS - 1), least_of(r1, ROWS - 1)),
            self.results,
        )
    }

    /// A blank row put in at `at`, references moved along.
    pub open spec fn row_inserted(self, at: usize) -> Grid {
        self.with_row(at as int).repointed(Shift::Rows { at, delta: 1 }).recalculated()
    }

    /// Row `at` taken out, references moved along.
    pub open spec fn row_deleted(self, at: usize) -> Grid {
        self.without_row(at as int).repointed(Shift::Rows { at, delta: (-1) as i32 }).recalculated()
    }

    /// A blank column put in at `at`, references moved along.
    pub open spec fn col_inserted(self, at: usize) -> Grid {
        self.with_col(at as int).repointed(Shift::Cols { at, delta: 1 }).recalculated()
    }

    /// Column `at` taken out, references moved along.
    pub open spec fn col_deleted(self, at: usize) -> Grid {
        self.without_col(at as int).repointed(Shift::Cols { at, delta: (-1) as i32 }).recalculated()
    }
}

pub struct Sheet {
    pub cells: [Cell; NCELLS],
}

impl View for Sheet {
    type V = Grid;

    open spec fn view(&self) -> Grid {
        Grid {
            texts: Seq::new(NCELLS as nat, |i: int| self.cells@[i].text()),
            results: Seq::new(NCELLS as nat, |i: int| self.cells@[i].result()),
        }
    }
}

impl Sheet {
    pub open spec fn wf(&self) -> bool {
        forall|i: int| 0 <= i < NCELLS ==> (#[trigger] self.cells@[i]).wf()
    }

    pub fn new() -> (s: Sheet)
        ensures
            s.wf(),
            s@ == Grid::blank(),
    {
        let s = Sheet { cells: [Cell::empty();NCELLS] };
        assert(s@ =~= Grid::blank());
        s
    }

    /// A sheet's view has one text and one result for each cell.
    pub proof fn lemma_view_wf(&self)
        requires
            self.wf(),
        ensures
            self@.wf(),
    {
    }

    /// Empty every cell.
    pub fn reset(&mut self)
        ensures
            final(self).wf(),
            final(self)@ == Grid::blank(),
    {
        let mut i: usize = 0;
        while i < NCELLS
            invariant
                i <= NCELLS,
                forall|j: int|
                    0 <= j < i ==> (#[trigger] self.cells@[j]).wf() && self.cells@[j].text()
                        == Seq::<u8>::empty() && self.cells@[j].result() == (0i64, Kind::Empty),
            decreases NCELLS - i,
        {
            self.cells[i] = Cell::empty();
            i += 1;
        }
        assert(self@ =~= Grid::blank());
    }

    /// Put `text` into cell `i`, as far as it fits.
    pub(crate) fn put(&mut self, i: usize, text: &[u8])
        requires
            old(self).wf(),
            i < NCELLS,
        ensures
            final(self).wf(),
            final(self)@ == old(self)@.with_text(i as int, text@),
    {
        let mut c: Cell = self.cells[i];
        c.put(text);
        self.cells[i] = c;
        assert(self@ =~= old(self)@.with_text(i as int, text@));
    }

    /// Overwrite a cell's raw text (truncated to `INPUT_CAP`) and recalculate.
    pub fn set(&mut self, col: usize, row: usize, text: &[u8])
        requires
            old(self).wf(),
            index_of(col as int, row as int) < NCELLS,
        ensures
            final(self).wf(),
            final(self)@ == old(self)@.set(col as int, row as int, text@),
    {
        self.put(idx(col, row), text);
        self.recalc();
    }

    /// Write `raw` into one cell with every relative reference shifted by
    /// `(dcol, drow)`, the mechanic behind both fill and paste. Plain numbers
    /// and text are copied as they are (only a leading `=` marks a formula
    /// whose references should move). Off the grid nothing is written.
    ///
    /// Callers write a whole rectangle, then [`Sheet::recalc`] once.
    pub fn set_shifted(&mut self, col: usize, row: usize, raw: &[u8], dcol: i32, drow: i32)
        requires
            old(self).wf(),
        ensures
            final(self).wf(),
            final(self)@ == old(self)@.set_shifted(
                col as int,
                row as int,
                raw@,
                dcol as int,
                drow as int,
            ),
    {
        if col >= COLS || row >= ROWS {
            return;
        }
        let i: usize = idx(col, row);
        if raw.len() > 0 && raw[0] == EQUALS {
            let text: Vec<u8> = rewrite(raw, Shift::Fill { dcol, drow });
            self.put(i, text.as_slice());
            proof {
                let t = rewritten(raw@, Shift::Fill { dcol, drow });
                assert(truncated(truncated(t, INPUT_CAP as int), INPUT_CAP as int) =~= truncated(
                    t,
                    INPUT_CAP as int,
                ));
            }
        } else {
            self.put(i, raw);
            assert(truncated(truncated(raw@, INPUT_CAP as int), INPUT_CAP as int) =~= truncated(
                raw@,
                INPUT_CAP as int,
            ));
        }
    }

    /// Fill the rectangle `(c0, r0)..=(c1, r1)` from a source cell's raw text,
    /// each target's references shifted by its offset from
    /// `(src_col, src_row)`. Recalculates once at the end.
    pub fn fill(
        &mut self,
        src_col: usize,
        src_row: usize,
        raw: &[u8],
        c0: usize,
        r0: usize,
        c1: usize,
        r1: usize,
    )
        requires
            old(self).wf(),
        ensures
            final(self).wf(),
            final(self)@ == old(self)@.filled(
                src_col as int,
                src_row as int,
                raw@,
                c0 as int,
                r0 as int,
                c1 as int,
                r1 as int,
            ).recalculated(),
    {
        let ghost g = old(self)@.filled(
            src_col as int,
            src_row as int,
            raw@,
            c0 as int,
            r0 as int,
            c1 as int,
            r1 as int,
        );
        let mut i: usize = 0;
        while i < NCELLS
            invariant
                i <= NCELLS,
                self.wf(),
                g == old(self)@.filled(
                    src_col as int,
                    src_row as int,
                    raw@,
                    c0 as int,
                    r0 as int,
                    c1 as int,
                    r1 as int,
                ),
                self@.results == old(self)@.results,
                forall|j: int| 0 <= j < i ==> #[trigger] self@.texts[j] == g.texts[j],
                forall|j: int| i <= j < NCELLS ==> #[trigger] self@.texts[j] == old(self)@.texts[j],
            decreases NCELLS - i,
        {
            let col: usize = i % COLS;
            let row: usize = i / COLS;
            let ghost before = self@;
            if c0 <= col && col <= c1 && r0 <= row && row <= r1 {
                let dcol: i32 = (col as i128 - src_col as i128) as i32;
                let drow: i32 = (row as i128 - src_row as i128) as i32;
                self.set_shifted(col, row, raw, dcol, drow);
                assert(index_of(col as int, row as int) == i);
                let ghost t = carried(raw@, dcol as int, drow as int);
                assert(truncated(t, INPUT_CAP as int) =~= t);
                assert(self@.texts == before.texts.update(i as int, t));
            }
            assert(forall|j: int| 0 <= j < NCELLS && j != i ==> #[trigger] self@.texts[j] == before.texts[j]);
            i += 1;
        }
        assert(self@ =~= g);
        self.recalc();
    }

    /// Empty every cell in a rectangle, then recalculate once.
    pub fn clear_rect(&mut self, c0: usize, r0: usize, c1: usize, r1: usize)
        requires
            old(self).wf(),
        ensures
            final(self).wf(),
            final(self)@ == old(self)@.cleared(
                c0 as int,
                r0 as int,
                c1 as int,
                r1 as int,
            ).recalculated(),
    {
        let ghost g = old(self)@.cleared(c0 as int, r0 as int, c1 as int, r1 as int);
        let mut i: usize = 0;
        while i < NCELLS
            invariant
                i <= NCELLS,
                old(self).wf(),
                g == old(self)@.cleared(c0 as int, r0 as int, c1 as int, r1 as int),
                forall|j: int|
                    0 <= j < i ==> (#[trigger] self.cells@[j]).wf() && self.cells@[j].text()
                        == g.texts[j] && self.cells@[j].result() == g.results[j],
                forall|j: int| i <= j < NCELLS ==> #[trigger] self.cells@[j] == old(self).cells@[j],
            decreases NCELLS - i,
        {
            let col: usize = i % COLS;
            let row: usize = i / COLS;
            if c0 <= col && col <= c1 && r0 <= row && row <= r1 {
                self.cells[i] = Cell::empty();
            }
            i += 1;
        }
        assert(self@ =~= g);
        self.recalc();
    }

    /// Sum and count of the numbers in a rectangle, for the selection readout.
    /// Other cells contribute nothing, so that a selection of texts counts
    /// zero.
    pub fn stats(&self, c0: usize, r0: usize, c1: usize, r1: usize) -> (r: (i64, u32))
        requires
            self.wf(),
        ensures
            (r.0, r.1 as nat) == self@.stats(c0 as int, r0 as int, c1 as int, r1 as int),
    {
        let cb: usize = min_of(c1, COLS - 1);
        let rb: usize = min_of(r1, ROWS - 1);
        let mut sum: i64 = 0;
        let mut count: u32 = 0;
        let ghost mut seen: Seq<int> = seq![];
        let mut row: usize = r0;
        while row <= rb
            invariant
                self.wf(),
                rb < ROWS,
                cb < COLS,
                r0 <= row,
                row <= rb + 1 || row == r0,
                seen == rect_cells(c0 as int, r0 as int, cb as int, row - 1),
                (sum, count as nat) == sum_and_count(seen, self@.results),
                count <= 26 * (row - r0),
            decreases rb + 1 - row,
        {
            let ghost above = seen;
            let mut col: usize = c0;
            while col <= cb
                invariant
                    self.wf(),
                    r0 <= row <= rb < ROWS,
                    cb < COLS,
                    c0 <= col,
                    col <= cb + 1 || col == c0,
                    above == rect_cells(c0 as int, r0 as int, cb as int, row - 1),
                    seen == above + row_cells(c0 as int, col - 1, row as int),
                    (sum, count as nat) == sum_and_count(seen, self@.results),
                    count <= 26 * (row - r0) + (col - c0),
                    count <= 26 * (row - r0) + 26,
                decreases cb + 1 - col,
            {
                let i: usize = idx(col, row);
                proof {
                    lemma_row_cells_push(c0 as int, col as int, row as int);
                    let next = seen.push(i as int);
                    assert(next =~= above + row_cells(c0 as int, col as int, row as int));
                    assert(next.drop_last() =~= seen);
                    seen = next;
                }
                if self.cells[i].kind == Kind::Num {
                    sum = saturating_sum(sum, self.cells[i].value);
                    count += 1;
                }
                col += 1;
            }
            assert(seen =~= above + row_cells(c0 as int, cb as int, row as int));
            row += 1;
        }
        assert(seen == rect_cells(c0 as int, r0 as int, cb as int, rb as int));
        (sum, count)
    }

    /// Every cell's value, and which cells hold a number.
    fn snapshot(&self) -> (r: (Vec<i64>, Vec<bool>))
        requires
            self.wf(),
        ensures
            r.0@ == vals(self@.results),
            r.1@ == nums(self@.results),
    {
        let mut v: Vec<i64> = Vec::new();
        let mut n: Vec<bool> = Vec::new();
        let mut i: usize = 0;
        while i < NCELLS
            invariant
                i <= NCELLS,
                v@.len() == i,
                n@.len() == i,
                forall|j: int| 0 <= j < i ==> #[trigger] v@[j] == self@.results[j].0,
                forall|j: int| 0 <= j < i ==> #[trigger] n@[j] == (self@.results[j].1 == Kind::Num),
            decreases NCELLS - i,
        {
            v.push(self.cells[i].value);
            n.push(self.cells[i].kind == Kind::Num);
            i += 1;
        }
        assert(v@ =~= vals(self@.results));
        assert(n@ =~= nums(self@.results));
        (v, n)
    }

    /// Evaluate `raw` against the sheet's stored values without storing it,
    /// for the live result readout while a formula is being typed.
    pub fn preview(&self, raw: &[u8]) -> (r: (i64, Kind))
        requires
            self.wf(),
        ensures
            r == classified(raw@, vals(self@.results), nums(self@.results)),
    {
        let (v, n) = self.snapshot();
        classify(raw, v.as_slice(), n.as_slice())
    }

    /// Insert a blank row above `at`, pushing everything below it down one and
    /// dropping whatever fell off the bottom.
    pub fn insert_row(&mut self, at: usize)
        requires
            old(self).wf(),
        ensures
            final(self).wf(),
            final(self)@ == if at < ROWS {
                old(self)@.row_inserted(at)
            } else {
                old(self)@
            },
    {
        if at >= ROWS {
            return;
        }
        let ghost g = old(self)@.with_row(at as int);
        let mut i: usize = NCELLS;
        while i > 0
            invariant
                at < ROWS,
                i <= NCELLS,
                old(self).wf(),
                g == old(self)@.with_row(at as int),
                forall|j: int|
                    i <= j < NCELLS ==> (#[trigger] self.cells@[j]).wf() && self.cells@[j].text()
                        == g.texts[j] && self.cells@[j].result() == g.results[j],
                forall|j: int| 0 <= j < i ==> #[trigger] self.cells@[j] == old(self).cells@[j],
            decreases i,
        {
            i -= 1;
            if i / COLS == at {
                self.cells[i] = Cell::empty();
            } else if i / COLS > at {
                self.cells[i] = self.cells[i - COLS];
            }
        }
        assert(self@ =~= g);
        self.rewrite_all(Shift::Rows { at, delta: 1 });
        self.recalc();
    }

    /// Delete row `at`, pulling everything below it up one.
    pub fn delete_row(&mut self, at: usize)
        requires
            old(self).wf(),
        ensures
            final(self).wf(),
            final(self)@ == if at < ROWS {
                old(self)@.row_deleted(at)
            } else {
                old(self)@
            },
    {
        if at >= ROWS {
            return;
        }
        let ghost g = old(self)@.without_row(at as int);
        let mut i: usize = 0;
        while i < NCELLS
            invariant
                at < ROWS,
                i <= NCELLS,
                old(self).wf(),
                g == old(self)@.without_row(at as int),
                forall|j: int|
                    0 <= j < i ==> (#[trigger] self.cells@[j]).wf() && self.cells@[j].text()
                        == g.texts[j] && self.cells@[j].result() == g.results[j],
                forall|j: int| i <= j < NCELLS ==> #[trigger] self.cells@[j] == old(self).cells@[j],
            decreases NCELLS - i,
        {
            if i / COLS == ROWS - 1 {
                self.cells[i] = Cell::empty();
            } else if i / COLS >= at {
                self.cells[i] = self.cells[i + COLS];
            }
            i += 1;
        }
        assert(self@ =~= g);
        self.rewrite_all(Shift::Rows { at, delta: -1 });
        self.recalc();
    }

    /// Insert a blank column left of `at`, pushing the rest right one.
    pub fn insert_col(&mut self, at: usize)
        requires
            old(self).wf(),
        ensures
            final(self).wf(),
            final(self)@ == if at < COLS {
                old(self)@.col_inserted(at)
            } else {
                old(self)@
            },
    {
        if at >= COLS {
            return;
        }
        let ghost g = old(self)@.with_col(at as int);
        let mut i: usize = NCELLS;
        while i > 0
            invariant
                at < COLS,
                i <= NCELLS,
                old(self).wf(),
                g == old(self)@.with_col(at as int),
                forall|j: int|
                    i <= j < NCELLS ==> (#[trigger] self.cells@[j]).wf() && self.cells@[j].text()
                        == g.texts[j] && self.cells@[j].result() == g.results[j],
                forall|j: int| 0 <= j < i ==> #[trigger] self.cells@[j] == old(self).cells@[j],
            decreases i,
        {
            i -= 1;
            if i % COLS == at {
                self.cells[i] = Cell::empty();
            } else if i % COLS > at {
                self.cells[i] = self.cells[i - 1];
            }
        }
        assert(self@ =~= g);
        self.rewrite_all(Shift::Cols { at, delta: 1 });
        self.recalc();
    }

    /// Delete column `at`, pulling the rest left one.
    pub fn delete_col(&mut self, at: usize)
        requires
            old(self).wf(),
        ensures
            final(self).wf(),
            final(self)@ == if at < COLS {
                old(self)@.col_deleted(at)
            } else {
                old(self)@
            },
    {
        if at >= COLS {
            return;
        }
        let ghost g = old(self)@.without_col(at as int);
        let mut i: usize = 0;
        while i < NCELLS
            invariant
                at < COLS,
                i <= NCELLS,
                old(self).wf(),
                g == old(self)@.without_col(at as int),
                forall|j: int|
                    0 <= j < i ==> (#[trigger] self.cells@[j]).wf() && self.cells@[j].text()
                        == g.texts[j] && self.cells@[j].result() == g.results[j],
                forall|j: int| i <= j < NCELLS ==> #[trigger] self.cells@[j] == old(self).cells@[j],
            decreases NCELLS - i,
        {
            if i % COLS == COLS - 1 {
                self.cells[i] = Cell::empty();
            } else if i % COLS >= at {
                self.cells[i] = self.cells[i + 1];
            }
            i += 1;
        }
        assert(self@ =~= g);
        self.rewrite_all(Shift::Cols { at, delta: -1 });
        self.recalc();
    }

    /// Re-point every formula in the sheet under `shift`. Other cells are left
    /// alone.
    pub fn rewrite_all(&mut self, shift: Shift)
        requires
            old(self).wf(),
        ensures
            final(self).wf(),
            final(self)@ == old(self)@.repointed(shift),
    {
        let ghost g = old(self)@.repointed(shift);
        let mut i: usize = 0;
        while i < NCELLS
            invariant
                i <= NCELLS,
                self.wf(),
                g == old(self)@.repointed(shift),
                self@.results == old(self)@.results,
                forall|j: int| 0 <= j < i ==> #[trigger] self@.texts[j] == g.texts[j],
                forall|j: int| i <= j < NCELLS ==> #[trigger] self@.texts[j] == old(self)@.texts[j],
            decreases NCELLS - i,
        {
            let c: Cell = self.cells[i];
            let ghost before = self@;
            assert(before.texts[i as int] == c.text());
            let raw: &[u8] = c.raw();
            if raw.len() > 0 && raw[0] == EQUALS {
                let text: Vec<u8> = rewrite(raw, shift);
                self.put(i, text.as_slice());
            }
            assert(forall|j: int| 0 <= j < NCELLS && j != i ==> #[trigger] self@.texts[j] == before.texts[j]);
            i += 1;
        }
        assert(self@ =~= g);
    }

    /// Evaluate every cell once against the values as they stand. Says whether
    /// anything changed.
    fn sweep_once(&mut self) -> (changed: bool)
        requires
            old(self).wf(),
        ensures
            final(self).wf(),
            final(self)@.texts == old(self)@.texts,
            final(self)@.results == sweep(old(self)@.texts, old(self)@.results),
            changed == !is_settled(old(self)@.texts, old(self)@.results),
    {
        let (v, n) = self.snapshot();
        let ghost texts = old(self)@.texts;
        let ghost next = sweep(texts, old(self)@.results);
        let mut changed = false;
        let mut i: usize = 0;
        while i < NCELLS
            invariant
                i <= NCELLS,
                self.wf(),
                v@ == vals(old(self)@.results),
                n@ == nums(old(self)@.results),
                texts == old(self)@.texts,
                next == sweep(texts, old(self)@.results),
                forall|j: int|
                    0 <= j < NCELLS ==> (#[trigger] self.cells@[j]).text() == texts[j],
                forall|j: int| 0 <= j < i ==> (#[trigger] self.cells@[j]).result() == next[j],
                forall|j: int|
                    i <= j < NCELLS ==> (#[trigger] self.cells@[j]).result() == old(
                        self,
                    )@.results[j],
                !changed ==> forall|j: int| 0 <= j < i ==> #[trigger] next[j] == old(self)@.results[j],
                changed ==> exists|j: int|
                    0 <= j < i && #[trigger] next[j] != old(self)@.results[j],
            decreases NCELLS - i,
        {
            let c: Cell = self.cells[i];
            let (val, kind) = classify(c.raw(), v.as_slice(), n.as_slice());
            assert(next[i as int] == (val, kind));
            assert(c.result() == old(self)@.results[i as int]);
            if val != c.value || kind != c.kind {
                changed = true;
                assert(next[i as int] != old(self)@.results[i as int]);
            }
            self.cells[i] = Cell { buf: c.buf, len: c.len, value: val, kind };
            i += 1;
        }
        assert(self@.texts =~= texts);
        assert(self@.results =~= next);
        proof {
            if !changed {
                assert(next =~= old(self)@.results);
            }
        }
        changed
    }

    /// Give every cell that is not `free` the result that `held` has for it.
    fn restore(&mut self, free: &Vec<bool>, held: &Vec<(i64, Kind)>)
        requires
            old(self).wf(),
            free@.len() == NCELLS,
            held@.len() == NCELLS,
        ensures
            final(self).wf(),
            final(self)@.texts == old(self)@.texts,
            forall|i: int|
                0 <= i < NCELLS ==> #[trigger] final(self)@.results[i] == if free@[i] {
                    old(self)@.results[i]
                } else {
                    held@[i]
                },
    {
        let mut i: usize = 0;
        while i < NCELLS
            invariant
                i <= NCELLS,
                self.wf(),
                free@.len() == NCELLS,
                held@.len() == NCELLS,
                forall|j: int|
                    0 <= j < NCELLS ==> (#[trigger] self.cells@[j]).text() == old(self)@.texts[j],
                forall|j: int|
                    0 <= j < i ==> (#[trigger] self.cells@[j]).result() == if free@[j] {
                        old(self)@.results[j]
                    } else {
                        held@[j]
                    },
                forall|j: int|
                    i <= j < NCELLS ==> (#[trigger] self.cells@[j]).result() == old(
                        self,
                    )@.results[j],
            decreases NCELLS - i,
        {
            if !free[i] {
                let c: Cell = self.cells[i];
                assert(c.text() == old(self)@.texts[i as int]);
                self.cells[i] = Cell { buf: c.buf, len: c.len, value: held[i].0, kind: held[i].1 };
            }
            i += 1;
        }
        assert(self@.texts =~= old(self)@.texts);
    }

    /// For every cell the cells that it reads.
    fn all_reads(&self) -> (deps: Vec<Vec<usize>>)
        requires
            self.wf(),
        ensures
            deps@.len() == NCELLS,
            forall|i: int, c: int|
                0 <= i < NCELLS ==> (#[trigger] names(deps@[i]@, c) <==> text_reads(
                    self@.texts[i],
                    c,
                )),
    {
        let (v, n) = self.snapshot();
        let mut deps: Vec<Vec<usize>> = Vec::new();
        let mut i: usize = 0;
        while i < NCELLS
            invariant
                i <= NCELLS,
                self.wf(),
                v@.len() == NCELLS,
                n@.len() == NCELLS,
                deps@.len() == i,
                forall|j: int, c: int|
                    0 <= j < i ==> (#[trigger] names(deps@[j]@, c) <==> text_reads(
                        self@.texts[j],
                        c,
                    )),
            decreases NCELLS - i,
        {
            let c: Cell = self.cells[i];
            assert(c.text() == self@.texts[i as int]);
            deps.push(cells_read(c.raw(), v.as_slice(), n.as_slice()));
            i += 1;
        }
        deps
    }

    /// Which cells read no circle, and how many sweeps settle them all.
    fn free_cells(&self) -> (r: (Vec<bool>, usize))
        requires
            self.wf(),
        ensures
            r.0@.len() == NCELLS,
            r.1 <= NCELLS,
            forall|i: int|
                0 <= i < NCELLS ==> #[trigger] r.0@[i] == !reads_circle(self@.texts, i),
            forall|i: int|
                0 <= i < NCELLS && #[trigger] r.0@[i] ==> bounded(self@.texts, i, r.1 as nat),
    {
        let ghost texts = self@.texts;
        let deps: Vec<Vec<usize>> = self.all_reads();
        let mut free: Vec<bool> = Vec::new();
        while free.len() < NCELLS
            invariant
                free@.len() <= NCELLS,
                forall|i: int| 0 <= i < free@.len() ==> #[trigger] free@[i] == bounded(texts, i, 0),
            decreases NCELLS - free@.len(),
        {
            free.push(false);
        }
        let mut k: usize = 0;
        let mut changed = true;
        while k < NCELLS && changed
            invariant
                k <= NCELLS,
                texts.len() == NCELLS,
                deps@.len() == NCELLS,
                forall|i: int, c: int|
                    0 <= i < NCELLS ==> (#[trigger] names(deps@[i]@, c) <==> text_reads(
                        texts[i],
                        c,
                    )),
                free@.len() == NCELLS,
                forall|i: int|
                    0 <= i < NCELLS ==> #[trigger] free@[i] == bounded(texts, i, k as nat),
                !changed ==> forall|i: int|
                    0 <= i < NCELLS ==> (#[trigger] bounded(texts, i, k as nat + 1) ==> bounded(
                        texts,
                        i,
                        k as nat,
                    )),
            decreases
                NCELLS - k + if changed {
                    1int
                } else {
                    0
                },
        {
            let (next, more) = one_further(Ghost(texts), &deps, &free, Ghost(k as nat));
            if !more {
                proof {
                    assert forall|i: int|
                        0 <= i < NCELLS && #[trigger] bounded(
                            texts,
                            i,
                            k as nat + 1,
                        ) implies bounded(texts, i, k as nat) by {
                        assert(next@[i] == free@[i]);
                    }
                }
                changed = false;
            } else {
                free = next;
                k += 1;
            }
        }
        proof {
            assert forall|i: int| 0 <= i < NCELLS implies #[trigger] free@[i] == !reads_circle(
                texts,
                i,
            ) by {
                lemma_free_is_bounded(texts, i);
                if k < NCELLS {
                    lemma_bounds_rest(texts, i, k as nat, NCELLS as nat);
                }
                if free@[i] {
                    lemma_bounded_more(texts, i, k as nat, NCELLS as nat);
                }
            }
        }
        (free, k)
    }

    /// Every cell's result.
    fn results(&self) -> (r: Vec<(i64, Kind)>)
        requires
            self.wf(),
        ensures
            r@ == self@.results,
    {
        let mut r: Vec<(i64, Kind)> = Vec::new();
        let mut i: usize = 0;
        while i < NCELLS
            invariant
                i <= NCELLS,
                r@.len() == i,
                forall|j: int| 0 <= j < i ==> #[trigger] r@[j] == self@.results[j],
            decreases NCELLS - i,
        {
            r.push((self.cells[i].value, self.cells[i].kind));
            i += 1;
        }
        assert(r@ =~= self@.results);
        r
    }

    /// Sweep until nothing changes, at most up to `limit` sweeps in all, of
    /// which `done` have been made. Says whether the sheet settled.
    fn sweep_until(&mut self, first: Ghost<Seq<(i64, Kind)>>, done: usize, limit: usize) -> (r: bool)
        requires
            old(self).wf(),
            done <= limit <= NCELLS,
            old(self)@.results == sweeps(old(self)@.texts, first@, done as nat),
        ensures
            final(self).wf(),
            final(self)@.texts == old(self)@.texts,
            final(self)@.results == sweeps(old(self)@.texts, first@, limit as nat),
            r ==> is_settled(final(self)@.texts, final(self)@.results),
    {
        let mut k: usize = done;
        while k < limit
            invariant
                self.wf(),
                done <= k <= limit <= NCELLS,
                self@.texts == old(self)@.texts,
                self@.results == sweeps(self@.texts, first@, k as nat),
            decreases limit - k,
        {
            if !self.sweep_once() {
                proof {
                    lemma_sweeps_stay(self@.texts, first@, k as nat, limit as nat);
                }
                return true;
            }
            k += 1;
        }
        false
    }

    /// Recalculation. Snapshot every value, evaluate every cell against the
    /// snapshot, repeat until nothing changes. A dependency chain of any depth
    /// resolves at once; a cell that reads a circle stops at the cap and keeps
    /// its last value.
    pub fn recalc(&mut self)
        requires
            old(self).wf(),
        ensures
            final(self).wf(),
            final(self)@ == old(self)@.recalculated(),
    {
        let ghost first = self@.results;
        let ghost texts = self@.texts;
        if self.sweep_until(Ghost(first), 0, SWEEP_CAP) {
            proof {
                lemma_sweeps_stay(texts, first, SWEEP_CAP as nat, NCELLS as nat);
            }
            assert(self@ =~= old(self)@.recalculated());
            return;
        }
        // A circle, or a chain deeper than the cap.
        let held: Vec<(i64, Kind)> = self.results();
        let (free, rounds) = self.free_cells();
        if rounds > SWEEP_CAP {
            let _ = self.sweep_until(Ghost(first), SWEEP_CAP, rounds);
            self.restore(&free, &held);
        }
        proof {
            let most = if rounds > SWEEP_CAP {
                rounds as nat
            } else {
                SWEEP_CAP as nat
            };
            assert forall|i: int| 0 <= i < NCELLS implies #[trigger] self@.results[i] == settled(
                texts,
                first,
            )[i] by {
                if free@[i] {
                    lemma_bounded_agree(
                        texts,
                        first,
                        first,
                        i,
                        rounds as nat,
                        most,
                        NCELLS as nat,
                    );
                }
            }
        }
        assert(self@ =~= old(self)@.recalculated());
    }
}

/// One step further: which cells read only cells that are `free` already, and
/// whether there are more of them.
fn one_further(
    texts: Ghost<Seq<Seq<u8>>>,
    deps: &Vec<Vec<usize>>,
    free: &Vec<bool>,
    k: Ghost<nat>,
) -> (r: (Vec<bool>, bool))
    requires
        texts@.len() == NCELLS,
        deps@.len() == NCELLS,
        forall|i: int, c: int|
            0 <= i < NCELLS ==> (#[trigger] names(deps@[i]@, c) <==> text_reads(texts@[i], c)),
        free@.len() == NCELLS,
        forall|i: int| 0 <= i < NCELLS ==> #[trigger] free@[i] == bounded(texts@, i, k@),
    ensures
        r.0@.len() == NCELLS,
        forall|i: int| 0 <= i < NCELLS ==> #[trigger] r.0@[i] == bounded(texts@, i, k@ + 1),
        !r.1 ==> forall|i: int| 0 <= i < NCELLS ==> #[trigger] r.0@[i] == free@[i],
{
    let mut next: Vec<bool> = Vec::new();
    let mut more = false;
    let mut i: usize = 0;
    while i < NCELLS
        invariant
            i <= NCELLS,
            texts@.len() == NCELLS,
            deps@.len() == NCELLS,
            forall|j: int, c: int|
                0 <= j < NCELLS ==> (#[trigger] names(deps@[j]@, c) <==> text_reads(texts@[j], c)),
            free@.len() == NCELLS,
            forall|j: int| 0 <= j < NCELLS ==> #[trigger] free@[j] == bounded(texts@, j, k@),
            next@.len() == i,
            forall|j: int| 0 <= j < i ==> #[trigger] next@[j] == bounded(texts@, j, k@ + 1),
            !more ==> forall|j: int| 0 <= j < i ==> #[trigger] next@[j] == free@[j],
        decreases NCELLS - i,
    {
        let ok: bool = all_free(texts, &deps[i], i, free, k);
        if ok != free[i] {
            more = true;
        }
        next.push(ok);
        i += 1;
    }
    (next, more)
}

/// Whether all the cells that cell `i` reads are `free`.
fn all_free(
    texts: Ghost<Seq<Seq<u8>>>,
    cells: &Vec<usize>,
    i: usize,
    free: &Vec<bool>,
    k: Ghost<nat>,
) -> (ok: bool)
    requires
        texts@.len() == NCELLS,
        i < NCELLS,
        forall|c: int| #[trigger] names(cells@, c) <==> text_reads(texts@[i as int], c),
        free@.len() == NCELLS,
        forall|j: int| 0 <= j < NCELLS ==> #[trigger] free@[j] == bounded(texts@, j, k@),
    ensures
        ok == bounded(texts@, i as int, k@ + 1),
{
    let mut n: usize = 0;
    while n < cells.len()
        invariant
            n <= cells@.len(),
            texts@.len() == NCELLS,
            i < NCELLS,
            forall|c: int| #[trigger] names(cells@, c) <==> text_reads(texts@[i as int], c),
            free@.len() == NCELLS,
            forall|j: int| 0 <= j < NCELLS ==> #[trigger] free@[j] == bounded(texts@, j, k@),
            forall|m: int| 0 <= m < n ==> bounded(texts@, #[trigger] cells@[m] as int, k@),
        decreases cells@.len() - n,
    {
        let c: usize = cells[n];
        proof {
            assert(names(cells@, c as int));
            law_text_reads_grid(texts@[i as int], c as int);
        }
        if !free[c] {
            assert(text_reads(texts@[i as int], c as int));
            assert(!bounded(texts@, c as int, k@));
            assert((k@ + 1 - 1) as nat == k@);
            return false;
        }
        n += 1;
    }
    proof {
        assert forall|c: int| #[trigger] text_reads(texts@[i as int], c) implies bounded(
            texts@,
            c,
            (k@ + 1 - 1) as nat,
        ) by {
            assert(names(cells@, c));
            let m = choose|m: int| 0 <= m < cells@.len() && #[trigger] cells@[m] == c;
            assert(bounded(texts@, cells@[m] as int, k@));
        }
    }
    true
}

} // verus!
