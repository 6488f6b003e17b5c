//! The cells that the formula being typed names, so that they can light up.

use vstd::prelude::*;

use crate::ascii::{
    alphas_end, digits_end, is_alpha, is_ascii_alphabetic, lemma_alphas_end, lemma_digits_end,
    lemma_digits_value_nonneg, read_row_number, row_number, skip_alphas, to_ascii_uppercase, upper,
    COLON, UPPER_A,
};
use crate::grid::{COLS, ROWS};
use crate::theme::{slice_color, slice_color_of, Rgb};

verus! {

/// A rectangle of cells: left, top, right, bottom.
pub type Rect = (u8, u8, u8, u8);

/// The most rectangles that light up: enough for any formula that fits a cell.
pub const HIGHLIGHTS: usize = 4;

/// The cell that the letter at `letter` and the digits from `p` on name.
pub open spec fn named_cell(src: Seq<u8>, letter: int, p: int) -> Option<(u8, u8)> {
    let col = upper(src[letter]) - UPPER_A;
    let end = digits_end(src, p);
    let row1 = row_number(src, p, end);
    if 0 <= col < COLS && end > p && 1 <= row1 <= ROWS {
        Some((col as u8, (row1 - 1) as u8))
    } else {
        None
    }
}

/// The rectangle with two cells in opposite corners.
pub open spec fn spanned(a: (u8, u8), b: (u8, u8)) -> Rect {
    (
        if a.0 <= b.0 {
            a.0
        } else {
            b.0
        },
        if a.1 <= b.1 {
            a.1
        } else {
            b.1
        },
        if a.0 >= b.0 {
            a.0
        } else {
            b.0
        },
        if a.1 >= b.1 {
            a.1
        } else {
            b.1
        },
    )
}

/// The far corner of a range whose near corner's name ends at `i`: the cell
/// named right behind a colon there, and where that name ends.
pub open spec fn far_corner(src: Seq<u8>, i: int) -> Option<((u8, u8), int)> {
    if i + 1 < src.len() && src[i] == COLON && is_alpha(src[i + 1]) {
        match named_cell(src, i + 1, i + 2) {
            Some(cell) => Some((cell, digits_end(src, i + 2))),
            None => None,
        }
    } else {
        None
    }
}

/// The rectangles that the text from `i` on names, behind those found before,
/// as long as there is room. A reference is a single letter with digits behind
/// it, so a function's name is none.
pub open spec fn scanned(src: Seq<u8>, i: int, found: Seq<Rect>) -> Seq<Rect>
    decreases src.len() - i,
    when 0 <= i <= src.len()
{
    if i >= src.len() || found.len() >= HIGHLIGHTS {
        found
    } else if !is_alpha(src[i]) {
        scanned(src, i + 1, found)
    } else {
        let j = alphas_end(src, i);
        proof {
            lemma_alphas_end(src, i);
            lemma_alphas_end(src, i + 1);
            assert(j > i);
        }
        if j != i + 1 {
            scanned(src, j, found)
        } else {
            let k = digits_end(src, j);
            proof {
                lemma_digits_end(src, j);
            }
            match named_cell(src, i, j) {
                None => scanned(src, k, found),
                Some(near) => match far_corner(src, k) {
                    None => scanned(src, k, found.push(spanned(near, near))),
                    Some((far, end)) => {
                        proof {
                            lemma_digits_end(src, k + 2);
                        }
                        scanned(src, end, found.push(spanned(near, far)))
                    },
                },
            }
        }
    }
}

pub open spec fn covers(r: Rect, col: int, row: int) -> bool {
    r.0 <= col <= r.2 && r.1 <= row <= r.3
}

/// The colour of the first of the rectangles from `i` on that covers a cell.
pub open spec fn tint_from(rects: Seq<Rect>, i: int, col: int, row: int) -> Option<Rgb>
    decreases rects.len() - i,
{
    if i >= rects.len() {
        None
    } else if covers(rects[i], col, row) {
        Some(slice_color_of(i))
    } else {
        tint_from(rects, i + 1, col, row)
    }
}

/// Cell rectangles named by the formula being typed, each with its own colour.
pub struct RefHighlights {
    pub rects: [Rect; HIGHLIGHTS],
    pub n: usize,
}

impl View for RefHighlights {
    type V = Seq<Rect>;

    open spec fn view(&self) -> Seq<Rect> {
        self.rects@.take(self.n as int)
    }
}

/// Read the reference whose column letter is at `letter`, leaving `*end` past
/// the row digits. `None` if the digits are missing or out of the grid.
pub fn read_ref(src: &[u8], letter: usize, end: &mut usize) -> (r: Option<(u8, u8)>)
    requires
        letter < src@.len(),
        *old(end) <= src@.len(),
    ensures
        r == named_cell(src@, letter as int, *old(end) as int),
        *final(end) <= src@.len(),
        *final(end) == if upper(src@[letter as int]) >= UPPER_A {
            digits_end(src@, *old(end) as int)
        } else {
            *old(end) as int
        },
{
    let up: u8 = to_ascii_uppercase(src[letter]);
    if up < UPPER_A {
        return None;
    }
    let col: u8 = up - UPPER_A;
    let start: usize = *end;
    let row1: u64 = read_row_number(src, end);
    proof {
        lemma_digits_end(src@, start as int);
        lemma_digits_value_nonneg(src@, start as int, *end as int);
    }
    if *end == start || row1 == 0 || row1 > ROWS as u64 || col as usize >= COLS {
        return None;
    }
    Some((col, (row1 - 1) as u8))
}

impl RefHighlights {
    pub open spec fn wf(&self) -> bool {
        self.n <= HIGHLIGHTS
    }

    /// No rectangle.
    pub fn none() -> (h: RefHighlights)
        ensures
            h.wf(),
            h@ == Seq::<Rect>::empty(),
            h.n == 0,
            forall|k: int| 0 <= k < HIGHLIGHTS ==> #[trigger] h.rects@[k] == (0u8, 0u8, 0u8, 0u8),
    {
        let h = RefHighlights { rects: [(0, 0, 0, 0);HIGHLIGHTS], n: 0 };
        assert(h@ =~= Seq::<Rect>::empty());
        h
    }

    /// Scan `src` for references like `A1` and ranges like `A1:B5`, recording
    /// each as a rectangle.
    pub fn scan(&mut self, src: &[u8])
        requires
            old(self).wf(),
        ensures
            final(self).wf(),
            final(self)@ == scanned(src@, 0, old(self)@),
    {
        let mut i: usize = 0;
        while i < src.len() && self.n < HIGHLIGHTS
            invariant
                self.wf(),
                i <= src@.len(),
                scanned(src@, i as int, self@) == scanned(src@, 0, old(self)@),
            decreases src@.len() - i,
        {
            if !is_ascii_alphabetic(src[i]) {
                i += 1;
                continue;
            }
            let a0: usize = i;
            i = skip_alphas(src, i);
            proof {
                lemma_alphas_end(src@, a0 as int);
                lemma_alphas_end(src@, a0 + 1);
            }
            if i - a0 != 1 {
                // A function's name.
                continue;
            }
            let ghost j = i as int;
            proof {
                lemma_digits_end(src@, j);
            }
            let near: Option<(u8, u8)> = read_ref(src, a0, &mut i);
            let (c0, r0): (u8, u8) = match near {
                Some(cell) => cell,
                None => {
                    continue;
                },
            };
            // A colon right behind it makes it a range.
            let mut rect: Rect = (c0, r0, c0, r0);
            if i < src.len() && src[i] == COLON {
                let f: usize = i + 1;
                if f < src.len() && is_ascii_alphabetic(src[f]) {
                    let mut k: usize = f + 1;
                    let far: Option<(u8, u8)> = read_ref(src, f, &mut k);
                    if let Some((c1, r1)) = far {
                        rect = (
                            if c0 <= c1 { c0 } else { c1 },
                            if r0 <= r1 { r0 } else { r1 },
                            if c0 >= c1 { c0 } else { c1 },
                            if r0 >= r1 { r0 } else { r1 },
                        );
                        i = k;
                        proof {
                            lemma_digits_end(src@, f + 1);
                        }
                    }
                }
            }
            let ghost before = self@;
            self.rects[self.n] = rect;
            self.n += 1;
            assert(self@ =~= before.push(rect));
        }
    }

    /// The highlight colour for a cell, if any reference covers it. Columns
    /// and rows count modulo 256.
    pub fn tint_at(&self, col: usize, row: usize) -> (r: Option<Rgb>)
        requires
            self.wf(),
        ensures
            r == tint_from(self@, 0, col as int % 256, row as int % 256),
    {
        let c: u8 = (col % 256) as u8;
        let w: u8 = (row % 256) as u8;
        let mut i: usize = 0;
        while i < self.n
            invariant
                self.wf(),
                i <= self.n,
                c == col as int % 256,
                w == row as int % 256,
                tint_from(self@, i as int, c as int, w as int) == tint_from(
                    self@,
                    0,
                    c as int,
                    w as int,
                ),
            decreases self.n - i,
        {
            let (c0, r0, c1, r1) = self.rects[i];
            assert(self@[i as int] == (c0, r0, c1, r1));
            if c >= c0 && c <= c1 && w >= r0 && w <= r1 {
                return Some(slice_color(i));
            }
            i += 1;
        }
        None
    }
}

} // verus!
