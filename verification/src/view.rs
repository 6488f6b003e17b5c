//! Drawing the formula bar, the headers and the grid.

use vstd::prelude::*;

use crate::ascii::{COLON, EQUALS, UPPER_A};
use crate::calc::{nums, vals};
use crate::canvas::{fill_mark, text_mark, Canvas, Mark};
use crate::decimal::{dec, push_dec};
use crate::editor::{span_of, Desk, Editor, ROW_H};
use crate::formula::{classified, is_formula};
use crate::grid::{idx, index_of, least_of, max_of, min_of, Kind, COLS, INPUT_CAP, ROWS};
use crate::highlights::{scanned, tint_from, Rect, RefHighlights};
use crate::labels::{cell_name, cell_ref, clip, utf8};
use crate::modes::Mode;
use crate::number::{fitted_text, value_text, write_value, write_value_fit};
use crate::panels::GW;
use crate::refs::truncated;
use crate::samples::Span;
use crate::sheet::Cell;
use crate::theme::{blend, lerp, mix, toward_zero, Rgb, Theme};
use crate::update::{VIS_COLS, VIS_ROWS};

verus! {

/// Characters shown of a cell.
pub const DISP: usize = 7;

/// Pixels of a column.
pub const COL_W: i16 = 35;

/// Pixels of the row numbers.
pub const ROWHDR_W: i16 = 16;

/// The formula bar's text.
pub const FBAR_Y: i16 = 2;

/// The column letters.
pub const COLHDR_Y: i16 = 12;

/// The first data row.
pub const GRID_Y0: i16 = 22;

/// The top of the grid's band: a cell's pixels start one above its text.
pub const GRID_TOP: i16 = 21;

/// The bottom of the grid's band, a whole row's end.
pub const GRID_Y1: i16 = 212;

/// The frame counter as the signed number that 16 bits of it are.
pub open spec fn low_half(n: int) -> int {
    let m = n % 65536;
    if m >= 32768 {
        m - 65536
    } else {
        m
    }
}

/// The pixel of a rectangle's border at step `i` of the way around it.
pub open spec fn border_pixel(x: int, y: int, w: int, h: int, i: int) -> (int, int) {
    if i < w {
        (x + i, y)
    } else if i < w + h {
        (x + w - 1, y + (i - w))
    } else if i < 2 * w + h {
        (x + (2 * w + h - 1 - i), y + h - 1)
    } else {
        (x, y + (2 * (w + h) - 1 - i))
    }
}

/// The dashes of a border from step `i` on: two pixels on, two off, moving on
/// with `march`.
pub open spec fn dashes(
    x: int,
    y: int,
    w: int,
    h: int,
    march: int,
    c: Rgb,
    i: int,
) -> Seq<Mark>
    decreases 2 * (w + h) - i + 1,
{
    if i >= 2 * (w + h) {
        seq![]
    } else {
        let rest = dashes(x, y, w, h, march, c, i + 2);
        if toward_zero(i + march, 2) % 2 == 0 {
            rest
        } else {
            let p = border_pixel(x, y, w, h, i);
            seq![fill_mark(p.0, p.1, 2, 1, c)] + rest
        }
    }
}

/// The bottom of the grid's band above a keyboard that starts at `kbd_y0`: the
/// last whole row's end.
pub open spec fn band_above(kbd_y0: int) -> int {
    GRID_TOP + toward_zero(kbd_y0 - 14 - GRID_TOP, ROW_H as int) * ROW_H - 1
}

pub open spec fn in_span(s: Span, col: int, row: int) -> bool {
    s.0 <= col <= s.2 && s.1 <= row <= s.3
}

impl Desk {
    /// The caret: a blinking bar between glyphs, in the text that starts at
    /// `x0`.
    pub open spec fn caret_bar(self, x0: int) -> Seq<Mark> {
        if (self.frame / 16) % 2 == 0 {
            seq![]
        } else {
            seq![fill_mark(x0 + self.caret * 5 - 1, 1, 1, 9, self.theme().hot)]
        }
    }

    /// The live result of a formula being typed; a dim question mark while it
    /// has none.
    pub open spec fn preview_text(self, x: int) -> Seq<Mark> {
        let t = self.theme();
        if !is_formula(self.edit) {
            seq![]
        } else {
            let (v, kind) = classified(
                self.edit,
                vals(self.grid.results),
                nums(self.grid.results),
            );
            seq![
                text_mark(x, 2, utf8("="), t.dim),
                if kind == Kind::Num {
                    text_mark(x + 10, 2, value_text(v as int), t.good)
                } else {
                    text_mark(x + 10, 2, utf8("?"), t.dim)
                },
            ]
        }
    }

    /// The letter of the column in place `vc` of the screen, if it exists.
    pub open spec fn col_header(self, acol: int, vc: int) -> Seq<Mark> {
        let t = self.theme();
        let col = self.top_col + vc;
        if col >= COLS {
            seq![]
        } else {
            seq![
                text_mark(
                    16 + 35 * vc + 15,
                    12,
                    seq![(UPPER_A + col) as u8],
                    if col == acol {
                        t.hot
                    } else {
                        t.dim
                    },
                ),
            ]
        }
    }

    /// The first `n` column letters.
    pub open spec fn col_headers_upto(self, acol: int, n: int) -> Seq<Mark>
        decreases n,
    {
        if n <= 0 {
            seq![]
        } else {
            self.col_headers_upto(acol, n - 1) + self.col_header(acol, n - 1)
        }
    }

    /// The column letters, the active one highlighted.
    pub open spec fn col_headers(self, acol: int) -> Seq<Mark> {
        seq![fill_mark(0, 11, 320, 9, self.theme().panel)] + self.col_headers_upto(
            acol,
            VIS_COLS as int,
        )
    }

    /// The formula bar's contents: a save name being typed; or the cell's name
    /// and the text being typed with its preview; or the cell's name and text,
    /// for a formula with its result.
    pub open spec fn formula_bar(self) -> Seq<Mark> {
        let t = self.theme();
        if self.saving {
            seq![
                text_mark(4, 2, utf8("SAVE AS:"), t.good),
                text_mark(49, 2, self.edit, t.text),
            ] + self.caret_bar(49)
        } else {
            let tag = cell_name(self.cur_col as int, self.cur_row as int).push(COLON);
            let cx: int = 4 + tag.len() as int * 5 + 4;
            seq![text_mark(4, 2, tag, t.good)] + if self.mode == Mode::Edit || self.mode
                == Mode::Pick {
                seq![text_mark(cx, 2, self.edit, t.text)] + self.caret_bar(cx)
                    + self.preview_text(cx + self.edit.len() * 5 + 10)
            } else {
                let i = index_of(self.cur_col as int, self.cur_row as int);
                let raw = self.grid.texts[i];
                let (v, kind) = self.grid.results[i];
                seq![text_mark(cx, 2, raw, t.text)] + if kind == Kind::Num && is_formula(
                    raw,
                ) {
                    let rx: int = cx + raw.len() as int * 5 + 8;
                    seq![
                        text_mark(rx, 2, utf8("="), t.dim),
                        text_mark(rx + 12, 2, value_text(v as int), t.good),
                    ]
                } else {
                    seq![]
                }
            }
        }
    }

    /// The formula bar and the column letters.
    #[verifier::opaque]
    pub open spec fn chrome(self) -> Seq<Mark> {
        seq![fill_mark(0, 0, 320, 10, self.theme().panel)] + self.formula_bar()
            + self.col_headers(self.active().0 as int)
    }

    /// The rectangle to shade: the range being picked, or the selection.
    pub open spec fn shaded(self) -> Option<Span> {
        if self.mode == Mode::Pick {
            match self.pick_anchor {
                Some(a) => Some(span_of(a, (self.pick_col, self.pick_row))),
                None => None,
            }
        } else {
            match self.sel_anchor {
                Some(_) => Some(self.target()),
                None => None,
            }
        }
    }

    /// The cells that the formula being typed names.
    pub open spec fn typed_rects(self) -> Seq<Rect> {
        if (self.mode == Mode::Edit || self.mode == Mode::Pick) && !self.saving && is_formula(
            self.edit,
        ) {
            scanned(self.edit, 0, Seq::empty())
        } else {
            Seq::empty()
        }
    }

    /// The bottom of the grid's band; the keyboard covers the rest while
    /// typing.
    pub open spec fn band_bottom(self, kbd_y0: int) -> int {
        if self.mode == Mode::Edit {
            band_above(kbd_y0)
        } else {
            GRID_Y1 as int
        }
    }

    /// The cursor cell's fill, breathing between the accent and a lifted
    /// version of it.
    pub open spec fn cursor_fill(self) -> Rgb {
        let t = self.theme();
        let phase = self.frame % 64;
        let tri = if phase < 32 {
            phase as int
        } else {
            64 - phase
        };
        blend(t.accent, blend(t.accent, t.hot, 1, 3), tri, 32)
    }

    /// The cursor's border: dashes that move on with the frame.
    pub open spec fn ants(self, x: int, y: int, w: int, h: int) -> Seq<Mark> {
        dashes(x, y, w, h, low_half((self.frame / 4) as int), self.theme().hot, 0)
    }

    /// A cell's contents: a number to the right, in full or compact; an error;
    /// or as much of a text as fits.
    #[verifier::opaque]
    pub open spec fn cell_text(self, i: int, x: int, y: int, sel: bool) -> Seq<Mark> {
        let t = self.theme();
        let raw = self.grid.texts[i];
        let (v, kind) = self.grid.results[i];
        let tint = if sel {
            t.accent_text
        } else {
            t.text
        };
        if raw.len() == 0 {
            seq![]
        } else if kind == Kind::Num {
            let s = fitted_text(v as int, DISP as int);
            seq![text_mark(x + (DISP - least_of(s.len() as int, DISP as int)) * 5, y, s, tint)]
        } else if kind == Kind::Error {
            seq![
                text_mark(
                    x,
                    y,
                    utf8("#ERR"),
                    if sel {
                        t.accent_text
                    } else {
                        t.bad
                    },
                ),
            ]
        } else {
            seq![text_mark(x, y, truncated(raw, DISP as int), tint)]
        }
    }

    /// A cell's backdrop: the cursor, a cell of the formula being typed, or of
    /// the shaded range.
    #[verifier::opaque]
    pub open spec fn backdrop(self, col: int, row: int, x: int, y: int) -> Seq<Mark> {
        let t = self.theme();
        if (col, row) == (self.active().0 as int, self.active().1 as int) {
            seq![fill_mark(x, y - 1, 35, 8, self.cursor_fill())] + self.ants(x, y - 1, 35, 8)
        } else {
            match tint_from(self.typed_rects(), 0, col, row) {
                Some(c) => seq![fill_mark(x, y - 1, 35, 8, blend(c, t.bg, 1, 2))],
                None => match self.shaded() {
                    Some(s) => if in_span(s, col, row) {
                        seq![fill_mark(x, y - 1, 35, 8, blend(t.accent, t.bg, 1, 2))]
                    } else {
                        seq![]
                    },
                    None => seq![],
                },
            }
        }
    }

    /// Whether a cell is drawn over a backdrop.
    pub open spec fn lit(self, col: int, row: int) -> bool {
        ||| (col, row) == (self.active().0 as int, self.active().1 as int)
        ||| tint_from(self.typed_rects(), 0, col, row) is Some
        ||| self.shaded() matches Some(s) && in_span(s, col, row)
    }

    /// The cell in place `vc` of a row, if its column exists.
    pub open spec fn grid_cell(self, row: int, y: int, vc: int) -> Seq<Mark> {
        let col = self.top_col + vc;
        let x = 16 + 35 * vc;
        if col >= COLS {
            seq![]
        } else {
            self.backdrop(col, row, x, y) + self.cell_text(
                index_of(col, row),
                x,
                y,
                self.lit(col, row),
            )
        }
    }

    /// The first `n` cells of a row.
    pub open spec fn grid_cells(self, row: int, y: int, n: int) -> Seq<Mark>
        decreases n,
    {
        if n <= 0 {
            seq![]
        } else {
            self.grid_cells(row, y, n - 1) + self.grid_cell(row, y, n - 1)
        }
    }

    /// The row in place `vr` of the screen, if it exists: its number and its
    /// cells, moved up by the part of a row that is scrolled away.
    pub open spec fn grid_row(self, vr: int) -> Seq<Mark> {
        let t = self.theme();
        let row = self.scroll_px as int / ROW_H as int + vr;
        let y = 22 + 8 * vr - self.scroll_px as int % ROW_H as int;
        if row >= ROWS {
            seq![]
        } else {
            seq![
                text_mark(
                    2,
                    y,
                    dec((row + 1) as nat),
                    if row == self.active().1 {
                        t.hot
                    } else {
                        t.dim
                    },
                ),
            ] + self.grid_cells(row, y, VIS_COLS as int)
        }
    }

    /// The first `n` rows of the screen.
    pub open spec fn grid_rows(self, n: int) -> Seq<Mark>
        decreases n,
    {
        if n <= 0 {
            seq![]
        } else {
            self.grid_rows(n - 1) + self.grid_row(n - 1)
        }
    }

    /// The first `n` column separators.
    pub open spec fn separators(self, n: int) -> Seq<Mark>
        decreases n,
    {
        if n <= 0 {
            seq![]
        } else {
            self.separators(n - 1).push(
                fill_mark(15 + 35 * (n - 1), 21, 1, 192, self.theme().sep),
            )
        }
    }

    /// The grid, clipped to its band.
    #[verifier::opaque]
    pub open spec fn grid_view(self, kbd_y0: int) -> Seq<Mark> {
        self.separators(VIS_COLS + 1).push(
            Mark::Band { y0: GRID_TOP, y1: self.band_bottom(kbd_y0) as i16 },
        ) + self.grid_rows(VIS_ROWS + 1) + seq![Mark::Whole]
    }
}

impl Editor {
    /// The text caret, at the insertion point of the text that starts at `x0`.
    pub fn draw_caret(&self, cv: &mut Canvas, x0: i16)
        requires
            self.wf(),
            i16::MIN < x0,
            x0 + INPUT_CAP * 5 <= i16::MAX,
        ensures
            final(cv)@ == old(cv)@ + self@.caret_bar(x0 as int),
    {
        if (self.frame / 16) % 2 == 0 {
            assert(cv@ =~= old(cv)@ + self@.caret_bar(x0 as int));
            return;
        }
        let t: Theme = self.palette();
        cv.fill(x0 + self.caret as i16 * GW - 1, FBAR_Y - 1, 1, 9, t.hot);
        assert(cv@ =~= old(cv)@ + self@.caret_bar(x0 as int));
    }

    /// Live result of the half-typed formula, before it is committed. One that
    /// does not parse yet shows a dim "?", since every formula is briefly
    /// invalid while it is typed.
    pub fn draw_preview(&self, cv: &mut Canvas, x: i16)
        requires
            self.wf(),
            x + 10 <= i16::MAX,
        ensures
            final(cv)@ == old(cv)@ + self@.preview_text(x as int),
    {
        let text: &[u8] = self.typed_text();
        if text.len() == 0 || text[0] != EQUALS {
            assert(cv@ =~= old(cv)@ + self@.preview_text(x as int));
            return;
        }
        let t: Theme = self.palette();
        cv.label(x, FBAR_Y, "=", t.dim);
        let (v, kind) = self.sheet.preview(text);
        if kind == Kind::Num {
            let shown: Vec<u8> = write_value(v);
            cv.text(x + 10, FBAR_Y, shown.as_slice(), t.good);
        } else {
            cv.label(x + 10, FBAR_Y, "?", t.dim);
        }
        assert(cv@ =~= old(cv)@ + self@.preview_text(x as int));
    }

    /// The row of column letters (`acol` is highlighted).
    pub fn draw_col_headers(&self, cv: &mut Canvas, acol: usize)
        requires
            self.wf(),
        ensures
            final(cv)@ == old(cv)@ + self@.col_headers(acol as int),
    {
        let t: Theme = self.palette();
        cv.fill(0, COLHDR_Y - 1, 320, 9, t.panel);
        let ghost head = cv@;
        assert(head + self@.col_headers_upto(acol as int, 0) =~= head);
        let mut vc: usize = 0;
        while vc < VIS_COLS
            invariant
                self.wf(),
                t == self@.theme(),
                vc <= VIS_COLS,
                cv@ == head + self@.col_headers_upto(acol as int, vc as int),
            decreases VIS_COLS - vc,
        {
            let col: usize = self.top_col + vc;
            if col < COLS {
                let mut letter: Vec<u8> = Vec::new();
                letter.push(UPPER_A + col as u8);
                assert(letter@ =~= seq![(UPPER_A + col) as u8]);
                let x: i16 = ROWHDR_W + vc as i16 * COL_W;
                cv.text(
                    x + 15,
                    COLHDR_Y,
                    letter.as_slice(),
                    if col == acol {
                        t.hot
                    } else {
                        t.dim
                    },
                );
            }
            vc += 1;
            assert(cv@ =~= head + self@.col_headers_upto(acol as int, vc as int));
        }
        assert(cv@ =~= old(cv)@ + self@.col_headers(acol as int));
    }

    /// The formula bar's contents.
    fn draw_formula_bar(&self, cv: &mut Canvas)
        requires
            self.wf(),
        ensures
            final(cv)@ == old(cv)@ + self@.formula_bar(),
    {
        let t: Theme = self.palette();
        // While typing a save name, the bar shows it.
        if self.saving {
            cv.label(4, FBAR_Y, "SAVE AS:", t.good);
            cv.text(49, FBAR_Y, self.typed_text(), t.text);
            self.draw_caret(cv, 49);
            assert(cv@ =~= old(cv)@ + self@.formula_bar());
            return;
        }
        // Always the edited or selected cell (not the pick cursor), so that one
        // can see where the formula lands while pointing.
        let tag: Vec<u8> = cell_ref(self.cur_col, self.cur_row);
        proof {
            lemma_tag_len(self.cur_col as int, self.cur_row as int);
        }
        cv.text(4, FBAR_Y, tag.as_slice(), t.good);
        let cx: i16 = 4 + tag.len() as i16 * GW + 4;
        if self.mode == Mode::Edit || self.mode == Mode::Pick {
            cv.text(cx, FBAR_Y, self.typed_text(), t.text);
            self.draw_caret(cv, cx);
            self.draw_preview(cv, cx + self.edit_len as i16 * GW + 10);
            assert(cv@ =~= old(cv)@ + self@.formula_bar());
        } else {
            let i: usize = idx(self.cur_col, self.cur_row);
            let c: Cell = self.sheet.cells[i];
            assert(self@.grid.texts[i as int] == c.text());
            assert(self@.grid.results[i as int] == c.result());
            let raw: &[u8] = c.raw();
            cv.text(cx, FBAR_Y, raw, t.text);
            // For a formula cell, echo the evaluated result.
            if c.kind == Kind::Num && raw.len() > 0 && raw[0] == EQUALS {
                let shown: Vec<u8> = write_value(c.value);
                let rx: i16 = cx + c.len as i16 * GW + 8;
                cv.label(rx, FBAR_Y, "=", t.dim);
                cv.text(rx + 12, FBAR_Y, shown.as_slice(), t.good);
            }
            assert(cv@ =~= old(cv)@ + self@.formula_bar());
        }
    }

    /// Formula bar and column-letter header.
    pub fn draw_chrome(&self, cv: &mut Canvas)
        requires
            self.wf(),
        ensures
            final(cv)@ == old(cv)@ + self@.chrome(),
    {
        proof {
            reveal(Desk::chrome);
        }
        let t: Theme = self.palette();
        let (acol, _) = self.active_cell();
        cv.fill(0, 0, 320, 10, t.panel);
        self.draw_formula_bar(cv);
        self.draw_col_headers(cv, acol);
        assert(cv@ =~= old(cv)@ + self@.chrome());
    }

    /// The rectangle to shade: the range being picked mid-formula, or the Nav
    /// selection.
    pub fn shaded_range(&self) -> (r: Option<Span>)
        requires
            self.wf(),
        ensures
            r == self@.shaded(),
    {
        if self.mode == Mode::Pick {
            match self.pick_anchor {
                Some((ac, ar)) => Some(
                    (
                        min_of(ac, self.pick_col),
                        min_of(ar, self.pick_row),
                        max_of(ac, self.pick_col),
                        max_of(ar, self.pick_row),
                    ),
                ),
                None => None,
            }
        } else {
            match self.sel_anchor {
                Some(_) => Some(self.target_rect()),
                None => None,
            }
        }
    }

    /// Cell rectangles named by the formula being typed.
    pub fn typed_refs(&self) -> (h: RefHighlights)
        requires
            self.wf(),
        ensures
            h.wf(),
            h@ == self@.typed_rects(),
    {
        let mut out: RefHighlights = RefHighlights::none();
        if (self.mode != Mode::Edit && self.mode != Mode::Pick) || self.saving {
            return out;
        }
        let text: &[u8] = self.typed_text();
        if text.len() == 0 || text[0] != EQUALS {
            return out;
        }
        out.scan(text);
        out
    }

    /// Bottom edge of the visible grid band. The on-screen keyboard, which
    /// starts at `kbd_y0`, covers the lower screen while typing, and a data row
    /// half-hidden behind its top edge reads as a glitch, so the band stops at
    /// the last whole row above it.
    pub fn grid_bottom(&self, kbd_y0: i16) -> (y: i16)
        requires
            0 <= kbd_y0 <= 240,
        ensures
            y == self@.band_bottom(kbd_y0 as int),
    {
        if self.mode == Mode::Edit {
            let d: i16 = kbd_y0 - 14 - GRID_TOP;
            let rows: i16 = d / ROW_H;
            assert(rows == toward_zero(d as int, ROW_H as int));
            GRID_TOP + rows * ROW_H - 1
        } else {
            GRID_Y1
        }
    }

    /// The cursor cell's fill, breathing between the accent and a lifted
    /// version of it.
    pub fn cursor_color(&self) -> (c: Rgb)
        ensures
            c == self@.cursor_fill(),
    {
        let t: Theme = self.palette();
        let phase: u32 = self.frame % 64;
        let tri: u32 = if phase < 32 {
            phase
        } else {
            64 - phase
        };
        lerp(t.accent, lerp(t.accent, t.hot, 1, 3), tri as u16, 32)
    }

    /// Marching-ants border: a 2-on/2-off dash pattern whose phase advances
    /// with the frame.
    pub fn draw_ants(&self, cv: &mut Canvas, x: i16, y: i16, w: i16, h: i16)
        requires
            i16::MIN < x,
            i16::MIN < y,
            0 <= w,
            0 <= h,
            x + w <= i16::MAX,
            y + h <= i16::MAX,
            2 * (w + h) <= i16::MAX,
        ensures
            final(cv)@ == old(cv)@ + self@.ants(x as int, y as int, w as int, h as int),
    {
        let t: Theme = self.palette();
        let low: u32 = (self.frame / 4) % 65536;
        let march: i32 = if low >= 32768 {
            low as i32 - 65536
        } else {
            low as i32
        };
        let ghost m = low_half((self.frame / 4) as int);
        assert(march == m);
        let ghost all = self@.ants(x as int, y as int, w as int, h as int);
        let ghost first = cv@;
        // Walk the perimeter, painting a 2px dash every 4px.
        let perim: i16 = 2 * (w + h);
        let mut i: i16 = 0;
        assert(first + all =~= cv@ + dashes(
            x as int,
            y as int,
            w as int,
            h as int,
            m,
            t.hot,
            0,
        ));
        while i < perim
            invariant
                i16::MIN < x,
                i16::MIN < y,
                0 <= w,
                0 <= h,
                x + w <= i16::MAX,
                y + h <= i16::MAX,
                2 * (w + h) <= i16::MAX,
                perim == 2 * (w + h),
                0 <= i <= perim + 1,
                i % 2 == 0,
                march == m,
                -32768 <= march <= 32767,
                first + all == cv@ + dashes(
                    x as int,
                    y as int,
                    w as int,
                    h as int,
                    m,
                    t.hot,
                    i as int,
                ),
            decreases perim + 2 - i,
        {
            let step: i32 = i as i32 + march;
            let half: i32 = step / 2;
            assert(half == toward_zero(step as int, 2));
            let ghost rest = dashes(
                x as int,
                y as int,
                w as int,
                h as int,
                m,
                t.hot,
                i + 2,
            );
            let ghost before = cv@;
            if half % 2 != 0 {
                // Map the perimeter position onto an edge.
                let (px, py): (i16, i16) = if i < w {
                    (x + i, y)
                } else if i < w + h {
                    (x + w - 1, y + (i - w))
                } else if i < 2 * w + h {
                    (x + (2 * w + h - 1 - i), y + h - 1)
                } else {
                    (x, y + (perim - 1 - i))
                };
                // Gold: the cell's own text would read as noise beside it.
                cv.fill(px, py, 2, 1, t.hot);
                assert(cv@ + rest =~= before + (seq![
                    fill_mark(px as int, py as int, 2, 1, t.hot),
                ] + rest));
            }
            i += 2;
        }
        assert(cv@ =~= first + all);
    }

    /// One cell's contents.
    pub fn draw_cell(&self, cv: &mut Canvas, col: usize, row: usize, x: i16, y: i16, sel: bool)
        requires
            self.wf(),
            col < COLS,
            row < ROWS,
            x + DISP * 5 <= i16::MAX,
        ensures
            final(cv)@ == old(cv)@ + self@.cell_text(
                index_of(col as int, row as int),
                x as int,
                y as int,
                sel,
            ),
    {
        proof {
            reveal(Desk::cell_text);
        }
        let i: usize = idx(col, row);
        let cell: Cell = self.sheet.cells[i];
        let ghost drawn = self@.cell_text(i as int, x as int, y as int, sel);
        assert(self@.grid.texts[i as int] == cell.text());
        assert(self@.grid.results[i as int] == cell.result());
        if cell.is_empty() {
            assert(cv@ =~= old(cv)@ + drawn);
            return;
        }
        let t: Theme = self.palette();
        let tint = if sel {
            t.accent_text
        } else {
            t.text
        };
        match cell.kind {
            Kind::Num => {
                // Full if it fits, else compact (never a wrong number).
                let s: Vec<u8> = write_value_fit(cell.value, DISP);
                let xoff: i16 = (DISP - min_of(s.len(), DISP)) as i16 * GW;
                cv.text(x + xoff, y, s.as_slice(), tint);
            },
            Kind::Error => {
                cv.label(
                    x,
                    y,
                    "#ERR",
                    if sel {
                        t.accent_text
                    } else {
                        t.bad
                    },
                );
            },
            _ => {
                // Text: left-aligned, clipped to the column.
                let s: Vec<u8> = clip(cell.raw(), DISP);
                cv.text(x, y, s.as_slice(), tint);
            },
        }
        assert(cv@ =~= old(cv)@ + drawn);
    }

    /// One cell's backdrop. Says whether it has one.
    fn draw_backdrop(
        &self,
        cv: &mut Canvas,
        col: usize,
        row: usize,
        x: i16,
        y: i16,
        shaded: Option<Span>,
        refs: &RefHighlights,
    ) -> (lit: bool)
        requires
            self.wf(),
            col < COLS,
            row < ROWS,
            0 <= x <= 320,
            0 <= y <= 320,
            shaded == self@.shaded(),
            refs.wf(),
            refs@ == self@.typed_rects(),
        ensures
            final(cv)@ == old(cv)@ + self@.backdrop(col as int, row as int, x as int, y as int),
            lit == self@.lit(col as int, row as int),
    {
        proof {
            reveal(Desk::backdrop);
        }
        let t: Theme = self.palette();
        let (acol, arow) = self.active_cell();
        let in_range: bool = match shaded {
            Some((c0, r0, c1, r1)) => col >= c0 && col <= c1 && row >= r0 && row <= r1,
            None => false,
        };
        let in_ref: Option<Rgb> = refs.tint_at(col, row);
        if col == acol && row == arow {
            cv.fill(x, y - 1, COL_W as u16, ROW_H as u16, self.cursor_color());
            let ghost mid = cv@;
            // Ants before the glyphs: a legible cell beats a complete border.
            self.draw_ants(cv, x, y - 1, COL_W, ROW_H);
            assert(cv@ =~= old(cv)@ + self@.backdrop(
                col as int,
                row as int,
                x as int,
                y as int,
            ));
            return true;
        }
        match in_ref {
            Some(c) => {
                cv.fill(x, y - 1, COL_W as u16, ROW_H as u16, mix(c, t.bg));
                assert(cv@ =~= old(cv)@ + self@.backdrop(
                    col as int,
                    row as int,
                    x as int,
                    y as int,
                ));
                true
            },
            None => {
                if in_range {
                    cv.fill(x, y - 1, COL_W as u16, ROW_H as u16, mix(t.accent, t.bg));
                }
                assert(cv@ =~= old(cv)@ + self@.backdrop(
                    col as int,
                    row as int,
                    x as int,
                    y as int,
                ));
                in_range
            },
        }
    }

    /// One row of the grid.
    fn draw_row(
        &self,
        cv: &mut Canvas,
        vr: usize,
        shaded: Option<Span>,
        refs: &RefHighlights,
    )
        requires
            self.wf(),
            vr <= VIS_ROWS,
            shaded == self@.shaded(),
            refs.wf(),
            refs@ == self@.typed_rects(),
        ensures
            final(cv)@ == old(cv)@ + self@.grid_row(vr as int),
    {
        let t: Theme = self.palette();
        let off: i16 = self.scroll_px % ROW_H;
        let first: usize = (self.scroll_px / ROW_H) as usize;
        let row: usize = first + vr;
        if row >= ROWS {
            assert(cv@ =~= old(cv)@ + self@.grid_row(vr as int));
            return;
        }
        let (_, arow) = self.active_cell();
        let y: i16 = GRID_Y0 + vr as i16 * ROW_H - off;
        // Row header, counted from one.
        let mut number: Vec<u8> = Vec::new();
        push_dec(&mut number, row as u64 + 1);
        assert(number@ =~= dec((row + 1) as nat));
        cv.text(
            2,
            y,
            number.as_slice(),
            if row == arow {
                t.hot
            } else {
                t.dim
            },
        );
        let ghost head = cv@;
        assert(head + self@.grid_cells(row as int, y as int, 0) =~= head);
        let mut vc: usize = 0;
        while vc < VIS_COLS
            invariant
                self.wf(),
                shaded == self@.shaded(),
                refs.wf(),
                refs@ == self@.typed_rects(),
                row < ROWS,
                0 <= y <= 320,
                vc <= VIS_COLS,
                cv@ == head + self@.grid_cells(row as int, y as int, vc as int),
            decreases VIS_COLS - vc,
        {
            let col: usize = self.top_col + vc;
            let ghost before = cv@;
            if col < COLS {
                let x: i16 = ROWHDR_W + vc as i16 * COL_W;
                let lit: bool = self.draw_backdrop(cv, col, row, x, y, shaded, refs);
                self.draw_cell(cv, col, row, x, y, lit);
            }
            assert(cv@ =~= before + self@.grid_cell(row as int, y as int, vc as int));
            vc += 1;
            assert(cv@ =~= head + self@.grid_cells(row as int, y as int, vc as int));
        }
        assert(cv@ =~= old(cv)@ + self@.grid_row(vr as int));
    }

    /// The grid: separators, then the rows at a sub-row pixel offset, clipped
    /// to the band.
    pub fn draw_grid(&self, cv: &mut Canvas, kbd_y0: i16)
        requires
            self.wf(),
            0 <= kbd_y0 <= 240,
        ensures
            final(cv)@ == old(cv)@ + self@.grid_view(kbd_y0 as int),
    {
        proof {
            reveal(Desk::grid_view);
        }
        let t: Theme = self.palette();
        let shaded: Option<Span> = self.shaded_range();
        // Ranges named in the formula being typed, each in its own tint.
        let refs: RefHighlights = self.typed_refs();
        // Faint column separators for readability.
        let ghost start = cv@;
        assert(start + self@.separators(0) =~= start);
        let mut vc: usize = 0;
        while vc <= VIS_COLS
            invariant
                t == self@.theme(),
                vc <= VIS_COLS + 1,
                cv@ == start + self@.separators(vc as int),
            decreases VIS_COLS + 1 - vc,
        {
            let x: i16 = ROWHDR_W + vc as i16 * COL_W;
            cv.fill(x - 1, GRID_Y0 - 1, 1, 192, t.sep);
            vc += 1;
            assert(cv@ =~= start + self@.separators(vc as int));
        }
        cv.scissor_band(GRID_TOP, self.grid_bottom(kbd_y0));
        let ghost head = cv@;
        assert(head + self@.grid_rows(0) =~= head);
        let mut vr: usize = 0;
        while vr <= VIS_ROWS
            invariant
                self.wf(),
                shaded == self@.shaded(),
                refs.wf(),
                refs@ == self@.typed_rects(),
                vr <= VIS_ROWS + 1,
                cv@ == head + self@.grid_rows(vr as int),
            decreases VIS_ROWS + 1 - vr,
        {
            self.draw_row(cv, vr, shaded, &refs);
            vr += 1;
            assert(cv@ =~= head + self@.grid_rows(vr as int));
        }
        cv.scissor_reset();
        assert(cv@ =~= old(cv)@ + self@.grid_view(kbd_y0 as int));
    }
}

/// A cell's name is short.
proof fn lemma_tag_len(col: int, row: int)
    requires
        0 <= row < ROWS,
    ensures
        2 <= cell_name(col, row).len() <= 3,
{
    reveal_with_fuel(dec, 3);
}

} // verus!
