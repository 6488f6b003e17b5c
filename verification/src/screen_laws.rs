//! Laws of the screen: what is drawn where.

use vstd::prelude::*;

use crate::ascii::{COLON, UPPER_A};
use crate::calc::{nums, vals};
use crate::canvas::{fill_mark, text_mark, Mark};
use crate::card::shown_name;
use crate::decimal::dec;
use crate::editor::{menu_count, Desk};
use crate::fixed::magnitude;
use crate::formula::{classified, is_formula};
use crate::grid::{index_of, on_grid, Kind};
use crate::highlights::{covers, scanned};
use crate::labels::{cell_name, chart_hint, frac_text, range_name, utf8};
use crate::light_laws::law_first_rectangle_colours;
use crate::modes::{
    cmd_at, cmd_label, commands_before, kind_label, next_kind, Mode, CMD_ROWS, CMD_VIS,
};
use crate::number::{fitted_text, lemma_fitted_text_short, value_text};
use crate::ranges::amid;
use crate::refs::truncated;
use crate::samples::{sample_label, SAMPLES};
use crate::theme::{blend, inked, law_blend_ends, toward_zero, Rgb};
use crate::update::{VIS_COLS, VIS_ROWS};
use crate::view::{band_above, border_pixel, dashes};

verus! {

// ---------------------------------------------------------------------------
// Finding marks
// ---------------------------------------------------------------------------

/// A text stands among the marks, at a place and in some colour.
pub open spec fn shows_text(marks: Seq<Mark>, x: int, y: int, s: Seq<u8>) -> bool {
    exists|k: int| 0 <= k < marks.len() && #[trigger] is_text(marks[k], x, y, s)
}

pub open spec fn is_text(m: Mark, x: int, y: int, s: Seq<u8>) -> bool {
    m matches Mark::Text { x: mx, y: my, s: ms, scale, tint } && mx == x && my == y && ms == s
        && scale == 1
}

/// A filled rectangle stands among the marks.
pub open spec fn shows_fill(marks: Seq<Mark>, x: int, y: int, w: int, h: int) -> bool {
    exists|k: int| 0 <= k < marks.len() && #[trigger] is_fill(marks[k], x, y, w, h)
}

pub open spec fn is_fill(m: Mark, x: int, y: int, w: int, h: int) -> bool {
    m matches Mark::Fill { x: mx, y: my, w: mw, h: mh, c } && mx == x && my == y && mw == w && mh
        == h
}

pub proof fn lemma_text_joined(a: Seq<Mark>, b: Seq<Mark>, x: int, y: int, s: Seq<u8>)
    ensures
        shows_text(a, x, y, s) || shows_text(b, x, y, s) ==> shows_text(a + b, x, y, s),
{
    if shows_text(a, x, y, s) {
        let k = choose|k: int| 0 <= k < a.len() && #[trigger] is_text(a[k], x, y, s);
        assert((a + b)[k] == a[k]);
        assert(is_text((a + b)[k], x, y, s));
    } else if shows_text(b, x, y, s) {
        let k = choose|k: int| 0 <= k < b.len() && #[trigger] is_text(b[k], x, y, s);
        assert((a + b)[a.len() + k] == b[k]);
        assert(is_text((a + b)[a.len() + k], x, y, s));
    }
}

proof fn lemma_first_text(marks: Seq<Mark>, k: int, x: int, y: int, s: Seq<u8>)
    requires
        0 <= k < marks.len(),
        is_text(marks[k], x, y, s),
    ensures
        shows_text(marks, x, y, s),
{
}

// ---------------------------------------------------------------------------
// The grid
// ---------------------------------------------------------------------------

/// The pixel column in which a column's cells start.
pub open spec fn left_of(d: Desk, col: int) -> int {
    16 + 35 * (col - d.top_col)
}

/// The pixel row of a row's texts.
pub open spec fn text_row(d: Desk, row: int) -> int {
    22 + 8 * row - d.scroll_px
}

/// Whether a cell is on the screen: one of eight columns from the first in
/// view, and one of the twenty-five rows that the scroll has not passed.
pub open spec fn on_screen(d: Desk, col: int, row: int) -> bool {
    &&& on_grid(col, row)
    &&& d.top_col <= col < d.top_col + 8
    &&& d.scroll_px as int / 8 <= row <= d.scroll_px as int / 8 + 24
}

proof fn lemma_cells_upto(d: Desk, row: int, y: int, vc: int, n: int, x: int, ty: int, s: Seq<u8>)
    requires
        0 <= vc < n,
        shows_text(d.grid_cell(row, y, vc), x, ty, s),
    ensures
        shows_text(d.grid_cells(row, y, n), x, ty, s),
    decreases n,
{
    let before = d.grid_cells(row, y, n - 1);
    let last = d.grid_cell(row, y, n - 1);
    if vc < n - 1 {
        lemma_cells_upto(d, row, y, vc, n - 1, x, ty, s);
    }
    lemma_text_joined(before, last, x, ty, s);
}

proof fn lemma_rows_upto(d: Desk, vr: int, n: int, x: int, y: int, s: Seq<u8>)
    requires
        0 <= vr < n,
        shows_text(d.grid_row(vr), x, y, s),
    ensures
        shows_text(d.grid_rows(n), x, y, s),
    decreases n,
{
    let before = d.grid_rows(n - 1);
    let last = d.grid_row(n - 1);
    if vr < n - 1 {
        lemma_rows_upto(d, vr, n - 1, x, y, s);
    }
    lemma_text_joined(before, last, x, y, s);
}

proof fn lemma_row_shown(d: Desk, kbd_y0: int, vr: int, x: int, y: int, s: Seq<u8>)
    requires
        0 <= vr < 25,
        shows_text(d.grid_row(vr), x, y, s),
    ensures
        shows_text(d.grid_view(kbd_y0), x, y, s),
{
    reveal(Desk::grid_view);
    lemma_rows_upto(d, vr, VIS_ROWS + 1, x, y, s);
    let rows = d.grid_rows(VIS_ROWS + 1);
    let head = d.separators(VIS_COLS + 1).push(
        Mark::Band { y0: crate::view::GRID_TOP, y1: d.band_bottom(kbd_y0) as i16 },
    );
    lemma_text_joined(head, rows, x, y, s);
    lemma_text_joined(head + rows, seq![Mark::Whole], x, y, s);
}

proof fn lemma_cell_shown(d: Desk, kbd_y0: int, col: int, row: int, x: int, s: Seq<u8>)
    requires
        d.wf(),
        on_screen(d, col, row),
        shows_text(
            d.cell_text(index_of(col, row), left_of(d, col), text_row(d, row), d.lit(col, row)),
            x,
            text_row(d, row),
            s,
        ),
    ensures
        shows_text(d.grid_view(kbd_y0), x, text_row(d, row), s),
{
    let vr = row - d.scroll_px as int / 8;
    let vc = col - d.top_col;
    let y = text_row(d, row);
    assert(y == 22 + 8 * vr - d.scroll_px as int % 8);
    let back = d.backdrop(col, row, left_of(d, col), y);
    let text = d.cell_text(index_of(col, row), left_of(d, col), y, d.lit(col, row));
    lemma_text_joined(back, text, x, y, s);
    assert(d.grid_cell(row, y, vc) == back + text);
    lemma_cells_upto(d, row, y, vc, VIS_COLS as int, x, y, s);
    let cells = d.grid_cells(row, y, VIS_COLS as int);
    let t = d.theme();
    let number = seq![
        text_mark(
            2,
            y,
            dec((row + 1) as nat),
            if row == d.active().1 {
                t.hot
            } else {
                t.dim
            },
        ),
    ];
    lemma_text_joined(number, cells, x, y, s);
    assert(d.grid_row(vr) == number + cells);
    lemma_row_shown(d, kbd_y0, vr, x, y, s);
}

/// A number on the screen is shown in its cell, so that its text ends where
/// the cell's seven characters do.
pub proof fn law_number_is_shown(d: Desk, kbd_y0: int, col: int, row: int)
    requires
        d.wf(),
        on_screen(d, col, row),
        d.grid.texts[26 * row + col].len() > 0,
        d.grid.results[26 * row + col].1 == Kind::Num,
        fitted_text(d.grid.results[26 * row + col].0 as int, 7).len() <= 7,
    ensures
        ({
            let s = fitted_text(d.grid.results[26 * row + col].0 as int, 7);
            shows_text(
                d.grid_view(kbd_y0),
                16 + 35 * (col - d.top_col) + 35 - 5 * s.len(),
                22 + 8 * row - d.scroll_px,
                s,
            )
        }),
{
    reveal(Desk::cell_text);
    let s = fitted_text(d.grid.results[26 * row + col].0 as int, 7);
    let y = text_row(d, row);
    let x = left_of(d, col) + 35 - 5 * s.len();
    let marks = d.cell_text(index_of(col, row), left_of(d, col), y, d.lit(col, row));
    lemma_fitted_text_short(d.grid.results[26 * row + col].0, 7);
    lemma_first_text(marks, 0, x, y, s);
    lemma_cell_shown(d, kbd_y0, col, row, x, s);
}

/// A text on the screen is shown from the left of its cell, its first seven
/// characters.
pub proof fn law_text_is_shown(d: Desk, kbd_y0: int, col: int, row: int)
    requires
        d.wf(),
        on_screen(d, col, row),
        d.grid.texts[26 * row + col].len() > 0,
        d.grid.results[26 * row + col].1 == Kind::Text,
    ensures
        ({
            let raw = d.grid.texts[26 * row + col];
            shows_text(
                d.grid_view(kbd_y0),
                16 + 35 * (col - d.top_col),
                22 + 8 * row - d.scroll_px,
                if raw.len() <= 7 {
                    raw
                } else {
                    raw.take(7)
                },
            )
        }),
{
    reveal(Desk::cell_text);
    let s = truncated(d.grid.texts[26 * row + col], 7);
    let y = text_row(d, row);
    let x = left_of(d, col);
    let marks = d.cell_text(index_of(col, row), x, y, d.lit(col, row));
    lemma_first_text(marks, 0, x, y, s);
    lemma_cell_shown(d, kbd_y0, col, row, x, s);
}

/// An error on the screen is shown as such.
pub proof fn law_error_is_shown(d: Desk, kbd_y0: int, col: int, row: int)
    requires
        d.wf(),
        on_screen(d, col, row),
        d.grid.texts[26 * row + col].len() > 0,
        d.grid.results[26 * row + col].1 == Kind::Error,
    ensures
        shows_text(
            d.grid_view(kbd_y0),
            16 + 35 * (col - d.top_col),
            22 + 8 * row - d.scroll_px,
            utf8("#ERR"),
        ),
{
    reveal(Desk::cell_text);
    let y = text_row(d, row);
    let x = left_of(d, col);
    let marks = d.cell_text(index_of(col, row), x, y, d.lit(col, row));
    lemma_first_text(marks, 0, x, y, utf8("#ERR"));
    lemma_cell_shown(d, kbd_y0, col, row, x, utf8("#ERR"));
}

/// A cell without text has nothing in it.
pub proof fn law_empty_cell_shows_nothing(d: Desk, i: int, x: int, y: int, sel: bool)
    requires
        d.grid.texts[i].len() == 0,
    ensures
        d.cell_text(i, x, y, sel).len() == 0,
{
    reveal(Desk::cell_text);
}

/// Each row on the screen has its number, counted from one, before it.
pub proof fn law_row_number_is_shown(d: Desk, kbd_y0: int, row: int)
    requires
        d.wf(),
        on_screen(d, d.top_col as int, row),
    ensures
        shows_text(d.grid_view(kbd_y0), 2, 22 + 8 * row - d.scroll_px, dec((row + 1) as nat)),
{
    let vr = row - d.scroll_px as int / 8;
    let y = text_row(d, row);
    assert(y == 22 + 8 * vr - d.scroll_px as int % 8);
    let s = dec((row + 1) as nat);
    assert(is_text(d.grid_row(vr)[0], 2, y, s));
    lemma_row_shown(d, kbd_y0, vr, 2, y, s);
}

proof fn lemma_header_upto(d: Desk, acol: int, vc: int, n: int, x: int, s: Seq<u8>)
    requires
        0 <= vc < n,
        shows_text(d.col_header(acol, vc), x, 12, s),
    ensures
        shows_text(d.col_headers_upto(acol, n), x, 12, s),
    decreases n,
{
    if vc < n - 1 {
        lemma_header_upto(d, acol, vc, n - 1, x, s);
    }
    lemma_text_joined(d.col_headers_upto(acol, n - 1), d.col_header(acol, n - 1), x, 12, s);
}

/// Each column on the screen has its letter above it, in the middle.
pub proof fn law_column_letter_is_shown(d: Desk, col: int)
    requires
        d.wf(),
        0 <= col < 26,
        d.top_col <= col < d.top_col + 8,
    ensures
        shows_text(
            d.chrome(),
            16 + 35 * (col - d.top_col) + 15,
            12,
            seq![(UPPER_A + col) as u8],
        ),
{
    reveal(Desk::chrome);
    let vc = col - d.top_col;
    let acol = d.active().0 as int;
    let x = 16 + 35 * vc + 15;
    let s = seq![(UPPER_A + col) as u8];
    assert(is_text(d.col_header(acol, vc)[0], x, 12, s));
    lemma_first_text(d.col_header(acol, vc), 0, x, 12, s);
    lemma_header_upto(d, acol, vc, VIS_COLS as int, x, s);
    let bar = seq![fill_mark(0, 11, 320, 9, d.theme().panel)];
    lemma_text_joined(bar, d.col_headers_upto(acol, VIS_COLS as int), x, 12, s);
    let head = seq![fill_mark(0, 0, 320, 10, d.theme().panel)] + d.formula_bar();
    lemma_text_joined(head, d.col_headers(acol), x, 12, s);
}

/// While nothing is typed the formula bar shows the name of the cell under the
/// cursor, with a colon, and behind it the cell's text.
pub proof fn law_bar_shows_cell(d: Desk)
    requires
        d.wf(),
        d.mode == Mode::Nav,
        !d.saving,
    ensures
        ({
            let tag = cell_name(d.cur_col as int, d.cur_row as int).push(COLON);
            &&& shows_text(d.chrome(), 4, 2, tag)
            &&& shows_text(
                d.chrome(),
                8 + 5 * tag.len() as int,
                2,
                d.grid.texts[26 * d.cur_row + d.cur_col],
            )
        }),
{
    reveal(Desk::chrome);
    let tag = cell_name(d.cur_col as int, d.cur_row as int).push(COLON);
    lemma_tag_len(d.cur_col as int, d.cur_row as int);
    let raw = d.grid.texts[26 * d.cur_row + d.cur_col];
    let bar = d.formula_bar();
    let cx = 8 + 5 * tag.len() as int;
    assert(is_text(bar[0], 4, 2, tag));
    assert(is_text(bar[1], cx, 2, raw));
    lemma_first_text(bar, 0, 4, 2, tag);
    lemma_first_text(bar, 1, cx, 2, raw);
    let head = seq![fill_mark(0, 0, 320, 10, d.theme().panel)];
    let cols = d.col_headers(d.active().0 as int);
    lemma_text_joined(head, bar, 4, 2, tag);
    lemma_text_joined(head + bar, cols, 4, 2, tag);
    lemma_text_joined(head, bar, cx, 2, raw);
    lemma_text_joined(head + bar, cols, cx, 2, raw);
}

proof fn lemma_tag_len(col: int, row: int)
    requires
        on_grid(col, row),
    ensures
        cell_name(col, row).len() <= 3,
{
    assert(vstd::arithmetic::power::pow(10, 2) == 100) by {
        reveal_with_fuel(vstd::arithmetic::power::pow, 3);
    }
    crate::decimal::lemma_dec_len((row + 1) as nat, 100, 2);
}

// ---------------------------------------------------------------------------
// Backdrops
// ---------------------------------------------------------------------------

/// The cursor's cell and every cell of a marked range are drawn over a filled
/// rectangle of the cell's size.
pub proof fn law_marked_cells_are_filled(d: Desk, col: int, row: int, x: int, y: int)
    requires
        d.wf(),
        d.mode == Mode::Nav,
        0 <= x <= 320,
        0 <= y <= 240,
        (col == d.cur_col && row == d.cur_row) || (d.sel_anchor is Some
            && crate::desk_laws::in_target(d, col, row)),
    ensures
        shows_fill(d.backdrop(col, row, x, y), x, y - 1, 35, 8),
        d.lit(col, row),
        d.backdrop(col, row, x, y)[0] == fill_mark(
            x,
            y - 1,
            35,
            8,
            if col == d.cur_col && row == d.cur_row {
                d.cursor_fill()
            } else {
                blend(d.theme().accent, d.theme().bg, 1, 2)
            },
        ),
{
    reveal(Desk::backdrop);
    let marks = d.backdrop(col, row, x, y);
    crate::desk_laws::law_target_spans_selection(d, col, row);
    assert(is_fill(marks[0], x, y - 1, 35, 8));
}

/// Without a selection no cell but the cursor's has a backdrop.
pub proof fn law_plain_cells_have_no_backdrop(d: Desk, col: int, row: int, x: int, y: int)
    requires
        d.wf(),
        d.mode == Mode::Nav,
        d.sel_anchor is None,
        !(col == d.cur_col && row == d.cur_row),
    ensures
        d.backdrop(col, row, x, y).len() == 0,
        !d.lit(col, row),
{
    reveal(Desk::backdrop);
}

/// Going around a rectangle's border stays on it, starts at its upper left,
/// and moves by no more than one pixel at a step.
pub proof fn law_border_goes_around(x: int, y: int, w: int, h: int, i: int)
    requires
        w > 0,
        h > 0,
        0 <= i < 2 * (w + h),
    ensures
        ({
            let p = border_pixel(x, y, w, h, i);
            let q = border_pixel(x, y, w, h, i + 1);
            &&& x <= p.0 < x + w
            &&& y <= p.1 < y + h
            &&& p.0 == x || p.0 == x + w - 1 || p.1 == y || p.1 == y + h - 1
            &&& i + 1 < 2 * (w + h) ==> -1 <= q.0 - p.0 <= 1 && -1 <= q.1 - p.1 <= 1
            &&& i == 0 ==> p == (x, y)
            &&& i == w - 1 ==> p == (x + w - 1, y)
            &&& i == w + h - 1 ==> p == (x + w - 1, y + h - 1)
            &&& i == 2 * w + h - 1 ==> p == (x, y + h - 1)
        }),
{
}

/// The caret stands before the character that it is before, and blinks:
/// sixteen frames later it is off if it was on, and on if it was off.
pub proof fn law_caret_blinks(d: Desk, x0: int)
    requires
        d.wf(),
        0 <= x0 <= 200,
        d.frame <= u32::MAX - 16,
    ensures
        ({
            let later = (Desk { frame: (d.frame + 16) as u32, ..d });
            &&& d.caret_bar(x0).len() + later.caret_bar(x0).len() == 1
            &&& d.caret_bar(x0).len() == 1 ==> is_fill(
                d.caret_bar(x0)[0],
                x0 + 5 * d.caret - 1,
                1,
                1,
                9,
            )
        }),
{
    assert((d.frame + 16) as int / 16 == d.frame as int / 16 + 1);
}

/// The cursor's colour goes from the accent a third of the way to the highlight
/// and back: it comes back after sixty-four frames, and halfway it turns.
pub proof fn law_cursor_breathes(d: Desk)
    requires
        d.frame <= u32::MAX - 64,
    ensures
        (Desk { frame: (d.frame + 64) as u32, ..d }).cursor_fill() == d.cursor_fill(),
        (Desk { frame: ((64 - d.frame as int % 64) % 64) as u32, ..d }).cursor_fill()
            == d.cursor_fill(),
        d.frame % 64 == 0 ==> d.cursor_fill() == d.theme().accent,
        d.frame % 64 == 32 ==> d.cursor_fill() == blend(d.theme().accent, d.theme().hot, 1, 3),
{
    let t = d.theme();
    law_blend_ends(t.accent, blend(t.accent, t.hot, 1, 3), 32);
}

// ---------------------------------------------------------------------------
// Panels
// ---------------------------------------------------------------------------

/// Cutting a quotient off toward zero: never farther from zero than the
/// quotient, and less than one short of it.
pub proof fn law_toward_zero(a: int, b: int)
    requires
        b > 0,
    ensures
        ({
            let q = toward_zero(a, b);
            &&& magnitude(q) * b <= magnitude(a) < (magnitude(q) + 1) * b
            &&& q != 0 ==> (q < 0 <==> a < 0)
        }),
{
    let m = magnitude(a);
    let k = m / b;
    assert(k * b <= m < (k + 1) * b && 0 <= k) by (nonlinear_arith)
        requires
            k == m / b,
            b > 0,
            m >= 0,
    ;
}

/// The readout of a selection names its corners and tells the sum of the
/// numbers in it, how many they are and, if there are any, their average.
pub proof fn law_readout_tells_stats(d: Desk)
    requires
        d.wf(),
    ensures
        ({
            let t = d.target();
            let (sum, count) = d.grid.stats(t.0 as int, t.1 as int, t.2 as int, t.3 as int);
            let head = range_name(t.0 as int, t.1 as int, t.2 as int, t.3 as int) + utf8("  SUM ")
                + fitted_text(sum as int, 10);
            let tail = utf8("  N ") + dec(count);
            let line = d.selection_line();
            &&& count == 0 && (head + tail).len() <= 64 ==> line == head + tail
            &&& count > 0 ==> exists|avg: int|
                {
                    &&& #[trigger] magnitude(avg) * count <= magnitude(sum as int) < (magnitude(avg)
                        + 1) * count
                    &&& avg != 0 ==> (avg < 0 <==> sum < 0)
                    &&& {
                        let whole = head + utf8("  AVG ") + fitted_text(avg, 8) + tail;
                        whole.len() <= 64 ==> line == whole
                    }
                }
        }),
{
    let t = d.target();
    let (sum, count) = d.grid.stats(t.0 as int, t.1 as int, t.2 as int, t.3 as int);
    let head = range_name(t.0 as int, t.1 as int, t.2 as int, t.3 as int) + utf8("  SUM ")
        + fitted_text(sum as int, 10);
    let tail = utf8("  N ") + dec(count);
    if count > 0 {
        let avg = toward_zero(sum as int, count as int);
        law_toward_zero(sum as int, count as int);
        let whole = head + utf8("  AVG ") + fitted_text(avg, 8) + tail;
        assert(head + (utf8("  AVG ") + fitted_text(avg, 8)) + utf8("  N ") + dec(count)
            =~= whole);
        assert(magnitude(avg) * count <= magnitude(sum as int));
    } else {
        assert(head + Seq::<u8>::empty() + utf8("  N ") + dec(count) =~= head + tail);
    }
}

proof fn lemma_files_upto(d: Desk, i: int, n: int, x: int, y: int, s: Seq<u8>)
    requires
        0 <= i < n,
        shows_text(d.file_entry(i), x, y, s),
    ensures
        shows_text(d.file_entries(n), x, y, s),
    decreases n,
{
    if i < n - 1 {
        lemma_files_upto(d, i, n - 1, x, y, s);
    }
    lemma_text_joined(d.file_entries(n - 1), d.file_entry(n - 1), x, y, s);
}

/// The browser lists every save, one below the other: its name without the
/// prefix, as far as it fits, and its size in blocks.
pub proof fn law_browser_lists_saves(d: Desk, i: int)
    requires
        d.wf(),
        0 <= i < d.files.len(),
    ensures
        shows_text(d.browse_screen(), 40, 30 + 14 * i, truncated(shown_name(d.files[i].0), 16)),
        shows_text(d.browse_screen(), 236, 30 + 14 * i, dec(d.files[i].1 as nat)),
        i == d.browse_sel ==> shows_fill(d.file_entry(i), 32, 29 + 14 * i, 244, 11),
        i != d.browse_sel ==> d.file_entry(i).len() == 3,
{
    reveal(Desk::browse_screen);
    let y = 30 + 14 * i;
    let name = truncated(shown_name(d.files[i].0), 16);
    let size = dec(d.files[i].1 as nat);
    let n = d.files.len() as int;
    let entry = d.file_entry(i);
    let k: int = if i == d.browse_sel {
        1
    } else {
        0
    };
    assert(is_text(entry[k], 40, y, name));
    assert(is_text(entry[k + 1], 236, y, size));
    if i == d.browse_sel {
        assert(is_fill(entry[0], 32, y - 1, 244, 11));
    }
    lemma_first_text(entry, k, 40, y, name);
    lemma_first_text(entry, k + 1, 236, y, size);
    lemma_files_upto(d, i, n, 40, y, name);
    lemma_files_upto(d, i, n, 236, y, size);
    let t = d.theme();
    let head = seq![
        fill_mark(0, 0, 320, 12, t.panel),
        text_mark(4, 2, utf8("LOAD FROM CARD"), t.good),
    ];
    let all = d.file_entries(n);
    let bar = crate::panels::cmdbar(t, utf8("D-Pad:Move  X:Load  SQ:Delete  O:Back"), utf8(""));
    lemma_text_joined(head, all, 40, y, name);
    lemma_text_joined(head + all, bar, 40, y, name);
    lemma_text_joined(head + all + bar, d.toast_box(), 40, y, name);
    lemma_text_joined(head, all, 236, y, size);
    lemma_text_joined(head + all, bar, 236, y, size);
    lemma_text_joined(head + all + bar, d.toast_box(), 236, y, size);
}

proof fn lemma_slots_upto(d: Desk, i: int, n: int, x: int, y: int, s: Seq<u8>)
    requires
        0 <= i < n,
        shows_text(d.cmd_slot(i), x, y, s),
    ensures
        shows_text(d.cmd_slots(n), x, y, s),
    decreases n,
{
    if i < n - 1 {
        lemma_slots_upto(d, i, n - 1, x, y, s);
    }
    lemma_text_joined(d.cmd_slots(n - 1), d.cmd_slot(n - 1), x, y, s);
}

/// The command menu shows every command of the twelve rows from its first one
/// in view on, the one under the cursor over a filled bar.
pub proof fn law_menu_shows_commands(d: Desk, i: int)
    requires
        d.wf(),
        cmd_at(i) is Some,
        d.menu_top <= i < d.menu_top + 12,
    ensures
        shows_text(
            d.cmd_panel(),
            96,
            48 + 13 * (i - d.menu_top),
            cmd_label(cmd_at(i)->Some_0),
        ),
        i == d.set_sel ==> shows_fill(
            d.cmd_slot(i - d.menu_top),
            91,
            47 + 13 * (i - d.menu_top),
            166,
            11,
        ),
{
    reveal(Desk::cmd_panel);
    let slot = i - d.menu_top;
    let y = 48 + 13 * slot;
    let s = cmd_label(cmd_at(i)->Some_0);
    let marks = d.cmd_slot(slot);
    if i == d.set_sel {
        assert(is_fill(marks[0], 91, y - 1, 166, 11));
        assert(is_text(marks[1], 96, y, s));
        lemma_first_text(marks, 1, 96, y, s);
    } else {
        assert(is_text(marks[0], 96, y, s));
        lemma_first_text(marks, 0, 96, y, s);
    }
    lemma_slots_upto(d, slot, CMD_VIS as int, 96, y, s);
    let t = d.theme();
    let at = frac_text(commands_before(d.set_sel + 1), commands_before(CMD_ROWS as int));
    let head = seq![
        fill_mark(86, 26, 176, 192, t.panel),
        fill_mark(86, 26, 176, 2, t.accent),
        text_mark(96, 34, utf8("MENU"), t.good),
        text_mark(258 - at.len() * 5, 34, at, t.dim),
    ];
    let foot = seq![text_mark(96, 207, utf8("X:Select  O:Back"), t.dim)];
    lemma_text_joined(head, d.cmd_slots(CMD_VIS as int), 96, y, s);
    lemma_text_joined(head + d.cmd_slots(CMD_VIS as int), foot, 96, y, s);
}

/// The menu's place indicator counts commands: going down to the next command
/// adds one to it, whatever separators lie between.
pub proof fn law_indicator_counts_commands(a: int, b: int)
    requires
        0 <= a < b < CMD_ROWS,
        cmd_at(a) is Some,
        cmd_at(b) is Some,
        forall|i: int| a < i < b ==> #[trigger] cmd_at(i) is None,
    ensures
        commands_before(b + 1) == commands_before(a + 1) + 1,
        commands_before(0) == 0,
{
    lemma_no_commands(a + 1, b);
}

proof fn lemma_no_commands(a: int, b: int)
    requires
        0 <= a <= b,
        forall|i: int| a <= i < b ==> #[trigger] cmd_at(i) is None,
    ensures
        commands_before(b) == commands_before(a),
    decreases b - a,
{
    if a < b {
        lemma_no_commands(a, b - 1);
        assert(cmd_at(b - 1) is None);
    }
}

/// A message stands in the middle of the screen, eight pixels of its box on
/// either side of the text, in the text's full colour until it fades in its
/// last forty ticks; without a message there is no box.
pub proof fn law_message_is_centred(d: Desk)
    requires
        d.wf(),
    ensures
        d.status_ttl == 0 || d.status.len() == 0 ==> d.toast_box().len() == 0,
        d.status_ttl >= 40 && d.status.len() > 0 ==> (d.toast_box()[2] matches Mark::Text {
            x,
            y,
            s,
            scale,
            tint,
        } && tint == inked(d.theme().text)),
        d.status_ttl > 0 && d.status.len() > 0 ==> {
            let w = 5 * d.status.len() as int + 16;
            exists|x: int|
                {
                    &&& #[trigger] shows_fill(d.toast_box(), x, 190, w, 14)
                    &&& shows_text(d.toast_box(), x + 8, 194, d.status)
                    &&& 319 <= 2 * x + w <= 320
                }
        },
{
    reveal(Desk::toast_box);
    law_blend_ends(d.theme().bg, d.theme().text, 1);
    if d.status_ttl > 0 && d.status.len() > 0 {
        let w = 5 * d.status.len() as int + 16;
        let x = (320 - w) / 2;
        let marks = d.toast_box();
        assert(is_fill(marks[0], x, 190, w, 14));
        assert(is_text(marks[2], x + 8, 194, d.status));
        assert(shows_fill(marks, x, 190, w, 14));
        lemma_first_text(marks, 2, x + 8, 194, d.status);
    }
}

// ---------------------------------------------------------------------------
// While typing
// ---------------------------------------------------------------------------

/// While a range is being pointed at, every cell of it is drawn over a filled
/// rectangle.
pub proof fn law_picked_range_is_filled(d: Desk, col: int, row: int, x: int, y: int)
    requires
        d.wf(),
        d.mode == Mode::Pick,
        0 <= x <= 320,
        0 <= y <= 240,
        d.pick_anchor matches Some(a) && amid(a.0 as int, col, d.pick_col as int) && amid(
            a.1 as int,
            row,
            d.pick_row as int,
        ),
    ensures
        shows_fill(d.backdrop(col, row, x, y), x, y - 1, 35, 8),
        d.lit(col, row),
{
    reveal(Desk::backdrop);
    let marks = d.backdrop(col, row, x, y);
    assert(d.shaded() is Some);
    assert(is_fill(marks[0], x, y - 1, 35, 8));
}

/// While a formula is typed, every cell that it is seen to name is drawn over a
/// filled rectangle.
pub proof fn law_named_cell_is_filled(d: Desk, k: int, col: int, row: int, x: int, y: int)
    requires
        d.wf(),
        d.mode == Mode::Edit,
        !d.saving,
        is_formula(d.edit),
        0 <= x <= 320,
        0 <= y <= 240,
        ({
            let rects = scanned(d.edit, 0, Seq::empty());
            0 <= k < rects.len() && covers(rects[k], col, row)
        }),
    ensures
        shows_fill(d.backdrop(col, row, x, y), x, y - 1, 35, 8),
        d.lit(col, row),
{
    reveal(Desk::backdrop);
    let marks = d.backdrop(col, row, x, y);
    law_first_rectangle_colours(d.typed_rects(), 0, col, row);
    assert(is_fill(marks[0], x, y - 1, 35, 8));
}

/// While a formula is typed its result stands behind it: the value of what is
/// typed so far, read against what the sheet shows, or a question mark.
pub proof fn law_preview_stands_behind_text(d: Desk)
    requires
        d.wf(),
        d.mode == Mode::Edit,
        !d.saving,
        is_formula(d.edit),
    ensures
        ({
            let name = cell_name(d.cur_col as int, d.cur_row as int);
            let x = 8 + 5 * (name.len() as int + 1);
            let (v, kind) = classified(d.edit, vals(d.grid.results), nums(d.grid.results));
            &&& shows_text(d.chrome(), x, 2, d.edit)
            &&& shows_text(
                d.chrome(),
                x + 5 * d.edit.len() + 20,
                2,
                if kind == Kind::Num {
                    value_text(v as int)
                } else {
                    utf8("?")
                },
            )
        }),
{
    reveal(Desk::chrome);
    let tag = cell_name(d.cur_col as int, d.cur_row as int).push(COLON);
    lemma_tag_len(d.cur_col as int, d.cur_row as int);
    let cx = 8 + 5 * tag.len() as int;
    let px = cx + 5 * d.edit.len() + 10;
    let (v, kind) = classified(d.edit, vals(d.grid.results), nums(d.grid.results));
    let s = if kind == Kind::Num {
        value_text(v as int)
    } else {
        utf8("?")
    };
    let preview = d.preview_text(px);
    assert(is_text(preview[1], px + 10, 2, s));
    lemma_first_text(preview, 1, px + 10, 2, s);
    let t = d.theme();
    let first = seq![text_mark(4, 2, tag, t.good)];
    let typed = seq![text_mark(cx, 2, d.edit, t.text)];
    assert(is_text(typed[0], cx, 2, d.edit));
    lemma_first_text(typed, 0, cx, 2, d.edit);
    let caret = d.caret_bar(cx);
    lemma_text_joined(typed, caret, cx, 2, d.edit);
    lemma_text_joined(typed + caret, preview, cx, 2, d.edit);
    lemma_text_joined(typed + caret, preview, px + 10, 2, s);
    let rest = typed + caret + preview;
    lemma_text_joined(first, rest, cx, 2, d.edit);
    lemma_text_joined(first, rest, px + 10, 2, s);
    let bar = d.formula_bar();
    assert(bar == first + rest);
    let head = seq![fill_mark(0, 0, 320, 10, t.panel)];
    let cols = d.col_headers(d.active().0 as int);
    lemma_text_joined(head, bar, cx, 2, d.edit);
    lemma_text_joined(head + bar, cols, cx, 2, d.edit);
    lemma_text_joined(head, bar, px + 10, 2, s);
    lemma_text_joined(head + bar, cols, px + 10, 2, s);
}

// ---------------------------------------------------------------------------
// The frame
// ---------------------------------------------------------------------------

/// The columns are parted by lines just before each of them.
pub proof fn law_lines_part_columns(d: Desk, n: int, k: int)
    requires
        0 <= k < n <= 9,
    ensures
        d.separators(n).len() == n,
        is_fill(d.separators(n)[k], 15 + 35 * k, 21, 1, 192),
    decreases n,
{
    lemma_separators_len(d, n);
    lemma_separators_len(d, n - 1);
    if k < n - 1 {
        law_lines_part_columns(d, n - 1, k);
    }
}

proof fn lemma_separators_len(d: Desk, n: int)
    requires
        0 <= n,
    ensures
        d.separators(n).len() == n,
    decreases n,
{
    if n > 0 {
        lemma_separators_len(d, n - 1);
    }
}

/// Above the keyboard the grid keeps as many whole rows as there is room for.
pub proof fn law_band_keeps_whole_rows(kbd_y0: int)
    requires
        kbd_y0 >= 35,
    ensures
        (band_above(kbd_y0) + 1 - 21) % 8 == 0,
        band_above(kbd_y0) + 1 <= kbd_y0 - 14 < band_above(kbd_y0) + 9,
{
}

proof fn lemma_entries_upto(d: Desk, i: int, n: int, x: int, y: int, s: Seq<u8>)
    requires
        0 <= i < n,
        shows_text(d.menu_entry(i), x, y, s),
    ensures
        shows_text(d.menu_entries(n), x, y, s),
    decreases n,
{
    if i < n - 1 {
        lemma_entries_upto(d, i, n - 1, x, y, s);
    }
    lemma_text_joined(d.menu_entries(n - 1), d.menu_entry(n - 1), x, y, s);
}

/// The start menu lists the samples one below the other, and the saves under
/// them if there are any; the one under the cursor stands over a filled bar.
pub proof fn law_start_menu_lists(d: Desk, i: int)
    requires
        d.wf(),
        0 <= i < menu_count(d.has_save),
    ensures
        shows_text(
            d.menu_screen(),
            104,
            86 + 15 * i,
            if i < SAMPLES {
                sample_label(i)
            } else {
                utf8("Browse saves")
            },
        ),
        i == d.menu_sel ==> shows_fill(d.menu_entry(i), 94, 85 + 15 * i, 132, 11),
        i != d.menu_sel ==> d.menu_entry(i).len() == 1,
{
    reveal(Desk::menu_screen);
    let y = 86 + 15 * i;
    let s = if i < SAMPLES {
        sample_label(i)
    } else {
        utf8("Browse saves")
    };
    let marks = d.menu_entry(i);
    if i == d.menu_sel {
        assert(is_fill(marks[0], 94, y - 1, 132, 11));
        assert(is_text(marks[1], 104, y, s));
        lemma_first_text(marks, 1, 104, y, s);
    } else {
        assert(is_text(marks[0], 104, y, s));
        lemma_first_text(marks, 0, 104, y, s);
    }
    let n = menu_count(d.has_save);
    lemma_entries_upto(d, i, n, 104, y, s);
    let t = d.theme();
    let head = seq![
        Mark::Text { x: 112, y: 28, s: utf8("PSXcel"), scale: 3, tint: inked(t.good) },
        fill_mark(40, 58, 240, 1, t.accent),
        text_mark(60, 64, utf8("a spreadsheet for the PS1"), t.dim),
    ];
    let bar = crate::panels::cmdbar(t, utf8("D-Pad:Move   X:Open"), utf8(""));
    lemma_text_joined(head, d.menu_entries(n), 104, y, s);
    lemma_text_joined(head + d.menu_entries(n), bar, 104, y, s);
}

/// Each mode draws its own screen: what stands on that stands in the frame.
pub proof fn law_frame_shows_screen(
    d: Desk,
    kbd_y0: int,
    label_w: int,
    x: int,
    y: int,
    s: Seq<u8>,
)
    requires
        match d.mode {
            Mode::Menu => shows_text(d.menu_screen(), x, y, s),
            Mode::Browse => shows_text(d.browse_screen(), x, y, s),
            Mode::Confirm => shows_text(d.browse_screen(), x, y, s) || shows_text(
                d.confirm_box(),
                x,
                y,
                s,
            ),
            Mode::Chart => shows_text(d.chart_screen(label_w), x, y, s),
            Mode::Help => shows_text(d.help_screen(), x, y, s),
            _ => shows_text(d.grid_view(kbd_y0), x, y, s) || shows_text(d.chrome(), x, y, s)
                || shows_text(d.over_grid(), x, y, s) || shows_text(d.toast_box(), x, y, s),
        },
    ensures
        shows_text(d.frame_drawn(kbd_y0, label_w), x, y, s),
{
    let t = d.theme();
    let base = seq![fill_mark(0, 0, 320, 240, t.bg)];
    match d.mode {
        Mode::Menu => {
            lemma_text_joined(base, d.menu_screen(), x, y, s);
        },
        Mode::Browse => {
            lemma_text_joined(base, d.browse_screen(), x, y, s);
        },
        Mode::Confirm => {
            lemma_text_joined(d.browse_screen(), d.confirm_box(), x, y, s);
            lemma_text_joined(base, d.browse_screen() + d.confirm_box(), x, y, s);
        },
        Mode::Chart => {
            let bar = crate::panels::cmdbar(
                t,
                chart_hint(kind_label(next_kind(d.chart_kind))),
                utf8(""),
            );
            lemma_text_joined(d.chart_screen(label_w), bar, x, y, s);
            lemma_text_joined(base, d.chart_screen(label_w) + bar, x, y, s);
        },
        Mode::Help => {
            lemma_text_joined(base, d.help_screen(), x, y, s);
        },
        _ => {
            let a = d.chrome();
            let b = d.grid_view(kbd_y0);
            let c = d.over_grid();
            let e = d.toast_box();
            lemma_text_joined(a, b, x, y, s);
            lemma_text_joined(a + b, c, x, y, s);
            lemma_text_joined(a + b + c, e, x, y, s);
            lemma_text_joined(base, a + b + c + e, x, y, s);
        },
    }
}

/// A cell's text has the colour of what it is drawn over: the accent's text
/// colour on a backdrop, and else the text's own, or that of an error.
pub proof fn law_cell_text_colour(d: Desk, i: int, x: int, y: int, sel: bool)
    requires
        d.grid.texts[i].len() > 0,
    ensures
        ({
            let marks = d.cell_text(i, x, y, sel);
            let t = d.theme();
            &&& marks.len() == 1
            &&& marks[0] matches Mark::Text { x: mx, y: my, s, scale, tint } && tint == inked(
                if sel {
                    t.accent_text
                } else if d.grid.results[i].1 == Kind::Error {
                    t.bad
                } else {
                    t.text
                },
            )
        }),
{
    reveal(Desk::cell_text);
}

/// Of the steps around a border every other pair is drawn: a march of two steps
/// draws just the others, and one of four the same again. A dash starts at the
/// pixel of its step.
pub proof fn law_dashes_alternate(x: int, y: int, w: int, h: int, march: int, c: Rgb, i: int)
    requires
        0 <= w,
        0 <= h,
        0 <= march,
        0 <= i <= 2 * (w + h),
        i % 2 == 0,
    ensures
        ({
            let now = dashes(x, y, w, h, march, c, i);
            let later = dashes(x, y, w, h, march + 2, c, i);
            let p = border_pixel(x, y, w, h, i);
            &&& 2 * (now.len() + later.len()) == 2 * (w + h) - i
            &&& dashes(x, y, w, h, march + 4, c, i) == now
            &&& i < 2 * (w + h) ==> (now.len() > 0 && now[0] == fill_mark(p.0, p.1, 2, 1, c)) || (
            later.len() > 0 && later[0] == fill_mark(p.0, p.1, 2, 1, c))
        }),
    decreases 2 * (w + h) - i,
{
    if i < 2 * (w + h) {
        law_dashes_alternate(x, y, w, h, march, c, i + 2);
        assert((i + march + 2) / 2 == (i + march) / 2 + 1);
        assert((i + march + 4) / 2 == (i + march) / 2 + 2);
    }
}

/// In the grid the bar shows, behind a formula that has a value, that value in
/// full.
pub proof fn law_bar_shows_result(d: Desk)
    requires
        d.wf(),
        d.mode == Mode::Nav,
        !d.saving,
        is_formula(d.grid.texts[26 * d.cur_row + d.cur_col]),
        d.grid.results[26 * d.cur_row + d.cur_col].1 == Kind::Num,
    ensures
        ({
            let name = cell_name(d.cur_col as int, d.cur_row as int);
            let raw = d.grid.texts[26 * d.cur_row + d.cur_col];
            shows_text(
                d.chrome(),
                8 + 5 * (name.len() as int + 1) + 5 * raw.len() + 20,
                2,
                value_text(d.grid.results[26 * d.cur_row + d.cur_col].0 as int),
            )
        }),
{
    reveal(Desk::chrome);
    let tag = cell_name(d.cur_col as int, d.cur_row as int).push(COLON);
    lemma_tag_len(d.cur_col as int, d.cur_row as int);
    let raw = d.grid.texts[26 * d.cur_row + d.cur_col];
    let s = value_text(d.grid.results[26 * d.cur_row + d.cur_col].0 as int);
    let bar = d.formula_bar();
    let x = 8 + 5 * tag.len() as int + 5 * raw.len() + 20;
    assert(is_text(bar[3], x, 2, s));
    lemma_first_text(bar, 3, x, 2, s);
    let head = seq![fill_mark(0, 0, 320, 10, d.theme().panel)];
    let cols = d.col_headers(d.active().0 as int);
    lemma_text_joined(head, bar, x, 2, s);
    lemma_text_joined(head + bar, cols, x, 2, s);
}

/// The question before a deletion names the save under the cursor.
pub proof fn law_question_names_save(d: Desk)
    requires
        d.wf(),
        d.files.len() > 0,
    ensures
        shows_text(
            d.confirm_box(),
            62,
            116,
            truncated(shown_name(d.files[d.browse_sel as int].0), 38),
        ),
{
    reveal(Desk::confirm_box);
    let s = truncated(shown_name(d.files[d.browse_sel as int].0), 38);
    let marks = d.confirm_box();
    assert(is_text(marks[3], 62, 116, s));
}

} // verus!
