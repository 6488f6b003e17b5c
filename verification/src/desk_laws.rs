//! Laws of the interface: what copying, pasting, typing and moving about do.

use vstd::prelude::*;

use crate::card::{filename, saves_among, CardError};
use crate::editor::{span_cells, span_of, steps_ok, Desk};
use crate::formula::is_formula;
use crate::grid::{
    index_of, lemma_rect_cells_len, on_grid, rect_cells, row_cells, Kind, COLS, INPUT_CAP, NCELLS,
    ROWS,
};
use crate::labels::{cell_name, lemma_utf8_ascii, range_name, utf8};
use crate::modes::{cmd_at, next_kind, Cmd, Mode, CMD_ROWS};
use crate::moves::{
    along, law_carried_text_moves, law_clear_empties_rectangle, law_cols_close_up,
    law_cols_make_room, law_fill_moves_references, law_last_col_is_empty, law_last_row_is_empty,
    law_new_col_is_empty, law_new_row_is_empty, law_rows_close_up, law_rows_make_room,
    law_set_changes_one_cell, says_moved,
};
use crate::ranges::amid;
use crate::refs::Shift;
use crate::samples::{opening_chart, sample_grid};
use crate::save::{decoded, encoded, law_load_gives_back_save, loaded};
use crate::sheet::Grid;
use crate::update::{
    cols_deleted, cols_inserted, eased, next_command, rows_deleted, rows_inserted, window_top,
    Input, Key, Wish,
};

verus! {

// ---------------------------------------------------------------------------
// The target
// ---------------------------------------------------------------------------

/// Whether a cell is between two corners.
pub open spec fn in_target(d: Desk, col: int, row: int) -> bool {
    match d.sel_anchor {
        Some(a) => amid(a.0 as int, col, d.cur_col as int) && amid(
            a.1 as int,
            row,
            d.cur_row as int,
        ),
        None => col == d.cur_col && row == d.cur_row,
    }
}

/// The rectangle that an operation acts on has the anchor and the cursor in
/// opposite corners, or is the cursor's cell alone.
pub proof fn law_target_spans_selection(d: Desk, col: int, row: int)
    ensures
        ({
            let t = d.target();
            in_target(d, col, row) <==> t.0 <= col <= t.2 && t.1 <= row <= t.3
        }),
{
}

/// The cells of a rectangle are listed row after row.
proof fn lemma_rect_at(c0: int, r0: int, c1: int, r1: int, dc: int, dr: int)
    requires
        0 <= dc <= c1 - c0,
        0 <= dr <= r1 - r0,
    ensures
        ({
            let w = c1 - c0 + 1;
            let k = dr * w + dc;
            &&& 0 <= k < rect_cells(c0, r0, c1, r1).len()
            &&& rect_cells(c0, r0, c1, r1)[k] == index_of(c0 + dc, r0 + dr)
        }),
    decreases r1 - r0 - dr,
{
    let w = c1 - c0 + 1;
    let k = dr * w + dc;
    let above = rect_cells(c0, r0, c1, r1 - 1);
    let line = row_cells(c0, c1, r1);
    lemma_rect_cells_len(c0, r0, c1, r1 - 1);
    assert(0 <= dr * w) by (nonlinear_arith)
        requires
            0 <= dr,
            0 < w,
    ;
    if dr == r1 - r0 {
        assert(above.len() == dr * w) by (nonlinear_arith)
            requires
                above.len() == w * (r1 - 1 - r0 + 1),
                dr == r1 - r0,
        ;
        assert((above + line)[k] == line[dc]);
    } else {
        lemma_rect_at(c0, r0, c1, r1 - 1, dc, dr);
        assert((above + line)[k] == above[k]);
    }
}

// ---------------------------------------------------------------------------
// Copying, cutting, clearing and pasting
// ---------------------------------------------------------------------------

/// Copying takes the text of every cell of the target onto the clipboard, row
/// after row, if there is room for them all, and changes nothing of the sheet.
pub proof fn law_copy_takes_target(d: Desk, dc: int, dr: int)
    requires
        d.wf(),
        ({
            let t = d.target();
            &&& 0 <= dc <= t.2 - t.0
            &&& 0 <= dr <= t.3 - t.1
            &&& (t.2 - t.0 + 1) * (t.3 - t.1 + 1) <= 64
        }),
    ensures
        ({
            let t = d.target();
            let c = d.copied();
            &&& c.clip_w == t.2 - t.0 + 1
            &&& c.clip_h == t.3 - t.1 + 1
            &&& c.clip_col == t.0
            &&& c.clip_row == t.1
            &&& 0 <= dr * c.clip_w + dc < c.clip.len()
            &&& c.clip.len() == c.clip_w * c.clip_h
            &&& c.clip[dr * c.clip_w + dc] == d.grid.texts[26 * (t.1 + dr) + t.0 + dc]
            &&& c.grid == d.grid
            &&& c.history == d.history
            &&& c.cur_col == d.cur_col && c.cur_row == d.cur_row
            &&& c.sel_anchor == d.sel_anchor
            &&& !c.status_bad
        }),
{
    reveal(Desk::copied);
    reveal(Desk::toasted);
    let t = d.target();
    let w = t.2 - t.0 + 1;
    let h = t.3 - t.1 + 1;
    lemma_rect_cells_len(t.0 as int, t.1 as int, t.2 as int, t.3 as int);
    lemma_rect_at(t.0 as int, t.1 as int, t.2 as int, t.3 as int, dc, dr);
    let n = span_cells(t).len() as int;
    assert(n / w == h) by (nonlinear_arith)
        requires
            n == w * h,
            w > 0,
    ;
    assert(w * h >= 1) by (nonlinear_arith)
        requires
            w >= 1,
            h >= 1,
    ;
}

/// A copy that is too large for the clipboard keeps whole rows of it, as many
/// as there is room for, and says so.
pub proof fn law_large_copy_is_clipped(d: Desk, dc: int, dr: int)
    requires
        d.wf(),
        ({
            let t = d.target();
            &&& 0 <= dc <= t.2 - t.0
            &&& 0 <= dr <= t.3 - t.1
            &&& (t.2 - t.0 + 1) * (t.3 - t.1 + 1) > 64
        }),
    ensures
        ({
            let t = d.target();
            let c = d.copied();
            &&& c.clip.len() == 64
            &&& c.clip_w == t.2 - t.0 + 1
            &&& c.clip_w * c.clip_h <= 64 < c.clip_w * (c.clip_h + 1)
            &&& c.clip_col == t.0 && c.clip_row == t.1
            &&& dr * c.clip_w + dc < 64 ==> c.clip[dr * c.clip_w + dc] == d.grid.texts[26 * (t.1
                + dr) + t.0 + dc]
            &&& c.status_bad
            &&& c.grid == d.grid
        }),
{
    reveal(Desk::copied);
    reveal(Desk::toasted);
    let t = d.target();
    let w = t.2 - t.0 + 1;
    lemma_rect_cells_len(t.0 as int, t.1 as int, t.2 as int, t.3 as int);
    lemma_rect_at(t.0 as int, t.1 as int, t.2 as int, t.3 as int, dc, dr);
    let h = 64int / w;
    assert(w * h <= 64 < w * (h + 1)) by (nonlinear_arith)
        requires
            h == 64int / w,
            w > 0,
    ;
}

/// What was copied and then pasted elsewhere stands there, each text at its
/// place in the rectangle and its references moved as far as it was carried;
/// no other text changes.
pub proof fn law_paste_lays_down_copy(
    d: Desk,
    to_col: usize,
    to_row: usize,
    col: int,
    row: int,
)
    requires
        d.wf(),
        to_col < COLS,
        to_row < ROWS,
        on_grid(col, row),
        ({
            let t = d.target();
            (t.2 - t.0 + 1) * (t.3 - t.1 + 1) <= 64
        }),
    ensures
        ({
            let t = d.target();
            let there = (Desk {
                cur_col: to_col,
                cur_row: to_row,
                sel_anchor: None,
                ..d.copied()
            });
            let now = there.pasted().grid.texts[26 * row + col];
            let dc = col - to_col;
            let dr = row - to_row;
            if 0 <= dc <= t.2 - t.0 && 0 <= dr <= t.3 - t.1 {
                says_moved(
                    d.grid.texts[26 * (t.1 + dr) + t.0 + dc],
                    now,
                    along(to_col - t.0),
                    along(to_row - t.1),
                )
            } else {
                now == d.grid.texts[26 * row + col]
            }
        }),
{
    reveal(Desk::pasted);
    reveal(Desk::pasted_block);
    reveal(Desk::snapshotted);
    reveal(Desk::toasted);
    let t = d.target();
    let c = d.copied();
    law_copy_takes_target(d, 0, 0);
    let dc = col - to_col;
    let dr = row - to_row;
    let i = 26 * row + col;
    assert(i / COLS as int == row && i % COLS as int == col);
    let there = (Desk { cur_col: to_col, cur_row: to_row, sel_anchor: None, ..c });
    assert(there.target() == (to_col, to_row, to_col, to_row));
    assert(c.clip[0int] == d.grid.texts[26 * t.1 + t.0]);
    let inside = 0 <= dc <= t.2 - t.0 && 0 <= dr <= t.3 - t.1;
    if inside {
        law_copy_takes_target(d, dc, dr);
    }
    if c.clip_w == 1 && c.clip_h == 1 {
        law_fill_moves_references(
            c.grid,
            c.clip_col as int,
            c.clip_row as int,
            c.clip[0],
            to_col as int,
            to_row as int,
            to_col as int,
            to_row as int,
            col,
            row,
        );
    } else if inside {
        law_carried_text_moves(c.clip[dr * c.clip_w + dc], to_col - t.0, to_row - t.1);
    }
}

/// A single copied cell fills the whole selection that it is pasted into, the
/// references of each cell moved by the way from the source to it.
pub proof fn law_paste_of_one_cell_fills(d: Desk, col: int, row: int)
    requires
        d.wf(),
        d.clip_w == 1,
        d.clip_h == 1,
        d.clip[0].len() <= INPUT_CAP,
        on_grid(col, row),
    ensures
        d.pasted().sel_anchor is None,
        d.pasted().clip == d.clip,
        d.pasted().cur_col == d.cur_col && d.pasted().cur_row == d.cur_row,
        ({
            let now = d.pasted().grid.texts[26 * row + col];
            if in_target(d, col, row) {
                says_moved(d.clip[0], now, along(col - d.clip_col), along(row - d.clip_row))
            } else {
                now == d.grid.texts[26 * row + col]
            }
        }),
{
    reveal(Desk::pasted);
    reveal(Desk::snapshotted);
    reveal(Desk::toasted);
    let t = d.target();
    law_target_spans_selection(d, col, row);
    law_fill_moves_references(
        d.grid,
        d.clip_col as int,
        d.clip_row as int,
        d.clip[0],
        t.0 as int,
        t.1 as int,
        t.2 as int,
        t.3 as int,
        col,
        row,
    );
}

/// With nothing copied a paste changes nothing of the sheet, and says so.
pub proof fn law_empty_clipboard_pastes_nothing(d: Desk)
    requires
        d.clip_w == 0 || d.clip_h == 0,
    ensures
        d.pasted().grid == d.grid,
        d.pasted().history == d.history,
        d.pasted().sel_anchor == d.sel_anchor,
        d.pasted().status_bad,
{
    reveal(Desk::pasted);
    reveal(Desk::toasted);
}

/// Clearing empties every cell of the target and no other, and drops the
/// selection.
pub proof fn law_clear_empties_target(d: Desk, col: int, row: int)
    requires
        d.wf(),
        on_grid(col, row),
    ensures
        ({
            let now = d.cleared();
            let i = 26 * row + col;
            &&& now.sel_anchor is None
            &&& now.cur_col == d.cur_col && now.cur_row == d.cur_row
            &&& now.clip == d.clip
            &&& if in_target(d, col, row) {
                now.grid.texts[i].len() == 0 && now.grid.results[i] == (0i64, Kind::Empty)
            } else {
                now.grid.texts[i] == d.grid.texts[i]
            }
        }),
{
    reveal(Desk::cleared);
    reveal(Desk::snapshotted);
    let t = d.target();
    law_target_spans_selection(d, col, row);
    law_clear_empties_rectangle(
        d.grid,
        t.0 as int,
        t.1 as int,
        t.2 as int,
        t.3 as int,
        col,
        row,
    );
}

/// Cutting puts onto the clipboard what copying would, and leaves the sheet
/// that clearing would.
pub proof fn law_cut_copies_and_clears(d: Desk)
    requires
        d.wf(),
    ensures
        d.cut().clip == d.copied().clip,
        d.cut().clip_w == d.copied().clip_w,
        d.cut().clip_h == d.copied().clip_h,
        d.cut().clip_col == d.copied().clip_col,
        d.cut().clip_row == d.copied().clip_row,
        d.cut().grid == d.cleared().grid,
        d.cut().sel_anchor is None,
        d.cut().history == d.cleared().history,
{
    reveal(Desk::cut);
    reveal(Desk::copied);
    reveal(Desk::cleared);
    reveal(Desk::snapshotted);
    reveal(Desk::toasted);
}

// ---------------------------------------------------------------------------
// Typing
// ---------------------------------------------------------------------------

/// Opening a cell and finishing without typing keeps every text of the sheet;
/// starting afresh and finishing empties the cell.
pub proof fn law_finish_without_typing(d: Desk)
    requires
        d.wf(),
    ensures
        d.editing(false).committed().grid.texts == d.grid.texts,
        d.editing(false).committed().mode == Mode::Nav,
        d.editing(true).committed().grid.texts == d.grid.texts.update(
            26 * d.cur_row + d.cur_col,
            Seq::<u8>::empty(),
        ),
{
    reveal(Desk::editing);
    reveal(Desk::committed);
    reveal(Desk::snapshotted);
    let i = index_of(d.cur_col as int, d.cur_row as int);
    assert(d.grid.texts.update(i, d.grid.texts[i]) =~= d.grid.texts);
}

/// Finishing sets the typed text as the text of the cell under the cursor, and
/// changes no other.
pub proof fn law_finish_sets_cell(d: Desk, col: int, row: int)
    requires
        d.wf(),
        !d.saving,
        on_grid(col, row),
    ensures
        d.finished().mode == Mode::Nav,
        d.finished().grid.texts[26 * row + col] == if col == d.cur_col && row == d.cur_row {
            d.edit
        } else {
            d.grid.texts[26 * row + col]
        },
{
    reveal(Desk::finished);
    reveal(Desk::committed);
    reveal(Desk::snapshotted);
    law_set_changes_one_cell(d.grid, d.cur_col as int, d.cur_row as int, d.edit, col, row);
    if col == d.cur_col && row == d.cur_row {
        assert(d.finished().grid.texts[26 * row + col] =~= d.edit);
    }
}

/// Deleting takes away the character before the caret, if there is one.
pub proof fn law_erase_takes_one(d: Desk)
    requires
        d.wf(),
    ensures
        d.caret == 0 ==> d.erased() == d,
        d.caret > 0 ==> d.erased().edit == d.edit.take(d.caret - 1) + d.edit.skip(d.caret as int)
            && d.erased().caret == d.caret - 1 && d.erased().grid == d.grid,
{
    reveal(Desk::erased);
    if d.caret > 0 {
        assert(d.erased().edit =~= d.edit.take(d.caret - 1) + d.edit.skip(d.caret as int));
    }
}

/// A full line takes no more.
pub proof fn law_full_line_stays(d: Desk, c: u8)
    requires
        d.edit.len() == 24,
    ensures
        d.typed(c).edit == d.edit,
        d.typed(c).caret == d.caret,
        d.typed(c).status_bad,
{
    reveal(Desk::typed);
    reveal(Desk::toasted);
}

/// Several characters stand before the caret in the order in which they were
/// typed.
pub proof fn law_typed_text_stands_before_caret(d: Desk, s: Seq<u8>)
    requires
        d.wf(),
        d.edit.len() + s.len() <= 24,
    ensures
        d.typed_all(s).edit == d.edit.take(d.caret as int) + s + d.edit.skip(d.caret as int),
        d.typed_all(s).caret == d.caret + s.len(),
        d.typed_all(s).grid == d.grid,
    decreases s.len(),
{
    reveal(Desk::typed);
    let front = d.edit.take(d.caret as int);
    let back = d.edit.skip(d.caret as int);
    if s.len() == 0 {
        assert(front + s + back =~= d.edit);
    } else {
        let less = s.drop_last();
        law_typed_text_stands_before_caret(d, less);
        assert((front + less + back).insert(d.caret as int + less.len() as int, s.last()) =~= front
            + s + back);
    }
}

/// Pointing at a cell types its name, and pointing at a rectangle its corners
/// with a colon between, the upper left first.
pub proof fn law_pick_types_reference(d: Desk, i: Input)
    requires
        d.wf(),
        i.cross,
        !i.step_left && !i.step_right && !i.step_up && !i.step_down && !i.square,
        d.edit.len() <= 17,
    ensures
        ({
            let now = d.pick(i);
            let front = d.edit.take(d.caret as int);
            let back = d.edit.skip(d.caret as int);
            &&& now.mode == Mode::Edit
            &&& now.pick_anchor is None
            &&& d.pick_anchor is None ==> now.edit == front + cell_name(
                d.pick_col as int,
                d.pick_row as int,
            ) + back
            &&& d.pick_anchor matches Some(a) ==> now.edit == front + range_name(
                if a.0 <= d.pick_col {
                    a.0 as int
                } else {
                    d.pick_col as int
                },
                if a.1 <= d.pick_row {
                    a.1 as int
                } else {
                    d.pick_row as int
                },
                if a.0 <= d.pick_col {
                    d.pick_col as int
                } else {
                    a.0 as int
                },
                if a.1 <= d.pick_row {
                    d.pick_row as int
                } else {
                    a.1 as int
                },
            ) + back
        }),
{
    reveal(Desk::pick);
    reveal(Desk::pick_moved);
    reveal(Desk::unpicked);
    let a = d.pick_moved(i);
    assert(a == d);
    lemma_name_len(d.pick_col as int, d.pick_row as int);
    if let Some(anchor) = d.pick_anchor {
        let s = span_of(anchor, (d.pick_col, d.pick_row));
        lemma_name_len(s.0 as int, s.1 as int);
        lemma_name_len(s.2 as int, s.3 as int);
    }
    law_typed_text_stands_before_caret(d, d.picked_name());
}

proof fn lemma_name_len(col: int, row: int)
    requires
        on_grid(col, row),
    ensures
        2 <= cell_name(col, row).len() <= 3,
{
    assert(vstd::arithmetic::power::pow(10, 2) == 100) by {
        reveal_with_fuel(vstd::arithmetic::power::pow, 3);
    }
    crate::decimal::lemma_dec_len((row + 1) as nat, 100, 2);
    crate::decimal::lemma_dec_digits((row + 1) as nat);
}

/// While L2 is held LEFT and RIGHT move the caret by one character, UP to the
/// start of the line and DOWN to its end.
pub proof fn law_caret_moves(d: Desk, i: Input)
    requires
        d.wf(),
        i.l2,
    ensures
        d.caret_moved(i).edit == d.edit,
        i.down ==> d.caret_moved(i).caret == d.edit.len(),
        i.up && !i.down ==> d.caret_moved(i).caret == 0,
        !i.up && !i.down && i.step_left && !i.step_right ==> d.caret_moved(i).caret == if d.caret
            > 0 {
            d.caret - 1
        } else {
            0
        },
        !i.up && !i.down && !i.step_left && i.step_right ==> d.caret_moved(i).caret == if d.caret
            < d.edit.len() {
            d.caret + 1
        } else {
            d.edit.len() as int
        },
        !i.up && !i.down && !i.step_left && !i.step_right ==> d.caret_moved(i).caret == d.caret,
{
    reveal(Desk::caret_moved);
}

// ---------------------------------------------------------------------------
// Moving about
// ---------------------------------------------------------------------------

/// A pad on which nothing is pressed.
pub open spec fn quiet() -> Input {
    Input {
        step_left: false,
        step_right: false,
        step_up: false,
        step_down: false,
        left: false,
        right: false,
        up: false,
        down: false,
        cross: false,
        circle: false,
        square: false,
        triangle: false,
        l1: false,
        r1: false,
        r2: false,
        start: false,
        select: false,
        l2: false,
    }
}

/// No button is pressed: the directions, and L2 held, are all there is.
pub open spec fn only_directions(i: Input) -> bool {
    !i.cross && !i.circle && !i.square && !i.triangle && !i.l1 && !i.r1 && !i.r2 && !i.start
        && !i.select
}

/// One position after a step of `by` on a line that ends at `last`.
pub open spec fn steps_on(from: int, to: int, by: int, last: int) -> bool {
    to == from + by || (to == last && from + by > last)
}

/// One position after a step of `by` back.
pub open spec fn steps_back(from: int, to: int, by: int) -> bool {
    to == from - by || (to == 0 && from < by)
}

/// In the grid the directions move the cursor by one cell, or by a whole
/// screen of eight columns or twenty-four rows while L2 is held, and no
/// further than the edge. Nothing else changes.
pub proof fn law_cursor_moves(
    d: Desk,
    frame: u32,
    i: Input,
    key: Key,
    reply: Option<Result<Vec<u8>, CardError>>,
)
    requires
        d.wf(),
        d.mode == Mode::Nav,
        only_directions(i),
    ensures
        ({
            let n = d.ticked(frame, i, key, reply);
            let by_col: int = if i.l2 {
                8
            } else {
                1
            };
            let by_row: int = if i.l2 {
                24
            } else {
                1
            };
            &&& i.step_right && !i.step_left ==> steps_on(
                d.cur_col as int,
                n.cur_col as int,
                by_col,
                25,
            )
            &&& i.step_left && !i.step_right ==> steps_back(
                d.cur_col as int,
                n.cur_col as int,
                by_col,
            )
            &&& !i.step_left && !i.step_right ==> n.cur_col == d.cur_col
            &&& i.step_down && !i.step_up ==> steps_on(
                d.cur_row as int,
                n.cur_row as int,
                by_row,
                49,
            )
            &&& i.step_up && !i.step_down ==> steps_back(
                d.cur_row as int,
                n.cur_row as int,
                by_row,
            )
            &&& !i.step_up && !i.step_down ==> n.cur_row == d.cur_row
            &&& n.grid == d.grid
            &&& n.sel_anchor == d.sel_anchor
            &&& n.clip == d.clip
            &&& n.history == d.history
            &&& n.mode == Mode::Nav
        }),
{
    reveal(Desk::begun);
    reveal(Desk::nav);
    reveal(Desk::nav_moved);
    reveal(Desk::nav_acted);
    reveal(Desk::nav_marked);
    reveal(Desk::nav_anchored);
}

/// While pointing the directions move the roaming cursor by one cell, and no
/// further than the edge; SQUARE sets the anchor there, or lifts it.
pub proof fn law_pointer_moves(d: Desk, i: Input)
    requires
        d.wf(),
    ensures
        ({
            let n = d.pick_moved(i);
            &&& i.step_right && !i.step_left ==> steps_on(
                d.pick_col as int,
                n.pick_col as int,
                1,
                25,
            )
            &&& i.step_left && !i.step_right ==> steps_back(d.pick_col as int, n.pick_col as int, 1)
            &&& !i.step_left && !i.step_right ==> n.pick_col == d.pick_col
            &&& i.step_down && !i.step_up ==> steps_on(d.pick_row as int, n.pick_row as int, 1, 49)
            &&& i.step_up && !i.step_down ==> steps_back(d.pick_row as int, n.pick_row as int, 1)
            &&& !i.step_up && !i.step_down ==> n.pick_row == d.pick_row
            &&& !i.square ==> n.pick_anchor == d.pick_anchor
            &&& i.square && d.pick_anchor is Some ==> n.pick_anchor is None
            &&& i.square && d.pick_anchor is None ==> n.pick_anchor == Some(
                (n.pick_col, n.pick_row),
            )
            &&& n.cur_col == d.cur_col && n.cur_row == d.cur_row
            &&& n.edit == d.edit
        }),
{
    reveal(Desk::pick_moved);
}

/// What each button does in the grid, pressed alone.
pub proof fn law_grid_buttons(
    d: Desk,
    frame: u32,
    key: Key,
    reply: Option<Result<Vec<u8>, CardError>>,
)
    requires
        d.wf(),
        d.mode == Mode::Nav,
    ensures
        ({
            let press = |i: Input| d.ticked(frame, i, key, reply);
            let edit = press(Input { cross: true, ..quiet() });
            let fresh = press(Input { triangle: true, ..quiet() });
            let home = press(Input { start: true, l2: true, ..quiet() });
            let mark = press(Input { r2: true, ..quiet() });
            &&& edit.mode == Mode::Edit
            &&& edit.edit == d.grid.texts[26 * d.cur_row + d.cur_col]
            &&& edit.caret == edit.edit.len()
            &&& edit.grid == d.grid
            &&& edit.sel_anchor is None
            &&& edit.cur_col == d.cur_col && edit.cur_row == d.cur_row
            &&& fresh.mode == Mode::Edit
            &&& fresh.edit.len() == 0
            &&& fresh.grid == d.grid
            &&& home.cur_col == 0 && home.cur_row == 0 && home.grid == d.grid
            &&& mark.sel_anchor == Some((d.cur_col, d.cur_row)) && mark.grid == d.grid
            &&& press(Input { circle: true, ..quiet() }).sel_anchor is None
            &&& press(Input { circle: true, ..quiet() }).grid == d.grid
            &&& press(Input { select: true, ..quiet() }).mode == Mode::Cmd
            &&& press(Input { select: true, ..quiet() }).set_sel == 0
            &&& press(Input { square: true, ..quiet() }).grid == d.cleared().grid
            &&& press(Input { l1: true, ..quiet() }).clip == d.copied().clip
            &&& press(Input { l1: true, ..quiet() }).grid == d.grid
            &&& press(Input { r1: true, ..quiet() }).grid == d.pasted().grid
            &&& press(Input { start: true, ..quiet() }).grid == d.undone().grid
        }),
{
    reveal(Desk::begun);
    reveal(Desk::nav);
    reveal(Desk::nav_moved);
    reveal(Desk::nav_acted);
    reveal(Desk::nav_marked);
    reveal(Desk::nav_anchored);
    reveal(Desk::editing);
    reveal(Desk::at_home);
    reveal(Desk::menu_opened);
    reveal(Desk::cleared);
    reveal(Desk::copied);
    reveal(Desk::pasted);
    reveal(Desk::pasted_block);
    reveal(Desk::undone);
    reveal(Desk::snapshotted);
    reveal(Desk::toasted);
}

/// What each command of the menu does to the sheet, the clipboard and the mode.
pub proof fn law_commands_do_what_they_say(d: Desk)
    requires
        d.wf(),
    ensures
        forall|c: Cmd|
            c == Cmd::Undo || c == Cmd::Cut || c == Cmd::Copy || c == Cmd::Paste || c == Cmd::InsRow
                || c == Cmd::DelRow || c == Cmd::InsCol || c == Cmd::DelCol ==> (#[trigger] d.ran(
                c,
            )).mode == Mode::Nav,
        forall|c: Cmd|
            c == Cmd::InsRow || c == Cmd::DelRow || c == Cmd::InsCol || c == Cmd::DelCol ==> (
            #[trigger] d.ran(c)).sel_anchor is None,
        d.ran(Cmd::Undo).grid == d.undone().grid,
        d.ran(Cmd::Cut).grid == d.cleared().grid,
        d.ran(Cmd::Cut).clip == d.copied().clip,
        d.ran(Cmd::Copy).grid == d.grid,
        d.ran(Cmd::Copy).clip == d.copied().clip,
        d.ran(Cmd::Paste).grid == d.pasted().grid,
        d.ran(Cmd::Theme).dark == !d.dark,
        d.ran(Cmd::Theme).grid == d.grid,
        d.ran(Cmd::Save).saving,
        d.ran(Cmd::Save).mode == Mode::Edit,
        d.ran(Cmd::Save).edit.len() == 0,
        d.ran(Cmd::Load).mode == Mode::Browse,
        d.ran(Cmd::Help).mode == Mode::Help,
        d.ran(Cmd::MainMenu).mode == Mode::Menu,
{
    reveal(Desk::ran);
    reveal(Desk::at_grid);
    reveal(Desk::shifted_under);
    reveal(Desk::unselected);
    reveal(Desk::cut);
    reveal(Desk::copied);
    reveal(Desk::cleared);
    reveal(Desk::snapshotted);
    reveal(Desk::toasted);
    reveal(Desk::retinted);
    reveal(Desk::naming);
    reveal(Desk::browsing);
    reveal(Desk::helped);
    reveal(Desk::at_start);
}

/// A chart is made of the target, unless that is a single cell.
pub proof fn law_chart_plots_target(d: Desk, col: int, row: int)
    requires
        d.wf(),
    ensures
        ({
            let c = d.ran(Cmd::Chart);
            let (c0, r0, c1, r1) = c.chart_range;
            let one = d.sel_anchor is None || d.sel_anchor == Some((d.cur_col, d.cur_row));
            &&& c.grid == d.grid
            &&& one ==> c.mode == Mode::Nav && c.status_bad
            &&& !one ==> c.mode == Mode::Chart && (c0 <= col <= c1 && r0 <= row <= r1 <==> in_target(
                d,
                col,
                row,
            ))
        }),
{
    reveal(Desk::ran);
    reveal(Desk::charted);
    reveal(Desk::at_grid);
    reveal(Desk::toasted);
    law_target_spans_selection(d, col, row);
}

// ---------------------------------------------------------------------------
// Several rows and columns at once
// ---------------------------------------------------------------------------

proof fn lemma_shift_keeps_wf(g: Grid, at: usize)
    requires
        g.wf(),
    ensures
        g.row_inserted(at).wf(),
        g.row_deleted(at).wf(),
        g.col_inserted(at).wf(),
        g.col_deleted(at).wf(),
{
    lemma_repointed_wf(g.with_row(at as int), Shift::Rows { at, delta: 1 });
    lemma_repointed_wf(g.without_row(at as int), Shift::Rows { at, delta: (-1) as i32 });
    lemma_repointed_wf(g.with_col(at as int), Shift::Cols { at, delta: 1 });
    lemma_repointed_wf(g.without_col(at as int), Shift::Cols { at, delta: (-1) as i32 });
}

proof fn lemma_repointed_wf(g: Grid, shift: Shift)
    requires
        g.texts.len() == NCELLS,
    ensures
        (forall|i: int|
            0 <= i < NCELLS ==> (#[trigger] g.texts[i]).len() <= INPUT_CAP || is_formula(
                g.texts[i],
            )) ==> g.repointed(shift).recalculated().wf(),
{
}

/// With rows put in, the cells of the new rows are empty; a text that is no
/// formula stays where it was above them, and is as many rows further down if
/// it was not.
pub proof fn law_rows_inserted_at_once(g: Grid, at: usize, n: int, col: int, row: int)
    requires
        g.wf(),
        at < ROWS,
        0 <= n,
        on_grid(col, row),
    ensures
        ({
            let now = rows_inserted(g, at, n).texts[26 * row + col];
            &&& at <= row < at + n ==> now.len() == 0
            &&& row < at && !is_formula(g.texts[26 * row + col]) ==> now == g.texts[26 * row + col]
            &&& row >= at + n && !is_formula(g.texts[26 * (row - n) + col]) ==> now == g.texts[26 * (
            row - n) + col]
        }),
        rows_inserted(g, at, n).wf(),
    decreases n,
{
    if n > 0 {
        let less = rows_inserted(g, at, n - 1);
        assert(rows_inserted(g, at, n) == less.row_inserted(at));
        law_rows_inserted_at_once(g, at, n - 1, col, row);
        lemma_shift_keeps_wf(less, at);
        if row == at {
            law_new_row_is_empty(less, at, col);
        } else {
            law_rows_make_room(less, at, col, row);
            if row > at {
                law_rows_inserted_at_once(g, at, n - 1, col, row - 1);
            }
        }
    }
}

/// With rows taken out, a text that is no formula stays where it was above
/// them, and is as many rows further up if it was below; the last rows are
/// empty.
pub proof fn law_rows_deleted_at_once(g: Grid, at: usize, n: int, col: int, row: int)
    requires
        g.wf(),
        0 <= n,
        at + n <= ROWS,
        at < ROWS,
        on_grid(col, row),
    ensures
        ({
            let now = rows_deleted(g, at, n).texts[26 * row + col];
            &&& row >= 50 - n ==> now.len() == 0
            &&& row < at && !is_formula(g.texts[26 * row + col]) ==> now == g.texts[26 * row + col]
            &&& at <= row < 50 - n && !is_formula(g.texts[26 * (row + n) + col]) ==> now
                == g.texts[26 * (row + n) + col]
        }),
        rows_deleted(g, at, n).wf(),
    decreases n,
{
    if n > 0 {
        let less = rows_deleted(g, at, n - 1);
        assert(rows_deleted(g, at, n) == less.row_deleted(at));
        law_rows_deleted_at_once(g, at, n - 1, col, row);
        lemma_shift_keeps_wf(less, at);
        if row == 49 {
            law_last_row_is_empty(less, at, col);
        } else {
            law_rows_close_up(less, at, col, row);
            if row >= at {
                law_rows_deleted_at_once(g, at, n - 1, col, row + 1);
            }
        }
    }
}

/// With columns put in, the cells of the new columns are empty; a text that is
/// no formula stays where it was left of them, and is as many columns further
/// right if it was not.
pub proof fn law_cols_inserted_at_once(g: Grid, at: usize, n: int, col: int, row: int)
    requires
        g.wf(),
        at < COLS,
        0 <= n,
        on_grid(col, row),
    ensures
        ({
            let now = cols_inserted(g, at, n).texts[26 * row + col];
            &&& at <= col < at + n ==> now.len() == 0
            &&& col < at && !is_formula(g.texts[26 * row + col]) ==> now == g.texts[26 * row + col]
            &&& col >= at + n && !is_formula(g.texts[26 * row + col - n]) ==> now == g.texts[26
                * row + col - n]
        }),
        cols_inserted(g, at, n).wf(),
    decreases n,
{
    if n > 0 {
        let less = cols_inserted(g, at, n - 1);
        assert(cols_inserted(g, at, n) == less.col_inserted(at));
        law_cols_inserted_at_once(g, at, n - 1, col, row);
        lemma_shift_keeps_wf(less, at);
        if col == at {
            law_new_col_is_empty(less, at, row);
        } else {
            law_cols_make_room(less, at, col, row);
            if col > at {
                law_cols_inserted_at_once(g, at, n - 1, col - 1, row);
            }
        }
    }
}

/// With columns taken out, a text that is no formula stays where it was left
/// of them, and is as many columns further left if it was right of them; the
/// last columns are empty.
pub proof fn law_cols_deleted_at_once(g: Grid, at: usize, n: int, col: int, row: int)
    requires
        g.wf(),
        0 <= n,
        at + n <= COLS,
        at < COLS,
        on_grid(col, row),
    ensures
        ({
            let now = cols_deleted(g, at, n).texts[26 * row + col];
            &&& col >= 26 - n ==> now.len() == 0
            &&& col < at && !is_formula(g.texts[26 * row + col]) ==> now == g.texts[26 * row + col]
            &&& at <= col < 26 - n && !is_formula(g.texts[26 * row + col + n]) ==> now
                == g.texts[26 * row + col + n]
        }),
        cols_deleted(g, at, n).wf(),
    decreases n,
{
    if n > 0 {
        let less = cols_deleted(g, at, n - 1);
        assert(cols_deleted(g, at, n) == less.col_deleted(at));
        law_cols_deleted_at_once(g, at, n - 1, col, row);
        lemma_shift_keeps_wf(less, at);
        if col == 25 {
            law_last_col_is_empty(less, at, row);
        } else {
            law_cols_close_up(less, at, col, row);
            if col >= at {
                law_cols_deleted_at_once(g, at, n - 1, col + 1, row);
            }
        }
    }
}

/// The commands that insert put as many rows or columns in as the target has,
/// so that all of its rows or columns are empty; what was there is that much
/// further on. The commands that delete take those of the target out.
pub proof fn law_structure_commands(d: Desk, col: int, row: int)
    requires
        d.wf(),
        on_grid(col, row),
    ensures
        ({
            let t = d.target();
            let h = t.3 - t.1 + 1;
            let w = t.2 - t.0 + 1;
            let i = 26 * row + col;
            let text = d.grid.texts[i];
            let ins_row = d.ran(Cmd::InsRow).grid.texts;
            let ins_col = d.ran(Cmd::InsCol).grid.texts;
            let del_row = d.ran(Cmd::DelRow).grid.texts;
            let del_col = d.ran(Cmd::DelCol).grid.texts;
            &&& t.1 <= row <= t.3 ==> ins_row[i].len() == 0
            &&& t.0 <= col <= t.2 ==> ins_col[i].len() == 0
            &&& !is_formula(text) ==> {
                &&& row < t.1 ==> ins_row[i] == text && del_row[i] == text
                &&& row >= t.1 && row + h < 50 ==> ins_row[i + 26 * h] == text
                &&& row > t.3 ==> del_row[i - 26 * h] == text
                &&& col < t.0 ==> ins_col[i] == text && del_col[i] == text
                &&& col >= t.0 && col + w < 26 ==> ins_col[i + w] == text
                &&& col > t.2 ==> del_col[i - w] == text
            }
            &&& row >= 50 - h ==> del_row[i].len() == 0
            &&& col >= 26 - w ==> del_col[i].len() == 0
        }),
{
    reveal(Desk::ran);
    reveal(Desk::rows_shifted);
    reveal(Desk::cols_shifted);
    reveal(Desk::shifted_under);
    reveal(Desk::unselected);
    reveal(Desk::toasted);
    reveal(Desk::at_grid);
    reveal(Desk::snapshotted);
    let t = d.target();
    let h = t.3 - t.1 + 1;
    let w = t.2 - t.0 + 1;
    assert(d.ran(Cmd::InsRow).grid == rows_inserted(d.grid, t.1, h));
    assert(d.ran(Cmd::DelRow).grid == rows_deleted(d.grid, t.1, h));
    assert(d.ran(Cmd::InsCol).grid == cols_inserted(d.grid, t.0, w));
    assert(d.ran(Cmd::DelCol).grid == cols_deleted(d.grid, t.0, w));
    law_rows_inserted_at_once(d.grid, t.1, h, col, row);
    law_rows_deleted_at_once(d.grid, t.1, h, col, row);
    law_cols_inserted_at_once(d.grid, t.0, w, col, row);
    law_cols_deleted_at_once(d.grid, t.0, w, col, row);
    if row >= t.1 && row + h < 50 {
        law_rows_inserted_at_once(d.grid, t.1, h, col, row + h);
    }
    if row > t.3 {
        law_rows_deleted_at_once(d.grid, t.1, h, col, row - h);
    }
    if col >= t.0 && col + w < 26 {
        law_cols_inserted_at_once(d.grid, t.0, w, col + w, row);
    }
    if col > t.2 {
        law_cols_deleted_at_once(d.grid, t.0, w, col - w, row);
    }
}

// ---------------------------------------------------------------------------
// The card
// ---------------------------------------------------------------------------

/// A file that holds a sheet replaces the one on the screen, with the cursor
/// at home and nothing left to undo; one that does not leaves a blank sheet;
/// an error of the card leaves the sheet alone.
pub proof fn law_load_replaces_sheet(d: Desk, data: Vec<u8>, e: CardError)
    ensures
        decoded(data@) matches Some(texts) ==> {
            let n = d.loaded_file(Ok(data));
            &&& n.grid.texts == texts
            &&& n.cur_col == 0 && n.cur_row == 0 && n.top_col == 0 && n.top_row == 0
            &&& n.history.len() == 0
            &&& n.sel_anchor is None
            &&& n.mode == Mode::Nav
            &&& !n.status_bad
        },
        decoded(data@) is None ==> {
            let n = d.loaded_file(Ok(data));
            &&& forall|i: int| 0 <= i < NCELLS ==> (#[trigger] n.grid.texts[i]).len() == 0
            &&& n.status_bad
            &&& n.mode == d.mode
        },
        d.loaded_file(Err(e)).grid == d.grid,
        d.loaded_file(Err(e)).mode == d.mode,
        d.loaded_file(Err(e)).status_bad,
{
    reveal(Desk::loaded_file);
    reveal(Desk::homed);
    reveal(Desk::toasted);
}

/// START on a typed save name asks the card to keep the sheet, under the name
/// that the text makes, as a stream that loads back as the sheet's texts; with
/// no letter or digit in it, or a sheet too large, nothing is asked.
pub proof fn law_save_asks_card(
    d: Desk,
    frame: u32,
    key: Key,
    reply: Option<Result<Vec<u8>, CardError>>,
)
    requires
        d.wf(),
        d.mode == Mode::Edit,
        d.saving,
    ensures
        ({
            let i = Input { start: true, ..quiet() };
            let n = d.ticked(frame, i, key, reply);
            let w = d.wish(frame, i, key);
            &&& n.mode == Mode::Nav
            &&& !n.saving
            &&& n.grid == d.grid
            &&& match filename(d.edit) {
                Some(f) => if encoded(d.grid.texts).len() <= 8192 {
                    w matches Wish::Save(name, title, data) && name == f && title == d.edit
                        && decoded(data) == Some(d.grid.texts)
                } else {
                    w == Wish::Idle && n.status_bad
                },
                None => w == Wish::Idle && n.status_bad,
            }
        }),
{
    reveal(Desk::begun);
    reveal(Desk::editor);
    reveal(Desk::edit_typed);
    reveal(Desk::caret_moved);
    reveal(Desk::edit_wish);
    reveal(Desk::finish_job);
    reveal(Desk::finished);
    reveal(Desk::named);
    reveal(Desk::save_job);
    reveal(Desk::toasted);
    law_load_gives_back_save(d.grid.texts);
}

/// In the browser UP and DOWN move the cursor by one file, within the list; X
/// wants the file that the cursor is then on.
pub proof fn law_browser_moves(d: Desk, i: Input)
    requires
        d.wf(),
    ensures
        ({
            let n = d.browse_moved(i);
            let last = d.files.len() - 1;
            &&& n.files == d.files
            &&& i.down && !i.up && d.files.len() > 0 ==> steps_on(
                d.browse_sel as int,
                n.browse_sel as int,
                1,
                last,
            )
            &&& i.up && !i.down ==> steps_back(d.browse_sel as int, n.browse_sel as int, 1)
            &&& !i.up && !i.down ==> n.browse_sel == d.browse_sel
            &&& d.mode == Mode::Browse && i.cross && d.files.len() > 0 ==> d.browse_wants(i) == Some(
                d.files[n.browse_sel as int].0,
            )
            &&& !i.cross ==> d.browse_wants(i) is None
        }),
{
    reveal(Desk::browse_moved);
}

/// Deleting is asked for first, and only X then deletes: the file under the
/// cursor.
pub proof fn law_delete_asks_first(
    d: Desk,
    frame: u32,
    i: Input,
    key: Key,
    reply: Option<Result<Vec<u8>, CardError>>,
)
    requires
        d.wf(),
    ensures
        d.mode == Mode::Browse ==> d.wish(frame, i, key) == Wish::Idle,
        d.mode == Mode::Browse && i == (Input { square: true, ..quiet() }) && d.files.len() > 0
            && reply is None ==> d.ticked(frame, i, key, reply).mode == Mode::Confirm,
        d.mode == Mode::Confirm && i.cross ==> d.wish(frame, i, key) == Wish::Delete(
            d.files[d.browse_sel as int].0,
        ),
        d.mode == Mode::Confirm && !i.cross ==> d.wish(frame, i, key) == Wish::Idle,
        d.mode == Mode::Confirm && i == (Input { circle: true, ..quiet() }) ==> d.ticked(
            frame,
            i,
            key,
            reply,
        ).mode == Mode::Browse,
        d.ticked(frame, i, key, reply).files == d.files || d.mode == Mode::Menu || d.mode
            == Mode::Cmd,
{
    reveal(Desk::begun);
    reveal(Desk::confirm_wish);
    reveal(Desk::confirm);
    reveal(Desk::browse);
    reveal(Desk::browse_moved);
    reveal(Desk::asking);
    reveal(Desk::browse_left);
    lemma_files_stay(d.begun(frame), i, key, reply);
}

proof fn lemma_files_stay(
    d: Desk,
    i: Input,
    key: Key,
    reply: Option<Result<Vec<u8>, CardError>>,
)
    requires
        d.edit.len() <= INPUT_CAP,
    ensures
        d.nav(i).files == d.files,
        d.editor(i, key).files == d.files,
        d.pick(i).files == d.files,
        d.chart(i).files == d.files,
        d.browse(i, reply).files == d.files,
        d.help(i).files == d.files,
        d.confirm(i).files == d.files,
{
    reveal(Desk::toasted);
    reveal(Desk::snapshotted);
    assert(d.nav(i).files == d.files) by {
        reveal(Desk::nav);
        reveal(Desk::nav_moved);
        reveal(Desk::nav_acted);
        reveal(Desk::nav_marked);
        reveal(Desk::nav_anchored);
        reveal(Desk::editing);
        reveal(Desk::at_home);
        reveal(Desk::menu_opened);
        reveal(Desk::cleared);
        reveal(Desk::copied);
        reveal(Desk::pasted);
        reveal(Desk::undone);
    }
    assert(d.editor(i, key).files == d.files) by {
        reveal(Desk::editor);
        reveal(Desk::edit_typed);
        reveal(Desk::caret_moved);
        reveal(Desk::keyed);
        reveal(Desk::typed);
        reveal(Desk::erased);
        reveal(Desk::finished);
        reveal(Desk::named);
        reveal(Desk::committed);
        reveal(Desk::pointing);
        reveal(Desk::dropped);
    }
    assert(d.pick(i).files == d.files) by {
        reveal(Desk::pick);
        reveal(Desk::pick_moved);
        reveal(Desk::unpicked);
        lemma_typing_keeps_files(d.pick_moved(i), d.pick_moved(i).picked_name());
    }
    assert(d.browse(i, reply).files == d.files) by {
        reveal(Desk::browse);
        reveal(Desk::browse_moved);
        reveal(Desk::loaded_file);
        reveal(Desk::homed);
        reveal(Desk::asking);
        reveal(Desk::browse_left);
    }
    reveal(Desk::chart);
    reveal(Desk::help);
    reveal(Desk::confirm);
}

proof fn lemma_typing_keeps_files(d: Desk, s: Seq<u8>)
    ensures
        d.typed_all(s).files == d.files,
    decreases s.len(),
{
    reveal(Desk::typed);
    reveal(Desk::toasted);
    if s.len() > 0 {
        lemma_typing_keeps_files(d, s.drop_last());
    }
}

// ---------------------------------------------------------------------------
// The view and messages
// ---------------------------------------------------------------------------

/// A view moves no further than it must: it stays, or the line that it was to
/// show is its first or its last.
pub proof fn law_view_moves_least(top: int, at: int, vis: int)
    requires
        vis > 0,
    ensures
        window_top(top, at, vis) <= at < window_top(top, at, vis) + vis,
        top <= at < top + vis ==> window_top(top, at, vis) == top,
        at < top ==> window_top(top, at, vis) == at,
        at >= top + vis ==> window_top(top, at, vis) + vis == at + 1,
{
}

/// A step of the scroll takes a quarter of the way that is left, cut off to
/// whole pixels, but at least one pixel as long as any is left.
pub proof fn law_scroll_takes_a_quarter(at: int, target: int)
    ensures
        ({
            let way = if target >= at {
                target - at
            } else {
                at - target
            };
            let step = if target >= at {
                eased(at, target) - at
            } else {
                at - eased(at, target)
            };
            &&& way >= 4 ==> 4 * step <= way < 4 * step + 4
            &&& 0 < way < 4 ==> step == 1
            &&& way == 0 ==> step == 0
        }),
{
}

/// A message is shown as far as it fits for a hundred and fifty ticks, one
/// less after each, and nothing else of the interface changes with it.
pub proof fn law_message_stays_a_while(d: Desk, msg: Seq<u8>, bad: bool, frame: u32)
    ensures
        ({
            let n = d.toasted(msg, bad);
            &&& n.status_ttl == 150
            &&& n.status_bad == bad
            &&& n.status.len() == if msg.len() < 32 {
                msg.len()
            } else {
                32
            }
            &&& forall|k: int| 0 <= k < n.status.len() ==> #[trigger] n.status[k] == msg[k]
            &&& n == (Desk {
                status: n.status,
                status_ttl: n.status_ttl,
                status_bad: n.status_bad,
                ..d
            })
        }),
        d.begun(frame).status_ttl == if d.status_ttl > 0 {
            d.status_ttl - 1
        } else {
            0
        },
        d.begun(frame).status == d.status,
{
    reveal(Desk::toasted);
    reveal(Desk::begun);
}

// ---------------------------------------------------------------------------
// Menus
// ---------------------------------------------------------------------------

proof fn lemma_next_is_first(i: int, d: int)
    requires
        d == 1 || d == -1,
    ensures
        match next_command(i, d) {
            Some(k) => {
                &&& 0 <= k < CMD_ROWS
                &&& cmd_at(k) is Some
                &&& d == 1 ==> i <= k && forall|m: int| i <= m < k ==> #[trigger] cmd_at(m) is None
                &&& d == -1 ==> k <= i && forall|m: int| k < m <= i ==> #[trigger] cmd_at(m) is None
            },
            None => true,
        },
    decreases
            (if d > 0 {
                CMD_ROWS - i
            } else {
                i + 1
            }),
{
    if 0 <= i < CMD_ROWS && cmd_at(i) is None {
        lemma_next_is_first(i + d, d);
    }
}

/// A step in the command menu goes to the nearest command that way: none is
/// passed over.
pub proof fn law_menu_step_passes_no_command(d: Desk, down: bool, i: int)
    requires
        d.wf(),
        ({
            let n = d.cmd_stepped(
                if down {
                    1
                } else {
                    -1
                },
            );
            if down {
                d.set_sel < i < n.set_sel
            } else {
                n.set_sel < i < d.set_sel
            }
        }),
    ensures
        cmd_at(i) is None,
{
    reveal(Desk::cmd_stepped);
    let step: int = if down {
        1
    } else {
        -1
    };
    lemma_next_is_first(d.set_sel + step, step);
}

/// In the start menu UP and DOWN move by one entry, within the list; X or
/// START opens the sample under the cursor, with nothing to undo and, where
/// the sample has a chart, in that.
pub proof fn law_start_menu(d: Desk, i: Input)
    requires
        d.wf(),
    ensures
        ({
            let n = d.menu_moved(i);
            let last: int = if d.has_save {
                7
            } else {
                6
            };
            &&& i.down && !i.up ==> steps_on(d.menu_sel as int, n.menu_sel as int, 1, last)
            &&& i.up && !i.down ==> steps_back(d.menu_sel as int, n.menu_sel as int, 1)
            &&& !i.up && !i.down ==> n.menu_sel == d.menu_sel
            &&& n.grid == d.grid
            &&& !i.cross && !i.start ==> d.menu(i) == n && d.menu_wish(i) == Wish::Idle
            &&& (i.cross || i.start) && n.menu_sel < 7 ==> {
                let o = d.menu(i);
                &&& o.grid == sample_grid(n.menu_sel as int)
                &&& o.cur_col == 0 && o.cur_row == 0 && o.sel_anchor is None
                &&& o.history.len() == 0
                &&& opening_chart(n.menu_sel as int) matches Some((kind, range)) ==> o.mode
                    == Mode::Chart && o.chart_kind == kind && o.chart_range == range
                &&& opening_chart(n.menu_sel as int) is None ==> o.mode == Mode::Nav
                &&& d.menu_wish(i) == Wish::Idle
            }
            &&& (i.cross || i.start) && n.menu_sel >= 7 ==> d.menu(i).mode == Mode::Browse
                && d.menu_wish(i) == Wish::List && d.menu(i).browse_from_menu
        }),
{
    reveal(Desk::menu);
    reveal(Desk::menu_moved);
    reveal(Desk::menu_wish);
    reveal(Desk::opened);
    reveal(Desk::homed);
    reveal(Desk::browsing);
}

/// In the command menu X runs the command under the cursor; LEFT and RIGHT
/// run it only where it is the theme; O and SELECT close the menu.
pub proof fn law_command_menu(d: Desk, i: Input)
    requires
        d.wf(),
        !i.step_up && !i.step_down,
    ensures
        ({
            let cmd = cmd_at(d.set_sel as int)->Some_0;
            &&& i.cross && !i.circle && !i.select ==> d.cmd_menu(i) == d.ran(cmd)
            &&& !i.cross && !i.circle && !i.select && !(cmd == Cmd::Theme && (i.left || i.right))
                ==> d.cmd_menu(i) == d
            &&& !i.cross && !i.circle && !i.select && cmd == Cmd::Theme && (i.left || i.right)
                ==> d.cmd_menu(i).dark == !d.dark
            &&& !i.cross && (i.circle || i.select) ==> d.cmd_menu(i).mode == Mode::Nav
                && d.cmd_menu(i).grid == d.grid
            &&& d.cmd_wish(i) == Wish::List <==> i.cross && cmd == Cmd::Load
        }),
{
    reveal(Desk::cmd_menu);
    reveal(Desk::cmd_moved);
    reveal(Desk::cmd_chosen);
    reveal(Desk::cmd_wish);
    reveal(Desk::at_grid);
    reveal(Desk::ran);
    reveal(Desk::retinted);
}

/// In the chart TRIANGLE goes on to the next kind, and O or X back to the grid;
/// the sheet and the range stay.
pub proof fn law_chart_buttons(d: Desk, i: Input)
    ensures
        d.chart(i).grid == d.grid,
        d.chart(i).chart_range == d.chart_range,
        d.chart(i).chart_kind == if i.triangle {
            next_kind(d.chart_kind)
        } else {
            d.chart_kind
        },
        d.chart(i).mode == if i.circle || i.cross {
            Mode::Nav
        } else {
            d.mode
        },
        d.help(i).grid == d.grid,
        d.help(i).mode == if i.circle || i.cross {
            Mode::Nav
        } else {
            d.mode
        },
{
    reveal(Desk::chart);
    reveal(Desk::help);
}

// ---------------------------------------------------------------------------
// Typing, button by button
// ---------------------------------------------------------------------------

/// What each button does while a cell is being typed, pressed alone.
pub proof fn law_typing_buttons(d: Desk, c: u8)
    requires
        d.wf(),
        d.mode == Mode::Edit,
        !d.saving,
    ensures
        ({
            let x = Input { cross: true, ..quiet() };
            let pick = d.editor(Input { r1: true, ..quiet() }, Key::Idle);
            let drop = d.editor(Input { circle: true, ..quiet() }, Key::Idle);
            &&& d.editor(x, Key::Insert(c)) == d.typed(c)
            &&& d.editor(x, Key::Backspace) == d.erased()
            &&& d.editor(x, Key::Commit) == d.finished()
            &&& d.editor(x, Key::Idle) == d
            &&& d.editor(Input { l1: true, ..quiet() }, Key::Idle) == d.erased()
            &&& d.editor(Input { square: true, ..quiet() }, Key::Idle) == d.erased()
            &&& d.editor(Input { start: true, ..quiet() }, Key::Idle) == d.finished()
            &&& pick.mode == Mode::Pick
            &&& pick.pick_col == d.cur_col && pick.pick_row == d.cur_row
            &&& pick.edit == d.edit && pick.caret == d.caret
            &&& drop.mode == Mode::Nav && drop.grid == d.grid && drop.history == d.history
            &&& d.editor(quiet(), Key::Insert(c)) == d
        }),
{
    reveal(Desk::editor);
    reveal(Desk::edit_typed);
    reveal(Desk::caret_moved);
    reveal(Desk::keyed);
    reveal(Desk::pointing);
    reveal(Desk::dropped);
}

/// While a cell is being typed the directions step the keyboard's highlight,
/// unless L2 is held; X uses the key and R2 jumps to OK. In other modes the
/// keyboard rests.
pub proof fn law_keyboard_plan(d: Desk, i: Input)
    ensures
        ({
            let p = d.keys_planned(i);
            &&& d.mode == Mode::Edit && !i.l2 ==> p.left == i.step_left && p.right == i.step_right
                && p.up == i.step_up && p.down == i.step_down
            &&& d.mode != Mode::Edit || i.l2 ==> !p.left && !p.right && !p.up && !p.down
            &&& d.mode == Mode::Edit ==> p.activate == i.cross && p.to_ok == i.r2
            &&& d.mode != Mode::Edit ==> !p.activate && !p.to_ok
        }),
{
}

/// Pointing given up, with O or R1, leaves the text as it was.
pub proof fn law_pointing_can_be_given_up(d: Desk, i: Input)
    requires
        !i.cross,
        i.circle || i.r1,
    ensures
        d.pick(i).mode == Mode::Edit,
        d.pick(i).edit == d.edit,
        d.pick(i).caret == d.caret,
        d.pick(i).pick_anchor is None,
{
    reveal(Desk::pick);
    reveal(Desk::pick_moved);
    reveal(Desk::unpicked);
}

// ---------------------------------------------------------------------------
// Undo steps and the card's answers
// ---------------------------------------------------------------------------

/// The newest six steps are kept, in their order; a sheet too large for a step
/// drops them all.
pub proof fn law_newest_steps_are_kept(d: Desk, k: int)
    requires
        d.wf(),
    ensures
        ({
            let n = d.snapshotted().history;
            let now = encoded(d.grid.texts);
            &&& now.len() > 4096 ==> n.len() == 0
            &&& now.len() <= 4096 ==> {
                &&& n.len() == if d.history.len() < 6 {
                    d.history.len() + 1
                } else {
                    6
                }
                &&& n[n.len() - 1] == now
                &&& 1 <= k < n.len() ==> n[n.len() - 1 - k] == d.history[d.history.len() - k]
            }
            &&& d.snapshotted().grid == d.grid
        }),
{
    reveal(Desk::snapshotted);
}

/// Taking back several steps gives back the sheets of the steps, newest first;
/// with none left nothing changes, and the message says so.
pub proof fn law_steps_go_back_in_order(d: Desk)
    requires
        d.wf(),
    ensures
        d.history.len() == 0 ==> d.undone().grid == d.grid && d.undone().status_bad,
        d.history.len() > 0 ==> d.undone().history.len() == d.history.len() - 1,
        forall|k: int|
            0 <= k < d.history.len() - 1 ==> #[trigger] d.undone().history[k] == d.history[k],
        d.history.len() > 0 ==> d.undone().grid == loaded(d.history[d.history.len() - 1]),
{
    reveal(Desk::undone);
    reveal(Desk::toasted);
}

/// The card's answers: a save that worked is offered from then on; an error is
/// told; after a deletion the list is what the card's directory holds.
pub proof fn law_card_answers(d: Desk, e: CardError, entries: Seq<(Seq<u8>, u16)>)
    ensures
        d.saved(Ok(())).has_save,
        !d.saved(Ok(())).status_bad,
        d.saved(Err(e)).has_save == d.has_save,
        d.saved(Err(e)).status_bad,
        d.saved(Ok(())).grid == d.grid,
        d.saved(Err(e)).grid == d.grid,
        d.listed(entries).files == saves_among(entries),
        d.listed(entries).browse_sel == 0,
        d.deleted(Ok(()), entries).files == saves_among(entries),
        d.deleted(Err(e), entries).files == saves_among(entries),
        !d.deleted(Ok(()), entries).status_bad,
        d.deleted(Err(e), entries).status_bad,
        d.deleted(Ok(()), entries).mode == Mode::Browse,
        d.deleted(Ok(()), entries).grid == d.grid,
        d.deleted(Ok(()), entries).browse_from_menu == d.browse_from_menu,
{
    reveal(Desk::saved);
    reveal(Desk::listed);
    reveal(Desk::deleted);
    reveal(Desk::browsing);
    reveal(Desk::toasted);
}

/// The browser goes back to where it was opened from.
pub proof fn law_browser_goes_back(d: Desk)
    requires
        d.wf(),
        d.mode == Mode::Browse,
    ensures
        ({
            let n = d.browse(Input { circle: true, ..quiet() }, None);
            &&& n.mode == if d.browse_from_menu {
                Mode::Menu
            } else {
                Mode::Nav
            }
            &&& n.grid == d.grid
        }),
{
    reveal(Desk::browse);
    reveal(Desk::browse_moved);
    reveal(Desk::browse_left);
}

/// The scroll goes to the first row in view, eight pixels to a row, and rests
/// there.
pub proof fn law_scroll_goes_to_first_row(d: Desk)
    requires
        d.wf(),
    ensures
        ({
            let to = 8 * d.top_row;
            let n = d.scrolling();
            &&& d.scroll_px == to ==> n.scroll_px == d.scroll_px
            &&& d.scroll_px < to ==> d.scroll_px < n.scroll_px <= to
            &&& d.scroll_px > to ==> to <= n.scroll_px < d.scroll_px
            &&& n.grid == d.grid
        }),
{
    reveal(Desk::scrolling);
}

/// Every operation tells what it did: the message stands in full.
pub proof fn law_messages_tell(d: Desk)
    requires
        d.wf(),
        d.clip_w > 0,
        d.clip_h > 0,
    ensures
        ({
            let t = d.target();
            let n = (t.2 - t.0 + 1) * (t.3 - t.1 + 1);
            &&& n == 1 ==> d.copied().status == utf8("COPIED CELL")
            &&& 1 < n <= 64 ==> d.copied().status == utf8("COPIED RANGE")
            &&& n > 64 ==> d.copied().status == utf8("COPIED (CLIPPED)")
            &&& d.cut().status == utf8("CUT")
            &&& d.pasted().status == utf8("PASTED")
            &&& d.history.len() == 0 ==> d.undone().status == utf8("NOTHING TO UNDO")
            &&& d.history.len() > 0 ==> d.undone().status == utf8("UNDONE")
            &&& d.ran(Cmd::InsRow).status == utf8("ROW INSERTED")
            &&& d.ran(Cmd::DelRow).status == utf8("ROW DELETED")
            &&& d.ran(Cmd::InsCol).status == utf8("COLUMN INSERTED")
            &&& d.ran(Cmd::DelCol).status == utf8("COLUMN DELETED")
        }),
{
    lemma_message_lengths();
    let t = d.target();
    lemma_rect_cells_len(t.0 as int, t.1 as int, t.2 as int, t.3 as int);
    reveal(Desk::copied);
    reveal(Desk::cut);
    reveal(Desk::pasted);
    reveal(Desk::undone);
    reveal(Desk::ran);
    reveal(Desk::shifted_under);
    reveal(Desk::unselected);
    reveal(Desk::at_grid);
    reveal(Desk::toasted);
    if d.history.len() > 0 {
        reveal(steps_ok);
        assert(d.history.last() == d.history[d.history.len() - 1]);
    }
}

proof fn lemma_message_lengths()
    ensures
        utf8("COPIED CELL").len() <= 32,
        utf8("COPIED RANGE").len() <= 32,
        utf8("COPIED (CLIPPED)").len() <= 32,
        utf8("CUT").len() <= 32,
        utf8("PASTED").len() <= 32,
        utf8("NOTHING TO UNDO").len() <= 32,
        utf8("UNDONE").len() <= 32,
        utf8("ROW INSERTED").len() <= 32,
        utf8("ROW DELETED").len() <= 32,
        utf8("COLUMN INSERTED").len() <= 32,
        utf8("COLUMN DELETED").len() <= 32,
{
    reveal_strlit("COPIED CELL");
    lemma_utf8_ascii("COPIED CELL");
    reveal_strlit("COPIED RANGE");
    lemma_utf8_ascii("COPIED RANGE");
    reveal_strlit("COPIED (CLIPPED)");
    lemma_utf8_ascii("COPIED (CLIPPED)");
    reveal_strlit("CUT");
    lemma_utf8_ascii("CUT");
    reveal_strlit("PASTED");
    lemma_utf8_ascii("PASTED");
    reveal_strlit("NOTHING TO UNDO");
    lemma_utf8_ascii("NOTHING TO UNDO");
    reveal_strlit("UNDONE");
    lemma_utf8_ascii("UNDONE");
    reveal_strlit("ROW INSERTED");
    lemma_utf8_ascii("ROW INSERTED");
    reveal_strlit("ROW DELETED");
    lemma_utf8_ascii("ROW DELETED");
    reveal_strlit("COLUMN INSERTED");
    lemma_utf8_ascii("COLUMN INSERTED");
    reveal_strlit("COLUMN DELETED");
    lemma_utf8_ascii("COLUMN DELETED");
}

/// In every mode a tick does what that mode does with the pad, and only the
/// modes that talk to the card ask it for anything.
pub proof fn law_tick_follows_mode(
    d: Desk,
    frame: u32,
    i: Input,
    key: Key,
    reply: Option<Result<Vec<u8>, CardError>>,
)
    ensures
        ({
            let n = d.ticked(frame, i, key, reply);
            let b = d.begun(frame);
            &&& d.mode == Mode::Menu ==> n == b.menu(i)
            &&& d.mode == Mode::Nav ==> n == b.nav(i)
            &&& d.mode == Mode::Edit ==> n == b.editor(i, key)
            &&& d.mode == Mode::Pick ==> n == b.pick(i)
            &&& d.mode == Mode::Chart ==> n == b.chart(i)
            &&& d.mode == Mode::Browse ==> n == b.browse(i, reply)
            &&& d.mode == Mode::Cmd ==> n == b.cmd_menu(i)
            &&& d.mode == Mode::Help ==> n == b.help(i)
            &&& d.mode == Mode::Confirm ==> n == b.confirm(i)
            &&& d.mode == Mode::Nav || d.mode == Mode::Pick || d.mode == Mode::Chart || d.mode
                == Mode::Browse || d.mode == Mode::Help ==> d.wish(frame, i, key) == Wish::Idle
            &&& b.mode == d.mode && b.frame == frame && b.grid == d.grid
        }),
{
    reveal(Desk::begun);
}

/// X in the browser takes up the file that the card answered with.
pub proof fn law_browser_loads_file(d: Desk, reply: Result<Vec<u8>, CardError>)
    requires
        d.wf(),
        d.files.len() > 0,
    ensures
        d.browse(Input { cross: true, ..quiet() }, Some(reply)) == d.loaded_file(reply),
{
    reveal(Desk::browse);
    reveal(Desk::browse_moved);
}

} // verus!
