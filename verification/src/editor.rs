//! The state of the interface, and what can be done to it: typing, copying,
//! undoing, saving.

use vstd::prelude::*;

use crate::card::{
    entries_view, error_text, filename, make_filename, mc_err, pick_saves, saves_among, CardError,
    SaveEntry, MAX_FILES,
};
use crate::grid::{
    idx, index_of, least_of, lemma_rect_cells_len, lemma_rect_cells_on_grid, lemma_row_cells_push,
    max_of, min_of, most_of, rect_cells, row_cells, COLS, INPUT_CAP, NCELLS, ROWS,
};
use crate::labels::{cell_name, copied, push_cell_name, range_name, range_ref, utf8};
use crate::modes::{cmd_at, Ask, ChartKind, Mode, CMD_ROWS, CMD_VIS};
use crate::refs::truncated;
use crate::samples::{Span, SAMPLES};
use crate::save::{decoded, encoded, law_load_gives_back_save, loaded};
use crate::sheet::{carried, Grid, Sheet};
use crate::theme::ThemeMode;

verus! {

/// Undo steps that are kept.
pub const UNDO_SLOTS: usize = 6;

/// The longest stream that is kept for an undo step.
pub const UNDO_SLOT_LEN: usize = 4096;

/// The longest stream that goes onto a card.
pub const SAVE_LEN: usize = 8192;

/// Cells the clipboard holds. Beyond this a copy is clipped, and says so.
pub const CLIP_MAX: usize = 64;

/// The longest message.
pub const STATUS_CAP: usize = 32;

/// Frames a message stays up.
pub const TOAST_TTL: u16 = 150;

/// Pixels of a row.
pub const ROW_H: i16 = 8;

/// The interface's state.
pub struct Desk {
    pub grid: Grid,
    pub dark: bool,
    pub cur_col: usize,
    pub cur_row: usize,
    pub top_col: usize,
    pub top_row: usize,
    pub mode: Mode,
    pub edit: Seq<u8>,
    pub caret: usize,
    pub fresh_kbd: bool,
    pub pick_col: usize,
    pub pick_row: usize,
    pub pick_anchor: Option<(usize, usize)>,
    pub clip: Seq<Seq<u8>>,
    pub clip_w: usize,
    pub clip_h: usize,
    pub clip_col: usize,
    pub clip_row: usize,
    pub sel_anchor: Option<(usize, usize)>,
    pub set_sel: usize,
    pub menu_top: usize,
    pub status: Seq<u8>,
    pub status_ttl: u16,
    pub status_bad: bool,
    pub history: Seq<Seq<u8>>,
    pub ask: Ask,
    pub frame: u32,
    pub scroll_px: i16,
    pub menu_sel: usize,
    pub has_save: bool,
    pub saving: bool,
    pub files: Seq<(Seq<u8>, u16)>,
    pub browse_sel: usize,
    pub browse_from_menu: bool,
    pub chart_range: Span,
    pub chart_kind: ChartKind,
}

pub open spec fn anchor_ok(a: Option<(usize, usize)>) -> bool {
    a matches Some((c, r)) ==> c < COLS && r < ROWS
}

pub open spec fn span_ok(s: Span) -> bool {
    s.0 <= s.2 < COLS && s.1 <= s.3 < ROWS
}

/// The rectangle with two cells in opposite corners.
pub open spec fn span_of(a: (usize, usize), b: (usize, usize)) -> Span {
    (
        least_of(a.0 as int, b.0 as int) as usize,
        least_of(a.1 as int, b.1 as int) as usize,
        most_of(a.0 as int, b.0 as int) as usize,
        most_of(a.1 as int, b.1 as int) as usize,
    )
}

/// The cells of a rectangle, row after row.
pub open spec fn span_cells(s: Span) -> Seq<int> {
    rect_cells(s.0 as int, s.1 as int, s.2 as int, s.3 as int)
}

/// The last of the undo steps, as many as are kept.
pub open spec fn newest(history: Seq<Seq<u8>>) -> Seq<Seq<u8>> {
    if history.len() > UNDO_SLOTS {
        history.skip(history.len() - UNDO_SLOTS)
    } else {
        history
    }
}

/// Every kept step is the stream of a sheet.
#[verifier::opaque]
pub open spec fn steps_ok(history: Seq<Seq<u8>>) -> bool {
    forall|i: int| 0 <= i < history.len() ==> decoded(#[trigger] history[i]) is Some
}

/// Entries of the start menu: the samples, and the saves if there are any.
pub open spec fn menu_count(has_save: bool) -> int {
    SAMPLES + if has_save {
        1int
    } else {
        0
    }
}

impl Desk {
    pub open spec fn wf(self) -> bool {
        &&& self.grid.wf()
        &&& self.cur_col < COLS
        &&& self.cur_row < ROWS
        &&& self.top_col < COLS
        &&& self.top_row < ROWS
        &&& self.edit.len() <= INPUT_CAP
        &&& self.caret <= self.edit.len()
        &&& self.pick_col < COLS
        &&& self.pick_row < ROWS
        &&& anchor_ok(self.pick_anchor)
        &&& self.clip.len() <= CLIP_MAX
        &&& self.clip_w <= COLS
        &&& self.clip_w * self.clip_h <= self.clip.len()
        &&& self.clip_col < COLS
        &&& self.clip_row < ROWS
        &&& anchor_ok(self.sel_anchor)
        &&& self.set_sel < CMD_ROWS
        &&& cmd_at(self.set_sel as int) is Some
        &&& self.menu_top <= self.set_sel < self.menu_top + CMD_VIS
        &&& self.status.len() <= STATUS_CAP
        &&& self.history.len() <= UNDO_SLOTS
        &&& steps_ok(self.history)
        &&& 0 <= self.scroll_px <= (ROWS - 1) * ROW_H
        &&& self.menu_sel < menu_count(self.has_save)
        &&& self.files.len() <= MAX_FILES
        &&& self.browse_sel < self.files.len() || self.browse_sel == 0
        &&& self.mode == Mode::Confirm ==> self.files.len() > 0
        &&& span_ok(self.chart_range)
    }

    /// The state at boot.
    pub open spec fn boot() -> Desk {
        Desk {
            grid: Grid::blank(),
            dark: true,
            cur_col: 0,
            cur_row: 0,
            top_col: 0,
            top_row: 0,
            mode: Mode::Menu,
            edit: Seq::empty(),
            caret: 0,
            fresh_kbd: false,
            pick_col: 0,
            pick_row: 0,
            pick_anchor: None,
            clip: Seq::empty(),
            clip_w: 0,
            clip_h: 0,
            clip_col: 0,
            clip_row: 0,
            sel_anchor: None,
            set_sel: 0,
            menu_top: 0,
            status: Seq::empty(),
            status_ttl: 0,
            status_bad: false,
            history: Seq::empty(),
            ask: Ask::DeleteSave,
            frame: 0,
            scroll_px: 0,
            menu_sel: 0,
            has_save: false,
            saving: false,
            files: Seq::empty(),
            browse_sel: 0,
            browse_from_menu: false,
            chart_range: (0, 0, 0, 0),
            chart_kind: ChartKind::Bar,
        }
    }

    /// A message goes up.
    #[verifier::opaque]
    pub open spec fn toasted(self, msg: Seq<u8>, bad: bool) -> Desk {
        Desk {
            status: truncated(msg, STATUS_CAP as int),
            status_ttl: TOAST_TTL,
            status_bad: bad,
            ..self
        }
    }

    /// One character typed at the caret; a full line takes no more.
    #[verifier::opaque]
    pub open spec fn typed(self, c: u8) -> Desk {
        if self.edit.len() >= INPUT_CAP {
            self.toasted(utf8("LINE FULL"), true)
        } else {
            Desk {
                edit: self.edit.insert(self.caret as int, c),
                caret: (self.caret + 1) as usize,
                ..self
            }
        }
    }

    /// Several characters typed one after another.
    pub open spec fn typed_all(self, s: Seq<u8>) -> Desk
        decreases s.len(),
    {
        if s.len() == 0 {
            self
        } else {
            self.typed_all(s.drop_last()).typed(s.last())
        }
    }

    /// The character before the caret deleted.
    #[verifier::opaque]
    pub open spec fn erased(self) -> Desk {
        if self.caret == 0 {
            self
        } else {
            Desk {
                edit: self.edit.remove(self.caret - 1),
                caret: (self.caret - 1) as usize,
                ..self
            }
        }
    }

    /// The rectangle that an operation acts on: the selection if one is
    /// marked, else the cell under the cursor.
    pub open spec fn target(self) -> Span {
        match self.sel_anchor {
            Some(a) => span_of(a, (self.cur_col, self.cur_row)),
            None => (self.cur_col, self.cur_row, self.cur_col, self.cur_row),
        }
    }

    /// The target's texts on the clipboard, as many as it holds.
    #[verifier::opaque]
    pub open spec fn copied(self) -> Desk {
        let t = self.target();
        let cells = span_cells(t);
        let n = least_of(cells.len() as int, CLIP_MAX as int);
        let w = t.2 - t.0 + 1;
        let next = Desk {
            clip: Seq::new(n as nat, |k: int| self.grid.texts[cells[k]]),
            clip_w: w as usize,
            clip_h: (n / w) as usize,
            clip_col: t.0,
            clip_row: t.1,
            ..self
        };
        if cells.len() > CLIP_MAX {
            next.toasted(utf8("COPIED (CLIPPED)"), true)
        } else if n == 1 {
            next.toasted(utf8("COPIED CELL"), false)
        } else {
            next.toasted(utf8("COPIED RANGE"), false)
        }
    }

    /// The sheet as it stands kept for undoing. One whose stream is too long
    /// drops the history, so that no step skips an edit.
    #[verifier::opaque]
    pub open spec fn snapshotted(self) -> Desk {
        let now = encoded(self.grid.texts);
        Desk {
            history: if now.len() <= UNDO_SLOT_LEN {
                newest(self.history.push(now))
            } else {
                Seq::empty()
            },
            ..self
        }
    }

    /// The target emptied.
    #[verifier::opaque]
    pub open spec fn cleared(self) -> Desk {
        let t = self.target();
        Desk {
            grid: self.grid.cleared(t.0 as int, t.1 as int, t.2 as int, t.3 as int).recalculated(),
            sel_anchor: None,
            ..self.snapshotted()
        }
    }

    /// The target copied, then emptied.
    #[verifier::opaque]
    pub open spec fn cut(self) -> Desk {
        self.copied().cleared().toasted(utf8("CUT"), false)
    }

    /// The sheet with the clipboard's rectangle laid down at the cursor.
    #[verifier::opaque]
    pub open spec fn pasted_block(self) -> Grid {
        let dcol = self.cur_col - self.clip_col;
        let drow = self.cur_row - self.clip_row;
        Grid {
            texts: Seq::new(
                NCELLS as nat,
                |i: int|
                    {
                        let dc = i % COLS as int - self.cur_col;
                        let dr = i / COLS as int - self.cur_row;
                        if 0 <= dc < self.clip_w && 0 <= dr < self.clip_h {
                            carried(self.clip[dr * self.clip_w + dc], dcol, drow)
                        } else {
                            self.grid.texts[i]
                        }
                    },
            ),
            results: self.grid.results,
        }.recalculated()
    }

    /// The clipboard pasted, references moved along: one cell fills the whole
    /// target, a rectangle lands with its top left at the cursor.
    #[verifier::opaque]
    pub open spec fn pasted(self) -> Desk {
        if self.clip_w == 0 || self.clip_h == 0 {
            self.toasted(utf8("CLIPBOARD EMPTY"), true)
        } else {
            let t = self.target();
            let grid = if self.clip_w == 1 && self.clip_h == 1 {
                self.grid.filled(
                    self.clip_col as int,
                    self.clip_row as int,
                    self.clip[0],
                    t.0 as int,
                    t.1 as int,
                    t.2 as int,
                    t.3 as int,
                ).recalculated()
            } else {
                self.pasted_block()
            };
            Desk { grid, sel_anchor: None, ..self.snapshotted() }.toasted(utf8("PASTED"), false)
        }
    }

    /// The last kept step taken back.
    #[verifier::opaque]
    pub open spec fn undone(self) -> Desk {
        if self.history.len() == 0 {
            self.toasted(utf8("NOTHING TO UNDO"), true)
        } else {
            let next = Desk {
                grid: loaded(self.history.last()),
                history: self.history.drop_last(),
                ..self
            };
            if decoded(self.history.last()) is Some {
                Desk { sel_anchor: None, ..next }.toasted(utf8("UNDONE"), false)
            } else {
                next.toasted(utf8("UNDO FAILED"), true)
            }
        }
    }

    /// The view at home for a freshly loaded sheet, its undo history dropped:
    /// those steps belong to the sheet that was replaced.
    #[verifier::opaque]
    pub open spec fn homed(self) -> Desk {
        Desk {
            cur_col: 0,
            cur_row: 0,
            top_col: 0,
            top_row: 0,
            scroll_px: 0,
            sel_anchor: None,
            history: Seq::empty(),
            ..self
        }
    }

    /// The cell under the cursor opened for typing: blank, or with its text
    /// and the caret behind it.
    #[verifier::opaque]
    pub open spec fn editing(self, blank: bool) -> Desk {
        let text = if blank {
            Seq::empty()
        } else {
            self.grid.texts[index_of(self.cur_col as int, self.cur_row as int)]
        };
        Desk {
            edit: text,
            caret: text.len() as usize,
            fresh_kbd: true,
            pick_col: self.cur_col,
            pick_row: self.cur_row,
            pick_anchor: None,
            sel_anchor: None,
            mode: Mode::Edit,
            ..self
        }
    }

    /// The typed text set as the cell's.
    #[verifier::opaque]
    pub open spec fn committed(self) -> Desk {
        Desk {
            grid: self.grid.set(self.cur_col as int, self.cur_row as int, self.edit),
            mode: Mode::Nav,
            ..self.snapshotted()
        }
    }

    /// A save name about to be typed.
    #[verifier::opaque]
    pub open spec fn naming(self) -> Desk {
        Desk {
            saving: true,
            edit: Seq::empty(),
            caret: 0,
            fresh_kbd: true,
            mode: Mode::Edit,
            ..self
        }
    }

    /// The file to write for the typed save name: its name, its title and its
    /// bytes.
    #[verifier::opaque]
    pub open spec fn save_job(self) -> Option<(Seq<u8>, Seq<u8>, Seq<u8>)> {
        match filename(self.edit) {
            Some(name) => if encoded(self.grid.texts).len() <= SAVE_LEN {
                Some((name, self.edit, encoded(self.grid.texts)))
            } else {
                None
            },
            None => None,
        }
    }

    /// The typed save name taken.
    #[verifier::opaque]
    pub open spec fn named(self) -> Desk {
        let next = Desk { saving: false, mode: Mode::Nav, ..self };
        if filename(self.edit) is None {
            next.toasted(utf8("NAME NEEDS A-Z 0-9"), true)
        } else if self.save_job() is None {
            next.toasted(utf8("SHEET TOO BIG"), true)
        } else {
            next
        }
    }

    /// The typed text finished: a save name taken, or a cell set.
    #[verifier::opaque]
    pub open spec fn finished(self) -> Desk {
        if self.saving {
            self.named()
        } else {
            self.committed()
        }
    }

    /// The card's answer to a save.
    #[verifier::opaque]
    pub open spec fn saved(self, res: Result<(), CardError>) -> Desk {
        match res {
            Ok(_) => Desk { has_save: true, ..self }.toasted(utf8("SAVED OK"), false),
            Err(e) => self.toasted(error_text(e), true),
        }
    }

    /// The file browser opened, its list still to come.
    #[verifier::opaque]
    pub open spec fn browsing(self, from_menu: bool) -> Desk {
        Desk {
            browse_from_menu: from_menu,
            browse_sel: 0,
            files: Seq::empty(),
            mode: Mode::Browse,
            ..self
        }
    }

    /// The browser's list filled from a card's directory.
    #[verifier::opaque]
    pub open spec fn listed(self, entries: Seq<(Seq<u8>, u16)>) -> Desk {
        Desk { files: saves_among(entries), browse_sel: 0, ..self }
    }

    /// The card's answer to a load.
    #[verifier::opaque]
    pub open spec fn loaded_file(self, reply: Result<Vec<u8>, CardError>) -> Desk {
        match reply {
            Ok(data) => {
                let next = Desk { grid: loaded(data@), ..self };
                if decoded(data@) is Some {
                    Desk { mode: Mode::Nav, ..next.homed().toasted(utf8("LOADED"), false) }
                } else {
                    next.toasted(utf8("BAD SAVE DATA"), true)
                }
            },
            Err(e) => self.toasted(error_text(e), true),
        }
    }

    /// The card's answer to a deletion, and its directory after it.
    #[verifier::opaque]
    pub open spec fn deleted(
        self,
        res: Result<(), CardError>,
        entries: Seq<(Seq<u8>, u16)>,
    ) -> Desk {
        let next = self.browsing(self.browse_from_menu).listed(entries);
        match res {
            Ok(_) => next.toasted(utf8("SAVE DELETED"), false),
            Err(e) => next.toasted(error_text(e), true),
        }
    }
}

/// A character typed and deleted again leaves the line as it was.
pub proof fn law_erase_undoes_type(d: Desk, c: u8)
    requires
        d.wf(),
        d.edit.len() < INPUT_CAP,
    ensures
        d.typed(c).erased() == d,
{
    reveal(Desk::typed);
    reveal(Desk::erased);
    let t = d.typed(c);
    assert(t.edit.remove(d.caret as int) =~= d.edit);
}

/// A typed character stands before the caret, and the others keep their order.
pub proof fn law_type_at_caret(d: Desk, c: u8)
    requires
        d.wf(),
        d.edit.len() < INPUT_CAP,
    ensures
        d.typed(c).edit == d.edit.take(d.caret as int).push(c) + d.edit.skip(d.caret as int),
        d.typed(c).caret == d.caret + 1,
{
    reveal(Desk::typed);
    assert(d.typed(c).edit =~= d.edit.take(d.caret as int).push(c) + d.edit.skip(d.caret as int));
}

/// Undoing takes back every text, whatever was done since the snapshot, and
/// leaves the steps before it.
pub proof fn law_undo_takes_back(d: Desk, after: Desk)
    requires
        d.wf(),
        encoded(d.grid.texts).len() <= UNDO_SLOT_LEN,
        after.history == d.snapshotted().history,
    ensures
        after.undone().grid.texts == d.grid.texts,
        after.undone().history == newest(d.history.push(encoded(d.grid.texts))).drop_last(),
        d.history.len() < UNDO_SLOTS ==> after.undone().history == d.history,
{
    reveal(Desk::snapshotted);
    reveal(Desk::undone);
    reveal(Desk::toasted);
    law_load_gives_back_save(d.grid.texts);
    let now = encoded(d.grid.texts);
    let h = newest(d.history.push(now));
    assert(h.last() == now);
    if d.history.len() < UNDO_SLOTS {
        assert(h.drop_last() =~= d.history);
    }
}

/// Undoing a commit gives back the texts that stood before it.
pub proof fn law_undo_takes_back_commit(d: Desk)
    requires
        d.wf(),
        encoded(d.grid.texts).len() <= UNDO_SLOT_LEN,
    ensures
        d.committed().undone().grid.texts == d.grid.texts,
{
    reveal(Desk::committed);
    law_undo_takes_back(d, d.committed());
}

/// Every kept step can be gone back to, also after another is kept.
proof fn lemma_kept_steps(history: Seq<Seq<u8>>, texts: Seq<Seq<u8>>)
    requires
        texts.len() == NCELLS,
        forall|i: int| 0 <= i < NCELLS ==> (#[trigger] texts[i]).len() <= INPUT_CAP,
        history.len() <= UNDO_SLOTS,
        steps_ok(history),
    ensures
        ({
            let next = newest(history.push(encoded(texts)));
            &&& next.len() <= UNDO_SLOTS
            &&& steps_ok(next)
        }),
{
    reveal(steps_ok);
    law_load_gives_back_save(texts);
    let all = history.push(encoded(texts));
    let next = newest(all);
    assert forall|i: int| 0 <= i < next.len() implies decoded(#[trigger] next[i]) is Some by {
        let k = if all.len() > UNDO_SLOTS {
            i + 1
        } else {
            i
        };
        assert(next[i] == all[k]);
        if k < history.len() {
            assert(all[k] == history[k]);
        }
    }
}

/// Every kept step but the last can be gone back to, and so can the last.
proof fn lemma_earlier_steps(history: Seq<Seq<u8>>)
    requires
        steps_ok(history),
        history.len() > 0,
    ensures
        steps_ok(history.drop_last()),
        decoded(history.last()) is Some,
{
    reveal(steps_ok);
    assert(history.last() == history[history.len() - 1]);
    let less = history.drop_last();
    assert forall|i: int| 0 <= i < less.len() implies decoded(#[trigger] less[i]) is Some by {
        assert(less[i] == history[i]);
    }
}

/// No step at all is fine.
proof fn lemma_no_steps()
    ensures
        steps_ok(Seq::empty()),
{
    reveal(steps_ok);
}

/// Keep one more step, and drop the oldest if there are too many.
fn keep_step(history: &mut Vec<Vec<u8>>, now: Vec<u8>)
    requires
        old(history)@.len() <= UNDO_SLOTS,
    ensures
        texts_view(final(history)@) == newest(texts_view(old(history)@).push(now@)),
{
    let ghost all = texts_view(history@).push(now@);
    history.push(now);
    assert(texts_view(history@) =~= all);
    if history.len() > UNDO_SLOTS {
        let gone: Vec<u8> = history.remove(0);
        assert(texts_view(history@) =~= all.skip(1));
    }
}

/// The interface.
pub struct Editor {
    pub sheet: Sheet,
    pub theme_mode: ThemeMode,
    pub cur_col: usize,
    pub cur_row: usize,
    pub top_col: usize,
    pub top_row: usize,
    pub mode: Mode,
    pub edit_buf: [u8; INPUT_CAP],
    pub edit_len: usize,
    /// Insertion point in `edit_buf`, `0..=edit_len`. Typing and backspace both
    /// act here, so that a typo mid-formula can be mended in place.
    pub caret: usize,
    /// The on-screen keyboard is to start afresh.
    pub fresh_kbd: bool,
    /// While in `Pick`, the roaming cursor (the cell being edited stays).
    pub pick_col: usize,
    pub pick_row: usize,
    /// Range anchor in `Pick`: `Some` while selecting a rectangle.
    pub pick_anchor: Option<(usize, usize)>,
    /// Rectangular clipboard: each cell's raw text, row after row, plus the
    /// source rectangle's top left so that a paste can shift references.
    pub clip: Vec<Vec<u8>>,
    pub clip_w: usize,
    pub clip_h: usize,
    pub clip_col: usize,
    pub clip_row: usize,
    /// Nav selection anchor. `Some` once a corner is marked; the cursor is the
    /// other corner.
    pub sel_anchor: Option<(usize, usize)>,
    /// Command-menu cursor, and the scroll offset of its list.
    pub set_sel: usize,
    pub menu_top: usize,
    /// Message, remaining frames, and whether it reads as an error.
    pub status: Vec<u8>,
    pub status_ttl: u16,
    pub status_bad: bool,
    /// The streams of the sheets that can be gone back to, oldest first.
    pub history: Vec<Vec<u8>>,
    /// Pending confirmation, live only in `Confirm`.
    pub ask: Ask,
    /// Visible-frame counter, for animation.
    pub frame: u32,
    /// Current vertical scroll in pixels, easing toward the top row's.
    pub scroll_px: i16,
    /// Start-menu cursor, and whether there is a save to offer there.
    pub menu_sel: usize,
    pub has_save: bool,
    /// True while the keyboard is entering a save name (not a cell).
    pub saving: bool,
    /// File browser: the card's saves, the cursor, and where "back" goes.
    pub files: Vec<SaveEntry>,
    pub browse_sel: usize,
    pub browse_from_menu: bool,
    /// Chart data rectangle and chart kind.
    pub chart_range: Span,
    pub chart_kind: ChartKind,
}

/// The views of some byte strings.
pub open spec fn texts_view(v: Seq<Vec<u8>>) -> Seq<Seq<u8>> {
    Seq::new(v.len(), |i: int| v[i]@)
}

impl View for Editor {
    type V = Desk;

    open spec fn view(&self) -> Desk {
        Desk {
            grid: self.sheet@,
            dark: self.theme_mode.dark,
            cur_col: self.cur_col,
            cur_row: self.cur_row,
            top_col: self.top_col,
            top_row: self.top_row,
            mode: self.mode,
            edit: self.edit_buf@.take(self.edit_len as int),
            caret: self.caret,
            fresh_kbd: self.fresh_kbd,
            pick_col: self.pick_col,
            pick_row: self.pick_row,
            pick_anchor: self.pick_anchor,
            clip: texts_view(self.clip@),
            clip_w: self.clip_w,
            clip_h: self.clip_h,
            clip_col: self.clip_col,
            clip_row: self.clip_row,
            sel_anchor: self.sel_anchor,
            set_sel: self.set_sel,
            menu_top: self.menu_top,
            status: self.status@,
            status_ttl: self.status_ttl,
            status_bad: self.status_bad,
            history: texts_view(self.history@),
            ask: self.ask,
            frame: self.frame,
            scroll_px: self.scroll_px,
            menu_sel: self.menu_sel,
            has_save: self.has_save,
            saving: self.saving,
            files: entries_view(self.files@),
            browse_sel: self.browse_sel,
            browse_from_menu: self.browse_from_menu,
            chart_range: self.chart_range,
            chart_kind: self.chart_kind,
        }
    }
}

/// A file to write to the card.
pub struct SaveJob {
    pub name: Vec<u8>,
    pub title: Vec<u8>,
    pub data: Vec<u8>,
}

/// What a job asks to be written.
pub open spec fn job_view(job: Option<SaveJob>) -> Option<(Seq<u8>, Seq<u8>, Seq<u8>)> {
    match job {
        Some(j) => Some((j.name@, j.title@, j.data@)),
        None => None,
    }
}

impl Editor {
    pub open spec fn wf(&self) -> bool {
        &&& self.sheet.wf()
        &&& self.edit_len <= INPUT_CAP
        &&& self@.wf()
    }

    /// The interface at boot.
    pub fn new() -> (e: Editor)
        ensures
            e.wf(),
            e@ == Desk::boot(),
    {
        let e = Editor {
            sheet: Sheet::new(),
            theme_mode: ThemeMode { dark: true },
            cur_col: 0,
            cur_row: 0,
            top_col: 0,
            top_row: 0,
            mode: Mode::Menu,
            edit_buf: [0;INPUT_CAP],
            edit_len: 0,
            caret: 0,
            fresh_kbd: false,
            pick_col: 0,
            pick_row: 0,
            pick_anchor: None,
            clip: Vec::new(),
            clip_w: 0,
            clip_h: 0,
            clip_col: 0,
            clip_row: 0,
            sel_anchor: None,
            set_sel: 0,
            menu_top: 0,
            status: Vec::new(),
            status_ttl: 0,
            status_bad: false,
            history: Vec::new(),
            ask: Ask::DeleteSave,
            frame: 0,
            scroll_px: 0,
            menu_sel: 0,
            has_save: false,
            saving: false,
            files: Vec::new(),
            browse_sel: 0,
            browse_from_menu: false,
            chart_range: (0, 0, 0, 0),
            chart_kind: ChartKind::Bar,
        };
        proof {
            e.sheet.lemma_view_wf();
        }
        assert(e@.edit =~= Seq::<u8>::empty());
        assert(e@.clip =~= Seq::<Seq<u8>>::empty());
        assert(e@.history =~= Seq::<Seq<u8>>::empty());
        assert(e@.files =~= Seq::<(Seq<u8>, u16)>::empty());
        proof {
            lemma_no_steps();
        }
        e
    }

    /// The text being typed.
    pub fn typed_text(&self) -> (s: &[u8])
        requires
            self.wf(),
        ensures
            s@ == self@.edit,
    {
        let s: &[u8] = vstd::slice::slice_subrange(self.edit_buf.as_slice(), 0, self.edit_len);
        assert(s@ =~= self@.edit);
        s
    }

    /// Post a transient message.
    pub fn toast(&mut self, s: &str, bad: bool)
        requires
            old(self).wf(),
        ensures
            final(self).wf(),
            final(self)@ == old(self)@.toasted(utf8(s), bad),
    {
        proof {
            reveal(Desk::toasted);
        }
        self.status = crate::labels::clip(s.as_bytes(), STATUS_CAP);
        self.status_ttl = TOAST_TTL;
        self.status_bad = bad;
    }

    /// Insert one character at the caret, shifting the tail right.
    pub fn push(&mut self, c: u8)
        requires
            old(self).wf(),
        ensures
            final(self).wf(),
            final(self)@ == old(self)@.typed(c),
    {
        proof {
            reveal(Desk::typed);
        }
        if self.edit_len >= INPUT_CAP {
            self.toast("LINE FULL", true);
            return;
        }
        let ghost text = self@.edit;
        let mut k: usize = self.edit_len;
        while k > self.caret
            invariant
                self.wf(),
                *self == (Editor { edit_buf: self.edit_buf, ..*old(self) }),
                self.caret <= k <= self.edit_len < INPUT_CAP,
                text == old(self)@.edit,
                forall|j: int| 0 <= j < k ==> #[trigger] self.edit_buf@[j] == text[j],
                forall|j: int| k < j <= self.edit_len ==> #[trigger] self.edit_buf@[j] == text[j - 1],
            decreases k,
        {
            self.edit_buf[k] = self.edit_buf[k - 1];
            k -= 1;
        }
        self.edit_buf[self.caret] = c;
        self.edit_len += 1;
        self.caret += 1;
        assert(self@.edit =~= text.insert(old(self).caret as int, c));
    }

    /// Delete the character before the caret, closing the gap.
    pub fn backspace(&mut self)
        requires
            old(self).wf(),
        ensures
            final(self).wf(),
            final(self)@ == old(self)@.erased(),
    {
        proof {
            reveal(Desk::erased);
        }
        if self.caret == 0 {
            return;
        }
        let ghost text = self@.edit;
        let mut k: usize = self.caret;
        while k < self.edit_len
            invariant
                self.edit_len <= INPUT_CAP,
                *self == (Editor { edit_buf: self.edit_buf, ..*old(self) }),
                0 < self.caret <= k <= self.edit_len,
                text == old(self)@.edit,
                forall|j: int| 0 <= j < self.caret - 1 ==> #[trigger] self.edit_buf@[j] == text[j],
                forall|j: int| self.caret <= j < k ==> #[trigger] self.edit_buf@[j - 1] == text[j],
                forall|j: int| k <= j < self.edit_len ==> #[trigger] self.edit_buf@[j] == text[j],
            decreases self.edit_len - k,
        {
            self.edit_buf[k - 1] = self.edit_buf[k];
            k += 1;
        }
        self.edit_len -= 1;
        self.caret -= 1;
        assert(self@.edit =~= text.remove(old(self).caret - 1)) by {
            assert forall|j: int| 0 <= j < text.len() - 1 implies self@.edit[j] == text.remove(
                old(self).caret - 1,
            )[j] by {
                if j >= old(self).caret - 1 {
                    assert(self.edit_buf@[(j + 1) - 1] == text[j + 1]);
                }
            }
        }
    }

    /// Type several characters.
    fn push_bytes(&mut self, s: &[u8])
        requires
            old(self).wf(),
        ensures
            final(self).wf(),
            final(self)@ == old(self)@.typed_all(s@),
    {
        let mut i: usize = 0;
        assert(s@.take(0) =~= Seq::<u8>::empty());
        while i < s.len()
            invariant
                self.wf(),
                i <= s@.len(),
                self@ == old(self)@.typed_all(s@.take(i as int)),
            decreases s@.len() - i,
        {
            self.push(s[i]);
            assert(s@.take(i + 1).drop_last() =~= s@.take(i as int));
            i += 1;
        }
        assert(s@.take(s@.len() as int) =~= s@);
    }

    /// Type a cell reference, like `B12`.
    pub fn push_ref(&mut self, col: usize, row: usize)
        requires
            old(self).wf(),
            col < COLS,
            row < ROWS,
        ensures
            final(self).wf(),
            final(self)@ == old(self)@.typed_all(cell_name(col as int, row as int)),
    {
        let mut s: Vec<u8> = Vec::new();
        push_cell_name(&mut s, col, row);
        assert(s@ =~= cell_name(col as int, row as int));
        self.push_bytes(s.as_slice());
    }

    /// Type a range, like `A1:B5`, its corners put in order.
    pub fn push_range(&mut self, c0: usize, r0: usize, c1: usize, r1: usize)
        requires
            old(self).wf(),
            c0 < COLS,
            r0 < ROWS,
            c1 < COLS,
            r1 < ROWS,
        ensures
            final(self).wf(),
            ({
                let s = span_of((c0, r0), (c1, r1));
                final(self)@ == old(self)@.typed_all(
                    range_name(s.0 as int, s.1 as int, s.2 as int, s.3 as int),
                )
            }),
    {
        let s: Vec<u8> = range_ref(min_of(c0, c1), min_of(r0, r1), max_of(c0, c1), max_of(r0, r1));
        self.push_bytes(s.as_slice());
    }

    /// The rectangle an operation acts on.
    pub fn target_rect(&self) -> (t: Span)
        requires
            self.wf(),
        ensures
            t == self@.target(),
            span_ok(t),
    {
        match self.sel_anchor {
            Some((ac, ar)) => (
                min_of(ac, self.cur_col),
                min_of(ar, self.cur_row),
                max_of(ac, self.cur_col),
                max_of(ar, self.cur_row),
            ),
            None => (self.cur_col, self.cur_row, self.cur_col, self.cur_row),
        }
    }

    /// Copy the target rectangle's raw text onto the clipboard. Oversized
    /// rectangles are clipped to [`CLIP_MAX`] cells and say so.
    pub fn copy(&mut self)
        requires
            old(self).wf(),
        ensures
            final(self).wf(),
            final(self)@ == old(self)@.copied(),
    {
        proof {
            reveal(Desk::copied);
        }
        let (c0, r0, c1, r1) = self.target_rect();
        let ghost cells = span_cells((c0, r0, c1, r1));
        let ghost texts = self@.grid.texts;
        proof {
            lemma_rect_cells_len(c0 as int, r0 as int, c1 as int, r1 as int);
            lemma_rect_cells_on_grid(c0 as int, r0 as int, c1 as int, r1 as int);
        }
        let mut clip: Vec<Vec<u8>> = Vec::new();
        let mut full = false;
        let ghost mut seen: Seq<int> = seq![];
        let mut row: usize = r0;
        while row <= r1
            invariant
                self.wf(),
                *self == *old(self),
                texts == self@.grid.texts,
                c0 <= c1 < COLS,
                r0 <= row <= r1 + 1,
                r1 < ROWS,
                seen == rect_cells(c0 as int, r0 as int, c1 as int, row - 1),
                clip@.len() == least_of(seen.len() as int, CLIP_MAX as int),
                full == (seen.len() > CLIP_MAX),
                forall|k: int| 0 <= k < clip@.len() ==> #[trigger] clip@[k]@ == texts[seen[k]],
            decreases r1 + 1 - row,
        {
            let ghost above = seen;
            let mut col: usize = c0;
            while col <= c1
                invariant
                    self.wf(),
                    *self == *old(self),
                    texts == self@.grid.texts,
                    c0 <= col <= c1 + 1,
                    c1 < COLS,
                    r0 <= row <= r1 < ROWS,
                    above == rect_cells(c0 as int, r0 as int, c1 as int, row - 1),
                    seen == above + row_cells(c0 as int, col - 1, row as int),
                    clip@.len() == least_of(seen.len() as int, CLIP_MAX as int),
                    full == (seen.len() > CLIP_MAX),
                    forall|k: int| 0 <= k < clip@.len() ==> #[trigger] clip@[k]@ == texts[seen[k]],
                decreases c1 + 1 - col,
            {
                let i: usize = idx(col, row);
                proof {
                    lemma_row_cells_push(c0 as int, col as int, row as int);
                    let next = seen.push(i as int);
                    assert(next =~= above + row_cells(c0 as int, col as int, row as int));
                    seen = next;
                }
                if clip.len() >= CLIP_MAX {
                    full = true;
                } else {
                    let cell = self.sheet.cells[i];
                    clip.push(copied(cell.raw()));
                    assert(texts[i as int] == cell.text());
                }
                col += 1;
            }
            row += 1;
        }
        let n: usize = clip.len();
        let w: usize = c1 - c0 + 1;
        assert(seen == cells);
        assert(cells.len() >= 1) by {
            assert((c1 - c0 + 1) * (r1 - r0 + 1) >= 1) by (nonlinear_arith)
                requires
                    c1 - c0 + 1 >= 1,
                    r1 - r0 + 1 >= 1,
            ;
        }
        self.clip = clip;
        self.clip_w = w;
        self.clip_h = n / w;
        self.clip_col = c0;
        self.clip_row = r0;
        assert(w * (n as int / w as int) <= n) by (nonlinear_arith)
            requires
                w >= 1,
        ;
        assert(self@.clip =~= Seq::new(n as nat, |k: int| texts[cells[k]]));
        if full {
            self.toast("COPIED (CLIPPED)", true);
        } else if n == 1 {
            self.toast("COPIED CELL", false);
        } else {
            self.toast("COPIED RANGE", false);
        }
    }

    /// Keep the sheet as it stands before a mutation. One too dense for an undo
    /// step drops the whole history, so that [`Editor::undo`] does not restore
    /// a state that skips an edit.
    pub fn push_undo(&mut self)
        requires
            old(self).wf(),
        ensures
            final(self).wf(),
            final(self)@ == old(self)@.snapshotted(),
    {
        proof {
            reveal(Desk::snapshotted);
        }
        proof {
            self.sheet.lemma_view_wf();
            lemma_kept_steps(self@.history, self@.grid.texts);
        }
        match self.sheet.stream(UNDO_SLOT_LEN) {
            Some(now) => {
                keep_step(&mut self.history, now);
            },
            None => {
                self.history = Vec::new();
                assert(self@.history =~= Seq::<Seq<u8>>::empty());
                proof {
                    lemma_no_steps();
                }
            },
        }
    }

    /// Empty the target rectangle, after a snapshot.
    pub(crate) fn clear_target(&mut self)
        requires
            old(self).wf(),
        ensures
            final(self).wf(),
            final(self)@ == old(self)@.cleared(),
    {
        proof {
            reveal(Desk::cleared);
            reveal(Desk::snapshotted);
        }
        self.push_undo();
        let (c0, r0, c1, r1) = self.target_rect();
        self.sheet.clear_rect(c0, r0, c1, r1);
        proof {
            self.sheet.lemma_view_wf();
        }
        self.sel_anchor = None;
    }

    /// Cut: copy, then clear the source.
    pub fn cut(&mut self)
        requires
            old(self).wf(),
        ensures
            final(self).wf(),
            final(self)@ == old(self)@.cut(),
    {
        proof {
            reveal(Desk::cut);
        }
        self.copy();
        self.clear_target();
        self.toast("CUT", false);
    }

    /// Lay the clipboard's rectangle down at the cursor.
    fn paste_block(&mut self)
        requires
            old(self).wf(),
        ensures
            final(self).wf(),
            final(self)@ == (Desk { grid: old(self)@.pasted_block(), ..old(self)@ }),
    {
        proof {
            reveal(Desk::pasted_block);
        }
        let dcol: i32 = self.cur_col as i32 - self.clip_col as i32;
        let drow: i32 = self.cur_row as i32 - self.clip_row as i32;
        let ghost d = self@;
        let ghost before = self@.grid;
        let ghost goal = |i: int|
            {
                let dc = i % COLS as int - d.cur_col;
                let dr = i / COLS as int - d.cur_row;
                if 0 <= dc < d.clip_w && 0 <= dr < d.clip_h {
                    carried(d.clip[dr * d.clip_w + dc], dcol as int, drow as int)
                } else {
                    before.texts[i]
                }
            };
        let mut i: usize = 0;
        while i < NCELLS
            invariant
                i <= NCELLS,
                old(self).wf(),
                self.sheet.wf(),
                *self == (Editor { sheet: self.sheet, ..*old(self) }),
                d == old(self)@,
                before == d.grid,
                dcol == d.cur_col - d.clip_col,
                drow == d.cur_row - d.clip_row,
                goal == (|i: int|
                    {
                        let dc = i % COLS as int - d.cur_col;
                        let dr = i / COLS as int - d.cur_row;
                        if 0 <= dc < d.clip_w && 0 <= dr < d.clip_h {
                            carried(d.clip[dr * d.clip_w + dc], dcol as int, drow as int)
                        } else {
                            before.texts[i]
                        }
                    }),
                self.sheet@.results == before.results,
                forall|j: int| 0 <= j < i ==> #[trigger] self.sheet@.texts[j] == goal(j),
                forall|j: int| i <= j < NCELLS ==> #[trigger] self.sheet@.texts[j] == before.texts[j],
            decreases NCELLS - i,
        {
            let col: usize = i % COLS;
            let row: usize = i / COLS;
            let ghost prev = self.sheet@;
            if col >= self.cur_col && col - self.cur_col < self.clip_w && row >= self.cur_row && row
                - self.cur_row < self.clip_h {
                let dc: usize = col - self.cur_col;
                let dr: usize = row - self.cur_row;
                assert(0 <= dr * d.clip_w + dc < d.clip_w * d.clip_h) by (nonlinear_arith)
                    requires
                        dc < d.clip_w,
                        dr < d.clip_h,
                ;
                assert(0 <= dr * d.clip_w) by (nonlinear_arith);
                let k: usize = dr * self.clip_w + dc;
                assert(d.clip[k as int] == self.clip@[k as int]@);
                let text: Vec<u8> = copied(self.clip[k].as_slice());
                self.sheet.set_shifted(col, row, text.as_slice(), dcol, drow);
                assert(index_of(col as int, row as int) == i);
                let ghost t = carried(text@, dcol as int, drow as int);
                assert(truncated(t, INPUT_CAP as int) =~= t);
                assert(self.sheet@.texts == prev.texts.update(i as int, t));
            }
            assert(forall|j: int| 0 <= j < NCELLS && j != i ==> #[trigger] self.sheet@.texts[j] == prev.texts[j]);
            assert(self.sheet@.texts[i as int] == goal(i as int));
            i += 1;
        }
        let ghost laid = Grid { texts: Seq::new(NCELLS as nat, goal), results: before.results };
        assert(self.sheet@ =~= laid);
        self.sheet.recalc();
        proof {
            self.sheet.lemma_view_wf();
            assert(laid.recalculated() =~= d.pasted_block()) by {
                assert(laid.texts =~= d.pasted_block().texts);
            }
        }
    }

    /// Paste the clipboard, references shifted by the move. A single copied
    /// cell pasted onto a selection fills the whole selection; a copied
    /// rectangle lands with its top left at the cursor.
    pub fn paste(&mut self)
        requires
            old(self).wf(),
        ensures
            final(self).wf(),
            final(self)@ == old(self)@.pasted(),
    {
        proof {
            reveal(Desk::pasted);
            reveal(Desk::snapshotted);
            reveal(Desk::pasted_block);
        }
        if self.clip_w == 0 || self.clip_h == 0 {
            self.toast("CLIPBOARD EMPTY", true);
            return;
        }
        self.push_undo();
        if self.clip_w == 1 && self.clip_h == 1 {
            let (c0, r0, c1, r1) = self.target_rect();
            assert(self@.clip[0] == self.clip@[0]@);
            let text: Vec<u8> = copied(self.clip[0].as_slice());
            self.sheet.fill(self.clip_col, self.clip_row, text.as_slice(), c0, r0, c1, r1);
            proof {
                self.sheet.lemma_view_wf();
            }
        } else {
            self.paste_block();
        }
        self.sel_anchor = None;
        self.toast("PASTED", false);
    }

    /// Take back the last kept step.
    pub fn undo(&mut self)
        requires
            old(self).wf(),
        ensures
            final(self).wf(),
            final(self)@ == old(self)@.undone(),
    {
        proof {
            reveal(Desk::undone);
        }
        if self.history.len() == 0 {
            self.toast("NOTHING TO UNDO", true);
            return;
        }
        let ghost before = self@.history;
        match self.history.pop() {
            Some(last) => {
                assert(last@ == before.last());
                assert(self@.history =~= before.drop_last());
                let ok: bool = self.sheet.deserialize(last.as_slice());
                proof {
                    self.sheet.lemma_view_wf();
                    lemma_earlier_steps(before);
                }
                if ok {
                    self.sel_anchor = None;
                    self.toast("UNDONE", false);
                } else {
                    self.toast("UNDO FAILED", true);
                }
            },
            None => {},
        }
    }

    /// Home the view for a freshly loaded sheet, and drop the undo history
    /// with it.
    pub fn reset_view(&mut self)
        requires
            old(self).wf(),
        ensures
            final(self).wf(),
            final(self)@ == old(self)@.homed(),
    {
        proof {
            reveal(Desk::homed);
        }
        self.cur_col = 0;
        self.cur_row = 0;
        self.top_col = 0;
        self.top_row = 0;
        self.scroll_px = 0;
        self.sel_anchor = None;
        self.history = Vec::new();
        assert(self@.history =~= Seq::<Seq<u8>>::empty());
        proof {
            lemma_no_steps();
        }
    }

    /// Open the cell under the cursor for typing, blank or with its text.
    pub fn begin_edit(&mut self, blank: bool)
        requires
            old(self).wf(),
        ensures
            final(self).wf(),
            final(self)@ == old(self)@.editing(blank),
    {
        proof {
            reveal(Desk::editing);
        }
        let i: usize = idx(self.cur_col, self.cur_row);
        let cell = self.sheet.cells[i];
        assert(self@.grid.texts[i as int] == cell.text());
        let n: usize = if blank {
            0
        } else {
            cell.len as usize
        };
        let ghost text: Seq<u8> = if blank {
            Seq::empty()
        } else {
            cell.text()
        };
        let mut buf: [u8; INPUT_CAP] = self.edit_buf;
        let mut k: usize = 0;
        while k < n
            invariant
                k <= n <= cell.len <= INPUT_CAP,
                forall|j: int| 0 <= j < k ==> #[trigger] buf@[j] == cell.buf@[j],
            decreases n - k,
        {
            buf[k] = cell.buf[k];
            k += 1;
        }
        self.edit_buf = buf;
        self.edit_len = n;
        assert(self@.edit =~= text);
        self.caret = n;
        self.fresh_kbd = true;
        self.pick_col = self.cur_col;
        self.pick_row = self.cur_row;
        self.pick_anchor = None;
        self.sel_anchor = None;
        self.mode = Mode::Edit;
    }

    /// Set the cell under the cursor to the typed text.
    pub fn commit(&mut self)
        requires
            old(self).wf(),
        ensures
            final(self).wf(),
            final(self)@ == old(self)@.committed(),
    {
        proof {
            reveal(Desk::committed);
            reveal(Desk::snapshotted);
        }
        self.push_undo();
        let text: Vec<u8> = copied(self.typed_text());
        self.sheet.set(self.cur_col, self.cur_row, text.as_slice());
        proof {
            self.sheet.lemma_view_wf();
        }
        self.mode = Mode::Nav;
    }

    /// Begin entering a save name.
    pub fn begin_saveas(&mut self)
        requires
            old(self).wf(),
        ensures
            final(self).wf(),
            final(self)@ == old(self)@.naming(),
    {
        proof {
            reveal(Desk::naming);
        }
        self.saving = true;
        self.edit_len = 0;
        assert(self@.edit =~= Seq::<u8>::empty());
        self.caret = 0;
        self.fresh_kbd = true;
        self.mode = Mode::Edit;
    }

    /// Take the typed save name. Gives the file to write, if there is one.
    pub fn commit_saveas(&mut self) -> (job: Option<SaveJob>)
        requires
            old(self).wf(),
        ensures
            final(self).wf(),
            final(self)@ == old(self)@.named(),
            job_view(job) == old(self)@.save_job(),
    {
        proof {
            reveal(Desk::named);
            reveal(Desk::save_job);
        }
        self.saving = false;
        self.mode = Mode::Nav;
        let title: Vec<u8> = copied(self.typed_text());
        let name: Option<Vec<u8>> = make_filename(title.as_slice());
        match name {
            None => {
                self.toast("NAME NEEDS A-Z 0-9", true);
                None
            },
            Some(name) => {
                match self.sheet.stream(SAVE_LEN) {
                    None => {
                        self.toast("SHEET TOO BIG", true);
                        None
                    },
                    Some(data) => Some(SaveJob { name, title, data }),
                }
            },
        }
    }

    /// Finish typing: take the save name if naming, else set the cell.
    pub fn finish_edit(&mut self) -> (job: Option<SaveJob>)
        requires
            old(self).wf(),
        ensures
            final(self).wf(),
            final(self)@ == old(self)@.finished(),
            job_view(job) == if old(self)@.saving {
                old(self)@.save_job()
            } else {
                None
            },
    {
        proof {
            reveal(Desk::finished);
        }
        if self.saving {
            self.commit_saveas()
        } else {
            self.commit();
            None
        }
    }

    /// The card has answered a save.
    pub fn on_saved(&mut self, res: Result<(), CardError>)
        requires
            old(self).wf(),
        ensures
            final(self).wf(),
            final(self)@ == old(self)@.saved(res),
    {
        proof {
            reveal(Desk::saved);
        }
        match res {
            Ok(_) => {
                // The title screen only offers the saves when there is one.
                self.has_save = true;
                self.toast("SAVED OK", false);
            },
            Err(e) => {
                self.toast(mc_err(e), true);
            },
        }
    }

    /// Open the file browser; its list is still to be read from the card.
    pub fn enter_browse(&mut self, from_menu: bool)
        requires
            old(self).wf(),
        ensures
            final(self).wf(),
            final(self)@ == old(self)@.browsing(from_menu),
    {
        proof {
            reveal(Desk::browsing);
        }
        self.browse_from_menu = from_menu;
        self.browse_sel = 0;
        self.files = Vec::new();
        assert(self@.files =~= Seq::<(Seq<u8>, u16)>::empty());
        self.mode = Mode::Browse;
    }

    /// The card's directory has been read.
    pub fn on_listed(&mut self, entries: &Vec<SaveEntry>)
        requires
            old(self).wf(),
            old(self).mode != Mode::Confirm,
        ensures
            final(self).wf(),
            final(self)@ == old(self)@.listed(entries_view(entries@)),
    {
        proof {
            reveal(Desk::listed);
        }
        self.files = pick_saves(entries);
        self.browse_sel = 0;
    }

    /// Go back to the grid.
    pub(crate) fn to_nav(&mut self)
        requires
            old(self).wf(),
        ensures
            final(self).wf(),
            final(self)@ == (Desk { mode: Mode::Nav, ..old(self)@ }),
    {
        self.mode = Mode::Nav;
    }

    /// The card has answered a load.
    pub fn on_loaded(&mut self, reply: Result<Vec<u8>, CardError>)
        requires
            old(self).wf(),
        ensures
            final(self).wf(),
            final(self)@ == old(self)@.loaded_file(reply),
    {
        proof {
            reveal(Desk::loaded_file);
        }
        match reply {
            Ok(data) => {
                let ok: bool = self.sheet.deserialize(data.as_slice());
                proof {
                    self.sheet.lemma_view_wf();
                }
                if ok {
                    self.reset_view();
                    self.toast("LOADED", false);
                    self.to_nav();
                } else {
                    self.toast("BAD SAVE DATA", true);
                }
            },
            Err(e) => {
                self.toast(mc_err(e), true);
            },
        }
    }

    /// The card has answered a deletion, and its directory has been read again.
    pub fn on_deleted(&mut self, res: Result<(), CardError>, entries: &Vec<SaveEntry>)
        requires
            old(self).wf(),
        ensures
            final(self).wf(),
            final(self)@ == old(self)@.deleted(res, entries_view(entries@)),
    {
        proof {
            reveal(Desk::deleted);
            reveal(Desk::browsing);
        }
        let from_menu: bool = self.browse_from_menu;
        self.enter_browse(from_menu);
        self.on_listed(entries);
        match res {
            Ok(_) => {
                self.toast("SAVE DELETED", false);
            },
            Err(e) => {
                self.toast(mc_err(e), true);
            },
        }
    }
}

} // verus!
