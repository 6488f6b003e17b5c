//! One tick of the interface: what the pad does in each mode.

use vstd::prelude::*;

use crate::card::CardError;
use crate::editor::{
    job_view, law_undo_takes_back, law_undo_takes_back_commit, menu_count, span_of, Desk, Editor,
    SaveJob, ROW_H, UNDO_SLOT_LEN,
};
use crate::grid::{max_of, min_of, COLS, ROWS};
use crate::labels::{cell_name, copied, range_name, utf8};
use crate::modes::{cmd_at, cmd_row, next_kind, Ask, Cmd, Mode, CMD_ROWS, CMD_VIS};
use crate::refs::{clamped, Shift};
use crate::samples::{fill_sample, opening_chart, sample_chart, sample_grid, SAMPLES};
use crate::save::encoded;
use crate::sheet::Grid;
use crate::theme::{is_dark, set_dark};

verus! {

/// Columns on the screen.
pub const VIS_COLS: usize = 8;

/// Rows on the screen.
pub const VIS_ROWS: usize = 24;

/// What the pad says in one tick: directions that fire, with their automatic
/// repeats; buttons that were just pressed; and whether L2 is held.
#[derive(Copy, Clone, PartialEq, Eq, Structural)]
pub struct Input {
    pub step_left: bool,
    pub step_right: bool,
    pub step_up: bool,
    pub step_down: bool,
    pub left: bool,
    pub right: bool,
    pub up: bool,
    pub down: bool,
    pub cross: bool,
    pub circle: bool,
    pub square: bool,
    pub triangle: bool,
    pub l1: bool,
    pub r1: bool,
    pub r2: bool,
    pub start: bool,
    pub select: bool,
    pub l2: bool,
}

/// What the highlighted key of the on-screen keyboard does.
#[derive(Copy, Clone, PartialEq, Eq, Structural)]
pub enum Key {
    Insert(u8),
    Backspace,
    Commit,
    Idle,
}

/// What the on-screen keyboard is to do in one tick, in this order: step its
/// highlight each way that is set, use the highlighted key, jump to OK.
#[derive(Copy, Clone, PartialEq, Eq, Structural)]
pub struct KeyPlan {
    pub left: bool,
    pub right: bool,
    pub up: bool,
    pub down: bool,
    pub activate: bool,
    pub to_ok: bool,
}

/// What the interface asks of the memory card.
pub enum Request {
    Idle,
    /// Read the directory, for [`Editor::on_listed`].
    List,
    /// Delete the file, then read the directory, for [`Editor::on_deleted`].
    Delete(Vec<u8>),
    /// Write the file, for [`Editor::on_saved`].
    Save(SaveJob),
}

/// What is asked of the memory card.
pub enum Wish {
    Idle,
    List,
    Delete(Seq<u8>),
    Save(Seq<u8>, Seq<u8>, Seq<u8>),
}

impl View for Request {
    type V = Wish;

    open spec fn view(&self) -> Wish {
        match *self {
            Request::Idle => Wish::Idle,
            Request::List => Wish::List,
            Request::Delete(name) => Wish::Delete(name@),
            Request::Save(job) => Wish::Save(job.name@, job.title@, job.data@),
        }
    }
}

/// The wish to write a file, if there is one.
pub open spec fn wish_to_save(job: Option<(Seq<u8>, Seq<u8>, Seq<u8>)>) -> Wish {
    match job {
        Some((name, title, data)) => Wish::Save(name, title, data),
        None => Wish::Idle,
    }
}

/// A place `step` back and `step` on along a line of `len`, as asked.
pub open spec fn walked(at: int, back: bool, on: bool, step: int, len: int) -> int {
    let there = if back {
        clamped(at - step, 0, len - 1)
    } else {
        at
    };
    if on {
        clamped(there + step, 0, len - 1)
    } else {
        there
    }
}

fn walk(at: usize, back: bool, on: bool, step: usize, len: usize) -> (r: usize)
    requires
        at < len <= 1000,
        step <= 1000,
    ensures
        r == walked(at as int, back, on, step as int, len as int),
        r < len,
{
    let there: usize = if back {
        if at >= step {
            at - step
        } else {
            0
        }
    } else {
        at
    };
    if on {
        min_of(there + step, len - 1)
    } else {
        there
    }
}

/// The first command of the menu from row `i` on, going up or down.
pub open spec fn next_command(i: int, d: int) -> Option<int>
    decreases
        (if d > 0 {
            CMD_ROWS - i
        } else {
            i + 1
        }),
    when d == 1 || d == -1
{
    if !(0 <= i < CMD_ROWS) {
        None
    } else if cmd_at(i) is Some {
        Some(i)
    } else {
        next_command(i + d, d)
    }
}

/// The sheet with `n` blank rows inserted at `at`.
pub open spec fn rows_inserted(g: Grid, at: usize, n: int) -> Grid
    decreases n,
{
    if n <= 0 {
        g
    } else {
        rows_inserted(g, at, n - 1).with_row(at as int).repointed(
            Shift::Rows { at, delta: 1 },
        ).recalculated()
    }
}

/// The sheet without the `n` rows from `at` on.
pub open spec fn rows_deleted(g: Grid, at: usize, n: int) -> Grid
    decreases n,
{
    if n <= 0 {
        g
    } else {
        rows_deleted(g, at, n - 1).without_row(at as int).repointed(
            Shift::Rows { at, delta: (-1) as i32 },
        ).recalculated()
    }
}

/// The sheet with `n` blank columns inserted at `at`.
pub open spec fn cols_inserted(g: Grid, at: usize, n: int) -> Grid
    decreases n,
{
    if n <= 0 {
        g
    } else {
        cols_inserted(g, at, n - 1).with_col(at as int).repointed(
            Shift::Cols { at, delta: 1 },
        ).recalculated()
    }
}

/// The sheet without the `n` columns from `at` on.
pub open spec fn cols_deleted(g: Grid, at: usize, n: int) -> Grid
    decreases n,
{
    if n <= 0 {
        g
    } else {
        cols_deleted(g, at, n - 1).without_col(at as int).repointed(
            Shift::Cols { at, delta: (-1) as i32 },
        ).recalculated()
    }
}

/// The top of a window of `vis` lines moved no further than needed to show
/// line `at`.
pub open spec fn window_top(top: int, at: int, vis: int) -> int {
    if at < top {
        at
    } else if at >= top + vis {
        at - vis + 1
    } else {
        top
    }
}

/// A quarter of the way from `at` to `target`, but at least one pixel of what
/// is left.
pub open spec fn eased(at: int, target: int) -> int {
    let d = if target >= at {
        target - at
    } else {
        at - target
    };
    let step = if d / 4 >= 1 {
        d / 4
    } else if d >= 1 {
        1
    } else {
        0
    };
    if target >= at {
        at + step
    } else {
        at - step
    }
}

impl Desk {
    /// The cell that the grid highlights: the roaming cursor while picking,
    /// else the selected or edited cell.
    pub open spec fn active(self) -> (usize, usize) {
        if self.mode == Mode::Pick {
            (self.pick_col, self.pick_row)
        } else {
            (self.cur_col, self.cur_row)
        }
    }

    /// Nav: the directions move the cursor, by whole screens while L2 is held.
    #[verifier::opaque]
    pub open spec fn nav_moved(self, i: Input) -> Desk {
        let dc = if i.l2 {
            VIS_COLS as int
        } else {
            1
        };
        let dr = if i.l2 {
            VIS_ROWS as int
        } else {
            1
        };
        Desk {
            cur_col: walked(
                self.cur_col as int,
                i.step_left,
                i.step_right,
                dc,
                COLS as int,
            ) as usize,
            cur_row: walked(self.cur_row as int, i.step_up, i.step_down, dr, ROWS as int) as usize,
            ..self
        }
    }

    /// Nav: X edits, TRIANGLE starts afresh, SQUARE clears, L1 copies and R1
    /// pastes.
    #[verifier::opaque]
    pub open spec fn nav_acted(self, i: Input) -> Desk {
        let a = if i.cross {
            self.editing(false)
        } else {
            self
        };
        let b = if i.triangle {
            a.editing(true)
        } else {
            a
        };
        let c = if i.square {
            b.cleared().toasted(utf8("CLEARED"), false)
        } else {
            b
        };
        let d = if i.l1 {
            c.copied()
        } else {
            c
        };
        if i.r1 {
            d.pasted()
        } else {
            d
        }
    }

    /// Nav: R2 marks a selection corner, O drops it.
    #[verifier::opaque]
    pub open spec fn nav_anchored(self, i: Input) -> Desk {
        Desk {
            sel_anchor: if i.circle {
                None
            } else if i.r2 {
                Some((self.cur_col, self.cur_row))
            } else {
                self.sel_anchor
            },
            ..self
        }
    }

    /// The cursor on the first cell.
    #[verifier::opaque]
    pub open spec fn at_home(self) -> Desk {
        Desk { cur_col: 0, cur_row: 0, ..self }
    }

    /// The command menu opened.
    #[verifier::opaque]
    pub open spec fn menu_opened(self) -> Desk {
        Desk { set_sel: 0, menu_top: 0, mode: Mode::Cmd, ..self }
    }

    /// Nav: the selection; START undoes or, with L2, goes home; SELECT opens
    /// the menu.
    #[verifier::opaque]
    pub open spec fn nav_marked(self, i: Input) -> Desk {
        let a = self.nav_anchored(i);
        let b = if i.start {
            if i.l2 {
                a.at_home()
            } else {
                a.undone()
            }
        } else {
            a
        };
        if i.select {
            b.menu_opened()
        } else {
            b
        }
    }

    /// A tick in `Nav`.
    #[verifier::opaque]
    pub open spec fn nav(self, i: Input) -> Desk {
        self.nav_moved(i).nav_acted(i).nav_marked(i)
    }

    /// Pick: roam the grid; SQUARE drops or lifts a range anchor.
    #[verifier::opaque]
    pub open spec fn pick_moved(self, i: Input) -> Desk {
        let col = walked(self.pick_col as int, i.step_left, i.step_right, 1, COLS as int) as usize;
        let row = walked(self.pick_row as int, i.step_up, i.step_down, 1, ROWS as int) as usize;
        Desk {
            pick_col: col,
            pick_row: row,
            pick_anchor: if i.square {
                if self.pick_anchor is Some {
                    None
                } else {
                    Some((col, row))
                }
            } else {
                self.pick_anchor
            },
            ..self
        }
    }

    /// The text that picking types: the range from the anchor to the cursor,
    /// or the cell under the cursor.
    pub open spec fn picked_name(self) -> Seq<u8> {
        match self.pick_anchor {
            Some(anchor) => {
                let s = span_of(anchor, (self.pick_col, self.pick_row));
                range_name(s.0 as int, s.1 as int, s.2 as int, s.3 as int)
            },
            None => cell_name(self.pick_col as int, self.pick_row as int),
        }
    }

    /// Back to typing.
    #[verifier::opaque]
    pub open spec fn unpicked(self) -> Desk {
        Desk { pick_anchor: None, mode: Mode::Edit, ..self }
    }

    /// A tick in `Pick`: X types the reference or range; O and R1 go back.
    #[verifier::opaque]
    pub open spec fn pick(self, i: Input) -> Desk {
        let a = self.pick_moved(i);
        let b = if i.cross {
            a.typed_all(a.picked_name()).unpicked()
        } else {
            a
        };
        if i.circle || i.r1 {
            b.unpicked()
        } else {
            b
        }
    }

    /// A tick in `Chart`: TRIANGLE goes on to the next kind, O and X go back.
    #[verifier::opaque]
    pub open spec fn chart(self, i: Input) -> Desk {
        let a = if i.triangle {
            Desk { chart_kind: next_kind(self.chart_kind), ..self }
        } else {
            self
        };
        if i.circle || i.cross {
            Desk { mode: Mode::Nav, ..a }
        } else {
            a
        }
    }

    /// The start menu's entry opened: a sample, in its chart if it has one, or
    /// the saves.
    #[verifier::opaque]
    pub open spec fn opened(self) -> Desk {
        let home = self.homed();
        let sel = self.menu_sel as int;
        if sel < SAMPLES {
            let sheet = Desk { grid: sample_grid(sel), ..home };
            match opening_chart(sel) {
                Some((kind, range)) => Desk {
                    chart_kind: kind,
                    chart_range: range,
                    mode: Mode::Chart,
                    ..sheet
                },
                None => Desk { mode: Mode::Nav, ..sheet },
            }
        } else {
            home.browsing(true)
        }
    }

    /// The start menu with its cursor moved.
    #[verifier::opaque]
    pub open spec fn menu_moved(self, i: Input) -> Desk {
        Desk {
            menu_sel: walked(
                self.menu_sel as int,
                i.up,
                i.down,
                1,
                menu_count(self.has_save),
            ) as usize,
            ..self
        }
    }

    /// A tick in `Menu`: X and START open the entry.
    #[verifier::opaque]
    pub open spec fn menu(self, i: Input) -> Desk {
        let a = self.menu_moved(i);
        if i.cross || i.start {
            a.opened()
        } else {
            a
        }
    }

    /// What a tick in `Menu` asks of the card: its directory, if the saves were
    /// opened.
    #[verifier::opaque]
    pub open spec fn menu_wish(self, i: Input) -> Wish {
        if (i.cross || i.start) && self.menu_moved(i).menu_sel >= SAMPLES {
            Wish::List
        } else {
            Wish::Idle
        }
    }

    /// The command menu's cursor on the next command up or down, if there is
    /// one, and the list scrolled to show it.
    #[verifier::opaque]
    pub open spec fn cmd_stepped(self, d: int) -> Desk {
        let sel = match next_command(self.set_sel + d, d) {
            Some(i) => i,
            None => self.set_sel as int,
        };
        let low = if self.menu_top <= sel {
            self.menu_top as int
        } else {
            sel
        };
        Desk {
            set_sel: sel as usize,
            menu_top: (if low >= sel - (CMD_VIS - 1) {
                low
            } else {
                sel - (CMD_VIS - 1)
            }) as usize,
            ..self
        }
    }

    /// The selection dropped.
    #[verifier::opaque]
    pub open spec fn unselected(self) -> Desk {
        Desk { sel_anchor: None, ..self }
    }

    /// Back at the grid.
    #[verifier::opaque]
    pub open spec fn at_grid(self) -> Desk {
        Desk { mode: Mode::Nav, ..self }
    }

    /// The selection dropped and a message up, as after the grid has shifted.
    #[verifier::opaque]
    pub open spec fn shifted_under(self, msg: Seq<u8>) -> Desk {
        self.unselected().toasted(msg, false).at_grid()
    }

    /// As many rows as the target has inserted above it, or deleted.
    #[verifier::opaque]
    pub open spec fn rows_shifted(self, insert: bool) -> Desk {
        let t = self.target();
        let n = t.3 - t.1 + 1;
        Desk {
            grid: if insert {
                rows_inserted(self.grid, t.1, n)
            } else {
                rows_deleted(self.grid, t.1, n)
            },
            ..self.snapshotted()
        }
    }

    /// As many columns as the target has inserted left of it, or deleted.
    #[verifier::opaque]
    pub open spec fn cols_shifted(self, insert: bool) -> Desk {
        let t = self.target();
        let n = t.2 - t.0 + 1;
        Desk {
            grid: if insert {
                cols_inserted(self.grid, t.0, n)
            } else {
                cols_deleted(self.grid, t.0, n)
            },
            ..self.snapshotted()
        }
    }

    /// The target charted, unless it is a single cell.
    #[verifier::opaque]
    pub open spec fn charted(self) -> Desk {
        let t = self.target();
        if t.0 == t.2 && t.1 == t.3 {
            self.toasted(utf8("MARK A RANGE FIRST (R2)"), true).at_grid()
        } else {
            Desk { chart_range: t, mode: Mode::Chart, ..self }
        }
    }

    /// A menu command run. What changes the sheet keeps it for undoing first
    /// and closes the menu.
    #[verifier::opaque]
    pub open spec fn ran(self, cmd: Cmd) -> Desk {
        match cmd {
            Cmd::Undo => self.undone().at_grid(),
            Cmd::Cut => self.cut().at_grid(),
            Cmd::Copy => self.copied().at_grid(),
            Cmd::Paste => self.pasted().at_grid(),
            Cmd::InsRow => self.rows_shifted(true).shifted_under(utf8("ROW INSERTED")),
            Cmd::DelRow => self.rows_shifted(false).shifted_under(utf8("ROW DELETED")),
            Cmd::InsCol => self.cols_shifted(true).shifted_under(utf8("COLUMN INSERTED")),
            Cmd::DelCol => self.cols_shifted(false).shifted_under(utf8("COLUMN DELETED")),
            Cmd::Chart => self.charted(),
            Cmd::Theme => self.retinted(),
            Cmd::Save => self.naming(),
            Cmd::Load => self.browsing(false),
            Cmd::Help => self.helped(),
            Cmd::MainMenu => self.at_start(),
        }
    }

    /// The other theme.
    #[verifier::opaque]
    pub open spec fn retinted(self) -> Desk {
        Desk { dark: !self.dark, ..self }
    }

    /// The controls reference opened.
    #[verifier::opaque]
    pub open spec fn helped(self) -> Desk {
        Desk { mode: Mode::Help, ..self }
    }

    /// The start menu opened.
    #[verifier::opaque]
    pub open spec fn at_start(self) -> Desk {
        Desk { menu_sel: 0, mode: Mode::Menu, ..self }
    }

    /// The command menu with its cursor moved.
    #[verifier::opaque]
    pub open spec fn cmd_moved(self, i: Input) -> Desk {
        let a = if i.step_up {
            self.cmd_stepped(-1)
        } else {
            self
        };
        if i.step_down {
            a.cmd_stepped(1)
        } else {
            a
        }
    }

    /// The command that a tick in the command menu runs: the one under the
    /// cursor on X; on LEFT and RIGHT also the theme, which reads as a setting.
    #[verifier::opaque]
    pub open spec fn cmd_chosen(self, i: Input) -> Option<Cmd> {
        let cmd = cmd_at(self.cmd_moved(i).set_sel as int);
        if i.cross || (cmd == Some(Cmd::Theme) && (i.left || i.right)) {
            cmd
        } else {
            None
        }
    }

    /// A tick in `Cmd`: O and SELECT close the menu.
    #[verifier::opaque]
    pub open spec fn cmd_menu(self, i: Input) -> Desk {
        let a = self.cmd_moved(i);
        let b = match self.cmd_chosen(i) {
            Some(cmd) => a.ran(cmd),
            None => a,
        };
        if i.circle || i.select {
            b.at_grid()
        } else {
            b
        }
    }

    /// What a tick in `Cmd` asks of the card: its directory, if the saves were
    /// opened.
    #[verifier::opaque]
    pub open spec fn cmd_wish(self, i: Input) -> Wish {
        if self.cmd_chosen(i) == Some(Cmd::Load) {
            Wish::List
        } else {
            Wish::Idle
        }
    }

    /// A tick in `Help`.
    #[verifier::opaque]
    pub open spec fn help(self, i: Input) -> Desk {
        if i.circle || i.cross {
            Desk { mode: Mode::Nav, ..self }
        } else {
            self
        }
    }

    /// A tick in `Confirm`: O goes back to the browser.
    #[verifier::opaque]
    pub open spec fn confirm(self, i: Input) -> Desk {
        if !i.cross && i.circle {
            Desk { mode: Mode::Browse, ..self }
        } else {
            self
        }
    }

    /// What a tick in `Confirm` asks of the card: X deletes the save under the
    /// cursor.
    #[verifier::opaque]
    pub open spec fn confirm_wish(self, i: Input) -> Wish {
        if i.cross && self.files.len() > 0 {
            Wish::Delete(self.files[self.browse_sel as int].0)
        } else {
            Wish::Idle
        }
    }

    /// The browser with its cursor moved.
    #[verifier::opaque]
    pub open spec fn browse_moved(self, i: Input) -> Desk {
        let up = if i.up && self.browse_sel > 0 {
            self.browse_sel - 1
        } else {
            self.browse_sel as int
        };
        Desk {
            browse_sel: (if i.down && up + 1 < self.files.len() {
                up + 1
            } else {
                up
            }) as usize,
            ..self
        }
    }

    /// The file that a tick needs from the card: in `Browse` the one under the
    /// cursor, on X.
    pub open spec fn browse_wants(self, i: Input) -> Option<Seq<u8>> {
        if self.mode == Mode::Browse && i.cross && self.files.len() > 0 {
            Some(self.files[self.browse_moved(i).browse_sel as int].0)
        } else {
            None
        }
    }

    /// What the on-screen keyboard does in a tick.
    pub open spec fn keys_planned(self, i: Input) -> KeyPlan {
        let typing = self.mode == Mode::Edit;
        KeyPlan {
            left: typing && !i.l2 && i.step_left,
            right: typing && !i.l2 && i.step_right,
            up: typing && !i.l2 && i.step_up,
            down: typing && !i.l2 && i.step_down,
            activate: typing && i.cross,
            to_ok: typing && i.r2,
        }
    }

    /// A tick in `Browse`, with the card's answer if a file was needed: SQUARE
    /// asks before deleting, O goes back to where the browser was opened from.
    #[verifier::opaque]
    pub open spec fn browse(self, i: Input, reply: Option<Result<Vec<u8>, CardError>>) -> Desk {
        let a = self.browse_moved(i);
        let b = match reply {
            Some(r) => if i.cross && a.files.len() > 0 {
                a.loaded_file(r)
            } else {
                a
            },
            None => a,
        };
        let c = if i.square && b.files.len() > 0 {
            b.asking(Ask::DeleteSave)
        } else {
            b
        };
        if i.circle {
            c.browse_left()
        } else {
            c
        }
    }

    /// A question before what cannot be taken back.
    #[verifier::opaque]
    pub open spec fn asking(self, ask: Ask) -> Desk {
        Desk { ask, mode: Mode::Confirm, ..self }
    }

    /// The browser left for where it was opened from.
    #[verifier::opaque]
    pub open spec fn browse_left(self) -> Desk {
        Desk {
            cur_col: 0,
            cur_row: 0,
            mode: if self.browse_from_menu {
                Mode::Menu
            } else {
                Mode::Nav
            },
            ..self
        }
    }

    /// Edit: while L2 is held the directions move the caret, UP and DOWN to
    /// the ends of the line.
    #[verifier::opaque]
    pub open spec fn caret_moved(self, i: Input) -> Desk {
        if i.l2 {
            let walk = walked(
                self.caret as int,
                i.step_left,
                i.step_right,
                1,
                self.edit.len() as int + 1,
            );
            let home = if i.up {
                0
            } else {
                walk
            };
            Desk {
                caret: (if i.down {
                    self.edit.len() as int
                } else {
                    home
                }) as usize,
                ..self
            }
        } else {
            self
        }
    }

    /// Edit: the highlighted key used.
    #[verifier::opaque]
    pub open spec fn keyed(self, key: Key) -> Desk {
        match key {
            Key::Insert(c) => self.typed(c),
            Key::Backspace => self.erased(),
            Key::Commit => self.finished(),
            Key::Idle => self,
        }
    }

    /// The file to write if the text is finished now.
    #[verifier::opaque]
    pub open spec fn finish_job(self) -> Option<(Seq<u8>, Seq<u8>, Seq<u8>)> {
        if self.saving {
            self.save_job()
        } else {
            None
        }
    }

    /// Edit: up to the shortcut that finishes. X uses the highlighted key, L1
    /// and SQUARE delete backwards.
    #[verifier::opaque]
    pub open spec fn edit_typed(self, i: Input, key: Key) -> Desk {
        let a = self.caret_moved(i);
        let b = if i.cross {
            a.keyed(key)
        } else {
            a
        };
        if i.l1 || i.square {
            b.erased()
        } else {
            b
        }
    }

    /// A tick in `Edit`: START finishes, R1 goes to point at a cell unless a
    /// save name is being typed, O drops the text.
    #[verifier::opaque]
    pub open spec fn editor(self, i: Input, key: Key) -> Desk {
        let a = self.edit_typed(i, key);
        let b = if i.start {
            a.finished()
        } else {
            a
        };
        let c = if i.r1 && !b.saving {
            b.pointing()
        } else {
            b
        };
        if i.circle {
            c.dropped()
        } else {
            c
        }
    }

    /// Typing left to point at a cell.
    #[verifier::opaque]
    pub open spec fn pointing(self) -> Desk {
        Desk {
            pick_col: self.cur_col,
            pick_row: self.cur_row,
            pick_anchor: None,
            mode: Mode::Pick,
            ..self
        }
    }

    /// Typing left without taking the text.
    #[verifier::opaque]
    pub open spec fn dropped(self) -> Desk {
        Desk { saving: false, mode: Mode::Nav, ..self }
    }

    /// The file that a tick in `Edit` asks to be written.
    #[verifier::opaque]
    pub open spec fn edit_wish(self, i: Input, key: Key) -> Wish {
        let first = if i.cross && key == Key::Commit {
            self.caret_moved(i).finish_job()
        } else {
            None
        };
        let second = if i.start {
            self.edit_typed(i, key).finish_job()
        } else {
            None
        };
        wish_to_save(
            if first is Some {
                first
            } else {
                second
            },
        )
    }

    /// The start of a tick: the frame noted, a message one frame older.
    #[verifier::opaque]
    pub open spec fn begun(self, frame: u32) -> Desk {
        Desk {
            frame,
            status_ttl: if self.status_ttl > 0 {
                (self.status_ttl - 1) as u16
            } else {
                0
            },
            ..self
        }
    }

    /// A tick, up to what the card does.
    pub open spec fn ticked(
        self,
        frame: u32,
        i: Input,
        key: Key,
        reply: Option<Result<Vec<u8>, CardError>>,
    ) -> Desk {
        let d = self.begun(frame);
        match d.mode {
            Mode::Menu => d.menu(i),
            Mode::Nav => d.nav(i),
            Mode::Edit => d.editor(i, key),
            Mode::Pick => d.pick(i),
            Mode::Chart => d.chart(i),
            Mode::Browse => d.browse(i, reply),
            Mode::Cmd => d.cmd_menu(i),
            Mode::Help => d.help(i),
            Mode::Confirm => d.confirm(i),
        }
    }

    /// What a tick asks of the card.
    pub open spec fn wish(self, frame: u32, i: Input, key: Key) -> Wish {
        let d = self.begun(frame);
        match d.mode {
            Mode::Menu => d.menu_wish(i),
            Mode::Edit => d.edit_wish(i, key),
            Mode::Cmd => d.cmd_wish(i),
            Mode::Confirm => d.confirm_wish(i),
            _ => Wish::Idle,
        }
    }

    /// The view moved to show the active cell.
    #[verifier::opaque]
    pub open spec fn following(self) -> Desk {
        let (cc, cr) = self.active();
        Desk {
            top_col: window_top(self.top_col as int, cc as int, VIS_COLS as int) as usize,
            top_row: window_top(self.top_row as int, cr as int, VIS_ROWS as int) as usize,
            ..self
        }
    }

    /// The scroll one step nearer to the row in view.
    #[verifier::opaque]
    pub open spec fn scrolling(self) -> Desk {
        Desk { scroll_px: eased(self.scroll_px as int, self.top_row * ROW_H) as i16, ..self }
    }
}

/// After a tick the active cell is on the screen.
pub proof fn law_active_cell_is_visible(d: Desk)
    requires
        d.wf(),
    ensures
        ({
            let v = d.following();
            &&& v.top_col <= v.active().0 < v.top_col + VIS_COLS
            &&& v.top_row <= v.active().1 < v.top_row + VIS_ROWS
        }),
{
    reveal(Desk::following);
}

/// A view that already shows the active cell does not move.
pub proof fn law_view_rests(d: Desk)
    requires
        d.wf(),
        d.top_col <= d.active().0 < d.top_col + VIS_COLS,
        d.top_row <= d.active().1 < d.top_row + VIS_ROWS,
    ensures
        d.following() == d,
{
    reveal(Desk::following);
}

/// Each step of the scroll comes nearer without passing its target, so that it
/// always lands; once there it rests.
pub proof fn law_scroll_lands(at: int, target: int)
    ensures
        at < target ==> at < eased(at, target) <= target,
        at > target ==> target <= eased(at, target) < at,
        eased(target, target) == target,
{
}

/// A menu step ends on a command, and only if there is none that way stays.
pub proof fn law_menu_skips_separators(d: Desk, down: bool)
    requires
        d.wf(),
    ensures
        ({
            let step: int = if down {
                1
            } else {
                -1
            };
            let next = d.cmd_stepped(step);
            &&& cmd_at(next.set_sel as int) is Some
            &&& next.set_sel == d.set_sel ==> forall|i: int|
                #![trigger cmd_at(i)]
                0 <= i < CMD_ROWS && (if down {
                    i > d.set_sel
                } else {
                    i < d.set_sel
                }) ==> cmd_at(i) is None
            &&& next.menu_top <= next.set_sel < next.menu_top + CMD_VIS
        }),
{
    reveal(Desk::cmd_stepped);
    let step: int = if down {
        1
    } else {
        -1
    };
    lemma_next_command(d.set_sel + step, step);
}

/// Every edit of a sheet that fits an undo step can be taken back in one step:
/// a committed text, a cleared target, a cut, a paste, and rows and columns
/// inserted or deleted.
pub proof fn law_every_edit_can_be_undone(d: Desk, cmd: Cmd)
    requires
        d.wf(),
        encoded(d.grid.texts).len() <= UNDO_SLOT_LEN,
        cmd == Cmd::Cut || cmd == Cmd::InsRow || cmd == Cmd::DelRow || cmd == Cmd::InsCol || cmd
            == Cmd::DelCol || (cmd == Cmd::Paste && d.clip_w > 0 && d.clip_h > 0),
    ensures
        d.committed().undone().grid.texts == d.grid.texts,
        d.cleared().undone().grid.texts == d.grid.texts,
        d.ran(cmd).undone().grid.texts == d.grid.texts,
{
    law_undo_takes_back_commit(d);
    reveal(Desk::cleared);
    law_undo_takes_back(d, d.cleared());
    reveal(Desk::ran);
    reveal(Desk::at_grid);
    reveal(Desk::shifted_under);
    reveal(Desk::unselected);
    reveal(Desk::rows_shifted);
    reveal(Desk::cols_shifted);
    reveal(Desk::toasted);
    reveal(Desk::cut);
    reveal(Desk::copied);
    reveal(Desk::pasted);
    reveal(Desk::snapshotted);
    law_undo_takes_back(d, d.ran(cmd));
}

/// What the search for a command finds, and what it passes over.
proof fn lemma_next_command(i: int, d: int)
    requires
        d == 1 && 0 <= i <= CMD_ROWS || d == -1 && -1 <= i < CMD_ROWS,
    ensures
        match next_command(i, d) {
            Some(j) => 0 <= j < CMD_ROWS && cmd_at(j) is Some && (if d == 1 {
                j >= i
            } else {
                j <= i
            }),
            None => forall|k: int|
                #![trigger cmd_at(k)]
                0 <= k < CMD_ROWS && (if d == 1 {
                    k >= i
                } else {
                    k <= i
                }) ==> cmd_at(k) is None,
        },
    decreases
            (if d > 0 {
                CMD_ROWS - i
            } else {
                i + 1
            }),
{
    if 0 <= i < CMD_ROWS && cmd_at(i) is None {
        lemma_next_command(i + d, d);
    }
}

impl Editor {
    /// The cell the grid highlights.
    pub fn active_cell(&self) -> (c: (usize, usize))
        requires
            self.wf(),
        ensures
            c == self@.active(),
            c.0 < COLS,
            c.1 < ROWS,
    {
        if self.mode == Mode::Pick {
            (self.pick_col, self.pick_row)
        } else {
            (self.cur_col, self.cur_row)
        }
    }

    /// The grid: the pad's directions and buttons in `Nav`.
    pub fn update_nav(&mut self, i: Input)
        requires
            old(self).wf(),
        ensures
            final(self).wf(),
            final(self)@ == old(self)@.nav(i),
    {
        proof {
            reveal(Desk::nav);
        }
        self.nav_move(i);
        self.nav_act(i);
        self.nav_mark(i);
    }

    fn nav_move(&mut self, i: Input)
        requires
            old(self).wf(),
        ensures
            final(self).wf(),
            final(self)@ == old(self)@.nav_moved(i),
    {
        proof {
            reveal(Desk::nav_moved);
        }
        let (dc, dr): (usize, usize) = if i.l2 {
            (VIS_COLS, VIS_ROWS)
        } else {
            (1, 1)
        };
        self.cur_col = walk(self.cur_col, i.step_left, i.step_right, dc, COLS);
        self.cur_row = walk(self.cur_row, i.step_up, i.step_down, dr, ROWS);
    }

    fn nav_act(&mut self, i: Input)
        requires
            old(self).wf(),
        ensures
            final(self).wf(),
            final(self)@ == old(self)@.nav_acted(i),
    {
        proof {
            reveal(Desk::nav_acted);
        }
        if i.cross {
            self.begin_edit(false);
        }
        if i.triangle {
            self.begin_edit(true);
        }
        if i.square {
            self.clear_target();
            self.toast("CLEARED", false);
        }
        if i.l1 {
            self.copy();
        }
        if i.r1 {
            self.paste();
        }
    }

    fn nav_anchor(&mut self, i: Input)
        requires
            old(self).wf(),
        ensures
            final(self).wf(),
            final(self)@ == old(self)@.nav_anchored(i),
    {
        proof {
            reveal(Desk::nav_anchored);
        }
        self.sel_anchor = if i.circle {
            None
        } else if i.r2 {
            Some((self.cur_col, self.cur_row))
        } else {
            self.sel_anchor
        };
    }

    fn go_home(&mut self)
        requires
            old(self).wf(),
        ensures
            final(self).wf(),
            final(self)@ == old(self)@.at_home(),
    {
        proof {
            reveal(Desk::at_home);
        }
        self.cur_col = 0;
        self.cur_row = 0;
    }

    fn open_menu(&mut self)
        requires
            old(self).wf(),
        ensures
            final(self).wf(),
            final(self)@ == old(self)@.menu_opened(),
    {
        proof {
            reveal(Desk::menu_opened);
        }
        self.set_sel = 0;
        self.menu_top = 0;
        self.mode = Mode::Cmd;
    }

    fn nav_mark(&mut self, i: Input)
        requires
            old(self).wf(),
        ensures
            final(self).wf(),
            final(self)@ == old(self)@.nav_marked(i),
    {
        proof {
            reveal(Desk::nav_marked);
        }
        self.nav_anchor(i);
        if i.start {
            if i.l2 {
                self.go_home();
            } else {
                self.undo();
            }
        }
        if i.select {
            self.open_menu();
        }
    }

    fn pick_move(&mut self, i: Input)
        requires
            old(self).wf(),
        ensures
            final(self).wf(),
            final(self)@ == old(self)@.pick_moved(i),
    {
        proof {
            reveal(Desk::pick_moved);
        }
        let col: usize = walk(self.pick_col, i.step_left, i.step_right, 1, COLS);
        let row: usize = walk(self.pick_row, i.step_up, i.step_down, 1, ROWS);
        let anchor: Option<(usize, usize)> = if i.square {
            match self.pick_anchor {
                None => Some((col, row)),
                Some(_) => None,
            }
        } else {
            self.pick_anchor
        };
        self.pick_col = col;
        self.pick_row = row;
        self.pick_anchor = anchor;
    }

    fn unpick(&mut self)
        requires
            old(self).wf(),
        ensures
            final(self).wf(),
            final(self)@ == old(self)@.unpicked(),
    {
        proof {
            reveal(Desk::unpicked);
        }
        self.pick_anchor = None;
        self.mode = Mode::Edit;
    }

    /// Point-at-a-cell mode: roam the grid, X types the highlighted cell's
    /// reference into the formula being edited.
    pub fn update_pick(&mut self, i: Input)
        requires
            old(self).wf(),
        ensures
            final(self).wf(),
            final(self)@ == old(self)@.pick(i),
    {
        proof {
            reveal(Desk::pick);
        }
        self.pick_move(i);
        if i.cross {
            match self.pick_anchor {
                Some((a, r)) => {
                    self.push_range(a, r, self.pick_col, self.pick_row);
                },
                None => {
                    self.push_ref(self.pick_col, self.pick_row);
                },
            }
            self.unpick();
        }
        if i.circle || i.r1 {
            self.unpick();
        }
    }

    /// The chart view.
    pub fn update_chart(&mut self, i: Input)
        requires
            old(self).wf(),
        ensures
            final(self).wf(),
            final(self)@ == old(self)@.chart(i),
    {
        proof {
            reveal(Desk::chart);
        }
        self.chart_kind = if i.triangle {
            self.chart_kind.next()
        } else {
            self.chart_kind
        };
        self.mode = if i.circle || i.cross {
            Mode::Nav
        } else {
            self.mode
        };
    }

    /// Entries of the start menu.
    pub fn menu_len(&self) -> (n: usize)
        ensures
            n == menu_count(self@.has_save),
    {
        if self.has_save {
            SAMPLES + 1
        } else {
            SAMPLES
        }
    }

    /// Open the start menu's entry. Says whether the card's directory is
    /// needed.
    pub fn open_selection(&mut self) -> (list: bool)
        requires
            old(self).wf(),
        ensures
            final(self).wf(),
            final(self)@ == old(self)@.opened(),
            list == (old(self)@.menu_sel >= SAMPLES),
    {
        proof {
            reveal(Desk::opened);
            reveal(Desk::homed);
        }
        self.reset_view();
        let sel: usize = self.menu_sel;
        if sel < SAMPLES {
            fill_sample(sel, &mut self.sheet);
            proof {
                self.sheet.lemma_view_wf();
            }
            // Some samples showcase a chart by opening straight into it.
            match sample_chart(sel) {
                Some((kind, range)) => {
                    self.chart_kind = kind;
                    self.chart_range = range;
                    self.mode = Mode::Chart;
                },
                None => {
                    self.mode = Mode::Nav;
                },
            }
            false
        } else {
            self.enter_browse(true);
            true
        }
    }

    fn menu_move(&mut self, i: Input)
        requires
            old(self).wf(),
        ensures
            final(self).wf(),
            final(self)@ == old(self)@.menu_moved(i),
    {
        proof {
            reveal(Desk::menu_moved);
        }
        let n: usize = self.menu_len();
        self.menu_sel = walk(self.menu_sel, i.up, i.down, 1, n);
    }

    /// The start menu.
    pub fn update_menu(&mut self, i: Input) -> (r: Request)
        requires
            old(self).wf(),
        ensures
            final(self).wf(),
            final(self)@ == old(self)@.menu(i),
            r@ == old(self)@.menu_wish(i),
    {
        proof {
            reveal(Desk::menu);
            reveal(Desk::menu_wish);
        }
        self.menu_move(i);
        if i.cross || i.start {
            if self.open_selection() {
                return Request::List;
            }
        }
        Request::Idle
    }

    /// The first command of the menu below row `from`.
    fn command_below(from: usize) -> (r: Option<usize>)
        requires
            from < CMD_ROWS,
        ensures
            match r {
                Some(i) => next_command(from + 1, 1) == Some(i as int),
                None => next_command(from + 1, 1) is None,
            },
    {
        let mut i: usize = from + 1;
        while i < CMD_ROWS
            invariant
                i <= CMD_ROWS,
                next_command(from + 1, 1) == next_command(i as int, 1),
            decreases CMD_ROWS - i,
        {
            if cmd_row(i).is_some() {
                return Some(i);
            }
            i += 1;
        }
        None
    }

    /// The first command of the menu above row `from`.
    fn command_above(from: usize) -> (r: Option<usize>)
        requires
            from < CMD_ROWS,
        ensures
            match r {
                Some(i) => next_command(from - 1, -1) == Some(i as int),
                None => next_command(from - 1, -1) is None,
            },
    {
        let mut i: usize = from;
        while i > 0
            invariant
                i <= from < CMD_ROWS,
                next_command(from - 1, -1) == next_command(i - 1, -1),
            decreases i,
        {
            i -= 1;
            if cmd_row(i).is_some() {
                return Some(i);
            }
        }
        None
    }

    /// Step the command menu's cursor up or down, skipping separators and
    /// stopping at the ends.
    pub fn cmd_step(&mut self, down: bool)
        requires
            old(self).wf(),
        ensures
            final(self).wf(),
            final(self)@ == old(self)@.cmd_stepped(
                if down {
                    1
                } else {
                    -1
                },
            ),
    {
        proof {
            reveal(Desk::cmd_stepped);
            lemma_next_command(self.set_sel + 1, 1);
            lemma_next_command(self.set_sel - 1, -1);
        }
        let next: Option<usize> = if down {
            Self::command_below(self.set_sel)
        } else {
            Self::command_above(self.set_sel)
        };
        let sel: usize = match next {
            Some(i) => i,
            None => self.set_sel,
        };
        // Keep the cursor inside the scrolling window.
        let low: usize = min_of(self.menu_top, sel);
        let least: usize = if sel >= CMD_VIS - 1 {
            sel - (CMD_VIS - 1)
        } else {
            0
        };
        self.set_sel = sel;
        self.menu_top = max_of(low, least);
    }

    fn cmd_move(&mut self, i: Input)
        requires
            old(self).wf(),
        ensures
            final(self).wf(),
            final(self)@ == old(self)@.cmd_moved(i),
    {
        proof {
            reveal(Desk::cmd_moved);
        }
        if i.step_up {
            self.cmd_step(false);
        }
        if i.step_down {
            self.cmd_step(true);
        }
    }

    fn show_grid(&mut self)
        requires
            old(self).wf(),
        ensures
            final(self).wf(),
            final(self)@ == old(self)@.at_grid(),
    {
        proof {
            reveal(Desk::at_grid);
        }
        self.to_nav();
    }

    /// The command menu.
    pub fn update_cmd_menu(&mut self, i: Input) -> (r: Request)
        requires
            old(self).wf(),
        ensures
            final(self).wf(),
            final(self)@ == old(self)@.cmd_menu(i),
            r@ == old(self)@.cmd_wish(i),
    {
        proof {
            reveal(Desk::cmd_menu);
            reveal(Desk::cmd_chosen);
            reveal(Desk::cmd_wish);
        }
        self.cmd_move(i);
        let cmd: Option<Cmd> = cmd_row(self.set_sel);
        // LEFT and RIGHT also toggle the theme, so that it reads as a setting.
        let toggled: bool = match cmd {
            Some(Cmd::Theme) => i.left || i.right,
            _ => false,
        };
        let mut list = false;
        if i.cross || toggled {
            if let Some(c) = cmd {
                list = self.run_cmd(c);
            }
        }
        if i.circle || i.select {
            self.show_grid();
        }
        if list {
            Request::List
        } else {
            Request::Idle
        }
    }

    /// Insert as many rows as the target has above it, or delete them.
    fn shift_rows(&mut self, insert: bool)
        requires
            old(self).wf(),
        ensures
            final(self).wf(),
            final(self)@ == old(self)@.rows_shifted(insert),
    {
        proof {
            reveal(Desk::rows_shifted);
            reveal(Desk::snapshotted);
        }
        let (c0, r0, c1, r1) = self.target_rect();
        self.push_undo();
        let ghost mid = self@;
        let n: usize = r1 - r0 + 1;
        let mut k: usize = 0;
        while k < n
            invariant
                self.wf(),
                k <= n,
                r0 < ROWS,
                self@ == (Desk {
                    grid: if insert {
                        rows_inserted(mid.grid, r0, k as int)
                    } else {
                        rows_deleted(mid.grid, r0, k as int)
                    },
                    ..mid
                }),
            decreases n - k,
        {
            if insert {
                self.sheet.insert_row(r0);
            } else {
                self.sheet.delete_row(r0);
            }
            proof {
                self.sheet.lemma_view_wf();
            }
            k += 1;
        }
    }

    /// Insert as many columns as the target has left of it, or delete them.
    fn shift_cols(&mut self, insert: bool)
        requires
            old(self).wf(),
        ensures
            final(self).wf(),
            final(self)@ == old(self)@.cols_shifted(insert),
    {
        proof {
            reveal(Desk::cols_shifted);
            reveal(Desk::snapshotted);
        }
        let (c0, r0, c1, r1) = self.target_rect();
        self.push_undo();
        let ghost mid = self@;
        let n: usize = c1 - c0 + 1;
        let mut k: usize = 0;
        while k < n
            invariant
                self.wf(),
                k <= n,
                c0 < COLS,
                self@ == (Desk {
                    grid: if insert {
                        cols_inserted(mid.grid, c0, k as int)
                    } else {
                        cols_deleted(mid.grid, c0, k as int)
                    },
                    ..mid
                }),
            decreases n - k,
        {
            if insert {
                self.sheet.insert_col(c0);
            } else {
                self.sheet.delete_col(c0);
            }
            proof {
                self.sheet.lemma_view_wf();
            }
            k += 1;
        }
    }

    fn unselect(&mut self)
        requires
            old(self).wf(),
        ensures
            final(self).wf(),
            final(self)@ == old(self)@.unselected(),
    {
        proof {
            reveal(Desk::unselected);
        }
        self.sel_anchor = None;
    }

    /// Shared tail for inserting and deleting rows and columns: the
    /// selection's coordinates no longer mean anything once the grid has
    /// shifted under them.
    pub fn after_structural(&mut self, msg: &str)
        requires
            old(self).wf(),
        ensures
            final(self).wf(),
            final(self)@ == old(self)@.shifted_under(utf8(msg)),
    {
        proof {
            reveal(Desk::shifted_under);
        }
        self.unselect();
        self.toast(msg, false);
        self.show_grid();
    }

    /// Chart the target, if it is more than a cell.
    fn chart_target(&mut self)
        requires
            old(self).wf(),
        ensures
            final(self).wf(),
            final(self)@ == old(self)@.charted(),
    {
        proof {
            reveal(Desk::charted);
        }
        let (c0, r0, c1, r1) = self.target_rect();
        // A one-cell chart is a dead end, so say what is missing.
        if c0 == c1 && r0 == r1 {
            self.toast("MARK A RANGE FIRST (R2)", true);
            self.show_grid();
        } else {
            self.chart_range = (c0, r0, c1, r1);
            self.mode = Mode::Chart;
        }
    }

    fn toggle_theme(&mut self)
        requires
            old(self).wf(),
        ensures
            final(self).wf(),
            final(self)@ == old(self)@.retinted(),
    {
        proof {
            reveal(Desk::retinted);
        }
        let dark: bool = is_dark(&self.theme_mode);
        set_dark(&mut self.theme_mode, !dark);
    }

    fn show_help(&mut self)
        requires
            old(self).wf(),
        ensures
            final(self).wf(),
            final(self)@ == old(self)@.helped(),
    {
        proof {
            reveal(Desk::helped);
        }
        self.mode = Mode::Help;
    }

    fn show_start(&mut self)
        requires
            old(self).wf(),
        ensures
            final(self).wf(),
            final(self)@ == old(self)@.at_start(),
    {
        proof {
            reveal(Desk::at_start);
        }
        self.menu_sel = 0;
        self.mode = Mode::Menu;
    }

    /// Run a menu command. Anything that changes the sheet keeps it for undo
    /// first and closes the menu, so that the result is visible at once. Says
    /// whether the card's directory is needed.
    pub fn run_cmd(&mut self, cmd: Cmd) -> (list: bool)
        requires
            old(self).wf(),
        ensures
            final(self).wf(),
            final(self)@ == old(self)@.ran(cmd),
            list == (cmd == Cmd::Load),
    {
        proof {
            reveal(Desk::ran);
        }
        match cmd {
            Cmd::Undo => {
                self.undo();
                self.show_grid();
                false
            },
            Cmd::Cut => {
                self.cut();
                self.show_grid();
                false
            },
            Cmd::Copy => {
                self.copy();
                self.show_grid();
                false
            },
            Cmd::Paste => {
                self.paste();
                self.show_grid();
                false
            },
            // Row and column operations act on the selection's span, so a
            // selection of three rows inserts three.
            Cmd::InsRow => {
                self.shift_rows(true);
                self.after_structural("ROW INSERTED");
                false
            },
            Cmd::DelRow => {
                self.shift_rows(false);
                self.after_structural("ROW DELETED");
                false
            },
            Cmd::InsCol => {
                self.shift_cols(true);
                self.after_structural("COLUMN INSERTED");
                false
            },
            Cmd::DelCol => {
                self.shift_cols(false);
                self.after_structural("COLUMN DELETED");
                false
            },
            Cmd::Chart => {
                self.chart_target();
                false
            },
            Cmd::Theme => {
                self.toggle_theme();
                false
            },
            Cmd::Save => {
                self.begin_saveas();
                false
            },
            Cmd::Load => {
                self.enter_browse(false);
                true
            },
            Cmd::Help => {
                self.show_help();
                false
            },
            Cmd::MainMenu => {
                self.show_start();
                false
            },
        }
    }

    /// The controls reference.
    pub fn update_help(&mut self, i: Input)
        requires
            old(self).wf(),
        ensures
            final(self).wf(),
            final(self)@ == old(self)@.help(i),
    {
        proof {
            reveal(Desk::help);
        }
        if i.circle || i.cross {
            self.to_nav();
        }
    }

    /// Ask before doing what cannot be taken back.
    pub fn ask(&mut self, ask: Ask)
        requires
            old(self).wf(),
            old(self)@.files.len() > 0,
        ensures
            final(self).wf(),
            final(self)@ == old(self)@.asking(ask),
    {
        proof {
            reveal(Desk::asking);
        }
        self.ask = ask;
        self.mode = Mode::Confirm;
    }

    /// The confirmation prompt.
    pub fn update_confirm(&mut self, i: Input) -> (r: Request)
        requires
            old(self).wf(),
        ensures
            final(self).wf(),
            final(self)@ == old(self)@.confirm(i),
            r@ == old(self)@.confirm_wish(i),
    {
        proof {
            reveal(Desk::confirm);
            reveal(Desk::confirm_wish);
        }
        if i.cross {
            match self.ask {
                Ask::DeleteSave => {
                    if self.files.len() > 0 {
                        assert(self@.files[self.browse_sel as int]
                            == self.files@[self.browse_sel as int]@);
                        return Request::Delete(
                            copied(self.files[self.browse_sel].name.as_slice()),
                        );
                    }
                },
            }
        } else if i.circle {
            // Cancelling a card delete goes back to the browser it came from.
            self.mode = match self.ask {
                Ask::DeleteSave => Mode::Browse,
            };
        }
        Request::Idle
    }

    /// Where the browser's cursor goes.
    fn browse_place(&self, i: Input) -> (sel: usize)
        requires
            self.wf(),
        ensures
            sel == self@.browse_moved(i).browse_sel,
            sel < self.files@.len() || sel == 0,
    {
        proof {
            reveal(Desk::browse_moved);
        }
        let up: usize = if i.up && self.browse_sel > 0 {
            self.browse_sel - 1
        } else {
            self.browse_sel
        };
        if i.down && up + 1 < self.files.len() {
            up + 1
        } else {
            up
        }
    }

    fn browse_move(&mut self, i: Input)
        requires
            old(self).wf(),
        ensures
            final(self).wf(),
            final(self)@ == old(self)@.browse_moved(i),
            final(self).mode == old(self).mode,
    {
        proof {
            reveal(Desk::browse_moved);
        }
        self.browse_sel = self.browse_place(i);
    }

    /// The file that the tick needs from the card before [`Editor::update`].
    pub fn wanted_file(&self, i: Input) -> (name: Option<Vec<u8>>)
        requires
            self.wf(),
        ensures
            match name {
                Some(n) => self@.browse_wants(i) == Some(n@),
                None => self@.browse_wants(i) is None,
            },
    {
        if self.mode == Mode::Browse && i.cross && self.files.len() > 0 {
            let sel: usize = self.browse_place(i);
            assert(self@.files[sel as int] == self.files@[sel as int]@);
            Some(copied(self.files[sel].name.as_slice()))
        } else {
            None
        }
    }

    fn browse_leave(&mut self)
        requires
            old(self).wf(),
        ensures
            final(self).wf(),
            final(self)@ == old(self)@.browse_left(),
    {
        proof {
            reveal(Desk::browse_left);
        }
        self.cur_col = 0;
        self.cur_row = 0;
        self.mode = if self.browse_from_menu {
            Mode::Menu
        } else {
            Mode::Nav
        };
    }

    /// The file browser, with the card's answer if a file was wanted.
    pub fn update_browse(&mut self, i: Input, reply: Option<Result<Vec<u8>, CardError>>)
        requires
            old(self).wf(),
        ensures
            final(self).wf(),
            final(self)@ == old(self)@.browse(i, reply),
    {
        proof {
            reveal(Desk::browse);
        }
        self.browse_move(i);
        match reply {
            Some(r) => {
                if i.cross && self.files.len() > 0 {
                    self.on_loaded(r);
                }
            },
            None => {},
        }
        // A card delete is unrecoverable, so it asks first.
        if i.square && self.files.len() > 0 {
            self.ask(Ask::DeleteSave);
        }
        if i.circle {
            self.browse_leave();
        }
    }

    /// Use the highlighted key. Gives the file to write, if there is one.
    fn use_key(&mut self, key: Key) -> (job: Option<SaveJob>)
        requires
            old(self).wf(),
        ensures
            final(self).wf(),
            final(self)@ == old(self)@.keyed(key),
            job_view(job) == if key == Key::Commit {
                old(self)@.finish_job()
            } else {
                None
            },
    {
        proof {
            reveal(Desk::keyed);
            reveal(Desk::finish_job);
        }
        match key {
            Key::Insert(c) => {
                self.push(c);
                None
            },
            Key::Backspace => {
                self.backspace();
                None
            },
            Key::Commit => self.finish_edit(),
            Key::Idle => None,
        }
    }

    fn caret_move(&mut self, i: Input)
        requires
            old(self).wf(),
        ensures
            final(self).wf(),
            final(self)@ == old(self)@.caret_moved(i),
    {
        proof {
            reveal(Desk::caret_moved);
        }
        if i.l2 {
            let walked: usize = walk(
                self.caret,
                i.step_left,
                i.step_right,
                1,
                self.edit_len + 1,
            );
            self.caret = if i.down {
                self.edit_len
            } else if i.up {
                0
            } else {
                walked
            };
        }
    }

    /// The part of a tick of typing before the shortcut that finishes.
    fn edit_type(&mut self, i: Input, key: Key) -> (job: Option<SaveJob>)
        requires
            old(self).wf(),
        ensures
            final(self).wf(),
            final(self)@ == old(self)@.edit_typed(i, key),
            job_view(job) == if i.cross && key == Key::Commit {
                old(self)@.caret_moved(i).finish_job()
            } else {
                None
            },
    {
        proof {
            reveal(Desk::edit_typed);
        }
        self.caret_move(i);
        let mut job: Option<SaveJob> = None;
        if i.cross {
            job = self.use_key(key);
        }
        // Hardware shortcuts alongside the on-screen keys.
        if i.l1 || i.square {
            self.backspace();
        }
        job
    }

    fn point(&mut self)
        requires
            old(self).wf(),
        ensures
            final(self).wf(),
            final(self)@ == old(self)@.pointing(),
    {
        proof {
            reveal(Desk::pointing);
        }
        self.pick_col = self.cur_col;
        self.pick_row = self.cur_row;
        self.pick_anchor = None;
        self.mode = Mode::Pick;
    }

    fn drop_text(&mut self)
        requires
            old(self).wf(),
        ensures
            final(self).wf(),
            final(self)@ == old(self)@.dropped(),
    {
        proof {
            reveal(Desk::dropped);
        }
        self.saving = false;
        self.mode = Mode::Nav;
    }

    /// What the keyboard is to do before [`Editor::update`]: while typing, the
    /// D-pad is its own unless L2 gives it to the caret, X uses the highlighted
    /// key, and R2 jumps to OK.
    pub fn key_plan(&self, i: Input) -> (p: KeyPlan)
        ensures
            p == self@.keys_planned(i),
    {
        let typing: bool = self.mode == Mode::Edit;
        let dpad: bool = typing && !i.l2;
        KeyPlan {
            left: dpad && i.step_left,
            right: dpad && i.step_right,
            up: dpad && i.step_up,
            down: dpad && i.step_down,
            activate: typing && i.cross,
            to_ok: typing && i.r2,
        }
    }

    /// Typing. `key` is what the highlighted key does, for when X uses it.
    pub fn update_edit(&mut self, i: Input, key: Key) -> (r: Request)
        requires
            old(self).wf(),
        ensures
            final(self).wf(),
            final(self)@ == old(self)@.editor(i, key),
            r@ == old(self)@.edit_wish(i, key),
    {
        proof {
            reveal(Desk::editor);
            reveal(Desk::edit_wish);
            reveal(Desk::finish_job);
        }
        let first: Option<SaveJob> = self.edit_type(i, key);
        let mut second: Option<SaveJob> = None;
        if i.start {
            second = self.finish_edit();
        }
        // R1 jumps to point at a cell to insert a reference or range (not while
        // typing a save name).
        if i.r1 && !self.saving {
            self.point();
        }
        if i.circle {
            self.drop_text();
        }
        match first {
            Some(job) => Request::Save(job),
            None => match second {
                Some(job) => Request::Save(job),
                None => Request::Idle,
            },
        }
    }

    /// Note the frame and age the message.
    fn begin(&mut self, frame: u32)
        requires
            old(self).wf(),
        ensures
            final(self).wf(),
            final(self)@ == old(self)@.begun(frame),
            final(self).mode == old(self).mode,
    {
        proof {
            reveal(Desk::begun);
        }
        self.frame = frame;
        self.status_ttl = if self.status_ttl > 0 {
            self.status_ttl - 1
        } else {
            0
        };
    }

    /// One tick, up to what the card does: note the frame, age the message, and
    /// act on the pad. `key` is what the keyboard's highlighted key does;
    /// `reply` is the card's answer if [`Editor::wanted_file`] named a file.
    /// What is asked of the card comes back; after it is done,
    /// [`Editor::settle`] ends the tick.
    pub fn update(
        &mut self,
        frame: u32,
        i: Input,
        key: Key,
        reply: Option<Result<Vec<u8>, CardError>>,
    ) -> (r: Request)
        requires
            old(self).wf(),
        ensures
            final(self).wf(),
            final(self)@ == old(self)@.ticked(frame, i, key, reply),
            r@ == old(self)@.wish(frame, i, key),
    {
        self.begin(frame);
        match self.mode {
            Mode::Menu => self.update_menu(i),
            Mode::Nav => {
                self.update_nav(i);
                Request::Idle
            },
            Mode::Edit => self.update_edit(i, key),
            Mode::Pick => {
                self.update_pick(i);
                Request::Idle
            },
            Mode::Chart => {
                self.update_chart(i);
                Request::Idle
            },
            Mode::Browse => {
                self.update_browse(i, reply);
                Request::Idle
            },
            Mode::Cmd => self.update_cmd_menu(i),
            Mode::Help => {
                self.update_help(i);
                Request::Idle
            },
            Mode::Confirm => self.update_confirm(i),
        }
    }

    /// Move the view to show the active cell.
    pub fn keep_cursor_visible(&mut self)
        requires
            old(self).wf(),
        ensures
            final(self).wf(),
            final(self)@ == old(self)@.following(),
    {
        proof {
            reveal(Desk::following);
        }
        let (cc, cr) = self.active_cell();
        let col: usize = if cc < self.top_col {
            cc
        } else if cc >= self.top_col + VIS_COLS {
            cc - VIS_COLS + 1
        } else {
            self.top_col
        };
        let row: usize = if cr < self.top_row {
            cr
        } else if cr >= self.top_row + VIS_ROWS {
            cr - VIS_ROWS + 1
        } else {
            self.top_row
        };
        self.top_col = col;
        self.top_row = row;
    }

    /// Ease the scroll toward the row in view: a quarter of what is left, with
    /// a floor of one pixel so that it always lands.
    pub fn ease_scroll(&mut self)
        requires
            old(self).wf(),
        ensures
            final(self).wf(),
            final(self)@ == old(self)@.scrolling(),
    {
        proof {
            reveal(Desk::scrolling);
        }
        let target: i16 = self.top_row as i16 * ROW_H;
        let at: i16 = self.scroll_px;
        let d: i16 = if target >= at {
            target - at
        } else {
            at - target
        };
        let step: i16 = if d / 4 >= 1 {
            d / 4
        } else if d >= 1 {
            1
        } else {
            0
        };
        self.scroll_px = if target >= at {
            at + step
        } else {
            at - step
        };
    }

    /// The end of a tick: show the active cell and scroll toward it.
    pub fn settle(&mut self)
        requires
            old(self).wf(),
        ensures
            final(self).wf(),
            final(self)@ == old(self)@.following().scrolling(),
    {
        self.keep_cursor_visible();
        self.ease_scroll();
    }

    /// Whether the on-screen keyboard is to start afresh; asking takes the
    /// wish back.
    pub fn take_fresh_kbd(&mut self) -> (fresh: bool)
        requires
            old(self).wf(),
        ensures
            final(self).wf(),
            fresh == old(self)@.fresh_kbd,
            final(self)@ == (Desk { fresh_kbd: false, ..old(self)@ }),
    {
        let fresh: bool = self.fresh_kbd;
        self.fresh_kbd = false;
        fresh
    }
}

} // verus!
