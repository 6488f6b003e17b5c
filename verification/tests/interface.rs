//! The interface: typing, clipboard, undo, menus, card and frames.

use psxcel::canvas::{angle_index, band_rows, pie_point, Canvas, Draw};
use psxcel::card::{
    any_save, display_name, is_save, make_filename, mc_err, pick_saves, CardError, SaveEntry,
};
use psxcel::chart::scale_px;
use psxcel::editor::Editor;
use psxcel::fixed::ONE;
use psxcel::grid::{idx, INPUT_CAP};
use psxcel::highlights::RefHighlights;
use psxcel::labels::{build_chart_hint, build_frac, cell_ref, clip, range_ref};
use psxcel::modes::{ChartKind, Cmd, Mode};
use psxcel::update::{Input, Key, KeyPlan, Request};

/// The reference scanner behind the typed-range highlighting: it must find
/// ranges and bare refs but never mistake a function name for one.
#[test]
fn ref_scan_finds_ranges_not_function_names() {
    let mut h = RefHighlights::none();
    h.scan(b"=SUM(A1:A3)+C2");
    assert_eq!(h.n, 2);
    assert_eq!(h.rects[0], (0, 0, 0, 2)); // A1:A3
    assert_eq!(h.rects[1], (2, 1, 2, 1)); // C2
    assert!(h.tint_at(0, 1).is_some()); // A2, inside the range
    assert!(h.tint_at(1, 1).is_none()); // B2, outside it
}

#[test]
fn ref_scan_rejects_out_of_grid_and_partial_refs() {
    let mut h = RefHighlights::none();
    h.scan(b"=A99+B+Z1"); // row 99 > ROWS, "B" has no row
    assert_eq!(h.n, 1);
    assert_eq!(h.rects[0], (25, 0, 25, 0)); // just Z1
}

fn test_editor() -> Editor {
    let mut ed = Editor::new();
    ed.mode = Mode::Edit;
    ed
}

/// Caret editing: insert lands at the caret and backspace takes the
/// character before it, so a typo mid-formula is fixable in place.
#[test]
fn caret_inserts_and_deletes_in_place() {
    let mut ed = test_editor();
    for &c in b"=A1+B2" {
        ed.push(c);
    }
    assert_eq!(&ed.edit_buf[..ed.edit_len], b"=A1+B2");
    // Walk back over "+B2" and fix the "1" to a "5".
    ed.caret = 3;
    ed.backspace(); // drop the '1'
    ed.push(b'5');
    assert_eq!(&ed.edit_buf[..ed.edit_len], b"=A5+B2");
    // Backspace at the start of the line is a no-op, not an underflow.
    ed.caret = 0;
    ed.backspace();
    assert_eq!(ed.edit_len, 6);
}

#[test]
fn caret_insert_stops_at_capacity() {
    let mut ed = test_editor();
    for _ in 0..INPUT_CAP + 5 {
        ed.push(b'9');
    }
    assert_eq!(ed.edit_len, INPUT_CAP);
    assert_eq!(ed.caret, INPUT_CAP);
    assert_eq!(ed.status, b"LINE FULL");
    assert!(ed.status_bad);
}

fn idle() -> Input {
    Input {
        step_left: false,
        step_right: false,
        step_up: false,
        step_down: false,
        left: false,
        right: false,
        up: false,
        down: false,
        cross: false,
        circle: false,
        square: false,
        triangle: false,
        l1: false,
        r1: false,
        r2: false,
        start: false,
        select: false,
        l2: false,
    }
}

fn tick(ed: &mut Editor, i: Input) -> Request {
    let r = ed.update(1, i, Key::Idle, None);
    ed.settle();
    r
}

fn nav() -> Editor {
    let mut ed = Editor::new();
    ed.mode = Mode::Nav;
    ed
}

fn type_text(ed: &mut Editor, s: &str) {
    for &c in s.as_bytes() {
        ed.push(c);
    }
}

fn enter(ed: &mut Editor, col: usize, row: usize, s: &str) {
    ed.cur_col = col;
    ed.cur_row = row;
    ed.begin_edit(true);
    type_text(ed, s);
    assert!(ed.finish_edit().is_none());
}

fn raw(ed: &Editor, col: usize, row: usize) -> String {
    String::from_utf8(ed.sheet.cells[idx(col, row)].raw().to_vec()).unwrap()
}

#[test]
fn the_pad_moves_the_cursor_and_pages() {
    let mut ed = nav();
    tick(&mut ed, Input { step_right: true, step_down: true, ..idle() });
    assert_eq!((ed.cur_col, ed.cur_row), (1, 1));
    tick(&mut ed, Input { step_right: true, step_down: true, l2: true, ..idle() });
    assert_eq!((ed.cur_col, ed.cur_row), (9, 25));
    assert_eq!((ed.top_col, ed.top_row), (2, 2));
    for _ in 0..5 {
        tick(&mut ed, Input { step_right: true, step_down: true, l2: true, ..idle() });
    }
    assert_eq!((ed.cur_col, ed.cur_row), (25, 49));
    assert_eq!((ed.top_col, ed.top_row), (18, 26));
    tick(&mut ed, Input { start: true, l2: true, ..idle() });
    assert_eq!((ed.cur_col, ed.cur_row), (0, 0));
}

#[test]
fn the_scroll_eases_and_lands() {
    let mut ed = nav();
    ed.cur_row = 40;
    ed.settle();
    assert_eq!(ed.top_row, 17);
    assert_eq!(ed.scroll_px, 34); // a quarter of 136
    for _ in 0..60 {
        ed.settle();
    }
    assert_eq!(ed.scroll_px, 136);
}

#[test]
fn editing_commits_and_undo_takes_it_back() {
    let mut ed = nav();
    enter(&mut ed, 0, 0, "7");
    enter(&mut ed, 1, 0, "=A1*6");
    assert_eq!(ed.sheet.cells[idx(1, 0)].value, 42 * ONE);
    assert_eq!(ed.history.len(), 2);
    ed.undo();
    assert!(ed.sheet.cells[idx(1, 0)].is_empty());
    assert_eq!(ed.status, b"UNDONE");
    ed.undo();
    assert!(ed.sheet.cells[idx(0, 0)].is_empty());
    ed.undo();
    assert_eq!(ed.status, b"NOTHING TO UNDO");
}

#[test]
fn only_the_newest_steps_are_kept() {
    let mut ed = nav();
    for n in 0..9 {
        enter(&mut ed, 0, n, "1");
    }
    assert_eq!(ed.history.len(), 6);
    for _ in 0..6 {
        ed.undo();
    }
    assert_eq!(raw(&ed, 0, 2), "1");
    assert!(ed.sheet.cells[idx(0, 3)].is_empty());
}

#[test]
fn a_sheet_too_dense_to_keep_drops_the_history() {
    let mut ed = nav();
    enter(&mut ed, 0, 0, "1");
    for row in 0..50 {
        for col in 0..4 {
            let cell = &mut ed.sheet.cells[idx(col, row)];
            cell.buf = [b'x'; INPUT_CAP];
            cell.len = INPUT_CAP as u8;
        }
    }
    ed.push_undo();
    assert_eq!(ed.history.len(), 0);
}

#[test]
fn copy_and_paste_shift_references() {
    let mut ed = nav();
    enter(&mut ed, 0, 0, "2");
    enter(&mut ed, 0, 1, "3");
    enter(&mut ed, 1, 0, "=A1*10");
    ed.cur_col = 1;
    ed.cur_row = 0;
    ed.copy();
    assert_eq!(ed.status, b"COPIED CELL");
    // One cell onto a selection fills it.
    ed.cur_row = 1;
    ed.sel_anchor = Some((1, 3));
    ed.paste();
    assert_eq!(raw(&ed, 1, 1), "=A2*10");
    assert_eq!(raw(&ed, 1, 3), "=A4*10");
    assert_eq!(ed.sheet.cells[idx(1, 1)].value, 30 * ONE);
    assert!(ed.sel_anchor.is_none());
    // A rectangle lands with its top left at the cursor.
    ed.cur_col = 0;
    ed.cur_row = 0;
    ed.sel_anchor = Some((1, 1));
    ed.copy();
    assert_eq!(ed.status, b"COPIED RANGE");
    ed.sel_anchor = None;
    ed.cur_col = 3;
    ed.cur_row = 4;
    ed.paste();
    assert_eq!(raw(&ed, 3, 4), "2");
    assert_eq!(raw(&ed, 4, 5), "=D6*10");
    assert_eq!(ed.sheet.cells[idx(4, 5)].value, 30 * ONE);
    assert_eq!(ed.status, b"PASTED");
}

#[test]
fn pasting_over_the_edge_drops_what_does_not_fit() {
    let mut ed = nav();
    enter(&mut ed, 0, 0, "a");
    enter(&mut ed, 1, 0, "b");
    ed.cur_col = 0;
    ed.sel_anchor = Some((1, 0));
    ed.cur_row = 0;
    ed.copy();
    ed.sel_anchor = None;
    ed.cur_col = 25;
    ed.cur_row = 7;
    ed.paste();
    assert_eq!(raw(&ed, 25, 7), "a");
    assert!(ed.sheet.cells[idx(0, 8)].is_empty());
}

#[test]
fn a_large_copy_is_clipped_and_says_so() {
    let mut ed = nav();
    enter(&mut ed, 0, 0, "first");
    enter(&mut ed, 2, 24, "last");
    ed.sel_anchor = Some((0, 0));
    ed.cur_col = 2;
    ed.cur_row = 24;
    ed.copy();
    assert_eq!(ed.status, b"COPIED (CLIPPED)");
    assert_eq!(ed.clip.len(), 64);
    assert_eq!((ed.clip_w, ed.clip_h), (3, 21));
    let mut empty = nav();
    empty.paste();
    assert_eq!(empty.status, b"CLIPBOARD EMPTY");
}

#[test]
fn cut_empties_its_source() {
    let mut ed = nav();
    enter(&mut ed, 2, 2, "gone");
    ed.cut();
    assert!(ed.sheet.cells[idx(2, 2)].is_empty());
    ed.cur_col = 3;
    ed.paste();
    assert_eq!(raw(&ed, 3, 2), "gone");
}

#[test]
fn square_clears_the_selection() {
    let mut ed = nav();
    enter(&mut ed, 0, 0, "1");
    enter(&mut ed, 1, 1, "2");
    enter(&mut ed, 2, 2, "3");
    ed.sel_anchor = Some((0, 0));
    ed.cur_col = 1;
    ed.cur_row = 1;
    tick(&mut ed, Input { square: true, ..idle() });
    assert!(ed.sheet.cells[idx(0, 0)].is_empty());
    assert!(ed.sheet.cells[idx(1, 1)].is_empty());
    assert_eq!(raw(&ed, 2, 2), "3");
    assert_eq!(ed.status, b"CLEARED");
    assert!(ed.sel_anchor.is_none());
}

#[test]
fn selection_is_marked_and_dropped() {
    let mut ed = nav();
    tick(&mut ed, Input { r2: true, ..idle() });
    tick(&mut ed, Input { step_right: true, step_down: true, ..idle() });
    assert_eq!(ed.target_rect(), (0, 0, 1, 1));
    tick(&mut ed, Input { circle: true, ..idle() });
    assert_eq!(ed.target_rect(), (1, 1, 1, 1));
}

#[test]
fn picking_types_a_reference_or_a_range() {
    let mut ed = nav();
    tick(&mut ed, Input { triangle: true, ..idle() });
    assert!(ed.mode == Mode::Edit);
    assert!(ed.take_fresh_kbd());
    assert!(!ed.take_fresh_kbd());
    type_text(&mut ed, "=");
    tick(&mut ed, Input { r1: true, ..idle() });
    assert!(ed.mode == Mode::Pick);
    tick(&mut ed, Input { step_right: true, ..idle() });
    tick(&mut ed, Input { cross: true, ..idle() });
    assert_eq!(ed.typed_text(), b"=B1");
    assert!(ed.mode == Mode::Edit);
    type_text(&mut ed, "+SUM(");
    tick(&mut ed, Input { r1: true, ..idle() });
    tick(&mut ed, Input { step_right: true, step_down: true, ..idle() });
    tick(&mut ed, Input { square: true, ..idle() });
    tick(&mut ed, Input { step_left: true, step_down: true, ..idle() });
    tick(&mut ed, Input { cross: true, ..idle() });
    assert_eq!(ed.typed_text(), b"=B1+SUM(A2:B3");
}

#[test]
fn the_caret_walks_while_l2_is_held() {
    let mut ed = test_editor();
    type_text(&mut ed, "abc");
    tick(&mut ed, Input { l2: true, step_left: true, ..idle() });
    assert_eq!(ed.caret, 2);
    tick(&mut ed, Input { l2: true, up: true, ..idle() });
    assert_eq!(ed.caret, 0);
    tick(&mut ed, Input { l2: true, step_right: true, ..idle() });
    assert_eq!(ed.caret, 1);
    tick(&mut ed, Input { l2: true, down: true, ..idle() });
    assert_eq!(ed.caret, 3);
    ed.update(1, Input { cross: true, ..idle() }, Key::Insert(b'd'), None);
    assert_eq!(ed.typed_text(), b"abcd");
    ed.update(1, Input { cross: true, ..idle() }, Key::Backspace, None);
    ed.update(1, Input { square: true, ..idle() }, Key::Idle, None);
    assert_eq!(ed.typed_text(), b"ab");
    ed.update(1, Input { cross: true, ..idle() }, Key::Commit, None);
    assert_eq!(raw(&ed, 0, 0), "ab");
    assert!(ed.mode == Mode::Nav);
}

#[test]
fn the_keyboard_has_the_dpad_unless_l2_is_held() {
    let mut ed = test_editor();
    let i = Input { step_left: true, step_down: true, cross: true, r2: true, ..idle() };
    let all =
        KeyPlan { left: true, right: false, up: false, down: true, activate: true, to_ok: true };
    assert!(ed.key_plan(i) == all);
    assert!(ed.key_plan(Input { l2: true, ..i }) == KeyPlan { left: false, down: false, ..all });
    ed.mode = Mode::Nav;
    let none =
        KeyPlan { left: false, down: false, activate: false, to_ok: false, ..all };
    assert!(ed.key_plan(i) == none);
    assert!(ed.wanted_file(i).is_none());
}

#[test]
fn the_menu_skips_separators_and_scrolls() {
    let mut ed = nav();
    tick(&mut ed, Input { select: true, ..idle() });
    assert!(ed.mode == Mode::Cmd);
    for _ in 0..4 {
        tick(&mut ed, Input { step_down: true, ..idle() });
    }
    assert_eq!(ed.set_sel, 5);
    for _ in 0..20 {
        tick(&mut ed, Input { step_down: true, ..idle() });
    }
    assert_eq!((ed.set_sel, ed.menu_top), (16, 5));
    for _ in 0..20 {
        tick(&mut ed, Input { step_up: true, ..idle() });
    }
    assert_eq!((ed.set_sel, ed.menu_top), (0, 0));
}

#[test]
fn menu_commands_do_what_they_say() {
    let mut ed = nav();
    enter(&mut ed, 0, 3, "x");
    ed.cur_row = 1;
    ed.sel_anchor = Some((0, 2));
    assert!(!ed.run_cmd(Cmd::InsRow));
    assert_eq!(raw(&ed, 0, 5), "x");
    assert_eq!(ed.status, b"ROW INSERTED");
    ed.run_cmd(Cmd::Undo);
    assert_eq!(raw(&ed, 0, 3), "x");
    ed.run_cmd(Cmd::DelRow);
    assert_eq!(raw(&ed, 0, 2), "x");
    ed.run_cmd(Cmd::InsCol);
    assert_eq!(raw(&ed, 1, 2), "x");
    ed.run_cmd(Cmd::DelCol);
    assert_eq!(raw(&ed, 0, 2), "x");
    ed.run_cmd(Cmd::Chart);
    assert_eq!(ed.status, b"MARK A RANGE FIRST (R2)");
    ed.sel_anchor = Some((3, 4));
    ed.run_cmd(Cmd::Chart);
    assert!(ed.mode == Mode::Chart);
    assert_eq!(ed.chart_range, (0, 1, 3, 4));
    ed.run_cmd(Cmd::Theme);
    assert!(!ed.theme_mode.dark);
    assert!(ed.run_cmd(Cmd::Load));
    assert!(ed.mode == Mode::Browse);
    ed.run_cmd(Cmd::Help);
    assert!(ed.mode == Mode::Help);
    ed.run_cmd(Cmd::MainMenu);
    assert!(ed.mode == Mode::Menu);
    ed.run_cmd(Cmd::Save);
    assert!(ed.saving && ed.mode == Mode::Edit);
}

#[test]
fn left_toggles_the_theme_in_the_menu() {
    let mut ed = nav();
    ed.mode = Mode::Cmd;
    ed.set_sel = 11;
    tick(&mut ed, Input { left: true, ..idle() });
    assert!(!ed.theme_mode.dark);
    assert!(ed.mode == Mode::Cmd);
    ed.set_sel = 10;
    tick(&mut ed, Input { left: true, ..idle() });
    assert!(ed.mode == Mode::Cmd);
}

#[test]
fn the_start_menu_opens_samples_and_saves() {
    let mut ed = Editor::new();
    for _ in 0..10 {
        tick(&mut ed, Input { down: true, ..idle() });
    }
    assert_eq!(ed.menu_sel, 6);
    tick(&mut ed, Input { cross: true, ..idle() });
    assert!(ed.mode == Mode::Nav);
    assert_eq!(ed.sheet.cells[idx(1, 0)].value, 60 * ONE);
    let mut ed = Editor::new();
    ed.menu_sel = 2;
    assert!(!ed.open_selection());
    assert!(ed.mode == Mode::Chart);
    assert_eq!(ed.sheet.cells[idx(1, 13)].value, 357 * ONE);
    ed.menu_sel = 3;
    ed.open_selection();
    assert!(ed.chart_kind == ChartKind::Pie);
    assert_eq!(ed.sheet.cells[idx(1, 6)].value, 1700 * ONE);
    ed.menu_sel = 1;
    ed.open_selection();
    assert_eq!(ed.sheet.cells[idx(3, 5)].value, 102_000);
    ed.menu_sel = 4;
    ed.open_selection();
    assert_eq!(ed.sheet.cells[idx(2, 3)].value, 0);
    assert_eq!(ed.sheet.cells[idx(1, 7)].value, 74 * ONE);
    ed.menu_sel = 5;
    ed.open_selection();
    assert_eq!(ed.sheet.cells[idx(0, 41)].value, 165_580_141 * ONE);
    ed.has_save = true;
    ed.mode = Mode::Menu;
    ed.menu_sel = 7;
    assert!(matches!(tick(&mut ed, Input { start: true, ..idle() }), Request::List));
    assert!(ed.mode == Mode::Browse && ed.browse_from_menu);
}

fn entry(name: &str, blocks: u16) -> SaveEntry {
    SaveEntry {
        name: name.as_bytes().to_vec(),
        blocks,
    }
}

#[test]
fn saving_names_a_file_and_reports_the_card() {
    let mut ed = nav();
    enter(&mut ed, 0, 0, "1");
    ed.begin_saveas();
    type_text(&mut ed, "my sheet 1");
    let r = ed.update(1, Input { start: true, ..idle() }, Key::Idle, None);
    match r {
        Request::Save(job) => {
            assert_eq!(job.name, b"PSXCEL-MYSHEET1");
            assert_eq!(job.title, b"my sheet 1");
            assert_eq!(job.data, vec![1, 0, 0, 0, 1, b'1']);
        }
        _ => panic!("no save"),
    }
    assert!(!ed.saving && ed.mode == Mode::Nav);
    ed.on_saved(Ok(()));
    assert!(ed.has_save);
    assert_eq!(ed.status, b"SAVED OK");
    ed.on_saved(Err(CardError::NoSpace));
    assert_eq!(ed.status, b"CARD FULL");
    assert!(ed.status_bad);
    ed.begin_saveas();
    type_text(&mut ed, "!?");
    assert!(ed.finish_edit().is_none());
    assert_eq!(ed.status, b"NAME NEEDS A-Z 0-9");
}

#[test]
fn a_sheet_too_big_for_the_card_is_refused() {
    let mut ed = nav();
    for k in 0..400 {
        let cell = &mut ed.sheet.cells[k];
        cell.buf = [b'x'; INPUT_CAP];
        cell.len = INPUT_CAP as u8;
    }
    ed.begin_saveas();
    ed.push(b'a');
    assert!(ed.finish_edit().is_none());
    assert_eq!(ed.status, b"SHEET TOO BIG");
}

#[test]
fn the_browser_lists_loads_and_deletes() {
    let mut saved = nav();
    enter(&mut saved, 1, 1, "kept");
    let data = saved.sheet.stream(4096).unwrap();

    let mut ed = nav();
    ed.enter_browse(false);
    ed.on_listed(&vec![entry("OTHER", 1), entry("PSXCEL-A", 1), entry("PSXCEL-B", 2)]);
    assert_eq!(ed.files.len(), 2);
    let down = Input { down: true, cross: true, ..idle() };
    assert_eq!(ed.wanted_file(down).unwrap(), b"PSXCEL-B");
    ed.update(1, down, Key::Idle, Some(Ok(data)));
    assert_eq!(raw(&ed, 1, 1), "kept");
    assert_eq!(ed.status, b"LOADED");
    assert!(ed.mode == Mode::Nav);

    ed.mode = Mode::Browse;
    let cross = Input { cross: true, ..idle() };
    ed.update(1, cross, Key::Idle, Some(Ok(vec![1])));
    assert_eq!(ed.status, b"BAD SAVE DATA");
    ed.update(1, cross, Key::Idle, Some(Err(CardError::NotFound)));
    assert_eq!(ed.status, b"NO SAVE FOUND");
    tick(&mut ed, Input { square: true, ..idle() });
    assert!(ed.mode == Mode::Confirm);
    tick(&mut ed, Input { circle: true, ..idle() });
    assert!(ed.mode == Mode::Browse);
    tick(&mut ed, Input { square: true, ..idle() });
    match tick(&mut ed, cross) {
        Request::Delete(name) => assert_eq!(name, b"PSXCEL-B"),
        _ => panic!("no deletion"),
    }
    ed.on_deleted(Ok(()), &vec![entry("PSXCEL-A", 1)]);
    assert_eq!(ed.files.len(), 1);
    assert_eq!(ed.browse_sel, 0);
    assert_eq!(ed.status, b"SAVE DELETED");
    tick(&mut ed, Input { circle: true, ..idle() });
    assert!(ed.mode == Mode::Nav);
}

#[test]
fn file_names_are_reduced_and_recognised() {
    assert_eq!(make_filename(b"ab-c").unwrap(), b"PSXCEL-ABC");
    assert_eq!(
        make_filename(b"abcdefghijklmnopqrst").unwrap(),
        b"PSXCEL-ABCDEFGHIJKLM"
    );
    assert!(make_filename(b"- -").is_none());
    assert!(is_save(b"PSXCEL-X"));
    assert!(!is_save(b"PSXCEL"));
    assert_eq!(display_name(&entry("PSXCEL-X1", 1)), b"X1");
    assert_eq!(display_name(&entry("OTHER", 1)), b"OTHER");
    assert!(any_save(&vec![entry("A", 1), entry("PSXCEL-", 1)]));
    assert!(!any_save(&vec![entry("A", 1)]));
    let many: Vec<SaveEntry> = (0..20).map(|k| entry("PSXCEL-N", k)).collect();
    assert_eq!(pick_saves(&many).len(), 15);
}

#[test]
fn card_errors_have_texts() {
    assert_eq!(mc_err(CardError::NoCard), "NO CARD");
    assert_eq!(mc_err(CardError::NotFound), "NO SAVE FOUND");
    assert_eq!(mc_err(CardError::NoSpace), "CARD FULL");
    assert_eq!(mc_err(CardError::BadChecksum), "CARD CHECKSUM");
    assert_eq!(mc_err(CardError::Protocol), "CARD ERROR");
    assert_eq!(mc_err(CardError::BufferTooSmall), "SAVE TOO BIG");
    assert_eq!(mc_err(CardError::BadName), "BAD NAME");
    assert_eq!(mc_err(CardError::Other), "CARD FAULT");
}

#[test]
fn labels_are_built() {
    assert_eq!(cell_ref(1, 11), b"B12:");
    assert_eq!(range_ref(0, 0, 25, 49), b"A1:Z50");
    assert_eq!(build_frac(3, 17), b"3/17");
    assert_eq!(build_chart_hint("LINE"), b"TRI:LINE View   O:Back");
    assert_eq!(clip(b"abcdef", 4), b"abcd");
    assert_eq!(clip(b"ab", 4), b"ab");
    assert_eq!(ChartKind::Pie.next().label(), "BAR");
    assert_eq!(Cmd::Theme.hint(true), "DARK");
    assert_eq!(Cmd::Help.hint(true), "");
}

// -------------------------------------------------------------------------
// Frames
// -------------------------------------------------------------------------

fn texts(cv: &Canvas) -> Vec<(i16, i16, String)> {
    let mut out = Vec::new();
    for op in cv.ops.iter() {
        if let Draw::Text { x, y, s, .. } = op {
            out.push((*x, *y, String::from_utf8(s.clone()).unwrap()));
        }
    }
    out
}

fn has(cv: &Canvas, x: i16, y: i16, s: &str) -> bool {
    texts(cv).iter().any(|t| t.0 == x && t.1 == y && t.2 == s)
}

#[test]
fn the_title_screen_shows_the_samples() {
    let ed = Editor::new();
    let cv = ed.render(150, 15);
    assert!(matches!(
        cv.ops[0],
        Draw::Fill { x: 0, y: 0, w: 320, h: 240, c: (10, 16, 13) }
    ));
    assert!(has(&cv, 112, 28, "PSXcel"));
    assert!(has(&cv, 104, 86, "Blank"));
    assert!(has(&cv, 104, 176, "Functions"));
    assert!(has(&cv, 4, 218, "D-Pad:Move   X:Open"));
}

#[test]
fn the_grid_shows_cells_and_the_selection_readout() {
    let mut ed = nav();
    enter(&mut ed, 0, 0, "10");
    enter(&mut ed, 0, 1, "text that is long");
    enter(&mut ed, 1, 0, "=A1/4");
    enter(&mut ed, 1, 1, "=1/0");
    ed.cur_col = 1;
    ed.cur_row = 0;
    let cv = ed.render(150, 15);
    assert!(has(&cv, 41, 22, "10")); // right-aligned in column A
    assert!(has(&cv, 16, 30, "text th"));
    assert!(has(&cv, 51, 30, "#ERR"));
    assert!(has(&cv, 4, 2, "B1:"));
    assert!(has(&cv, 23, 2, "=A1/4"));
    assert!(has(&cv, 68, 2, "2.5"));
    assert!(has(&cv, 31, 12, "A"));
    assert!(has(&cv, 2, 22, "1"));
    assert!(has(&cv, 4, 218, "X:Edit TRI:New SQ:Clr L1:Copy R1:Paste R2:Sel"));
    ed.sel_anchor = Some((0, 1));
    let cv = ed.render(150, 15);
    assert!(has(&cv, 4, 218, "A1:B2  SUM 12.5  AVG 6.25  N 2"));
}

#[test]
fn typing_shows_a_preview_and_the_keyboard() {
    let mut ed = nav();
    enter(&mut ed, 0, 0, "6");
    ed.cur_col = 1;
    ed.begin_edit(true);
    type_text(&mut ed, "=A1*7");
    ed.frame = 16;
    let cv = ed.render(150, 15);
    assert!(has(&cv, 23, 2, "=A1*7"));
    assert!(has(&cv, 68, 2, "42"));
    let hint = b"X:Key L2+<>:Caret SQ:Del R2:OK R1:Cell O:Back";
    assert!(cv.ops.iter().any(|d| match d {
        // Faces are screen colours, texts are halved.
        Draw::Keyboard { colors, hint: h } => {
            h == hint && colors.accent == (34, 150, 82) && colors.accent_text == (127, 127, 127)
        }
        _ => false,
    }));
    assert!(cv.ops.iter().any(|d| matches!(d, Draw::Fill { x: 47, y: 1, w: 1, h: 9, .. })));
    // The band ends on a whole row above the keyboard.
    assert!(cv.ops.iter().any(|d| matches!(d, Draw::Band { y0: 21, y1: 132 })));
    ed.push(b'*');
    let cv = ed.render(150, 15);
    assert!(has(&cv, 73, 2, "?"));
}

#[test]
fn bars_have_the_height_of_their_values() {
    let mut ed = Editor::new();
    ed.menu_sel = 2;
    ed.open_selection();
    let cv = ed.render(150, 15);
    assert!(has(&cv, 52, 2, "B2:B13"));
    assert!(has(&cv, 299, 2, "BAR"));
    assert!(has(&cv, 120, 2, "n=12"));
    // The tallest of twelve bars fills the plot: AUG, 45.
    assert!(cv.ops.iter().any(|d| matches!(
        d,
        Draw::Fill { x: 192, y: 28, w: 19, h: 160, c: (34, 150, 82) }
    )));
    assert!(has(&cv, 4, 218, "TRI:LINE View   O:Back"));
    ed.chart_kind = ChartKind::Area;
    let cv = ed.render(150, 20);
    assert_eq!(cv.ops.iter().filter(|d| matches!(d, Draw::Quad { .. })).count(), 11);
    assert_eq!(cv.ops.iter().filter(|d| matches!(d, Draw::Line { .. })).count(), 11);
}

#[test]
fn a_pie_closes_its_circle() {
    let mut ed = Editor::new();
    ed.menu_sel = 3;
    ed.open_selection();
    let cv = ed.render(150, 15);
    // From the top of the circle once around.
    let mut at = 3072;
    let mut slices = Vec::new();
    for op in cv.ops.iter() {
        if let Draw::Wedge { a, b, c, .. } = op {
            assert_eq!(*a, at);
            assert!(*b > *a && *b - *a <= 64);
            at = *b;
            if slices.last() != Some(c) {
                slices.push(*c);
            }
        }
    }
    assert_eq!(at, 3072 + 4096);
    assert_eq!(slices.len(), 5);
    assert_eq!(angle_index(3072), 3072);
    assert_eq!(pie_point(104, 118, 74, 0, -4096), (104, 44));
    assert!(has(&cv, 208, 26, "RENT"));
}

#[test]
fn a_chart_label_stands_beside_its_own_value() {
    let mut ed = nav();
    enter(&mut ed, 0, 0, "ONE");
    enter(&mut ed, 0, 1, "TWO");
    enter(&mut ed, 0, 2, "THREE");
    enter(&mut ed, 1, 0, "10");
    enter(&mut ed, 1, 2, "30");
    ed.mode = Mode::Chart;
    ed.chart_range = (1, 0, 1, 2);
    let cv = ed.render(150, 15);
    // Two points, 131 pixels each; B2 is blank, so A2 labels nothing.
    assert!(has(&cv, 109 - 7, 192, "ONE"));
    assert!(has(&cv, 240 - 12, 192, "THREE"));
    assert!(texts(&cv).iter().all(|(_, _, s)| s != "TWO"));
    // In a wider range a number beside the value is no label.
    enter(&mut ed, 2, 0, "20");
    ed.mode = Mode::Chart;
    ed.chart_range = (1, 0, 2, 0);
    let cv = ed.render(150, 15);
    assert!(has(&cv, 109 - 7, 192, "ONE"));
    assert_eq!(texts(&cv).iter().filter(|(_, y, _)| *y == 192).count(), 1);
    // Nothing stands left of the first column.
    ed.chart_range = (0, 0, 1, 0);
    let cv = ed.render(150, 15);
    assert!(has(&cv, 175 - 7, 192, "ONE"));
}

#[test]
fn charts_without_numbers_say_so() {
    let mut ed = nav();
    ed.mode = Mode::Chart;
    ed.chart_range = (0, 0, 1, 1);
    assert!(has(&ed.render(150, 15), 80, 110, "NO NUMERIC DATA"));
    enter(&mut ed, 0, 0, "0");
    ed.mode = Mode::Chart;
    ed.chart_kind = ChartKind::Pie;
    assert!(has(&ed.render(150, 15), 80, 110, "NO DATA"));
}

#[test]
fn a_message_fades_and_goes() {
    let mut ed = nav();
    ed.toast("HELLO", false);
    assert_eq!(ed.status_ttl, 150);
    let cv = ed.render(150, 15);
    assert!(has(&cv, 147, 194, "HELLO"));
    for _ in 0..150 {
        tick(&mut ed, idle());
    }
    assert_eq!(ed.status_ttl, 0);
    assert!(!has(&ed.render(150, 15), 147, 194, "HELLO"));
    ed.toast("A MESSAGE THAT IS LONGER THAN THE LINE IT GOES INTO", true);
    assert_eq!(ed.status, b"A MESSAGE THAT IS LONGER THAN TH");
}

#[test]
fn the_menu_help_and_question_are_drawn() {
    let mut ed = nav();
    ed.mode = Mode::Cmd;
    let cv = ed.render(150, 15);
    assert!(has(&cv, 238, 34, "1/14"));
    assert!(has(&cv, 96, 48, "Undo"));
    assert!(has(&cv, 231, 48, "START"));
    assert!(has(&cv, 96, 207, "X:Select  O:Back"));
    ed.mode = Mode::Help;
    let cv = ed.render(150, 15);
    assert!(has(&cv, 6, 22, "GRID"));
    assert!(has(&cv, 68, 35, "Move   (L2+D-Pad pages)"));
    ed.enter_browse(true);
    assert!(has(&ed.render(150, 15), 76, 104, "NO SAVES ON CARD"));
    ed.on_listed(&vec![entry("PSXCEL-A", 3)]);
    tick(&mut ed, Input { square: true, ..idle() });
    let cv = ed.render(150, 15);
    assert!(has(&cv, 40, 30, "A"));
    assert!(has(&cv, 236, 30, "3"));
    assert!(has(&cv, 62, 102, "DELETE THIS SAVE?"));
    assert!(has(&cv, 62, 116, "A"));
}

#[test]
fn pixels_scale_and_points_turn() {
    assert_eq!(scale_px(0, 10, 160), 0);
    assert_eq!(scale_px(5, 10, 160), 80);
    assert_eq!(scale_px(20, 10, 160), 160);
    assert_eq!(scale_px(i64::MAX / 2, i64::MAX, 160), 79);
    assert_eq!(scale_px(5, 0, 160), 0);
    assert_eq!(pie_point(104, 118, 74, 4096, 0), (178, 118));
    assert_eq!(pie_point(104, 118, 74, -2048, -100), (67, 117));
    assert_eq!(angle_index(4096), 0);
    assert_eq!(angle_index(4100), 4);
    assert_eq!(band_rows(240, 21, 212), (261, 452));
}

#[test]
fn ants_march_with_the_frame() {
    let ed = nav();
    let mut cv = Canvas::new();
    ed.draw_ants(&mut cv, 16, 21, 35, 8);
    assert_eq!(cv.ops.len(), 21);
    assert!(matches!(cv.ops[0], Draw::Fill { x: 18, y: 21, w: 2, h: 1, .. }));
    let mut later = nav();
    later.frame = u32::MAX;
    let mut cv = Canvas::new();
    later.draw_ants(&mut cv, 16, 21, 35, 8);
    assert!(cv.ops.len() >= 21);
}
