//! Drawing the bars, menus and panels.

use vstd::prelude::*;

use crate::ascii::push_all;
use crate::canvas::{fill_mark, text_mark, Canvas, Mark};
use crate::card::{display_name, shown_name};
use crate::decimal::{dec, push_dec};
use crate::editor::{menu_count, span_cells, Desk, Editor};
use crate::labels::{build_frac, bytes, clip, frac_text, range_name, range_ref, utf8};
use crate::modes::{
    cmd_at, cmd_hint, cmd_label, cmd_name, cmd_row, commands_before, count_commands, Ask, CMD_ROWS,
    CMD_VIS,
};
use crate::number::{fitted_text, write_value_fit};
use crate::refs::truncated;
use crate::samples::{sample_label, sample_name, SAMPLES};
use crate::sheet::sum_and_count;
use crate::theme::{blend, inked, lerp, theme, theme_of, toward_zero, Theme};

verus! {

/// Pixels from one glyph to the next.
pub const GW: i16 = 5;

/// Frames that a message spends fading out.
pub const TOAST_FADE: u16 = 40;

/// Bytes of the selection's readout.
pub const LINE_CAP: usize = 64;

/// Bottom command bar: a panel-backed legend of the current mode's controls.
/// The second line may be empty.
pub open spec fn cmdbar(t: Theme, l1: Seq<u8>, l2: Seq<u8>) -> Seq<Mark> {
    seq![
        fill_mark(0, 214, 320, 26, t.panel),
        fill_mark(0, 214, 320, 1, t.accent),
        text_mark(4, 218, l1, t.text),
    ] + if l2.len() > 0 {
        seq![text_mark(4, 229, l2, t.text)]
    } else {
        seq![]
    }
}

/// Draw the bottom command bar.
pub fn draw_cmdbar(cv: &mut Canvas, t: &Theme, l1: &[u8], l2: &[u8])
    ensures
        final(cv)@ == old(cv)@ + cmdbar(*t, l1@, l2@),
{
    cv.fill(0, 214, 320, 26, t.panel);
    cv.fill(0, 214, 320, 1, t.accent);
    cv.text(4, 218, l1, t.text);
    if l2.len() > 0 {
        cv.text(4, 229, l2, t.text);
    }
    assert(cv@ =~= old(cv)@ + cmdbar(*t, l1@, l2@));
}

impl Desk {
    pub open spec fn theme(self) -> Theme {
        theme_of(self.dark)
    }

    /// The selection's readout: its range, the sum and, if it holds numbers,
    /// their average, and how many they are.
    pub open spec fn selection_line(self) -> Seq<u8> {
        let s = self.target();
        let (sum, count) = sum_and_count(span_cells(s), self.grid.results);
        let avg = if count > 0 {
            utf8("  AVG ") + fitted_text(toward_zero(sum as int, count as int), 8)
        } else {
            seq![]
        };
        truncated(
            range_name(s.0 as int, s.1 as int, s.2 as int, s.3 as int) + utf8("  SUM ")
                + fitted_text(sum as int, 10) + avg + utf8("  N ") + dec(count),
            LINE_CAP as int,
        )
    }

    /// The bottom bar in `Nav`: the controls, or with a selection its readout.
    #[verifier::opaque]
    pub open spec fn nav_bar(self) -> Seq<Mark> {
        let t = self.theme();
        if self.sel_anchor is None {
            cmdbar(
                t,
                utf8("X:Edit TRI:New SQ:Clr L1:Copy R1:Paste R2:Sel"),
                utf8("ST:Undo  SEL:Menu  L2+Dir:Page"),
            )
        } else {
            seq![
                fill_mark(0, 214, 320, 26, t.panel),
                fill_mark(0, 214, 320, 1, t.accent),
                text_mark(4, 218, self.selection_line(), t.good),
                text_mark(4, 229, utf8("SQ:Clr L1:Copy R1:Paste SEL:Menu O:Drop"), t.text),
            ]
        }
    }

    /// One entry of the start menu.
    pub open spec fn menu_entry(self, i: int) -> Seq<Mark> {
        let t = self.theme();
        let y = 86 + 15 * i;
        let label = if i < SAMPLES {
            sample_label(i)
        } else {
            utf8("Browse saves")
        };
        if i == self.menu_sel {
            seq![
                fill_mark(94, y - 1, 132, 11, t.accent),
                text_mark(104, y, label, t.accent_text),
            ]
        } else {
            seq![text_mark(104, y, label, t.text)]
        }
    }

    /// The first `n` entries of the start menu.
    pub open spec fn menu_entries(self, n: int) -> Seq<Mark>
        decreases n,
    {
        if n <= 0 {
            seq![]
        } else {
            self.menu_entries(n - 1) + self.menu_entry(n - 1)
        }
    }

    /// The title screen.
    #[verifier::opaque]
    pub open spec fn menu_screen(self) -> Seq<Mark> {
        let t = self.theme();
        seq![
            Mark::Text { x: 112, y: 28, s: utf8("PSXcel"), scale: 3, tint: inked(t.good) },
            fill_mark(40, 58, 240, 1, t.accent),
            text_mark(60, 64, utf8("a spreadsheet for the PS1"), t.dim),
        ] + self.menu_entries(menu_count(self.has_save)) + cmdbar(
            t,
            utf8("D-Pad:Move   X:Open"),
            utf8(""),
        )
    }

    /// The message, fading into the background at its end.
    #[verifier::opaque]
    pub open spec fn toast_box(self) -> Seq<Mark> {
        let t = self.theme();
        let w = self.status.len() * 5 + 16;
        let x = (320 - w) / 2;
        let (num, den): (int, int) = if self.status_ttl < TOAST_FADE {
            (self.status_ttl as int, TOAST_FADE as int)
        } else {
            (1, 1)
        };
        let edge = if self.status_bad {
            t.bad
        } else {
            t.accent
        };
        if self.status_ttl == 0 || self.status.len() == 0 {
            seq![]
        } else {
            seq![
                fill_mark(x, 190, w as int, 14, blend(t.bg, t.panel, num, den)),
                fill_mark(x, 190, w as int, 1, blend(t.bg, edge, num, den)),
                text_mark(x + 8, 194, self.status, blend(t.bg, t.text, num, den)),
            ]
        }
    }

    /// One file of the browser.
    pub open spec fn file_entry(self, i: int) -> Seq<Mark> {
        let t = self.theme();
        let y = 30 + 14 * i;
        let sel = i == self.browse_sel;
        let tint = if sel {
            t.accent_text
        } else {
            t.text
        };
        let dim = if sel {
            t.accent_text
        } else {
            t.dim
        };
        (if sel {
            seq![fill_mark(32, y - 1, 244, 11, t.accent)]
        } else {
            seq![]
        }) + seq![
            text_mark(40, y, truncated(shown_name(self.files[i].0), 16), tint),
            text_mark(236, y, dec(self.files[i].1 as nat), dim),
            text_mark(244, y, utf8("blk"), dim),
        ]
    }

    /// The first `n` files of the browser.
    pub open spec fn file_entries(self, n: int) -> Seq<Mark>
        decreases n,
    {
        if n <= 0 {
            seq![]
        } else {
            self.file_entries(n - 1) + self.file_entry(n - 1)
        }
    }

    /// The file browser.
    #[verifier::opaque]
    pub open spec fn browse_screen(self) -> Seq<Mark> {
        let t = self.theme();
        let head = seq![
            fill_mark(0, 0, 320, 12, t.panel),
            text_mark(4, 2, utf8("LOAD FROM CARD"), t.good),
        ];
        if self.files.len() == 0 {
            head.push(text_mark(76, 104, utf8("NO SAVES ON CARD"), t.dim)) + cmdbar(
                t,
                utf8("O:Back"),
                utf8(""),
            ) + self.toast_box()
        } else {
            head + self.file_entries(self.files.len() as int) + cmdbar(
                t,
                utf8("D-Pad:Move  X:Load  SQ:Delete  O:Back"),
                utf8(""),
            ) + self.toast_box()
        }
    }

    /// The name of the browser's highlighted save.
    pub open spec fn save_shown(self) -> Seq<u8> {
        if self.browse_sel < self.files.len() {
            shown_name(self.files[self.browse_sel as int].0)
        } else {
            utf8("")
        }
    }

    /// The question over the browser.
    #[verifier::opaque]
    pub open spec fn confirm_box(self) -> Seq<Mark> {
        let t = self.theme();
        seq![
            fill_mark(50, 90, 220, 60, t.bad),
            fill_mark(52, 92, 216, 56, t.panel),
            text_mark(62, 102, utf8("DELETE THIS SAVE?"), t.bad),
            text_mark(62, 116, truncated(self.save_shown(), 38), t.text),
            text_mark(62, 132, utf8("X:Yes, delete    O:No, keep it"), t.dim),
        ]
    }

    /// One row of the command menu, in the panel's place `slot`: a hairline for
    /// a separator, else the command and its hint.
    pub open spec fn cmd_slot(self, slot: int) -> Seq<Mark> {
        let t = self.theme();
        let i = self.menu_top + slot;
        let y = 48 + 13 * slot;
        if i >= CMD_ROWS {
            seq![]
        } else {
            match cmd_at(i) {
                None => seq![fill_mark(96, y + 4, 156, 1, t.sep)],
                Some(cmd) => {
                    let sel = i == self.set_sel;
                    let hint = cmd_hint(cmd, self.dark);
                    (if sel {
                        seq![
                            fill_mark(91, y - 1, 166, 11, t.accent),
                            text_mark(96, y, cmd_label(cmd), t.accent_text),
                        ]
                    } else {
                        seq![text_mark(96, y, cmd_label(cmd), t.text)]
                    }) + if hint.len() > 0 {
                        seq![
                            text_mark(
                                256 - hint.len() * 5,
                                y,
                                hint,
                                if sel {
                                    t.accent_text
                                } else {
                                    t.dim
                                },
                            ),
                        ]
                    } else {
                        seq![]
                    }
                },
            }
        }
    }

    /// The first `n` rows of the command menu's panel.
    pub open spec fn cmd_slots(self, n: int) -> Seq<Mark>
        decreases n,
    {
        if n <= 0 {
            seq![]
        } else {
            self.cmd_slots(n - 1) + self.cmd_slot(n - 1)
        }
    }

    /// The command menu. Its scroll indicator counts commands, not rows: a
    /// separator is no place where the cursor can be.
    #[verifier::opaque]
    pub open spec fn cmd_panel(self) -> Seq<Mark> {
        let t = self.theme();
        let at = frac_text(
            commands_before(self.set_sel + 1),
            commands_before(CMD_ROWS as int),
        );
        seq![
            fill_mark(86, 26, 176, 192, t.panel),
            fill_mark(86, 26, 176, 2, t.accent),
            text_mark(96, 34, utf8("MENU"), t.good),
            text_mark(258 - at.len() * 5, 34, at, t.dim),
        ] + self.cmd_slots(CMD_VIS as int) + seq![
            text_mark(96, 207, utf8("X:Select  O:Back"), t.dim),
        ]
    }

    /// The controls reference.
    #[verifier::opaque]
    pub open spec fn help_screen(self) -> Seq<Mark> {
        let t = self.theme();
        seq![
            fill_mark(0, 0, 320, 12, t.panel),
            text_mark(4, 2, utf8("CONTROLS"), t.good),
        ] + help_rows_drawn(t, 15) + cmdbar(t, utf8("O:Back"), utf8(""))
    }
}

/// The controls reference's rows: a button and its meaning, or a heading.
pub open spec fn help_rows() -> Seq<(&'static str, &'static str)> {
    seq![
        ("GRID", ""),
        ("D-Pad", "Move   (L2+D-Pad pages)"),
        ("X / TRI", "Edit cell / fresh entry"),
        ("R2", "Mark a selection, D-Pad extends"),
        ("O", "Drop the selection"),
        ("SQ", "Clear cell or selection"),
        ("L1 / R1", "Copy / Paste"),
        ("START", "Undo   (L2+START homes to A1)"),
        ("SELECT", "Menu: rows, columns, chart, save"),
        ("TYPING", ""),
        ("D-Pad, X", "Pick a key, type it"),
        ("L2+<  >", "Move the caret (L2+UP/DN ends)"),
        ("SQ / L1", "Backspace at the caret"),
        ("R2", "Jump to OK, then X commits"),
        ("R1", "Point at a cell to insert its ref"),
    ]
}

/// The pixel row where row `k` of the controls reference starts.
pub open spec fn help_y(k: int) -> int
    decreases k,
{
    if k <= 0 {
        18
    } else if help_rows()[k - 1].1@.len() == 0 {
        help_y(k - 1) + 17
    } else {
        help_y(k - 1) + 11
    }
}

/// Row `k` of the controls reference: a heading with a rule below it, or a
/// button and its meaning.
pub open spec fn help_row_drawn(t: Theme, k: int) -> Seq<Mark> {
    let (button, meaning) = help_rows()[k];
    let y = help_y(k);
    if meaning@.len() == 0 {
        seq![text_mark(6, y + 4, utf8(button), t.hot), fill_mark(6, y + 13, 308, 1, t.sep)]
    } else {
        seq![text_mark(10, y, utf8(button), t.good), text_mark(68, y, utf8(meaning), t.text)]
    }
}

/// The first `n` rows of the controls reference.
pub open spec fn help_rows_drawn(t: Theme, n: int) -> Seq<Mark>
    decreases n,
{
    if n <= 0 {
        seq![]
    } else {
        help_rows_drawn(t, n - 1) + help_row_drawn(t, n - 1)
    }
}

impl Editor {
    /// The active theme.
    pub fn palette(&self) -> (t: Theme)
        ensures
            t == self@.theme(),
    {
        theme(&self.theme_mode)
    }

    /// The selection's readout.
    fn build_selection_line(&self) -> (line: Vec<u8>)
        requires
            self.wf(),
        ensures
            line@ == self@.selection_line(),
    {
        let (c0, r0, c1, r1) = self.target_rect();
        let (sum, count) = self.sheet.stats(c0, r0, c1, r1);
        let mut line: Vec<u8> = range_ref(c0, r0, c1, r1);
        push_all(&mut line, "  SUM ".as_bytes());
        let shown: Vec<u8> = write_value_fit(sum, 10);
        push_all(&mut line, shown.as_slice());
        let ghost so_far = line@;
        if count > 0 {
            push_all(&mut line, "  AVG ".as_bytes());
            let avg: i64 = sum / count as i64;
            assert(avg == toward_zero(sum as int, count as int));
            let shown: Vec<u8> = write_value_fit(avg, 8);
            push_all(&mut line, shown.as_slice());
            assert(line@ =~= so_far + (utf8("  AVG ") + fitted_text(avg as int, 8)));
        } else {
            assert(line@ =~= so_far + Seq::<u8>::empty());
        }
        push_all(&mut line, "  N ".as_bytes());
        push_dec(&mut line, count as u64);
        clip(line.as_slice(), LINE_CAP)
    }

    /// The bottom bar in `Nav`. With a selection marked it becomes a status
    /// bar: the range and its live sum, average and count.
    pub fn draw_nav_bar(&self, cv: &mut Canvas)
        requires
            self.wf(),
        ensures
            final(cv)@ == old(cv)@ + self@.nav_bar(),
    {
        proof {
            reveal(Desk::nav_bar);
        }
        let t: Theme = self.palette();
        if self.sel_anchor.is_none() {
            draw_cmdbar(
                cv,
                &t,
                "X:Edit TRI:New SQ:Clr L1:Copy R1:Paste R2:Sel".as_bytes(),
                "ST:Undo  SEL:Menu  L2+Dir:Page".as_bytes(),
            );
            return;
        }
        let line: Vec<u8> = self.build_selection_line();
        cv.fill(0, 214, 320, 26, t.panel);
        cv.fill(0, 214, 320, 1, t.accent);
        cv.text(4, 218, line.as_slice(), t.good);
        cv.label(4, 229, "SQ:Clr L1:Copy R1:Paste SEL:Menu O:Drop", t.text);
        assert(cv@ =~= old(cv)@ + self@.nav_bar());
    }

    /// The title screen.
    pub fn draw_menu(&self, cv: &mut Canvas)
        requires
            self.wf(),
        ensures
            final(cv)@ == old(cv)@ + self@.menu_screen(),
    {
        proof {
            reveal(Desk::menu_screen);
        }
        let t: Theme = self.palette();
        let n: usize = self.menu_len();
        cv.text_scaled(112, 28, "PSXcel", 3, t.good);
        cv.fill(40, 58, 240, 1, t.accent);
        cv.label(60, 64, "a spreadsheet for the PS1", t.dim);
        let ghost head = cv@;
        assert(head + self@.menu_entries(0) =~= head);
        let mut i: usize = 0;
        while i < n
            invariant
                self.wf(),
                t == self@.theme(),
                n == menu_count(self@.has_save),
                i <= n,
                cv@ == head + self@.menu_entries(i as int),
            decreases n - i,
        {
            let sel: bool = i == self.menu_sel;
            let y: i16 = 86 + 15 * i as i16;
            if sel {
                cv.fill(94, y - 1, 132, 11, t.accent);
            }
            let label: &str = if i < SAMPLES {
                sample_name(i)
            } else {
                "Browse saves"
            };
            cv.label(
                104,
                y,
                label,
                if sel {
                    t.accent_text
                } else {
                    t.text
                },
            );
            i += 1;
            assert(cv@ =~= head + self@.menu_entries(i as int));
        }
        draw_cmdbar(cv, &t, "D-Pad:Move   X:Open".as_bytes(), "".as_bytes());
        assert(cv@ =~= old(cv)@ + self@.menu_screen());
    }

    /// The message.
    pub fn draw_toast(&self, cv: &mut Canvas)
        requires
            self.wf(),
        ensures
            final(cv)@ == old(cv)@ + self@.toast_box(),
    {
        proof {
            reveal(Desk::toast_box);
        }
        if self.status_ttl == 0 || self.status.len() == 0 {
            assert(cv@ =~= old(cv)@ + self@.toast_box());
            return;
        }
        let t: Theme = self.palette();
        let w: i16 = self.status.len() as i16 * GW + 16;
        let x: i16 = (320 - w) / 2;
        // No alpha blending here: blend the colours toward the background over
        // the last frames, which looks the same over opaque chrome.
        let (num, den): (u16, u16) = if self.status_ttl < TOAST_FADE {
            (self.status_ttl, TOAST_FADE)
        } else {
            (1, 1)
        };
        let edge = if self.status_bad {
            t.bad
        } else {
            t.accent
        };
        cv.fill(x, 190, w as u16, 14, lerp(t.bg, t.panel, num, den));
        cv.fill(x, 190, w as u16, 1, lerp(t.bg, edge, num, den));
        cv.text(x + 8, 194, self.status.as_slice(), lerp(t.bg, t.text, num, den));
        assert(cv@ =~= old(cv)@ + self@.toast_box());
    }

    /// The file browser.
    pub fn draw_browse(&self, cv: &mut Canvas)
        requires
            self.wf(),
        ensures
            final(cv)@ == old(cv)@ + self@.browse_screen(),
    {
        proof {
            reveal(Desk::browse_screen);
        }
        let t: Theme = self.palette();
        cv.fill(0, 0, 320, 12, t.panel);
        cv.label(4, 2, "LOAD FROM CARD", t.good);
        if self.files.len() == 0 {
            cv.label(76, 104, "NO SAVES ON CARD", t.dim);
            draw_cmdbar(cv, &t, "O:Back".as_bytes(), "".as_bytes());
            self.draw_toast(cv);
            assert(cv@ =~= old(cv)@ + self@.browse_screen());
            return;
        }
        let ghost head = cv@;
        assert(head + self@.file_entries(0) =~= head);
        let mut i: usize = 0;
        while i < self.files.len()
            invariant
                self.wf(),
                t == self@.theme(),
                i <= self.files@.len(),
                cv@ == head + self@.file_entries(i as int),
            decreases self.files@.len() - i,
        {
            let ghost before = cv@;
            assert(self@.files[i as int] == self.files@[i as int]@);
            let sel: bool = i == self.browse_sel;
            let y: i16 = 30 + 14 * i as i16;
            if sel {
                cv.fill(32, y - 1, 244, 11, t.accent);
            }
            let tint = if sel {
                t.accent_text
            } else {
                t.text
            };
            let dim = if sel {
                t.accent_text
            } else {
                t.dim
            };
            let name: Vec<u8> = display_name(&self.files[i]);
            let shown: Vec<u8> = clip(name.as_slice(), 16);
            cv.text(40, y, shown.as_slice(), tint);
            // Block usage on the right.
            let mut blocks: Vec<u8> = Vec::new();
            push_dec(&mut blocks, self.files[i].blocks as u64);
            assert(blocks@ =~= dec(self@.files[i as int].1 as nat));
            cv.text(236, y, blocks.as_slice(), dim);
            cv.label(244, y, "blk", dim);
            assert(cv@ =~= before + self@.file_entry(i as int));
            i += 1;
            assert(cv@ =~= head + self@.file_entries(i as int));
        }
        draw_cmdbar(cv, &t, "D-Pad:Move  X:Load  SQ:Delete  O:Back".as_bytes(), "".as_bytes());
        self.draw_toast(cv);
        assert(cv@ =~= old(cv)@ + self@.browse_screen());
    }

    /// The name of the browser's highlighted save, for the confirm prompt.
    pub fn selected_save_name(&self) -> (s: Vec<u8>)
        requires
            self.wf(),
        ensures
            s@ == self@.save_shown(),
    {
        if self.browse_sel < self.files.len() {
            assert(self@.files[self.browse_sel as int] == self.files@[self.browse_sel as int]@);
            display_name(&self.files[self.browse_sel])
        } else {
            bytes("")
        }
    }

    /// The confirm prompt.
    pub fn draw_confirm(&self, cv: &mut Canvas)
        requires
            self.wf(),
        ensures
            final(cv)@ == old(cv)@ + self@.confirm_box(),
    {
        proof {
            reveal(Desk::confirm_box);
        }
        let t: Theme = self.palette();
        cv.fill(50, 90, 220, 60, t.bad);
        cv.fill(52, 92, 216, 56, t.panel);
        let (question, subject): (&str, Vec<u8>) = match self.ask {
            Ask::DeleteSave => ("DELETE THIS SAVE?", self.selected_save_name()),
        };
        let shown: Vec<u8> = clip(subject.as_slice(), 38);
        cv.label(62, 102, question, t.bad);
        cv.text(62, 116, shown.as_slice(), t.text);
        cv.label(62, 132, "X:Yes, delete    O:No, keep it", t.dim);
        assert(cv@ =~= old(cv)@ + self@.confirm_box());
    }

    /// One row of the command menu's panel.
    fn draw_cmd_slot(&self, cv: &mut Canvas, t: &Theme, slot: usize)
        requires
            self.wf(),
            slot < CMD_VIS,
            *t == self@.theme(),
        ensures
            final(cv)@ == old(cv)@ + self@.cmd_slot(slot as int),
    {
        let i: usize = self.menu_top + slot;
        if i >= CMD_ROWS {
            assert(cv@ =~= old(cv)@ + self@.cmd_slot(slot as int));
            return;
        }
        let y: i16 = 48 + 13 * slot as i16;
        match cmd_row(i) {
            None => {
                // Separator: a hairline instead of a blank gap.
                cv.fill(96, y + 4, 156, 1, t.sep);
                assert(cv@ =~= old(cv)@ + self@.cmd_slot(slot as int));
            },
            Some(cmd) => {
                let sel: bool = i == self.set_sel;
                if sel {
                    cv.fill(91, y - 1, 166, 11, t.accent);
                }
                cv.label(
                    96,
                    y,
                    cmd_name(cmd),
                    if sel {
                        t.accent_text
                    } else {
                        t.text
                    },
                );
                // Right-hand column: the current value or the shortcut.
                let hint: Vec<u8> = bytes(cmd.hint(self.theme_mode.dark));
                proof {
                    crate::panels::lemma_hint_len(cmd, self@.dark);
                }
                if hint.len() > 0 {
                    let x: i16 = 256 - hint.len() as i16 * GW;
                    cv.text(
                        x,
                        y,
                        hint.as_slice(),
                        if sel {
                            t.accent_text
                        } else {
                            t.dim
                        },
                    );
                }
                assert(cv@ =~= old(cv)@ + self@.cmd_slot(slot as int));
            },
        }
    }

    /// The command menu.
    pub fn draw_cmd_menu(&self, cv: &mut Canvas)
        requires
            self.wf(),
        ensures
            final(cv)@ == old(cv)@ + self@.cmd_panel(),
    {
        proof {
            reveal(Desk::cmd_panel);
        }
        let t: Theme = self.palette();
        cv.fill(86, 26, 176, 192, t.panel);
        cv.fill(86, 26, 176, 2, t.accent);
        cv.label(96, 34, "MENU", t.good);
        let nth: usize = count_commands(self.set_sel + 1);
        let all: usize = count_commands(CMD_ROWS);
        let at: Vec<u8> = build_frac(nth, all);
        proof {
            lemma_frac_len(nth as nat, all as nat);
        }
        let x: i16 = 258 - at.len() as i16 * GW;
        cv.text(x, 34, at.as_slice(), t.dim);
        let ghost head = cv@;
        assert(head + self@.cmd_slots(0) =~= head);
        let mut slot: usize = 0;
        while slot < CMD_VIS
            invariant
                self.wf(),
                t == self@.theme(),
                slot <= CMD_VIS,
                cv@ == head + self@.cmd_slots(slot as int),
            decreases CMD_VIS - slot,
        {
            self.draw_cmd_slot(cv, &t, slot);
            slot += 1;
            assert(cv@ =~= head + self@.cmd_slots(slot as int));
        }
        cv.label(96, 207, "X:Select  O:Back", t.dim);
        assert(cv@ =~= old(cv)@ + self@.cmd_panel());
    }

    /// The controls reference.
    pub fn draw_help(&self, cv: &mut Canvas)
        requires
            self.wf(),
        ensures
            final(cv)@ == old(cv)@ + self@.help_screen(),
    {
        proof {
            reveal(Desk::help_screen);
        }
        let t: Theme = self.palette();
        cv.fill(0, 0, 320, 12, t.panel);
        cv.label(4, 2, "CONTROLS", t.good);
        // A button and its meaning; an empty meaning starts a section.
        let rows: [(&str, &str); 15] = [
            ("GRID", ""),
            ("D-Pad", "Move   (L2+D-Pad pages)"),
            ("X / TRI", "Edit cell / fresh entry"),
            ("R2", "Mark a selection, D-Pad extends"),
            ("O", "Drop the selection"),
            ("SQ", "Clear cell or selection"),
            ("L1 / R1", "Copy / Paste"),
            ("START", "Undo   (L2+START homes to A1)"),
            ("SELECT", "Menu: rows, columns, chart, save"),
            ("TYPING", ""),
            ("D-Pad, X", "Pick a key, type it"),
            ("L2+<  >", "Move the caret (L2+UP/DN ends)"),
            ("SQ / L1", "Backspace at the caret"),
            ("R2", "Jump to OK, then X commits"),
            ("R1", "Point at a cell to insert its ref"),
        ];
        assert(rows@ =~= help_rows());
        let ghost head = cv@;
        assert(head + help_rows_drawn(t, 0) =~= head);
        let mut y: i16 = 18;
        let mut k: usize = 0;
        while k < 15
            invariant
                rows@ == help_rows(),
                k <= 15,
                y == help_y(k as int),
                18 <= y <= 18 + 17 * k,
                cv@ == head + help_rows_drawn(t, k as int),
            decreases 15 - k,
        {
            let (button, meaning) = rows[k];
            assert(help_rows()[k as int] == (button, meaning));
            if meaning.is_empty() {
                cv.label(6, y + 4, button, t.hot);
                cv.fill(6, y + 13, 308, 1, t.sep);
                y += 17;
            } else {
                cv.label(10, y, button, t.good);
                cv.label(68, y, meaning, t.text);
                y += 11;
            }
            k += 1;
            assert(cv@ =~= head + help_rows_drawn(t, k as int));
        }
        draw_cmdbar(cv, &t, "O:Back".as_bytes(), "".as_bytes());
        assert(cv@ =~= old(cv)@ + self@.help_screen());
    }
}

/// A hint is short.
proof fn lemma_hint_len(cmd: crate::modes::Cmd, dark: bool)
    ensures
        cmd_hint(cmd, dark).len() <= 5,
{
    reveal_strlit("START");
    reveal_strlit("L1");
    reveal_strlit("R1");
    reveal_strlit("DARK");
    reveal_strlit("LIGHT");
    reveal_strlit("");
    crate::labels::lemma_utf8_ascii("START");
    crate::labels::lemma_utf8_ascii("L1");
    crate::labels::lemma_utf8_ascii("R1");
    crate::labels::lemma_utf8_ascii("DARK");
    crate::labels::lemma_utf8_ascii("LIGHT");
    crate::labels::lemma_utf8_ascii("");
}

/// A position among the commands is short.
proof fn lemma_frac_len(n: nat, total: nat)
    requires
        n <= 17,
        total <= 17,
    ensures
        frac_text(n, total).len() <= 5,
{
    assert(dec(n).len() <= 2) by {
        reveal_with_fuel(dec, 3);
    }
    assert(dec(total).len() <= 2) by {
        reveal_with_fuel(dec, 3);
    }
}

} // verus!
