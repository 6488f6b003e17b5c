//! A whole frame.

use vstd::prelude::*;

use crate::canvas::{fill_mark, Canvas, Mark};
use crate::editor::{Desk, Editor};
use crate::labels::{build_chart_hint, chart_hint, utf8};
use crate::modes::{kind_label, next_kind, Ask, Mode};
use crate::panels::{cmdbar, draw_cmdbar};
use crate::theme::{osk_of, Theme};

verus! {

impl Desk {
    /// What stands over the grid: the keyboard, the command menu, or a bar of
    /// controls.
    pub open spec fn over_grid(self) -> Seq<Mark> {
        match self.mode {
            Mode::Edit => seq![
                Mark::Keyboard {
                    colors: osk_of(self.theme()),
                    hint: utf8("X:Key L2+<>:Caret SQ:Del R2:OK R1:Cell O:Back"),
                },
            ],
            Mode::Cmd => self.cmd_panel(),
            Mode::Pick => cmdbar(
                self.theme(),
                utf8("D-Pad:Move  X:Insert Ref  SQ:Range  O:Cancel"),
                utf8(""),
            ),
            Mode::Nav => self.nav_bar(),
            _ => seq![],
        }
    }

    /// The frame: the background, and the screen of the mode. The menu, the
    /// browser, the chart and the help fill the screen; a question stands over
    /// the browser that raised it; all else stands over the grid, with the
    /// message on top.
    pub open spec fn frame_drawn(self, kbd_y0: int, label_w: int) -> Seq<Mark> {
        let t = self.theme();
        seq![fill_mark(0, 0, 320, 240, t.bg)] + match self.mode {
            Mode::Menu => self.menu_screen(),
            Mode::Browse => self.browse_screen(),
            Mode::Confirm => self.browse_screen() + self.confirm_box(),
            Mode::Chart => self.chart_screen(label_w) + cmdbar(
                t,
                chart_hint(kind_label(next_kind(self.chart_kind))),
                utf8(""),
            ),
            Mode::Help => self.help_screen(),
            _ => self.chrome() + self.grid_view(kbd_y0) + self.over_grid() + self.toast_box(),
        }
    }
}

impl Editor {
    /// What stands over the grid.
    fn draw_over_grid(&self, cv: &mut Canvas)
        requires
            self.wf(),
        ensures
            final(cv)@ == old(cv)@ + self@.over_grid(),
    {
        match self.mode {
            Mode::Edit => {
                let t: Theme = self.palette();
                cv.keyboard(t.osk(), "X:Key L2+<>:Caret SQ:Del R2:OK R1:Cell O:Back");
                assert(cv@ =~= old(cv)@ + self@.over_grid());
            },
            Mode::Cmd => {
                self.draw_cmd_menu(cv);
            },
            Mode::Pick => {
                let t: Theme = self.palette();
                draw_cmdbar(
                    cv,
                    &t,
                    "D-Pad:Move  X:Insert Ref  SQ:Range  O:Cancel".as_bytes(),
                    "".as_bytes(),
                );
            },
            Mode::Nav => {
                self.draw_nav_bar(cv);
            },
            _ => {
                assert(cv@ =~= old(cv)@ + self@.over_grid());
            },
        }
    }

    /// Draw the frame. `kbd_y0` is where the on-screen keyboard starts, and
    /// `label_w` the width of the chart kind's label in pixels.
    pub fn render(&self, kbd_y0: i16, label_w: i16) -> (cv: Canvas)
        requires
            self.wf(),
            0 <= kbd_y0 <= 240,
            0 <= label_w <= 320,
        ensures
            cv@ == self@.frame_drawn(kbd_y0 as int, label_w as int),
    {
        let mut cv: Canvas = Canvas::new();
        let t: Theme = self.palette();
        // Own the background so that the theme can switch at runtime.
        cv.fill(0, 0, 320, 240, t.bg);
        let ghost back = cv@;
        assert(back =~= seq![fill_mark(0, 0, 320, 240, t.bg)]);
        match self.mode {
            Mode::Menu => {
                self.draw_menu(&mut cv);
            },
            Mode::Browse => {
                self.draw_browse(&mut cv);
            },
            // A question is modal over the screen that raised it.
            Mode::Confirm => {
                match self.ask {
                    Ask::DeleteSave => {
                        self.draw_browse(&mut cv);
                    },
                }
                self.draw_confirm(&mut cv);
                assert(cv@ =~= back + (self@.browse_screen() + self@.confirm_box()));
            },
            Mode::Chart => {
                self.draw_chart(&mut cv, label_w);
                let hint: Vec<u8> = build_chart_hint(self.chart_kind.next().label());
                draw_cmdbar(&mut cv, &t, hint.as_slice(), "".as_bytes());
                assert(cv@ =~= back + (self@.chart_screen(label_w as int) + cmdbar(
                    t,
                    hint@,
                    utf8(""),
                )));
            },
            Mode::Help => {
                self.draw_help(&mut cv);
            },
            _ => {
                self.draw_chrome(&mut cv);
                self.draw_grid(&mut cv, kbd_y0);
                self.draw_over_grid(&mut cv);
                // Messages float over every mode that stands over the grid.
                self.draw_toast(&mut cv);
                assert(cv@ =~= back + (self@.chrome() + self@.grid_view(kbd_y0 as int)
                    + self@.over_grid() + self@.toast_box()));
            },
        }
        cv
    }
}

} // verus!
