//! The modes of the interface, the chart kinds, and the command menu.

use vstd::prelude::*;

use crate::labels::utf8;

verus! {

#[derive(Copy, Clone, PartialEq, Eq, Structural)]
pub enum Mode {
    /// Boot title screen: pick a sample sheet or a memory-card save.
    Menu,
    Nav,
    Edit,
    /// Mid-edit "point at a cell" mode: roam the grid and insert a reference
    /// into the formula being typed.
    Pick,
    /// Full-screen chart of a selected range.
    Chart,
    /// Full-screen memory-card file browser (load / delete a saved sheet).
    Browse,
    /// The command menu (edit ops, sheet ops, theme, card, help).
    Cmd,
    /// Full-screen controls reference.
    Help,
    /// Modal yes/no over whatever drew last.
    Confirm,
}

/// What a [`Mode::Confirm`] prompt will do if the answer is yes. Only
/// destructive, hard-to-notice-until-too-late actions get one.
#[derive(Copy, Clone, PartialEq, Eq, Structural)]
pub enum Ask {
    DeleteSave,
}

#[derive(Copy, Clone, PartialEq, Eq, Structural)]
pub enum ChartKind {
    Bar,
    Line,
    Area,
    Pie,
}

/// The chart type behind another one.
pub open spec fn next_kind(k: ChartKind) -> ChartKind {
    match k {
        ChartKind::Bar => ChartKind::Line,
        ChartKind::Line => ChartKind::Area,
        ChartKind::Area => ChartKind::Pie,
        ChartKind::Pie => ChartKind::Bar,
    }
}

pub open spec fn kind_label(k: ChartKind) -> Seq<u8> {
    match k {
        ChartKind::Bar => utf8("BAR"),
        ChartKind::Line => utf8("LINE"),
        ChartKind::Area => utf8("AREA"),
        ChartKind::Pie => utf8("PIE"),
    }
}

/// Going on four times comes back to the same chart type.
pub proof fn law_kinds_cycle(k: ChartKind)
    ensures
        next_kind(next_kind(next_kind(next_kind(k)))) == k,
        next_kind(k) != k,
        next_kind(next_kind(k)) != k,
{
}

impl ChartKind {
    /// Cycle to the next chart type.
    pub fn next(self) -> (k: ChartKind)
        ensures
            k == next_kind(self),
    {
        match self {
            ChartKind::Bar => ChartKind::Line,
            ChartKind::Line => ChartKind::Area,
            ChartKind::Area => ChartKind::Pie,
            ChartKind::Pie => ChartKind::Bar,
        }
    }

    pub fn label(self) -> (s: &'static str)
        ensures
            utf8(s) == kind_label(self),
    {
        match self {
            ChartKind::Bar => "BAR",
            ChartKind::Line => "LINE",
            ChartKind::Area => "AREA",
            ChartKind::Pie => "PIE",
        }
    }
}

/// A command-menu action.
#[derive(Copy, Clone, PartialEq, Eq, Structural)]
pub enum Cmd {
    Undo,
    Cut,
    Copy,
    Paste,
    InsRow,
    DelRow,
    InsCol,
    DelCol,
    Chart,
    Theme,
    Save,
    Load,
    Help,
    MainMenu,
}

/// The right-hand column in the menu: the pad shortcut where one exists, or
/// the current value for a setting.
pub open spec fn cmd_hint(cmd: Cmd, dark: bool) -> Seq<u8> {
    match cmd {
        Cmd::Undo => utf8("START"),
        Cmd::Copy => utf8("L1"),
        Cmd::Paste => utf8("R1"),
        Cmd::Theme => if dark {
            utf8("DARK")
        } else {
            utf8("LIGHT")
        },
        _ => utf8(""),
    }
}

impl Cmd {
    /// The right-hand column in the menu.
    pub fn hint(self, dark: bool) -> (s: &'static str)
        ensures
            utf8(s) == cmd_hint(self, dark),
    {
        match self {
            Cmd::Undo => "START",
            Cmd::Copy => "L1",
            Cmd::Paste => "R1",
            Cmd::Theme => {
                if dark {
                    "DARK"
                } else {
                    "LIGHT"
                }
            },
            _ => "",
        }
    }
}

/// Rows of the command menu, separators among them.
pub const CMD_ROWS: usize = 17;

/// Rows the menu panel shows at once.
pub const CMD_VIS: usize = 12;

/// The command in a row of the menu; `None` for a separator.
pub open spec fn cmd_at(i: int) -> Option<Cmd> {
    if i == 0 {
        Some(Cmd::Undo)
    } else if i == 1 {
        Some(Cmd::Cut)
    } else if i == 2 {
        Some(Cmd::Copy)
    } else if i == 3 {
        Some(Cmd::Paste)
    } else if i == 5 {
        Some(Cmd::InsRow)
    } else if i == 6 {
        Some(Cmd::DelRow)
    } else if i == 7 {
        Some(Cmd::InsCol)
    } else if i == 8 {
        Some(Cmd::DelCol)
    } else if i == 10 {
        Some(Cmd::Chart)
    } else if i == 11 {
        Some(Cmd::Theme)
    } else if i == 13 {
        Some(Cmd::Save)
    } else if i == 14 {
        Some(Cmd::Load)
    } else if i == 15 {
        Some(Cmd::Help)
    } else if i == 16 {
        Some(Cmd::MainMenu)
    } else {
        None
    }
}

pub open spec fn cmd_label(cmd: Cmd) -> Seq<u8> {
    match cmd {
        Cmd::Undo => utf8("Undo"),
        Cmd::Cut => utf8("Cut"),
        Cmd::Copy => utf8("Copy"),
        Cmd::Paste => utf8("Paste"),
        Cmd::InsRow => utf8("Insert row"),
        Cmd::DelRow => utf8("Delete row"),
        Cmd::InsCol => utf8("Insert column"),
        Cmd::DelCol => utf8("Delete column"),
        Cmd::Chart => utf8("Chart selection"),
        Cmd::Theme => utf8("Theme"),
        Cmd::Save => utf8("Save to card"),
        Cmd::Load => utf8("Load from card"),
        Cmd::Help => utf8("Help"),
        Cmd::MainMenu => utf8("Main menu"),
    }
}

/// The command in a row of the menu; `None` for a separator.
pub fn cmd_row(i: usize) -> (r: Option<Cmd>)
    ensures
        r == cmd_at(i as int),
{
    match i {
        0 => Some(Cmd::Undo),
        1 => Some(Cmd::Cut),
        2 => Some(Cmd::Copy),
        3 => Some(Cmd::Paste),
        5 => Some(Cmd::InsRow),
        6 => Some(Cmd::DelRow),
        7 => Some(Cmd::InsCol),
        8 => Some(Cmd::DelCol),
        10 => Some(Cmd::Chart),
        11 => Some(Cmd::Theme),
        13 => Some(Cmd::Save),
        14 => Some(Cmd::Load),
        15 => Some(Cmd::Help),
        16 => Some(Cmd::MainMenu),
        _ => None,
    }
}

/// A command's text in the menu.
pub fn cmd_name(cmd: Cmd) -> (s: &'static str)
    ensures
        utf8(s) == cmd_label(cmd),
{
    match cmd {
        Cmd::Undo => "Undo",
        Cmd::Cut => "Cut",
        Cmd::Copy => "Copy",
        Cmd::Paste => "Paste",
        Cmd::InsRow => "Insert row",
        Cmd::DelRow => "Delete row",
        Cmd::InsCol => "Insert column",
        Cmd::DelCol => "Delete column",
        Cmd::Chart => "Chart selection",
        Cmd::Theme => "Theme",
        Cmd::Save => "Save to card",
        Cmd::Load => "Load from card",
        Cmd::Help => "Help",
        Cmd::MainMenu => "Main menu",
    }
}

/// How many of the first `n` rows of the menu are commands.
pub open spec fn commands_before(n: int) -> nat
    decreases n,
{
    if n <= 0 {
        0
    } else {
        commands_before(n - 1) + if cmd_at(n - 1) is Some {
            1nat
        } else {
            0
        }
    }
}

/// How many of the first `n` rows of the menu are commands.
pub fn count_commands(n: usize) -> (k: usize)
    requires
        n <= CMD_ROWS,
    ensures
        k == commands_before(n as int),
        k <= n,
{
    let mut k: usize = 0;
    let mut i: usize = 0;
    while i < n
        invariant
            i <= n <= CMD_ROWS,
            k == commands_before(i as int),
            k <= i,
        decreases n - i,
    {
        if cmd_row(i).is_some() {
            k += 1;
        }
        i += 1;
    }
    k
}

} // verus!
