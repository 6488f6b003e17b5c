//! PSXcel: the logic of a gamepad-driven spreadsheet.

pub mod alike;
pub mod ascii;
pub mod calc;
pub mod canvas;
pub mod card;
pub mod chart;
pub mod chart_laws;
pub mod decimal;
pub mod desk_laws;
pub mod editor;
pub mod figures;
pub mod fixed;
pub mod follow;
pub mod formula;
pub mod grammar;
pub mod grid;
pub mod highlights;
pub mod keeping;
pub mod labels;
pub mod light_laws;
pub mod meaning;
pub mod modes;
pub mod moves;
pub mod number;
pub mod panels;
pub mod ranges;
pub mod refs;
pub mod render;
pub mod repoint;
pub mod restore;
pub mod samples;
pub mod save;
pub mod screen_laws;
pub mod sheet;
pub mod sheet_laws;
pub mod theme;
pub mod trace;
pub mod update;
pub mod view;
