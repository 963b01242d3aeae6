//! A workspace diff viewer: line alignment, display hunks, navigation,
//! screen layout and the version-control queries behind them.

pub mod action_laws;
pub mod align;
pub mod align_laws;
pub mod change_laws;
pub mod changes;
pub mod columns;
pub mod diff_laws;
pub mod draw_laws;
pub mod file_diff;
pub mod frame;
pub mod frame_laws;
pub mod gather;
pub mod geometry;
pub mod git;
pub mod git_laws;
pub mod input;
pub mod intraline;
pub mod key_laws;
pub mod layout_laws;
pub mod limits;
pub mod path;
pub mod render;
pub mod reports;
pub mod rows;
pub mod rows_laws;
pub mod state;
pub mod state_laws;
pub mod status;
pub mod text;
pub mod text_laws;
pub mod theme;
pub mod vcs;
pub mod vcs_laws;
pub mod viewer;
