//! A commit-crafting library: parsers for git's machine-readable output, the
//! partial-patch construction behind line-level staging, and the state and
//! decisions of the window that drives them.

pub mod text;
pub mod git;
pub mod app;
pub mod text_sel;
pub mod panes;
pub mod labels;
pub mod gestures;
pub mod desktop;
pub mod config;
