use vstd::prelude::*;

pub mod buffer;
pub mod command;
pub mod escape_sequence;
pub mod filetype;
pub mod highlight;
pub mod key;
pub mod message_bar;
pub mod pane;
pub mod render;
pub mod screen;
pub mod search;
pub mod status_bar;
pub mod text;
pub mod ui;

verus! {

/// Width of a tab stop, in render columns.
pub const TAB_STOP: usize = 8;

/// Confirmations asked before quitting with unsaved changes.
pub const QUIT_TIMES: usize = 3;

/// Version shown on the welcome screen.
pub const KILO_VERSION: &'static str = "0.1.0";

} // verus!
