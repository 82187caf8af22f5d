//! Dialog logic: what the dialogs compute, decide and validate.

use vstd::prelude::*;

pub mod find;
pub mod font_picker;
pub mod goto_line;
pub mod large_file;
pub mod plugin_config;
pub mod plugin_manager;
pub mod readonly_viewer;
pub mod session_picker;
pub mod settings_dialog;
pub mod shortcut_dialog;

verus! {

/// Width of the dialogs' scrollbars.
pub const SCROLLBAR_SIZE: i32 = 12;

} // verus!
