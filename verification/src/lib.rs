//! FerrisPad's editor logic: update checks, keyboard shortcuts, tab-bar
//! layout, the large-file viewer, diff styling and terminal key encoding.

pub mod text;
pub mod updater;
pub mod ui;
