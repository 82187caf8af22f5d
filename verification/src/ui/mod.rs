//! Editor interface logic: menus and shortcuts, the tab bar, panels and
//! dialogs, kept apart from the widgets that display them.

pub mod dialogs;
pub mod diagnostic_panel;
pub mod keys;
pub mod menu;
pub mod split_panel;
pub mod status_bar;
pub mod tab_bar;
pub mod terminal_panel;
pub mod theme;
pub mod toast;
pub mod tree_panel;
