//! The settings dialog's decisions: which choices it starts with for the
//! current settings, the settings that Save returns for the choices made,
//! and which syntax theme it previews while choices change or when it is
//! cancelled. Syntax themes are held by their position in the editor's
//! list of themes.

use vstd::prelude::*;

use crate::updater::UpdateChannel;

verus! {

/// The color scheme the editor follows.
#[derive(Debug, Clone, Copy, PartialEq, Eq, Structural)]
pub enum ThemeMode {
    Light,
    Dark,
    SystemDefault,
}

/// The editor fonts the dialog offers.
#[derive(Debug, Clone, Copy, PartialEq, Eq, Structural)]
pub enum FontChoice {
    ScreenBold,
    Courier,
    HelveticaMono,
}

/// What is restored when the editor starts.
#[derive(Debug, Clone, Copy, PartialEq, Eq, Structural)]
pub enum SessionRestore {
    Off,
    SavedFiles,
    Full,
}

/// The settings the dialog shows or keeps. `kept` holds those it neither
/// shows nor changes (skipped versions, disabled plugins and approvals,
/// the Run All Checks settings, per-plugin configurations), whatever their
/// form; Save carries them over as they are.
#[derive(Debug, Clone, PartialEq, Eq)]
pub struct DialogSettings<K> {
    pub theme_mode: ThemeMode,
    pub font: FontChoice,
    pub font_size: u32,
    pub line_numbers_enabled: bool,
    pub word_wrap_enabled: bool,
    pub highlighting_enabled: bool,
    pub auto_check_updates: bool,
    pub update_channel: UpdateChannel,
    pub last_update_check: i64,
    pub tabs_enabled: bool,
    pub session_restore: SessionRestore,
    pub preview_enabled: bool,
    /// The syntax theme for light mode, by position in the theme list.
    pub syntax_theme_light: usize,
    /// The syntax theme for dark mode, by position in the theme list.
    pub syntax_theme_dark: usize,
    pub tab_size: u32,
    pub plugins_enabled: bool,
    pub auto_check_plugin_updates: bool,
    pub last_plugin_update_check: i64,
    pub kept: K,
}

/// The state of the dialog's controls: the radio buttons that are on (the
/// third button of a group is on when neither of the two named is), the
/// check boxes, and the rows chosen in the two theme lists (-1 for none).
#[derive(Debug, Clone, Copy, PartialEq, Eq, Structural)]
pub struct SettingsChoices {
    pub theme_light: bool,
    pub theme_dark: bool,
    pub font_screenbold: bool,
    pub font_courier: bool,
    pub size_12: bool,
    pub size_20: bool,
    pub line_numbers: bool,
    pub word_wrap: bool,
    pub highlighting: bool,
    pub auto_update: bool,
    pub prerelease: bool,
    pub tabs_enabled: bool,
    pub session_saved: bool,
    pub session_full: bool,
    pub theme_light_choice: i32,
    pub theme_dark_choice: i32,
    pub tab_2: bool,
    pub tab_8: bool,
    pub plugin_updates: bool,
}

/// The theme at row `index` of a theme list of `count` themes, if there is
/// one.
pub open spec fn theme_at(index: int, count: nat) -> Option<usize> {
    if 0 <= index < count {
        Some(index as usize)
    } else {
        None
    }
}

/// The settings Save returns: each choice mapped to its setting (font size
/// 12, 20 or else 16; tab size 2, 8 or else 4; a theme list's row, or the
/// current theme when no row is chosen), and the settings the dialog does
/// not show kept as they are.
pub open spec fn settings_on_save_spec<K>(current: DialogSettings<K>, c: SettingsChoices, theme_count: nat) -> DialogSettings<K> {
    DialogSettings {
        theme_mode: if c.theme_light {
            ThemeMode::Light
        } else if c.theme_dark {
            ThemeMode::Dark
        } else {
            ThemeMode::SystemDefault
        },
        font: if c.font_screenbold {
            FontChoice::ScreenBold
        } else if c.font_courier {
            FontChoice::Courier
        } else {
            FontChoice::HelveticaMono
        },
        font_size: if c.size_12 {
            12
        } else if c.size_20 {
            20
        } else {
            16
        },
        line_numbers_enabled: c.line_numbers,
        word_wrap_enabled: c.word_wrap,
        highlighting_enabled: c.highlighting,
        auto_check_updates: c.auto_update,
        update_channel: if c.prerelease {
            UpdateChannel::Beta
        } else {
            UpdateChannel::Stable
        },
        last_update_check: current.last_update_check,
        tabs_enabled: c.tabs_enabled,
        session_restore: if c.session_saved {
            SessionRestore::SavedFiles
        } else if c.session_full {
            SessionRestore::Full
        } else {
            SessionRestore::Off
        },
        preview_enabled: current.preview_enabled,
        syntax_theme_light: match theme_at(c.theme_light_choice as int, theme_count) {
            Some(t) => t,
            None => current.syntax_theme_light,
        },
        syntax_theme_dark: match theme_at(c.theme_dark_choice as int, theme_count) {
            Some(t) => t,
            None => current.syntax_theme_dark,
        },
        tab_size: if c.tab_2 {
            2
        } else if c.tab_8 {
            8
        } else {
            4
        },
        plugins_enabled: current.plugins_enabled,
        auto_check_plugin_updates: c.plugin_updates,
        last_plugin_update_check: current.last_plugin_update_check,
        kept: current.kept,
    }
}

fn theme_at_exec(index: i32, count: usize) -> (r: Option<usize>)
    ensures
        r == theme_at(index as int, count as nat),
{
    if index >= 0 && (index as usize) < count {
        Some(index as usize)
    } else {
        None
    }
}

/// The settings Save returns (see `settings_on_save_spec`), the theme
/// lists holding `theme_count` themes; what the dialog does not edit is
/// carried over.
pub fn settings_on_save<K>(current: DialogSettings<K>, choices: &SettingsChoices, theme_count: usize) -> (r:
    DialogSettings<K>)
    ensures
        r == settings_on_save_spec(current, *choices, theme_count as nat),
{
    let c = choices;
    DialogSettings {
        theme_mode: if c.theme_light {
            ThemeMode::Light
        } else if c.theme_dark {
            ThemeMode::Dark
        } else {
            ThemeMode::SystemDefault
        },
        font: if c.font_screenbold {
            FontChoice::ScreenBold
        } else if c.font_courier {
            FontChoice::Courier
        } else {
            FontChoice::HelveticaMono
        },
        font_size: if c.size_12 {
            12
        } else if c.size_20 {
            20
        } else {
            16
        },
        line_numbers_enabled: c.line_numbers,
        word_wrap_enabled: c.word_wrap,
        highlighting_enabled: c.highlighting,
        auto_check_updates: c.auto_update,
        update_channel: if c.prerelease {
            UpdateChannel::Beta
        } else {
            UpdateChannel::Stable
        },
        last_update_check: current.last_update_check,
        tabs_enabled: c.tabs_enabled,
        session_restore: if c.session_saved {
            SessionRestore::SavedFiles
        } else if c.session_full {
            SessionRestore::Full
        } else {
            SessionRestore::Off
        },
        preview_enabled: current.preview_enabled,
        syntax_theme_light: match theme_at_exec(c.theme_light_choice, theme_count) {
            Some(t) => t,
            None => current.syntax_theme_light,
        },
        syntax_theme_dark: match theme_at_exec(c.theme_dark_choice, theme_count) {
            Some(t) => t,
            None => current.syntax_theme_dark,
        },
        tab_size: if c.tab_2 {
            2
        } else if c.tab_8 {
            8
        } else {
            4
        },
        plugins_enabled: current.plugins_enabled,
        auto_check_plugin_updates: c.plugin_updates,
        last_plugin_update_check: current.last_plugin_update_check,
        kept: current.kept,
    }
}

/// The choices the dialog opens with for the current settings: the radio
/// buttons of the current mode, font, session restore, font size (16 for
/// a size other than 12 and 20) and tab size (4 for a size other than 2
/// and 8), the check boxes as set, and the current themes' rows.
pub open spec fn initial_choices_spec<K>(s: DialogSettings<K>) -> SettingsChoices {
    SettingsChoices {
        theme_light: s.theme_mode == ThemeMode::Light,
        theme_dark: s.theme_mode == ThemeMode::Dark,
        font_screenbold: s.font == FontChoice::ScreenBold,
        font_courier: s.font == FontChoice::Courier,
        size_12: s.font_size == 12,
        size_20: s.font_size == 20,
        line_numbers: s.line_numbers_enabled,
        word_wrap: s.word_wrap_enabled,
        highlighting: s.highlighting_enabled,
        auto_update: s.auto_check_updates,
        prerelease: s.update_channel == UpdateChannel::Beta,
        tabs_enabled: s.tabs_enabled,
        session_saved: s.session_restore == SessionRestore::SavedFiles,
        session_full: s.session_restore == SessionRestore::Full,
        theme_light_choice: s.syntax_theme_light as i32,
        theme_dark_choice: s.syntax_theme_dark as i32,
        tab_2: s.tab_size == 2,
        tab_8: s.tab_size == 8,
        plugin_updates: s.auto_check_plugin_updates,
    }
}

/// The choices the dialog opens with (see `initial_choices_spec`). The
/// current themes are rows of the theme lists.
pub fn initial_choices<K>(s: &DialogSettings<K>, theme_count: usize) -> (r: SettingsChoices)
    requires
        s.syntax_theme_light < theme_count,
        s.syntax_theme_dark < theme_count,
        theme_count <= i32::MAX,
    ensures
        r == initial_choices_spec(*s),
{
    SettingsChoices {
        theme_light: s.theme_mode == ThemeMode::Light,
        theme_dark: s.theme_mode == ThemeMode::Dark,
        font_screenbold: s.font == FontChoice::ScreenBold,
        font_courier: s.font == FontChoice::Courier,
        size_12: s.font_size == 12,
        size_20: s.font_size == 20,
        line_numbers: s.line_numbers_enabled,
        word_wrap: s.word_wrap_enabled,
        highlighting: s.highlighting_enabled,
        auto_update: s.auto_check_updates,
        prerelease: s.update_channel == UpdateChannel::Beta,
        tabs_enabled: s.tabs_enabled,
        session_saved: s.session_restore == SessionRestore::SavedFiles,
        session_full: s.session_restore == SessionRestore::Full,
        theme_light_choice: s.syntax_theme_light as i32,
        theme_dark_choice: s.syntax_theme_dark as i32,
        tab_2: s.tab_size == 2,
        tab_8: s.tab_size == 8,
        plugin_updates: s.auto_check_plugin_updates,
    }
}

/// Saving without changing anything returns the settings as they were,
/// when their font size and tab size are ones the dialog offers.
pub proof fn lemma_save_unchanged_keeps_settings<K>(s: DialogSettings<K>, theme_count: nat)
    requires
        s.font_size == 12 || s.font_size == 16 || s.font_size == 20,
        s.tab_size == 2 || s.tab_size == 4 || s.tab_size == 8,
        s.syntax_theme_light < theme_count,
        s.syntax_theme_dark < theme_count,
        theme_count <= i32::MAX,
    ensures
        settings_on_save_spec(s, initial_choices_spec(s), theme_count) == s,
{
}

/// The theme the editor previews when a theme list's row `index` is chosen
/// (`dark_list` for the dark-mode list): that theme, when the list is the
/// one for the mode the editor shows and the row is a theme; else none.
pub fn preview_on_choice(is_dark: bool, dark_list: bool, index: i32, theme_count: usize) -> (r: Option<usize>)
    ensures
        r == (if is_dark == dark_list {
            theme_at(index as int, theme_count as nat)
        } else {
            None
        }),
{
    if is_dark == dark_list {
        theme_at_exec(index, theme_count)
    } else {
        None
    }
}

/// The theme the editor previews again when the dialog is cancelled or
/// closed: the current theme of the mode it shows.
pub fn theme_on_cancel<K>(current: &DialogSettings<K>, is_dark: bool) -> (r: usize)
    ensures
        r == (if is_dark {
            current.syntax_theme_dark
        } else {
            current.syntax_theme_light
        }),
{
    if is_dark {
        current.syntax_theme_dark
    } else {
        current.syntax_theme_light
    }
}

} // verus!
