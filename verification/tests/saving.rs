use ferris_pad::text::trimmed;
use ferris_pad::ui::diagnostic_panel::{diagnostic_at_row, display_order, Diagnostic, DiagnosticLevel};
use ferris_pad::ui::dialogs::font_picker::{picked_font, selected_font, FontEntry};
use ferris_pad::ui::dialogs::settings_dialog::{
    initial_choices, preview_on_choice, settings_on_save, theme_on_cancel, DialogSettings, FontChoice,
    SessionRestore, ThemeMode,
};
use ferris_pad::ui::dialogs::shortcut_dialog::{
    save_error_message, validate_shortcut_rows, ShortcutRow, ShortcutSaveError,
};
use ferris_pad::ui::keys::{CTRL, SHIFT};
use ferris_pad::ui::menu::{
    assign_plugin_shortcuts, file_matches_extensions, parse_shortcut, reserved_shortcuts, PluginShortcutRequest,
    Shortcut,
};
use ferris_pad::ui::tree_panel::{search_tree_paths, TreeNode};
use ferris_pad::updater::UpdateChannel;

fn row(id: &str, default: &str, value: &str, normalized: &str) -> ShortcutRow {
    ShortcutRow {
        id: id.to_string(),
        default: default.to_string(),
        value: value.to_string(),
        normalized: normalized.to_string(),
    }
}

#[test]
fn extension_case_is_ignored_on_both_sides() {
    assert!(file_matches_extensions(Some("a.md"), &[".MD"]));
    assert!(file_matches_extensions(Some("README.MD"), &[".md"]));
    assert!(!file_matches_extensions(None, &[".md"]));
    assert!(!file_matches_extensions(Some("a.py"), &[]));
}

#[test]
fn trimmed_drops_outer_whitespace() {
    assert_eq!(trimmed("  Ctrl+K \t"), "Ctrl+K");
    assert_eq!(trimmed("   "), "");
}

#[test]
fn save_keeps_only_changed_rows() {
    let rows = vec![
        row("File/Save", "Ctrl+S", "Ctrl+S", "ctrl+s"),
        row("File/Open", "Ctrl+O", " Ctrl+Shift+O ", "ctrl+shift+o"),
        row("Edit/Find", "Ctrl+F", "", ""),
    ];
    let r = validate_shortcut_rows(&rows).unwrap();
    assert_eq!(r.len(), 2);
    assert_eq!(r[0].0, "File/Open");
    assert!(r[0].1.enabled);
    assert_eq!(r[0].1.shortcut, "Ctrl+Shift+O");
    assert_eq!(r[1].0, "Edit/Find");
    assert!(r[1].1.enabled);
    assert_eq!(r[1].1.shortcut, "");
}

#[test]
fn save_with_nothing_changed_has_no_overrides() {
    let rows = vec![row("File/Save", "Ctrl+S", "Ctrl+S", "ctrl+s")];
    assert!(validate_shortcut_rows(&rows).unwrap().is_empty());
}

#[test]
fn save_refuses_an_invalid_shortcut() {
    let rows = vec![
        row("File/Save", "Ctrl+S", "Ctrl+S", "ctrl+s"),
        row("File/Open", "Ctrl+O", "Ctrl+F13", "ctrl+f13"),
    ];
    let e = validate_shortcut_rows(&rows).unwrap_err();
    assert_eq!(e, ShortcutSaveError::Invalid { row: 1 });
    assert_eq!(save_error_message(&rows, e), "Invalid shortcut 'Ctrl+F13' for File > Open");
}

#[test]
fn save_refuses_a_conflict() {
    let rows = vec![
        row("File/Save", "Ctrl+S", "Ctrl+S", "ctrl+s"),
        row("Edit/Find", "Ctrl+F", "Ctrl+G", "ctrl+g"),
        row("File/Open", "Ctrl+O", "ctrl+s", "ctrl+s"),
    ];
    let e = validate_shortcut_rows(&rows).unwrap_err();
    assert_eq!(e, ShortcutSaveError::Conflict { earlier: 0, row: 2 });
    assert_eq!(
        save_error_message(&rows, e),
        "Conflict: 'ctrl+s' used by both File > Save and File > Open"
    );
}

#[test]
fn save_reports_the_first_bad_row() {
    let rows = vec![
        row("File/Save", "Ctrl+S", "Nope+X", "nope+x"),
        row("File/Open", "Ctrl+O", "Ctrl+O", "ctrl+o"),
        row("Edit/Find", "Ctrl+F", "Ctrl+O", "ctrl+o"),
    ];
    assert_eq!(validate_shortcut_rows(&rows).unwrap_err(), ShortcutSaveError::Invalid { row: 0 });
}

#[test]
fn reserved_shortcut_table() {
    let r = reserved_shortcuts();
    assert_eq!(r.len(), 20);
    assert_eq!(r[0], "ctrl+t");
    assert_eq!(r[4], "ctrl+shift+s");
    assert_eq!(r[19], "ctrl+shift+l");
}

#[test]
fn plugin_shortcuts_skip_reserved_and_taken_ones() {
    let reqs = vec![
        PluginShortcutRequest { shortcut: Some("Ctrl+S".to_string()), normalized: "ctrl+s".to_string() },
        PluginShortcutRequest { shortcut: Some("Ctrl+Shift+K".to_string()), normalized: "ctrl+shift+k".to_string() },
        PluginShortcutRequest { shortcut: Some("Shift+Ctrl+K".to_string()), normalized: "ctrl+shift+k".to_string() },
        PluginShortcutRequest { shortcut: None, normalized: String::new() },
        PluginShortcutRequest { shortcut: Some("Ctrl+A+B".to_string()), normalized: "ctrl+a+b".to_string() },
    ];
    let r = assign_plugin_shortcuts(&reqs);
    assert_eq!(r.len(), 5);
    assert_eq!(r[0], None);
    assert_eq!(r[1], Some(Shortcut { bits: CTRL | SHIFT | 'k' as i32 }));
    assert_eq!(r[2], None);
    assert_eq!(r[3], None);
    assert_eq!(r[4], None);
}

#[test]
fn shortcut_parts_in_any_order_and_padding() {
    assert_eq!(parse_shortcut("Shift+Ctrl+P"), parse_shortcut("Ctrl+Shift+P"));
    assert_eq!(parse_shortcut(" Ctrl + p "), parse_shortcut("Ctrl+P"));
    assert_eq!(parse_shortcut("Ctrl+A+B"), None);
    assert_eq!(parse_shortcut("F13"), None);
}

fn font(display: &str, fltk: &str) -> FontEntry {
    FontEntry { display_name: display.to_string(), fltk_name: fltk.to_string(), is_monospace: true }
}

#[test]
fn font_picker_returns_display_name_for_legacy_fonts() {
    let e = font("Courier", "FL_COURIER");
    assert_eq!(picked_font(&e, "14", true), ("Courier".to_string(), 14));
}

#[test]
fn font_picker_returns_toolkit_name_otherwise() {
    let e = font("JetBrains Mono", " JetBrains Mono Regular");
    assert_eq!(picked_font(&e, "abc", false), (" JetBrains Mono Regular".to_string(), 16));
    assert_eq!(picked_font(&e, "200", false).1, 96);
}

#[test]
fn font_picker_selected_row() {
    let visible = vec![3usize, 7, 9];
    assert_eq!(selected_font(&visible, 2), Some(7));
    assert_eq!(selected_font(&visible, 0), None);
    assert_eq!(selected_font(&visible, 4), None);
}

fn settings() -> DialogSettings<Vec<String>> {
    DialogSettings {
        theme_mode: ThemeMode::Dark,
        font: FontChoice::Courier,
        font_size: 16,
        line_numbers_enabled: true,
        word_wrap_enabled: false,
        highlighting_enabled: true,
        auto_check_updates: true,
        update_channel: UpdateChannel::Stable,
        last_update_check: 1234,
        tabs_enabled: true,
        session_restore: SessionRestore::SavedFiles,
        preview_enabled: true,
        syntax_theme_light: 1,
        syntax_theme_dark: 4,
        tab_size: 4,
        plugins_enabled: true,
        auto_check_plugin_updates: false,
        last_plugin_update_check: 99,
        kept: vec!["skipped 1.2.0".to_string(), "plugin config".to_string()],
    }
}

#[test]
fn settings_save_unchanged_returns_same_settings() {
    let s = settings();
    let c = initial_choices(&s, 6);
    assert!(c.theme_dark && !c.theme_light);
    assert_eq!(c.theme_dark_choice, 4);
    assert_eq!(settings_on_save(s.clone(), &c, 6), s);
}

#[test]
fn settings_save_maps_choices() {
    let s = settings();
    let mut c = initial_choices(&s, 6);
    c.theme_dark = false;
    c.theme_light = true;
    c.size_12 = true;
    c.tab_2 = true;
    c.prerelease = true;
    c.session_saved = false;
    c.session_full = true;
    c.theme_light_choice = 2;
    c.theme_dark_choice = -1;
    let r = settings_on_save(s.clone(), &c, 6);
    assert_eq!(r.theme_mode, ThemeMode::Light);
    assert_eq!(r.font_size, 12);
    assert_eq!(r.tab_size, 2);
    assert_eq!(r.update_channel, UpdateChannel::Beta);
    assert_eq!(r.session_restore, SessionRestore::Full);
    assert_eq!(r.syntax_theme_light, 2);
    assert_eq!(r.syntax_theme_dark, 4);
    assert_eq!(r.last_update_check, 1234);
    assert_eq!(r.last_plugin_update_check, 99);
    assert_eq!(r.kept, s.kept);
}

#[test]
fn settings_preview_and_cancel() {
    let s = settings();
    assert_eq!(preview_on_choice(true, true, 3, 6), Some(3));
    assert_eq!(preview_on_choice(true, false, 3, 6), None);
    assert_eq!(preview_on_choice(false, false, 6, 6), None);
    assert_eq!(theme_on_cancel(&s, true), 4);
    assert_eq!(theme_on_cancel(&s, false), 1);
}

fn diag(level: DiagnosticLevel, line: u32) -> Diagnostic {
    Diagnostic {
        level,
        line,
        column: None,
        message: "m".to_string(),
        source: "lint".to_string(),
        fix_message: None,
        url: None,
    }
}

#[test]
fn diagnostics_listed_by_severity() {
    let d = vec![diag(DiagnosticLevel::Warning, 5), diag(DiagnosticLevel::Error, 9)];
    assert_eq!(display_order(&d), vec![1, 0]);
    assert_eq!(diagnostic_at_row(&d, 1), Some(1));
    assert_eq!(d[diagnostic_at_row(&d, 1).unwrap()].line, 9);
    assert_eq!(diagnostic_at_row(&d, 3), None);
}

#[test]
fn diagnostics_of_one_severity_keep_their_order() {
    let d = vec![
        diag(DiagnosticLevel::Hint, 1),
        diag(DiagnosticLevel::Warning, 2),
        diag(DiagnosticLevel::Info, 3),
        diag(DiagnosticLevel::Error, 4),
        diag(DiagnosticLevel::Warning, 5),
    ];
    assert_eq!(display_order(&d), vec![3, 1, 4, 0, 2]);
}

fn node(label: &str, children: Vec<TreeNode>) -> TreeNode {
    TreeNode { label: label.to_string(), icon: None, label_color: None, children, lazy: false }
}

#[test]
fn tree_search_shows_matches_and_their_ancestors() {
    let root = node(
        "root",
        vec![
            node("src", vec![node("main.rs", vec![]), node("Lib.rs", vec![])]),
            node("docs", vec![node("guide.md", vec![])]),
            node("library", vec![]),
        ],
    );
    let paths = search_tree_paths(&root, "LIB");
    assert_eq!(paths, vec![vec![], vec![0], vec![0, 1], vec![2]]);
    assert!(search_tree_paths(&root, "zzz").is_empty());
}
