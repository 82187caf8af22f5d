use ferris_pad::ui::dialogs::shortcut_dialog::{
    display_name, key_name, plugin_shortcut_rows, shortcut_rows_width, shortcut_string_from_event,
};
use ferris_pad::ui::keys::{ALT, CTRL, KEY_F_BASE, KEY_PAGE_UP, KEY_TAB, SHIFT};
use ferris_pad::ui::menu::{
    applicable_builtins, builtin_default, builtin_shortcuts, combine, file_matches_extensions, is_valid_shortcut, parse_shortcut, plugin_command_id, plugin_item_shortcut,
    Shortcut, ShortcutOverride,
};

#[test]
fn test_parse_shortcut_ctrl_key() {
    let sc = parse_shortcut("Ctrl+P").unwrap();
    assert_eq!(sc, Shortcut { bits: CTRL | 'p' as i32 });
}

#[test]
fn test_parse_shortcut_ctrl_shift_key() {
    let sc = parse_shortcut("Ctrl+Shift+P").unwrap();
    assert_eq!(sc, Shortcut { bits: CTRL | SHIFT | 'p' as i32 });
}

#[test]
fn test_parse_shortcut_alt_key() {
    let sc = parse_shortcut("Alt+F").unwrap();
    assert_eq!(sc, Shortcut { bits: ALT | 'f' as i32 });
}

#[test]
fn test_parse_shortcut_function_key() {
    let sc = parse_shortcut("Ctrl+F5").unwrap();
    assert_eq!(sc, Shortcut { bits: CTRL | (KEY_F_BASE + 5) });
}

#[test]
fn test_parse_shortcut_case_insensitive() {
    let sc1 = parse_shortcut("ctrl+shift+p").unwrap();
    let sc2 = parse_shortcut("CTRL+SHIFT+P").unwrap();
    assert_eq!(sc1, sc2);
}

#[test]
fn test_parse_shortcut_empty() {
    assert!(parse_shortcut("").is_none());
}

#[test]
fn test_parse_shortcut_no_key() {
    assert!(parse_shortcut("Ctrl+Shift").is_none());
}

#[test]
fn test_parse_shortcut_invalid_key() {
    assert!(parse_shortcut("Ctrl+!!!").is_none());
}

#[test]
fn parse_shortcut_named_keys() {
    assert_eq!(parse_shortcut("Ctrl+PageUp"), Some(Shortcut { bits: CTRL | KEY_PAGE_UP }));
    assert_eq!(combine(true, false, true, 'x' as i32), Shortcut { bits: CTRL | ALT | 'x' as i32 });
}

#[test]
fn is_valid_shortcut_examples() {
    assert!(is_valid_shortcut("Ctrl+Shift+L"));
    assert!(!is_valid_shortcut("Shift"));
    assert!(!is_valid_shortcut(""));
}

#[test]
fn plugin_command_id_format() {
    assert_eq!(plugin_command_id("python-lint", "run"), "plugin:python-lint:run");
}

#[test]
fn file_matches_extensions_is_case_insensitive() {
    assert!(file_matches_extensions(Some("/tmp/Main.PY"), &[".py", ".pyw"]));
    assert!(!file_matches_extensions(Some("/tmp/main.rs"), &[".py"]));
    assert!(!file_matches_extensions(None, &[".py"]));
}

#[test]
fn plugin_item_shortcut_precedence() {
    let on = ShortcutOverride { enabled: true, shortcut: "Ctrl+K".to_string() };
    let cleared = ShortcutOverride { enabled: true, shortcut: String::new() };
    let off = ShortcutOverride { enabled: false, shortcut: "Ctrl+K".to_string() };
    assert_eq!(plugin_item_shortcut(Some(&on), Some("Ctrl+J")), Some("Ctrl+K".to_string()));
    assert_eq!(plugin_item_shortcut(Some(&cleared), Some("Ctrl+J")), None);
    assert_eq!(plugin_item_shortcut(Some(&off), Some("Ctrl+J")), Some("Ctrl+J".to_string()));
    assert_eq!(plugin_item_shortcut(None, Some("")), None);
}

#[test]
fn shortcut_string_round_trips_through_the_parser() {
    let s = shortcut_string_from_event('p' as i32, true, true, false).unwrap();
    assert_eq!(s, "Ctrl+Shift+P");
    assert_eq!(parse_shortcut(&s), Some(Shortcut { bits: CTRL | SHIFT | 'p' as i32 }));
    let f = shortcut_string_from_event(KEY_F_BASE + 11, false, false, true).unwrap();
    assert_eq!(f, "Alt+F11");
    assert_eq!(parse_shortcut(&f), Some(Shortcut { bits: ALT | (KEY_F_BASE + 11) }));
}

#[test]
fn key_names() {
    assert_eq!(key_name(KEY_PAGE_UP), Some("PageUp".to_string()));
    assert_eq!(key_name(' ' as i32), Some("Space".to_string()));
}

#[test]
fn display_names_of_commands() {
    assert_eq!(display_name("File/Save As"), "File > Save As");
    assert_eq!(display_name("plugin:python-lint:run_check"), "Python Lint > Run Check");
    assert_eq!(display_name("plugin:solo"), "solo");
}

#[test]
fn captured_shortcuts_parse_back_to_the_key_press() {
    let cases: Vec<(i32, bool, bool, bool, i32)> = vec![
        ('p' as i32, true, true, false, 'p' as i32),
        ('Q' as i32, false, false, true, 'q' as i32),
        ('7' as i32, true, false, false, '7' as i32),
        (KEY_F_BASE + 11, false, false, false, KEY_F_BASE + 11),
        (KEY_PAGE_UP, true, true, true, KEY_PAGE_UP),
        (KEY_TAB, false, true, false, KEY_TAB),
        (' ' as i32, true, false, false, ' ' as i32),
    ];
    for (key, ctrl, shift, alt, code) in cases {
        let s = shortcut_string_from_event(key, ctrl, shift, alt).unwrap();
        assert_eq!(parse_shortcut(&s), Some(combine(ctrl, shift, alt, code)), "{}", s);
        assert!(is_valid_shortcut(&s));
    }
}

#[test]
fn captured_punctuation_shortcut_is_not_parseable() {
    let s = shortcut_string_from_event('-' as i32, true, false, false).unwrap();
    assert_eq!(s, "Ctrl+Minus");
    assert_eq!(parse_shortcut(&s), None);
}

#[test]
fn builtin_shortcut_table() {
    let t = builtin_shortcuts();
    assert_eq!(t.len(), 19);
    assert_eq!(t[0], ("File/New".to_string(), "Ctrl+T".to_string()));
    assert_eq!(t[18], ("Plugins/General/Run All Checks".to_string(), "Ctrl+Shift+L".to_string()));
    // Every default is a shortcut the parser accepts.
    for (_, sc) in t.iter() {
        assert!(is_valid_shortcut(sc), "{}", sc);
    }
    assert!(is_valid_shortcut("Ctrl+N"));
    assert_eq!(builtin_default("File/New", true), "Ctrl+T");
    assert_eq!(builtin_default("File/New", false), "Ctrl+N");
    assert_eq!(builtin_default("Edit/Undo", false), "Ctrl+Z");
    assert_eq!(builtin_default("Edit/Nothing", true), "");
}

#[test]
fn builtin_shortcuts_without_tabs() {
    assert_eq!(applicable_builtins(true), builtin_shortcuts());
    let off = applicable_builtins(false);
    assert_eq!(off.len(), 16);
    assert_eq!(off[0], ("File/New".to_string(), "Ctrl+N".to_string()));
    assert!(off.iter().all(|(id, _)| !id.contains("Tab")));
    assert_eq!(off[4], ("File/Quit".to_string(), "Ctrl+Q".to_string()));
}

#[test]
fn shortcut_dialog_rows() {
    // 17 rows of 34 pixels = 578 > 400 - 10: narrower by the scrollbar.
    assert_eq!(shortcut_rows_width(17, 400, 540), 528);
    // 11 rows = 374 <= 390: the whole width.
    assert_eq!(shortcut_rows_width(11, 400, 540), 540);
    assert_eq!(plugin_shortcut_rows(&[]), 1);
    assert_eq!(plugin_shortcut_rows(&[0, 0]), 1);
    assert_eq!(plugin_shortcut_rows(&[2, 0, 3]), 7);
}
