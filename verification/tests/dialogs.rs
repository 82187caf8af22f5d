use ferris_pad::ui::dialogs::find::{
    not_found_message, replaced_message, selection_matches, wrap_backward, wrap_forward, FindState,
};
use ferris_pad::ui::dialogs::font_picker::{preview_size, visible_fonts, FontEntry};
use ferris_pad::ui::dialogs::goto_line::{line_number_input, out_of_range_message, total_lines};
use ferris_pad::ui::dialogs::large_file::{chunk_action, TooLargeAction};
use ferris_pad::ui::dialogs::plugin_config::{
    bool_value, choice_value, parse_option, pattern_verdict, validate_param_value,
};
use ferris_pad::ui::dialogs::session_picker::{
    delete_action, new_session_name, new_window_action, session_lines, switch_action, target_session,
    SessionPickerResult,
};
use ferris_pad::ui::dialogs::plugin_manager::{
    closing_result, icon_color_for_letter, record_toggle, registry_name, truncate_text, PluginManagerResult,
};

#[test]
fn cli_args_reject_shell_metacharacters() {
    assert_eq!(validate_param_value("", "cli_args", "Args"), Ok(()));
    assert_eq!(validate_param_value("--fast -v", "cli_args", "Args"), Ok(()));
    assert_eq!(
        validate_param_value("a;b", "cli_args", "Args"),
        Err("'Args' contains invalid character ';'. Shell metacharacters are not allowed.".to_string())
    );
    // The first metacharacter in the checking order is reported.
    assert_eq!(
        validate_param_value("a|b&", "cli_args", "Args"),
        Err("'Args' contains invalid character '&'. Shell metacharacters are not allowed.".to_string())
    );
}

#[test]
fn regex_rules() {
    assert_eq!(validate_param_value("abc", "regex:^[a-z]+$", "Name"), Ok(()));
    assert_eq!(
        validate_param_value("ABC", "regex:^[a-z]+$", "Name"),
        Err("'Name' does not match required format".to_string())
    );
    // An invalid pattern lets the value pass.
    assert_eq!(validate_param_value("ABC", "regex:(", "Name"), Ok(()));
    // Unknown rules let every value pass.
    assert_eq!(validate_param_value("a;b", "other", "Name"), Ok(()));
    assert_eq!(pattern_verdict(Some(false), "X"), Err("'X' does not match required format".to_string()));
    assert_eq!(pattern_verdict(Some(true), "X"), Ok(()));
    assert_eq!(pattern_verdict(None, "X"), Ok(()));
}

#[test]
fn options_and_values() {
    assert_eq!(parse_option("v|Label"), ("v".to_string(), "Label".to_string()));
    assert_eq!(parse_option("a|b|c"), ("a".to_string(), "b|c".to_string()));
    assert_eq!(parse_option("plain"), ("plain".to_string(), "plain".to_string()));
    let opts = vec!["a".to_string(), "b".to_string()];
    assert_eq!(choice_value(1, &opts), "b");
    assert_eq!(choice_value(-1, &opts), "");
    assert_eq!(choice_value(2, &opts), "");
    assert_eq!(bool_value(true), "true");
    assert_eq!(bool_value(false), "false");
}

#[test]
fn plugin_manager_texts() {
    assert_eq!(truncate_text("hello world", 8), "hello...");
    assert_eq!(truncate_text("ab cd efgh", 6), "ab...");
    assert_eq!(truncate_text("short", 60), "short");
    assert_eq!(truncate_text("abcd", 2), "...");
    assert_eq!(icon_color_for_letter('a', true), (160, 100, 120));
    assert_eq!(icon_color_for_letter('A', false), (130, 70, 90));
    assert_eq!(icon_color_for_letter('B', true), (100, 140, 180));
    assert_eq!(registry_name("Python Lint"), "python-lint");
}

#[test]
fn toggles_keep_one_entry_per_plugin() {
    let mut t = vec![("a".to_string(), true), ("b".to_string(), false)];
    record_toggle(&mut t, "a", false);
    assert_eq!(t, vec![("b".to_string(), false), ("a".to_string(), false)]);
    record_toggle(&mut t, "c", true);
    assert_eq!(t.len(), 3);
}

#[test]
fn closing_the_plugin_manager() {
    let r = closing_result(vec![("a".to_string(), true)], vec!["x".to_string()], vec![], PluginManagerResult::Cancelled);
    assert!(matches!(r, PluginManagerResult::InstalledPlugins(v) if v == vec!["x".to_string()]));
    let r = closing_result(vec![("a".to_string(), true)], vec![], vec![], PluginManagerResult::Cancelled);
    assert!(matches!(r, PluginManagerResult::ToggledPlugins(_)));
    let r = closing_result(vec![], vec!["x".to_string()], vec!["y".to_string()], PluginManagerResult::Cancelled);
    assert!(matches!(r, PluginManagerResult::UninstalledPlugins(_)));
    let r = closing_result(vec![], vec![], vec![], PluginManagerResult::ReloadAll);
    assert!(matches!(r, PluginManagerResult::ReloadAll));
}

#[test]
fn font_list() {
    let entries = vec![
        FontEntry { display_name: "Mono A".to_string(), fltk_name: "monoa".to_string(), is_monospace: true },
        FontEntry { display_name: "Sans B".to_string(), fltk_name: "sansb".to_string(), is_monospace: false },
    ];
    assert_eq!(visible_fonts(&entries, "", true, "monoa"), (vec![0], Some(1)));
    assert_eq!(visible_fonts(&entries, "b", false, "x"), (vec![1], Some(1)));
    assert_eq!(visible_fonts(&entries, "", false, "Sans B"), (vec![0, 1], Some(2)));
    assert_eq!(visible_fonts(&entries, "zzz", false, "x"), (vec![], None));
    assert_eq!(preview_size("abc"), 16);
    assert_eq!(preview_size("200"), 96);
    assert_eq!(preview_size("-3"), 6);
    assert_eq!(preview_size("12"), 12);
}

#[test]
fn find_state() {
    let mut s = FindState::new();
    assert_eq!(s.start_position("abc", 5), 5);
    assert_eq!(s.record_forward_match(9), 9);
    assert_eq!(s.start_position("abc", 0), 9);
    assert_eq!(s.start_position("x", 2), 2);
    assert_eq!(s.record_backward_match(1), 1);
    assert_eq!(s.record_replacement(4, 3), 7);
    assert_eq!(s.start_position("x", 0), 7);
    assert!(!wrap_forward(0, false));
    assert!(wrap_forward(3, false));
    assert!(!wrap_forward(3, true));
    assert!(wrap_backward(3, 10, false));
    assert!(!wrap_backward(10, 10, false));
    assert!(selection_matches("ABC", "abc", false));
    assert!(!selection_matches("ABC", "abc", true));
    assert_eq!(not_found_message("q"), "Cannot find 'q'");
    assert_eq!(replaced_message(3), "Replaced 3 occurrence(s)");
}

#[test]
fn goto_line_and_chunks() {
    assert_eq!(line_number_input(" 12 "), Some(12));
    assert_eq!(line_number_input("x"), None);
    assert_eq!(total_lines("a\nb\n"), 3);
    assert_eq!(total_lines(""), 1);
    assert_eq!(out_of_range_message(3), "Line number must be between 1 and 3");
    assert_eq!(chunk_action(" 5", "x"), TooLargeAction::OpenChunk(5, 10000));
    assert_eq!(chunk_action("", "20"), TooLargeAction::OpenChunk(1, 20));
}

#[test]
fn latest_toggle_of_a_plugin_wins() {
    let mut once = vec![("x".to_string(), true), ("y".to_string(), false)];
    let mut twice = once.clone();
    record_toggle(&mut once, "x", false);
    record_toggle(&mut twice, "x", true);
    record_toggle(&mut twice, "x", false);
    assert_eq!(once, twice);
    assert_eq!(once, vec![("y".to_string(), false), ("x".to_string(), false)]);
}


fn names(v: &[&str]) -> Vec<String> {
    v.iter().map(|s| s.to_string()).collect()
}

#[test]
fn session_list_marks_the_active_session() {
    let (lines, selected) = session_lines(&names(&["default", "work", "play"]), "work");
    assert_eq!(lines, names(&["default", "work (active)", "play"]));
    assert_eq!(selected, 2);
    let (_, none) = session_lines(&names(&["default"]), "other");
    assert_eq!(none, 0);
}

#[test]
fn session_target_prefers_the_typed_name() {
    let sessions = names(&["default", "work"]);
    assert_eq!(target_session("  new ", Some("new".to_string()), &sessions, 1), Some("new".to_string()));
    assert_eq!(target_session("  bad/ ", None, &sessions, 1), None);
    assert_eq!(target_session("   ", None, &sessions, 2), Some("work".to_string()));
    assert_eq!(target_session("", None, &sessions, 0), None);
    assert_eq!(target_session("", None, &sessions, 3), None);
}

#[test]
fn session_buttons() {
    let w = Some("work".to_string());
    assert_eq!(switch_action(None, "default", false), Err("Select or type a session name.".to_string()));
    assert_eq!(switch_action(w.clone(), "work", false), Err("Already on this session.".to_string()));
    assert_eq!(switch_action(w.clone(), "default", true), Err("Session is open in another window.".to_string()));
    assert_eq!(switch_action(w.clone(), "default", false), Ok(SessionPickerResult::Switch("work".to_string())));
    assert_eq!(new_window_action(w.clone(), true), Err("Session is open in another window.".to_string()));
    assert_eq!(new_window_action(w.clone(), false), Ok(SessionPickerResult::NewWindow("work".to_string())));
    assert_eq!(new_window_action(None, false), Err("Select or type a session name.".to_string()));
    assert_eq!(delete_action(None, "work", "default"), Err("Select a session to delete.".to_string()));
    assert_eq!(delete_action(w.clone(), "work", "default"), Err("Cannot delete the active session.".to_string()));
    assert_eq!(
        delete_action(Some("default".to_string()), "work", "default"),
        Err("Cannot delete the default session.".to_string())
    );
    assert_eq!(delete_action(w, "default", "default"), Ok(SessionPickerResult::Delete("work".to_string())));
    assert_eq!(new_session_name(Some("x".to_string())), Ok("x".to_string()));
    assert_eq!(new_session_name(None), Err("Invalid name (use letters, numbers, -)".to_string()));
}
