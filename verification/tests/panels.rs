use ferris_pad::ui::diagnostic_panel::panel_height as diagnostic_panel_height;
use ferris_pad::ui::split_panel::panel_height as split_panel_height;
use ferris_pad::ui::theme::{editor_text_colors, EditorTextColors};
use ferris_pad::ui::toast::{toast_height, toast_look, ToastLevel};
use ferris_pad::ui::tree_panel::{
    is_folder_item, node_path, panel_height as tree_panel_height, panel_width as tree_panel_width,
};
use ferris_pad::ui::diagnostic_panel::{
    hovered_item, row_diagnostic, row_text, summary, tooltip_text, Diagnostic, DiagnosticLevel,
};
use ferris_pad::ui::keys::{KEY_ENTER, KEY_F_BASE, KEY_TAB};
use ferris_pad::ui::split_panel::{
    build_diff_map, pane_styles, DiffBg, HighlightColor, HighlightSpan, LineHighlight, SyntaxDiffMap,
};
use ferris_pad::ui::status_bar::{compose_label, position_text, relative_path};
use ferris_pad::ui::terminal_panel::{
    effective_fg, encode_key, initial_grid_size, line_source, resized_grid_size, terminal_bg, wheel_scroll,
    LineSource,
};
use ferris_pad::ui::tree_panel::{
    children_to_show, item_label, label_color, node_subtree_matches, semantic_key, should_expand, strip_icon,
    TreeNode,
};

#[test]
fn diff_map_marks_lines_and_spans() {
    let hl = LineHighlight {
        line: 2,
        color: HighlightColor::Added,
        spans: vec![HighlightSpan { start: 1, end: 5 }],
    };
    let m = build_diff_map("ab\ncd\nef", &[hl]);
    let (n, a, e) = (DiffBg::Normal, DiffBg::Added, DiffBg::AddedEmphasis);
    assert_eq!(m, vec![n, n, n, a, e, n, n, n]);
    let out_of_range = LineHighlight { line: 4, color: HighlightColor::Removed, spans: vec![] };
    assert_eq!(build_diff_map("ab", &[out_of_range]), vec![n, n]);
    let rgb = LineHighlight { line: 1, color: HighlightColor::Rgb(1, 2, 3), spans: vec![] };
    assert_eq!(build_diff_map("x", &[rgb]), vec![a]);
}

#[test]
fn style_table_reuses_combinations() {
    let mut m = SyntaxDiffMap::new();
    assert_eq!(m.get_or_insert((1, 2, 3), DiffBg::Added), 'G');
    assert_eq!(m.get_or_insert((1, 2, 3), DiffBg::Added), 'G');
    assert_eq!(m.get_or_insert((1, 2, 3), DiffBg::Removed), 'H');
    assert_eq!(m.diff_bg_indices(), vec![0, 1, 2, 3, 4, 5, 1, 2]);
    for i in 0..100u8 {
        m.get_or_insert((i, 0, 0), DiffBg::Normal);
    }
    assert_eq!(m.combos().len(), 56);
    // A full table falls back to the background's own style.
    assert_eq!(m.get_or_insert((200, 200, 200), DiffBg::Modified), 'D');
}

#[test]
fn pane_styles_combine_syntax_and_diff() {
    let mut m = SyntaxDiffMap::new();
    assert_eq!(pane_styles(&[DiffBg::Normal, DiffBg::Added], None, &[], &mut m), "AB");
    let syntax: &[u8] = b"AB";
    assert_eq!(pane_styles(&[DiffBg::Normal, DiffBg::Added], Some(syntax), &[(9, 9, 9)], &mut m), "GB");
}

#[test]
fn terminal_keys() {
    assert_eq!(encode_key(KEY_ENTER, false, false, ""), vec![13]);
    assert_eq!(encode_key(KEY_TAB, true, false, ""), b"\x1b[Z".to_vec());
    assert_eq!(encode_key(KEY_TAB, false, false, ""), vec![9]);
    assert_eq!(encode_key(KEY_F_BASE + 5, false, false, ""), b"\x1b[15~".to_vec());
    assert_eq!(encode_key('c' as i32, false, true, "c"), vec![3]);
    assert_eq!(encode_key('C' as i32, false, true, "C"), vec![3]);
    assert_eq!(encode_key('x' as i32, false, false, "x"), vec![b'x']);
    assert_eq!(encode_key(0, false, true, "1"), vec![b'1']);
    assert_eq!(encode_key(0, false, false, ""), Vec::<u8>::new());
}

#[test]
fn terminal_colors() {
    assert_eq!(terminal_bg(true, (5, 100, 200)), (0, 90, 190));
    assert_eq!(terminal_bg(false, (5, 100, 200)), (0, 85, 185));
    assert_eq!(effective_fg((10, 10, 10), None, (20, 20, 20)), (220, 220, 220));
    assert_eq!(effective_fg((250, 250, 250), Some((200, 200, 200)), (0, 0, 0)), (30, 30, 30));
    assert_eq!(effective_fg((100, 100, 100), None, (0, 0, 0)), (100, 100, 100));
}

#[test]
fn terminal_grid_and_scrolling() {
    assert_eq!(initial_grid_size(0, 0, 7, 14), (77, 28));
    assert_eq!(initial_grid_size(100, 30, 7, 14), (20, 5));
    assert_eq!(resized_grid_size(0, 100, 7, 14), None);
    assert_eq!(resized_grid_size(808, 408, 8, 16), Some((100, 25)));
    assert_eq!(resized_grid_size(20, 20, 8, 16), Some((10, 3)));
    assert_eq!(wheel_scroll(0, true, 10), 3);
    assert_eq!(wheel_scroll(9, true, 10), 10);
    assert_eq!(wheel_scroll(2, false, 10), 0);
    assert_eq!(line_source(100, 24, 0, 0), LineSource::Grid(0));
    assert_eq!(line_source(100, 24, 10, 0), LineSource::Scrollback(90));
    assert_eq!(line_source(100, 24, 10, 23), LineSource::Grid(13));
}

#[test]
fn status_bar_texts() {
    assert_eq!(position_text(3, 7, None), "Ln 3, Col 7");
    assert_eq!(position_text(3, 7, Some((2, 10))), "Ln 3, Col 7    2 lines selected");
    assert_eq!(position_text(3, 7, Some((1, 5))), "Ln 3, Col 7    5 chars selected");
    assert_eq!(relative_path("/home/u/proj/src/main.rs", Some("/home/u/proj")), "src/main.rs");
    assert_eq!(relative_path("/home/u/proj/src/main.rs", Some("/home/u/proj/")), "src/main.rs");
    assert_eq!(relative_path("/etc/hosts", Some("/home/u/proj")), "/etc/hosts");
    assert_eq!(relative_path("/etc/hosts", None), "/etc/hosts");
}

#[test]
fn status_bar_labels() {
    assert_eq!(compose_label(140, "src/main.rs", "Ln 1, Col 1").unwrap(), format!("{}Ln 1, Col 1", " ".repeat(9)));
    assert_eq!(
        compose_label(350, "src/main.rs", "Ln 1, Col 1").unwrap(),
        format!("  src/main.rs{}Ln 1, Col 1  ", " ".repeat(24))
    );
    assert_eq!(
        compose_label(210, "a/very/long/path/to/file.rs", "Ln 1, Col 1").unwrap(),
        "  \u{2026}/to/file.rs Ln 1, Col 1  "
    );
    assert_eq!(compose_label(-5, "", "Ln 1, Col 1").unwrap(), "Ln 1, Col 1");
}

#[test]
fn tree_labels_and_paths() {
    assert_eq!(strip_icon("\u{1F4C1} src"), "src");
    assert_eq!(strip_icon("\u{1F4C1} \u{1F4C4} x"), "x");
    assert_eq!(strip_icon("plain"), "plain");
    assert_eq!(semantic_key("\u{1F4C1} proj/\u{1F4C1} src/\u{1F4C4} main.rs"), "src/main.rs");
    assert_eq!(semantic_key("\u{1F4C1} proj"), "");
    assert_eq!(label_color("added", true), Some((152, 195, 121)));
    assert_eq!(label_color("conflict", false), Some((190, 50, 50)));
    assert_eq!(label_color("other", true), None);
    assert_eq!(item_label(Some("folder"), false, "src"), "\u{1F4C1} src");
    assert_eq!(item_label(None, false, "a.rs"), "\u{1F4C4} a.rs");
    assert_eq!(item_label(Some("none"), true, "key"), "key");
    assert!(should_expand(true, false, false, -1, 9));
    assert!(!should_expand(true, false, false, 1, 1));
    assert!(should_expand(true, true, true, 0, 5));
    assert!(!should_expand(false, true, true, -1, 0));
}

fn node(label: &str, children: Vec<TreeNode>) -> TreeNode {
    TreeNode { label: label.to_string(), icon: None, label_color: None, children, lazy: false }
}

#[test]
fn tree_search() {
    let tree = node("proj", vec![node("src", vec![node("Main.rs", vec![])]), node("docs", vec![])]);
    let q: Vec<char> = "main".chars().collect();
    assert!(node_subtree_matches(&tree, &q));
    assert_eq!(children_to_show(&tree, &q), vec![true, false]);
    let none: Vec<char> = "zzz".chars().collect();
    assert!(!node_subtree_matches(&tree, &none));
    let own: Vec<char> = "pro".chars().collect();
    assert_eq!(children_to_show(&tree, &own), vec![true, true]);
}

fn diag(level: DiagnosticLevel, line: u32, column: Option<u32>) -> Diagnostic {
    Diagnostic {
        level,
        line,
        column,
        message: "bad".to_string(),
        source: "lint".to_string(),
        fix_message: None,
        url: None,
    }
}

#[test]
fn diagnostic_texts() {
    assert_eq!(summary(&[]), ("  \u{2714} All checks passed".to_string(), (46, 125, 50)));
    let ds = vec![
        diag(DiagnosticLevel::Error, 1, None),
        diag(DiagnosticLevel::Warning, 2, None),
        diag(DiagnosticLevel::Warning, 3, None),
        diag(DiagnosticLevel::Hint, 4, None),
    ];
    assert_eq!(summary(&ds), ("  \u{26A0} 1 error, 2 warnings, 1 info".to_string(), (198, 40, 40)));
    assert_eq!(summary(&ds[1..2]), ("  \u{26A0} 1 warning".to_string(), (245, 124, 0)));
    assert_eq!(summary(&ds[3..]), ("  \u{26A0} 1 info".to_string(), (25, 118, 210)));
    assert_eq!(row_text(&diag(DiagnosticLevel::Error, 3, Some(5))), "@C88 \u{2718} Line 3:5: bad [lint]");
    assert_eq!(row_text(&diag(DiagnosticLevel::Hint, 3, None)), "@C8 \u{2022} Line 3: bad [lint]");
    let mut d = diag(DiagnosticLevel::Info, 7, None);
    d.fix_message = Some("do this".to_string());
    d.url = Some("https://x".to_string());
    assert_eq!(
        tooltip_text(&d),
        "Line 7: bad\nSource: lint\n\nFix: do this\nDocs: https://x  (double-click to open)"
    );
    assert_eq!(row_diagnostic(0, 3), None);
    assert_eq!(row_diagnostic(2, 3), Some(1));
    assert_eq!(row_diagnostic(4, 3), None);
    assert_eq!(hovered_item(50, 10, 0, 20), Some(2));
    assert_eq!(hovered_item(5, 10, 0, 20), None);
}

#[test]
fn every_style_character_shows_the_background_asked_for() {
    let bgs = [
        DiffBg::Normal,
        DiffBg::Added,
        DiffBg::Removed,
        DiffBg::Modified,
        DiffBg::AddedEmphasis,
        DiffBg::RemovedEmphasis,
    ];
    let mut m = SyntaxDiffMap::new();
    for i in 0..80u8 {
        let diff = bgs[(i % 6) as usize];
        let ch = m.get_or_insert((i, i / 2, 7), diff);
        let entry = (ch as u32 - 'A' as u32) as usize;
        let shown = m.diff_bg_indices();
        assert!(entry < shown.len());
        assert_eq!(shown[entry] as usize, diff.base_index());
    }
}

#[test]
fn editor_colors_follow_the_theme() {
    // Dark background, dark foreground: light fallback text, lighter gutter.
    assert_eq!(
        editor_text_colors((30, 30, 250), (10, 10, 10)),
        EditorTextColors {
            text: (220, 220, 220),
            cursor: (255, 255, 255),
            line_number_bg: (45, 45, 255),
            line_number_fg: (150, 150, 150),
        }
    );
    // Dark background, light foreground: the theme's foreground.
    assert_eq!(editor_text_colors((0, 0, 0), (200, 190, 180)).text, (200, 190, 180));
    // Light background, light foreground: dark fallback text, darker gutter.
    assert_eq!(
        editor_text_colors((250, 250, 5), (255, 255, 255)),
        EditorTextColors {
            text: (30, 30, 30),
            cursor: (0, 0, 0),
            line_number_bg: (235, 235, 0),
            line_number_fg: (100, 100, 100),
        }
    );
    assert_eq!(editor_text_colors((255, 255, 255), (40, 50, 60)).text, (40, 50, 60));
}

#[test]
fn toast_colors_and_text() {
    let l = toast_look(ToastLevel::Error, "Save failed", true);
    assert_eq!((l.bg, l.fg, l.label.as_str()), ((198, 40, 40), (255, 255, 255), "  Save failed"));
    let l = toast_look(ToastLevel::Success, "Saved", false);
    assert_eq!((l.bg, l.fg), ((200, 230, 201), (27, 94, 32)));
    assert_eq!(ToastLevel::Warning.bg_color_dark(), (245, 124, 0));
    assert_eq!(ToastLevel::Info.bg_color_light(), (187, 222, 251));
    assert_eq!(ToastLevel::Info.text_color(false), (13, 71, 161));
    assert_eq!((toast_height(true), toast_height(false)), (28, 0));
}

#[test]
fn panel_sizes() {
    assert_eq!(diagnostic_panel_height(false, true, 3), 0);
    assert_eq!(diagnostic_panel_height(true, true, 3), 120);
    assert_eq!(diagnostic_panel_height(true, true, 0), 24);
    assert_eq!(diagnostic_panel_height(true, false, 3), 24);
    assert_eq!((split_panel_height(true), split_panel_height(false)), (328, 0));
    assert_eq!((tree_panel_height(true), tree_panel_height(false)), (256, 0));
    assert_eq!((tree_panel_width(true), tree_panel_width(false)), (250, 0));
}

#[test]
fn tree_node_paths_leave_out_the_project_root() {
    let up = vec![
        Some("\u{1F4C4} main.rs".to_string()),
        Some("\u{1F4C1} src".to_string()),
        None,
        Some("\u{1F4C1} project".to_string()),
        Some("ROOT".to_string()),
    ];
    assert_eq!(node_path(&up), vec!["src".to_string(), "main.rs".to_string()]);
    let root = vec![Some("\u{1F4C1} project".to_string()), Some("ROOT".to_string())];
    assert!(node_path(&root).is_empty());
    assert!(node_path(&[]).is_empty());
    assert!(is_folder_item(Some("\u{1F4C1} src"), 0));
    assert!(is_folder_item(Some("config"), 2));
    assert!(!is_folder_item(Some("\u{1F4C4} a.txt"), 0));
    assert!(!is_folder_item(None, 0));
}

#[test]
fn every_byte_of_a_pane_shows_its_background() {
    let text = "fn main() {\n    let x = 1;\n}\n";
    let hls = vec![
        LineHighlight { line: 2, color: HighlightColor::Modified, spans: vec![HighlightSpan { start: 8, end: 9 }] },
        LineHighlight { line: 3, color: HighlightColor::Removed, spans: vec![] },
    ];
    let dm = build_diff_map(text, &hls);
    assert_eq!(dm.len(), text.len());
    let syntax: Vec<u8> = (0..text.len()).map(|i| b'A' + (i % 3) as u8).collect();
    let table = [(10, 20, 30), (40, 50, 60), (70, 80, 90)];
    let mut m = SyntaxDiffMap::new();
    let styles = pane_styles(&dm, Some(syntax.as_slice()), &table, &mut m);
    assert_eq!(styles.chars().count(), dm.len());
    let shown = m.diff_bg_indices();
    for (ch, bg) in styles.chars().zip(dm.iter()) {
        let entry = (ch as u32 - 'A' as u32) as usize;
        assert_eq!(shown[entry] as usize, bg.base_index());
    }
}
