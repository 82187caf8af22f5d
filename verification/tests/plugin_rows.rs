use ferris_pad::ui::dialogs::plugin_manager::row_width_for_scroll;

/// Scrollbar size used in the plugin manager dialog (matches SCROLLBAR_SIZE).
const SCROLLBAR_SIZE: i32 = 12;

#[test]
fn row_width_full_when_content_fits() {
    // 5 rows × 70px + 4 × 5px spacing = 370px, viewport = 400px → no scrollbar
    let content_h = 5 * 70 + 4 * 5;
    let viewport_h = 400;
    let full_width = 520;

    assert_eq!(
        row_width_for_scroll(content_h, viewport_h, full_width),
        full_width,
        "Rows should use full width when content fits in viewport"
    );
}

#[test]
fn row_width_shrinks_when_content_overflows() {
    // 6 rows × 70px + 5 × 5px spacing = 445px, viewport = 400px → scrollbar active
    let content_h = 6 * 70 + 5 * 5;
    let viewport_h = 400;
    let full_width = 520;

    assert_eq!(
        row_width_for_scroll(content_h, viewport_h, full_width),
        full_width - SCROLLBAR_SIZE,
        "Rows should shrink by SCROLLBAR_SIZE when content overflows viewport"
    );
}

#[test]
fn row_width_exact_boundary_no_scrollbar() {
    // Content exactly equals viewport → no scrollbar
    let content_h = 400;
    let viewport_h = 400;
    let full_width = 520;

    assert_eq!(
        row_width_for_scroll(content_h, viewport_h, full_width),
        full_width,
        "No scrollbar when content exactly equals viewport"
    );
}

#[test]
fn row_width_one_pixel_over_triggers_scrollbar() {
    // Content 1px taller than viewport → scrollbar
    let content_h = 401;
    let viewport_h = 400;
    let full_width = 520;

    assert_eq!(
        row_width_for_scroll(content_h, viewport_h, full_width),
        full_width - SCROLLBAR_SIZE,
        "Scrollbar should appear when content is even 1px taller than viewport"
    );
}

#[test]
fn row_width_expands_after_uninstall_removes_overflow() {
    let row_h = 70;
    let spacing = 5;
    let viewport_h = 400;
    let full_width = 520;

    // 6 visible rows: 6×70 + 5×5 = 445 > 400 → scrollbar → narrow
    let content_6 = 6 * row_h + 5 * spacing;
    assert_eq!(
        row_width_for_scroll(content_6, viewport_h, full_width),
        full_width - SCROLLBAR_SIZE,
        "6 rows should need scrollbar"
    );

    // After hiding one row: 5 visible rows: 5×70 + 4×5 = 370 < 400 → no scrollbar → full width
    let content_5 = 5 * row_h + 4 * spacing;
    assert_eq!(
        row_width_for_scroll(content_5, viewport_h, full_width),
        full_width,
        "After uninstalling one plugin, 5 rows should fit without scrollbar and rows should expand"
    );
}

#[test]
fn row_width_stays_narrow_if_still_overflows_after_uninstall() {
    let row_h = 70;
    let spacing = 5;
    let viewport_h = 400;
    let full_width = 520;

    // 7 visible rows: 7×70 + 6×5 = 520 > 400 → scrollbar
    let content_7 = 7 * row_h + 6 * spacing;
    assert_eq!(row_width_for_scroll(content_7, viewport_h, full_width), full_width - SCROLLBAR_SIZE,);

    // After hiding one: 6 visible rows: 6×70 + 5×5 = 445 > 400 → still scrollbar
    let content_6 = 6 * row_h + 5 * spacing;
    assert_eq!(
        row_width_for_scroll(content_6, viewport_h, full_width),
        full_width - SCROLLBAR_SIZE,
        "After uninstalling one of 7 plugins, 6 rows still overflow — should stay narrow"
    );
}
