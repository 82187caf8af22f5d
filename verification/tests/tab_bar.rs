use ferris_pad::ui::tab_bar::{
    chip_label, collapsed_chip_width, group_label_width, tab_label, tab_text_width, truncate_to_fit,
    build_scrollable_items, compute_layout, drag_target, ensure_active_visible, hit_test_layout, press_action,
    release_action, resize_offset, reveal_offset, scroll_left_offset, scroll_right_offset, DragSource, DragTarget,
    GroupInfo, HitResult, ItemKind, LayoutItem, PressAction, TabAction, TabInfo, ThemeRgb,
};

fn tab(id: u64, group: Option<u64>) -> TabInfo {
    TabInfo { id, display_name: format!("doc{}", id), is_dirty: false, is_active: false, group_id: group }
}

#[test]
fn layout_without_scrolling_shares_the_width() {
    let tabs = vec![tab(1, None), tab(2, None), tab(3, None)];
    let items = build_scrollable_items(&tabs, &[]);
    let l = compute_layout(&items, 1000, 0);
    assert_eq!(
        l.layout,
        vec![
            LayoutItem::Tab { index: 0, x: 0, width: 200 },
            LayoutItem::Tab { index: 1, x: 201, width: 200 },
            LayoutItem::Tab { index: 2, x: 402, width: 200 },
            LayoutItem::PlusButton { x: 968 },
        ]
    );
    assert_eq!((l.total_items, l.visible_items, l.scroll_offset), (3, 3, 0));
}

#[test]
fn layout_with_scrolling_shows_arrows() {
    let tabs: Vec<TabInfo> = (1..=5).map(|i| tab(i, None)).collect();
    let items = build_scrollable_items(&tabs, &[]);
    let l = compute_layout(&items, 200, 0);
    assert_eq!(
        l.layout,
        vec![
            LayoutItem::ScrollLeft { x: 6, enabled: false },
            LayoutItem::Tab { index: 0, x: 36, width: 60 },
            LayoutItem::ScrollRight { x: 134, enabled: true },
            LayoutItem::PlusButton { x: 168 },
        ]
    );
    assert_eq!((l.total_items, l.visible_items, l.scroll_offset), (5, 1, 0));
    // An offset past the end is clamped to the last item.
    let l2 = compute_layout(&items, 200, 99);
    assert_eq!(l2.scroll_offset, 4);
}

#[test]
fn scrolled_layout_arrows_follow_the_offset() {
    let tabs: Vec<TabInfo> = (1..=5).map(|i| tab(i, None)).collect();
    let items = build_scrollable_items(&tabs, &[]);
    let l = compute_layout(&items, 200, 99);
    let n = l.layout.len();
    assert_eq!(l.layout[0], LayoutItem::ScrollLeft { x: 6, enabled: true });
    assert_eq!(l.layout[n - 2], LayoutItem::ScrollRight { x: 134, enabled: false });
    assert_eq!(l.layout[n - 1], LayoutItem::PlusButton { x: 168 });
    assert!(l.visible_items <= l.total_items);
    for it in &l.layout {
        if let LayoutItem::Tab { width, .. } = it {
            assert!((60..=200).contains(width));
        }
    }
}

#[test]
fn layout_of_no_tabs_is_the_plus_button() {
    let l = compute_layout(&[], 500, 3);
    assert_eq!(l.layout, vec![LayoutItem::PlusButton { x: 4 }]);
    assert_eq!((l.total_items, l.visible_items, l.scroll_offset), (0, 0, 0));
}

#[test]
fn collapsed_group_becomes_one_chip() {
    let tabs = vec![tab(1, Some(7)), tab(2, Some(7)), tab(3, None)];
    let groups = vec![GroupInfo { id: 7, name: "G".to_string(), collapsed: true }];
    let items = build_scrollable_items(&tabs, &groups);
    assert_eq!(items.len(), 2);
    assert_eq!(items[0].kind, ItemKind::Chip { group_id: 7, count: 2 });
    assert_eq!(items[1].kind, ItemKind::Tab { index: 2 });
    let expanded = vec![GroupInfo { id: 7, name: "G".to_string(), collapsed: false }];
    let items2 = build_scrollable_items(&tabs, &expanded);
    assert_eq!(items2.len(), 3);
    assert_eq!(items2[0].label, Some(7));
    assert_eq!(items2[1].label, None);
}

#[test]
fn hit_test_finds_tabs_and_close_buttons() {
    let tabs: Vec<TabInfo> = (1..=5).map(|i| tab(i, None)).collect();
    let l = compute_layout(&build_scrollable_items(&tabs, &[]), 200, 0);
    assert_eq!(hit_test_layout(&l.layout, 0, 40, 10), HitResult::Tab { index: 0, is_close: false });
    assert_eq!(hit_test_layout(&l.layout, 0, 80, 12), HitResult::Tab { index: 0, is_close: true });
    assert_eq!(hit_test_layout(&l.layout, 0, 40, 40), HitResult::Miss);
    assert_eq!(hit_test_layout(&l.layout, 0, 10, 10), HitResult::ScrollLeft);
    assert_eq!(hit_test_layout(&l.layout, 0, 170, 10), HitResult::PlusButton);
}

#[test]
fn dragging_a_tab_over_another() {
    let tabs = vec![tab(1, None), tab(2, None), tab(3, None)];
    let l = compute_layout(&build_scrollable_items(&tabs, &[]), 1000, 0);
    let src = DragSource::Tab(0);
    assert_eq!(drag_target(&l.layout, &tabs, src, 0, 210, 10), Some(DragTarget::InsertAt(1)));
    assert_eq!(drag_target(&l.layout, &tabs, src, 0, 300, 10), Some(DragTarget::OnTab(1)));
    assert_eq!(drag_target(&l.layout, &tabs, src, 0, 390, 10), Some(DragTarget::InsertAt(2)));
    assert_eq!(drag_target(&l.layout, &tabs, src, 0, 10, 10), None);
}

#[test]
fn releasing_a_drag() {
    let tabs = vec![tab(10, None), tab(11, None), tab(12, None)];
    assert_eq!(
        release_action(&tabs, Some(DragSource::Tab(0)), Some(DragTarget::OnTab(1))),
        Some(TabAction::TabGroupByDrag(10, 11))
    );
    assert_eq!(release_action(&tabs, Some(DragSource::Tab(0)), Some(DragTarget::InsertAt(2))), Some(TabAction::TabMove(0, 2)));
    assert_eq!(release_action(&tabs, Some(DragSource::Tab(1)), Some(DragTarget::InsertAt(1))), None);
    assert_eq!(release_action(&tabs, Some(DragSource::Group(4)), None), Some(TabAction::TabGroupToggle(4)));
    assert_eq!(
        release_action(&tabs, Some(DragSource::Group(4)), Some(DragTarget::InsertAt(1))),
        Some(TabAction::TabGroupMove(4, 1))
    );
    let grouped = vec![tab(20, Some(1)), tab(21, Some(1)), tab(22, None)];
    assert_eq!(
        release_action(&grouped, Some(DragSource::Tab(2)), Some(DragTarget::InsertAt(1))),
        Some(TabAction::TabMoveToGroup(22, 1, Some(1)))
    );
    assert_eq!(
        release_action(&grouped, Some(DragSource::Tab(2)), Some(DragTarget::OnCollapsedGroup(1))),
        Some(TabAction::TabMoveToGroup(22, 2, Some(1)))
    );
    assert_eq!(
        release_action(&grouped, Some(DragSource::Tab(0)), Some(DragTarget::InsertAt(3))),
        Some(TabAction::TabMoveToGroup(20, 3, None))
    );
}

#[test]
fn pressing_buttons() {
    let tabs = vec![tab(5, None)];
    assert_eq!(press_action(&tabs, HitResult::PlusButton, 1), PressAction::Send(TabAction::FileNew));
    assert_eq!(press_action(&tabs, HitResult::PlusButton, 3), PressAction::Ignored);
    assert_eq!(press_action(&tabs, HitResult::Tab { index: 0, is_close: true }, 1), PressAction::Send(TabAction::TabClose(5)));
    assert_eq!(press_action(&tabs, HitResult::Tab { index: 0, is_close: false }, 1), PressAction::SelectTab { index: 0, id: 5 });
    assert_eq!(press_action(&tabs, HitResult::Tab { index: 0, is_close: false }, 2), PressAction::Send(TabAction::TabClose(5)));
    assert_eq!(press_action(&tabs, HitResult::GroupLabel(3), 1), PressAction::Send(TabAction::TabGroupToggle(3)));
    assert_eq!(press_action(&tabs, HitResult::CollapsedChip(3), 3), PressAction::GroupMenu(3));
}

#[test]
fn scrolling_offsets() {
    assert_eq!(scroll_left_offset(0), None);
    assert_eq!(scroll_left_offset(3), Some(2));
    assert_eq!(scroll_right_offset(0, 5, 1), Some(1));
    assert_eq!(scroll_right_offset(4, 5, 1), None);
    assert_eq!(resize_offset(10, 5), 4);
    assert_eq!(resize_offset(2, 5), 2);
}

#[test]
fn revealing_the_active_tab() {
    // The revealed item ends up among the visible ones.
    assert_eq!(reveal_offset(3, 0, 1), 3);
    assert_eq!(reveal_offset(1, 2, 3), 1);
    assert_eq!(reveal_offset(3, 2, 3), 2);
    assert_eq!(reveal_offset(9, 2, 3), 7);
    let tabs: Vec<TabInfo> = (1..=5).map(|i| tab(i, None)).collect();
    assert_eq!(ensure_active_visible(&tabs, &[], Some(4), 0, 1), Some(3));
    assert_eq!(ensure_active_visible(&tabs, &[], Some(99), 0, 1), None);
    assert_eq!(ensure_active_visible(&tabs, &[], None, 0, 1), None);
    let grouped = vec![tab(1, Some(7)), tab(2, Some(7)), tab(3, None)];
    let groups = vec![GroupInfo { id: 7, name: String::new(), collapsed: true }];
    assert_eq!(ensure_active_visible(&grouped, &groups, Some(3), 0, 1), Some(1));
}

#[test]
fn theme_brightness() {
    let c = ThemeRgb::new(10, 20, 30);
    assert_eq!(c.brightness(), 20);
    assert!(c.is_dark());
    assert!(!ThemeRgb::from_tuple((200, 200, 200)).is_dark());
}

#[test]
fn clicking_inside_a_shown_item_hits_that_item() {
    let tabs = vec![tab(1, Some(7)), tab(2, Some(7)), tab(3, Some(8)), tab(4, None), tab(5, None)];
    let groups = vec![
        GroupInfo { id: 7, name: "G".to_string(), collapsed: false },
        GroupInfo { id: 8, name: "H".to_string(), collapsed: true },
    ];
    let mut items = build_scrollable_items(&tabs, &groups);
    for it in items.iter_mut() {
        if it.label.is_some() {
            it.label_width = 30;
        }
        if let ItemKind::Chip { .. } = it.kind {
            it.width = 50;
        }
    }
    for (w, off) in [(1000, 0usize), (300, 0), (300, 2)] {
        let l = compute_layout(&items, w, off);
        assert!(l.visible_items >= 1 && l.scroll_offset + l.visible_items <= l.total_items);
        for it in l.layout.iter() {
            let (x, width, expected) = match *it {
                LayoutItem::Tab { index, x, width } => (x, width, HitResult::Tab { index, is_close: false }),
                LayoutItem::GroupLabel { group_id, x, width } => (x, width, HitResult::GroupLabel(group_id)),
                LayoutItem::CollapsedChip { group_id, x, width, .. } => {
                    (x, width, HitResult::CollapsedChip(group_id))
                }
                _ => continue,
            };
            // Near the left edge, away from any close button.
            assert_eq!(hit_test_layout(&l.layout, 0, x + 1, 2), expected);
            assert_eq!(hit_test_layout(&l.layout, 0, x + width - 1, 2), expected);
        }
    }
}

#[test]
fn tab_labels_and_measured_widths() {
    assert_eq!(tab_label("main.rs", false), "main.rs");
    assert_eq!(tab_label("main.rs", true), "\u{25cf} main.rs");
    assert_eq!(tab_text_width(120), 80);
    assert_eq!(group_label_width("", 0), 26);
    assert_eq!(group_label_width("Docs", 30), 46);
    assert_eq!(chip_label("Docs", 3), "Docs (3)");
    assert_eq!(chip_label("", 12), "(12)");
    assert_eq!(collapsed_chip_width(10), 50);
    assert_eq!(collapsed_chip_width(40), 70);
}

fn widths_of(text: &str, per_char: i32) -> (i32, i32, Vec<i32>) {
    let n = text.chars().count() as i32;
    let cuts: Vec<i32> = (0..n).map(|len| (len + 3) * per_char).collect();
    (n * per_char, 3 * per_char, cuts)
}

#[test]
fn truncating_a_tab_label() {
    let (tw, ew, cuts) = widths_of("document.txt", 5);
    // Room for everything.
    assert_eq!(truncate_to_fit("document.txt", 60, tw, ew, &cuts), "document.txt");
    // Room for 8 characters: 5 of the text and the ellipsis.
    assert_eq!(truncate_to_fit("document.txt", 40, tw, ew, &cuts), "docum...");
    // Room for the ellipsis and one character.
    assert_eq!(truncate_to_fit("document.txt", 20, tw, ew, &cuts), "d...");
    // No room beyond the ellipsis.
    assert_eq!(truncate_to_fit("document.txt", 15, tw, ew, &cuts), "...");
    assert_eq!(truncate_to_fit("document.txt", 0, tw, ew, &cuts), "");
}

#[test]
fn dropping_at_a_group_edge_does_not_join_it() {
    let tabs = vec![tab(1, None), tab(2, Some(9)), tab(3, Some(9)), tab(4, None), tab(5, None)];
    // Just before the group's first tab, or just after its last: a plain move.
    assert_eq!(release_action(&tabs, Some(DragSource::Tab(4)), Some(DragTarget::InsertAt(1))), Some(TabAction::TabMove(4, 1)));
    assert_eq!(release_action(&tabs, Some(DragSource::Tab(0)), Some(DragTarget::InsertAt(3))), Some(TabAction::TabMove(0, 3)));
    // Between two of its tabs: the tab joins the group.
    assert_eq!(
        release_action(&tabs, Some(DragSource::Tab(4)), Some(DragTarget::InsertAt(2))),
        Some(TabAction::TabMoveToGroup(5, 2, Some(9)))
    );
    // A member dropped outside the group leaves it.
    assert_eq!(
        release_action(&tabs, Some(DragSource::Tab(1)), Some(DragTarget::InsertAt(0))),
        Some(TabAction::TabMoveToGroup(2, 0, None))
    );
}
