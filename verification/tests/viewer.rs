use ferris_pad::ui::dialogs::readonly_viewer::{
    find_line_offset, goto_request, line_number_prefix_width, page_key, page_request, prepend_line_numbers,
    GotoRequest, PageKey, ViewerState,
};
use ferris_pad::ui::keys::{KEY_END, KEY_PAGE_UP};

const TEXT: &[u8] = b"one\ntwo\nthree";

#[test]
fn first_page_has_numbered_lines() {
    let mut v = ViewerState::new(TEXT);
    assert_eq!(v.total_pages(), 1);
    let p = v.load_current_page().unwrap();
    assert_eq!(p.text, "1\u{2502} one\n2\u{2502} two\n3\u{2502} three");
    assert_eq!((p.page, p.total_pages, p.start_line, p.end_line), (0, 1, 1, 3));
}

#[test]
fn an_empty_file_shows_nothing() {
    let mut v = ViewerState::new(b"");
    assert_eq!(v.total_pages(), 0);
    assert!(v.load_current_page().is_none());
    assert!(v.go_to_page(0).is_none());
}

#[test]
fn line_offsets_are_line_starts() {
    assert_eq!(find_line_offset(TEXT, 0), 0);
    assert_eq!(find_line_offset(TEXT, 1), 0);
    assert_eq!(find_line_offset(TEXT, 2), 4);
    assert_eq!(find_line_offset(TEXT, 3), 8);
    assert_eq!(find_line_offset(TEXT, 4), 13);
}

#[test]
fn searching_forward_and_backward() {
    let mut v = ViewerState::new(TEXT);
    v.load_current_page();
    let hit = v.search("two", true).unwrap();
    assert_eq!(hit.page.page, 0);
    assert_eq!(hit.cursor, 14);
    assert!(v.search("two", false).is_none());
    assert!(v.search_backward("two").is_none());
    assert!(v.search("", true).is_none());
    let hit = v.search("t", true).unwrap();
    assert_eq!(hit.cursor, 14);
    let next = v.search("t", false).unwrap();
    assert_eq!(next.cursor, 23);
    let back = v.search_backward("t").unwrap();
    assert_eq!(back.cursor, 14);
}

#[test]
fn going_to_lines_and_ranges() {
    let mut v = ViewerState::new(TEXT);
    assert!(v.go_to_line(0).is_none());
    assert_eq!(v.go_to_line(3).unwrap().page, 0);
    let r = v.load_line_range(2, 3).unwrap();
    assert_eq!(r.text, "2\u{2502} two\n3\u{2502} three");
    assert_eq!((r.start_line, r.end_line), (2, 3));
    assert!(v.load_line_range(3, 2).is_none());
    assert!(v.load_line_range(9, 10).is_none());
    let req = v.open_request();
    assert_eq!(req.content, "two\nthree");
    assert_eq!((req.start_line, req.end_line, req.start_byte, req.end_byte), (2, 3, 4, 13));
}

#[test]
fn open_request_covers_the_page_shown() {
    let mut v = ViewerState::new(TEXT);
    let req = v.open_request();
    assert_eq!(req.content, "one\ntwo\nthree");
    assert_eq!((req.start_line, req.end_line, req.start_byte, req.end_byte), (1, 3, 0, 13));
    v.load_line_range(1, 1).unwrap();
    v.load_current_page().unwrap();
    let req = v.open_request();
    assert_eq!(req.content, "one\ntwo\nthree");
    assert_eq!((req.start_line, req.end_line), (1, 3));
}

#[test]
fn paging_stays_within_the_file() {
    let mut v = ViewerState::new(TEXT);
    assert!(v.prev_page().is_none());
    assert!(v.next_page().is_none());
    assert_eq!(v.current_page(), 0);
}

#[test]
fn invalid_bytes_are_shown_lossily() {
    let mut v = ViewerState::new(&[0x61, 0xff, 0x62]);
    let p = v.load_current_page().unwrap();
    assert_eq!(p.text, "1\u{2502} a\u{FFFD}b");
}

#[test]
fn line_numbers_are_right_aligned() {
    assert_eq!(prepend_line_numbers("a\nb", 9, 10), " 9\u{2502} a\n10\u{2502} b");
    assert_eq!(prepend_line_numbers("", 1, 1), "1\u{2502} ");
    assert_eq!(line_number_prefix_width(100), 7);
    assert_eq!(line_number_prefix_width(0), 5);
}

#[test]
fn field_requests() {
    assert_eq!(page_request("  2 "), Some(1));
    assert_eq!(page_request("0"), None);
    assert_eq!(page_request("x"), None);
    assert_eq!(goto_request("10-20"), GotoRequest::Range(10, 20));
    assert_eq!(goto_request("5 : 7"), GotoRequest::Range(5, 7));
    assert_eq!(goto_request("12"), GotoRequest::Line(12));
    assert_eq!(goto_request(" 12"), GotoRequest::Invalid);
    assert_eq!(goto_request("a-b"), GotoRequest::Invalid);
}

#[test]
fn page_keys() {
    assert_eq!(page_key(KEY_PAGE_UP, false), Some(PageKey::Prev));
    assert_eq!(page_key(KEY_END, true), Some(PageKey::Last));
    assert_eq!(page_key(KEY_END, false), None);
}

#[test]
fn position_labels() {
    let mut v = ViewerState::new(TEXT);
    let p = v.load_current_page().unwrap();
    assert_eq!(p.position_label(), "Page 1/1 | Lines 1-3");
    let r = v.load_line_range(2, 3).unwrap();
    assert_eq!(r.position_label(), "Lines 2-3");
}
