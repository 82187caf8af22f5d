use ferris_pad::text::{parse_i32, parse_usize};
use ferris_pad::updater::{first_release, release_api_url, UpdateChannel};

#[test]
fn parsing_numbers() {
    assert_eq!(parse_usize("42"), Some(42));
    assert_eq!(parse_usize("+42"), Some(42));
    assert_eq!(parse_usize("007"), Some(7));
    assert_eq!(parse_usize("+"), None);
    assert_eq!(parse_usize("-1"), None);
    assert_eq!(parse_usize(""), None);
    assert_eq!(parse_usize("99999999999999999999999"), None);
    assert_eq!(parse_i32("-2147483648"), Some(i32::MIN));
    assert_eq!(parse_i32("2147483648"), None);
    assert_eq!(parse_i32("-"), None);
    assert_eq!(parse_i32("+-1"), None);
    assert_eq!(parse_i32("-12"), Some(-12));
}

#[test]
fn release_feed_addresses() {
    assert_eq!(
        release_api_url("fedro86", "ferrispad", UpdateChannel::Stable),
        "https://api.github.com/repos/fedro86/ferrispad/releases/latest"
    );
    assert_eq!(
        release_api_url("fedro86", "ferrispad", UpdateChannel::Beta),
        "https://api.github.com/repos/fedro86/ferrispad/releases"
    );
    assert_eq!(first_release(vec![]).unwrap_err(), "No releases found");
}
