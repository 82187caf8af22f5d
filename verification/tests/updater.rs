use ferris_pad::updater::{
    check_for_updates, current_timestamp, is_check_due, is_newer_version, should_check_now, timestamp_from_elapsed, ReleaseInfo,
    UpdateCheckResult,
};

#[test]
fn test_version_comparison_newer() {
    assert!(is_newer_version("0.1.4", "0.1.5"));
    assert!(is_newer_version("0.1.4", "0.2.0"));
    assert!(is_newer_version("0.1.4", "1.0.0"));
}

#[test]
fn test_version_comparison_same() {
    assert!(!is_newer_version("0.1.5", "0.1.5"));
    assert!(!is_newer_version("1.0.0", "1.0.0"));
}

#[test]
fn test_version_comparison_older() {
    assert!(!is_newer_version("0.1.5", "0.1.4"));
    assert!(!is_newer_version("1.0.0", "0.9.9"));
}

#[test]
fn test_version_comparison_prerelease() {
    // Prereleases are considered lower than releases
    assert!(is_newer_version("0.1.4", "0.1.5-beta.1"));
    assert!(is_newer_version("0.1.5-beta.1", "0.1.5"));
    assert!(!is_newer_version("0.1.5", "0.1.5-beta.1"));
}

#[test]
fn test_version_comparison_invalid() {
    // Invalid versions should return false
    assert!(!is_newer_version("invalid", "0.1.5"));
    assert!(!is_newer_version("0.1.4", "invalid"));
    assert!(!is_newer_version("invalid", "invalid"));
}

#[test]
fn test_should_check_now_yes() {
    // 25 hours ago
    let twenty_five_hours_ago = current_timestamp() - (25 * 60 * 60);
    assert!(should_check_now(twenty_five_hours_ago));
}

#[test]
fn test_should_check_now_no() {
    // 1 hour ago
    let one_hour_ago = current_timestamp() - (1 * 60 * 60);
    assert!(!should_check_now(one_hour_ago));
}

#[test]
fn test_should_check_now_exactly_24h() {
    // Exactly 24 hours - should return true
    let exactly_24h_ago = current_timestamp() - (24 * 60 * 60);
    assert!(should_check_now(exactly_24h_ago));
}

#[test]
fn test_should_check_now_never_checked() {
    // Never checked before (timestamp = 0)
    assert!(should_check_now(0));
}

#[test]
fn is_check_due_at_the_interval_boundary() {
    assert!(is_check_due(1_000_000, 1_000_000 - 86_400));
    assert!(!is_check_due(1_000_000, 1_000_000 - 86_399));
    assert!(is_check_due(1_000_000, 0));
}

#[test]
fn is_newer_version_does_not_accept_a_leading_v() {
    // A tag's `v` is removed before comparing (see `ReleaseInfo::version`);
    // the comparison itself takes bare semantic versions only.
    assert!(!is_newer_version("v0.1.4", "v0.1.5"));
    assert!(!is_newer_version("0.1.4", "v0.1.5"));
}

fn release(tag: &str, prerelease: bool) -> ReleaseInfo {
    ReleaseInfo {
        tag_name: tag.to_string(),
        name: format!("Release {}", tag),
        body: String::new(),
        html_url: String::new(),
        published_at: String::new(),
        prerelease,
        assets: vec![],
    }
}

#[test]
fn check_for_updates_reports_a_newer_release() {
    match check_for_updates("0.1.4", Ok(release("v0.1.5", false)), &[]) {
        UpdateCheckResult::UpdateAvailable(r) => assert_eq!(r.tag_name, "v0.1.5"),
        _ => panic!("expected an update"),
    }
}

#[test]
fn check_for_updates_skips_a_skipped_version() {
    let skipped = vec!["0.1.5".to_string()];
    assert!(matches!(
        check_for_updates("0.1.4", Ok(release("v0.1.5", false)), &skipped),
        UpdateCheckResult::NoUpdate
    ));
}

#[test]
fn check_for_updates_passes_errors_on() {
    match check_for_updates("0.1.4", Err("offline".to_string()), &[]) {
        UpdateCheckResult::Error(e) => assert_eq!(e, "offline"),
        _ => panic!("expected an error"),
    }
}

#[test]
fn check_for_updates_same_version_is_no_update() {
    assert!(matches!(check_for_updates("0.1.5", Ok(release("0.1.5", false)), &[]), UpdateCheckResult::NoUpdate));
}

#[test]
fn release_version_drops_the_v() {
    assert_eq!(release("v1.2.3", false).version(), "1.2.3");
    assert_eq!(release("1.2.3", false).version(), "1.2.3");
}

#[test]
fn clock_readings_become_timestamps() {
    assert_eq!(timestamp_from_elapsed(None), 0);
    assert_eq!(timestamp_from_elapsed(Some(1_700_000_000)), 1_700_000_000);
    assert_eq!(timestamp_from_elapsed(Some(i64::MAX as u64)), i64::MAX);
    // Past `i64::MAX` the seconds wrap around as `as` converts them.
    assert_eq!(timestamp_from_elapsed(Some(u64::MAX)), -1);
    assert_eq!(timestamp_from_elapsed(Some(1u64 << 63)), i64::MIN);
}
