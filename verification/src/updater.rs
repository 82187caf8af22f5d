//! Update checking: release metadata, semantic-version comparison and the
//! decision whether a fetched release should be offered to the user.

use vstd::prelude::*;

use crate::text::{append_str, chars_of, string_from_range};

verus! {

/// Which stream of releases the user follows.
#[derive(Debug, Clone, Copy, PartialEq, Eq, Structural)]
pub enum UpdateChannel {
    Stable,
    Beta,
}

/// A downloadable file attached to a release.
#[derive(Debug, Clone)]
pub struct ReleaseAsset {
    pub name: String,
    pub browser_download_url: String,
    pub size: u64,
}

/// A release as published by the project's release feed.
#[derive(Debug, Clone)]
pub struct ReleaseInfo {
    pub tag_name: String,
    pub name: String,
    pub body: String,
    pub html_url: String,
    pub published_at: String,
    pub prerelease: bool,
    pub assets: Vec<ReleaseAsset>,
}

/// The outcome of an update check.
#[derive(Debug, Clone)]
pub enum UpdateCheckResult {
    NoUpdate,
    UpdateAvailable(ReleaseInfo),
    Error(String),
}

/// `s` with every leading occurrence of `c` removed.
pub open spec fn trim_start_char(s: Seq<char>, c: char) -> Seq<char>
    decreases s.len(),
{
    if s.len() > 0 && s[0] == c {
        trim_start_char(s.drop_first(), c)
    } else {
        s
    }
}

proof fn lemma_trim_start_prefix(s: Seq<char>, c: char, i: int)
    requires
        0 <= i <= s.len(),
        forall|j: int| 0 <= j < i ==> s[j] == c,
    ensures
        trim_start_char(s, c) == trim_start_char(s.skip(i), c),
    decreases i,
{
    if i > 0 {
        assert(s.drop_first().skip(i - 1) =~= s.skip(i));
        lemma_trim_start_prefix(s.drop_first(), c, i - 1);
    } else {
        assert(s.skip(0) =~= s);
    }
}

/// Removes every leading `c` from the characters of `s`.
pub fn trim_start_matches_char(s: &str, c: char) -> (r: String)
    ensures
        r@ == trim_start_char(s@, c),
{
    let cs = chars_of(s);
    let mut i: usize = 0;
    while i < cs.len() && cs[i] == c
        invariant
            i <= cs.len(),
            cs@ == s@,
            forall|j: int| 0 <= j < i ==> s@[j] == c,
        decreases cs.len() - i,
    {
        i += 1;
    }
    proof {
        lemma_trim_start_prefix(s@, c, i as int);
        assert(s@.skip(i as int) =~= cs@.subrange(i as int, cs.len() as int));
    }
    string_from_range(&cs, i, cs.len())
}

impl ReleaseInfo {
    /// The version string: the tag name without its leading `v` characters.
    pub fn version(&self) -> (r: String)
        ensures
            r@ == trim_start_char(self.tag_name@, 'v'),
    {
        trim_start_matches_char(self.tag_name.as_str(), 'v')
    }
}


#[verifier::external_type_specification]
#[verifier::external_body]
pub struct ExSemverVersion(semver::Version);

#[verifier::external_type_specification]
#[verifier::external_body]
pub struct ExSemverError(semver::Error);

/// Whether `semver::Version::parse` accepts the text.
pub uninterp spec fn semver_parses(text: Seq<char>) -> bool;

/// Whether the version parsed from `a` is greater than the one parsed from
/// `b` under `semver::Version`'s ordering (major, minor, patch, pre-release,
/// build metadata).
pub uninterp spec fn semver_greater(a: Seq<char>, b: Seq<char>) -> bool;

/// A semantic version together with the text it was parsed from.
pub struct ParsedVersion {
    version: semver::Version,
    text: String,
}

impl View for ParsedVersion {
    type V = Seq<char>;

    closed spec fn view(&self) -> Seq<char> {
        self.text@
    }
}

/// Calls `semver::Version::parse`; on success the value keeps the source
/// text, so that its view is the text it was parsed from. Claims that the
/// call succeeds exactly when `semver_parses` holds of the text.
#[verifier::external_body]
fn parse_semver(text: &str) -> (r: Result<ParsedVersion, semver::Error>)
    ensures
        r is Ok <==> semver_parses(text@),
        r matches Ok(v) ==> v@ == text@,
{
    match semver::Version::parse(text) {
        Ok(version) => Ok(ParsedVersion { version, text: text.to_string() }),
        Err(e) => Err(e),
    }
}

/// Calls `>` (`PartialOrd::gt`) on two `semver::Version`s. Claims the result
/// is `semver_greater` of their source texts; since the ordering is derived
/// (`#[derive(Ord, PartialOrd)]`), it is a strict total order: a version is
/// never greater than itself, and `a > b` excludes `b > a`.
#[verifier::external_body]
fn semver_gt(a: &ParsedVersion, b: &ParsedVersion) -> (r: bool)
    ensures
        r == semver_greater(a@, b@),
        a@ == b@ ==> !r,
        r ==> !semver_greater(b@, a@),
{
    a.version > b.version
}

/// Whether `remote` is a newer semantic version than `current`: both must
/// parse, and the remote one must be greater.
pub open spec fn newer_version(current: Seq<char>, remote: Seq<char>) -> bool {
    semver_parses(current) && semver_parses(remote) && semver_greater(remote, current)
}

/// Compares two semantic versions: true when `remote` is newer than
/// `current`. Text that does not parse as a version is never newer, nor
/// older than anything.
pub fn is_newer_version(current: &str, remote: &str) -> (r: bool)
    ensures
        r == newer_version(current@, remote@),
        current@ == remote@ ==> !r,
        r ==> !newer_version(remote@, current@),
{
    let c = parse_semver(current);
    let rm = parse_semver(remote);
    match (c, rm) {
        (Ok(curr), Ok(rem)) => semver_gt(&rem, &curr),
        _ => false,
    }
}


#[verifier::external_type_specification]
#[verifier::external_body]
pub struct ExSystemTime(std::time::SystemTime);

#[verifier::external_type_specification]
#[verifier::external_body]
pub struct ExSystemTimeError(std::time::SystemTimeError);

/// Reads the system clock (`std::time::SystemTime::now`). Nothing is
/// claimed of the value: it depends on the machine and the moment.
#[verifier::external_body]
fn system_time_now() -> std::time::SystemTime {
    std::time::SystemTime::now()
}

/// `SystemTime::duration_since(UNIX_EPOCH)`: the time elapsed since the Unix
/// epoch, or an error for a clock set before it. Nothing is claimed of the
/// value, which depends on the clock reading passed in.
#[verifier::external_body]
fn duration_since_unix_epoch(t: &std::time::SystemTime) -> Result<core::time::Duration, std::time::SystemTimeError> {
    t.duration_since(std::time::UNIX_EPOCH)
}

/// `Duration::as_secs`: the whole seconds of a duration. Nothing is claimed,
/// since the duration comes from the clock.
#[verifier::external_body]
fn duration_secs(d: &core::time::Duration) -> u64 {
    d.as_secs()
}

/// Seconds in a day: the minimum interval between two automatic checks.
pub const CHECK_INTERVAL_SECS: i64 = 86400;

/// The timestamp for a clock reading of `elapsed` whole seconds since the
/// Unix epoch (`None` for a clock set before it): 0 before the epoch, else
/// the seconds taken as an `i64` the way `as` converts them (wrapping
/// around past `i64::MAX`).
pub open spec fn timestamp_of(elapsed: Option<u64>) -> i64 {
    match elapsed {
        None => 0,
        Some(s) => if s <= i64::MAX {
            s as i64
        } else {
            (s - 0x1_0000_0000_0000_0000int) as i64
        },
    }
}

/// The timestamp for a clock reading (see `timestamp_of`).
pub fn timestamp_from_elapsed(elapsed: Option<u64>) -> (r: i64)
    ensures
        r == timestamp_of(elapsed),
{
    match elapsed {
        None => 0,
        Some(s) => {
            if s <= i64::MAX as u64 {
                s as i64
            } else {
                let high: u64 = s - 0x8000_0000_0000_0000u64;
                (high as i64) + i64::MIN
            }
        },
    }
}

/// The current Unix timestamp in seconds, or 0 when the clock reads before
/// the epoch (see `timestamp_of`). A clock reading is not a function of
/// anything the library holds, so nothing is promised of the value.
pub fn current_timestamp() -> i64 {
    let now = system_time_now();
    let elapsed = match duration_since_unix_epoch(&now) {
        Ok(d) => Some(duration_secs(&d)),
        Err(_) => None,
    };
    timestamp_from_elapsed(elapsed)
}

/// Whether a check is due at time `now` (Unix seconds) when the last one
/// ran at `last_check_timestamp`: at least 24 hours must have passed.
pub fn is_check_due(now: i64, last_check_timestamp: i64) -> (r: bool)
    ensures
        r == (now - last_check_timestamp >= CHECK_INTERVAL_SECS),
{
    let elapsed: i128 = now as i128 - last_check_timestamp as i128;
    elapsed >= CHECK_INTERVAL_SECS as i128
}

/// Whether a check is due at time `now` when the last one ran at `last`.
pub open spec fn check_due(now: i64, last: i64) -> bool {
    now - last >= CHECK_INTERVAL_SECS
}

/// Whether enough time (24 hours) has passed since the last check. Reads
/// the clock; the answer is the decision of `is_check_due` for the time
/// read.
pub fn should_check_now(last_check_timestamp: i64) -> (r: bool)
    ensures
        exists|now: i64| r == #[trigger] check_due(now, last_check_timestamp),
{
    let now = current_timestamp();
    let r = is_check_due(now, last_check_timestamp);
    assert(r == check_due(now, last_check_timestamp));
    r
}

/// Whether `v` equals one of the strings in `list`.
pub open spec fn contains_version(list: Seq<String>, v: Seq<char>) -> bool {
    exists|i: int| 0 <= i < list.len() && #[trigger] list[i]@ == v
}

/// What `check_for_updates` answers for a fetched release (or fetch error).
pub open spec fn update_decision(
    current_version: Seq<char>,
    fetched: Result<ReleaseInfo, String>,
    skipped_versions: Seq<String>,
) -> UpdateCheckResult {
    match fetched {
        Err(e) => UpdateCheckResult::Error(e),
        Ok(release) => {
            let remote = trim_start_char(release.tag_name@, 'v');
            if contains_version(skipped_versions, remote) {
                UpdateCheckResult::NoUpdate
            } else if newer_version(current_version, remote) {
                UpdateCheckResult::UpdateAvailable(release)
            } else {
                UpdateCheckResult::NoUpdate
            }
        },
    }
}

/// Decides what to tell the user about the latest release, given what the
/// release feed returned: a fetch error is passed on; a release whose version
/// the user chose to skip, or that is not newer than `current_version`, is
/// no update; otherwise the release is offered.
/// A skipped release is never offered, whichever entry of the skipped list
/// names it; a release is offered exactly when it is newer than the current
/// version and no entry names it, and then it is the fetched release; a
/// failed fetch is reported with its error.
pub proof fn lemma_update_offer(
    current_version: Seq<char>,
    fetched: Result<ReleaseInfo, String>,
    skipped_versions: Seq<String>,
)
    ensures
        fetched matches Ok(release) ==> {
            let remote = trim_start_char(release.tag_name@, 'v');
            &&& (exists|i: int| 0 <= i < skipped_versions.len() && #[trigger] skipped_versions[i]@ == remote)
                ==> update_decision(current_version, fetched, skipped_versions) is NoUpdate
            &&& (update_decision(current_version, fetched, skipped_versions) is UpdateAvailable <==> (
            newer_version(current_version, remote) && forall|i: int|
                0 <= i < skipped_versions.len() ==> #[trigger] skipped_versions[i]@ != remote))
            &&& update_decision(current_version, fetched, skipped_versions) is UpdateAvailable
                ==> update_decision(current_version, fetched, skipped_versions)->UpdateAvailable_0 == release
            &&& !(update_decision(current_version, fetched, skipped_versions) is Error)
        },
        fetched matches Err(e) ==> update_decision(current_version, fetched, skipped_versions) == UpdateCheckResult::Error(e),
{
}

pub fn check_for_updates(
    current_version: &str,
    fetched: Result<ReleaseInfo, String>,
    skipped_versions: &[String],
) -> (r: UpdateCheckResult)
    ensures
        r == update_decision(current_version@, fetched, skipped_versions@),
        fetched matches Ok(release) && (exists|i: int|
            0 <= i < skipped_versions@.len() && #[trigger] skipped_versions@[i]@ == trim_start_char(
                release.tag_name@,
                'v',
            )) ==> r is NoUpdate,
{
    proof {
        lemma_update_offer(current_version@, fetched, skipped_versions@);
    }
    let release = match fetched {
        Ok(r) => r,
        Err(e) => return UpdateCheckResult::Error(e),
    };
    let remote_version = release.version();
    let mut i: usize = 0;
    while i < skipped_versions.len()
        invariant
            i <= skipped_versions.len(),
            fetched == Ok::<ReleaseInfo, String>(release),
            remote_version@ == trim_start_char(release.tag_name@, 'v'),
            forall|j: int| 0 <= j < i ==> skipped_versions@[j]@ != remote_version@,
        decreases skipped_versions.len() - i,
    {
        if skipped_versions[i] == remote_version {
            assert(skipped_versions@[i as int]@ == remote_version@);
            assert(contains_version(skipped_versions@, remote_version@));

            return UpdateCheckResult::NoUpdate;
        }
        i += 1;
    }
    if is_newer_version(current_version, remote_version.as_str()) {
        UpdateCheckResult::UpdateAvailable(release)
    } else {
        UpdateCheckResult::NoUpdate
    }
}


/// The release feed's address for a repository: its latest release for
/// the stable channel, the list of all its releases for the beta channel.
pub open spec fn release_api_url_spec(owner: Seq<char>, repo: Seq<char>, channel: UpdateChannel) -> Seq<char> {
    let base = "https://api.github.com/repos/"@ + owner + "/"@ + repo + "/releases"@;
    match channel {
        UpdateChannel::Stable => base + "/latest"@,
        UpdateChannel::Beta => base,
    }
}

/// The release feed's address (see `release_api_url_spec`).
pub fn release_api_url(owner: &str, repo: &str, channel: UpdateChannel) -> (r: String)
    ensures
        r@ == release_api_url_spec(owner@, repo@, channel),
{
    let mut s = String::new();
    append_str(&mut s, "https://api.github.com/repos/");
    append_str(&mut s, owner);
    append_str(&mut s, "/");
    append_str(&mut s, repo);
    append_str(&mut s, "/releases");
    if channel == UpdateChannel::Stable {
        append_str(&mut s, "/latest");
    }
    s
}

/// The release the beta channel offers: the first (most recent) of the
/// list, or an error when the list is empty.
pub fn first_release(releases: Vec<ReleaseInfo>) -> (r: Result<ReleaseInfo, String>)
    ensures
        releases@.len() > 0 ==> r == Ok::<ReleaseInfo, String>(releases@[0]),
        releases@.len() == 0 ==> (r matches Err(e) && e@ == "No releases found"@),
{
    let mut releases = releases;
    if releases.len() == 0 {
        let mut e = String::new();
        append_str(&mut e, "No releases found");
        Err(e)
    } else {
        Ok(releases.remove(0))
    }
}

} // verus!
