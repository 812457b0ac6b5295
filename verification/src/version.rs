//! Release version handling: reading a version out of a release tag,
//! deciding whether a remote release is newer, and assembling the update
//! status from a fetched release. Version syntax and precedence are the
//! semantic-versioning crate's; its calls stand behind trusted items.

use vstd::prelude::*;

use crate::weapons::opt_str;
use crate::weapons::push_str_chars;

verus! {

/// Whether a text is a well-formed semantic version. Names what
/// `semver::Version::parse` accepts; no contract states its shape.
pub uninterp spec fn is_semver(s: Seq<char>) -> bool;

/// Semantic-version precedence over two well-formed version texts:
/// whether the first names an earlier version than the second. Names
/// what `Ord for semver::Version` decides, a function of the two texts
/// alone.
pub uninterp spec fn semver_precedes(a: Seq<char>, b: Seq<char>) -> bool;

#[verifier::external_type_specification]
#[verifier::external_body]
pub struct ExVersion(semver::Version);

/// Relies on `semver::Version::parse`: it returns `Ok` exactly on
/// well-formed semantic versions, which `is_semver` names.
#[verifier::external_body]
fn parse_semver(s: &str) -> (r: Option<semver::Version>)
    ensures
        r is Some <==> is_semver(s@),
{
    semver::Version::parse(s).ok()
}

/// Relies on `semver::Version::parse` (accepts exactly what `is_semver`
/// names) to convert the two texts, and on `Ord for semver::Version`,
/// whose semantic-version precedence `semver_precedes` names; a text
/// that does not parse on either side makes the answer false.
#[verifier::external_body]
fn semver_text_precedes(a: &str, b: &str) -> (r: bool)
    ensures
        r == (is_semver(a@) && is_semver(b@) && semver_precedes(a@, b@)),
{
    match (semver::Version::parse(a), semver::Version::parse(b)) {
        (Ok(va), Ok(vb)) => va < vb,
        _ => false,
    }
}

/// Settings persisted for version checking.
pub struct VersionCheckSettings {
    pub last_checked: String,
    pub check_frequency: String,
    pub dismissed_version: String,
    pub last_seen_version: String,
}

impl Default for VersionCheckSettings {
    /// The initial settings: never checked, weekly frequency, nothing
    /// dismissed or seen.
    fn default() -> (r: Self)
        ensures
            r.last_checked@ == "0"@,
            r.check_frequency@ == "weekly"@,
            r.dismissed_version@ == Seq::<char>::empty(),
            r.last_seen_version@ == Seq::<char>::empty(),
    {
        VersionCheckSettings {
            last_checked: String::from_str("0"),
            check_frequency: String::from_str("weekly"),
            dismissed_version: String::new(),
            last_seen_version: String::new(),
        }
    }
}

/// The update verdict reported to the caller.
pub struct UpdateStatus {
    pub current_version: String,
    pub available_version: Option<String>,
    pub is_available: bool,
    pub release_url: Option<String>,
    pub last_checked: String,
    pub error: Option<String>,
}

/// One fetched release, reduced to what the decision needs.
pub struct ReleaseInfo {
    pub tag_name: String,
    pub html_url: String,
    pub prerelease: bool,
}

/// The version part of a release tag: the text after one optional
/// leading `v`, up to the first `-`.
pub open spec fn g_version_part(tag: Seq<char>) -> Seq<char> {
    let body = if tag.len() > 0 && tag[0] == 'v' {
        tag.subrange(1, tag.len() as int)
    } else {
        tag
    };
    match crate::text::first_match(body, "-"@, 0) {
        Some(i) => body.subrange(0, i),
        None => body,
    }
}

/// Extracts the version number from a release tag: the tag without its
/// leading `v` and anything from the first `-` on, accepted exactly when
/// that part is a well-formed semantic version.
pub fn extract_version_from_tag(tag: &str) -> (r: Option<String>)
    ensures
        match r {
            Some(v) => v@ == g_version_part(tag@) && is_semver(g_version_part(tag@)),
            None => !is_semver(g_version_part(tag@)),
        },
{
    let chars = crate::text::str_chars(tag);
    let nchars = chars.len();
    let body: Vec<char> = if chars.len() > 0 && chars[0] == 'v' {
        crate::text::slice_chars(&chars, 1, nchars)
    } else {
        proof {
            assert(chars@.subrange(0, chars@.len() as int) =~= chars@);
        }
        crate::text::slice_chars(&chars, 0, nchars)
    };
    let dash = crate::text::str_chars("-");
    proof {
        reveal_strlit("-");
        assert(dash@.len() == 1);
    }
    let nbody = body.len();
    let part: Vec<char> = match crate::text::find_sub(&body, &dash, 0) {
        Some(i) => crate::text::slice_chars(&body, 0, i),
        None => {
            proof {
                assert(body@.subrange(0, body@.len() as int) =~= body@);
            }
            crate::text::slice_chars(&body, 0, nbody)
        },
    };
    let part_str = crate::text::chars_to_string(&part);
    match parse_semver(part_str.as_str()) {
        Some(_) => Some(part_str),
        None => None,
    }
}

/// Decides whether `remote` names a newer release than `current`: yes
/// exactly when both texts are well-formed versions and the current one
/// precedes the remote one under semantic-version precedence.
pub fn is_newer_version(current: &str, remote: &str) -> (r: bool)
    ensures
        r == (is_semver(current@) && is_semver(remote@) && semver_precedes(current@, remote@)),
{
    semver_text_precedes(current, remote)
}

/// Builds the update status for a fetch that failed: no availability,
/// the failure kept, the last-checked stamp unchanged.
pub fn status_fetch_failed(
    current_version: String,
    settings: &VersionCheckSettings,
    error: String,
) -> (r: UpdateStatus)
    ensures
        r.current_version@ == current_version@,
        r.available_version is None,
        r.is_available == false,
        r.release_url is None,
        r.last_checked@ == settings.last_checked@,
        opt_str(r.error) == Some(error@),
{
    UpdateStatus {
        current_version,
        available_version: None,
        is_available: false,
        release_url: None,
        last_checked: settings.last_checked.clone(),
        error: Some(error),
    }
}

/// Builds the update status for an unreadable release tag.
pub fn status_bad_tag(current_version: String, tag: &str, now_secs: u64) -> (r: UpdateStatus)
    ensures
        r.current_version@ == current_version@,
        r.available_version is None,
        r.is_available == false,
        r.release_url is None,
        r.last_checked@ == crate::text::dec_of(now_secs as nat),
        opt_str(r.error) == Some("Failed to parse version from tag: "@ + tag@),
{
    let mut out: Vec<char> = Vec::new();
    push_str_chars(&mut out, "Failed to parse version from tag: ");
    push_str_chars(&mut out, tag);
    proof {
        assert(Seq::<char>::empty() + "Failed to parse version from tag: "@
            =~= "Failed to parse version from tag: "@);
    }
    UpdateStatus {
        current_version,
        available_version: None,
        is_available: false,
        release_url: None,
        last_checked: crate::text::u64_to_dec(now_secs),
        error: Some(crate::text::chars_to_string(&out)),
    }
}

/// Assembles the update status from a fetched release: an update is
/// available exactly when the release's version is newer than the
/// current one and the user has not dismissed it.
pub fn evaluate_release(
    current_version: String,
    settings: &VersionCheckSettings,
    release: &ReleaseInfo,
    now_secs: u64,
) -> (r: UpdateStatus)
    ensures
        r.current_version@ == current_version@,
        r.last_checked@ == crate::text::dec_of(now_secs as nat),
        !is_semver(g_version_part(release.tag_name@)) ==> (r.available_version is None
            && r.release_url is None),
        is_semver(g_version_part(release.tag_name@)) ==> (opt_str(r.available_version) == Some(
            g_version_part(release.tag_name@),
        ) && opt_str(r.release_url) == Some(release.html_url@) && r.error is None),
        r.is_available == (is_semver(g_version_part(release.tag_name@)) && is_semver(
            current_version@,
        ) && semver_precedes(current_version@, g_version_part(release.tag_name@))
            && settings.dismissed_version@ != g_version_part(release.tag_name@)),
{
    let latest = match extract_version_from_tag(release.tag_name.as_str()) {
        Some(v) => v,
        None => {
            return status_bad_tag(current_version, release.tag_name.as_str(), now_secs);
        },
    };
    let newer = is_newer_version(current_version.as_str(), latest.as_str());
    let dismissed = crate::text::str_eq(
        settings.dismissed_version.as_str(),
        latest.as_str(),
    );
    UpdateStatus {
        current_version,
        available_version: Some(latest.clone()),
        is_available: newer && !dismissed,
        release_url: Some(release.html_url.clone()),
        last_checked: crate::text::u64_to_dec(now_secs),
        error: None,
    }
}

/// The first non-prerelease entry of a release list, if any.
pub fn first_stable_release(releases: &Vec<ReleaseInfo>) -> (r: Option<ReleaseInfo>)
    ensures
        match r {
            Some(rel) => exists|i: int|
                0 <= i < releases@.len() && !(#[trigger] releases@[i]).prerelease && rel.tag_name@
                    == releases@[i].tag_name@ && rel.html_url@ == releases@[i].html_url@ && (forall|
                    j: int,
                |
                    0 <= j < i ==> (#[trigger] releases@[j]).prerelease),
            None => forall|i: int| 0 <= i < releases@.len() ==> (#[trigger] releases@[i]).prerelease,
        },
{
    let mut i: usize = 0;
    while i < releases.len()
        invariant
            i <= releases@.len(),
            forall|j: int| 0 <= j < i ==> (#[trigger] releases@[j]).prerelease,
        decreases releases.len() - i,
    {
        if !releases[i].prerelease {
            let rel = ReleaseInfo {
                tag_name: releases[i].tag_name.clone(),
                html_url: releases[i].html_url.clone(),
                prerelease: false,
            };
            proof {
                assert(!releases@[i as int].prerelease && rel.tag_name@ == releases@[
                    i as int
                ].tag_name@ && rel.html_url@ == releases@[i as int].html_url@);
            }
            return Some(rel);
        }
        i = i + 1;
    }
    None
}

} // verus!
