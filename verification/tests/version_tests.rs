use rwr_toolbox::version::ReleaseInfo;
use rwr_toolbox::version::VersionCheckSettings;
use rwr_toolbox::version::evaluate_release;
use rwr_toolbox::version::extract_version_from_tag;
use rwr_toolbox::version::first_stable_release;
use rwr_toolbox::version::is_newer_version;

#[test]
fn test_extract_version_from_tag() {
    assert_eq!(extract_version_from_tag("v0.1.0"), Some("0.1.0".to_string()));
    assert_eq!(
        extract_version_from_tag("v0.1.0-fix-query"),
        Some("0.1.0".to_string())
    );
    assert_eq!(extract_version_from_tag("0.1.0"), Some("0.1.0".to_string()));
    assert_eq!(extract_version_from_tag("invalid"), None);
}

#[test]
fn test_is_newer_version() {
    assert!(is_newer_version("0.1.0", "0.2.0"));
    assert!(!is_newer_version("0.2.0", "0.1.0"));
    assert!(!is_newer_version("0.1.0", "0.1.0"));
    assert!(!is_newer_version("invalid", "0.2.0"));
    assert!(!is_newer_version("0.1.0", "invalid"));
    // numeric precedence, not text order
    assert!(is_newer_version("0.9.0", "0.10.0"));
}

#[test]
fn evaluate_release_reports_update() {
    let settings = VersionCheckSettings::default();
    let release = ReleaseInfo {
        tag_name: "v0.2.0".to_string(),
        html_url: "https://example.invalid/releases/0.2.0".to_string(),
        prerelease: false,
    };
    let status = evaluate_release("0.1.0".to_string(), &settings, &release, 1000);
    assert_eq!(status.available_version, Some("0.2.0".to_string()));
    assert!(status.is_available);
    assert_eq!(status.last_checked, "1000".to_string());
    assert_eq!(status.error, None);
}

#[test]
fn evaluate_release_honors_dismissal() {
    let mut settings = VersionCheckSettings::default();
    settings.dismissed_version = "0.2.0".to_string();
    let release = ReleaseInfo {
        tag_name: "v0.2.0".to_string(),
        html_url: "https://example.invalid/releases/0.2.0".to_string(),
        prerelease: false,
    };
    let status = evaluate_release("0.1.0".to_string(), &settings, &release, 1000);
    assert!(!status.is_available);
}

#[test]
fn evaluate_release_bad_tag() {
    let settings = VersionCheckSettings::default();
    let release = ReleaseInfo {
        tag_name: "nightly".to_string(),
        html_url: "https://example.invalid/releases/nightly".to_string(),
        prerelease: false,
    };
    let status = evaluate_release("0.1.0".to_string(), &settings, &release, 7);
    assert!(!status.is_available);
    assert_eq!(status.available_version, None);
    assert_eq!(
        status.error,
        Some("Failed to parse version from tag: nightly".to_string())
    );
}

#[test]
fn first_stable_release_skips_prereleases() {
    let releases = vec![
        ReleaseInfo {
            tag_name: "v0.3.0-rc1".to_string(),
            html_url: "u1".to_string(),
            prerelease: true,
        },
        ReleaseInfo {
            tag_name: "v0.2.0".to_string(),
            html_url: "u2".to_string(),
            prerelease: false,
        },
    ];
    let r = first_stable_release(&releases).unwrap();
    assert_eq!(r.tag_name, "v0.2.0".to_string());
    assert!(first_stable_release(&Vec::new()).is_none());
}
