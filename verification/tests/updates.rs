use shrinkpub_core::updates::{
    check_release_url, is_newer, normalize, release_status, release_update, ReleaseStatus,
};

#[test]
fn compares_versions_numerically() {
    assert!(is_newer("v1.10.0", "1.9.0"));
    assert!(is_newer("0.2.0", "0.1.0"));
    assert!(is_newer("1.0.1", "1.0.0"));
    assert!(!is_newer("1.2", "1.2.0")); // equal
    assert!(!is_newer("1.0.0", "1.0.0"));
    assert!(!is_newer("0.9.0", "1.0.0"));
}

#[test]
fn version_suffixes_and_junk_are_ignored() {
    assert!(!is_newer("1.2.0-beta", "1.2.0"));
    assert!(!is_newer("1.2.0+build7", "1.2.0"));
    assert!(is_newer("2.x", "1.9"));
    assert!(!is_newer("1.x", "1.0"));
    assert!(is_newer("1.99999999999999999999", "1.0") == false);
    assert!(is_newer("VV3", "2.9.9"));
}

#[test]
fn normalize_drops_leading_vs() {
    assert_eq!(normalize("v1.2.3"), "1.2.3");
    assert_eq!(normalize("Vv2.0"), "2.0");
    assert_eq!(normalize("1.0"), "1.0");
    assert_eq!(normalize("version"), "ersion");
}

#[test]
fn releases_are_offered_only_when_newer() {
    let info = release_update(
        "v2.1.0",
        "https://example.com/r".to_string(),
        Some("Fixes".to_string()),
        false,
        "2.0.0",
    )
    .unwrap();
    assert_eq!(info.version, "2.1.0");
    assert_eq!(info.url, "https://example.com/r");
    assert_eq!(info.notes.as_deref(), Some("Fixes"));

    let blank = release_update("v3", "u".to_string(), Some(" \n\t".to_string()), false, "2.0.0");
    assert!(blank.unwrap().notes.is_none());
    assert!(release_update("v3", "u".to_string(), None, true, "2.0.0").is_none());
    assert!(release_update("v2.0", "u".to_string(), None, false, "2.0.0").is_none());
}

#[test]
fn release_statuses_are_read() {
    assert_eq!(
        release_status(404),
        ReleaseStatus::Failed("GitHub returned HTTP 404".to_string())
    );
    assert_eq!(release_status(200), ReleaseStatus::Found);
    assert_eq!(
        release_status(503),
        ReleaseStatus::Failed("GitHub returned HTTP 503".to_string())
    );
}

#[test]
fn only_web_urls_may_be_opened() {
    assert!(check_release_url("https://github.com/x").is_ok());
    assert!(check_release_url("HTTP://example.com").is_ok());
    assert_eq!(
        check_release_url("file:///etc/passwd"),
        Err("Only http(s) URLs may be opened".to_string())
    );
    assert!(check_release_url("http:/").is_err());
}
