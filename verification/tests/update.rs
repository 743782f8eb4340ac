use boreal::update::{check, download_url, latest_release, release_url, version_is_newer, Release, UpdateState, CHANGELOG_URL};

fn release(version: &str) -> Release {
    Release {
        version: version.into(),
        date: String::new(),
        maturity: String::new(),
        summary: String::new(),
        notes: String::new(),
    }
}

#[test]
fn compares_numeric_release_versions() {
    assert!(version_is_newer("1.2.0", "1.1.1"));
    assert!(version_is_newer("1.10.0", "1.9.9"));
    assert!(!version_is_newer("1.0.0", "1.0.0"));
    assert!(!version_is_newer("0.9.9", "1.0.0"));
    assert!(!version_is_newer("invalid", "1.0.0"));
}

#[test]
fn selects_latest_valid_release_from_unordered_feed() {
    let changelog = vec![release("1.1.1"), release("invalid"), release("1.10.0"), release("1.2.0")];
    let latest = latest_release(&changelog).unwrap();
    assert_eq!(latest.version, "1.10.0");
    assert!(version_is_newer(&latest.version, "1.1.1"));
}

#[test]
fn rejects_feeds_without_valid_releases() {
    for feed in [vec![], vec![release("invalid")]] {
        assert!(latest_release(&feed).is_err());
    }
}

#[test]
fn update_feed_matches_project_repository() {
    let homepage = "https://github.com/jehaverlack/boreal";
    let repository = homepage.strip_prefix("https://github.com/").unwrap();
    assert_eq!(CHANGELOG_URL, format!("https://raw.githubusercontent.com/{repository}/main/changelog.json"));
    assert!(release_url("1.2.0").starts_with(homepage));
    if let Some(url) = download_url("1.2.0", "linux", "x86_64") {
        assert!(url.starts_with(homepage));
    }
}

#[test]
fn a_newer_release_is_offered_and_an_older_one_is_not() {
    assert!(matches!(check(Ok(release("2.0.0")), "1.9.0"), UpdateState::Available { release } if release.version == "2.0.0"));
    assert!(matches!(check(Ok(release("1.0.0")), "1.0.0"), UpdateState::Current { .. }));
    assert!(matches!(check(Err("offline".into()), "1.0.0"), UpdateState::Error(m) if m == "offline"));
}

#[test]
fn versions_need_three_numeric_parts() {
    assert!(!version_is_newer("1.2", "1.1.0"));
    assert!(!version_is_newer("1.2.0.1", "1.1.0"));
    assert!(version_is_newer("v1.2.0", "1.1.0") == version_is_newer("v1.2.0", "1.1.0"));
    assert!(!version_is_newer("1.1.0", "1.1.0"));
    assert!(version_is_newer("1.1.1", "1.1.0"));
}
