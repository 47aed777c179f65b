use release_index::asset::{Asset, AssetDto};
use release_index::error::GitHubApiError;
use release_index::os::OsKind;
use release_index::release::{CachedReleases, Release, SemVer};

fn plain_asset(name: &str) -> Asset {
    let mut v = Asset::assets_from_dtos(vec![AssetDto::new(
        name.to_string(),
        format!("https://example.invalid/{}", name),
    )]);
    v.remove(0)
}

fn release(version: &str, entries: Vec<(OsKind, Asset)>) -> Release {
    Release::new(version.to_string(), 1_600_000_000, false, entries)
}

#[test]
fn getters_return_what_was_stored() {
    let r = Release::new("v0.8.18".to_string(), 42, true, Vec::new());
    assert_eq!(r.version_str(), "v0.8.18");
    assert_eq!(r.released_date(), 42);
    assert!(r.prerelease());
    assert!(r.assets().is_empty());
    assert!(r.releases_per_os().is_empty());
}

#[test]
fn version_parses_after_stripping_the_marker() {
    let r = release("v1.2.3", Vec::new());
    assert_eq!(
        r.version(),
        Some(SemVer { major: 1, minor: 2, patch: 3 })
    );
}

#[test]
fn version_fails_on_malformed_remainder() {
    assert_eq!(release("vnot-a-version", Vec::new()).version(), None);
    // Without a marker the first digit is stripped, and ".2.3" is not valid.
    assert_eq!(release("1.2.3", Vec::new()).version(), None);
    assert_eq!(release("", Vec::new()).version(), None);
}

#[test]
fn resolves_artifact_for_a_linux_distribution() {
    let r = release(
        "v1.2.3",
        vec![(OsKind::Linux, plain_asset("tool-linux.tar.gz"))],
    );
    let a = r.get_release_for_os(OsKind::Ubuntu).expect("artifact expected");
    assert_eq!(a.name(), "tool-linux.tar.gz");
}

#[test]
fn missing_os_bucket_is_none_not_error() {
    let r = release(
        "v1.2.3",
        vec![(OsKind::Macos, plain_asset("tool-macos.tar.gz"))],
    );
    assert!(r.get_release_for_os(OsKind::Ubuntu).is_none());
    let idx = CachedReleases::new(vec![r]);
    let resolved = idx
        .get_asset_for_os_by_version("v1.2.3".to_string(), OsKind::Ubuntu)
        .expect("version exists, so no error");
    assert!(resolved.is_none());
}

#[test]
fn last_entry_wins_for_a_repeated_bucket() {
    let r = release(
        "v1.2.3",
        vec![
            (OsKind::Linux, plain_asset("first-linux.tar.gz")),
            (OsKind::Linux, plain_asset("second-linux.tar.gz")),
        ],
    );
    let a = r.get_release_for_os(OsKind::Debian).expect("artifact expected");
    assert_eq!(a.name(), "second-linux.tar.gz");
}

#[test]
fn find_by_version_requires_the_exact_string() {
    let idx = CachedReleases::new(vec![release(
        "1.2.3",
        vec![(OsKind::Linux, plain_asset("tool-linux.tar.gz"))],
    )]);
    let r = idx.get_asset_for_os_by_version("v1.2.3".to_string(), OsKind::Ubuntu);
    match r {
        Err(GitHubApiError::CannotFindReleaseWithVersion(v)) => assert_eq!(v, "v1.2.3"),
        other => panic!("expected CannotFindReleaseWithVersion, got {:?}", other),
    }
}

#[test]
fn first_matching_release_is_used() {
    let idx = CachedReleases::new(vec![
        release("v2.0.0", vec![(OsKind::Linux, plain_asset("new-linux.tar.gz"))]),
        release("v1.0.0", vec![(OsKind::Linux, plain_asset("old-linux.tar.gz"))]),
    ]);
    let a = idx
        .get_asset_for_os_by_version("v1.0.0".to_string(), OsKind::Fedora)
        .expect("version exists")
        .expect("artifact expected");
    assert_eq!(a.name(), "old-linux.tar.gz");
    assert_eq!(idx.releases().len(), 2);
    assert_eq!(idx.releases()[0].version_str(), "v2.0.0");
}
