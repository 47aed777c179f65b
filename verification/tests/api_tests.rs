use release_index::api::{rate_limit_exhausted, GitHubApi};

#[test]
fn new_points_at_the_default_repository() {
    let api = GitHubApi::new();
    assert_eq!(
        api.base_url(),
        "https://api.github.com/repos/input-output-hk/jormungandr"
    );
}

#[test]
fn default_matches_new() {
    assert_eq!(GitHubApi::default().base_url(), GitHubApi::new().base_url());
}

#[test]
fn for_crate_points_at_the_given_repository() {
    let api = GitHubApi::for_crate("https://api.github.com/repos/acme/tool");
    assert_eq!(api.base_url(), "https://api.github.com/repos/acme/tool");
}

#[test]
fn endpoint_url_joins_with_a_slash() {
    let api = GitHubApi::for_crate("https://api.github.com/repos/acme/tool");
    assert_eq!(
        api.endpoint_url("releases"),
        "https://api.github.com/repos/acme/tool/releases"
    );
}

#[test]
fn rate_limit_is_exhausted_only_at_zero() {
    assert!(rate_limit_exhausted(Some("0")));
    assert!(!rate_limit_exhausted(Some("1")));
    assert!(!rate_limit_exhausted(Some("00")));
    assert!(!rate_limit_exhausted(Some("")));
    assert!(!rate_limit_exhausted(None));
}
