use project_dots::platform::Platform;
use project_dots::update::{
    is_newer_version, is_yes, plan_update, release_tag_from_body, resolve_asset_name, semver_greater,
    uninstall_removes_everything, UpdatePlan,
};

#[test]
fn newer_version_should_return_true_for_higher_beta() {
    assert!(is_newer_version("v0.1.0-beta.2", "0.1.0-beta.1"));
}

#[test]
fn newer_version_should_return_false_for_same_version() {
    assert!(!is_newer_version("v0.1.0-beta.1", "0.1.0-beta.1"));
}

#[test]
fn newer_version_should_return_false_for_older_version() {
    assert!(!is_newer_version("v0.0.9", "0.1.0-beta.1"));
}

#[test]
fn asset_name_should_match_debian_x86_64_triple() {
    let asset = resolve_asset_name(&Platform::Debian).unwrap();
    assert_eq!(asset, "project-dots-x86_64-unknown-linux-gnu.tar.gz");
}

#[test]
fn asset_name_should_match_termux_aarch64_triple() {
    let asset = resolve_asset_name(&Platform::Termux).unwrap();
    assert_eq!(asset, "project-dots-aarch64-unknown-linux-musl.tar.gz");
}

#[test]
fn asset_name_refuses_unsupported_platform() {
    assert!(resolve_asset_name(&Platform::Unsupported("x".to_string())).is_err());
}

#[test]
fn semver_orders_releases_after_betas() {
    assert!(semver_greater("1.0.0", "1.0.0-beta.9"));
    assert!(!semver_greater("1.0.0-beta.9", "1.0.0"));
    assert!(semver_greater("1.10.0", "1.9.0"));
    assert!(!semver_greater("1.0.0", "1.0.0"));
}

#[test]
fn a_release_is_newer_than_all_of_its_pre_releases() {
    assert!(!is_newer_version("v0.1.0-beta.1000", "0.1.0"));
    assert!(!is_newer_version("v0.1.0-beta.999", "0.1.0"));
    assert!(is_newer_version("v0.1.0", "0.1.0-beta.1000"));
    assert!(is_newer_version("v0.1.1-beta.1", "0.1.0"));
    assert!(!semver_greater("1.0.0-beta.1000", "1.0.0"));
    assert!(semver_greater("1.0.0-beta.10", "1.0.0-beta.9"));
}

#[test]
fn release_tag_is_read_from_the_response() {
    let body = "{\"url\":\"x\",\"tag_name\": \"v1.2.3\",\"name\":\"r\"}";
    assert_eq!(release_tag_from_body(body), Some("v1.2.3".to_string()));
    assert_eq!(release_tag_from_body("{\"name\":\"r\"}"), None);
}

#[test]
fn update_plan_downloads_newer_release() {
    let plan = plan_update("0.1.0", Some("v0.2.0".to_string()), &Platform::Debian, "o/r").unwrap();
    match plan {
        UpdatePlan::Download { latest_tag, asset, url } => {
            assert_eq!(latest_tag, "v0.2.0");
            assert_eq!(asset, "project-dots-x86_64-unknown-linux-gnu.tar.gz");
            assert!(url.ends_with("/v0.2.0/project-dots-x86_64-unknown-linux-gnu.tar.gz"));
        }
        _ => panic!("expected a download"),
    }
    let same = plan_update("0.2.0", Some("v0.2.0".to_string()), &Platform::Debian, "o/r").unwrap();
    assert!(matches!(same, UpdatePlan::UpToDate { .. }));
}

#[test]
fn yes_answers_and_uninstall_choice() {
    assert!(is_yes(" Yes \n"));
    assert!(is_yes("y"));
    assert!(!is_yes("no"));
    assert!(!is_yes(""));
    assert!(!uninstall_removes_everything(true, true, Some("y")));
    assert!(uninstall_removes_everything(true, false, None));
    assert!(uninstall_removes_everything(false, false, Some("YES")));
    assert!(!uninstall_removes_everything(false, false, None));
}
