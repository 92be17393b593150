use project_dots::state::{timestamp_text, State};

#[test]
fn track_package_should_flag_preexisting_as_protected() {
    let mut state = State::default();
    state.track_package("git", "lazyvim-minimal", true);

    let record = state
        .packages
        .get("git")
        .expect("Package 'git' should be present in state tracking");

    assert!(record.was_preexisting);
    assert!(!record.installed_by_dots);
    assert_eq!(record.category, "lazyvim-minimal");

    state.remove_package("git");
    assert!(!state.packages.contains_key("git"));
}

use project_dots::steps::{finish_category_install, record_package_install, PackageStep};

#[test]
fn dry_run_mode_must_not_modify_state_or_track_packages() {
    let mut state = State::default();
    record_package_install(&mut state, "opencode", "opencode", &PackageStep::AlreadyInstalled, true, true);
    finish_category_install(&mut state, "opencode", true);
    assert_eq!(state.packages.len(), 0, "dry_run MUST NOT track packages in state");
    assert_eq!(state.applied_categories.len(), 0, "dry_run MUST NOT mark categories as applied in state");
}

#[test]
fn applied_categories_are_marked_and_unmarked() {
    let mut state = State::default();
    state.mark_category_applied("zsh-tokyonight");
    assert!(state.is_category_applied("zsh-tokyonight"));
    state.unmark_category_applied("zsh-tokyonight");
    assert!(!state.is_category_applied("zsh-tokyonight"));
}

#[test]
fn state_path_is_under_home() {
    assert_eq!(State::get_state_path(Some("/home/u")), "/home/u/.local/state/dotss/state.toml");
    assert_eq!(State::get_state_path(None), "./.local/state/dotss/state.toml");
}

#[test]
fn tracked_timestamp_is_recorded() {
    let mut state = State::default();
    state.track_package("zsh", "zsh-tokyonight", false);
    let r = state.packages.get("zsh").unwrap();
    assert!(r.installed_by_dots);
    let inner = r.installed_at.strip_prefix("Timestamp(").and_then(|t| t.strip_suffix(')')).unwrap();
    assert!(!inner.is_empty() && inner.chars().all(|c| c.is_ascii_digit()));
}

#[test]
fn timestamp_text_writes_the_seconds() {
    assert_eq!(timestamp_text(1770925685), "Timestamp(1770925685)");
    assert_eq!(timestamp_text(0), "Timestamp(0)");
}
