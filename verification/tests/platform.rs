use project_dots::platform::{check_apt_lock, platform_filter_matches, platform_matches, Platform};

#[test]
fn detect_prefers_termux_then_debian_markers() {
    assert_eq!(Platform::detect(true, false, true, None), Platform::Termux);
    assert_eq!(Platform::detect(false, true, false, None), Platform::Termux);
    assert_eq!(Platform::detect(false, false, true, None), Platform::Debian);
    assert_eq!(Platform::detect(false, false, false, Some("NAME=Ubuntu\nID=ubuntu\n")), Platform::Debian);
    assert_eq!(Platform::detect(false, false, false, Some("ID=linuxmint\nID_LIKE=Debian\n")), Platform::Debian);
    assert_eq!(
        Platform::detect(false, false, false, Some("ID=fedora\n")),
        Platform::Unsupported("Unknown Linux/POSIX system".to_string())
    );
}

#[test]
fn package_status_comes_from_dpkg_output() {
    assert!(Platform::Debian.is_package_installed(Some("installed\n")));
    assert!(!Platform::Debian.is_package_installed(Some("not-installed")));
    assert!(!Platform::Termux.is_package_installed(None));
    assert!(!Platform::Unsupported("x".to_string()).is_package_installed(Some("installed")));
}

#[test]
fn platform_names_and_filters() {
    assert!(platform_matches("Debian", &Platform::Debian));
    assert!(platform_matches("TERMUX", &Platform::Termux));
    assert!(!platform_matches("debian", &Platform::Termux));
    assert!(platform_filter_matches(&None, &Platform::Termux));
    assert!(!platform_filter_matches(&Some("debian".to_string()), &Platform::Termux));
}

#[test]
fn apt_lock_is_busy_only_with_a_holder() {
    assert!(check_apt_lock(false, true, true).is_ok());
    assert!(check_apt_lock(true, false, true).is_ok());
    assert!(check_apt_lock(true, true, false).is_ok());
    assert_eq!(
        check_apt_lock(true, true, true),
        Err("apt package manager is locked by another process (e.g. background update).".to_string())
    );
}
