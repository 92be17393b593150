use project_dots::terminal::{dir_in_path, pager_is_less, terminal_width};

#[test]
fn terminal_width_prefers_columns_then_tput() {
    assert_eq!(terminal_width(Some("120"), Some("90\n")), 120);
    assert_eq!(terminal_width(Some("10"), Some(" 90\n")), 90);
    assert_eq!(terminal_width(Some(" 120"), None), 80);
    assert_eq!(terminal_width(None, Some("abc")), 80);
    assert_eq!(terminal_width(None, None), 80);
}

#[test]
fn pager_and_path_checks() {
    assert!(pager_is_less("less"));
    assert!(pager_is_less("/usr/bin/less"));
    assert!(!pager_is_less("more"));
    assert!(dir_in_path("/usr/bin:/home/u/.local/bin", "/home/u/.local/bin"));
    assert!(!dir_in_path("/usr/bin:/home/u/.local/bin/", "/home/u/.local/bin"));
}
