use project_dots::cli::{add_target, preprocess_args, remove_target, version_tag};

fn strings(items: &[&str]) -> Vec<String> {
    items.iter().map(|s| s.to_string()).collect()
}

#[test]
fn short_hidden_spellings_are_refused() {
    assert_eq!(
        preprocess_args(strings(&["dotss", "list", "--sh"])),
        Err("unexpected argument found for 'list'. Use '-sh' or '--show-hidden'.".to_string())
    );
    assert!(preprocess_args(strings(&["dotss", "list", "-s"])).is_err());
}

#[test]
fn categories_flag_is_rewritten() {
    assert_eq!(
        preprocess_args(strings(&["dotss", "list", "-ca", "-sh"])),
        Ok(strings(&["dotss", "list", "--categories", "-sh"]))
    );
}

#[test]
fn version_tags_and_targets() {
    assert_eq!(version_tag("0.1.0"), "v0.1.0");
    assert_eq!(version_tag("v0.1.0"), "v0.1.0");
    assert_eq!(add_target("all"), None);
    assert_eq!(add_target("zsh"), Some("zsh"));
    assert_eq!(remove_target(Some("all"), false), Ok(None));
    assert_eq!(remove_target(None, true), Ok(None));
    assert_eq!(remove_target(Some("zsh"), false), Ok(Some("zsh")));
    assert!(remove_target(None, false).is_err());
}
