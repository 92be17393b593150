use project_dots::config::{Category, Config};
use project_dots::steps::InstallError;
use project_dots::walk::{category_walk, Visit};

fn category(description: &str) -> Category {
    Category {
        description: description.to_string(),
        aliases: None,
        display_packages: None,
        debian_packages: None,
        termux_packages: None,
        custom: None,
        copy_files: None,
        post_install_commands: None,
        section_injections: None,
        final_message: None,
        debian_final_message: None,
        termux_final_message: None,
        includes: None,
        group: None,
        platform: None,
    }
}

fn names(items: &[&str]) -> Option<Vec<String>> {
    Some(items.iter().map(|s| s.to_string()).collect())
}

fn describe(visits: &[Visit]) -> Vec<String> {
    visits
        .iter()
        .map(|v| match v {
            Visit::Pack(n, c) => format!("pack {n} {c}"),
            Visit::Category(n) => format!("cat {n}"),
        })
        .collect()
}

fn catalog() -> Config {
    let mut config = Config::new();
    let mut zsh = category("Zsh");
    zsh.aliases = names(&["shell"]);
    let git = category("Git");
    let mut pack = category("Pack");
    pack.includes = names(&["git", "SHELL"]);
    config.categories.insert("zsh".to_string(), zsh);
    config.categories.insert("git".to_string(), git);
    config.categories.insert("pack".to_string(), pack);
    config
}

fn catalog_with_broken_pack() -> Config {
    let mut config = catalog();
    let mut broken = category("Broken pack");
    broken.includes = names(&["git", "missing", "zsh"]);
    config.categories.insert("broken".to_string(), broken);
    config
}

#[test]
fn walk_expands_a_pack_in_include_order() {
    let config = catalog();
    let (visits, stop) = category_walk(Some("pack"), &config).unwrap();
    assert_eq!(describe(&visits), vec!["pack pack 2", "cat git", "cat zsh"]);
    assert!(stop.is_none());
}

#[test]
fn walk_of_everything_follows_name_order() {
    let config = catalog();
    let (visits, stop) = category_walk(None, &config).unwrap();
    assert_eq!(describe(&visits), vec!["cat git", "pack pack 2", "cat git", "cat zsh", "cat zsh"]);
    assert!(stop.is_none());
    let (all, _) = category_walk(Some("all"), &config).unwrap();
    assert_eq!(describe(&all), describe(&visits));
}

#[test]
fn walk_stops_at_a_missing_include_after_what_came_before() {
    let config = catalog_with_broken_pack();
    let (visits, stop) = category_walk(Some("broken"), &config).unwrap();
    assert_eq!(describe(&visits), vec!["pack broken 3", "cat git"]);
    match stop {
        Some(InstallError::CategoryNotFound(m)) => {
            assert_eq!(m, "Category or alias 'missing' not found in configuration.")
        }
        _ => panic!("expected the missing include to stop the walk"),
    }
    let (everything, stop_all) = category_walk(None, &config).unwrap();
    assert_eq!(describe(&everything), vec!["pack broken 3", "cat git"]);
    assert!(stop_all.is_some());
}

#[test]
fn walk_of_an_unknown_name_visits_nothing() {
    let config = catalog();
    let (visits, stop) = category_walk(Some("nothing"), &config).unwrap();
    assert!(visits.is_empty());
    match stop {
        Some(InstallError::CategoryNotFound(m)) => {
            assert_eq!(m, "Category or alias 'nothing' not found in configuration.")
        }
        _ => panic!("expected an error"),
    }
}

#[test]
fn walk_reports_packs_that_include_each_other() {
    let mut config = Config::new();
    let mut a = category("A");
    a.includes = names(&["b"]);
    let mut b = category("B");
    b.includes = names(&["a"]);
    config.categories.insert("a".to_string(), a);
    config.categories.insert("b".to_string(), b);
    assert!(category_walk(Some("a"), &config).is_none());
}
