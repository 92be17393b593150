use project_dots::config::{Category, Config};
use project_dots::host::HostView;
use project_dots::platform::Platform;
use project_dots::selection::combined_selection;
use project_dots::state::State;
use project_dots::prompt::{
    full_config_targets, key_for_char, select_custom_categories, proceed_with_install, CategorySelectOption, GroupSelection,
    MenuKey, MenuOutcome, PresetMenu, PresetOption, FULL_CONFIG_CATEGORIES,
};

#[test]
fn full_config_preset_categories_should_contain_exact_curated_set() {
    assert_eq!(
        FULL_CONFIG_CATEGORIES,
        ["nvim-onedarkpro", "zsh-tokyonight", "term-flow", "nodejs-pnpm", "agents-flow"]
    );
}

fn category(pkgs: &[&str]) -> Category {
    Category {
        description: "d".to_string(),
        aliases: None,
        display_packages: None,
        debian_packages: Some(pkgs.iter().map(|s| s.to_string()).collect()),
        termux_packages: None,
        custom: None,
        copy_files: None,
        post_install_commands: None,
        section_injections: None,
        final_message: None,
        debian_final_message: None,
        termux_final_message: None,
        includes: None,
        group: None,
        platform: None,
    }
}

#[test]
fn full_config_keeps_existing_supported_categories_in_order() {
    let mut config = Config::new();
    config.categories.insert("term-flow".to_string(), category(&["tmux"]));
    config.categories.insert("zsh-tokyonight".to_string(), category(&["zsh"]));
    config.categories.insert("nodejs-pnpm".to_string(), category(&[]));
    let t = full_config_targets(&config, &Platform::Debian);
    assert_eq!(t, vec!["zsh-tokyonight".to_string(), "term-flow".to_string()]);
    assert!(full_config_targets(&config, &Platform::Termux).is_empty());
}

#[test]
fn preset_menu_moves_and_chooses() {
    let mut menu = PresetMenu::new();
    assert!(matches!(menu.handle_key(MenuKey::Down), MenuOutcome::Continue));
    assert_eq!(menu.selected(), 1);
    assert!(matches!(menu.handle_key(MenuKey::Down), MenuOutcome::Continue));
    assert_eq!(menu.selected(), 0);
    assert!(matches!(menu.handle_key(MenuKey::Up), MenuOutcome::Continue));
    assert!(matches!(menu.handle_key(MenuKey::Enter), MenuOutcome::Chosen(PresetOption::Custom)));
    let mut menu2 = PresetMenu::new();
    assert!(matches!(menu2.handle_key(MenuKey::Cancel), MenuOutcome::Cancelled));
    assert!(matches!(key_for_char('j'), MenuKey::Down));
    assert!(matches!(key_for_char('k'), MenuKey::Up));
}

fn option(key: &str, checked: bool) -> CategorySelectOption {
    CategorySelectOption {
        key: key.to_string(),
        display_name: key.to_string(),
        description: String::new(),
        packages_label: String::new(),
        is_installed: false,
        checked,
    }
}

#[test]
fn group_selection_toggles_and_confirms() {
    let sel = GroupSelection::new(vec![option("a", false), option("b", true)]);
    let (sel, out) = sel.handle_key(MenuKey::Toggle);
    assert!(matches!(out, MenuOutcome::Continue));
    let (sel, _) = sel.handle_key(MenuKey::Down);
    let (sel, _) = sel.handle_key(MenuKey::Toggle);
    let (_, out) = sel.handle_key(MenuKey::Enter);
    match out {
        MenuOutcome::Chosen(keys) => assert_eq!(keys, vec!["a".to_string()]),
        _ => panic!("expected a choice"),
    }
}

#[test]
fn proceed_answers() {
    assert!(proceed_with_install(""));
    assert!(proceed_with_install("  \n"));
    assert!(proceed_with_install("Y"));
    assert!(!proceed_with_install("n"));
}

#[test]
fn combined_selection_goes_step_by_step_then_by_name() {
    let mut config = Config::new();
    let grouped = |g: Option<&str>, pkgs: &[&str]| {
        let mut c = category(pkgs);
        c.group = g.map(|s| s.to_string());
        c
    };
    config.categories.insert("b-nvim".to_string(), grouped(Some("Editors & IDEs"), &["neovim"]));
    config.categories.insert("a-vim".to_string(), grouped(Some("Editors & IDEs"), &["vim"]));
    config.categories.insert("zsh".to_string(), grouped(Some("Shell & Terminal"), &["zsh"]));
    config.categories.insert("x".to_string(), grouped(Some("Zeta"), &["x"]));
    config.categories.insert("misc".to_string(), grouped(None, &["m"]));
    config.categories.insert("none".to_string(), grouped(Some("Zeta"), &[]));
    let host = HostView { home: Some("/h".to_string()), existing_paths: vec![], path_commands: vec![] };
    let groups = select_custom_categories(&config, &Platform::Debian, &State::default(), &host);
    let names: Vec<String> = groups.iter().map(|g| g.name.clone()).collect();
    assert_eq!(names, vec!["Shell & Terminal", "Editors & IDEs", "Other Categories", "Zeta"]);
    let mut chosen = Vec::new();
    for g in groups {
        let sel = GroupSelection::new(g.options);
        let (sel, _) = sel.handle_key(MenuKey::ToggleAll);
        match sel.handle_key(MenuKey::Enter).1 {
            MenuOutcome::Chosen(keys) => chosen.push(keys),
            _ => panic!("expected the step's keys"),
        }
    }
    assert_eq!(combined_selection(&chosen), vec!["zsh", "a-vim", "b-nvim", "misc", "x"]);
    assert_eq!(combined_selection(&vec![vec![], vec![]]), Vec::<String>::new());
}
