use project_dots::config::{Category, Config};
use project_dots::host::HostView;
use project_dots::listing::{
    check_listable, list_categories, list_categories_checked, render_flat_line, render_grouped_line,
};
use project_dots::platform::Platform;
use project_dots::state::State;

const G: &str = "\x1b[1;32m";
const R: &str = "\x1b[0m";
const D: &str = "\x1b[90m";
const W: &str = "\x1b[37m";
const C: &str = "\x1b[1;36m";

fn strings(items: &[&str]) -> Vec<String> {
    items.iter().map(|s| s.to_string()).collect()
}

fn category(description: &str) -> Category {
    Category {
        description: description.to_string(),
        aliases: None,
        display_packages: None,
        debian_packages: None,
        termux_packages: None,
        custom: None,
        copy_files: None,
        post_install_commands: None,
        section_injections: None,
        final_message: None,
        debian_final_message: None,
        termux_final_message: None,
        includes: None,
        group: None,
        platform: None,
    }
}

fn host() -> HostView {
    HostView { home: Some("/home/u".to_string()), existing_paths: vec![], path_commands: vec![] }
}

fn catalog() -> Config {
    let mut config = Config::new();
    let mut zsh = category("Zsh setup");
    zsh.aliases = Some(strings(&["zsh-tn"]));
    zsh.debian_packages = Some(strings(&["zsh", "git"]));
    zsh.group = Some("Shell & Terminal".to_string());
    let mut i3 = category("Tiling WM");
    i3.termux_packages = Some(strings(&["x"]));
    i3.debian_packages = None;
    i3.group = Some("Window Managers & Desktop".to_string());
    let mut pack = category("Bundle");
    pack.includes = Some(strings(&["zsh-tokyonight", "ghost"]));
    config.categories.insert("zsh-tokyonight".to_string(), zsh);
    config.categories.insert("i3wm".to_string(), i3);
    config.categories.insert("agents-flow".to_string(), pack);
    config
}

#[test]
fn flat_line_shows_aliases_packages_and_status() {
    let config = catalog();
    let zsh = config.categories.get("zsh-tokyonight").unwrap();
    let line = render_flat_line(&config, &Platform::Debian, "zsh-tokyonight", zsh, true, true);
    assert_eq!(line, format!("{G}zsh-tokyonight{R}, zsh-tn / {D}zsh, git{R} {W}[apply]{R}\n"));
    let pack = config.categories.get("agents-flow").unwrap();
    let line = render_flat_line(&config, &Platform::Debian, "agents-flow", pack, false, false);
    assert_eq!(line, format!("{G}agents-flow{R} (Pack) / {D}pack: zsh-tokyonight, ghost{R} {D}[unsupported]{R}\n"));
}

#[test]
fn flat_line_drops_contents_repeating_the_name() {
    let mut config = Config::new();
    let mut git = category("Git");
    git.debian_packages = Some(strings(&["GIT"]));
    config.categories.insert("git".to_string(), git);
    let cat = config.categories.get("git").unwrap();
    let line = render_flat_line(&config, &Platform::Debian, "git", cat, true, false);
    assert_eq!(line, format!("{G}git{R}\n"));
}

#[test]
fn grouped_line_falls_back_to_a_count_when_narrow() {
    let config = catalog();
    let zsh = config.categories.get("zsh-tokyonight").unwrap();
    let wide = render_grouped_line(&config, &Platform::Debian, "zsh-tokyonight", zsh, true, false, 200);
    assert_eq!(wide, format!("  - {G}zsh-tokyonight{R} (zsh-tn): Zsh setup {D}(zsh, git){R}\n"));
    let narrow = render_grouped_line(&config, &Platform::Debian, "zsh-tokyonight", zsh, true, false, 40);
    assert_eq!(narrow, format!("  - {G}zsh-tokyonight{R} (zsh-tn): Zsh setup {D}(2 pkgs){R}\n"));
}

#[test]
fn list_hides_unsupported_categories_with_a_note() {
    let config = catalog();
    let state = State::default();
    let h = host();
    assert!(check_listable(&config, &state, &Platform::Debian, &h, None, false));
    let out = list_categories(&config, &state, &Platform::Debian, &h, false, None, false, 100);
    assert_eq!(
        out,
        format!(
            "{G}agents-flow{R} (Pack) / {D}pack: zsh-tokyonight, ghost{R}\n{G}zsh-tokyonight{R}, zsh-tn / {D}zsh, git{R}\n\n{D}1 hidden. Use '-sh' or '--show-hidden' to view all.{R}\n"
        )
    );
}

#[test]
fn list_filters_by_query() {
    let config = catalog();
    let state = State::default();
    let out = list_categories(&config, &state, &Platform::Debian, &host(), true, Some("TN"), false, 100);
    assert_eq!(out, format!("{G}zsh-tokyonight{R}, zsh-tn / {D}zsh, git{R}\n"));
}

#[test]
fn grouped_list_orders_groups_by_name() {
    let config = catalog();
    let state = State::default();
    let out = list_categories(&config, &state, &Platform::Debian, &host(), false, None, true, 50);
    let b = "─".repeat(18);
    let expected = format!(
        "\n{C}╭{b}╮\n│ Other Categories │\n╰{b}╯{R}\n  - {G}agents-flow{R} (Pack): Bundle {D}(pack: 2 items){R}\n\n{C}╭{b}╮\n│ Shell & Terminal │\n╰{b}╯{R}\n  - {G}zsh-tokyonight{R} (zsh-tn): Zsh setup {D}(zsh, git){R}\n\n{D}1 hidden. Use '-sh' or '--show-hidden' to view all.{R}\n"
    );
    assert_eq!(out, expected);
}

#[test]
fn empty_catalog_lists_nothing() {
    let out = list_categories(&Config::new(), &State::default(), &Platform::Debian, &host(), false, None, false, 80);
    assert_eq!(out, "No categories found in configuration.\n");
}

#[test]
fn cyclic_packs_cannot_be_listed() {
    let mut config = Config::new();
    let mut a = category("A");
    a.includes = Some(strings(&["b"]));
    let mut b = category("B");
    b.includes = Some(strings(&["a"]));
    config.categories.insert("a".to_string(), a);
    config.categories.insert("b".to_string(), b);
    let state = State::default();
    assert!(!check_listable(&config, &state, &Platform::Debian, &host(), None, false));
    assert_eq!(list_categories_checked(&config, &state, &Platform::Debian, &host(), false, None, false, 80), None);
    let ok = list_categories_checked(&catalog(), &state, &Platform::Debian, &host(), true, Some("TN"), false, 80);
    assert_eq!(ok, Some(format!("{G}zsh-tokyonight{R}, zsh-tn / {D}zsh, git{R}\n")));
}

#[test]
fn full_list_is_in_name_order_with_markers() {
    let config = catalog();
    let mut state = State::default();
    state.mark_category_applied("zsh-tokyonight");
    let out = list_categories(&config, &state, &Platform::Debian, &host(), true, None, false, 100);
    assert_eq!(
        out,
        format!(
            "{G}agents-flow{R} (Pack) / {D}pack: zsh-tokyonight, ghost{R}\n{G}i3wm{R} / {D}none{R} {D}[unsupported]{R}\n{G}zsh-tokyonight{R}, zsh-tn / {D}zsh, git{R} {W}[apply]{R}\n"
        )
    );
}

#[test]
fn search_with_hidden_shown_keeps_unsupported_matches() {
    let config = catalog();
    let state = State::default();
    let out = list_categories(&config, &state, &Platform::Debian, &host(), true, Some("I3"), false, 100);
    assert_eq!(out, format!("{G}i3wm{R} / {D}none{R} {D}[unsupported]{R}\n"));
}
