use project_dots::installer::{format_items_limited, inject_line_into_section};

#[test]
fn inject_line_into_section_should_insert_under_existing_header() {
    let content = "HISTFILE=~/history\n# Fast init tools\neval \"$(starship init zsh)\"\n";
    let updated = inject_line_into_section(
        content,
        "# Fast init tools",
        "eval \"$(zoxide init zsh)\"",
        None,
    );
    assert!(updated.contains(
        "# Fast init tools\neval \"$(zoxide init zsh)\"\neval \"$(starship init zsh)\""
    ));
}

#[test]
fn inject_line_into_section_should_create_header_if_missing() {
    let content = "HISTFILE=~/history\n";
    let updated = inject_line_into_section(
        content,
        "# Fast init tools",
        "eval \"$(zoxide init zsh)\"",
        None,
    );
    assert!(updated.contains("\n# Fast init tools\neval \"$(zoxide init zsh)\"\n"));
}

#[test]
fn inject_line_into_section_should_prepend_to_top_when_position_is_top() {
    let content = "# Fast init tools\neval \"$(starship init zsh)\"\n";
    let updated = inject_line_into_section(
        content,
        "# History configuration",
        "HISTFILE=~/history",
        Some("top"),
    );
    assert!(updated.starts_with("# History configuration\nHISTFILE=~/history"));
}

#[test]
fn format_items_limited_should_cap_overflowing_items() {
    let items = vec![
        "item1".to_string(),
        "item2".to_string(),
        "item3".to_string(),
        "item4".to_string(),
        "item5".to_string(),
        "item6".to_string(),
        "item7".to_string(),
        "item8".to_string(),
    ];
    assert_eq!(
        format_items_limited(&items, 6),
        "item1, item2, item3, item4, item5, item6, (+2 more)"
    );
    assert_eq!(format_items_limited(&items[..3], 6), "item1, item2, item3");
    assert_eq!(format_items_limited(&[], 6), "none");
}

use project_dots::config::{Category, Config, CustomInstaller};
use project_dots::host::HostView;
use project_dots::installer::{
    category_matches_query, command_summary_defined, expand_home, format_command_summary,
    contains_lowercased, is_category_applied, is_category_supported,
};
use project_dots::keyed::KeyedList;
use project_dots::platform::Platform;
use project_dots::state::State;

fn strings(items: &[&str]) -> Vec<String> {
    items.iter().map(|s| s.to_string()).collect()
}

fn category(description: &str) -> Category {
    Category {
        description: description.to_string(),
        aliases: None,
        display_packages: None,
        debian_packages: None,
        termux_packages: None,
        custom: None,
        copy_files: None,
        post_install_commands: None,
        section_injections: None,
        final_message: None,
        debian_final_message: None,
        termux_final_message: None,
        includes: None,
        group: None,
        platform: None,
    }
}

fn neovim_installer() -> CustomInstaller {
    CustomInstaller {
        name: "neovim".to_string(),
        installer_type: "tarball".to_string(),
        url: "https://github.com/neovim/neovim/releases/download/stable/nvim-linux-x86_64.tar.gz"
            .to_string(),
        extract_dir: "/opt/nvim".to_string(),
        bin_symlink: "~/.local/bin/nvim".to_string(),
        binary_name: None,
    }
}

fn lazyvim() -> Category {
    let mut cat = category("Minimal LazyVim setup");
    cat.aliases = Some(strings(&["lzv-min"]));
    cat.debian_packages = Some(strings(&["git", "curl", "clang", "fd-find", "lazygit"]));
    cat.termux_packages = Some(strings(&["neovim", "git", "curl", "clang", "fd", "lazygit"]));
    let mut custom = KeyedList::new();
    custom.insert("debian".to_string(), neovim_installer());
    cat.custom = Some(custom);
    cat
}

fn empty_host() -> HostView {
    HostView { home: Some("/home/user".to_string()), existing_paths: vec![], path_commands: vec![] }
}

#[test]
fn expand_home_should_replace_tilde_with_home_dir() {
    let path_with_tilde = "~/.local/bin/nvim";
    let expanded = expand_home(path_with_tilde, Some("/home/user"));
    assert!(!expanded.starts_with("~/"), "Tilde should be expanded to full path");
    assert!(expanded.ends_with(".local/bin/nvim"));

    let absolute_path = "/opt/nvim/bin/nvim";
    assert_eq!(expand_home(absolute_path, Some("/home/user")), absolute_path);
}

#[test]
fn expand_home_keeps_tilde_without_home() {
    assert_eq!(expand_home("~/.zshrc", None), "~/.zshrc");
    assert_eq!(expand_home("~/.zshrc", Some("/root")), "/root/.zshrc");
    assert_eq!(expand_home("~user/x", Some("/root")), "~user/x");
}

#[test]
fn category_matches_query_should_match_name_alias_and_packages() {
    let cat = lazyvim();
    assert!(category_matches_query("lazy", "lazyvim-minimal", &cat, &Platform::Debian));
    assert!(category_matches_query("LAZY", "lazyvim-minimal", &cat, &Platform::Debian));
    assert!(category_matches_query("lzv", "lazyvim-minimal", &cat, &Platform::Debian));
    assert!(category_matches_query("lazygit", "lazyvim-minimal", &cat, &Platform::Debian));
    assert!(category_matches_query("neovim", "lazyvim-minimal", &cat, &Platform::Debian));
    assert!(!category_matches_query("nvim", "lazyvim-minimal", &cat, &Platform::Debian));
    assert!(!category_matches_query("zzz-nonexistent", "lazyvim-minimal", &cat, &Platform::Debian));

    let mut zsh = category("Zsh setup");
    zsh.debian_packages = Some(strings(&["zsh", "atuin"]));
    assert!(category_matches_query("atuin", "zsh-tokyonight", &zsh, &Platform::Debian));
    assert!(!category_matches_query("atuin", "lazyvim-minimal", &cat, &Platform::Debian));
}

#[test]
fn category_matches_query_checks_platform_packages_only() {
    let cat = lazyvim();
    // `fd` is a Termux package; on Debian the package is `fd-find`, which also contains it.
    assert!(category_matches_query("fd", "lazyvim-minimal", &cat, &Platform::Termux));
    assert!(!category_matches_query("neovim", "x", &category("none"), &Platform::Termux));
}

#[test]
fn pack_and_platform_support() {
    let mut config = Config::new();
    let mut deb_only = category("Debian only");
    deb_only.debian_packages = Some(strings(&["i3"]));
    let mut pack = category("A pack");
    pack.includes = Some(strings(&["deb-only"]));
    config.categories.insert("deb-only".to_string(), deb_only);
    config.categories.insert("pack".to_string(), pack);
    let deb = config.categories.get("deb-only").unwrap();
    let p = config.categories.get("pack").unwrap();
    assert!(is_category_supported(deb, &Platform::Debian, &config));
    assert!(!is_category_supported(deb, &Platform::Termux, &config));
    assert!(is_category_supported(p, &Platform::Debian, &config));
    assert!(!is_category_supported(p, &Platform::Termux, &config));
}

#[test]
fn is_category_applied_should_not_false_positive_on_generic_packages() {
    let mut config = Config::new();
    let mut opencode = category("opencode agent");
    opencode.debian_packages = Some(strings(&["curl", "git", "bash"]));
    config.categories.insert("opencode".to_string(), opencode);
    let cat = config.categories.get("opencode").unwrap();
    let state = State::default();
    let host = empty_host();
    assert!(!is_category_applied("opencode", cat, &state, &Platform::Debian, &config, &host));

    let mut applied_state = State::default();
    applied_state.mark_category_applied("opencode");
    assert!(is_category_applied("opencode", cat, &applied_state, &Platform::Debian, &config, &host));
}

#[test]
fn tracked_packages_never_make_a_category_applied() {
    let mut config = Config::new();
    let mut opencode = category("opencode agent");
    opencode.debian_packages = Some(strings(&["curl", "git"]));
    config.categories.insert("opencode".to_string(), opencode);
    let cat = config.categories.get("opencode").unwrap();
    let host = empty_host();
    let mut state = State::default();
    state.track_package("git", "opencode", true);
    state.track_package("curl", "opencode", false);
    assert!(!is_category_applied("opencode", cat, &state, &Platform::Debian, &config, &host));
}

#[test]
fn pack_is_applied_exactly_when_all_its_includes_are() {
    let mut config = Config::new();
    let mut a = category("A");
    a.debian_packages = Some(strings(&["a"]));
    let mut b = category("B");
    b.debian_packages = Some(strings(&["b"]));
    let mut pack = category("Pack");
    pack.includes = Some(strings(&["a", "b"]));
    let mut empty_pack = category("Empty pack");
    empty_pack.includes = Some(vec![]);
    config.categories.insert("a".to_string(), a);
    config.categories.insert("b".to_string(), b);
    config.categories.insert("pack".to_string(), pack);
    config.categories.insert("empty".to_string(), empty_pack);
    let host = empty_host();
    let p = config.categories.get("pack").unwrap();
    let e = config.categories.get("empty").unwrap();
    let mut state = State::default();
    state.mark_category_applied("pack");
    state.mark_category_applied("a");
    assert!(!is_category_applied("pack", p, &state, &Platform::Debian, &config, &host));
    state.mark_category_applied("b");
    assert!(is_category_applied("pack", p, &state, &Platform::Debian, &config, &host));
    state.mark_category_applied("empty");
    assert!(!is_category_applied("empty", e, &state, &Platform::Debian, &config, &host));
}

#[test]
fn contains_lowercased_tests_the_lowercased_texts() {
    assert!(contains_lowercased("lazyvim-minimal", "vim"));
    assert!(!contains_lowercased("lazyvim-minimal", "VIM"));
    assert!(contains_lowercased("abc", ""));
    assert!(!contains_lowercased("", "a"));
}

#[test]
fn format_command_summary_names_known_steps() {
    assert_eq!(format_command_summary("chsh -s $(which zsh)"), "Change default shell to Zsh");
    assert_eq!(
        format_command_summary("git clone https://x/zsh-autosuggestions ~/p"),
        "Download zsh-autosuggestions plugin"
    );
    assert_eq!(
        format_command_summary("echo 'source zsh-autosuggestions.zsh' >> ~/.zshrc"),
        "Enable zsh-autosuggestions in ~/.zshrc"
    );
    assert_eq!(format_command_summary("echo hi\necho there"), "echo hi");
}

#[test]
fn format_command_summary_cuts_long_lines() {
    let long = "a".repeat(70);
    assert!(command_summary_defined(&long));
    let s = format_command_summary(&long);
    assert_eq!(s, format!("{}...", "a".repeat(57)));
    let exact = "b".repeat(60);
    assert_eq!(format_command_summary(&exact), exact);
    // A character across byte 57 cannot be cut there.
    let awkward = format!("{}é{}", "c".repeat(56), "d".repeat(10));
    assert!(!command_summary_defined(&awkward));
}

#[test]
fn injection_under_a_header_keeps_every_line() {
    let content = "a\n# H\nb\n# H\nc";
    let updated = inject_line_into_section(content, " # H ", "  new  ", None);
    let before: Vec<&str> = content.lines().collect();
    let after: Vec<&str> = updated.lines().collect();
    let mut expected = before.clone();
    expected.insert(2, "new");
    assert_eq!(after, expected);
    assert!(!updated.ends_with('\n'));
    let with_newline = inject_line_into_section("# H\nb\n", "# H", "x", None);
    assert_eq!(with_newline, "# H\nx\nb\n");
}
