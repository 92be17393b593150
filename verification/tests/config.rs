use project_dots::config::{
    check_probe, is_external_source, plan_url_check, UrlCheck, select_modular_files, source_summary, url_is_templated,
    Category, Config, CustomInstaller, PostInstallCommand, EMBEDDED_SOURCE_LABEL,
};
use project_dots::keyed::KeyedList;
use project_dots::platform::Platform;

fn strings(items: &[&str]) -> Vec<String> {
    items.iter().map(|s| s.to_string()).collect()
}

fn category(description: &str) -> Category {
    Category {
        description: description.to_string(),
        aliases: None,
        display_packages: None,
        debian_packages: None,
        termux_packages: None,
        custom: None,
        copy_files: None,
        post_install_commands: None,
        section_injections: None,
        final_message: None,
        debian_final_message: None,
        termux_final_message: None,
        includes: None,
        group: None,
        platform: None,
    }
}

fn command(c: &str) -> PostInstallCommand {
    PostInstallCommand { command: c.to_string(), description: None, platform: None, prompt: None, confirm: None }
}

fn catalog() -> Config {
    let mut config = Config::new();
    let mut lazy = category("LazyVim");
    lazy.aliases = Some(strings(&["lzv-min"]));
    let mut zsh = category("Zsh");
    zsh.aliases = Some(strings(&["zsh-tn"]));
    zsh.final_message = Some("Restart your terminal".to_string());
    zsh.termux_final_message = Some("Restart Termux".to_string());
    config.categories.insert("lazyvim-minimal".to_string(), lazy);
    config.categories.insert("zsh-tokyonight".to_string(), zsh);
    config
}

#[test]
fn alias_resolution_should_match_canonical_and_alias_keys() {
    let config = catalog();
    assert_eq!(config.resolve_category_key("lazyvim-minimal"), Some(&"lazyvim-minimal".to_string()));
    assert_eq!(config.resolve_category_key("lzv-min"), Some(&"lazyvim-minimal".to_string()));
    assert_eq!(config.resolve_category_key("nonexistent"), None);
}

#[test]
fn alias_resolution_ignores_ascii_case() {
    let config = catalog();
    assert_eq!(config.resolve_category_key("LZV-MIN").map(|s| s.as_str()), Some("lazyvim-minimal"));
}

#[test]
fn zsh_tokyonight_should_declare_terminal_restart_message() {
    let config = catalog();
    let cat = config.categories.get("zsh-tokyonight").expect("zsh-tokyonight category should exist");
    let msg_debian = cat
        .final_message_for_platform(&Platform::Debian)
        .expect("zsh-tokyonight should declare a final_message on Debian");
    assert!(msg_debian.to_lowercase().contains("terminal"), "Debian final message should hint to restart the terminal");
    let msg_termux = cat
        .final_message_for_platform(&Platform::Termux)
        .expect("zsh-tokyonight should declare a final_message on Termux");
    assert!(msg_termux.to_lowercase().contains("termux"), "Termux final message should hint to restart Termux");
}

#[test]
fn final_message_prefers_platform_message() {
    let config = catalog();
    let zsh = config.categories.get("zsh-tokyonight").unwrap();
    assert_eq!(zsh.final_message_for_platform(&Platform::Termux), Some("Restart Termux"));
    assert_eq!(zsh.final_message_for_platform(&Platform::Debian), Some("Restart your terminal"));
    let lazy = config.categories.get("lazyvim-minimal").unwrap();
    assert_eq!(lazy.final_message_for_platform(&Platform::Debian), None);
}

#[test]
fn modular_files_override_and_extend_the_catalog() {
    let mut one = Config::new();
    one.categories.insert("custom-editor".to_string(), category("editor"));
    let mut two = Config::new();
    two.categories.insert("custom-tool".to_string(), category("tool"));
    two.categories.insert("zsh-tokyonight".to_string(), category("replaced"));
    let (merged, source) = Config::load(catalog(), "/etc/categories.toml".to_string(), vec![one, two]);
    assert!(merged.categories.contains_key("custom-editor"));
    assert!(merged.categories.contains_key("custom-tool"));
    assert_eq!(merged.categories.get("zsh-tokyonight").unwrap().description, "replaced");
    assert_eq!(source, "/etc/categories.toml (+ 2 modular file(s) in categories.d/)");
    assert_eq!(source_summary("x", 0), "x");
}

#[test]
fn modular_file_names_are_toml_and_sorted() {
    let picked = select_modular_files(strings(&["02-tools.toml", "readme.md", ".toml", "01-editors.toml"]));
    assert_eq!(picked, strings(&["01-editors.toml", "02-tools.toml"]));
}

#[test]
fn embedded_source_is_not_external() {
    assert!(!is_external_source(EMBEDDED_SOURCE_LABEL));
    assert!(is_external_source("/home/u/.config/dotss/categories.toml"));
    assert_eq!(Config::get_user_config_dir(Some("/home/u")), Some("/home/u/.config/dotss".to_string()));
    assert_eq!(Config::get_user_config_dir(None), None);
}

#[test]
fn urls_are_collected_sorted_and_once() {
    let mut config = Config::new();
    let mut cat = category("tools");
    let mut custom = KeyedList::new();
    custom.insert(
        "debian".to_string(),
        CustomInstaller {
            name: "nvim".to_string(),
            installer_type: "tarball".to_string(),
            url: "https://example.com/nvim.tar.gz".to_string(),
            extract_dir: "/opt/nvim".to_string(),
            bin_symlink: "~/.local/bin/nvim".to_string(),
            binary_name: None,
        },
    );
    cat.custom = Some(custom);
    cat.post_install_commands = Some(vec![
        command("curl -fsSL 'https://b.example/install.sh'|bash"),
        command("curl -fsSL \"https://a.example/x\"; echo https://b.example/install.sh"),
        command("echo ftp://nope"),
    ]);
    config.categories.insert("tools".to_string(), cat);
    assert_eq!(
        config.extract_all_urls(),
        strings(&[
            "https://a.example/x",
            "https://b.example/install.sh",
            "https://b.example/install.sh'",
            "https://example.com/nvim.tar.gz",
        ])
    );
}

#[test]
fn reachability_probe_is_judged_by_status() {
    assert_eq!(check_probe("u", true, "200\n"), Ok(200));
    assert_eq!(check_probe("u", true, " 301 "), Ok(301));
    assert_eq!(
        check_probe("u", true, "404"),
        Err("URL 'u' returned non-success HTTP status code: 404".to_string())
    );
    assert_eq!(
        check_probe("u", true, "garbage"),
        Err("URL 'u' returned non-success HTTP status code: 0".to_string())
    );
    assert_eq!(check_probe("u", false, "200"), Err("curl failed to reach URL: u".to_string()));
    assert!(url_is_templated("https://x/${VERSION}/a"));
    assert!(!url_is_templated("https://x/a"));
}

#[test]
fn templated_urls_are_accepted_without_a_probe() {
    assert!(matches!(plan_url_check("https://x/${VERSION}/a.tar.gz"), UrlCheck::Accepted(200)));
    assert!(matches!(plan_url_check("https://x/a.tar.gz"), UrlCheck::Probe));
}
