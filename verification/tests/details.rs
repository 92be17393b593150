use project_dots::config::{Category, Config, CopyFileAction, CustomInstaller, PostInstallCommand, SectionInjection};
use project_dots::details::{check_details_ready, show_category};
use project_dots::host::HostView;
use project_dots::keyed::KeyedList;
use project_dots::platform::Platform;
use project_dots::state::State;

const G: &str = "\x1b[1;32m";
const B: &str = "\x1b[1;34m";
const R: &str = "\x1b[0m";
const D: &str = "\x1b[90m";

fn strings(items: &[&str]) -> Vec<String> {
    items.iter().map(|s| s.to_string()).collect()
}

fn category(description: &str) -> Category {
    Category {
        description: description.to_string(),
        aliases: None,
        display_packages: None,
        debian_packages: None,
        termux_packages: None,
        custom: None,
        copy_files: None,
        post_install_commands: None,
        section_injections: None,
        final_message: None,
        debian_final_message: None,
        termux_final_message: None,
        includes: None,
        group: None,
        platform: None,
    }
}

fn catalog() -> Config {
    let mut config = Config::new();
    let mut zsh = category("Zsh setup");
    zsh.aliases = Some(strings(&["zsh-tn"]));
    zsh.debian_packages = Some(strings(&["zsh", "git", "bat"]));
    zsh.copy_files = Some(vec![CopyFileAction {
        src: "config/zsh-tokyonight/font.ttf".to_string(),
        dest: "~/.termux/font.ttf".to_string(),
        platform: Some("termux".to_string()),
        only_if_not_exists: Some(true),
        backup: None,
    }]);
    zsh.post_install_commands = Some(vec![
        PostInstallCommand {
            command: "chsh -s $(which zsh)".to_string(),
            description: None,
            platform: Some("debian".to_string()),
            prompt: None,
            confirm: None,
        },
        PostInstallCommand {
            command: "x".to_string(),
            description: Some("Do x".to_string()),
            platform: None,
            prompt: None,
            confirm: None,
        },
    ]);
    zsh.section_injections = Some(vec![SectionInjection {
        file: "~/.zshrc".to_string(),
        section: "# Fast init tools".to_string(),
        line: "eval \"$(zoxide init zsh)\"".to_string(),
        description: None,
        platform: None,
        position: None,
    }]);
    zsh.final_message = Some("Restart your terminal".to_string());
    let mut nvim = category("Editor");
    let mut custom = KeyedList::new();
    custom.insert(
        "debian".to_string(),
        CustomInstaller {
            name: "nvim".to_string(),
            installer_type: "tarball".to_string(),
            url: "https://example.com/nvim.tar.gz".to_string(),
            extract_dir: "/opt/nvim".to_string(),
            bin_symlink: "~/.local/bin/nvim".to_string(),
            binary_name: None,
        },
    );
    nvim.custom = Some(custom);
    let mut pack = category("Bundle");
    pack.includes = Some(strings(&["zsh-tokyonight", "ghost"]));
    config.categories.insert("zsh-tokyonight".to_string(), zsh);
    config.categories.insert("nvim".to_string(), nvim);
    config.categories.insert("agents-flow".to_string(), pack);
    config
}

fn host() -> HostView {
    HostView {
        home: Some("/home/u".to_string()),
        existing_paths: strings(&["/home/u/.local/bin/nvim"]),
        path_commands: vec![],
    }
}

#[test]
fn show_category_should_resolve_canonical_name_and_alias() {
    let config = catalog();
    let state = State::default();
    let h = host();
    let by_name = show_category("zsh-tokyonight", &config, &state, &Platform::Debian, "Debian", &h, &vec![]);
    let by_alias = show_category("zsh-tn", &config, &state, &Platform::Debian, "Debian", &h, &vec![]);
    assert!(by_name.is_ok());
    assert_eq!(by_name, by_alias);
    assert_eq!(
        show_category("nonexistent", &config, &state, &Platform::Debian, "Debian", &h, &vec![]),
        Err("Category or alias 'nonexistent' not found in configuration.".to_string())
    );
}

#[test]
fn details_report_statuses_and_steps() {
    let config = catalog();
    let mut state = State::default();
    state.track_package("zsh", "zsh-tokyonight", false);
    state.track_package("git", "zsh-tokyonight", true);
    let h = host();
    let cat = config.categories.get("zsh-tokyonight").unwrap();
    assert!(check_details_ready(&config, &state, &Platform::Debian, &h, cat));
    let out = show_category("zsh-tn", &config, &state, &Platform::Debian, "Debian", &h, &strings(&["bat"])).unwrap();
    let expected = format!(
        "\n{G}Category:{R} zsh-tokyonight\n{B}Description:{R} Zsh setup\n{B}Aliases:{R} zsh-tn\n\
\n{B}Packages (Debian):{R}\n  - {D}zsh{R} [Installed by dotss]\n  - {D}git{R} [Pre-existing (system)]\n  - {D}bat{R} [Installed (untracked)]\n\
\n{B}Config File Actions:{R}\n  - Add ~/.termux/font.ttf (Platform: termux) [skip if exists]\n\
\n{B}Post-Install Actions:{R}\n  - Change default shell to Zsh (Platform: debian)\n  - Do x\n\
\n{B}Section Injections:{R}\n  - eval \"$(zoxide init zsh)\" -> ~/.zshrc under section '# Fast init tools'\n\
\n{B}Final Message:{R} Restart your terminal\n\n"
    );
    assert_eq!(out, expected);
}

#[test]
fn details_report_custom_binary_and_pack() {
    let config = catalog();
    let state = State::default();
    let h = host();
    let out = show_category("nvim", &config, &state, &Platform::Debian, "Debian", &h, &vec![]).unwrap();
    assert!(out.contains(&format!("\n{B}Packages (Debian):{R}\n  (No OS packages declared for this platform)\n")));
    assert!(out.contains(&format!(
        "  - {D}nvim{R} (https://example.com/nvim.tar.gz) [Installed (Custom binary)]\n    Symlink: /home/u/.local/bin/nvim -> /opt/nvim/bin/nvim\n"
    )));
    let pack = show_category("agents-flow", &config, &state, &Platform::Debian, "Debian", &h, &vec![]).unwrap();
    assert!(pack.contains(&format!(
        "\n{B}Included Categories (Pack):{R}\n  - {D}zsh-tokyonight{R} [Not applied]\n  - {D}ghost{R} [Unknown]\n"
    )));
    assert!(pack.contains(&format!("{B}Aliases:{R} none\n")));
}
