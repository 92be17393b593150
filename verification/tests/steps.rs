use project_dots::config::{Category, Config, CopyFileAction, CustomInstaller, PostInstallCommand, SectionInjection};
use project_dots::keyed::KeyedList;
use project_dots::platform::Platform;
use project_dots::state::State;
use project_dots::steps::{
    backup_path, choose_extracted_binary, copy_source, embedded_asset_for, finish_category_removal,
    plan_copy_file, plan_copy_removal, plan_custom_install, plan_custom_removal, plan_package_install,
    plan_package_removal, plan_post_command, plan_post_install_prompt, plan_section_injection,
    record_custom_install, record_package_install, record_package_removal, require_supported_platform,
    resolve_targets, shell_is_zsh, zsh_cleanup_dirs, plan_dir_removal, CommandStep, CopyRemoval, CustomRemovalStep, DirRemoval, CopySource, CopyStep,
    CustomStep, EmbeddedAsset, InjectionStep, InstallError, PackageStep, PromptStep, RemovalStep,
};

fn strings(items: &[&str]) -> Vec<String> {
    items.iter().map(|s| s.to_string()).collect()
}

fn category() -> Category {
    Category {
        description: "d".to_string(),
        aliases: None,
        display_packages: None,
        debian_packages: None,
        termux_packages: None,
        custom: None,
        copy_files: None,
        post_install_commands: None,
        section_injections: None,
        final_message: None,
        debian_final_message: None,
        termux_final_message: None,
        includes: None,
        group: None,
        platform: None,
    }
}

fn copy(src: &str, dest: &str, platform: Option<&str>, only_new: Option<bool>, backup: Option<bool>) -> CopyFileAction {
    CopyFileAction {
        src: src.to_string(),
        dest: dest.to_string(),
        platform: platform.map(|p| p.to_string()),
        only_if_not_exists: only_new,
        backup,
    }
}

fn cmd(c: &str, platform: Option<&str>) -> PostInstallCommand {
    PostInstallCommand {
        command: c.to_string(),
        description: None,
        platform: platform.map(|p| p.to_string()),
        prompt: None,
        confirm: None,
    }
}

fn installer() -> CustomInstaller {
    CustomInstaller {
        name: "nvim".to_string(),
        installer_type: "tarball".to_string(),
        url: "https://example.com/nvim.tar.gz".to_string(),
        extract_dir: "/opt/nvim".to_string(),
        bin_symlink: "~/.local/bin/nvim".to_string(),
        binary_name: None,
    }
}

#[test]
fn copy_files_should_succeed_in_dry_run_mode() {
    let action = copy("config/zsh-tokyonight/starship.toml", "~/.config/zsh/starship.toml", None, None, None);
    let step = plan_copy_file(&action, &Platform::Debian, Some("/home/u"), false, false, 0, false, true);
    match step {
        CopyStep::Preview { dest, backup, directory } => {
            assert_eq!(dest, "/home/u/.config/zsh/starship.toml");
            assert!(backup.is_none());
            assert!(!directory);
        }
        _ => panic!("expected a preview"),
    }
    assert!(matches!(
        plan_copy_file(&action, &Platform::Debian, Some("/home/u"), false, false, 0, false, false),
        CopyStep::Place { .. }
    ));
    assert!(matches!(
        copy_source("config/zsh-tokyonight/starship.toml", false),
        Ok(CopySource::Embedded(EmbeddedAsset::StarshipConfig))
    ));
}

#[test]
fn copy_files_should_filter_by_platform_in_dry_run() {
    let action = copy("config/zsh-tokyonight/font.ttf", "~/.termux/font.ttf", Some("termux"), Some(true), None);
    assert!(matches!(plan_copy_file(&action, &Platform::Debian, Some("/h"), true, false, 0, false, true), CopyStep::Skip));
    match plan_copy_file(&action, &Platform::Termux, Some("/h"), true, false, 0, false, true) {
        CopyStep::KeepExisting(d) => assert_eq!(d, "/h/.termux/font.ttf"),
        _ => panic!("expected the existing font to be kept"),
    }
    assert!(matches!(
        plan_copy_file(&action, &Platform::Termux, Some("/h"), false, false, 0, false, true),
        CopyStep::Preview { .. }
    ));
}

#[test]
fn copy_files_with_backup_and_directory_should_succeed_in_dry_run() {
    let action = copy("config/nvim-onedarkpro", "~/.config/nvim", None, None, Some(true));
    match plan_copy_file(&action, &Platform::Debian, Some("/h"), true, true, 1700000000, true, true) {
        CopyStep::Preview { dest, backup, directory } => {
            assert_eq!(dest, "/h/.config/nvim");
            assert_eq!(backup, Some("/h/.config/nvim.bak.1700000000".to_string()));
            assert!(directory);
        }
        _ => panic!("expected a preview"),
    }
    assert!(matches!(
        plan_copy_file(&action, &Platform::Debian, Some("/h"), true, true, 1700000000, true, false),
        CopyStep::Place { .. }
    ));
    assert_eq!(backup_path("/x", false, 5), "/x.bak");
}

#[test]
fn missing_source_without_embedded_copy_is_an_error() {
    assert!(matches!(copy_source("anything", true), Ok(CopySource::Disk)));
    assert_eq!(copy_source("nope.conf", false).err(), Some("Source file 'nope.conf' not found.".to_string()));
    assert!(matches!(embedded_asset_for("config/zsh-minimal/font.ttf"), Some(EmbeddedAsset::NerdFont)));
    assert!(embedded_asset_for("config/other").is_none());
}

#[test]
fn post_install_should_preview_commands_in_dry_run() {
    let c = cmd("chsh -s $(which zsh)", Some("debian"));
    assert!(matches!(plan_post_command(&c, &Platform::Debian, false, false, true), CommandStep::Preview));
    assert!(matches!(plan_post_command(&c, &Platform::Debian, true, false, true), CommandStep::SkipShellIsZsh));
}

#[test]
fn post_install_should_filter_commands_by_platform() {
    let commands = vec![cmd("chsh -s $(which zsh)", Some("debian")), cmd("chsh -s zsh", Some("termux")), cmd("echo common", None)];
    let on_debian: Vec<bool> = commands
        .iter()
        .map(|c| matches!(plan_post_command(c, &Platform::Debian, false, false, true), CommandStep::Skip))
        .collect();
    assert_eq!(on_debian, vec![false, true, false]);
    let on_termux: Vec<bool> = commands
        .iter()
        .map(|c| matches!(plan_post_command(c, &Platform::Termux, false, false, true), CommandStep::Skip))
        .collect();
    assert_eq!(on_termux, vec![true, false, false]);
    match plan_post_command(&commands[2], &Platform::Termux, false, false, false) {
        CommandStep::Run(c) => {
            assert_eq!(c.program, "sh");
            assert_eq!(c.args, strings(&["-c", "echo common"]));
        }
        _ => panic!("expected a run"),
    }
}

#[test]
fn confirmation_is_asked_before_and_honoured_after() {
    let mut c = cmd("rm -rf ~/.cache/x", None);
    c.prompt = Some("Clear the cache?".to_string());
    assert!(matches!(plan_post_install_prompt(&c, &Platform::Debian, false, false), PromptStep::Ask(ref t) if t == "Clear the cache?"));
    assert!(matches!(plan_post_install_prompt(&c, &Platform::Debian, false, true), PromptStep::DryRunConfirmed(_)));
    assert!(matches!(plan_post_command(&c, &Platform::Debian, false, false, false), CommandStep::SkipDeclined));
    assert!(matches!(plan_post_command(&c, &Platform::Debian, false, true, false), CommandStep::Run(_)));
    assert!(matches!(plan_post_install_prompt(&cmd("ls", None), &Platform::Debian, false, false), PromptStep::NoPrompt));
}

#[test]
fn process_section_injections_should_preview_in_dry_run() {
    let inj = SectionInjection {
        file: "~/.zshrc".to_string(),
        section: "# Fast init tools".to_string(),
        line: "eval \"$(zoxide init zsh)\"".to_string(),
        description: Some("Initialize zoxide".to_string()),
        platform: None,
        position: Some("top".to_string()),
    };
    assert!(matches!(plan_section_injection(&inj, &Platform::Debian, "", true), InjectionStep::Preview));
}

#[test]
fn section_injection_is_idempotent() {
    let inj = SectionInjection {
        file: "~/.zshrc".to_string(),
        section: "# Fast init tools".to_string(),
        line: "  eval \"$(zoxide init zsh)\"  ".to_string(),
        description: None,
        platform: None,
        position: None,
    };
    let content = "export A=1\n";
    let written = match plan_section_injection(&inj, &Platform::Debian, content, false) {
        InjectionStep::Write(c) => c,
        _ => panic!("expected a write"),
    };
    assert_eq!(written, "export A=1\n\n# Fast init tools\neval \"$(zoxide init zsh)\"\n");
    match plan_section_injection(&inj, &Platform::Debian, &written, false) {
        InjectionStep::AlreadyPresent(k) => assert_eq!(k, "eval \"$(zoxide init zsh)\""),
        _ => panic!("a second run must find the line"),
    }
}

#[test]
fn packages_are_installed_and_recorded() {
    let mut state = State::default();
    match plan_package_install("zsh", &Platform::Debian, false, false) {
        PackageStep::Run(c) => {
            assert_eq!(c.display, "sudo apt install -y zsh");
            assert_eq!(c.args, strings(&["apt", "install", "-y", "zsh"]));
            record_package_install(&mut state, "zsh", "shell", &PackageStep::Run(c), true, false);
        }
        _ => panic!("expected a run"),
    }
    assert!(matches!(plan_package_install("git", &Platform::Termux, true, false), PackageStep::AlreadyInstalled));
    record_package_install(&mut state, "git", "shell", &PackageStep::AlreadyInstalled, true, false);
    match plan_package_install("bat", &Platform::Termux, false, true) {
        PackageStep::Preview(c) => assert_eq!(c.display, "pkg install -y bat"),
        _ => panic!("expected a preview"),
    }
    assert!(state.packages.get("zsh").unwrap().installed_by_dots);
    assert!(state.packages.get("git").unwrap().was_preexisting);
}

#[test]
fn removal_only_takes_what_the_tool_installed() {
    let mut state = State::default();
    state.track_package("zsh", "shell", false);
    state.track_package("git", "shell", true);
    assert!(matches!(plan_package_removal("git", &Platform::Debian, &state, false), RemovalStep::Preexisting));
    assert!(matches!(plan_package_removal("vim", &Platform::Debian, &state, false), RemovalStep::Untracked));
    let step = plan_package_removal("zsh", &Platform::Debian, &state, false);
    match &step {
        RemovalStep::Run(c) => assert_eq!(c.display, "sudo apt remove -y zsh"),
        _ => panic!("expected a run"),
    }
    record_package_removal(&mut state, "zsh", &step, false);
    assert!(state.packages.contains_key("zsh"));
    record_package_removal(&mut state, "zsh", &step, true);
    assert!(!state.packages.contains_key("zsh"));
    assert!(state.packages.contains_key("git"));
}

#[test]
fn custom_binaries_are_planned_and_recorded() {
    assert_eq!(
        plan_custom_install(false, true, false, false, false).err(),
        Some("Prerequisite binaries 'curl' and 'tar' are required for custom downloads. Please install them first.".to_string())
    );
    assert!(matches!(plan_custom_install(true, true, true, true, false), Ok(CustomStep::AlreadyInstalled)));
    assert!(matches!(plan_custom_install(true, true, true, false, true), Ok(CustomStep::Preview)));
    assert!(matches!(plan_custom_install(true, true, false, false, false), Ok(CustomStep::Download)));
    let c = installer();
    assert_eq!(choose_extracted_binary(&c, true, true), Ok("/opt/nvim/bin/nvim".to_string()));
    assert_eq!(choose_extracted_binary(&c, false, true), Ok("/opt/nvim/nvim".to_string()));
    assert_eq!(
        choose_extracted_binary(&c, false, false),
        Err("Extracted binary 'nvim' was not found in /opt/nvim or /opt/nvim/bin".to_string())
    );
    let mut state = State::default();
    record_custom_install(&mut state, &c, "editor", &CustomStep::Download, true, false);
    assert!(state.packages.get("nvim").unwrap().installed_by_dots);

    let mut cat = category();
    let mut custom = KeyedList::new();
    custom.insert("debian".to_string(), c);
    cat.custom = Some(custom);
    match plan_custom_removal(&cat, &Platform::Debian, &state, Some("/h"), false) {
        Some(CustomRemovalStep::Remove(removal)) => {
            assert_eq!(removal.symlink, "/h/.local/bin/nvim");
            assert_eq!(removal.delete_command.display, "sudo rm -rf /opt/nvim");
        }
        _ => panic!("expected a removal"),
    }
    assert!(matches!(
        plan_custom_removal(&cat, &Platform::Debian, &state, Some("/h"), true),
        Some(CustomRemovalStep::Preview(_))
    ));
    assert!(plan_custom_removal(&cat, &Platform::Termux, &state, Some("/h"), false).is_none());
}

#[test]
fn remove_category_should_cleanup_copy_files_and_plugins_dir_in_dry_run() {
    let action = copy("config/zsh-tokyonight/starship.toml", "~/.config/zsh/starship.toml", None, None, None);
    match plan_copy_removal(&action, &Platform::Debian, Some("/h"), true, false, true, true) {
        CopyRemoval::PreviewFile(p) => assert_eq!(p, "/h/.config/zsh/starship.toml"),
        _ => panic!("expected a previewed file removal"),
    }
    match plan_copy_removal(&action, &Platform::Debian, Some("/h"), true, false, true, false) {
        CopyRemoval::RemoveFile(p) => assert_eq!(p, "/h/.config/zsh/starship.toml"),
        _ => panic!("expected a file removal"),
    }
    assert!(matches!(plan_copy_removal(&action, &Platform::Debian, Some("/h"), false, false, false, true), CopyRemoval::Skip));
    assert!(matches!(plan_dir_removal("/h/.config/zsh/plugins", true, true), DirRemoval::Preview(_)));
    assert!(matches!(plan_dir_removal("/h/.config/zsh", true, false), DirRemoval::Remove(_)));
    assert!(matches!(plan_dir_removal("/h/.config/zsh", false, false), DirRemoval::Skip));
    assert_eq!(
        zsh_cleanup_dirs("zsh-tokyonight", Some("/h")),
        Some(("/h/.config/zsh/plugins".to_string(), "/h/.config/zsh".to_string()))
    );
    assert_eq!(zsh_cleanup_dirs("other", Some("/h")), None);
    let mut state = State::default();
    state.mark_category_applied("zsh-tokyonight");
    finish_category_removal(&mut state, "zsh-tokyonight", true);
    assert!(state.is_category_applied("zsh-tokyonight"));
    finish_category_removal(&mut state, "zsh-tokyonight", false);
    assert!(!state.is_category_applied("zsh-tokyonight"));
}

#[test]
fn targets_and_platform_checks() {
    let mut config = Config::new();
    let mut a = category();
    a.aliases = Some(strings(&["aa"]));
    config.categories.insert("b".to_string(), category());
    config.categories.insert("a".to_string(), a);
    assert_eq!(resolve_targets(None, &config).unwrap(), strings(&["a", "b"]));
    assert_eq!(resolve_targets(Some("all"), &config).unwrap(), strings(&["a", "b"]));
    assert_eq!(resolve_targets(Some("AA"), &config).unwrap(), strings(&["a"]));
    match resolve_targets(Some("zz"), &config) {
        Err(InstallError::CategoryNotFound(m)) => assert_eq!(m, "Category or alias 'zz' not found in configuration."),
        _ => panic!("expected an error"),
    }
    match require_supported_platform(&Platform::Unsupported("Unknown Linux/POSIX system".to_string())) {
        Err(e) => assert_eq!(e.message(), "Unsupported platform: Unknown Linux/POSIX system"),
        Ok(()) => panic!("expected an error"),
    }
    assert!(shell_is_zsh(Some("/usr/bin/zsh")));
    assert!(!shell_is_zsh(Some("/bin/bash")));
    assert!(!shell_is_zsh(None));
}

#[test]
fn multi_line_section_injection_is_idempotent() {
    let inj = SectionInjection {
        file: "~/.zshrc".to_string(),
        section: "# Aliases".to_string(),
        line: "  alias ll='ls -l'\nalias la='ls -a'\n".to_string(),
        description: None,
        platform: None,
        position: None,
    };
    let content = "# Aliases\nalias g=git\n";
    let written = match plan_section_injection(&inj, &Platform::Debian, content, false) {
        InjectionStep::Write(c) => c,
        _ => panic!("expected a write"),
    };
    assert_eq!(written, "# Aliases\nalias ll='ls -l'\nalias la='ls -a'\nalias g=git\n");
    match plan_section_injection(&inj, &Platform::Debian, &written, false) {
        InjectionStep::AlreadyPresent(k) => assert_eq!(k, "alias ll='ls -l'"),
        _ => panic!("expected the injection to be found"),
    }
}
