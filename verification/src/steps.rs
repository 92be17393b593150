//! The decisions of installing and removing categories, one step at a time: the
//! caller runs each system command a step names, reports the outcome, and the
//! library updates the state. Nothing here touches the system.
use crate::config::{Category, Config, CopyFileAction, CustomInstaller, PostInstallCommand, SectionInjection};
use crate::installer::{
    debian_custom, first_header, inject_line_into_section, injected, lemma_first_header_bounds,
    platform_package_list, position_is_top, trim_by_start_ws,
};
use crate::keyed::KeyedList;
use crate::paths::{expand_home, expanded_home};
use crate::platform::{platform_filter_admits, platform_filter_matches, Platform};
use crate::state::{tracked_as, State};
use crate::text::{
    char_vec_views, chars_of, string_of, concat2, contains, decimal, decimal_string, ends_with, lines, lines_of, owned, slice_eq,
    str_contains, str_ends_with, string_views, trim, trim_chars, CharClass, is_ws, join, strip_cr,
    lemma_join_append, lemma_lines_inner, lemma_lines_last, lemma_split_char_single, lemma_trim_no_newline,
    lemma_trim_shape, lemma_trim_strip_cr, lemma_trim_start_concat, lemma_trim_end_concat,
    lemma_trim_start_shape, lemma_trim_end_shape, lemma_split_char_concat, lemma_split_char_nonempty,
    split_char, trim_start_by, trim_end_by,
};
use vstd::prelude::*;

verus! {

/// Why installing or removing cannot proceed.
#[derive(Debug)]
pub enum InstallError {
    /// The platform is not supported, with the message to show.
    UnsupportedPlatform(String),
    /// No category or alias has the name, with the message to show.
    CategoryNotFound(String),
}

impl InstallError {
    /// The message to show.
    pub fn message(&self) -> (r: &str)
        ensures
            match self {
                InstallError::UnsupportedPlatform(m) => r@ == m@,
                InstallError::CategoryNotFound(m) => r@ == m@,
            },
    {
        match self {
            InstallError::UnsupportedPlatform(m) => m.as_str(),
            InstallError::CategoryNotFound(m) => m.as_str(),
        }
    }
}

/// Installing and removing refuse an unsupported platform.
pub fn require_supported_platform(platform: &Platform) -> (r: Result<(), InstallError>)
    ensures
        match *platform {
            Platform::Unsupported(reason) => r matches Err(InstallError::UnsupportedPlatform(m)) && m@
                == "Unsupported platform: "@ + reason@,
            _ => r is Ok,
        },
{
    match platform {
        Platform::Unsupported(reason) => Err(
            InstallError::UnsupportedPlatform(concat2("Unsupported platform: ", reason.as_str())),
        ),
        _ => Ok(()),
    }
}

/// The filter selects every category: none was given, or it is `all`.
pub open spec fn selects_all(filter: Option<Seq<char>>) -> bool {
    filter matches None || filter == Some("all"@)
}

/// The categories to process, in order: every category for no filter or `all`,
/// else the one the filter names or aliases.
pub fn resolve_targets(filter: Option<&str>, config: &Config) -> (r: Result<Vec<String>, InstallError>)
    ensures
        ({
            let f = match filter {
                Some(q) => Some(q@),
                None => None,
            };
            if selects_all(f) {
                r matches Ok(v) && string_views(v@) == config.categories.keys()
            } else {
                let q = f->0;
                match r {
                    Ok(v) => v@.len() == 1 && config.categories.contains(v@[0]@) && (config.categories.contains(q)
                        ==> v@[0]@ == q) && (!config.categories.contains(q) ==> exists|i: int|
                        crate::config::first_alias_match(config.categories.values(), q, i)
                            && config.categories.keys()[i] == v@[0]@),
                    Err(e) => e matches InstallError::CategoryNotFound(m) && m@ == "Category or alias '"@
                        + q + "' not found in configuration."@ && !config.categories.contains(q)
                        && forall|i: int| 0 <= i < config.categories.values().len() ==> !(
                        #[trigger] config.categories.values()[i]).has_alias_ignoring_case(q),
                }
            }
        }),
{
    let all = match filter {
        None => true,
        Some(q) => crate::text::str_eq(q, "all"),
    };
    if all {
        let n = config.categories.len();
        let mut v: Vec<String> = Vec::new();
        let mut i: usize = 0;
        while i < n
            invariant
                i <= n,
                n == config.categories.keys().len(),
                string_views(v@) == config.categories.keys().take(i as int),
            decreases n - i,
        {
            let k = config.categories.key_at(i).clone();
            let ghost before = string_views(v@);
            v.push(k);
            assert(string_views(v@) =~= before.push(config.categories.keys()[i as int]));
            assert(string_views(v@) =~= config.categories.keys().take(i + 1));
            i = i + 1;
        }
        assert(config.categories.keys().take(n as int) =~= config.categories.keys());
        return Ok(v);
    }
    let q = match filter {
        Some(q) => q,
        None => "",
    };
    proof {
        config.categories.lemma_lengths();
    }
    match config.resolve_category_key(q) {
        Some(k) => {
            let mut v: Vec<String> = Vec::new();
            v.push(k.clone());
            proof {
                if !config.categories.contains(q@) {
                    let i = choose|i: int|
                        crate::config::first_alias_match(config.categories.values(), q@, i)
                            && config.categories.keys()[i] == k@;
                    assert(crate::config::first_alias_match(config.categories.values(), q@, i)
                        && config.categories.keys()[i] == v@[0]@);
                    assert(config.categories.keys().contains(config.categories.keys()[i]));
                }
            }
            Ok(v)
        },
        None => {
            let a = concat2("Category or alias '", q);
            let m = concat2(a.as_str(), "' not found in configuration.");
            Err(InstallError::CategoryNotFound(m))
        },
    }
}

/// The login shell (`$SHELL`) is Zsh: it ends in `/zsh`.
pub fn shell_is_zsh(shell: Option<&str>) -> (r: bool)
    ensures
        r == (shell matches Some(s) && ends_with(s@, "/zsh"@)),
{
    match shell {
        Some(s) => str_ends_with(s, "/zsh"),
        None => false,
    }
}

/// A post-install command that changes the login shell (`chsh`) is moot when
/// the shell already is Zsh.
pub open spec fn moot_shell_change(cmd: PostInstallCommand, shell_zsh: bool) -> bool {
    contains(cmd.command@, "chsh"@) && shell_zsh
}

/// The command asks for confirmation: `confirm = true`, or a prompt is set.
pub open spec fn needs_confirmation(cmd: PostInstallCommand) -> bool {
    cmd.confirm == Some(true) || cmd.prompt is Some
}

/// The question asked before a command that needs confirmation.
pub open spec fn prompt_text(cmd: PostInstallCommand) -> Seq<char> {
    match cmd.prompt {
        Some(p) => p@,
        None => "Do you want to run this post-install step?"@,
    }
}

/// What to ask before a category's packages are installed, for one of its
/// post-install commands.
#[derive(Debug)]
pub enum PromptStep {
    /// The command does not run here (other platform, or shell already Zsh).
    Skip,
    /// The command runs without asking.
    NoPrompt,
    /// Dry run: show the question and count it as answered yes.
    DryRunConfirmed(String),
    /// Ask the question.
    Ask(String),
}

/// Decides what to ask before a category's packages are installed, for one of
/// its post-install commands: nothing when it does not run here or needs no
/// yes, the question otherwise (answered yes on a dry run).
pub fn plan_post_install_prompt(
    cmd: &PostInstallCommand,
    platform: &Platform,
    shell_zsh: bool,
    dry_run: bool,
) -> (r: PromptStep)
    ensures
        !platform_filter_admits(cmd.platform, *platform) || moot_shell_change(*cmd, shell_zsh) ==> r is Skip,
        platform_filter_admits(cmd.platform, *platform) && !moot_shell_change(*cmd, shell_zsh) ==> {
            if !needs_confirmation(*cmd) {
                r is NoPrompt
            } else if dry_run {
                r matches PromptStep::DryRunConfirmed(t) && t@ == prompt_text(*cmd)
            } else {
                r matches PromptStep::Ask(t) && t@ == prompt_text(*cmd)
            }
        },
{
    if !platform_filter_matches(&cmd.platform, platform) {
        return PromptStep::Skip;
    }
    if str_contains(cmd.command.as_str(), "chsh") && shell_zsh {
        return PromptStep::Skip;
    }
    let confirm = match cmd.confirm {
        Some(b) => b,
        None => false,
    };
    if !(confirm || cmd.prompt.is_some()) {
        return PromptStep::NoPrompt;
    }
    let text = match &cmd.prompt {
        Some(p) => p.clone(),
        None => owned("Do you want to run this post-install step?"),
    };
    if dry_run {
        PromptStep::DryRunConfirmed(text)
    } else {
        PromptStep::Ask(text)
    }
}

/// The packages `cat` declares for `platform` (none on an unsupported one).
pub fn platform_packages(cat: &Category, platform: &Platform) -> (r: Vec<String>)
    ensures
        string_views(r@) == match platform_package_list(*cat, *platform) {
            Some(l) => string_views(l@),
            None => Seq::<Seq<char>>::empty(),
        },
{
    let src: Option<&Vec<String>> = match platform {
        Platform::Debian => match &cat.debian_packages {
            Some(l) => Some(l),
            None => None,
        },
        Platform::Termux => match &cat.termux_packages {
            Some(l) => Some(l),
            None => None,
        },
        Platform::Unsupported(_) => None,
    };
    let mut out: Vec<String> = Vec::new();
    match src {
        Some(l) => {
            let mut i: usize = 0;
            while i < l.len()
                invariant
                    i <= l@.len(),
                    string_views(out@) == string_views(l@).take(i as int),
                decreases l.len() - i,
            {
                let c = l[i].clone();
                let ghost before = string_views(out@);
                out.push(c);
                assert(string_views(out@) =~= before.push(l@[i as int]@));
                assert(string_views(out@) =~= string_views(l@).take(i + 1));
                i = i + 1;
            }
            assert(string_views(l@).take(l@.len() as int) =~= string_views(l@));
        },
        None => {
            assert(string_views(out@) =~= Seq::<Seq<char>>::empty());
        },
    }
    out
}

/// A system command: the program, its arguments, and how it is shown.
#[derive(Debug)]
pub struct SystemCommand {
    pub program: String,
    pub args: Vec<String>,
    pub display: String,
}

/// The view of a command's arguments.
pub open spec fn args_view(c: SystemCommand) -> Seq<Seq<char>> {
    string_views(c.args@)
}

/// The package manager command that installs (`install`) or removes (`remove`)
/// `pkg` on `p`: `sudo apt <verb> -y <pkg>` on Debian, `pkg <verb> -y <pkg>` on
/// Termux.
pub open spec fn package_command_ok(c: SystemCommand, p: Platform, verb: Seq<char>, pkg: Seq<char>) -> bool {
    match p {
        Platform::Debian => c.program@ == "sudo"@ && args_view(c) == seq!["apt"@, verb, "-y"@, pkg]
            && c.display@ == "sudo apt "@ + verb + " -y "@ + pkg,
        Platform::Termux => c.program@ == "pkg"@ && args_view(c) == seq![verb, "-y"@, pkg] && c.display@
            == "pkg "@ + verb + " -y "@ + pkg,
        Platform::Unsupported(_) => false,
    }
}

fn package_command(platform: &Platform, verb: &str, pkg: &str) -> (r: SystemCommand)
    requires
        !(*platform is Unsupported),
    ensures
        package_command_ok(r, *platform, verb@, pkg@),
{
    let mut args: Vec<String> = Vec::new();
    match platform {
        Platform::Debian => {
            args.push(owned("apt"));
            args.push(owned(verb));
            args.push(owned("-y"));
            args.push(owned(pkg));
            assert(string_views(args@) =~= seq!["apt"@, verb@, "-y"@, pkg@]);
            let a = concat2("sudo apt ", verb);
            let b = concat2(a.as_str(), " -y ");
            let display = concat2(b.as_str(), pkg);
            SystemCommand { program: owned("sudo"), args, display }
        },
        _ => {
            args.push(owned(verb));
            args.push(owned("-y"));
            args.push(owned(pkg));
            assert(string_views(args@) =~= seq![verb@, "-y"@, pkg@]);
            let a = concat2("pkg ", verb);
            let b = concat2(a.as_str(), " -y ");
            let display = concat2(b.as_str(), pkg);
            SystemCommand { program: owned("pkg"), args, display }
        },
    }
}

/// What installing one package takes.
#[derive(Debug)]
pub enum PackageStep {
    /// The package is on the system already: it is recorded as pre-existing.
    AlreadyInstalled,
    /// Dry run: show the command only.
    Preview(SystemCommand),
    /// Run the command; on success the package is recorded as installed by the tool.
    Run(SystemCommand),
}

/// Decides how to install `pkg`, given whether the package manager reports it
/// installed.
pub fn plan_package_install(pkg: &str, platform: &Platform, installed_on_os: bool, dry_run: bool) -> (r:
    PackageStep)
    requires
        !(*platform is Unsupported),
    ensures
        installed_on_os ==> r is AlreadyInstalled,
        !installed_on_os && dry_run ==> (r matches PackageStep::Preview(c) && package_command_ok(
            c,
            *platform,
            "install"@,
            pkg@,
        )),
        !installed_on_os && !dry_run ==> (r matches PackageStep::Run(c) && package_command_ok(
            c,
            *platform,
            "install"@,
            pkg@,
        )),
{
    if installed_on_os {
        return PackageStep::AlreadyInstalled;
    }
    let c = package_command(platform, "install", pkg);
    if dry_run {
        PackageStep::Preview(c)
    } else {
        PackageStep::Run(c)
    }
}

/// Records the outcome of a package step: nothing on a dry run; otherwise a
/// package found on the system is tracked as pre-existing, and one whose install
/// command succeeded as installed by the tool.
pub fn record_package_install(
    state: &mut State,
    pkg: &str,
    cat_name: &str,
    step: &PackageStep,
    succeeded: bool,
    dry_run: bool,
)
    ensures
        dry_run ==> *final(state) == *old(state),
        !dry_run && *step is AlreadyInstalled ==> (final(state).packages.lookup(pkg@) matches Some(p)
            && tracked_as(p, cat_name@, true)),
        !dry_run && *step is Run && succeeded ==> (final(state).packages.lookup(pkg@) matches Some(p)
            && tracked_as(p, cat_name@, false)),
        (dry_run || *step is Preview || (*step is Run && !succeeded)) ==> *final(state) == *old(state),
        forall|k: Seq<char>| k != pkg@ ==> final(state).packages.lookup(k) == old(state).packages.lookup(k),
        final(state).applied_categories == old(state).applied_categories,
        final(state).cached_latest_version == old(state).cached_latest_version,
        final(state).last_update_check_epoch == old(state).last_update_check_epoch,
{
    if dry_run {
        return ;
    }
    match step {
        PackageStep::AlreadyInstalled => state.track_package(pkg, cat_name, true),
        PackageStep::Run(_) => if succeeded {
            state.track_package(pkg, cat_name, false);
        },
        PackageStep::Preview(_) => {},
    }
}

/// Records that category `cat_name` was applied, unless this is a dry run.
pub fn finish_category_install(state: &mut State, cat_name: &str, dry_run: bool)
    ensures
        dry_run ==> *final(state) == *old(state),
        !dry_run ==> final(state).applied_categories.contains(cat_name@),
        forall|k: Seq<char>|
            k != cat_name@ ==> final(state).applied_categories.contains(k) == old(
                state,
            ).applied_categories.contains(k),
        final(state).packages == old(state).packages,
        final(state).cached_latest_version == old(state).cached_latest_version,
        final(state).last_update_check_epoch == old(state).last_update_check_epoch,
{
    if !dry_run {
        state.mark_category_applied(cat_name);
    }
}

// ---------------------------------------------------------------------------
// Configuration files
// ---------------------------------------------------------------------------

/// A configuration file that the tool carries inside itself.
#[derive(Debug, Clone, Copy)]
pub enum EmbeddedAsset {
    StarshipConfig,
    ZshAliases,
    NerdFont,
    I3Config,
    PolybarConfig,
    PolybarLaunch,
}

/// The carried file that stands in for the source path `src` when that path is
/// missing on disk.
pub open spec fn embedded_asset_spec(src: Seq<char>) -> Option<EmbeddedAsset> {
    if src == "config/zsh-tokyonight/starship.toml"@ {
        Some(EmbeddedAsset::StarshipConfig)
    } else if src == "config/zsh-tokyonight/aliases.zsh"@ {
        Some(EmbeddedAsset::ZshAliases)
    } else if src == "config/zsh-tokyonight/font.ttf"@ || src == "config/zsh-minimal/font.ttf"@ {
        Some(EmbeddedAsset::NerdFont)
    } else if src == "config/i3wm/config"@ {
        Some(EmbeddedAsset::I3Config)
    } else if src == "config/i3wm/config.ini"@ {
        Some(EmbeddedAsset::PolybarConfig)
    } else if src == "config/i3wm/launch.sh"@ {
        Some(EmbeddedAsset::PolybarLaunch)
    } else {
        None
    }
}

/// The carried file for a source path (see [`embedded_asset_spec`]).
pub fn embedded_asset_for(src: &str) -> (r: Option<EmbeddedAsset>)
    ensures
        r == embedded_asset_spec(src@),
{
    if crate::text::str_eq(src, "config/zsh-tokyonight/starship.toml") {
        Some(EmbeddedAsset::StarshipConfig)
    } else if crate::text::str_eq(src, "config/zsh-tokyonight/aliases.zsh") {
        Some(EmbeddedAsset::ZshAliases)
    } else if crate::text::str_eq(src, "config/zsh-tokyonight/font.ttf") || crate::text::str_eq(
        src,
        "config/zsh-minimal/font.ttf",
    ) {
        Some(EmbeddedAsset::NerdFont)
    } else if crate::text::str_eq(src, "config/i3wm/config") {
        Some(EmbeddedAsset::I3Config)
    } else if crate::text::str_eq(src, "config/i3wm/config.ini") {
        Some(EmbeddedAsset::PolybarConfig)
    } else if crate::text::str_eq(src, "config/i3wm/launch.sh") {
        Some(EmbeddedAsset::PolybarLaunch)
    } else {
        None
    }
}

/// Where the bytes of a configuration file come from.
#[derive(Debug)]
pub enum CopySource {
    /// The source path on disk.
    Disk,
    /// A file the tool carries.
    Embedded(EmbeddedAsset),
}

/// The source of a configuration file: the path itself when it exists, else the
/// carried file for it; an error when there is neither.
pub fn copy_source(src: &str, src_exists: bool) -> (r: Result<CopySource, String>)
    ensures
        src_exists ==> r matches Ok(CopySource::Disk),
        !src_exists ==> match embedded_asset_spec(src@) {
            Some(a) => r matches Ok(CopySource::Embedded(b)) && b == a,
            None => r matches Err(m) && m@ == "Source file '"@ + src@ + "' not found."@,
        },
{
    if src_exists {
        return Ok(CopySource::Disk);
    }
    match embedded_asset_for(src) {
        Some(a) => Ok(CopySource::Embedded(a)),
        None => {
            let a = concat2("Source file '", src);
            Err(concat2(a.as_str(), "' not found."))
        },
    }
}

/// Where an existing destination is moved before it is overwritten: `<dest>.bak`,
/// or `<dest>.bak.<seconds since the epoch>` when that is taken.
pub open spec fn backup_path_spec(dest: Seq<char>, plain_taken: bool, now_secs: nat) -> Seq<char> {
    if !plain_taken {
        dest + ".bak"@
    } else {
        dest + ".bak."@ + decimal(now_secs)
    }
}

/// Where an existing destination is moved (see [`backup_path_spec`]).
pub fn backup_path(dest: &str, plain_taken: bool, now_secs: u64) -> (r: String)
    ensures
        r@ == backup_path_spec(dest@, plain_taken, now_secs as nat),
{
    if !plain_taken {
        concat2(dest, ".bak")
    } else {
        let a = concat2(dest, ".bak.");
        let n = decimal_string(now_secs);
        concat2(a.as_str(), n.as_str())
    }
}

/// What placing one configuration file takes.
#[derive(Debug)]
pub enum CopyStep {
    /// The action is for another platform.
    Skip,
    /// The destination exists and may not be overwritten.
    KeepExisting(String),
    /// Dry run: show what placing the source at `dest` would do (moving an
    /// existing destination to `backup` first, when one is given); nothing is
    /// touched.
    Preview { dest: String, backup: Option<String>, directory: bool },
    /// Place the source at `dest` (a directory tree when `directory`), after
    /// moving an existing destination to `backup` when one is given.
    Place { dest: String, backup: Option<String>, directory: bool },
}

/// The destination of a copy action: its `dest` with `~/` expanded.
pub open spec fn copy_dest(action: CopyFileAction, home: Option<Seq<char>>) -> Seq<char> {
    expanded_home(action.dest@, home)
}

/// `d`, `b` and `directory` are where and how the source of `action` goes: at
/// its destination `dest`, as a directory when the source is one, after a
/// backup of an existing destination exactly when the action asks for one.
pub open spec fn placement_ok(
    action: CopyFileAction,
    dest: Seq<char>,
    dest_exists: bool,
    plain_backup_taken: bool,
    now_secs: nat,
    src_is_dir: bool,
    d: String,
    b: Option<String>,
    directory: bool,
) -> bool {
    &&& d@ == dest
    &&& directory == src_is_dir
    &&& if action.backup == Some(true) && dest_exists {
        b matches Some(bp) && bp@ == backup_path_spec(dest, plain_backup_taken, now_secs)
    } else {
        b is None
    }
}

/// Decides how to place a configuration file, given whether its destination,
/// `<dest>.bak` and (as a directory) its source exist. A dry run only previews
/// the placement.
pub fn plan_copy_file(
    action: &CopyFileAction,
    platform: &Platform,
    home: Option<&str>,
    dest_exists: bool,
    plain_backup_taken: bool,
    now_secs: u64,
    src_is_dir: bool,
    dry_run: bool,
) -> (r: CopyStep)
    ensures
        ({
            let dest = copy_dest(
                *action,
                match home {
                    Some(h) => Some(h@),
                    None => None,
                },
            );
            if !platform_filter_admits(action.platform, *platform) {
                r is Skip
            } else if action.only_if_not_exists == Some(true) && dest_exists {
                r matches CopyStep::KeepExisting(d) && d@ == dest
            } else if dry_run {
                r matches CopyStep::Preview { dest: d, backup: b, directory } && placement_ok(
                    *action,
                    dest,
                    dest_exists,
                    plain_backup_taken,
                    now_secs as nat,
                    src_is_dir,
                    d,
                    b,
                    directory,
                )
            } else {
                r matches CopyStep::Place { dest: d, backup: b, directory } && placement_ok(
                    *action,
                    dest,
                    dest_exists,
                    plain_backup_taken,
                    now_secs as nat,
                    src_is_dir,
                    d,
                    b,
                    directory,
                )
            }
        }),
        dry_run ==> !(r is Place),
{
    if !platform_filter_matches(&action.platform, platform) {
        return CopyStep::Skip;
    }
    let dest = expand_home(action.dest.as_str(), home);
    let only_new = match action.only_if_not_exists {
        Some(b) => b,
        None => false,
    };
    if only_new && dest_exists {
        return CopyStep::KeepExisting(dest);
    }
    let wants_backup = match action.backup {
        Some(b) => b,
        None => false,
    };
    let backup = if wants_backup && dest_exists {
        Some(backup_path(dest.as_str(), plain_backup_taken, now_secs))
    } else {
        None
    };
    if dry_run {
        CopyStep::Preview { dest, backup, directory: src_is_dir }
    } else {
        CopyStep::Place { dest, backup, directory: src_is_dir }
    }
}

// ---------------------------------------------------------------------------
// Post-install commands
// ---------------------------------------------------------------------------

/// What running one post-install command takes.
#[derive(Debug)]
pub enum CommandStep {
    /// The command is for another platform.
    Skip,
    /// The command changes the login shell, which already is Zsh.
    SkipShellIsZsh,
    /// The command needed a yes that it did not get.
    SkipDeclined,
    /// Dry run: show the command only.
    Preview,
    /// Run the command through `sh -c`.
    Run(SystemCommand),
}

/// Decides how to run a post-install command, given the answer recorded for it
/// when the questions were asked (`false` when none was).
pub fn plan_post_command(
    cmd: &PostInstallCommand,
    platform: &Platform,
    shell_zsh: bool,
    confirmed: bool,
    dry_run: bool,
) -> (r: CommandStep)
    ensures
        !platform_filter_admits(cmd.platform, *platform) ==> r is Skip,
        platform_filter_admits(cmd.platform, *platform) ==> {
            if moot_shell_change(*cmd, shell_zsh) {
                r is SkipShellIsZsh
            } else if needs_confirmation(*cmd) && !confirmed {
                r is SkipDeclined
            } else if dry_run {
                r is Preview
            } else {
                r matches CommandStep::Run(c) && c.program@ == "sh"@ && args_view(c) == seq![
                    "-c"@,
                    cmd.command@,
                ] && c.display@ == cmd.command@
            }
        },
{
    if !platform_filter_matches(&cmd.platform, platform) {
        return CommandStep::Skip;
    }
    if str_contains(cmd.command.as_str(), "chsh") && shell_zsh {
        return CommandStep::SkipShellIsZsh;
    }
    let confirm = match cmd.confirm {
        Some(b) => b,
        None => false,
    };
    if (confirm || cmd.prompt.is_some()) && !confirmed {
        return CommandStep::SkipDeclined;
    }
    if dry_run {
        return CommandStep::Preview;
    }
    let mut args: Vec<String> = Vec::new();
    args.push(owned("-c"));
    args.push(cmd.command.clone());
    assert(string_views(args@) =~= seq!["-c"@, cmd.command@]);
    CommandStep::Run(SystemCommand { program: owned("sh"), args, display: cmd.command.clone() })
}

// ---------------------------------------------------------------------------
// Section injections
// ---------------------------------------------------------------------------

/// The line an injection is recognised by: the first line of its text, trimmed
/// (the whole text, trimmed, when it has no line).
pub open spec fn injection_key(line: Seq<char>) -> Seq<char> {
    let ls = lines(line);
    trim(if ls.len() > 0 {
        ls[0]
    } else {
        line
    })
}

/// Some line of `content`, trimmed, is `key`.
pub open spec fn has_trimmed_line(content: Seq<char>, key: Seq<char>) -> bool {
    exists|i: int| 0 <= i < lines(content).len() && trim(#[trigger] lines(content)[i]) == key
}

/// What one section injection takes.
#[derive(Debug)]
pub enum InjectionStep {
    /// The injection is for another platform.
    Skip,
    /// The file already has the line (the key is given).
    AlreadyPresent(String),
    /// Dry run: show what would be injected.
    Preview,
    /// Write this content to the file.
    Write(String),
}

fn injection_key_of(line: &str) -> (r: Vec<char>)
    ensures
        r@ == injection_key(line@),
{
    let lv = chars_of(line);
    let ls = lines_of(lv.as_slice());
    if ls.len() > 0 {
        trim_chars(ls[0].as_slice(), &CharClass::Whitespace)
    } else {
        trim_chars(lv.as_slice(), &CharClass::Whitespace)
    }
}

fn has_trimmed_line_exec(content: &str, key: &[char]) -> (r: bool)
    ensures
        r == has_trimmed_line(content@, key@),
{
    let cv = chars_of(content);
    let ls = lines_of(cv.as_slice());
    let ghost vs = lines(content@);
    let mut i: usize = 0;
    while i < ls.len()
        invariant
            i <= ls@.len(),
            vs == char_vec_views(ls@),
            vs == lines(content@),
            forall|j: int| 0 <= j < i ==> trim(#[trigger] vs[j]) != key@,
        decreases ls.len() - i,
    {
        let t = trim_chars(ls[i].as_slice(), &CharClass::Whitespace);
        assert(vs[i as int] == ls@[i as int]@);
        if slice_eq(t.as_slice(), key) {
            assert(trim(lines(content@)[i as int]) == key@);
            return true;
        }
        i = i + 1;
    }
    false
}

/// Decides how to apply a section injection to the file whose current content is
/// `content` (empty when the file does not exist).
pub fn plan_section_injection(inj: &SectionInjection, platform: &Platform, content: &str, dry_run: bool) -> (r:
    InjectionStep)
    ensures
        !platform_filter_admits(inj.platform, *platform) ==> r is Skip,
        platform_filter_admits(inj.platform, *platform) ==> {
            if has_trimmed_line(content@, injection_key(inj.line@)) {
                r matches InjectionStep::AlreadyPresent(k) && k@ == injection_key(inj.line@)
            } else if dry_run {
                r is Preview
            } else {
                r matches InjectionStep::Write(c) && c@ == injected(
                    content@,
                    inj.section@,
                    inj.line@,
                    crate::config::opt_view(inj.position),
                )
            }
        },
{
    if !platform_filter_matches(&inj.platform, platform) {
        return InjectionStep::Skip;
    }
    let key = injection_key_of(inj.line.as_str());
    if has_trimmed_line_exec(content, key.as_slice()) {
        return InjectionStep::AlreadyPresent(string_of(key.as_slice()));
    }
    if dry_run {
        return InjectionStep::Preview;
    }
    let position: Option<&str> = match &inj.position {
        Some(p) => Some(p.as_str()),
        None => None,
    };
    InjectionStep::Write(inject_line_into_section(content, inj.section.as_str(), inj.line.as_str(), position))
}

/// `ln` holds a line that trims to `key`: it is that line itself, or that line
/// comes first and a line feed follows it.
spec fn heads_with(ln: Seq<char>, key: Seq<char>) -> bool {
    ||| (!ln.contains('\n') && ln.len() > 0 && trim(ln) == key && strip_cr(ln) == ln)
    ||| exists|k: int|
        0 <= k < ln.len() && ln[k] == '\n' && !ln.take(k).contains('\n') && trim(strip_cr(#[trigger] ln.take(k)))
            == key
}

proof fn lemma_first_newline(s: Seq<char>) -> (k: int)
    requires
        s.contains('\n'),
    ensures
        0 <= k < s.len(),
        s[k] == '\n',
        !s.take(k).contains('\n'),
    decreases s.len(),
{
    if s.drop_last().contains('\n') {
        let k = lemma_first_newline(s.drop_last());
        assert(s.take(k) =~= s.drop_last().take(k));
        k
    } else {
        let k = s.len() - 1;
        let i = choose|i: int| 0 <= i < s.len() && s[i] == '\n';
        if i < k {
            assert(s.drop_last()[i] == '\n');
        }
        assert(s.take(k) =~= s.drop_last());
        k
    }
}

/// `line` is its first line `p0` (without line feed) followed by `q`, which is
/// empty or starts with the line feed; the injection's key is `p0` trimmed.
proof fn lemma_first_line_split(line: Seq<char>) -> (r: (Seq<char>, Seq<char>))
    requires
        lines(line).len() > 0,
    ensures
        line == r.0 + r.1,
        !r.0.contains('\n'),
        r.1.len() > 0 ==> r.1[0] == '\n',
        injection_key(line) == trim(r.0),
{
    let nl: Seq<char> = seq!['\n'];
    let parts = split_char(line, '\n');
    if line.contains('\n') {
        let i = lemma_first_newline(line);
        let a = line.take(i);
        let b = line.skip(i + 1);
        assert(line =~= a + nl + b);
        lemma_split_char_concat(a, b, '\n');
        lemma_split_char_single(a, '\n');
        lemma_split_char_nonempty(b, '\n');
        assert(parts[0] == a);
        assert(lines(line)[0] == strip_cr(a));
        lemma_trim_strip_cr(a);
        assert(line =~= a + line.skip(i));
        (a, line.skip(i))
    } else {
        lemma_split_char_single(line, '\n');
        assert(lines(line)[0] == line);
        assert(line =~= line + Seq::<char>::empty());
        (line, Seq::<char>::empty())
    }
}

/// The trimmed text of an injection whose first line is not blank opens with a
/// line that trims to the injection's key.
#[verifier::spinoff_prover]
proof fn lemma_trimmed_head(line: Seq<char>)
    requires
        lines(line).len() > 0,
        trim(lines(line)[0]).len() > 0,
    ensures
        heads_with(trim(line), injection_key(line)),
{
    let k = CharClass::Whitespace;
    let key = injection_key(line);
    let (p0, q) = lemma_first_line_split(line);
    let u = trim_start_by(p0, k);
    assert(u.len() > 0);
    lemma_trim_start_shape(p0, k);
    lemma_trim_start_concat(p0, q);
    lemma_trim_end_concat(u, q);
    let ln = trim(line);
    assert(ln == trim_end_by(u + q, k));
    assert(!u.contains('\n')) by {
        if u.contains('\n') {
            let j = choose|j: int| 0 <= j < u.len() && u[j] == '\n';
            assert(p0[p0.len() - u.len() + j] == '\n');
        }
    }
    lemma_trim_shape(p0);
    if exists|j: int| 0 <= j < q.len() && !is_ws(#[trigger] q[j]) {
        let te = trim_end_by(q, k);
        lemma_trim_end_shape(q, k);
        assert(te[0] == q[0]);
        assert(ln == u + te);
        let n = u.len() as int;
        assert(ln[n] == '\n');
        assert(ln.take(n) =~= u);
        lemma_trim_strip_cr(u);
        assert(trim_start_by(u, k) == u);
        assert(trim(u) == trim_end_by(u, k));
        assert(trim(strip_cr(ln.take(n))) == key);
    } else {
        assert(ln == trim(p0));
        lemma_trim_no_newline(p0);
        assert(is_ws('\r'));
    }
}

/// A line that trims to `key` stands in `a`, a line feed, `ln` and `rest`, when
/// `ln` holds such a line first and `rest` is empty or starts a new line.
proof fn lemma_head_line_present(a: Seq<char>, ln: Seq<char>, rest: Seq<char>, key: Seq<char>)
    requires
        heads_with(ln, key),
        rest.len() == 0 || rest[0] == '\n',
    ensures
        has_trimmed_line(a + seq!['\n'] + ln + rest, key),
{
    let nl: Seq<char> = seq!['\n'];
    let c = a + nl + ln + rest;
    let x = if !ln.contains('\n') && ln.len() > 0 && trim(ln) == key && strip_cr(ln) == ln {
        if rest.len() == 0 {
            assert(c =~= a + nl + ln);
            lemma_lines_last(a, ln);
        } else {
            let b = rest.skip(1);
            assert(c =~= a + nl + ln + nl + b);
            lemma_lines_inner(a, ln, b);
        }
        ln
    } else {
        let k = choose|k: int|
            0 <= k < ln.len() && ln[k] == '\n' && !ln.take(k).contains('\n') && trim(strip_cr(#[trigger] ln.take(k)))
                == key;
        let u = ln.take(k);
        let r = ln.skip(k + 1);
        assert(c =~= a + nl + u + nl + (r + rest));
        lemma_lines_inner(a, u, r + rest);
        strip_cr(u)
    };
    assert(lines(c).contains(x));
    let i = choose|i: int| 0 <= i < lines(c).len() && lines(c)[i] == x;
    assert(trim(lines(c)[i]) == key);
}

/// Injecting a line is idempotent: once a section injection has written its
/// text (whose first line is not blank, possibly followed by more lines), the
/// new content has a line that trims to the injection's key (the trimmed first
/// line), so planning the same injection again finds it and skips.
pub proof fn law_injection_is_idempotent(
    content: Seq<char>,
    section: Seq<char>,
    line: Seq<char>,
    position: Option<Seq<char>>,
)
    requires
        lines(line).len() > 0,
        trim(lines(line)[0]).len() > 0,
    ensures
        has_trimmed_line(injected(content, section, line, position), injection_key(line)),
{
    reveal_strlit("\n");
    let nl: Seq<char> = seq!['\n'];
    assert("\n"@ =~= nl);
    let ln = trim(line);
    let key = injection_key(line);
    lemma_trimmed_head(line);
    let new = injected(content, section, line, position);
    let ls = lines(content);
    let sec = trim(section);
    match first_header(ls, section, 0) {
        Some(h) => {
            lemma_first_header_bounds(ls, section, 0);
            let l1 = ls.take(h + 1);
            let l2 = ls.skip(h + 1);
            let with = l1.push(ln);
            assert(with.drop_last() =~= l1);
            assert(join(with, nl) == join(l1, nl) + nl + ln);
            if l2.len() > 0 {
                assert(ls.insert(h + 1, ln) =~= with + l2);
                lemma_join_append(with, l2, nl);
                let b = if ends_with(content, nl) || content.len() == 0 {
                    join(l2, nl) + nl
                } else {
                    join(l2, nl)
                };
                assert(new =~= join(l1, nl) + nl + ln + (nl + b));
                lemma_head_line_present(join(l1, nl), ln, nl + b, key);
            } else {
                assert(ls.insert(h + 1, ln) =~= with);
                if ends_with(content, nl) || content.len() == 0 {
                    assert(new =~= join(l1, nl) + nl + ln + nl);
                    lemma_head_line_present(join(l1, nl), ln, nl, key);
                } else {
                    assert(new =~= join(l1, nl) + nl + ln + Seq::<char>::empty());
                    lemma_head_line_present(join(l1, nl), ln, Seq::<char>::empty(), key);
                }
            }
        },
        None => {
            if position_is_top(position) {
                if content.len() == 0 {
                    assert(new =~= sec + nl + ln + nl);
                    lemma_head_line_present(sec, ln, nl, key);
                } else {
                    let body = sec + nl + ln + nl + nl + trim_by_start_ws(content);
                    let b = if ends_with(body, nl) {
                        nl + trim_by_start_ws(content)
                    } else {
                        nl + trim_by_start_ws(content) + nl
                    };
                    assert(new =~= sec + nl + ln + (nl + b));
                    lemma_head_line_present(sec, ln, nl + b, key);
                }
            } else {
                let c1 = if content.len() > 0 && !ends_with(content, nl) {
                    content + nl
                } else {
                    content
                };
                let c2 = if c1.len() > 0 {
                    c1 + nl
                } else {
                    c1
                };
                assert(new =~= (c2 + sec) + nl + ln + nl);
                lemma_head_line_present(c2 + sec, ln, nl, key);
            }
        },
    }
}

// ---------------------------------------------------------------------------
// Custom binaries
// ---------------------------------------------------------------------------

/// The custom binary installed along with `cat` on `platform`: its Debian
/// installer, on Debian only.
pub fn custom_for_install<'a>(cat: &'a Category, platform: &Platform) -> (r: Option<&'a CustomInstaller>)
    ensures
        match r {
            Some(c) => *platform is Debian && debian_custom(*cat) == Some(*c),
            None => !(*platform is Debian) || debian_custom(*cat) is None,
        },
{
    match platform {
        Platform::Debian => match &cat.custom {
            Some(m) => m.get("debian"),
            None => None,
        },
        _ => None,
    }
}

/// What installing a custom binary takes.
#[derive(Debug)]
pub enum CustomStep {
    /// The symlink and the extraction directory exist: it is recorded as pre-existing.
    AlreadyInstalled,
    /// Dry run: show the download, extraction and symlink.
    Preview,
    /// Download, extract and link it.
    Download,
}

/// The message when `curl` or `tar` is missing.
pub open spec fn missing_tools_message() -> Seq<char> {
    "Prerequisite binaries 'curl' and 'tar' are required for custom downloads. Please install them first."@
}

/// Decides how to install a custom binary, given whether `curl` and `tar` are
/// found and whether its symlink and extraction directory exist.
pub fn plan_custom_install(has_curl: bool, has_tar: bool, bin_exists: bool, extract_exists: bool, dry_run: bool)
    -> (r: Result<CustomStep, String>)
    ensures
        !(has_curl && has_tar) ==> (r matches Err(m) && m@ == missing_tools_message()),
        has_curl && has_tar ==> {
            if bin_exists && extract_exists {
                r matches Ok(CustomStep::AlreadyInstalled)
            } else if dry_run {
                r matches Ok(CustomStep::Preview)
            } else {
                r matches Ok(CustomStep::Download)
            }
        },
{
    if !(has_curl && has_tar) {
        return Err(
            owned(
                "Prerequisite binaries 'curl' and 'tar' are required for custom downloads. Please install them first.",
            ),
        );
    }
    if bin_exists && extract_exists {
        Ok(CustomStep::AlreadyInstalled)
    } else if dry_run {
        Ok(CustomStep::Preview)
    } else {
        Ok(CustomStep::Download)
    }
}

/// Where an extracted binary may be: `<extract_dir>/bin/<name>` (nested release
/// archives) and `<extract_dir>/<name>` (flat ones).
pub fn extracted_binary_candidates(custom: &CustomInstaller) -> (r: (String, String))
    ensures
        r.0@ == custom.extract_dir@ + "/bin/"@ + custom.name@,
        r.1@ == custom.extract_dir@ + "/"@ + custom.name@,
{
    let a = concat2(custom.extract_dir.as_str(), "/bin/");
    let nested = concat2(a.as_str(), custom.name.as_str());
    let b = concat2(custom.extract_dir.as_str(), "/");
    let flat = concat2(b.as_str(), custom.name.as_str());
    (nested, flat)
}

/// The extracted binary to link: the nested candidate if it exists, else the
/// flat one; an error when neither exists.
pub fn choose_extracted_binary(custom: &CustomInstaller, nested_exists: bool, flat_exists: bool) -> (r:
    Result<String, String>)
    ensures
        nested_exists ==> (r matches Ok(p) && p@ == custom.extract_dir@ + "/bin/"@ + custom.name@),
        !nested_exists && flat_exists ==> (r matches Ok(p) && p@ == custom.extract_dir@ + "/"@
            + custom.name@),
        !nested_exists && !flat_exists ==> (r matches Err(m) && m@ == "Extracted binary '"@ + custom.name@
            + "' was not found in "@ + custom.extract_dir@ + " or "@ + custom.extract_dir@ + "/bin"@),
{
    let (nested, flat) = extracted_binary_candidates(custom);
    if nested_exists {
        Ok(nested)
    } else if flat_exists {
        Ok(flat)
    } else {
        let a = concat2("Extracted binary '", custom.name.as_str());
        let b = concat2(a.as_str(), "' was not found in ");
        let c = concat2(b.as_str(), custom.extract_dir.as_str());
        let d = concat2(c.as_str(), " or ");
        let e = concat2(d.as_str(), custom.extract_dir.as_str());
        Err(concat2(e.as_str(), "/bin"))
    }
}

/// Records the outcome of a custom binary step, as for a package: nothing on a
/// dry run; pre-existing when it was found installed; installed by the tool when
/// the download succeeded.
pub fn record_custom_install(
    state: &mut State,
    custom: &CustomInstaller,
    cat_name: &str,
    step: &CustomStep,
    succeeded: bool,
    dry_run: bool,
)
    ensures
        (dry_run || *step is Preview || (*step is Download && !succeeded)) ==> *final(state) == *old(state),
        !dry_run && *step is AlreadyInstalled ==> (final(state).packages.lookup(custom.name@) matches Some(
            p,
        ) && tracked_as(p, cat_name@, true)),
        !dry_run && *step is Download && succeeded ==> (final(state).packages.lookup(custom.name@) matches Some(
            p,
        ) && tracked_as(p, cat_name@, false)),
        forall|k: Seq<char>|
            k != custom.name@ ==> final(state).packages.lookup(k) == old(state).packages.lookup(k),
        final(state).applied_categories == old(state).applied_categories,
        final(state).cached_latest_version == old(state).cached_latest_version,
        final(state).last_update_check_epoch == old(state).last_update_check_epoch,
{
    if dry_run {
        return ;
    }
    match step {
        CustomStep::AlreadyInstalled => state.track_package(custom.name.as_str(), cat_name, true),
        CustomStep::Download => if succeeded {
            state.track_package(custom.name.as_str(), cat_name, false);
        },
        CustomStep::Preview => {},
    }
}

// ---------------------------------------------------------------------------
// Removal
// ---------------------------------------------------------------------------

/// What removing one package takes.
#[derive(Debug)]
pub enum RemovalStep {
    /// The tool did not install it: it stays.
    Untracked,
    /// It was on the system before the tool: it stays.
    Preexisting,
    /// Dry run: show the command only.
    Preview(SystemCommand),
    /// Run the command; on success the package is forgotten.
    Run(SystemCommand),
}

/// The state tracks `pkg` as installed by the tool (not found on the system).
pub open spec fn removable(state: State, pkg: Seq<char>) -> bool {
    state.packages.lookup(pkg) matches Some(p) && !p.was_preexisting
}

/// A package recorded as found on the system is protected: removal keeps it.
pub proof fn law_preexisting_package_is_kept(state: State, pkg: Seq<char>, cat: Seq<char>)
    requires
        state.packages.lookup(pkg) matches Some(p) && tracked_as(p, cat, true),
    ensures
        !removable(state, pkg),
{
}

/// A package that the tool installed is one that removal takes away.
pub proof fn law_tool_installed_package_is_removable(state: State, pkg: Seq<char>, cat: Seq<char>)
    requires
        state.packages.lookup(pkg) matches Some(p) && tracked_as(p, cat, false),
    ensures
        removable(state, pkg),
{
}

/// Decides how to remove `pkg`: only a package that the state tracks as
/// installed by the tool is ever removed.
pub fn plan_package_removal(pkg: &str, platform: &Platform, state: &State, dry_run: bool) -> (r: RemovalStep)
    requires
        !(*platform is Unsupported),
    ensures
        state.packages.lookup(pkg@) is None ==> r is Untracked,
        state.packages.lookup(pkg@) is Some && !removable(*state, pkg@) ==> r is Preexisting,
        removable(*state, pkg@) && dry_run ==> (r matches RemovalStep::Preview(c) && package_command_ok(
            c,
            *platform,
            "remove"@,
            pkg@,
        )),
        removable(*state, pkg@) && !dry_run ==> (r matches RemovalStep::Run(c) && package_command_ok(
            c,
            *platform,
            "remove"@,
            pkg@,
        )),
{
    match state.packages.get(pkg) {
        None => RemovalStep::Untracked,
        Some(p) => {
            if p.was_preexisting {
                RemovalStep::Preexisting
            } else {
                let c = package_command(platform, "remove", pkg);
                if dry_run {
                    RemovalStep::Preview(c)
                } else {
                    RemovalStep::Run(c)
                }
            }
        },
    }
}

/// Records the outcome of a removal step: a package whose remove command
/// succeeded is forgotten; nothing else changes.
pub fn record_package_removal(state: &mut State, pkg: &str, step: &RemovalStep, succeeded: bool)
    ensures
        *step is Run && succeeded ==> final(state).packages.lookup(pkg@) is None,
        !(*step is Run && succeeded) ==> *final(state) == *old(state),
        forall|k: Seq<char>| k != pkg@ ==> final(state).packages.lookup(k) == old(state).packages.lookup(k),
        final(state).applied_categories == old(state).applied_categories,
        final(state).cached_latest_version == old(state).cached_latest_version,
        final(state).last_update_check_epoch == old(state).last_update_check_epoch,
{
    if let RemovalStep::Run(_) = step {
        if succeeded {
            state.remove_package(pkg);
        }
    }
}

/// Removing a custom binary: its symlink and the command that deletes its
/// extraction directory.
#[derive(Debug)]
pub struct CustomRemoval {
    pub name: String,
    pub symlink: String,
    pub delete_command: SystemCommand,
}

/// `x` is the removal of the custom binary that removing `cat` takes away: its
/// Debian one, on Debian, when the state tracks it as installed by the tool.
pub open spec fn custom_removal_ok(
    x: CustomRemoval,
    cat: Category,
    platform: Platform,
    state: State,
    home: Option<Seq<char>>,
) -> bool {
    &&& platform is Debian
    &&& debian_custom(cat) matches Some(c)
    &&& state.packages.lookup(c.name@) matches Some(p)
    &&& !p.was_preexisting
    &&& x.name@ == c.name@
    &&& x.symlink@ == expanded_home(c.bin_symlink@, home)
    &&& x.delete_command.program@ == "sudo"@
    &&& args_view(x.delete_command) == seq!["rm"@, "-rf"@, c.extract_dir@]
    &&& x.delete_command.display@ == "sudo rm -rf "@ + c.extract_dir@
}

/// What removing a custom binary takes.
#[derive(Debug)]
pub enum CustomRemovalStep {
    /// Dry run: show the removal only.
    Preview(CustomRemoval),
    /// Remove the symlink and run the delete command.
    Remove(CustomRemoval),
}

/// The custom binary that removing `cat` takes away (see
/// [`custom_removal_ok`]), if any; a dry run only previews its removal.
pub fn plan_custom_removal(cat: &Category, platform: &Platform, state: &State, home: Option<&str>, dry_run: bool) -> (r:
    Option<CustomRemovalStep>)
    ensures
        ({
            let hv = match home {
                Some(h) => Some(h@),
                None => None,
            };
            match r {
                Some(CustomRemovalStep::Preview(x)) => dry_run && custom_removal_ok(x, *cat, *platform, *state, hv),
                Some(CustomRemovalStep::Remove(x)) => !dry_run && custom_removal_ok(x, *cat, *platform, *state, hv),
                None => !(*platform is Debian) || debian_custom(*cat) is None || !(state.packages.lookup(
                    debian_custom(*cat)->0.name@,
                ) matches Some(p) && !p.was_preexisting),
            }
        }),
{
    let c = match custom_for_install(cat, platform) {
        Some(c) => c,
        None => {
            return None;
        },
    };
    match state.packages.get(c.name.as_str()) {
        Some(p) => {
            if p.was_preexisting {
                return None;
            }
        },
        None => {
            return None;
        },
    }
    let mut args: Vec<String> = Vec::new();
    args.push(owned("rm"));
    args.push(owned("-rf"));
    args.push(c.extract_dir.clone());
    assert(string_views(args@) =~= seq!["rm"@, "-rf"@, c.extract_dir@]);
    let display = concat2("sudo rm -rf ", c.extract_dir.as_str());
    let x = CustomRemoval {
        name: c.name.clone(),
        symlink: expand_home(c.bin_symlink.as_str(), home),
        delete_command: SystemCommand { program: owned("sudo"), args, display },
    };
    if dry_run {
        Some(CustomRemovalStep::Preview(x))
    } else {
        Some(CustomRemovalStep::Remove(x))
    }
}

/// Records a custom binary removal: outside a dry run it is forgotten, whatever
/// became of the symlink and the directory.
pub fn record_custom_removal(state: &mut State, removal: &CustomRemoval, dry_run: bool)
    ensures
        dry_run ==> *final(state) == *old(state),
        !dry_run ==> final(state).packages.lookup(removal.name@) is None,
        forall|k: Seq<char>|
            k != removal.name@ ==> final(state).packages.lookup(k) == old(state).packages.lookup(k),
        final(state).applied_categories == old(state).applied_categories,
        final(state).cached_latest_version == old(state).cached_latest_version,
        final(state).last_update_check_epoch == old(state).last_update_check_epoch,
{
    if !dry_run {
        state.remove_package(removal.name.as_str());
    }
}

/// What removing a placed configuration file takes.
#[derive(Debug)]
pub enum CopyRemoval {
    /// Other platform, or nothing at the destination.
    Skip,
    /// Dry run: show that the directory tree at this path would be removed.
    PreviewDirectory(String),
    /// Dry run: show that the file at this path would be removed.
    PreviewFile(String),
    /// Remove the directory tree at this path.
    RemoveDirectory(String),
    /// Remove the file at this path.
    RemoveFile(String),
}

/// Decides how to take away what a copy action placed, given what is at its
/// destination; a dry run only previews it.
pub fn plan_copy_removal(
    action: &CopyFileAction,
    platform: &Platform,
    home: Option<&str>,
    dest_exists: bool,
    dest_is_dir: bool,
    dest_is_file: bool,
    dry_run: bool,
) -> (r: CopyRemoval)
    ensures
        ({
            let dest = copy_dest(
                *action,
                match home {
                    Some(h) => Some(h@),
                    None => None,
                },
            );
            if !platform_filter_admits(action.platform, *platform) || !dest_exists {
                r is Skip
            } else if dest_is_dir {
                if dry_run {
                    r matches CopyRemoval::PreviewDirectory(d) && d@ == dest
                } else {
                    r matches CopyRemoval::RemoveDirectory(d) && d@ == dest
                }
            } else if dest_is_file {
                if dry_run {
                    r matches CopyRemoval::PreviewFile(d) && d@ == dest
                } else {
                    r matches CopyRemoval::RemoveFile(d) && d@ == dest
                }
            } else {
                r is Skip
            }
        }),
{
    if !platform_filter_matches(&action.platform, platform) || !dest_exists {
        return CopyRemoval::Skip;
    }
    let dest = expand_home(action.dest.as_str(), home);
    if dest_is_dir {
        if dry_run {
            CopyRemoval::PreviewDirectory(dest)
        } else {
            CopyRemoval::RemoveDirectory(dest)
        }
    } else if dest_is_file {
        if dry_run {
            CopyRemoval::PreviewFile(dest)
        } else {
            CopyRemoval::RemoveFile(dest)
        }
    } else {
        CopyRemoval::Skip
    }
}

/// The Zsh directories that removing `zsh-tokyonight` cleans up: its plugin
/// directory, then `~/.config/zsh` itself when that is left empty.
pub fn zsh_cleanup_dirs(cat_name: &str, home: Option<&str>) -> (r: Option<(String, String)>)
    ensures
        cat_name@ != "zsh-tokyonight"@ ==> r is None,
        cat_name@ == "zsh-tokyonight"@ ==> (r matches Some((a, b)) && a@ == expanded_home(
            "~/.config/zsh/plugins"@,
            match home {
                Some(h) => Some(h@),
                None => None,
            },
        ) && b@ == expanded_home(
            "~/.config/zsh"@,
            match home {
                Some(h) => Some(h@),
                None => None,
            },
        )),
{
    if !crate::text::str_eq(cat_name, "zsh-tokyonight") {
        return None;
    }
    Some((expand_home("~/.config/zsh/plugins", home), expand_home("~/.config/zsh", home)))
}

/// What removing one of the Zsh directories takes.
#[derive(Debug)]
pub enum DirRemoval {
    /// Nothing to remove (the directory is missing, or not empty where only an
    /// empty one goes).
    Skip,
    /// Dry run: show that the directory would be removed.
    Preview(String),
    /// Remove the directory.
    Remove(String),
}

/// Decides how to clean up the Zsh directory `dir`, given whether it is there
/// to remove (for `~/.config/zsh` itself: whether it is there and empty); a dry
/// run only previews it.
pub fn plan_dir_removal(dir: &str, removable: bool, dry_run: bool) -> (r: DirRemoval)
    ensures
        !removable ==> r is Skip,
        removable && dry_run ==> (r matches DirRemoval::Preview(d) && d@ == dir@),
        removable && !dry_run ==> (r matches DirRemoval::Remove(d) && d@ == dir@),
{
    if !removable {
        DirRemoval::Skip
    } else if dry_run {
        DirRemoval::Preview(owned(dir))
    } else {
        DirRemoval::Remove(owned(dir))
    }
}

/// Records that category `cat_name` is no longer applied, unless this is a dry run.
pub fn finish_category_removal(state: &mut State, cat_name: &str, dry_run: bool)
    ensures
        dry_run ==> *final(state) == *old(state),
        !dry_run ==> !final(state).applied_categories.contains(cat_name@),
        forall|k: Seq<char>|
            k != cat_name@ ==> final(state).applied_categories.contains(k) == old(
                state,
            ).applied_categories.contains(k),
        final(state).packages == old(state).packages,
        final(state).cached_latest_version == old(state).cached_latest_version,
        final(state).last_update_check_epoch == old(state).last_update_check_epoch,
{
    if !dry_run {
        state.unmark_category_applied(cat_name);
    }
}

} // verus!
