//! The details of one category (`show`): its description and aliases, the
//! status of its included categories and packages, and the configuration
//! steps it declares.
use crate::colors::{BOLD_BLUE, BOLD_GREEN, DIM_GRAY, RESET};
use crate::config::{first_alias_match, Category, Config, CopyFileAction, CustomInstaller, PostInstallCommand, SectionInjection};
use crate::host::HostView;
use crate::keyed::{keys_sorted, lemma_sorted_unique};
use crate::installer::{applied, command_summary, debian_custom, summary_cut_ok};
use crate::paths::expanded_home;
use crate::platform::Platform;
use crate::state::State;
use crate::text::{join, owned, string_views};
use vstd::prelude::*;

verus! {

fn push_str(v: &mut Vec<char>, s: &str)
    ensures
        final(v)@ == old(v)@ + s@,
{
    let mut w = crate::text::chars_of(s);
    v.append(&mut w);
}

/// ` (Platform: <p>)` for an action restricted to a platform.
pub open spec fn platform_note(platform: Option<String>) -> Seq<char> {
    match platform {
        Some(p) => " (Platform: "@ + p@ + ")"@,
        None => Seq::empty(),
    }
}

fn push_platform_note(v: &mut Vec<char>, platform: &Option<String>)
    ensures
        final(v)@ == old(v)@ + platform_note(*platform),
{
    let ghost start = v@;
    match platform {
        Some(p) => {
            push_str(v, " (Platform: ");
            push_str(v, p.as_str());
            push_str(v, ")");
        },
        None => {},
    }
    assert(v@ =~= start + platform_note(*platform));
}

/// A section heading.
pub open spec fn heading(title: Seq<char>) -> Seq<char> {
    "\n"@ + BOLD_BLUE@ + title + RESET@ + "\n"@
}

fn push_heading(v: &mut Vec<char>, title: &str)
    ensures
        final(v)@ == old(v)@ + heading(title@),
{
    let ghost start = v@;
    push_str(v, "\n");
    push_str(v, BOLD_BLUE);
    push_str(v, title);
    push_str(v, RESET);
    push_str(v, "\n");
    assert(v@ =~= start + heading(title@));
}

// ---------------------------------------------------------------------------
// Included categories
// ---------------------------------------------------------------------------

/// The status of an included category: applied or not, or unknown when the
/// catalog has no such category.
pub open spec fn include_status(config: Config, state: State, p: Platform, host: HostView, inc: Seq<char>) -> Seq<char> {
    match config.categories.lookup(inc) {
        Some(sub) => if applied(config, inc, sub, state, p, host) == Some(true) {
            "Applied"@
        } else {
            "Not applied"@
        },
        None => "Unknown"@,
    }
}

/// The included categories' lines.
pub open spec fn include_lines(config: Config, state: State, p: Platform, host: HostView, incs: Seq<Seq<char>>) -> Seq<char>
    decreases incs.len(),
{
    if incs.len() == 0 {
        seq![]
    } else {
        include_lines(config, state, p, host, incs.drop_last()) + "  - "@ + DIM_GRAY@ + incs.last() + RESET@
            + " ["@ + include_status(config, state, p, host, incs.last()) + "]\n"@
    }
}

/// Every included category that exists has an applied status (a pack cycle that
/// the evaluation runs into has none).
pub open spec fn includes_evaluable(config: Config, state: State, p: Platform, host: HostView, cat: Category) -> bool {
    cat.includes matches Some(incs) ==> forall|j: int|
        0 <= j < incs@.len() ==> (config.categories.lookup(#[trigger] incs@[j]@) matches Some(sub) ==> applied(
            config,
            incs@[j]@,
            sub,
            state,
            p,
            host,
        ) is Some)
}

fn include_lines_of(
    config: &Config,
    state: &State,
    platform: &Platform,
    host: &HostView,
    incs: &Vec<String>,
) -> (r: Vec<char>)
    requires
        config.categories.keys().len() < usize::MAX,
        forall|j: int|
            0 <= j < incs@.len() ==> (config.categories.lookup(#[trigger] incs@[j]@) matches Some(sub)
                ==> applied(*config, incs@[j]@, sub, *state, *platform, *host) is Some),
    ensures
        r@ == include_lines(*config, *state, *platform, *host, string_views(incs@)),
{
    let ghost iv = string_views(incs@);
    let mut out: Vec<char> = Vec::new();
    let mut i: usize = 0;
    while i < incs.len()
        invariant
            i <= incs@.len(),
            iv == string_views(incs@),
            config.categories.keys().len() < usize::MAX,
            forall|j: int|
                0 <= j < incs@.len() ==> (config.categories.lookup(#[trigger] incs@[j]@) matches Some(sub)
                    ==> applied(*config, incs@[j]@, sub, *state, *platform, *host) is Some),
            out@ == include_lines(*config, *state, *platform, *host, iv.take(i as int)),
        decreases incs.len() - i,
    {
        assert(iv.take(i + 1).drop_last() =~= iv.take(i as int));
        assert(iv.take(i + 1).last() == incs@[i as int]@);
        let inc = incs[i].as_str();
        let status = match config.categories.get(inc) {
            Some(sub) => {
                assert(config.categories.lookup(incs@[i as int]@) == Some(*sub));
                if crate::installer::is_category_applied(inc, sub, state, platform, config, host) {
                    "Applied"
                } else {
                    "Not applied"
                }
            },
            None => "Unknown",
        };
        push_str(&mut out, "  - ");
        push_str(&mut out, DIM_GRAY);
        push_str(&mut out, inc);
        push_str(&mut out, RESET);
        push_str(&mut out, " [");
        push_str(&mut out, status);
        push_str(&mut out, "]\n");
        i = i + 1;
    }
    assert(iv.take(incs@.len() as int) =~= iv);
    out
}

// ---------------------------------------------------------------------------
// Packages
// ---------------------------------------------------------------------------

/// The status of a package: tracked (pre-existing, or installed by the tool),
/// else whether the package manager reports it installed.
pub open spec fn package_status(state: State, pkg: Seq<char>, os_installed: Seq<Seq<char>>) -> Seq<char> {
    match state.packages.lookup(pkg) {
        Some(t) => if t.was_preexisting {
            "Pre-existing (system)"@
        } else {
            "Installed by dotss"@
        },
        None => if os_installed.contains(pkg) {
            "Installed (untracked)"@
        } else {
            "Not installed"@
        },
    }
}

/// The packages' lines.
pub open spec fn package_lines(state: State, pkgs: Seq<Seq<char>>, os_installed: Seq<Seq<char>>) -> Seq<char>
    decreases pkgs.len(),
{
    if pkgs.len() == 0 {
        seq![]
    } else {
        package_lines(state, pkgs.drop_last(), os_installed) + "  - "@ + DIM_GRAY@ + pkgs.last() + RESET@ + " ["@
            + package_status(state, pkgs.last(), os_installed) + "]\n"@
    }
}

fn package_lines_of(state: &State, pkgs: &Vec<String>, os_installed: &Vec<String>) -> (r: Vec<char>)
    ensures
        r@ == package_lines(*state, string_views(pkgs@), string_views(os_installed@)),
{
    let ghost pv = string_views(pkgs@);
    let mut out: Vec<char> = Vec::new();
    let mut i: usize = 0;
    while i < pkgs.len()
        invariant
            i <= pkgs@.len(),
            pv == string_views(pkgs@),
            out@ == package_lines(*state, pv.take(i as int), string_views(os_installed@)),
        decreases pkgs.len() - i,
    {
        assert(pv.take(i + 1).drop_last() =~= pv.take(i as int));
        assert(pv.take(i + 1).last() == pkgs@[i as int]@);
        let pkg = pkgs[i].as_str();
        let status = match state.packages.get(pkg) {
            Some(t) => if t.was_preexisting {
                "Pre-existing (system)"
            } else {
                "Installed by dotss"
            },
            None => if crate::host::seq_has(os_installed, pkg) {
                "Installed (untracked)"
            } else {
                "Not installed"
            },
        };
        push_str(&mut out, "  - ");
        push_str(&mut out, DIM_GRAY);
        push_str(&mut out, pkg);
        push_str(&mut out, RESET);
        push_str(&mut out, " [");
        push_str(&mut out, status);
        push_str(&mut out, "]\n");
        i = i + 1;
    }
    assert(pv.take(pkgs@.len() as int) =~= pv);
    out
}

// ---------------------------------------------------------------------------
// Configuration steps
// ---------------------------------------------------------------------------

/// A copy action's line.
pub open spec fn copy_line(a: CopyFileAction) -> Seq<char> {
    "  - Add "@ + a.dest@ + platform_note(a.platform) + (if a.only_if_not_exists == Some(true) {
        " [skip if exists]"@
    } else {
        Seq::<char>::empty()
    }) + "\n"@
}

/// The copy actions' lines.
pub open spec fn copy_lines(actions: Seq<CopyFileAction>) -> Seq<char>
    decreases actions.len(),
{
    if actions.len() == 0 {
        seq![]
    } else {
        copy_lines(actions.drop_last()) + copy_line(actions.last())
    }
}

fn copy_lines_of(actions: &Vec<CopyFileAction>) -> (r: Vec<char>)
    ensures
        r@ == copy_lines(actions@),
{
    let mut out: Vec<char> = Vec::new();
    let mut i: usize = 0;
    while i < actions.len()
        invariant
            i <= actions@.len(),
            out@ == copy_lines(actions@.take(i as int)),
        decreases actions.len() - i,
    {
        assert(actions@.take(i + 1).drop_last() =~= actions@.take(i as int));
        let a = &actions[i];
        let ghost start = out@;
        push_str(&mut out, "  - Add ");
        push_str(&mut out, a.dest.as_str());
        push_platform_note(&mut out, &a.platform);
        let only = match a.only_if_not_exists {
            Some(b) => b,
            None => false,
        };
        if only {
            push_str(&mut out, " [skip if exists]");
        }
        push_str(&mut out, "\n");
        assert(out@ =~= start + copy_line(*a));
        i = i + 1;
    }
    assert(actions@.take(actions@.len() as int) =~= actions@);
    out
}

/// What a post-install command is shown as: its description, else its prompt,
/// else a summary of the command.
pub open spec fn post_command_text(c: PostInstallCommand) -> Seq<char> {
    match c.description {
        Some(d) => d@,
        None => match c.prompt {
            Some(p) => p@,
            None => command_summary(c.command@),
        },
    }
}

/// Every command shown by its summary can be summarised.
pub open spec fn summaries_defined(cmds: Seq<PostInstallCommand>) -> bool {
    forall|j: int|
        0 <= j < cmds.len() && (#[trigger] cmds[j]).description is None && cmds[j].prompt is None
            ==> summary_cut_ok(cmds[j].command@)
}

/// The post-install commands' lines.
pub open spec fn post_lines(cmds: Seq<PostInstallCommand>) -> Seq<char>
    decreases cmds.len(),
{
    if cmds.len() == 0 {
        seq![]
    } else {
        post_lines(cmds.drop_last()) + "  - "@ + post_command_text(cmds.last()) + platform_note(cmds.last().platform)
            + "\n"@
    }
}

fn post_lines_of(cmds: &Vec<PostInstallCommand>) -> (r: Vec<char>)
    requires
        summaries_defined(cmds@),
    ensures
        r@ == post_lines(cmds@),
{
    let mut out: Vec<char> = Vec::new();
    let mut i: usize = 0;
    while i < cmds.len()
        invariant
            i <= cmds@.len(),
            summaries_defined(cmds@),
            out@ == post_lines(cmds@.take(i as int)),
        decreases cmds.len() - i,
    {
        assert(cmds@.take(i + 1).drop_last() =~= cmds@.take(i as int));
        let c = &cmds[i];
        let text = match &c.description {
            Some(d) => d.clone(),
            None => match &c.prompt {
                Some(p) => p.clone(),
                None => {
                    assert(cmds@[i as int].description is None && cmds@[i as int].prompt is None);
                    crate::installer::format_command_summary(c.command.as_str())
                },
            },
        };
        let ghost start = out@;
        push_str(&mut out, "  - ");
        push_str(&mut out, text.as_str());
        push_platform_note(&mut out, &c.platform);
        push_str(&mut out, "\n");
        assert(out@ =~= start + "  - "@ + post_command_text(*c) + platform_note(c.platform) + "\n"@);
        i = i + 1;
    }
    assert(cmds@.take(cmds@.len() as int) =~= cmds@);
    out
}

/// A section injection's line.
pub open spec fn injection_line(j: SectionInjection) -> Seq<char> {
    "  - "@ + (match j.description {
        Some(d) => d@,
        None => j.line@,
    }) + " -> "@ + j.file@ + " under section '"@ + j.section@ + "'"@ + platform_note(j.platform) + "\n"@
}

/// The section injections' lines.
pub open spec fn injection_lines(js: Seq<SectionInjection>) -> Seq<char>
    decreases js.len(),
{
    if js.len() == 0 {
        seq![]
    } else {
        injection_lines(js.drop_last()) + injection_line(js.last())
    }
}

fn injection_lines_of(js: &Vec<SectionInjection>) -> (r: Vec<char>)
    ensures
        r@ == injection_lines(js@),
{
    let mut out: Vec<char> = Vec::new();
    let mut i: usize = 0;
    while i < js.len()
        invariant
            i <= js@.len(),
            out@ == injection_lines(js@.take(i as int)),
        decreases js.len() - i,
    {
        assert(js@.take(i + 1).drop_last() =~= js@.take(i as int));
        let j = &js[i];
        let ghost start = out@;
        push_str(&mut out, "  - ");
        match &j.description {
            Some(d) => push_str(&mut out, d.as_str()),
            None => push_str(&mut out, j.line.as_str()),
        }
        push_str(&mut out, " -> ");
        push_str(&mut out, j.file.as_str());
        push_str(&mut out, " under section '");
        push_str(&mut out, j.section.as_str());
        push_str(&mut out, "'");
        push_platform_note(&mut out, &j.platform);
        push_str(&mut out, "\n");
        assert(out@ =~= start + injection_line(*j));
        i = i + 1;
    }
    assert(js@.take(js@.len() as int) =~= js@);
    out
}

// ---------------------------------------------------------------------------
// The whole report
// ---------------------------------------------------------------------------

/// The report can be produced for `cat`: its included categories have an
/// applied status and its summarised commands can be summarised.
pub open spec fn details_ready(config: Config, state: State, p: Platform, host: HostView, cat: Category) -> bool {
    &&& includes_evaluable(config, state, p, host, cat)
    &&& (cat.post_install_commands matches Some(v) ==> summaries_defined(v@))
}

/// The opening lines: name, description and aliases.
pub open spec fn details_head(key: Seq<char>, cat: Category) -> Seq<char> {
    let aliases = match cat.aliases {
        Some(a) => join(string_views(a@), ", "@),
        None => "none"@,
    };
    "\n"@ + BOLD_GREEN@ + "Category:"@ + RESET@ + " "@ + key + "\n"@ + BOLD_BLUE@ + "Description:"@ + RESET@
        + " "@ + cat.description@ + "\n"@ + BOLD_BLUE@ + "Aliases:"@ + RESET@ + " "@ + aliases + "\n"@
}

/// The packages section, under the platform's label.
pub open spec fn details_packages(
    state: State,
    p: Platform,
    platform_label: Seq<char>,
    cat: Category,
    os_installed: Seq<Seq<char>>,
) -> Seq<char> {
    let pkgs = match crate::installer::platform_package_list(cat, p) {
        Some(l) => string_views(l@),
        None => Seq::<Seq<char>>::empty(),
    };
    heading("Packages ("@ + platform_label + "):"@) + if pkgs.len() == 0 {
        "  (No OS packages declared for this platform)\n"@
    } else {
        package_lines(state, pkgs, os_installed)
    }
}

/// The lines on a custom binary whose symlink is `bin`.
pub open spec fn custom_lines(c: CustomInstaller, bin: Seq<char>, present: bool) -> Seq<char> {
    "  - "@ + DIM_GRAY@ + c.name@ + RESET@ + " ("@ + c.url@ + ") ["@ + (if present {
        "Installed (Custom binary)"@
    } else {
        "Not installed"@
    }) + "]\n"@ + "    Symlink: "@ + bin + " -> "@ + c.extract_dir@ + "/bin/"@ + c.name@ + "\n"@
}

/// The Debian custom binary section.
pub open spec fn details_custom(p: Platform, cat: Category, host: HostView) -> Seq<char> {
    if p is Debian && debian_custom(cat) is Some {
        let c = debian_custom(cat)->0;
        let bin = expanded_home(c.bin_symlink@, host.home_view());
        heading("Custom Binary Installer (Debian):"@) + custom_lines(c, bin, host.path_exists(bin))
    } else {
        Seq::empty()
    }
}

fn custom_lines_of(v: &mut Vec<char>, c: &CustomInstaller, bin: &str, present: bool)
    ensures
        final(v)@ == old(v)@ + custom_lines(*c, bin@, present),
{
    let ghost start = v@;
    push_str(v, "  - ");
    push_str(v, DIM_GRAY);
    push_str(v, c.name.as_str());
    push_str(v, RESET);
    push_str(v, " (");
    push_str(v, c.url.as_str());
    push_str(v, ") [");
    if present {
        push_str(v, "Installed (Custom binary)");
    } else {
        push_str(v, "Not installed");
    }
    push_str(v, "]\n");
    push_str(v, "    Symlink: ");
    push_str(v, bin);
    push_str(v, " -> ");
    push_str(v, c.extract_dir.as_str());
    push_str(v, "/bin/");
    push_str(v, c.name.as_str());
    push_str(v, "\n");
    assert(v@ =~= start + custom_lines(*c, bin@, present));
}

/// The copy actions section.
pub open spec fn details_copies(cat: Category) -> Seq<char> {
    match cat.copy_files {
        Some(v) => heading("Config File Actions:"@) + copy_lines(v@),
        None => Seq::<char>::empty(),
    }
}

/// The post-install commands section.
pub open spec fn details_posts(cat: Category) -> Seq<char> {
    match cat.post_install_commands {
        Some(v) => heading("Post-Install Actions:"@) + post_lines(v@),
        None => Seq::<char>::empty(),
    }
}

/// The section injections section.
pub open spec fn details_injections(cat: Category) -> Seq<char> {
    match cat.section_injections {
        Some(v) => heading("Section Injections:"@) + injection_lines(v@),
        None => Seq::<char>::empty(),
    }
}

/// The final message line.
pub open spec fn details_final(p: Platform, cat: Category) -> Seq<char> {
    match cat.final_message_spec(p) {
        Some(m) => "\n"@ + BOLD_BLUE@ + "Final Message:"@ + RESET@ + " "@ + m + "\n"@,
        None => Seq::<char>::empty(),
    }
}

/// The sections on configuration steps and the final message.
pub open spec fn details_steps(p: Platform, cat: Category) -> Seq<char> {
    details_copies(cat) + details_posts(cat) + details_injections(cat) + details_final(p, cat)
}

/// The included categories section of a pack.
pub open spec fn details_includes(config: Config, state: State, p: Platform, host: HostView, cat: Category) -> Seq<char> {
    match cat.includes {
        Some(i) => heading("Included Categories (Pack):"@) + include_lines(config, state, p, host, string_views(i@)),
        None => Seq::<char>::empty(),
    }
}

/// The whole report on category `key`.
pub open spec fn details_text(
    config: Config,
    state: State,
    p: Platform,
    platform_label: Seq<char>,
    host: HostView,
    key: Seq<char>,
    cat: Category,
    os_installed: Seq<Seq<char>>,
) -> Seq<char> {
    details_head(key, cat) + details_includes(config, state, p, host, cat) + details_packages(state, p, platform_label, cat, os_installed) + details_custom(p, cat, host)
        + details_steps(p, cat) + "\n"@
}

fn details_head_of(v: &mut Vec<char>, key: &str, cat: &Category)
    ensures
        final(v)@ == old(v)@ + details_head(key@, *cat),
{
    let ghost start = v@;
    push_str(v, "\n");
    push_str(v, BOLD_GREEN);
    push_str(v, "Category:");
    push_str(v, RESET);
    push_str(v, " ");
    push_str(v, key);
    push_str(v, "\n");
    push_str(v, BOLD_BLUE);
    push_str(v, "Description:");
    push_str(v, RESET);
    push_str(v, " ");
    push_str(v, cat.description.as_str());
    push_str(v, "\n");
    push_str(v, BOLD_BLUE);
    push_str(v, "Aliases:");
    push_str(v, RESET);
    push_str(v, " ");
    match &cat.aliases {
        Some(a) => {
            let j = crate::text::join_strings(a, ", ");
            push_str(v, j.as_str());
        },
        None => push_str(v, "none"),
    }
    push_str(v, "\n");
    assert(v@ =~= start + details_head(key@, *cat));
}

fn details_packages_of(
    v: &mut Vec<char>,
    state: &State,
    platform: &Platform,
    platform_label: &str,
    cat: &Category,
    os_installed: &Vec<String>,
)
    ensures
        final(v)@ == old(v)@ + details_packages(*state, *platform, platform_label@, *cat, string_views(os_installed@)),
{
    let ghost start = v@;
    let title = crate::text::concat2("Packages (", platform_label);
    let title2 = crate::text::concat2(title.as_str(), "):");
    push_heading(v, title2.as_str());
    let pkgs = crate::steps::platform_packages(cat, platform);
    if pkgs.len() == 0 {
        push_str(v, "  (No OS packages declared for this platform)\n");
    } else {
        let mut lines = package_lines_of(state, &pkgs, os_installed);
        v.append(&mut lines);
    }
    assert(v@ =~= start + details_packages(*state, *platform, platform_label@, *cat, string_views(os_installed@)));
}

fn details_custom_of(v: &mut Vec<char>, platform: &Platform, cat: &Category, host: &HostView)
    ensures
        final(v)@ == old(v)@ + details_custom(*platform, *cat, *host),
{
    let ghost start = v@;
    match crate::steps::custom_for_install(cat, platform) {
        Some(c) => {
            let bin = crate::paths::expand_home(c.bin_symlink.as_str(), host.home_str());
            push_heading(v, "Custom Binary Installer (Debian):");
            let present = host.has_path(bin.as_str());
            custom_lines_of(v, c, bin.as_str(), present);
        },
        None => {},
    }
    assert(v@ =~= start + details_custom(*platform, *cat, *host));
}

fn details_copies_of(v: &mut Vec<char>, cat: &Category)
    ensures
        final(v)@ == old(v)@ + details_copies(*cat),
{
    let ghost start = v@;
    match &cat.copy_files {
        Some(a) => {
            push_heading(v, "Config File Actions:");
            let mut l = copy_lines_of(a);
            v.append(&mut l);
        },
        None => {},
    }
    assert(v@ =~= start + details_copies(*cat));
}

fn details_posts_of(v: &mut Vec<char>, cat: &Category)
    requires
        cat.post_install_commands matches Some(c) ==> summaries_defined(c@),
    ensures
        final(v)@ == old(v)@ + details_posts(*cat),
{
    let ghost start = v@;
    match &cat.post_install_commands {
        Some(c) => {
            push_heading(v, "Post-Install Actions:");
            let mut l = post_lines_of(c);
            v.append(&mut l);
        },
        None => {},
    }
    assert(v@ =~= start + details_posts(*cat));
}

fn details_injections_of(v: &mut Vec<char>, cat: &Category)
    ensures
        final(v)@ == old(v)@ + details_injections(*cat),
{
    let ghost start = v@;
    match &cat.section_injections {
        Some(j) => {
            push_heading(v, "Section Injections:");
            let mut l = injection_lines_of(j);
            v.append(&mut l);
        },
        None => {},
    }
    assert(v@ =~= start + details_injections(*cat));
}

fn details_final_of(v: &mut Vec<char>, platform: &Platform, cat: &Category)
    ensures
        final(v)@ == old(v)@ + details_final(*platform, *cat),
{
    let ghost start = v@;
    match cat.final_message_for_platform(platform) {
        Some(m) => {
            push_str(v, "\n");
            push_str(v, BOLD_BLUE);
            push_str(v, "Final Message:");
            push_str(v, RESET);
            push_str(v, " ");
            push_str(v, m);
            push_str(v, "\n");
        },
        None => {},
    }
    assert(v@ =~= start + details_final(*platform, *cat));
}

/// Whether the report on `cat` can be produced (see [`details_ready`]).
pub fn check_details_ready(config: &Config, state: &State, platform: &Platform, host: &HostView, cat: &Category) -> (r:
    bool)
    requires
        config.categories.keys().len() < usize::MAX,
    ensures
        r == details_ready(*config, *state, *platform, *host, *cat),
{
    match &cat.includes {
        Some(incs) => {
            let mut i: usize = 0;
            while i < incs.len()
                invariant
                    i <= incs@.len(),
                    cat.includes == Some(*incs),
                    config.categories.keys().len() < usize::MAX,
                    forall|j: int|
                        0 <= j < i ==> (config.categories.lookup(#[trigger] incs@[j]@) matches Some(sub)
                            ==> applied(*config, incs@[j]@, sub, *state, *platform, *host) is Some),
                decreases incs.len() - i,
            {
                match config.categories.get(incs[i].as_str()) {
                    Some(sub) => {
                        if crate::installer::category_applied(incs[i].as_str(), sub, state, platform, config, host).is_none() {
                            return false;
                        }
                    },
                    None => {},
                }
                i = i + 1;
            }
        },
        None => {},
    }
    match &cat.post_install_commands {
        Some(cmds) => {
            let mut i: usize = 0;
            while i < cmds.len()
                invariant
                    i <= cmds@.len(),
                    cat.post_install_commands == Some(*cmds),
                    forall|j: int|
                        0 <= j < i && (#[trigger] cmds@[j]).description is None && cmds@[j].prompt is None
                            ==> summary_cut_ok(cmds@[j].command@),
                decreases cmds.len() - i,
            {
                let c = &cmds[i];
                if c.description.is_none() && c.prompt.is_none() && !crate::installer::command_summary_defined(
                    c.command.as_str(),
                ) {
                    return false;
                }
                i = i + 1;
            }
        },
        None => {},
    }
    true
}

/// The report on category `key` (see [`details_text`]), given the platform's
/// label and the packages that the package manager reports installed.
pub fn category_details(
    config: &Config,
    state: &State,
    platform: &Platform,
    platform_label: &str,
    host: &HostView,
    key: &str,
    cat: &Category,
    os_installed: &Vec<String>,
) -> (r: String)
    requires
        config.categories.keys().len() < usize::MAX,
        details_ready(*config, *state, *platform, *host, *cat),
    ensures
        r@ == details_text(*config, *state, *platform, platform_label@, *host, key@, *cat, string_views(os_installed@)),
{
    let mut v: Vec<char> = Vec::new();
    details_head_of(&mut v, key, cat);
    let ghost s0 = v@;
    match &cat.includes {
        Some(incs) => {
            push_heading(&mut v, "Included Categories (Pack):");
            let mut l = include_lines_of(config, state, platform, host, incs);
            v.append(&mut l);
        },
        None => {},
    }
    let ghost s1 = v@;
    assert(s1 =~= s0 + details_includes(*config, *state, *platform, *host, *cat));
    details_packages_of(&mut v, state, platform, platform_label, cat, os_installed);
    let ghost s2 = v@;
    details_custom_of(&mut v, platform, cat, host);
    let ghost s3 = v@;
    details_copies_of(&mut v, cat);
    details_posts_of(&mut v, cat);
    details_injections_of(&mut v, cat);
    details_final_of(&mut v, platform, cat);
    let ghost s4 = v@;
    assert(s4 =~= s3 + details_steps(*platform, *cat));
    push_str(&mut v, "\n");
    assert(v@ =~= details_text(*config, *state, *platform, platform_label@, *host, key@, *cat, string_views(os_installed@)));
    crate::text::string_of(v.as_slice())
}

/// Category `i` is the one that `query` names: by its name, or (when no
/// category has that name) by the first alias that matches.
pub open spec fn named_by(config: Config, query: Seq<char>, i: int) -> bool {
    ||| config.categories.keys()[i] == query
    ||| (!config.categories.contains(query) && first_alias_match(config.categories.values(), query, i))
}

/// The report on the category that `query` names (see [`details_text`]), or
/// the message that no category or alias has that name.
pub fn show_category(
    query: &str,
    config: &Config,
    state: &State,
    platform: &Platform,
    platform_label: &str,
    host: &HostView,
    os_installed: &Vec<String>,
) -> (r: Result<String, String>)
    requires
        config.categories.keys().len() < usize::MAX,
        forall|i: int|
            0 <= i < config.categories.values().len() && named_by(*config, query@, i) ==> details_ready(
                *config,
                *state,
                *platform,
                *host,
                #[trigger] config.categories.values()[i],
            ),
    ensures
        match r {
            Ok(t) => exists|i: int|
                0 <= i < config.categories.values().len() && named_by(*config, query@, i) && t@ == details_text(
                    *config,
                    *state,
                    *platform,
                    platform_label@,
                    *host,
                    config.categories.keys()[i],
                    config.categories.values()[i],
                    string_views(os_installed@),
                ),
            Err(m) => m@ == "Category or alias '"@ + query@ + "' not found in configuration."@
                && !config.categories.contains(query@) && forall|i: int|
                0 <= i < config.categories.values().len() ==> !(
                #[trigger] config.categories.values()[i]).has_alias_ignoring_case(query@),
        },
{
    proof {
        config.categories.lemma_lengths();
    }
    match config.resolve_category_key(query) {
        None => {
            let a = crate::text::concat2("Category or alias '", query);
            Err(crate::text::concat2(a.as_str(), "' not found in configuration."))
        },
        Some(k) => {
            let found = config.categories.find(k.as_str());
            proof {
                if !config.categories.contains(query@) {
                    let i = choose|i: int|
                        first_alias_match(config.categories.values(), query@, i) && config.categories.keys()[i]
                            == k@;
                    assert(config.categories.keys().contains(k@));
                }
            }
            match found {
                Some(j) => {
                    proof {
                        if !config.categories.contains(query@) {
                            let i = choose|i: int|
                                first_alias_match(config.categories.values(), query@, i)
                                    && config.categories.keys()[i] == k@;
                            crate::keyed::lemma_sorted_unique(config.categories.keys(), i, j as int);
                        }
                        assert(named_by(*config, query@, j as int));
                    }
                    let cat = config.categories.value_at(j);
                    let key = config.categories.key_at(j);
                    let t = category_details(config, state, platform, platform_label, host, key.as_str(), cat, os_installed);
                    Ok(t)
                },
                None => {
                    let a = crate::text::concat2("Category or alias '", query);
                    Err(crate::text::concat2(a.as_str(), "' not found in configuration."))
                },
            }
        },
    }
}

/// A query names at most one category: by its name, or else by the first
/// category with a matching alias, so `show` reports on one canonical category.
pub proof fn law_query_names_one_category(config: Config, query: Seq<char>, i: int, j: int)
    requires
        keys_sorted(config.categories.keys()),
        0 <= i < config.categories.values().len(),
        0 <= j < config.categories.values().len(),
        named_by(config, query, i),
        named_by(config, query, j),
    ensures
        i == j,
{
    config.categories.lemma_lengths();
    let ks = config.categories.keys();
    let vs = config.categories.values();
    if ks[i] == query && ks[j] == query {
        lemma_sorted_unique(ks, i, j);
    } else if ks[i] == query {
        assert(ks.contains(query));
    } else if ks[j] == query {
        assert(ks.contains(query));
    } else {
        assert(first_alias_match(vs, query, i) && first_alias_match(vs, query, j));
        if i < j {
            assert(!vs[i].has_alias_ignoring_case(query));
        } else if j < i {
            assert(!vs[j].has_alias_ignoring_case(query));
        }
    }
}

proof fn lemma_prefix_of_six(a: Seq<char>, b: Seq<char>, c: Seq<char>, d: Seq<char>, e: Seq<char>, f: Seq<char>)
    ensures
        a.len() <= (a + b + c + d + e + f).len(),
        (a + b + c + d + e + f).subrange(0, a.len() as int) == a,
{
    assert((a + b + c + d + e + f).subrange(0, a.len() as int) =~= a);
}

proof fn lemma_prefix_of_prefix(t: Seq<char>, a: Seq<char>, h: Seq<char>)
    requires
        a.len() <= t.len(),
        t.subrange(0, a.len() as int) == a,
        h.len() <= a.len(),
        a.subrange(0, h.len() as int) == h,
    ensures
        t.subrange(0, h.len() as int) == h,
{
    assert(t.subrange(0, h.len() as int) =~= a.subrange(0, h.len() as int));
}

proof fn lemma_head_opens_with_key(key: Seq<char>, cat: Category)
    ensures
        ({
            let h = "\n"@ + BOLD_GREEN@ + "Category:"@ + RESET@ + " "@ + key + "\n"@;
            h.len() <= details_head(key, cat).len() && details_head(key, cat).subrange(0, h.len() as int) == h
        }),
{
    let h = "\n"@ + BOLD_GREEN@ + "Category:"@ + RESET@ + " "@ + key + "\n"@;
    let aliases = match cat.aliases {
        Some(a) => join(string_views(a@), ", "@),
        None => "none"@,
    };
    let rest_head = BOLD_BLUE@ + "Description:"@ + RESET@ + " "@ + cat.description@ + "\n"@ + BOLD_BLUE@
        + "Aliases:"@ + RESET@ + " "@ + aliases + "\n"@;
    assert(details_head(key, cat) =~= h + rest_head);
    assert((h + rest_head).subrange(0, h.len() as int) =~= h);
}

/// The report on a category opens with the line naming it by its key.
#[verifier::spinoff_prover]
pub proof fn law_report_opens_with_key(
    config: Config,
    state: State,
    p: Platform,
    platform_label: Seq<char>,
    host: HostView,
    key: Seq<char>,
    cat: Category,
    os_installed: Seq<Seq<char>>,
)
    ensures
        ({
            let h = "\n"@ + BOLD_GREEN@ + "Category:"@ + RESET@ + " "@ + key + "\n"@;
            let t = details_text(config, state, p, platform_label, host, key, cat, os_installed);
            h.len() <= t.len() && t.subrange(0, h.len() as int) == h
        }),
{
    let h = "\n"@ + BOLD_GREEN@ + "Category:"@ + RESET@ + " "@ + key + "\n"@;
    let head = details_head(key, cat);
    let t = details_text(config, state, p, platform_label, host, key, cat, os_installed);
    lemma_prefix_of_six(
        head,
        details_includes(config, state, p, host, cat),
        details_packages(state, p, platform_label, cat, os_installed),
        details_custom(p, cat, host),
        details_steps(p, cat),
        "\n"@,
    );
    lemma_head_opens_with_key(key, cat);
    lemma_prefix_of_prefix(t, head, h);
}

proof fn lemma_occurs_in_fourth(
    a: Seq<char>,
    b: Seq<char>,
    c: Seq<char>,
    h: Seq<char>,
    l: Seq<char>,
    r: Seq<char>,
    e: Seq<char>,
    f: Seq<char>,
)
    ensures
        crate::text::contains(a + b + c + (h + l + r) + e + f, l),
{
    let t = a + b + c + (h + l + r) + e + f;
    let i: int = (a.len() + b.len() + c.len() + h.len()) as int;
    assert(t.subrange(i, i + l.len()) =~= l);
    assert(crate::text::occurs_at(t, l, i));
}

/// On Debian, the report on a category that declares a Debian custom binary
/// gives that binary's line with the status "Installed (Custom binary)"
/// exactly when its symlink (with `~` expanded) exists on the host, and "Not
/// installed" otherwise.
#[verifier::spinoff_prover]
pub proof fn law_report_custom_binary_status(
    config: Config,
    state: State,
    platform_label: Seq<char>,
    host: HostView,
    key: Seq<char>,
    cat: Category,
    os_installed: Seq<Seq<char>>,
)
    requires
        cat.custom matches Some(m) && m.lookup("debian"@) is Some,
    ensures
        ({
            let c = cat.custom->0.lookup("debian"@)->0;
            let bin = expanded_home(c.bin_symlink@, host.home_view());
            let status = if host.path_exists(bin) {
                "Installed (Custom binary)"@
            } else {
                "Not installed"@
            };
            crate::text::contains(
                details_text(config, state, Platform::Debian, platform_label, host, key, cat, os_installed),
                "  - "@ + DIM_GRAY@ + c.name@ + RESET@ + " ("@ + c.url@ + ") ["@ + status + "]\n"@,
            )
        }),
{
    let p = Platform::Debian;
    let c = cat.custom->0.lookup("debian"@)->0;
    let bin = expanded_home(c.bin_symlink@, host.home_view());
    let status = if host.path_exists(bin) {
        "Installed (Custom binary)"@
    } else {
        "Not installed"@
    };
    let l = "  - "@ + DIM_GRAY@ + c.name@ + RESET@ + " ("@ + c.url@ + ") ["@ + status + "]\n"@;
    let r = "    Symlink: "@ + bin + " -> "@ + c.extract_dir@ + "/bin/"@ + c.name@ + "\n"@;
    let h = heading("Custom Binary Installer (Debian):"@);
    assert(custom_lines(c, bin, host.path_exists(bin)) =~= l + r);
    assert(details_custom(p, cat, host) == h + (l + r));
    assert(h + (l + r) =~= h + l + r);
    lemma_occurs_in_fourth(
        details_head(key, cat),
        details_includes(config, state, p, host, cat),
        details_packages(state, p, platform_label, cat, os_installed),
        h,
        l,
        r,
        details_steps(p, cat),
        "\n"@,
    );
}

proof fn lemma_contains_mid(a: Seq<char>, m: Seq<char>, b: Seq<char>, x: Seq<char>)
    requires
        crate::text::contains(m, x),
    ensures
        crate::text::contains(a + m + b, x),
{
    let j = choose|j: int| #[trigger] crate::text::occurs_at(m, x, j);
    let t = a + m + b;
    let k: int = a.len() + j;
    assert(t.subrange(k, k + x.len()) =~= m.subrange(j, j + x.len()));
    assert(crate::text::occurs_at(t, x, k));
}

proof fn lemma_contains_in_report(
    a: Seq<char>,
    b: Seq<char>,
    c: Seq<char>,
    d: Seq<char>,
    e: Seq<char>,
    f: Seq<char>,
    x: Seq<char>,
)
    requires
        crate::text::contains(b, x) || crate::text::contains(c, x),
    ensures
        crate::text::contains(a + b + c + d + e + f, x),
{
    if crate::text::contains(b, x) {
        lemma_contains_mid(a, b, c + d + e + f, x);
        assert(a + b + (c + d + e + f) =~= a + b + c + d + e + f);
    } else {
        lemma_contains_mid(a + b, c, d + e + f, x);
        assert(a + b + c + (d + e + f) =~= a + b + c + d + e + f);
    }
}

/// The status a package is shown with: tracked as pre-existing, or as
/// installed by the tool; else installed as the package manager reports, or
/// not installed.
pub open spec fn shown_package_status(state: State, pkg: Seq<char>, os_installed: Seq<Seq<char>>) -> Seq<char> {
    if state.packages.lookup(pkg) matches Some(t) && t.was_preexisting {
        "Pre-existing (system)"@
    } else if state.packages.lookup(pkg) is Some {
        "Installed by dotss"@
    } else if os_installed.contains(pkg) {
        "Installed (untracked)"@
    } else {
        "Not installed"@
    }
}

proof fn lemma_package_line_in(state: State, pkgs: Seq<Seq<char>>, os_installed: Seq<Seq<char>>, i: int)
    requires
        0 <= i < pkgs.len(),
    ensures
        crate::text::contains(
            package_lines(state, pkgs, os_installed),
            "  - "@ + DIM_GRAY@ + pkgs[i] + RESET@ + " ["@ + shown_package_status(state, pkgs[i], os_installed) + "]\n"@,
        ),
    decreases pkgs.len(),
{
    let x = "  - "@ + DIM_GRAY@ + pkgs[i] + RESET@ + " ["@ + shown_package_status(state, pkgs[i], os_installed) + "]\n"@;
    let pre = package_lines(state, pkgs.drop_last(), os_installed);
    let last = pkgs.len() - 1;
    if i == last {
        assert(package_lines(state, pkgs, os_installed) =~= pre + x + Seq::<char>::empty());
        assert(crate::text::occurs_at(x, x, 0)) by {
            assert(x.subrange(0, x.len() as int) =~= x);
        }
        lemma_contains_mid(pre, x, Seq::<char>::empty(), x);
    } else {
        assert(pkgs.drop_last()[i] == pkgs[i]);
        lemma_package_line_in(state, pkgs.drop_last(), os_installed, i);
        let tail = "  - "@ + DIM_GRAY@ + pkgs.last() + RESET@ + " ["@ + package_status(state, pkgs.last(), os_installed)
            + "]\n"@;
        assert(package_lines(state, pkgs, os_installed) =~= Seq::<char>::empty() + pre + tail);
        lemma_contains_mid(Seq::<char>::empty(), pre, tail, x);
    }
}

/// On Debian or Termux, the report on a category lists each of its packages
/// for the platform with its status: "Pre-existing (system)" when the state
/// tracks it as found on the system, "Installed by dotss" when the state
/// tracks it as installed by the tool, else "Installed (untracked)" when the
/// package manager reports it installed, and "Not installed" otherwise.
#[verifier::spinoff_prover]
pub proof fn law_report_package_status(
    config: Config,
    state: State,
    p: Platform,
    platform_label: Seq<char>,
    host: HostView,
    key: Seq<char>,
    cat: Category,
    os_installed: Seq<Seq<char>>,
    i: int,
)
    requires
        (p is Debian && (cat.debian_packages matches Some(l) && 0 <= i < l@.len())) || (p is Termux && (
        cat.termux_packages matches Some(l) && 0 <= i < l@.len())),
    ensures
        ({
            let pkg = if p is Debian {
                cat.debian_packages->0@[i]@
            } else {
                cat.termux_packages->0@[i]@
            };
            crate::text::contains(
                details_text(config, state, p, platform_label, host, key, cat, os_installed),
                "  - "@ + DIM_GRAY@ + pkg + RESET@ + " ["@ + shown_package_status(state, pkg, os_installed) + "]\n"@,
            )
        }),
{
    let l = crate::installer::platform_package_list(cat, p)->0;
    let pkgs = string_views(l@);
    assert(pkgs[i] == l@[i]@);
    lemma_package_line_in(state, pkgs, os_installed, i);
    let x = "  - "@ + DIM_GRAY@ + pkgs[i] + RESET@ + " ["@ + shown_package_status(state, pkgs[i], os_installed) + "]\n"@;
    let h = heading("Packages ("@ + platform_label + "):"@);
    assert(details_packages(state, p, platform_label, cat, os_installed) == h + package_lines(state, pkgs, os_installed));
    lemma_contains_mid(h, package_lines(state, pkgs, os_installed), Seq::<char>::empty(), x);
    assert(h + package_lines(state, pkgs, os_installed) + Seq::<char>::empty() =~= h + package_lines(
        state,
        pkgs,
        os_installed,
    ));
    lemma_contains_in_report(
        details_head(key, cat),
        details_includes(config, state, p, host, cat),
        details_packages(state, p, platform_label, cat, os_installed),
        details_custom(p, cat, host),
        details_steps(p, cat),
        "\n"@,
        x,
    );
}

proof fn lemma_include_line_in(config: Config, state: State, p: Platform, host: HostView, incs: Seq<Seq<char>>, i: int)
    requires
        0 <= i < incs.len(),
    ensures
        crate::text::contains(
            include_lines(config, state, p, host, incs),
            "  - "@ + DIM_GRAY@ + incs[i] + RESET@ + " ["@ + include_status(config, state, p, host, incs[i]) + "]\n"@,
        ),
    decreases incs.len(),
{
    let x = "  - "@ + DIM_GRAY@ + incs[i] + RESET@ + " ["@ + include_status(config, state, p, host, incs[i]) + "]\n"@;
    let pre = include_lines(config, state, p, host, incs.drop_last());
    if i == incs.len() - 1 {
        assert(include_lines(config, state, p, host, incs) =~= pre + x + Seq::<char>::empty());
        assert(crate::text::occurs_at(x, x, 0)) by {
            assert(x.subrange(0, x.len() as int) =~= x);
        }
        lemma_contains_mid(pre, x, Seq::<char>::empty(), x);
    } else {
        assert(incs.drop_last()[i] == incs[i]);
        lemma_include_line_in(config, state, p, host, incs.drop_last(), i);
        let tail = "  - "@ + DIM_GRAY@ + incs.last() + RESET@ + " ["@ + include_status(config, state, p, host, incs.last())
            + "]\n"@;
        assert(include_lines(config, state, p, host, incs) =~= Seq::<char>::empty() + pre + tail);
        lemma_contains_mid(Seq::<char>::empty(), pre, tail, x);
    }
}

/// The report on a pack lists each of its included names with a status:
/// "Applied" when it names a category that counts as applied, "Not applied"
/// when it names one that does not, and "Unknown" when no category has that
/// name.
#[verifier::spinoff_prover]
pub proof fn law_report_include_status(
    config: Config,
    state: State,
    p: Platform,
    platform_label: Seq<char>,
    host: HostView,
    key: Seq<char>,
    cat: Category,
    os_installed: Seq<Seq<char>>,
    i: int,
)
    requires
        cat.includes matches Some(inc) && 0 <= i < inc@.len(),
    ensures
        ({
            let name = cat.includes->0@[i]@;
            let status = match config.categories.lookup(name) {
                Some(sub) => if applied(config, name, sub, state, p, host) == Some(true) {
                    "Applied"@
                } else {
                    "Not applied"@
                },
                None => "Unknown"@,
            };
            crate::text::contains(
                details_text(config, state, p, platform_label, host, key, cat, os_installed),
                "  - "@ + DIM_GRAY@ + name + RESET@ + " ["@ + status + "]\n"@,
            )
        }),
{
    let incs = string_views(cat.includes->0@);
    assert(incs[i] == cat.includes->0@[i]@);
    lemma_include_line_in(config, state, p, host, incs, i);
    let x = "  - "@ + DIM_GRAY@ + incs[i] + RESET@ + " ["@ + include_status(config, state, p, host, incs[i]) + "]\n"@;
    let h = heading("Included Categories (Pack):"@);
    assert(details_includes(config, state, p, host, cat) == h + include_lines(config, state, p, host, incs));
    lemma_contains_mid(h, include_lines(config, state, p, host, incs), Seq::<char>::empty(), x);
    assert(h + include_lines(config, state, p, host, incs) + Seq::<char>::empty() =~= h + include_lines(
        config,
        state,
        p,
        host,
        incs,
    ));
    lemma_contains_in_report(
        details_head(key, cat),
        details_includes(config, state, p, host, cat),
        details_packages(state, p, platform_label, cat, os_installed),
        details_custom(p, cat, host),
        details_steps(p, cat),
        "\n"@,
        x,
    );
}

} // verus!
