//! The rules of the installer: which categories apply to a platform, which are
//! applied, how they are listed and searched, and what installing or removing one
//! does to the system and to the state.
use crate::config::{Category, Config, CustomInstaller};
use crate::host::HostView;
use crate::keyed::KeyedList;
pub use crate::paths::expand_home;
use crate::paths::expanded_home;
use crate::platform::{platform_filter_admits, platform_filter_matches, Platform};
use crate::state::State;
use crate::text::{
    char_vec_views, chars_of, chars_ends_with, concat2, contains, decimal, decimal_string, ends_with,
    join, join_chars, join_prefix, lines, lines_of, slice_eq, str_contains, string_of, string_views,
    to_lowercase, trim, trim_by, trim_chars, trim_start_by, trim_start_chars, unicode_lowercase,
    CharClass, owned, sub_chars, utf8_len, utf8_longer_than, utf8_prefix, utf8_prefix_chars,
    split_char, strip_cr, lemma_split_char_single, lemma_split_char_concat, lemma_split_char_nonempty,
    lemma_split_char_pieces, lemma_trim_no_newline, lemma_trim_shape, is_ws,
};
use vstd::prelude::*;


verus! {

// ---------------------------------------------------------------------------
// Platform support
// ---------------------------------------------------------------------------

/// Packages that `cat` declares for `p`.
pub open spec fn platform_package_list(cat: Category, p: Platform) -> Option<Vec<String>> {
    match p {
        Platform::Debian => cat.debian_packages,
        Platform::Termux => cat.termux_packages,
        Platform::Unsupported(_) => None,
    }
}

/// The custom installer that `cat` declares for Debian.
pub open spec fn debian_custom(cat: Category) -> Option<CustomInstaller> {
    match cat.custom {
        Some(m) => m.lookup("debian"@),
        None => None,
    }
}

/// The custom installer that `cat` declares for Termux.
pub open spec fn termux_custom(cat: Category) -> Option<CustomInstaller> {
    match cat.custom {
        Some(m) => m.lookup("termux"@),
        None => None,
    }
}

/// `cat` itself has something to install on `p`: a non-empty package list for
/// `p`, or (on Debian) a Debian custom installer.
pub open spec fn has_own_installables(cat: Category, p: Platform) -> bool {
    ||| (platform_package_list(cat, p) matches Some(l) && l@.len() > 0)
    ||| (p is Debian && debian_custom(cat) is Some)
}

/// Whether `cat` is supported on `p`, evaluated as the installer does (the
/// included categories of a pack in order, stopping at the first supported one),
/// with at most `fuel` nested pack expansions; `None` when that is not enough.
pub open spec fn supported_fuel(config: Config, cat: Category, p: Platform, fuel: nat) -> Option<bool>
    decreases fuel, 0int, 0int,
{
    if !platform_filter_admits(cat.platform, p) {
        Some(false)
    } else if has_own_installables(cat, p) {
        Some(true)
    } else {
        match cat.includes {
            Some(inc) => if fuel == 0 {
                None
            } else {
                any_include_supported(config, inc@, p, (fuel - 1) as nat, 0)
            },
            None => Some(false),
        }
    }
}

/// Whether one of `inc[i..]` names a category supported on `p`.
pub open spec fn any_include_supported(
    config: Config,
    inc: Seq<String>,
    p: Platform,
    fuel: nat,
    i: int,
) -> Option<bool>
    decreases fuel, 1int, inc.len() - i,
{
    if i < 0 || i >= inc.len() {
        Some(false)
    } else {
        let first = match config.categories.lookup(inc[i]@) {
            Some(sub) => supported_fuel(config, sub, p, fuel),
            None => Some(false),
        };
        match first {
            None => None,
            Some(true) => Some(true),
            Some(false) => any_include_supported(config, inc, p, fuel, i + 1),
        }
    }
}

/// The nesting depth that suffices for any evaluation that ends: a nested
/// expansion never revisits a category, so it goes at most as deep as the catalog
/// has categories.
pub open spec fn pack_depth_bound(config: Config) -> nat {
    config.categories.keys().len() + 1
}

/// Whether `cat` is supported on `p`; `None` when its packs include each other
/// in a cycle that the evaluation runs into.
pub open spec fn support(config: Config, cat: Category, p: Platform) -> Option<bool> {
    supported_fuel(config, cat, p, pack_depth_bound(config))
}

fn own_installables(cat: &Category, platform: &Platform) -> (r: bool)
    ensures
        r == has_own_installables(*cat, *platform),
{
    let has_os = match platform {
        Platform::Debian => match &cat.debian_packages {
            Some(l) => l.len() > 0,
            None => false,
        },
        Platform::Termux => match &cat.termux_packages {
            Some(l) => l.len() > 0,
            None => false,
        },
        Platform::Unsupported(_) => false,
    };
    let has_custom = match platform {
        Platform::Debian => match &cat.custom {
            Some(m) => m.contains_key("debian"),
            None => false,
        },
        _ => false,
    };
    proof {
        if let Some(m) = &cat.custom {
            let m = *m;
            crate::state::lemma_contains_lookup(m, "debian"@);
        }
    }
    has_os || has_custom
}

fn support_with_fuel(cat: &Category, platform: &Platform, config: &Config, fuel: usize) -> (r: Option<
    bool,
>)
    ensures
        r == supported_fuel(*config, *cat, *platform, fuel as nat),
    decreases fuel,
{
    if let Some(target) = &cat.platform {
        if !crate::platform::platform_matches(target.as_str(), platform) {
            return Some(false);
        }
    }
    if own_installables(cat, platform) {
        return Some(true);
    }
    match &cat.includes {
        Some(inc) => {
            if fuel == 0 {
                return None;
            }
            let f = fuel - 1;
            let mut i: usize = 0;
            while i < inc.len()
                invariant
                    i <= inc@.len(),
                    cat.includes == Some(*inc),
                    fuel > 0,
                    f == fuel - 1,
                    supported_fuel(*config, *cat, *platform, fuel as nat) == any_include_supported(
                        *config,
                        inc@,
                        *platform,
                        f as nat,
                        i as int,
                    ),
                decreases inc.len() - i,
            {
                let first = match config.categories.get(inc[i].as_str()) {
                    Some(sub) => support_with_fuel(sub, platform, config, f),
                    None => Some(false),
                };
                match first {
                    None => {
                        return None;
                    },
                    Some(true) => {
                        return Some(true);
                    },
                    Some(false) => {},
                }
                i = i + 1;
            }
            Some(false)
        },
        None => Some(false),
    }
}

/// Whether `cat` is supported on `platform`, or `None` when its packs include
/// each other in a cycle that the evaluation runs into (where the recursive
/// evaluation would never end).
pub fn category_support(cat: &Category, platform: &Platform, config: &Config) -> (r: Option<bool>)
    requires
        config.categories.keys().len() < usize::MAX,
    ensures
        r == support(*config, *cat, *platform),
{
    let n = config.categories.len();
    support_with_fuel(cat, platform, config, n + 1)
}

/// Whether `cat` has something to install on `platform`: its `platform`
/// restriction (if any) admits it, and it declares packages or a custom binary
/// for it, or (for a pack) one of its included categories is supported.
pub fn is_category_supported(cat: &Category, platform: &Platform, config: &Config) -> (r: bool)
    requires
        config.categories.keys().len() < usize::MAX,
        support(*config, *cat, *platform) is Some,
    ensures
        Some(r) == support(*config, *cat, *platform),
{
    let n = config.categories.len();
    match support_with_fuel(cat, platform, config, n + 1) {
        Some(b) => b,
        None => false,
    }
}


// ---------------------------------------------------------------------------
// Applied status
// ---------------------------------------------------------------------------

/// Neither the symlink of a custom binary nor a command of its name is present.
pub open spec fn custom_binary_missing(c: CustomInstaller, host: HostView) -> bool {
    &&& !host.path_exists(expanded_home(c.bin_symlink@, host.home_view()))
    &&& !host.command_in_path(c.name@)
}

/// A category that is not a pack counts as applied when the state lists it among
/// the applied categories (packages the state tracks, pre-existing ones above
/// all, never count) and the custom binary it declares for the platform (if any)
/// is present.
pub open spec fn own_applied(
    name: Seq<char>,
    cat: Category,
    state: State,
    p: Platform,
    host: HostView,
) -> bool {
    &&& state.applied_categories.contains(name)
    &&& match p {
        Platform::Debian => match debian_custom(cat) {
            Some(c) => !custom_binary_missing(c, host),
            None => true,
        },
        Platform::Termux => match termux_custom(cat) {
            Some(c) => !custom_binary_missing(c, host),
            None => true,
        },
        Platform::Unsupported(_) => true,
    }
}

/// Whether category `name` counts as applied, evaluated as the installer does
/// (a pack: all its included categories, in order, stopping at the first that
/// is not), with at most `fuel` nested pack expansions.
pub open spec fn applied_fuel(
    config: Config,
    name: Seq<char>,
    cat: Category,
    state: State,
    p: Platform,
    host: HostView,
    fuel: nat,
) -> Option<bool>
    decreases fuel, 0int, 0int,
{
    match cat.includes {
        Some(inc) => if inc@.len() == 0 {
            Some(false)
        } else if fuel == 0 {
            None
        } else {
            all_includes_applied(config, inc@, state, p, host, (fuel - 1) as nat, 0)
        },
        None => Some(own_applied(name, cat, state, p, host)),
    }
}

/// Whether all of `inc[i..]` name categories that count as applied.
pub open spec fn all_includes_applied(
    config: Config,
    inc: Seq<String>,
    state: State,
    p: Platform,
    host: HostView,
    fuel: nat,
    i: int,
) -> Option<bool>
    decreases fuel, 1int, inc.len() - i,
{
    if i < 0 || i >= inc.len() {
        Some(true)
    } else {
        let first = match config.categories.lookup(inc[i]@) {
            Some(sub) => applied_fuel(config, inc[i]@, sub, state, p, host, fuel),
            None => Some(false),
        };
        match first {
            None => None,
            Some(false) => Some(false),
            Some(true) => all_includes_applied(config, inc, state, p, host, fuel, i + 1),
        }
    }
}

/// Whether category `name` counts as applied; `None` when its packs include each
/// other in a cycle that the evaluation runs into.
pub open spec fn applied(
    config: Config,
    name: Seq<char>,
    cat: Category,
    state: State,
    p: Platform,
    host: HostView,
) -> Option<bool> {
    applied_fuel(config, name, cat, state, p, host, pack_depth_bound(config))
}

fn custom_missing(c: &CustomInstaller, host: &HostView) -> (r: bool)
    ensures
        r == custom_binary_missing(*c, *host),
{
    let bin = expand_home(c.bin_symlink.as_str(), host.home_str());
    !host.has_path(bin.as_str()) && !host.has_command(c.name.as_str())
}

fn custom_for<'a>(cat: &'a Category, key: &str) -> (r: Option<&'a CustomInstaller>)
    ensures
        match r {
            Some(c) => cat.custom matches Some(m) && m.lookup(key@) == Some(*c),
            None => !(cat.custom matches Some(m) && m.lookup(key@) is Some),
        },
{
    match &cat.custom {
        Some(m) => m.get(key),
        None => None,
    }
}

fn applied_with_fuel(
    name: &str,
    cat: &Category,
    state: &State,
    platform: &Platform,
    config: &Config,
    host: &HostView,
    fuel: usize,
) -> (r: Option<bool>)
    ensures
        r == applied_fuel(*config, name@, *cat, *state, *platform, *host, fuel as nat),
    decreases fuel,
{
    match &cat.includes {
        Some(inc) => {
            if inc.len() == 0 {
                return Some(false);
            }
            if fuel == 0 {
                return None;
            }
            let f = fuel - 1;
            let mut i: usize = 0;
            while i < inc.len()
                invariant
                    i <= inc@.len(),
                    inc@.len() > 0,
                    cat.includes == Some(*inc),
                    fuel > 0,
                    f == fuel - 1,
                    applied_fuel(*config, name@, *cat, *state, *platform, *host, fuel as nat)
                        == all_includes_applied(
                        *config,
                        inc@,
                        *state,
                        *platform,
                        *host,
                        f as nat,
                        i as int,
                    ),
                decreases inc.len() - i,
            {
                let first = match config.categories.get_key_value(inc[i].as_str()) {
                    Some((key, sub)) => applied_with_fuel(
                        key.as_str(),
                        sub,
                        state,
                        platform,
                        config,
                        host,
                        f,
                    ),
                    None => Some(false),
                };
                match first {
                    None => {
                        return None;
                    },
                    Some(false) => {
                        return Some(false);
                    },
                    Some(true) => {},
                }
                i = i + 1;
            }
            Some(true)
        },
        None => {
            if !state.is_category_applied(name) {
                return Some(false);
            }
            let ok = match platform {
                Platform::Debian => match custom_for(cat, "debian") {
                    Some(c) => !custom_missing(c, host),
                    None => true,
                },
                Platform::Termux => match custom_for(cat, "termux") {
                    Some(c) => !custom_missing(c, host),
                    None => true,
                },
                Platform::Unsupported(_) => true,
            };
            Some(ok)
        },
    }
}

/// Whether category `cat_name` counts as applied, or `None` when its packs
/// include each other in a cycle that the evaluation runs into.
pub fn category_applied(
    cat_name: &str,
    cat: &Category,
    state: &State,
    platform: &Platform,
    config: &Config,
    host: &HostView,
) -> (r: Option<bool>)
    requires
        config.categories.keys().len() < usize::MAX,
    ensures
        r == applied(*config, cat_name@, *cat, *state, *platform, *host),
{
    let n = config.categories.len();
    applied_with_fuel(cat_name, cat, state, platform, config, host, n + 1)
}

/// Whether category `cat_name` counts as applied: a pack when every included
/// category does (an empty pack never does); any other category when the state
/// lists it among the applied categories (tracked packages do not count), and
/// the custom binary it declares for the platform, if any, is present (as a
/// symlink or in `$PATH`).
pub fn is_category_applied(
    cat_name: &str,
    cat: &Category,
    state: &State,
    platform: &Platform,
    config: &Config,
    host: &HostView,
) -> (r: bool)
    requires
        config.categories.keys().len() < usize::MAX,
        applied(*config, cat_name@, *cat, *state, *platform, *host) is Some,
    ensures
        Some(r) == applied(*config, cat_name@, *cat, *state, *platform, *host),
{
    let n = config.categories.len();
    match applied_with_fuel(cat_name, cat, state, platform, config, host, n + 1) {
        Some(b) => b,
        None => false,
    }
}


/// Applied status of a category that is not a pack: it counts as applied
/// exactly when the state lists it among the applied categories and, where it
/// declares a custom binary for the platform (its `debian` or `termux` custom
/// installer), that binary is present: its symlink (with `~` expanded) exists,
/// or a command of its name is found in `$PATH`, either one being enough.
/// Packages the state tracks play no part.
pub proof fn law_applied_non_pack(
    config: Config,
    name: Seq<char>,
    cat: Category,
    state: State,
    p: Platform,
    host: HostView,
)
    requires
        cat.includes is None,
    ensures
        applied(config, name, cat, state, p, host) == Some(
            state.applied_categories.contains(name) && {
                let key: Option<Seq<char>> = match p {
                    Platform::Debian => Some("debian"@),
                    Platform::Termux => Some("termux"@),
                    Platform::Unsupported(_) => None,
                };
                match (key, cat.custom) {
                    (Some(k), Some(m)) => match m.lookup(k) {
                        Some(c) => host.path_exists(expanded_home(c.bin_symlink@, host.home_view()))
                            || host.command_in_path(c.name@),
                        None => true,
                    },
                    _ => true,
                }
            },
        ),
{
}

/// Support of a category that is not a pack: it is supported on `p` exactly
/// when its `platform` restriction, if any, lowercases to `debian` on Debian or
/// `termux` on Termux, and it has something to install there: a non-empty list
/// of packages for the platform, or (on Debian) a Debian custom installer.
pub proof fn law_support_non_pack(config: Config, cat: Category, p: Platform)
    requires
        cat.includes is None,
    ensures
        support(config, cat, p) == Some(
            {
                &&& (cat.platform matches Some(t) ==> ((unicode_lowercase(t@) == "debian"@ && p is Debian) || (
                unicode_lowercase(t@) == "termux"@ && p is Termux)))
                &&& {
                    ||| (p is Debian && (cat.debian_packages matches Some(l) && l@.len() > 0))
                    ||| (p is Termux && (cat.termux_packages matches Some(l) && l@.len() > 0))
                    ||| (p is Debian && (cat.custom matches Some(m) && m.lookup("debian"@) is Some))
                }
            },
        ),
{
}

// ---------------------------------------------------------------------------
// Listing helpers
// ---------------------------------------------------------------------------

/// At most `limit` items joined by `, `, followed by how many were left out;
/// `none` for no items.
pub open spec fn items_limited(items: Seq<Seq<char>>, limit: nat) -> Seq<char> {
    if items.len() == 0 {
        "none"@
    } else if items.len() <= limit {
        join(items, ", "@)
    } else {
        join(items.take(limit as int), ", "@) + ", (+"@ + decimal((items.len() - limit) as nat)
            + " more)"@
    }
}

/// Formats a list of items, showing at most `limit` of them.
pub fn format_items_limited(items: &[String], limit: usize) -> (r: String)
    ensures
        r@ == items_limited(string_views(items@), limit as nat),
{
    if items.len() == 0 {
        return crate::text::owned("none");
    }
    if items.len() <= limit {
        let r = join_prefix(items, items.len(), ", ");
        assert(string_views(items@).take(items@.len() as int) =~= string_views(items@));
        return r;
    }
    let shown = join_prefix(items, limit, ", ");
    let remaining = decimal_string((items.len() - limit) as u64);
    let a = concat2(shown.as_str(), ", (+");
    let b = concat2(a.as_str(), remaining.as_str());
    concat2(b.as_str(), " more)")
}

/// `hay` contains `q` once both are lowercased.
pub open spec fn lower_contains(hay: Seq<char>, q: Seq<char>) -> bool {
    contains(unicode_lowercase(hay), unicode_lowercase(q))
}

/// One of `items` contains `q` once both are lowercased.
pub open spec fn any_lower_contains(items: Seq<String>, q: Seq<char>) -> bool {
    exists|i: int| 0 <= i < items.len() && lower_contains(#[trigger] items[i]@, q)
}

/// The query matches the category: case-insensitively, it is a substring of the
/// name, an alias, the group, an included category, a displayed package, a
/// package for the platform, or (on Debian) the Debian custom binary's name.
pub open spec fn matches_query(q: Seq<char>, name: Seq<char>, cat: Category, p: Platform) -> bool {
    ||| lower_contains(name, q)
    ||| (cat.aliases matches Some(a) && any_lower_contains(a@, q))
    ||| (cat.group matches Some(g) && lower_contains(g@, q))
    ||| (cat.includes matches Some(inc) && any_lower_contains(inc@, q))
    ||| (cat.display_packages matches Some(d) && any_lower_contains(d@, q))
    ||| (platform_package_list(cat, p) matches Some(l) && any_lower_contains(l@, q))
    ||| (p is Debian && (debian_custom(cat) matches Some(c) && lower_contains(c.name@, q)))
}

/// The match test once both texts are lowercased: `hay_lower` contains
/// `q_lower`.
pub fn contains_lowercased(hay_lower: &str, q_lower: &str) -> (r: bool)
    ensures
        r == contains(hay_lower@, q_lower@),
{
    str_contains(hay_lower, q_lower)
}

/// A search query matches a category exactly when, both lowercased, the query
/// is a substring of the category's name, of one of its aliases, of its group,
/// of one of its included names, of one of its displayed packages, of one of
/// its packages for the platform, or (on Debian) of the name of its Debian
/// custom binary. In particular a query found in the group matches whatever
/// the name, aliases and packages are.
pub proof fn law_query_match_fields(q: Seq<char>, name: Seq<char>, cat: Category, p: Platform)
    ensures
        matches_query(q, name, cat, p) <==> {
            let lq = unicode_lowercase(q);
            ||| contains(unicode_lowercase(name), lq)
            ||| (cat.aliases matches Some(a) && exists|i: int|
                0 <= i < a@.len() && contains(unicode_lowercase(#[trigger] a@[i]@), lq))
            ||| (cat.group matches Some(g) && contains(unicode_lowercase(g@), lq))
            ||| (cat.includes matches Some(a) && exists|i: int|
                0 <= i < a@.len() && contains(unicode_lowercase(#[trigger] a@[i]@), lq))
            ||| (cat.display_packages matches Some(a) && exists|i: int|
                0 <= i < a@.len() && contains(unicode_lowercase(#[trigger] a@[i]@), lq))
            ||| (p is Debian && (cat.debian_packages matches Some(a) && exists|i: int|
                0 <= i < a@.len() && contains(unicode_lowercase(#[trigger] a@[i]@), lq)))
            ||| (p is Termux && (cat.termux_packages matches Some(a) && exists|i: int|
                0 <= i < a@.len() && contains(unicode_lowercase(#[trigger] a@[i]@), lq)))
            ||| (p is Debian && (cat.custom matches Some(m) && (m.lookup("debian"@) matches Some(c) && contains(
                unicode_lowercase(c.name@),
                lq,
            ))))
        },
{
}

fn lower_contains_exec(hay: &str, q_lower: &str) -> (r: bool)
    ensures
        r == contains(unicode_lowercase(hay@), q_lower@),
{
    let h = to_lowercase(hay);
    contains_lowercased(h.as_str(), q_lower)
}

fn any_lower_contains_exec(items: &Option<Vec<String>>, q: &str, q_lower: &str) -> (r: bool)
    requires
        q_lower@ == unicode_lowercase(q@),
    ensures
        r == (*items matches Some(l) && any_lower_contains(l@, q@)),
{
    match items {
        Some(l) => {
            let mut i: usize = 0;
            while i < l.len()
                invariant
                    i <= l@.len(),
                    *items == Some(*l),
                    q_lower@ == unicode_lowercase(q@),
                    forall|j: int| 0 <= j < i ==> !lower_contains(#[trigger] l@[j]@, q@),
                decreases l.len() - i,
            {
                if lower_contains_exec(l[i].as_str(), q_lower) {
                    assert(lower_contains(l@[i as int]@, q@));
                    return true;
                }
                i = i + 1;
            }
            false
        },
        None => false,
    }
}

/// Whether `query` matches category `cat_name` (see [`matches_query`]).
pub fn category_matches_query(query: &str, cat_name: &str, cat: &Category, platform: &Platform) -> (r:
    bool)
    ensures
        r == matches_query(query@, cat_name@, *cat, *platform),
{
    let q = to_lowercase(query);
    let ql = q.as_str();
    if lower_contains_exec(cat_name, ql) {
        return true;
    }
    if any_lower_contains_exec(&cat.aliases, query, ql) {
        return true;
    }
    let in_group = match &cat.group {
        Some(g) => lower_contains_exec(g.as_str(), ql),
        None => false,
    };
    if in_group {
        return true;
    }
    if any_lower_contains_exec(&cat.includes, query, ql) {
        return true;
    }
    if any_lower_contains_exec(&cat.display_packages, query, ql) {
        return true;
    }
    let pkgs_match = match platform {
        Platform::Debian => any_lower_contains_exec(&cat.debian_packages, query, ql),
        Platform::Termux => any_lower_contains_exec(&cat.termux_packages, query, ql),
        Platform::Unsupported(_) => false,
    };
    if pkgs_match {
        return true;
    }
    match platform {
        Platform::Debian => match custom_for(cat, "debian") {
            Some(c) => lower_contains_exec(c.name.as_str(), ql),
            None => false,
        },
        _ => false,
    }
}


// ---------------------------------------------------------------------------
// Section injection
// ---------------------------------------------------------------------------

/// Index of the first of `ls[i..]` that, trimmed, equals `section` trimmed.
pub open spec fn first_header(ls: Seq<Seq<char>>, section: Seq<char>, i: int) -> Option<int>
    decreases ls.len() - i,
{
    if i < 0 || i >= ls.len() {
        None
    } else if trim(ls[i]) == trim(section) {
        Some(i)
    } else {
        first_header(ls, section, i + 1)
    }
}

/// A `position` that asks for a new section to go at the top of the file.
pub open spec fn position_is_top(position: Option<Seq<char>>) -> bool {
    position matches Some(p) && unicode_lowercase(p) == "top"@
}

/// The file content after placing `line` under the header comment `section`:
/// directly beneath the first line that is the header (ignoring surrounding white
/// space); when no line is, a new header and the line go at the top (`position`
/// `top`) or the bottom of the content, separated from it by an empty line.
pub open spec fn injected(
    content: Seq<char>,
    section: Seq<char>,
    line: Seq<char>,
    position: Option<Seq<char>>,
) -> Seq<char> {
    let ls = lines(content);
    let sec = trim(section);
    let ln = trim(line);
    match first_header(ls, section, 0) {
        Some(h) => {
            let body = join(ls.insert(h + 1, ln), "\n"@);
            if ends_with(content, "\n"@) || content.len() == 0 {
                body + "\n"@
            } else {
                body
            }
        },
        None => if position_is_top(position) {
            let head = sec + "\n"@ + ln + "\n"@;
            if content.len() == 0 {
                head
            } else {
                let body = head + "\n"@ + trim_by_start_ws(content);
                if ends_with(body, "\n"@) {
                    body
                } else {
                    body + "\n"@
                }
            }
        } else {
            let c1 = if content.len() > 0 && !ends_with(content, "\n"@) {
                content + "\n"@
            } else {
                content
            };
            let c2 = if c1.len() > 0 {
                c1 + "\n"@
            } else {
                c1
            };
            c2 + sec + "\n"@ + ln + "\n"@
        },
    }
}

/// `str::trim_start`.
pub open spec fn trim_by_start_ws(s: Seq<char>) -> Seq<char> {
    trim_start_by(s, CharClass::Whitespace)
}

fn find_header(ls: &Vec<Vec<char>>, section: &[char]) -> (r: Option<usize>)
    ensures
        match r {
            Some(h) => first_header(char_vec_views(ls@), section@, 0) == Some(h as int),
            None => first_header(char_vec_views(ls@), section@, 0) is None,
        },
{
    let sec = trim_chars(section, &CharClass::Whitespace);
    let ghost vs = char_vec_views(ls@);
    let mut i: usize = 0;
    while i < ls.len()
        invariant
            i <= ls@.len(),
            vs == char_vec_views(ls@),
            sec@ == trim(section@),
            first_header(vs, section@, 0) == first_header(vs, section@, i as int),
        decreases ls.len() - i,
    {
        let t = trim_chars(ls[i].as_slice(), &CharClass::Whitespace);
        assert(vs[i as int] == ls@[i as int]@);
        if slice_eq(t.as_slice(), sec.as_slice()) {
            return Some(i);
        }
        i = i + 1;
    }
    None
}

fn push_newline(v: &mut Vec<char>)
    ensures
        final(v)@ == old(v)@ + "\n"@,
{
    proof {
        reveal_strlit("\n");
    }
    v.push('\n');
    assert(v@ =~= old(v)@ + "\n"@);
}

/// Places `line` under the header comment `section` of `content` (see
/// [`injected`]).
pub fn inject_line_into_section(
    content: &str,
    section: &str,
    line: &str,
    position: Option<&str>,
) -> (r: String)
    ensures
        r@ == injected(
            content@,
            section@,
            line@,
            match position {
                Some(p) => Some(p@),
                None => None,
            },
        ),
{
    proof {
        reveal_strlit("\n");
    }
    let cv = chars_of(content);
    let mut ls = lines_of(cv.as_slice());
    let sv = chars_of(section);
    let lv = chars_of(line);
    let ln = trim_chars(lv.as_slice(), &CharClass::Whitespace);
    let sec = trim_chars(sv.as_slice(), &CharClass::Whitespace);
    let nl = chars_of("\n");
    let ends_nl = chars_ends_with(cv.as_slice(), nl.as_slice());
    match find_header(&ls, sv.as_slice()) {
        Some(h) => {
            let ghost before = char_vec_views(ls@);
            proof {
                crate::text::lemma_split_char_nonempty(cv@, '\n');
            }
            assert(h < before.len()) by {
                lemma_first_header_bounds(before, section@, 0);
            }
            let n = ls.len();
            assert(h < n);
            ls.insert(h + 1, ln);
            assert(char_vec_views(ls@) =~= before.insert(h + 1, trim(line@)));
            let mut body = join_chars(&ls, nl.as_slice());
            if ends_nl || cv.len() == 0 {
                push_newline(&mut body);
            }
            string_of(body.as_slice())
        },
        None => {
            let is_top = match position {
                Some(p) => {
                    let pl = to_lowercase(p);
                    crate::text::str_eq(pl.as_str(), "top")
                },
                None => false,
            };
            if is_top {
                let mut out = sec;
                push_newline(&mut out);
                let mut l2 = ln;
                out.append(&mut l2);
                push_newline(&mut out);
                if cv.len() == 0 {
                    return string_of(out.as_slice());
                }
                push_newline(&mut out);
                let mut rest = trim_start_chars(cv.as_slice(), &CharClass::Whitespace);
                out.append(&mut rest);
                if !chars_ends_with(out.as_slice(), nl.as_slice()) {
                    push_newline(&mut out);
                }
                string_of(out.as_slice())
            } else {
                let mut out = chars_of(content);
                if out.len() > 0 && !ends_nl {
                    push_newline(&mut out);
                }
                if out.len() > 0 {
                    push_newline(&mut out);
                }
                let mut s2 = sec;
                out.append(&mut s2);
                push_newline(&mut out);
                let mut l2 = ln;
                out.append(&mut l2);
                push_newline(&mut out);
                string_of(out.as_slice())
            }
        },
    }
}

/// A header found from index `i` on is at or after `i` and inside the lines.
pub proof fn lemma_first_header_bounds(ls: Seq<Seq<char>>, section: Seq<char>, i: int)
    ensures
        first_header(ls, section, i) matches Some(h) ==> i <= h < ls.len(),
    decreases ls.len() - i,
{
    if 0 <= i < ls.len() && trim(ls[i]) != trim(section) {
        lemma_first_header_bounds(ls, section, i + 1);
    }
}

proof fn lemma_join_then_split(items: Seq<Seq<char>>)
    requires
        items.len() > 0,
        forall|i: int| 0 <= i < items.len() ==> !(#[trigger] items[i]).contains('\n'),
    ensures
        split_char(join(items, "\n"@), '\n') == items,
    decreases items.len(),
{
    reveal_strlit("\n");
    if items.len() == 1 {
        lemma_split_char_single(items[0], '\n');
        assert(seq![items[0]] =~= items);
    } else {
        let pre = items.drop_last();
        assert forall|i: int| 0 <= i < pre.len() implies !(#[trigger] pre[i]).contains('\n') by {
            assert(pre[i] == items[i]);
        }
        lemma_join_then_split(pre);
        assert("\n"@ =~= seq!['\n']);
        lemma_split_char_concat(join(pre, "\n"@), items.last(), '\n');
        assert(!items[items.len() - 1].contains('\n'));
        lemma_split_char_single(items.last(), '\n');
        assert(pre + seq![items.last()] =~= items);
    }
}

proof fn lemma_lines_have_no_line_feed(s: Seq<char>, i: int)
    requires
        0 <= i < lines(s).len(),
    ensures
        !lines(s)[i].contains('\n'),
{
    let parts = split_char(s, '\n');
    lemma_split_char_nonempty(s, '\n');
    let n = parts.len();
    if i < n - 1 {
        lemma_split_char_pieces(s, '\n', i);
        let x = parts[i];
        if strip_cr(x).contains('\n') {
            let j = choose|j: int| 0 <= j < strip_cr(x).len() && strip_cr(x)[j] == '\n';
            assert(x[j] == '\n');
        }
    } else {
        lemma_split_char_pieces(s, '\n', n - 1);
    }
}

/// Placing a line under a header that the file has keeps every line of the
/// file, in order, and adds the trimmed line directly after the first header
/// line: cut at its line feeds, the result is the file's lines with that one
/// line inserted, followed by an empty piece where the file ended with a line
/// feed.
pub proof fn law_injection_under_first_header(
    content: Seq<char>,
    section: Seq<char>,
    line: Seq<char>,
    position: Option<Seq<char>>,
)
    requires
        !line.contains('\n'),
        first_header(lines(content), section, 0) is Some,
    ensures
        ({
            let ls = lines(content);
            let h = first_header(ls, section, 0)->0;
            let pieces = ls.insert(h + 1, trim(line));
            split_char(injected(content, section, line, position), '\n') == if ends_with(content, "\n"@) {
                pieces.push(Seq::<char>::empty())
            } else {
                pieces
            }
        }),
{
    reveal_strlit("\n");
    let ls = lines(content);
    let h = first_header(ls, section, 0)->0;
    lemma_first_header_bounds(ls, section, 0);
    let ln = trim(line);
    lemma_trim_no_newline(line);
    let pieces = ls.insert(h + 1, ln);
    assert forall|i: int| 0 <= i < pieces.len() implies !(#[trigger] pieces[i]).contains('\n') by {
        if i < h + 1 {
            lemma_lines_have_no_line_feed(content, i);
        } else if i > h + 1 {
            lemma_lines_have_no_line_feed(content, i - 1);
        }
    }
    lemma_join_then_split(pieces);
    let body = join(pieces, "\n"@);
    assert(content.len() > 0) by {
        if content.len() == 0 {
            assert(split_char(content, '\n') == seq![Seq::<char>::empty()]);
            assert(ls.len() == 0);
        }
    }
    if ends_with(content, "\n"@) {
        lemma_split_char_concat(body, Seq::<char>::empty(), '\n');
        assert(body + seq!['\n'] + Seq::<char>::empty() =~= body + "\n"@);
        assert(split_char(Seq::<char>::empty(), '\n') == seq![Seq::<char>::empty()]);
        assert(pieces + seq![Seq::<char>::empty()] =~= pieces.push(Seq::<char>::empty()));
    }
}

proof fn lemma_split_pieces_avoid(s: Seq<char>, c: char, d: char, i: int)
    requires
        !s.contains(d),
        0 <= i < split_char(s, c).len(),
    ensures
        !split_char(s, c)[i].contains(d),
    decreases s.len(),
{
    if s.len() > 0 {
        let pre = split_char(s.drop_last(), c);
        lemma_split_char_nonempty(s.drop_last(), c);
        assert(!s.drop_last().contains(d)) by {
            if s.drop_last().contains(d) {
                let k = choose|k: int| 0 <= k < s.drop_last().len() && s.drop_last()[k] == d;
                assert(s[k] == d);
            }
        }
        if s.last() == c {
            if i < pre.len() {
                lemma_split_pieces_avoid(s.drop_last(), c, d, i);
            }
        } else if i < pre.len() - 1 {
            lemma_split_pieces_avoid(s.drop_last(), c, d, i);
        } else {
            lemma_split_pieces_avoid(s.drop_last(), c, d, pre.len() - 1);
            assert(s.last() != d) by {
                assert(s[s.len() - 1] == s.last());
            }
            let q = pre.last().push(s.last());
            if q.contains(d) {
                let k = choose|k: int| 0 <= k < q.len() && q[k] == d;
                if k < pre.last().len() {
                    assert(pre.last()[k] == d);
                }
            }
        }
    } else {
        assert(split_char(s, c)[i] =~= Seq::<char>::empty());
    }
}

/// Placing a line under a header that a file without carriage returns has,
/// read back with `str::lines`: the file's lines, none dropped, changed or
/// moved, with the trimmed line inserted directly after the first header line;
/// and the result ends with a line feed exactly when the file did.
pub proof fn law_injection_keeps_every_line(
    content: Seq<char>,
    section: Seq<char>,
    line: Seq<char>,
    position: Option<Seq<char>>,
)
    requires
        !content.contains('\r'),
        !line.contains('\n'),
        trim(line).len() > 0,
        first_header(lines(content), section, 0) is Some,
    ensures
        lines(injected(content, section, line, position)) == lines(content).insert(
            first_header(lines(content), section, 0)->0 + 1,
            trim(line),
        ),
        ends_with(injected(content, section, line, position), "\n"@) == ends_with(content, "\n"@),
{
    reveal_strlit("\n");
    let nl: Seq<char> = seq!['\n'];
    assert("\n"@ =~= nl);
    let ls = lines(content);
    let h = first_header(ls, section, 0)->0;
    lemma_first_header_bounds(ls, section, 0);
    let ln = trim(line);
    let pieces = ls.insert(h + 1, ln);
    let r = injected(content, section, line, position);
    law_injection_under_first_header(content, section, line, position);
    lemma_trim_shape(line);
    assert(ln.last() != '\r') by {
        assert(is_ws('\r'));
    }
    let cparts = split_char(content, '\n');
    lemma_split_char_nonempty(content, '\n');
    assert(content.len() > 0) by {
        if content.len() == 0 {
            assert(cparts == seq![Seq::<char>::empty()]);
        }
    }
    // No piece ends with a carriage return, so `str::lines` keeps each whole.
    assert forall|i: int| 0 <= i < pieces.len() implies strip_cr(#[trigger] pieces[i]) == pieces[i] by {
        if i != h + 1 {
            let k = if i < h + 1 { i } else { i - 1 };
            assert(pieces[i] == ls[k]);
            if k < cparts.len() - 1 {
                lemma_split_pieces_avoid(content, '\n', '\r', k);
                let x = cparts[k];
                if strip_cr(x).len() > 0 && strip_cr(x).last() == '\r' {
                    assert(x[strip_cr(x).len() - 1] == '\r');
                }
            } else {
                lemma_split_pieces_avoid(content, '\n', '\r', cparts.len() - 1);
                let x = cparts.last();
                if x.len() > 0 && x.last() == '\r' {
                    assert(x[x.len() - 1] == '\r');
                }
            }
        }
    }
    let parts = split_char(r, '\n');
    if ends_with(content, nl) {
        assert(parts == pieces.push(Seq::<char>::empty()));
        assert(lines(r) =~= pieces);
        assert(r == join(pieces, nl) + nl);
        assert(r.subrange(r.len() - 1, r.len() as int) =~= nl);
    } else {
        assert(parts == pieces);
        // The last piece is not empty: the file's last line, or the new line.
        assert(cparts.last().len() > 0) by {
            assert(content.last() != '\n') by {
                if content.last() == '\n' {
                    assert(content.subrange(content.len() - 1, content.len() as int) =~= nl);
                }
            }
            assert(content.drop_last().push(content.last()) =~= content);
            lemma_split_char_nonempty(content.drop_last(), '\n');
            let pre = split_char(content.drop_last(), '\n');
            assert(cparts == pre.update(pre.len() - 1, pre.last().push(content.last())));
        }
        assert(pieces.last().len() > 0) by {
            if h + 1 < ls.len() {
                assert(pieces.last() == ls.last());
                assert(ls.last() == cparts.last());
            }
        }
        assert(lines(r) =~= pieces);
        if ends_with(r, nl) {
            assert(r.len() > 0 && r.last() == '\n') by {
                assert(r.subrange(r.len() - 1, r.len() as int) =~= nl);
                assert(r.subrange(r.len() - 1, r.len() as int)[0] == r.last());
            }
            assert(r.drop_last().push(r.last()) =~= r);
            assert(parts.last().len() == 0);
        }
    }
}

// ---------------------------------------------------------------------------
// Command summaries
// ---------------------------------------------------------------------------

/// The first line of a command (the whole command when it has none).
pub open spec fn command_first_line(cmd: Seq<char>) -> Seq<char> {
    if lines(cmd).len() > 0 {
        lines(cmd)[0]
    } else {
        cmd
    }
}

/// A long first line is cut at byte 57, which must fall between two characters.
pub open spec fn summary_cut_ok(cmd: Seq<char>) -> bool {
    let first = command_first_line(cmd);
    utf8_len(first) > 60 ==> utf8_len(utf8_prefix(first, 57)) == 57
}

/// The short description of a post-install command that shows it: a fixed
/// description for the well-known setup steps; otherwise its first line, cut to
/// 57 bytes and `...` when it is longer than 60 bytes.
pub open spec fn command_summary(cmd: Seq<char>) -> Seq<char> {
    if contains(cmd, "chsh"@) {
        "Change default shell to Zsh"@
    } else if contains(cmd, "XDG_STATE_HOME"@) {
        "Configure XDG_STATE_HOME in ~/.zshenv"@
    } else if contains(cmd, "HISTFILE="@) {
        "Configure Zsh history file & options in ~/.zshrc"@
    } else if contains(cmd, "starship init"@) {
        "Initialize Starship prompt in ~/.zshrc"@
    } else if contains(cmd, "atuin init"@) {
        "Initialize Atuin shell history in ~/.zshrc"@
    } else if contains(cmd, "zsh-autosuggestions"@) {
        if contains(cmd, "git clone"@) {
            "Download zsh-autosuggestions plugin"@
        } else {
            "Enable zsh-autosuggestions in ~/.zshrc"@
        }
    } else if contains(cmd, "fast-syntax-highlighting"@) {
        if contains(cmd, "git clone"@) {
            "Download fast-syntax-highlighting plugin"@
        } else {
            "Enable fast-syntax-highlighting in ~/.zshrc"@
        }
    } else if contains(cmd, "fzf-tab"@) {
        if contains(cmd, "git clone"@) {
            "Download fzf-tab plugin"@
        } else {
            "Enable fzf-tab in ~/.zshrc"@
        }
    } else if contains(cmd, "compinit"@) {
        "Enable Zsh autocompletion (compinit)"@
    } else if contains(cmd, "completion:*"@) {
        "Configure Zsh completion format style"@
    } else if contains(cmd, "LazyVim/starter"@) {
        "Clone default config for LazyVim"@
    } else if contains(cmd, "opencode.ai/install"@) {
        "Install or update opencode"@
    } else if contains(cmd, "engram"@) {
        "Install or update engram"@
    } else if contains(cmd, "herdr.dev/install"@) {
        "Install or update herdr"@
    } else if contains(cmd, "codegraph"@) {
        "Install or update codegraph"@
    } else {
        let first = command_first_line(cmd);
        if utf8_len(first) > 60 {
            utf8_prefix(first, 57) + "..."@
        } else {
            first
        }
    }
}

/// Whether [`format_command_summary`] can summarise `cmd`: a first line longer
/// than 60 bytes must have a character boundary at byte 57.
pub fn command_summary_defined(cmd: &str) -> (r: bool)
    ensures
        r == summary_cut_ok(cmd@),
{
    let cv = chars_of(cmd);
    let ls = lines_of(cv.as_slice());
    let first = if ls.len() > 0 {
        sub_chars(ls[0].as_slice(), 0, ls[0].len())
    } else {
        cv
    };
    assert(first@ == command_first_line(cmd@)) by {
        if ls@.len() > 0 {
            assert(ls@[0]@.subrange(0, ls@[0]@.len() as int) =~= ls@[0]@);
            assert(char_vec_views(ls@)[0] == ls@[0]@);
        }
    }
    if !utf8_longer_than(first.as_slice(), 60) {
        return true;
    }
    let cut = utf8_prefix_chars(first.as_slice(), 57);
    utf8_longer_than(cut.as_slice(), 56) && !utf8_longer_than(cut.as_slice(), 57)
}

/// Summarises a post-install command for display (see [`command_summary`]).
pub fn format_command_summary(cmd: &str) -> (r: String)
    requires
        summary_cut_ok(cmd@),
    ensures
        r@ == command_summary(cmd@),
{
    if str_contains(cmd, "chsh") {
        owned("Change default shell to Zsh")
    } else if str_contains(cmd, "XDG_STATE_HOME") {
        owned("Configure XDG_STATE_HOME in ~/.zshenv")
    } else if str_contains(cmd, "HISTFILE=") {
        owned("Configure Zsh history file & options in ~/.zshrc")
    } else if str_contains(cmd, "starship init") {
        owned("Initialize Starship prompt in ~/.zshrc")
    } else if str_contains(cmd, "atuin init") {
        owned("Initialize Atuin shell history in ~/.zshrc")
    } else if str_contains(cmd, "zsh-autosuggestions") {
        if str_contains(cmd, "git clone") {
            owned("Download zsh-autosuggestions plugin")
        } else {
            owned("Enable zsh-autosuggestions in ~/.zshrc")
        }
    } else if str_contains(cmd, "fast-syntax-highlighting") {
        if str_contains(cmd, "git clone") {
            owned("Download fast-syntax-highlighting plugin")
        } else {
            owned("Enable fast-syntax-highlighting in ~/.zshrc")
        }
    } else if str_contains(cmd, "fzf-tab") {
        if str_contains(cmd, "git clone") {
            owned("Download fzf-tab plugin")
        } else {
            owned("Enable fzf-tab in ~/.zshrc")
        }
    } else if str_contains(cmd, "compinit") {
        owned("Enable Zsh autocompletion (compinit)")
    } else if str_contains(cmd, "completion:*") {
        owned("Configure Zsh completion format style")
    } else if str_contains(cmd, "LazyVim/starter") {
        owned("Clone default config for LazyVim")
    } else if str_contains(cmd, "opencode.ai/install") {
        owned("Install or update opencode")
    } else if str_contains(cmd, "engram") {
        owned("Install or update engram")
    } else if str_contains(cmd, "herdr.dev/install") {
        owned("Install or update herdr")
    } else if str_contains(cmd, "codegraph") {
        owned("Install or update codegraph")
    } else {
        let cv = chars_of(cmd);
        let ls = lines_of(cv.as_slice());
        let first = if ls.len() > 0 {
            sub_chars(ls[0].as_slice(), 0, ls[0].len())
        } else {
            cv
        };
        assert(first@ == command_first_line(cmd@)) by {
            if ls@.len() > 0 {
                assert(ls@[0]@.subrange(0, ls@[0]@.len() as int) =~= ls@[0]@);
                assert(char_vec_views(ls@)[0] == ls@[0]@);
            }
        }
        if utf8_longer_than(first.as_slice(), 60) {
            let mut cut = utf8_prefix_chars(first.as_slice(), 57);
            let mut dots = chars_of("...");
            cut.append(&mut dots);
            string_of(cut.as_slice())
        } else {
            string_of(first.as_slice())
        }
    }
}

} // verus!
