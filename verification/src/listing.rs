//! The category list (`list`): one line per category, or grouped by the
//! categories' groups, with the packages each installs, whether it is applied
//! and whether the platform supports it.
use crate::colors::{BOLD_CYAN, BOLD_GREEN, DIM_GRAY, RESET, WHITE};
use crate::config::{Category, Config};
use crate::host::HostView;
use crate::installer::{applied, debian_custom, items_limited, matches_query, platform_package_list, support};
use crate::keyed::keys_sorted;
use crate::sorting::{sort_dedup_strings, sorted_lt};
use crate::state::State;
use crate::platform::Platform;
use crate::text::{concat2, decimal, eq_ignore_ascii_case, join, owned, seq_lt, string_views, utf8_len};
use vstd::prelude::*;

verus! {

/// The items listed for a category: its display packages; otherwise its
/// packages for `p` and, on Debian, its custom binary.
pub open spec fn listed_items(cat: Category, p: Platform) -> Seq<Seq<char>> {
    match cat.display_packages {
        Some(d) => string_views(d@),
        None => {
            let base = match platform_package_list(cat, p) {
                Some(l) => string_views(l@),
                None => Seq::<Seq<char>>::empty(),
            };
            if p is Debian && debian_custom(cat) is Some {
                base.push(debian_custom(cat)->0.name@ + " (custom binary)"@)
            } else {
                base
            }
        },
    }
}

fn copy_strings(v: &Vec<String>) -> (r: Vec<String>)
    ensures
        string_views(r@) == string_views(v@),
{
    let mut out: Vec<String> = Vec::new();
    let mut i: usize = 0;
    while i < v.len()
        invariant
            i <= v@.len(),
            string_views(out@) == string_views(v@).take(i as int),
        decreases v.len() - i,
    {
        let ghost before = string_views(out@);
        out.push(v[i].clone());
        assert(string_views(out@) =~= before.push(v@[i as int]@));
        assert(string_views(out@) =~= string_views(v@).take(i + 1));
        i = i + 1;
    }
    assert(string_views(v@).take(v@.len() as int) =~= string_views(v@));
    out
}

/// The items listed for `cat` on `platform` (see [`listed_items`]).
pub fn listed_items_of(cat: &Category, platform: &Platform) -> (r: Vec<String>)
    ensures
        string_views(r@) == listed_items(*cat, *platform),
{
    match &cat.display_packages {
        Some(d) => copy_strings(d),
        None => {
            let mut base = match platform {
                Platform::Debian => match &cat.debian_packages {
                    Some(l) => copy_strings(l),
                    None => Vec::new(),
                },
                Platform::Termux => match &cat.termux_packages {
                    Some(l) => copy_strings(l),
                    None => Vec::new(),
                },
                Platform::Unsupported(_) => Vec::new(),
            };
            assert(string_views(base@) == match platform_package_list(*cat, *platform) {
                Some(l) => string_views(l@),
                None => Seq::<Seq<char>>::empty(),
            }) by {
                if platform_package_list(*cat, *platform) is None {
                    assert(string_views(base@) =~= Seq::<Seq<char>>::empty());
                }
            }
            match crate::steps::custom_for_install(cat, platform) {
                Some(c) => {
                    let ghost before = string_views(base@);
                    base.push(concat2(c.name.as_str(), " (custom binary)"));
                    assert(string_views(base@) =~= before.push(c.name@ + " (custom binary)"@));
                },
                None => {},
            }
            base
        },
    }
}

/// The items of a pack's included categories: each included category's display
/// packages, or its name when it has none or does not exist.
pub open spec fn pack_expansion(config: Config, incs: Seq<Seq<char>>) -> Seq<Seq<char>>
    decreases incs.len(),
{
    if incs.len() == 0 {
        seq![]
    } else {
        pack_expansion(config, incs.drop_last()) + match config.categories.lookup(incs.last()) {
            Some(sub) => match sub.display_packages {
                Some(d) => string_views(d@),
                None => seq![incs.last()],
            },
            None => seq![incs.last()],
        }
    }
}

fn append_strings(out: &mut Vec<String>, more: Vec<String>)
    ensures
        string_views(final(out)@) == string_views(old(out)@) + string_views(more@),
{
    let mut more = more;
    let ghost a = string_views(out@);
    let ghost b = string_views(more@);
    out.append(&mut more);
    assert(string_views(out@) =~= a + b);
}

/// The items of the categories that `incs` names (see [`pack_expansion`]).
pub fn pack_expansion_of(config: &Config, incs: &Vec<String>) -> (r: Vec<String>)
    ensures
        string_views(r@) == pack_expansion(*config, string_views(incs@)),
{
    let ghost iv = string_views(incs@);
    let mut out: Vec<String> = Vec::new();
    let mut i: usize = 0;
    while i < incs.len()
        invariant
            i <= incs@.len(),
            iv == string_views(incs@),
            string_views(out@) == pack_expansion(*config, iv.take(i as int)),
        decreases incs.len() - i,
    {
        assert(iv.take(i + 1).drop_last() =~= iv.take(i as int));
        assert(iv.take(i + 1).last() == incs@[i as int]@);
        let inc = &incs[i];
        let more: Vec<String> = match config.categories.get(inc.as_str()) {
            Some(sub) => match &sub.display_packages {
                Some(d) => copy_strings(d),
                None => {
                    let mut one: Vec<String> = Vec::new();
                    one.push(inc.clone());
                    assert(string_views(one@) =~= seq![inc@]);
                    one
                },
            },
            None => {
                let mut one: Vec<String> = Vec::new();
                one.push(inc.clone());
                assert(string_views(one@) =~= seq![inc@]);
                one
            },
        };
        append_strings(&mut out, more);
        i = i + 1;
    }
    assert(iv.take(incs@.len() as int) =~= iv);
    out
}

/// `s` with each item kept only where it first occurs.
pub open spec fn first_occurrences(s: Seq<Seq<char>>) -> Seq<Seq<char>>
    decreases s.len(),
{
    if s.len() == 0 {
        seq![]
    } else {
        let pre = first_occurrences(s.drop_last());
        if pre.contains(s.last()) {
            pre
        } else {
            pre.push(s.last())
        }
    }
}

/// Drops the repeats of `v`, keeping first occurrences in order.
pub fn first_occurrences_of(v: Vec<String>) -> (r: Vec<String>)
    ensures
        string_views(r@) == first_occurrences(string_views(v@)),
{
    let ghost vv = string_views(v@);
    let mut out: Vec<String> = Vec::new();
    let mut i: usize = 0;
    while i < v.len()
        invariant
            i <= v@.len(),
            vv == string_views(v@),
            string_views(out@) == first_occurrences(vv.take(i as int)),
        decreases v.len() - i,
    {
        assert(vv.take(i + 1).drop_last() =~= vv.take(i as int));
        assert(vv.take(i + 1).last() == v@[i as int]@);
        if !crate::host::seq_has(&out, v[i].as_str()) {
            let ghost before = string_views(out@);
            out.push(v[i].clone());
            assert(string_views(out@) =~= before.push(v@[i as int]@));
        }
        i = i + 1;
    }
    assert(vv.take(v@.len() as int) =~= vv);
    out
}

// ---------------------------------------------------------------------------
// Line pieces
// ---------------------------------------------------------------------------

/// ` (Pack)` after a pack's name.
pub open spec fn pack_label(cat: Category) -> Seq<char> {
    if cat.includes is Some {
        " (Pack)"@
    } else {
        Seq::empty()
    }
}

/// The aliases joined by `, ` between `open` and `close`; nothing without aliases.
pub open spec fn alias_list(cat: Category, open: Seq<char>, close: Seq<char>) -> Seq<char> {
    match cat.aliases {
        Some(a) => if a@.len() > 0 {
            open + join(string_views(a@), ", "@) + close
        } else {
            Seq::empty()
        },
        None => Seq::empty(),
    }
}

/// ` [apply]` for an applied category.
pub open spec fn apply_suffix(applied: bool) -> Seq<char> {
    if applied {
        " "@ + WHITE@ + "[apply]"@ + RESET@
    } else {
        Seq::empty()
    }
}

/// ` [unsupported]` for a category the platform does not support.
pub open spec fn unsupported_suffix(supported: bool) -> Seq<char> {
    if !supported {
        " "@ + DIM_GRAY@ + "[unsupported]"@ + RESET@
    } else {
        Seq::empty()
    }
}

/// The distinct items of a pack: its display packages, else its included
/// categories' items, each once.
pub open spec fn pack_items(config: Config, cat: Category) -> Seq<Seq<char>> {
    first_occurrences(
        match cat.display_packages {
            Some(d) => string_views(d@),
            None => pack_expansion(config, string_views(cat.includes->0@)),
        },
    )
}

/// What the one-line list shows of a category's contents.
pub open spec fn flat_items_text(config: Config, cat: Category, p: Platform) -> Seq<char> {
    match cat.includes {
        Some(incs) => "pack: "@ + match cat.display_packages {
            Some(d) => items_limited(string_views(d@), 6),
            None => items_limited(first_occurrences(pack_expansion(config, string_views(incs@))), 6),
        },
        None => items_limited(listed_items(cat, p), 6),
    }
}

/// A category's line in the one-line list: its name, aliases and contents (left
/// out when they just repeat the name), and whether it is applied or unsupported.
pub open spec fn flat_line(
    config: Config,
    p: Platform,
    name: Seq<char>,
    cat: Category,
    supported: bool,
    applied: bool,
) -> Seq<char> {
    let text = flat_items_text(config, cat, p);
    let detail = if eq_ignore_ascii_case(text, name) {
        Seq::empty()
    } else {
        " / "@ + DIM_GRAY@ + text + RESET@
    };
    BOLD_GREEN@ + name + RESET@ + pack_label(cat) + alias_list(cat, ", "@, Seq::empty()) + detail
        + apply_suffix(applied) + unsupported_suffix(supported) + "\n"@
}

fn push_str(v: &mut Vec<char>, s: &str)
    ensures
        final(v)@ == old(v)@ + s@,
{
    let mut w = crate::text::chars_of(s);
    v.append(&mut w);
}

fn pack_label_of(cat: &Category) -> (r: &'static str)
    ensures
        r@ == pack_label(*cat),
{
    if cat.includes.is_some() {
        " (Pack)"
    } else {
        proof {
            reveal_strlit("");
        }
        ""
    }
}

fn alias_list_of(cat: &Category, open: &str, close: &str) -> (r: String)
    ensures
        r@ == alias_list(*cat, open@, close@),
{
    match &cat.aliases {
        Some(a) => {
            if a.len() > 0 {
                let j = crate::text::join_strings(a, ", ");
                let x = concat2(open, j.as_str());
                concat2(x.as_str(), close)
            } else {
                proof {
                    reveal_strlit("");
                }
                owned("")
            }
        },
        None => {
            proof {
                reveal_strlit("");
            }
            owned("")
        },
    }
}

fn push_suffixes(v: &mut Vec<char>, applied: bool, supported: bool)
    ensures
        final(v)@ == old(v)@ + apply_suffix(applied) + unsupported_suffix(supported),
{
    let ghost start = v@;
    if applied {
        push_str(v, " ");
        push_str(v, WHITE);
        push_str(v, "[apply]");
        push_str(v, RESET);
    }
    assert(v@ =~= start + apply_suffix(applied));
    let ghost mid = v@;
    if !supported {
        push_str(v, " ");
        push_str(v, DIM_GRAY);
        push_str(v, "[unsupported]");
        push_str(v, RESET);
    }
    assert(v@ =~= mid + unsupported_suffix(supported));
}

/// The distinct items of pack `cat` (see [`pack_items`]).
pub fn pack_items_of(config: &Config, cat: &Category) -> (r: Vec<String>)
    requires
        cat.includes is Some,
    ensures
        string_views(r@) == pack_items(*config, *cat),
{
    let all = match &cat.display_packages {
        Some(d) => copy_strings(d),
        None => match &cat.includes {
            Some(incs) => pack_expansion_of(config, incs),
            None => Vec::new(),
        },
    };
    first_occurrences_of(all)
}

fn flat_items_text_of(config: &Config, cat: &Category, platform: &Platform) -> (r: String)
    ensures
        r@ == flat_items_text(*config, *cat, *platform),
{
    match &cat.includes {
        Some(incs) => {
            let t = match &cat.display_packages {
                Some(d) => crate::installer::format_items_limited(d.as_slice(), 6),
                None => {
                    let e = pack_expansion_of(config, incs);
                    let u = first_occurrences_of(e);
                    crate::installer::format_items_limited(u.as_slice(), 6)
                },
            };
            concat2("pack: ", t.as_str())
        },
        None => {
            let items = listed_items_of(cat, platform);
            crate::installer::format_items_limited(items.as_slice(), 6)
        },
    }
}

/// A category's line in the one-line list (see [`flat_line`]).
pub fn render_flat_line(
    config: &Config,
    platform: &Platform,
    name: &str,
    cat: &Category,
    supported: bool,
    applied: bool,
) -> (r: String)
    ensures
        r@ == flat_line(*config, *platform, name@, *cat, supported, applied),
{
    let text = flat_items_text_of(config, cat, platform);
    let mut v: Vec<char> = Vec::new();
    push_str(&mut v, BOLD_GREEN);
    push_str(&mut v, name);
    push_str(&mut v, RESET);
    push_str(&mut v, pack_label_of(cat));
    proof {
        reveal_strlit("");
    }
    let aliases = alias_list_of(cat, ", ", "");
    push_str(&mut v, aliases.as_str());
    if !crate::text::str_eq_ignore_ascii_case(text.as_str(), name) {
        push_str(&mut v, " / ");
        push_str(&mut v, DIM_GRAY);
        push_str(&mut v, text.as_str());
        push_str(&mut v, RESET);
    }
    push_suffixes(&mut v, applied, supported);
    push_str(&mut v, "\n");
    assert(v@ =~= flat_line(*config, *platform, name@, *cat, supported, applied));
    crate::text::string_of(v.as_slice())
}

/// What the grouped list shows of a category's contents when there is room.
pub open spec fn grouped_full_text(config: Config, cat: Category, p: Platform) -> Seq<char> {
    if cat.includes is Some {
        "pack: "@ + items_limited(pack_items(config, cat), 6)
    } else {
        items_limited(listed_items(cat, p), 6)
    }
}

/// How many items the grouped list counts for a category.
pub open spec fn grouped_count(config: Config, cat: Category, p: Platform) -> nat {
    if cat.includes is Some {
        pack_items(config, cat).len()
    } else {
        listed_items(cat, p).len()
    }
}

/// What the grouped list shows of a category's contents when there is no room:
/// the count.
pub open spec fn grouped_count_text(config: Config, cat: Category, p: Platform) -> Seq<char> {
    let n = grouped_count(config, cat, p);
    if cat.includes is Some {
        "pack: "@ + decimal(n) + " items"@
    } else if n == 0 {
        "0 pkgs"@
    } else if n == 1 {
        "1 pkg"@
    } else {
        decimal(n) + " pkgs"@
    }
}

/// The grouped list leaves out contents that are empty or just repeat the name.
pub open spec fn grouped_contents_hidden(config: Config, name: Seq<char>, cat: Category, p: Platform) -> bool {
    grouped_count(config, cat, p) == 0 || (cat.includes is None && eq_ignore_ascii_case(
        items_limited(listed_items(cat, p), 6),
        name,
    ))
}

/// The full contents fit on the terminal line: the width that the line would
/// take (counting bytes, and the visible width of the suffixes) is at most
/// `term_width`.
pub open spec fn grouped_fits(
    config: Config,
    p: Platform,
    name: Seq<char>,
    cat: Category,
    supported: bool,
    applied: bool,
    term_width: nat,
) -> bool {
    let header = 4 + utf8_len(name) + utf8_len(pack_label(cat)) + utf8_len(
        alias_list(cat, " ("@, ")"@),
    ) + 2 + utf8_len(cat.description@);
    let full = 3 + utf8_len(grouped_full_text(config, cat, p));
    header + full + (if applied {
        8int
    } else {
        0int
    }) + (if !supported {
        14int
    } else {
        0int
    }) <= term_width
}

/// The contents part of a grouped line: nothing, the full contents when they
/// fit, else their count.
pub open spec fn grouped_contents(
    config: Config,
    p: Platform,
    name: Seq<char>,
    cat: Category,
    supported: bool,
    applied: bool,
    term_width: nat,
) -> Seq<char> {
    if grouped_contents_hidden(config, name, cat, p) {
        Seq::empty()
    } else if grouped_fits(config, p, name, cat, supported, applied, term_width) {
        " "@ + DIM_GRAY@ + "("@ + grouped_full_text(config, cat, p) + ")"@ + RESET@
    } else {
        " "@ + DIM_GRAY@ + "("@ + grouped_count_text(config, cat, p) + ")"@ + RESET@
    }
}

/// A category's line in the grouped list: name, aliases, description, its
/// contents in full if they fit on the terminal line (else their count), and
/// whether it is applied or unsupported.
pub open spec fn grouped_line(
    config: Config,
    p: Platform,
    name: Seq<char>,
    cat: Category,
    supported: bool,
    applied: bool,
    term_width: nat,
) -> Seq<char> {
    "  - "@ + BOLD_GREEN@ + name + RESET@ + pack_label(cat) + alias_list(cat, " ("@, ")"@) + ": "@
        + cat.description@ + grouped_contents(config, p, name, cat, supported, applied, term_width)
        + apply_suffix(applied) + unsupported_suffix(supported) + "\n"@
}

fn grouped_texts_of(config: &Config, platform: &Platform, cat: &Category) -> (r: (String, String, usize))
    ensures
        r.0@ == grouped_full_text(*config, *cat, *platform),
        r.1@ == grouped_count_text(*config, *cat, *platform),
        r.2 == grouped_count(*config, *cat, *platform),
{
    match &cat.includes {
        Some(_) => {
            let u = pack_items_of(config, cat);
            let t = crate::installer::format_items_limited(u.as_slice(), 6);
            let d = crate::text::decimal_string(u.len() as u64);
            let a = concat2("pack: ", d.as_str());
            (concat2("pack: ", t.as_str()), concat2(a.as_str(), " items"), u.len())
        },
        None => {
            let items = listed_items_of(cat, platform);
            let t = crate::installer::format_items_limited(items.as_slice(), 6);
            let c = if items.len() == 0 {
                owned("0 pkgs")
            } else if items.len() == 1 {
                owned("1 pkg")
            } else {
                let d = crate::text::decimal_string(items.len() as u64);
                concat2(d.as_str(), " pkgs")
            };
            (t, c, items.len())
        },
    }
}

fn grouped_contents_of(
    config: &Config,
    platform: &Platform,
    name: &str,
    cat: &Category,
    supported: bool,
    applied: bool,
    term_width: usize,
) -> (r: Vec<char>)
    ensures
        r@ == grouped_contents(*config, *platform, name@, *cat, supported, applied, term_width as nat),
{
    let (full, count, n) = grouped_texts_of(config, platform, cat);
    let hidden = n == 0 || (cat.includes.is_none() && crate::text::str_eq_ignore_ascii_case(full.as_str(), name));
    let mut v: Vec<char> = Vec::new();
    if hidden {
        assert(v@ =~= Seq::<char>::empty());
        return v;
    }
    let aliases = alias_list_of(cat, " (", ")");
    let header: u128 = 4 + crate::text::utf8_len_of(name) + crate::text::utf8_len_of(pack_label_of(cat))
        + crate::text::utf8_len_of(aliases.as_str()) + 2 + crate::text::utf8_len_of(cat.description.as_str());
    let extra: u128 = (if applied {
        8
    } else {
        0
    }) + (if !supported {
        14
    } else {
        0
    });
    let width: u128 = header + 3 + crate::text::utf8_len_of(full.as_str()) + extra;
    push_str(&mut v, " ");
    push_str(&mut v, DIM_GRAY);
    push_str(&mut v, "(");
    if width <= term_width as u128 {
        push_str(&mut v, full.as_str());
    } else {
        push_str(&mut v, count.as_str());
    }
    push_str(&mut v, ")");
    push_str(&mut v, RESET);
    v
}

/// A category's line in the grouped list (see [`grouped_line`]).
pub fn render_grouped_line(
    config: &Config,
    platform: &Platform,
    name: &str,
    cat: &Category,
    supported: bool,
    applied: bool,
    term_width: usize,
) -> (r: String)
    ensures
        r@ == grouped_line(*config, *platform, name@, *cat, supported, applied, term_width as nat),
{
    let mut contents = grouped_contents_of(config, platform, name, cat, supported, applied, term_width);
    let aliases = alias_list_of(cat, " (", ")");
    let mut v: Vec<char> = Vec::new();
    push_str(&mut v, "  - ");
    push_str(&mut v, BOLD_GREEN);
    push_str(&mut v, name);
    push_str(&mut v, RESET);
    push_str(&mut v, pack_label_of(cat));
    push_str(&mut v, aliases.as_str());
    push_str(&mut v, ": ");
    push_str(&mut v, cat.description.as_str());
    v.append(&mut contents);
    push_suffixes(&mut v, applied, supported);
    push_str(&mut v, "\n");
    assert(v@ =~= grouped_line(*config, *platform, name@, *cat, supported, applied, term_width as nat));
    crate::text::string_of(v.as_slice())
}

// ---------------------------------------------------------------------------
// The whole list
// ---------------------------------------------------------------------------

/// The `i`-th category passes the query filter (if any).
pub open spec fn cat_listed(config: Config, filter: Option<Seq<char>>, p: Platform, i: int) -> bool {
    match filter {
        Some(q) => matches_query(q, config.categories.keys()[i], config.categories.values()[i], p),
        None => true,
    }
}

/// The `i`-th category is supported on `p`.
pub open spec fn cat_supported(config: Config, p: Platform, i: int) -> bool {
    support(config, config.categories.values()[i], p) == Some(true)
}

/// The `i`-th category is applied.
pub open spec fn cat_applied(config: Config, state: State, p: Platform, host: HostView, i: int) -> bool {
    applied(config, config.categories.keys()[i], config.categories.values()[i], state, p, host) == Some(true)
}

/// The `i`-th category is shown: it passes the filter, and it is supported or
/// hidden categories are shown too.
pub open spec fn cat_shown(config: Config, filter: Option<Seq<char>>, p: Platform, show_hidden: bool, i: int) -> bool {
    cat_listed(config, filter, p, i) && (cat_supported(config, p, i) || show_hidden)
}

/// The list can be produced: every category that passes the filter has a support
/// status, and every one shown an applied status (a pack cycle that the
/// evaluation runs into has neither).
pub open spec fn listable(
    config: Config,
    state: State,
    p: Platform,
    host: HostView,
    filter: Option<Seq<char>>,
    show_hidden: bool,
) -> bool {
    forall|i: int|
        0 <= i < config.categories.values().len() && #[trigger] cat_listed(config, filter, p, i) ==> {
            &&& support(config, config.categories.values()[i], p) is Some
            &&& (cat_supported(config, p, i) || show_hidden) ==> applied(
                config,
                config.categories.keys()[i],
                config.categories.values()[i],
                state,
                p,
                host,
            ) is Some
        }
}

/// How many of the first `k` categories pass the filter but are unsupported.
pub open spec fn hidden_count(config: Config, filter: Option<Seq<char>>, p: Platform, k: int) -> nat
    decreases k,
{
    if k <= 0 {
        0
    } else {
        hidden_count(config, filter, p, k - 1) + if cat_listed(config, filter, p, k - 1) && !cat_supported(
            config,
            p,
            k - 1,
        ) {
            1nat
        } else {
            0nat
        }
    }
}

/// The note on hidden categories that ends the list.
pub open spec fn hidden_footer(hidden: nat, show_hidden: bool) -> Seq<char> {
    if hidden > 0 && !show_hidden {
        "\n"@ + DIM_GRAY@ + decimal(hidden) + " hidden. Use '-sh' or '--show-hidden' to view all."@ + RESET@
            + "\n"@
    } else {
        Seq::empty()
    }
}

/// The one-line list of the first `k` categories.
pub open spec fn flat_text(
    config: Config,
    state: State,
    p: Platform,
    host: HostView,
    filter: Option<Seq<char>>,
    show_hidden: bool,
    k: int,
) -> Seq<char>
    decreases k,
{
    if k <= 0 {
        seq![]
    } else {
        flat_text(config, state, p, host, filter, show_hidden, k - 1) + if cat_shown(
            config,
            filter,
            p,
            show_hidden,
            k - 1,
        ) {
            flat_line(
                config,
                p,
                config.categories.keys()[k - 1],
                config.categories.values()[k - 1],
                cat_supported(config, p, k - 1),
                cat_applied(config, state, p, host, k - 1),
            )
        } else {
            Seq::<char>::empty()
        }
    }
}

/// The group a category is listed under.
pub open spec fn group_of_cat(cat: Category) -> Seq<char> {
    match cat.group {
        Some(g) => g@,
        None => "Other Categories"@,
    }
}

/// The groups of the categories that pass the filter.
pub open spec fn listed_groups(config: Config, filter: Option<Seq<char>>, p: Platform) -> Set<Seq<char>> {
    Set::new(
        |g: Seq<char>|
            exists|i: int|
                0 <= i < config.categories.values().len() && cat_listed(config, filter, p, i)
                    && #[trigger] group_of_cat(config.categories.values()[i]) == g,
    )
}

/// The grouped lines of those of the first `k` categories that are shown under group `g`.
pub open spec fn group_lines(
    config: Config,
    state: State,
    p: Platform,
    host: HostView,
    filter: Option<Seq<char>>,
    show_hidden: bool,
    term_width: nat,
    g: Seq<char>,
    k: int,
) -> Seq<char>
    decreases k,
{
    if k <= 0 {
        seq![]
    } else {
        group_lines(config, state, p, host, filter, show_hidden, term_width, g, k - 1) + if cat_shown(
            config,
            filter,
            p,
            show_hidden,
            k - 1,
        ) && group_of_cat(config.categories.values()[k - 1]) == g {
            grouped_line(
                config,
                p,
                config.categories.keys()[k - 1],
                config.categories.values()[k - 1],
                cat_supported(config, p, k - 1),
                cat_applied(config, state, p, host, k - 1),
                term_width,
            )
        } else {
            Seq::<char>::empty()
        }
    }
}

/// The boxed heading of a group.
pub open spec fn group_header(g: Seq<char>) -> Seq<char> {
    let border = Seq::new((g.len() + 2) as nat, |i: int| '─');
    "\n"@ + BOLD_CYAN@ + "╭"@ + border + "╮\n│ "@ + g + " │\n╰"@ + border + "╯"@ + RESET@ + "\n"@
}

/// The grouped list of the groups `gs`, each with its heading, leaving out
/// groups with no line to show.
pub open spec fn grouped_text(
    config: Config,
    state: State,
    p: Platform,
    host: HostView,
    filter: Option<Seq<char>>,
    show_hidden: bool,
    term_width: nat,
    gs: Seq<Seq<char>>,
) -> Seq<char>
    decreases gs.len(),
{
    if gs.len() == 0 {
        seq![]
    } else {
        let lines = group_lines(
            config,
            state,
            p,
            host,
            filter,
            show_hidden,
            term_width,
            gs.last(),
            config.categories.values().len() as int,
        );
        grouped_text(config, state, p, host, filter, show_hidden, term_width, gs.drop_last()) + if lines.len()
            == 0 {
            Seq::<char>::empty()
        } else {
            group_header(gs.last()) + lines
        }
    }
}

/// Whether the `i`-th category passes the filter, whether it is supported, and
/// (when it is shown) whether it is applied.
fn category_flags(
    config: &Config,
    state: &State,
    platform: &Platform,
    host: &HostView,
    filter: Option<&str>,
    show_hidden: bool,
    i: usize,
) -> (r: (bool, bool, bool))
    requires
        config.categories.keys().len() < usize::MAX,
        i < config.categories.values().len(),
        i < config.categories.keys().len(),
        listable(
            *config,
            *state,
            *platform,
            *host,
            match filter {
                Some(q) => Some(q@),
                None => None::<Seq<char>>,
            },
            show_hidden,
        ),
    ensures
        ({
            let f = match filter {
                Some(q) => Some(q@),
                None => None::<Seq<char>>,
            };
            &&& r.0 == cat_listed(*config, f, *platform, i as int)
            &&& r.0 ==> r.1 == cat_supported(*config, *platform, i as int)
            &&& (r.0 && (r.1 || show_hidden)) ==> r.2 == cat_applied(*config, *state, *platform, *host, i as int)
        }),
{
    let ghost f = match filter {
        Some(q) => Some(q@),
        None => None::<Seq<char>>,
    };
    let name = config.categories.key_at(i);
    let cat = config.categories.value_at(i);
    let listed = match filter {
        Some(q) => crate::installer::category_matches_query(q, name.as_str(), cat, platform),
        None => true,
    };
    assert(listed == cat_listed(*config, f, *platform, i as int));
    if !listed {
        return (false, false, false);
    }
    let supported = crate::installer::is_category_supported(cat, platform, config);
    if !(supported || show_hidden) {
        return (true, supported, false);
    }
    let applied = crate::installer::is_category_applied(name.as_str(), cat, state, platform, config, host);
    (true, supported, applied)
}

/// Whether the list can be produced (see [`listable`]).
pub fn check_listable(
    config: &Config,
    state: &State,
    platform: &Platform,
    host: &HostView,
    filter: Option<&str>,
    show_hidden: bool,
) -> (r: bool)
    requires
        config.categories.keys().len() < usize::MAX,
    ensures
        r == listable(
            *config,
            *state,
            *platform,
            *host,
            match filter {
                Some(q) => Some(q@),
                None => None::<Seq<char>>,
            },
            show_hidden,
        ),
{
    let ghost f = match filter {
        Some(q) => Some(q@),
        None => None::<Seq<char>>,
    };
    let n = config.categories.len();
    let mut i: usize = 0;
    while i < n
        invariant
            i <= n,
            n == config.categories.values().len(),
            n == config.categories.keys().len(),
            n < usize::MAX,
            f == match filter {
                Some(q) => Some(q@),
                None => None::<Seq<char>>,
            },
            forall|j: int|
                0 <= j < i && #[trigger] cat_listed(*config, f, *platform, j) ==> {
                    &&& support(*config, config.categories.values()[j], *platform) is Some
                    &&& (cat_supported(*config, *platform, j) || show_hidden) ==> applied(
                        *config,
                        config.categories.keys()[j],
                        config.categories.values()[j],
                        *state,
                        *platform,
                        *host,
                    ) is Some
                },
        decreases n - i,
    {
        let name = config.categories.key_at(i);
        let cat = config.categories.value_at(i);
        let listed = match filter {
            Some(q) => crate::installer::category_matches_query(q, name.as_str(), cat, platform),
            None => true,
        };
        assert(listed == cat_listed(*config, f, *platform, i as int));
        if listed {
            match crate::installer::category_support(cat, platform, config) {
                None => {
                    return false;
                },
                Some(supported) => {
                    if supported || show_hidden {
                        match crate::installer::category_applied(name.as_str(), cat, state, platform, config, host) {
                            None => {
                                return false;
                            },
                            Some(_) => {},
                        }
                    }
                },
            }
        }
        i = i + 1;
    }
    true
}

fn flat_list(
    config: &Config,
    state: &State,
    platform: &Platform,
    host: &HostView,
    filter: Option<&str>,
    show_hidden: bool,
) -> (r: (Vec<char>, u64))
    requires
        config.categories.keys().len() < usize::MAX,
        listable(
            *config,
            *state,
            *platform,
            *host,
            match filter {
                Some(q) => Some(q@),
                None => None::<Seq<char>>,
            },
            show_hidden,
        ),
    ensures
        ({
            let f = match filter {
                Some(q) => Some(q@),
                None => None::<Seq<char>>,
            };
            let n = config.categories.values().len() as int;
            &&& r.0@ == flat_text(*config, *state, *platform, *host, f, show_hidden, n)
            &&& r.1 == hidden_count(*config, f, *platform, n)
        }),
{
    let ghost f = match filter {
        Some(q) => Some(q@),
        None => None::<Seq<char>>,
    };
    let n = config.categories.len();
    let mut out: Vec<char> = Vec::new();
    let mut hidden: u64 = 0;
    let mut i: usize = 0;
    while i < n
        invariant
            i <= n,
            n == config.categories.values().len(),
            n == config.categories.keys().len(),
            n < usize::MAX,
            f == match filter {
                Some(q) => Some(q@),
                None => None::<Seq<char>>,
            },
            listable(*config, *state, *platform, *host, f, show_hidden),
            out@ == flat_text(*config, *state, *platform, *host, f, show_hidden, i as int),
            hidden == hidden_count(*config, f, *platform, i as int),
            hidden <= i,
        decreases n - i,
    {
        let (listed, supported, applied) = category_flags(config, state, platform, host, filter, show_hidden, i);
        if listed {
            if supported || show_hidden {
                let line = render_flat_line(
                    config,
                    platform,
                    config.categories.key_at(i).as_str(),
                    config.categories.value_at(i),
                    supported,
                    applied,
                );
                push_str(&mut out, line.as_str());
            }
            if !supported {
                hidden = hidden + 1;
            }
        }
        i = i + 1;
    }
    (out, hidden)
}

fn group_of_cat_str(cat: &Category) -> (r: &str)
    ensures
        r@ == group_of_cat(*cat),
{
    match &cat.group {
        Some(g) => g.as_str(),
        None => "Other Categories",
    }
}

fn listed_group_names(config: &Config, platform: &Platform, filter: Option<&str>) -> (r: Vec<String>)
    ensures
        string_views(r@).to_set() == listed_groups(
            *config,
            match filter {
                Some(q) => Some(q@),
                None => None::<Seq<char>>,
            },
            *platform,
        ),
{
    let ghost f = match filter {
        Some(q) => Some(q@),
        None => None::<Seq<char>>,
    };
    let n = config.categories.len();
    let mut names: Vec<String> = Vec::new();
    let mut i: usize = 0;
    while i < n
        invariant
            i <= n,
            n == config.categories.values().len(),
            n == config.categories.keys().len(),
            f == match filter {
                Some(q) => Some(q@),
                None => None::<Seq<char>>,
            },
            forall|g: Seq<char>|
                string_views(names@).contains(g) <==> exists|j: int|
                    0 <= j < i && cat_listed(*config, f, *platform, j) && #[trigger] group_of_cat(
                        config.categories.values()[j],
                    ) == g,
        decreases n - i,
    {
        let name = config.categories.key_at(i);
        let cat = config.categories.value_at(i);
        let listed = match filter {
            Some(q) => crate::installer::category_matches_query(q, name.as_str(), cat, platform),
            None => true,
        };
        assert(listed == cat_listed(*config, f, *platform, i as int));
        let ghost before = string_views(names@);
        if listed {
            names.push(owned(group_of_cat_str(cat)));
            assert(string_views(names@) =~= before.push(group_of_cat(config.categories.values()[i as int])));
        }
        assert forall|g: Seq<char>|
            string_views(names@).contains(g) <==> exists|j: int|
                0 <= j < i + 1 && cat_listed(*config, f, *platform, j) && #[trigger] group_of_cat(
                    config.categories.values()[j],
                ) == g by {
            if string_views(names@).contains(g) {
                if !before.contains(g) {
                    let t = choose|t: int| 0 <= t < string_views(names@).len() && string_views(names@)[t] == g;
                    assert(t == before.len());
                    assert(cat_listed(*config, f, *platform, i as int) && group_of_cat(
                        config.categories.values()[i as int],
                    ) == g);
                }
            }
            if exists|j: int|
                0 <= j < i + 1 && cat_listed(*config, f, *platform, j) && #[trigger] group_of_cat(
                    config.categories.values()[j],
                ) == g {
                let j = choose|j: int|
                    0 <= j < i + 1 && cat_listed(*config, f, *platform, j) && #[trigger] group_of_cat(
                        config.categories.values()[j],
                    ) == g;
                if j == i {
                    assert(string_views(names@)[before.len() as int] == g);
                } else {
                    assert(exists|j2: int|
                        0 <= j2 < i && cat_listed(*config, f, *platform, j2) && #[trigger] group_of_cat(
                            config.categories.values()[j2],
                        ) == g);
                    assert(before.contains(g));
                    let t = choose|t: int| 0 <= t < before.len() && before[t] == g;
                    assert(string_views(names@)[t] == before[t]);
                }
            }
        }
        i = i + 1;
    }
    assert(string_views(names@).to_set() =~= listed_groups(*config, f, *platform));
    names
}

fn group_lines_of(
    config: &Config,
    state: &State,
    platform: &Platform,
    host: &HostView,
    filter: Option<&str>,
    show_hidden: bool,
    term_width: usize,
    g: &str,
) -> (r: Vec<char>)
    requires
        config.categories.keys().len() < usize::MAX,
        listable(
            *config,
            *state,
            *platform,
            *host,
            match filter {
                Some(q) => Some(q@),
                None => None::<Seq<char>>,
            },
            show_hidden,
        ),
    ensures
        r@ == group_lines(
            *config,
            *state,
            *platform,
            *host,
            match filter {
                Some(q) => Some(q@),
                None => None::<Seq<char>>,
            },
            show_hidden,
            term_width as nat,
            g@,
            config.categories.values().len() as int,
        ),
{
    let ghost f = match filter {
        Some(q) => Some(q@),
        None => None::<Seq<char>>,
    };
    let n = config.categories.len();
    let mut out: Vec<char> = Vec::new();
    let mut i: usize = 0;
    while i < n
        invariant
            i <= n,
            n == config.categories.values().len(),
            n == config.categories.keys().len(),
            n < usize::MAX,
            f == match filter {
                Some(q) => Some(q@),
                None => None::<Seq<char>>,
            },
            listable(*config, *state, *platform, *host, f, show_hidden),
            out@ == group_lines(*config, *state, *platform, *host, f, show_hidden, term_width as nat, g@, i as int),
        decreases n - i,
    {
        let (listed, supported, applied) = category_flags(config, state, platform, host, filter, show_hidden, i);
        let cat = config.categories.value_at(i);
        if listed && (supported || show_hidden) && crate::text::str_eq(group_of_cat_str(cat), g) {
            let line = render_grouped_line(
                config,
                platform,
                config.categories.key_at(i).as_str(),
                cat,
                supported,
                applied,
                term_width,
            );
            push_str(&mut out, line.as_str());
        }
        i = i + 1;
    }
    out
}

fn push_group_header(v: &mut Vec<char>, g: &str)
    ensures
        final(v)@ == old(v)@ + group_header(g@),
{
    let gv = crate::text::chars_of(g);
    let mut border: Vec<char> = Vec::new();
    border.push('─');
    border.push('─');
    assert(border@ =~= Seq::new(2, |i: int| '─'));
    let mut k: usize = 0;
    while k < gv.len()
        invariant
            k <= gv@.len(),
            gv@ == g@,
            border@ == Seq::new((k + 2) as nat, |i: int| '─'),
        decreases gv.len() - k,
    {
        border.push('─');
        assert(border@ =~= Seq::new((k + 3) as nat, |i: int| '─'));
        k = k + 1;
    }
    let ghost start = v@;
    let b = crate::text::string_of(border.as_slice());
    push_str(v, "\n");
    push_str(v, BOLD_CYAN);
    push_str(v, "╭");
    push_str(v, b.as_str());
    push_str(v, "╮\n│ ");
    push_str(v, g);
    push_str(v, " │\n╰");
    push_str(v, b.as_str());
    push_str(v, "╯");
    push_str(v, RESET);
    push_str(v, "\n");
    assert(v@ =~= start + group_header(g@));
}

fn grouped_list(
    config: &Config,
    state: &State,
    platform: &Platform,
    host: &HostView,
    filter: Option<&str>,
    show_hidden: bool,
    term_width: usize,
) -> (r: Vec<char>)
    requires
        config.categories.keys().len() < usize::MAX,
        listable(
            *config,
            *state,
            *platform,
            *host,
            match filter {
                Some(q) => Some(q@),
                None => None::<Seq<char>>,
            },
            show_hidden,
        ),
    ensures
        ({
            let f = match filter {
                Some(q) => Some(q@),
                None => None::<Seq<char>>,
            };
            exists|gs: Seq<Seq<char>>|
                sorted_lt(gs) && gs.to_set() == listed_groups(*config, f, *platform) && r@ == grouped_text(
                    *config,
                    *state,
                    *platform,
                    *host,
                    f,
                    show_hidden,
                    term_width as nat,
                    gs,
                )
        }),
{
    let ghost f = match filter {
        Some(q) => Some(q@),
        None => None::<Seq<char>>,
    };
    let groups = sort_dedup_strings(listed_group_names(config, platform, filter));
    let ghost gs = string_views(groups@);
    let mut out: Vec<char> = Vec::new();
    let mut k: usize = 0;
    while k < groups.len()
        invariant
            k <= groups@.len(),
            gs == string_views(groups@),
            config.categories.keys().len() < usize::MAX,
            f == match filter {
                Some(q) => Some(q@),
                None => None::<Seq<char>>,
            },
            listable(*config, *state, *platform, *host, f, show_hidden),
            out@ == grouped_text(*config, *state, *platform, *host, f, show_hidden, term_width as nat, gs.take(k as int)),
        decreases groups.len() - k,
    {
        assert(gs.take(k + 1).drop_last() =~= gs.take(k as int));
        assert(gs.take(k + 1).last() == groups@[k as int]@);
        let g = groups[k].as_str();
        let mut lines = group_lines_of(config, state, platform, host, filter, show_hidden, term_width, g);
        if lines.len() > 0 {
            push_group_header(&mut out, g);
            out.append(&mut lines);
        }
        k = k + 1;
    }
    assert(gs.take(groups@.len() as int) =~= gs);
    out
}

/// The category list: `No categories found in configuration.` for an empty
/// catalog; otherwise the lines of the categories that the filter keeps (one
/// line per category, or grouped under their groups in group-name order), with
/// a note on how many unsupported ones are hidden.
pub fn list_categories(
    config: &Config,
    state: &State,
    platform: &Platform,
    host: &HostView,
    show_hidden: bool,
    filter: Option<&str>,
    group_by_category: bool,
    term_width: usize,
) -> (r: String)
    requires
        config.categories.keys().len() < usize::MAX,
        listable(
            *config,
            *state,
            *platform,
            *host,
            match filter {
                Some(q) => Some(q@),
                None => None::<Seq<char>>,
            },
            show_hidden,
        ),
    ensures
        ({
            let f = match filter {
                Some(q) => Some(q@),
                None => None::<Seq<char>>,
            };
            let n = config.categories.values().len() as int;
            let footer = hidden_footer(hidden_count(*config, f, *platform, n), show_hidden);
            if n == 0 {
                r@ == "No categories found in configuration.\n"@
            } else if !group_by_category {
                r@ == flat_text(*config, *state, *platform, *host, f, show_hidden, n) + footer
            } else {
                exists|gs: Seq<Seq<char>>|
                    sorted_lt(gs) && gs.to_set() == listed_groups(*config, f, *platform) && r@ == grouped_text(
                        *config,
                        *state,
                        *platform,
                        *host,
                        f,
                        show_hidden,
                        term_width as nat,
                        gs,
                    ) + footer
            }
        }),
{
    let ghost f = match filter {
        Some(q) => Some(q@),
        None => None::<Seq<char>>,
    };
    if config.categories.len() == 0 {
        return owned("No categories found in configuration.\n");
    }
    let (flat, hidden) = flat_list(config, state, platform, host, filter, show_hidden);
    let mut out = if group_by_category {
        grouped_list(config, state, platform, host, filter, show_hidden, term_width)
    } else {
        flat
    };
    let ghost body = out@;
    if hidden > 0 && !show_hidden {
        push_str(&mut out, "\n");
        push_str(&mut out, DIM_GRAY);
        let d = crate::text::decimal_string(hidden);
        push_str(&mut out, d.as_str());
        push_str(&mut out, " hidden. Use '-sh' or '--show-hidden' to view all.");
        push_str(&mut out, RESET);
        push_str(&mut out, "\n");
    }
    assert(out@ =~= body + hidden_footer(hidden_count(*config, f, *platform, config.categories.values().len() as int), show_hidden));
    crate::text::string_of(out.as_slice())
}

/// The category list when it can be produced (see [`listable`]), else `None`
/// (a pack cycle that the evaluation runs into).
pub fn list_categories_checked(
    config: &Config,
    state: &State,
    platform: &Platform,
    host: &HostView,
    show_hidden: bool,
    filter: Option<&str>,
    group_by_category: bool,
    term_width: usize,
) -> (r: Option<String>)
    requires
        config.categories.keys().len() < usize::MAX,
    ensures
        ({
            let f = match filter {
                Some(q) => Some(q@),
                None => None::<Seq<char>>,
            };
            let n = config.categories.values().len() as int;
            let footer = hidden_footer(hidden_count(*config, f, *platform, n), show_hidden);
            match r {
                None => !listable(*config, *state, *platform, *host, f, show_hidden),
                Some(t) => listable(*config, *state, *platform, *host, f, show_hidden) && if n == 0 {
                    t@ == "No categories found in configuration.\n"@
                } else if !group_by_category {
                    t@ == flat_text(*config, *state, *platform, *host, f, show_hidden, n) + footer
                } else {
                    exists|gs: Seq<Seq<char>>|
                        sorted_lt(gs) && gs.to_set() == listed_groups(*config, f, *platform) && t@
                            == grouped_text(
                            *config,
                            *state,
                            *platform,
                            *host,
                            f,
                            show_hidden,
                            term_width as nat,
                            gs,
                        ) + footer
                },
            }
        }),
{
    if !check_listable(config, state, platform, host, filter, show_hidden) {
        return None;
    }
    Some(list_categories(config, state, platform, host, show_hidden, filter, group_by_category, term_width))
}

// ---------------------------------------------------------------------------
// Laws of the list
// ---------------------------------------------------------------------------

/// A search with hidden categories shown lists exactly the categories that
/// match the query, supported or not.
pub proof fn law_search_lists_exactly_matches(config: Config, q: Seq<char>, p: Platform, i: int)
    requires
        0 <= i < config.categories.values().len(),
    ensures
        cat_shown(config, Some(q), p, true, i) == matches_query(
            q,
            config.categories.keys()[i],
            config.categories.values()[i],
            p,
        ),
{
}

/// Without a query, the list shows every supported category, and an
/// unsupported one exactly when hidden categories are shown.
pub proof fn law_plain_list_shows_supported(config: Config, p: Platform, show_hidden: bool, i: int)
    requires
        0 <= i < config.categories.values().len(),
    ensures
        cat_shown(config, None, p, show_hidden, i) == (cat_supported(config, p, i) || show_hidden),
{
}

/// A category's line starts with its name in bold green, and ends with the
/// apply marker (present exactly when the category is applied), then the
/// unsupported marker (present exactly when it is not supported), then the
/// line break.
pub proof fn law_line_opens_with_name_and_ends_with_marks(
    config: Config,
    p: Platform,
    name: Seq<char>,
    cat: Category,
    supported: bool,
    applied: bool,
)
    ensures
        ({
            let line = flat_line(config, p, name, cat, supported, applied);
            let head = BOLD_GREEN@ + name + RESET@;
            let tail = apply_suffix(applied) + unsupported_suffix(supported) + "\n"@;
            &&& head.len() + tail.len() <= line.len()
            &&& line.subrange(0, head.len() as int) == head
            &&& line.subrange(line.len() - tail.len(), line.len() as int) == tail
        }),
        apply_suffix(true) == " "@ + WHITE@ + "[apply]"@ + RESET@,
        apply_suffix(false) == Seq::<char>::empty(),
        unsupported_suffix(false) == " "@ + DIM_GRAY@ + "[unsupported]"@ + RESET@,
        unsupported_suffix(true) == Seq::<char>::empty(),
{
    let line = flat_line(config, p, name, cat, supported, applied);
    let head = BOLD_GREEN@ + name + RESET@;
    let tail = apply_suffix(applied) + unsupported_suffix(supported) + "\n"@;
    let text = flat_items_text(config, cat, p);
    let detail = if eq_ignore_ascii_case(text, name) {
        Seq::empty()
    } else {
        " / "@ + DIM_GRAY@ + text + RESET@
    };
    let mid = pack_label(cat) + alias_list(cat, ", "@, Seq::empty()) + detail;
    assert(line =~= head + mid + tail);
    assert(line.subrange(0, head.len() as int) =~= head);
    assert(line.subrange(line.len() - tail.len(), line.len() as int) =~= tail);
}

proof fn lemma_flat_text_prefix(
    config: Config,
    state: State,
    p: Platform,
    host: HostView,
    filter: Option<Seq<char>>,
    show_hidden: bool,
    k1: int,
    k2: int,
)
    requires
        0 <= k1 <= k2,
    ensures
        flat_text(config, state, p, host, filter, show_hidden, k1).len() <= flat_text(
            config,
            state,
            p,
            host,
            filter,
            show_hidden,
            k2,
        ).len(),
        flat_text(config, state, p, host, filter, show_hidden, k2).subrange(
            0,
            flat_text(config, state, p, host, filter, show_hidden, k1).len() as int,
        ) == flat_text(config, state, p, host, filter, show_hidden, k1),
    decreases k2 - k1,
{
    let t1 = flat_text(config, state, p, host, filter, show_hidden, k1);
    let t2 = flat_text(config, state, p, host, filter, show_hidden, k2);
    if k1 == k2 {
        assert(t2.subrange(0, t1.len() as int) =~= t1);
    } else {
        lemma_flat_text_prefix(config, state, p, host, filter, show_hidden, k1, k2 - 1);
        let t = flat_text(config, state, p, host, filter, show_hidden, k2 - 1);
        assert(t2.subrange(0, t.len() as int) =~= t);
        assert(t2.subrange(0, t1.len() as int) =~= t.subrange(0, t1.len() as int));
    }
}

/// The line of the `i`-th category in the one-line list.
pub open spec fn line_of(config: Config, state: State, p: Platform, host: HostView, i: int) -> Seq<char> {
    flat_line(
        config,
        p,
        config.categories.keys()[i],
        config.categories.values()[i],
        cat_supported(config, p, i),
        cat_applied(config, state, p, host, i),
    )
}

/// The one-line list gives each shown category its line, in increasing order of
/// the category names: for shown categories `i < j`, the name of `i` comes
/// first, and the line of `i` stands in the list wholly before the line of `j`.
pub proof fn law_lines_in_name_order(
    config: Config,
    state: State,
    p: Platform,
    host: HostView,
    filter: Option<Seq<char>>,
    show_hidden: bool,
    i: int,
    j: int,
)
    requires
        keys_sorted(config.categories.keys()),
        0 <= i < j < config.categories.values().len(),
        cat_shown(config, filter, p, show_hidden, i),
        cat_shown(config, filter, p, show_hidden, j),
    ensures
        seq_lt(config.categories.keys()[i], config.categories.keys()[j]),
        ({
            let n = config.categories.values().len() as int;
            let t = flat_text(config, state, p, host, filter, show_hidden, n);
            let a = flat_text(config, state, p, host, filter, show_hidden, i).len() as int;
            let b = flat_text(config, state, p, host, filter, show_hidden, j).len() as int;
            let li = line_of(config, state, p, host, i);
            let lj = line_of(config, state, p, host, j);
            &&& a + li.len() <= b
            &&& b + lj.len() <= t.len()
            &&& t.subrange(a, a + li.len()) == li
            &&& t.subrange(b, b + lj.len()) == lj
        }),
{
    config.categories.lemma_lengths();
    let n = config.categories.values().len() as int;
    let t = flat_text(config, state, p, host, filter, show_hidden, n);
    let ti = flat_text(config, state, p, host, filter, show_hidden, i);
    let ti1 = flat_text(config, state, p, host, filter, show_hidden, i + 1);
    let tj = flat_text(config, state, p, host, filter, show_hidden, j);
    let tj1 = flat_text(config, state, p, host, filter, show_hidden, j + 1);
    let li = line_of(config, state, p, host, i);
    let lj = line_of(config, state, p, host, j);
    assert(ti1 == ti + li);
    assert(tj1 == tj + lj);
    lemma_flat_text_prefix(config, state, p, host, filter, show_hidden, i + 1, j);
    lemma_flat_text_prefix(config, state, p, host, filter, show_hidden, i + 1, n);
    lemma_flat_text_prefix(config, state, p, host, filter, show_hidden, j + 1, n);
    let a = ti.len() as int;
    let b = tj.len() as int;
    assert(t.subrange(a, a + li.len()) =~= ti1.subrange(a, a + li.len()));
    assert(ti1.subrange(a, a + li.len()) =~= li);
    assert(t.subrange(b, b + lj.len()) =~= tj1.subrange(b, b + lj.len()));
    assert(tj1.subrange(b, b + lj.len()) =~= lj);
}

/// In the one-line list, each shown category's line stands at its place in the
/// text, opens with the category's name, and ends with the apply mark exactly
/// when the category is applied (then the unsupported mark exactly when it is
/// not supported, then the line break).
pub proof fn law_list_marks_applied_categories(
    config: Config,
    state: State,
    p: Platform,
    host: HostView,
    filter: Option<Seq<char>>,
    show_hidden: bool,
    i: int,
)
    requires
        0 <= i < config.categories.values().len(),
        cat_shown(config, filter, p, show_hidden, i),
    ensures
        ({
            let n = config.categories.values().len() as int;
            let t = flat_text(config, state, p, host, filter, show_hidden, n);
            let a = flat_text(config, state, p, host, filter, show_hidden, i).len() as int;
            let li = line_of(config, state, p, host, i);
            let head = BOLD_GREEN@ + config.categories.keys()[i] + RESET@;
            let applied_here = applied(
                config,
                config.categories.keys()[i],
                config.categories.values()[i],
                state,
                p,
                host,
            ) == Some(true);
            let tail = apply_suffix(applied_here) + unsupported_suffix(cat_supported(config, p, i)) + "\n"@;
            &&& a + li.len() <= t.len()
            &&& t.subrange(a, a + li.len()) == li
            &&& head.len() + tail.len() <= li.len()
            &&& li.subrange(0, head.len() as int) == head
            &&& li.subrange(li.len() - tail.len(), li.len() as int) == tail
        }),
{
    config.categories.lemma_lengths();
    let n = config.categories.values().len() as int;
    let t = flat_text(config, state, p, host, filter, show_hidden, n);
    let ti = flat_text(config, state, p, host, filter, show_hidden, i);
    let ti1 = flat_text(config, state, p, host, filter, show_hidden, i + 1);
    let li = line_of(config, state, p, host, i);
    assert(ti1 == ti + li);
    lemma_flat_text_prefix(config, state, p, host, filter, show_hidden, i + 1, n);
    let a = ti.len() as int;
    assert(t.subrange(a, a + li.len()) =~= ti1.subrange(a, a + li.len()));
    assert(ti1.subrange(a, a + li.len()) =~= li);
    law_line_opens_with_name_and_ends_with_marks(
        config,
        p,
        config.categories.keys()[i],
        config.categories.values()[i],
        cat_supported(config, p, i),
        cat_applied(config, state, p, host, i),
    );
}

} // verus!
