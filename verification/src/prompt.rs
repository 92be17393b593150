//! The interactive setup wizard's logic: the preset menu, the step-by-step
//! category selection, and how categories are grouped into steps.
use crate::config::{Category, Config};
use crate::host::HostView;
use crate::installer::{applied, category_applied, category_support, format_items_limited, items_limited, platform_package_list, support};
use crate::platform::Platform;
use crate::sorting::{sort_dedup_strings, sorted_lt};
use crate::state::State;
use crate::text::{chars_of, concat2, eq_ignore_ascii_case, owned, str_eq, str_eq_ignore_ascii_case, string_views};
use vstd::prelude::*;

verus! {

/// Categories that the "Full Config" preset installs.
pub const FULL_CONFIG_CATEGORIES: [&'static str; 5] = [
    "nvim-onedarkpro",
    "zsh-tokyonight",
    "term-flow",
    "nodejs-pnpm",
    "agents-flow",
];


/// The presets of the setup wizard.
#[derive(Debug, Clone, Copy, PartialEq, Eq, Structural)]
pub enum PresetOption {
    FullConfig,
    Custom,
}

/// A key press, as the menus understand it.
#[derive(Debug, Clone, Copy, PartialEq, Eq, Structural)]
pub enum MenuKey {
    Up,
    Down,
    Enter,
    Cancel,
    Toggle,
    ToggleAll,
    Other,
}

/// The meaning of a character key: `k` up, `j` down, `q` cancel, space toggles,
/// `a` toggles all.
pub fn key_for_char(c: char) -> (r: MenuKey)
    ensures
        r == (if c == 'k' {
            MenuKey::Up
        } else if c == 'j' {
            MenuKey::Down
        } else if c == 'q' {
            MenuKey::Cancel
        } else if c == ' ' {
            MenuKey::Toggle
        } else if c == 'a' {
            MenuKey::ToggleAll
        } else {
            MenuKey::Other
        }),
{
    if c == 'k' {
        MenuKey::Up
    } else if c == 'j' {
        MenuKey::Down
    } else if c == 'q' {
        MenuKey::Cancel
    } else if c == ' ' {
        MenuKey::Toggle
    } else if c == 'a' {
        MenuKey::ToggleAll
    } else {
        MenuKey::Other
    }
}

/// Where the cursor of a menu of `len` entries goes on `key`: up and down move
/// by one and wrap around; other keys leave it.
pub open spec fn cursor_after(cursor: nat, len: nat, key: MenuKey) -> nat {
    match key {
        MenuKey::Up => if cursor == 0 {
            (len - 1) as nat
        } else {
            (cursor - 1) as nat
        },
        MenuKey::Down => if cursor + 1 >= len {
            0
        } else {
            cursor + 1
        },
        _ => cursor,
    }
}

fn move_cursor(cursor: usize, len: usize, key: MenuKey) -> (r: usize)
    requires
        cursor < len,
    ensures
        r == cursor_after(cursor as nat, len as nat, key),
        r < len,
{
    match key {
        MenuKey::Up => if cursor == 0 {
            len - 1
        } else {
            cursor - 1
        },
        MenuKey::Down => if cursor + 1 >= len {
            0
        } else {
            cursor + 1
        },
        _ => cursor,
    }
}

/// The preset menu's entries: name, description and preset.
pub fn preset_items() -> (r: Vec<(&'static str, &'static str, PresetOption)>)
    ensures
        r@.len() == 2,
        r@[0].2 == PresetOption::FullConfig,
        r@[1].2 == PresetOption::Custom,
{
    let mut v = Vec::new();
    v.push(
        (
            "Full Config",
            "Curated complementary suite (nvim-onedarkpro, zsh-tokyonight, term-flow, nodejs-pnpm, agents-flow)",
            PresetOption::FullConfig,
        ),
    );
    v.push(("Custom", "Step-by-step custom configuration", PresetOption::Custom));
    v
}

/// What a menu key press leads to.
#[derive(Debug)]
pub enum MenuOutcome<T> {
    /// Keep asking.
    Continue,
    /// The user confirmed this choice.
    Chosen(T),
    /// The user cancelled.
    Cancelled,
}

/// The single-choice preset menu.
#[derive(Debug)]
pub struct PresetMenu {
    selected: usize,
}

impl PresetMenu {
    /// The focused entry.
    pub closed spec fn selected_index(self) -> nat {
        self.selected as nat
    }

    #[verifier::type_invariant]
    closed spec fn inv(self) -> bool {
        self.selected < 2
    }

    /// The menu with the first preset focused.
    pub fn new() -> (r: PresetMenu)
        ensures
            r.selected_index() == 0,
    {
        PresetMenu { selected: 0 }
    }

    /// The focused entry.
    pub fn selected(&self) -> (r: usize)
        ensures
            r == self.selected_index(),
            r < 2,
    {
        proof {
            use_type_invariant(self);
        }
        self.selected
    }

    /// Handles one key: up/down move the focus (wrapping), enter chooses the
    /// focused preset, cancel abandons the menu.
    pub fn handle_key(&mut self, key: MenuKey) -> (r: MenuOutcome<PresetOption>)
        ensures
            final(self).selected_index() == cursor_after(old(self).selected_index(), 2, key),
            key == MenuKey::Enter ==> (r matches MenuOutcome::Chosen(p) && p == (if old(self).selected_index() == 0 {
                PresetOption::FullConfig
            } else {
                PresetOption::Custom
            })),
            key == MenuKey::Cancel ==> r is Cancelled,
            key != MenuKey::Enter && key != MenuKey::Cancel ==> r is Continue,
    {
        proof {
            use_type_invariant(&*self);
        }
        let current = self.selected;
        let next = move_cursor(current, 2, key);
        *self = PresetMenu { selected: next };
        match key {
            MenuKey::Enter => if current == 0 {
                MenuOutcome::Chosen(PresetOption::FullConfig)
            } else {
                MenuOutcome::Chosen(PresetOption::Custom)
            },
            MenuKey::Cancel => MenuOutcome::Cancelled,
            _ => MenuOutcome::Continue,
        }
    }
}

/// One selectable category of a wizard step.
#[derive(Debug)]
pub struct CategorySelectOption {
    pub key: String,
    pub display_name: String,
    pub description: String,
    pub packages_label: String,
    pub is_installed: bool,
    pub checked: bool,
}

/// The keys of the checked options, in order.
pub open spec fn checked_keys(opts: Seq<CategorySelectOption>) -> Seq<Seq<char>>
    decreases opts.len(),
{
    if opts.len() == 0 {
        seq![]
    } else {
        let pre = checked_keys(opts.drop_last());
        if opts.last().checked {
            pre.push(opts.last().key@)
        } else {
            pre
        }
    }
}

/// One step of the custom-selection wizard: a multi-choice list of categories.
#[derive(Debug)]
pub struct GroupSelection {
    options: Vec<CategorySelectOption>,
    cursor: usize,
}

impl GroupSelection {
    /// The entries of the step.
    pub closed spec fn options(self) -> Seq<CategorySelectOption> {
        self.options@
    }

    /// The focused entry.
    pub closed spec fn cursor_index(self) -> nat {
        self.cursor as nat
    }

    #[verifier::type_invariant]
    closed spec fn inv(self) -> bool {
        self.cursor < self.options@.len()
    }

    /// A step over `options` (there is at least one), the first focused.
    pub fn new(options: Vec<CategorySelectOption>) -> (r: GroupSelection)
        requires
            options@.len() > 0,
        ensures
            r.options() == options@,
            r.cursor_index() == 0,
    {
        GroupSelection { options, cursor: 0 }
    }

    /// The options, with their check marks.
    pub fn options_ref(&self) -> (r: &Vec<CategorySelectOption>)
        ensures
            r@ == self.options(),
            self.cursor_index() < r@.len(),
    {
        proof {
            use_type_invariant(self);
        }
        &self.options
    }

    /// The focused option.
    pub fn cursor(&self) -> (r: usize)
        ensures
            r == self.cursor_index(),
            r < self.options().len(),
    {
        proof {
            use_type_invariant(self);
        }
        self.cursor
    }

    /// Handles one key: up/down move the focus (wrapping), space toggles the
    /// focused option, `a` checks all options when one is unchecked and unchecks
    /// all otherwise, enter finishes the step with the checked categories, cancel
    /// abandons the wizard.
    pub fn handle_key(self, key: MenuKey) -> (r: (GroupSelection, MenuOutcome<Vec<String>>))
        ensures
            r.0.cursor_index() == cursor_after(
                self.cursor_index(),
                self.options().len(),
                key,
            ),
            r.0.options().len() == self.options().len(),
            forall|i: int|
                0 <= i < self.options().len() ==> {
                    let o = self.options()[i];
                    let n = #[trigger] r.0.options()[i];
                    &&& n.key == o.key
                    &&& n.display_name == o.display_name
                    &&& n.description == o.description
                    &&& n.packages_label == o.packages_label
                    &&& n.is_installed == o.is_installed
                },
            key == MenuKey::Toggle ==> forall|i: int|
                0 <= i < self.options().len() ==> (#[trigger] r.0.options()[i]).checked
                    == if i == self.cursor_index() {
                    !self.options()[i].checked
                } else {
                    self.options()[i].checked
                },
            key == MenuKey::ToggleAll ==> forall|i: int|
                0 <= i < self.options().len() ==> (#[trigger] r.0.options()[i]).checked
                    == exists|j: int|
                    0 <= j < self.options().len() && !self.options()[j].checked,
            key != MenuKey::Toggle && key != MenuKey::ToggleAll ==> forall|i: int|
                0 <= i < self.options().len() ==> (#[trigger] r.0.options()[i]).checked
                    == self.options()[i].checked,
            key == MenuKey::Enter ==> (r.1 matches MenuOutcome::Chosen(keys) && string_views(keys@)
                == checked_keys(self.options())),
            key == MenuKey::Cancel ==> r.1 is Cancelled,
            key != MenuKey::Enter && key != MenuKey::Cancel ==> r.1 is Continue,
    {
        proof {
            use_type_invariant(&self);
        }
        let len = self.options.len();
        let cur = self.cursor;
        let GroupSelection { options, cursor: _ } = self;
        let mut opts = options;
        let ghost before = opts@;
        let mut result: MenuOutcome<Vec<String>> = MenuOutcome::Continue;
        match key {
            MenuKey::Toggle => {
                let mut o = opts.remove(cur);
                o.checked = !o.checked;
                opts.insert(cur, o);
                assert forall|i: int| 0 <= i < len implies (#[trigger] opts@[i]).key == before[i].key
                    && opts@[i].checked == (if i == cur {
                    !before[i].checked
                } else {
                    before[i].checked
                }) by {}
            },
            MenuKey::ToggleAll => {
                let mut any_unchecked = false;
                let mut i: usize = 0;
                while i < len
                    invariant
                        i <= len,
                        len == opts@.len(),
                        opts@ == before,
                        any_unchecked == exists|j: int| 0 <= j < i && !before[j].checked,
                    decreases len - i,
                {
                    if !opts[i].checked {
                        any_unchecked = true;
                    }
                    i = i + 1;
                }
                let mut k: usize = 0;
                while k < len
                    invariant
                        k <= len,
                        len == opts@.len(),
                        len == before.len(),
                        any_unchecked == exists|j: int| 0 <= j < len && !before[j].checked,
                        forall|j: int|
                            0 <= j < len ==> {
                                let n = #[trigger] opts@[j];
                                &&& n.key == before[j].key
                                &&& n.display_name == before[j].display_name
                                &&& n.description == before[j].description
                                &&& n.packages_label == before[j].packages_label
                                &&& n.is_installed == before[j].is_installed
                                &&& n.checked == (if j < k {
                                    any_unchecked
                                } else {
                                    before[j].checked
                                })
                            },
                    decreases len - k,
                {
                    let mut o = opts.remove(k);
                    o.checked = any_unchecked;
                    opts.insert(k, o);
                    k = k + 1;
                }
            },
            MenuKey::Enter => {
                let mut keys: Vec<String> = Vec::new();
                let mut i: usize = 0;
                while i < len
                    invariant
                        i <= len,
                        len == opts@.len(),
                        opts@ == before,
                        string_views(keys@) == checked_keys(before.take(i as int)),
                    decreases len - i,
                {
                    assert(before.take(i + 1).drop_last() =~= before.take(i as int));
                    assert(before.take(i + 1).last() == before[i as int]);
                    if opts[i].checked {
                        let k = opts[i].key.clone();
                        let ghost kv = string_views(keys@);
                        keys.push(k);
                        assert(string_views(keys@) =~= kv.push(before[i as int].key@));
                    }
                    i = i + 1;
                }
                assert(before.take(len as int) =~= before);
                result = MenuOutcome::Chosen(keys);
            },
            MenuKey::Cancel => {
                result = MenuOutcome::Cancelled;
            },
            _ => {},
        }
        let next = move_cursor(cur, len, key);
        (GroupSelection { options: opts, cursor: next }, result)
    }
}

/// The first `max_visible` rows of a list of `len` entries scroll so that the
/// cursor stays visible: rows `start..end`.
pub open spec fn visible_window(cursor: nat, len: nat, max_visible: nat) -> (nat, nat) {
    let start = if cursor >= max_visible {
        (cursor + 1 - max_visible) as nat
    } else {
        0
    };
    let end = if start + max_visible < len {
        start + max_visible
    } else {
        len
    };
    (start, end)
}

/// How many rows of options a terminal of `term_height` lines shows: eight
/// fewer than its height, at least five, at most `len`.
pub open spec fn max_visible_rows(term_height: nat, len: nat) -> nat {
    let h = if term_height >= 8 {
        (term_height - 8) as nat
    } else {
        0
    };
    let m = if h >= 5 {
        h
    } else {
        5
    };
    if m < len {
        m
    } else {
        len
    }
}

/// The rows of a step's options to draw, and how many rows fit.
pub fn scroll_window(cursor: usize, len: usize, term_height: u16) -> (r: (usize, usize, usize))
    requires
        cursor < len,
    ensures
        r.2 == max_visible_rows(term_height as nat, len as nat),
        (r.0 as nat, r.1 as nat) == visible_window(cursor as nat, len as nat, r.2 as nat),
        r.0 <= cursor < r.1 <= len,
{
    let h: usize = if term_height >= 8 { (term_height - 8) as usize } else { 0 };
    let m: usize = if h >= 5 { h } else { 5 };
    let max_visible = if m < len { m } else { len };
    let start = if cursor >= max_visible { cursor + 1 - max_visible } else { 0 };
    let end = if start + max_visible < len { start + max_visible } else { len };
    (start, end, max_visible)
}


// ---------------------------------------------------------------------------
// Grouping categories into wizard steps
// ---------------------------------------------------------------------------

/// Groups asked first, in this order, when they have categories.
pub const PREFERRED_GROUP_ORDER: [&'static str; 6] = [
    "Shell & Terminal",
    "Editors & IDEs",
    "AI & Agents",
    "Runtimes & Languages",
    "Window Managers & Desktop",
    "Packs & Bundles",
];

/// The groups that come first in the wizard, in this order.
pub open spec fn preferred_groups() -> Seq<Seq<char>> {
    seq![
        "Shell & Terminal"@,
        "Editors & IDEs"@,
        "AI & Agents"@,
        "Runtimes & Languages"@,
        "Window Managers & Desktop"@,
        "Packs & Bundles"@,
    ]
}

/// The wizard step a category belongs to.
pub open spec fn group_name(cat: Category) -> Seq<char> {
    match cat.group {
        Some(g) => g@,
        None => "Other Categories"@,
    }
}

/// The package summary shown beside a category in the wizard.
pub open spec fn packages_label_spec(name: Seq<char>, cat: Category, p: Platform) -> Seq<char> {
    match cat.display_packages {
        Some(d) => if d@.len() == 0 {
            ""@
        } else {
            " ("@ + items_limited(string_views(d@), 6) + ")"@
        },
        None => match cat.includes {
            Some(inc) => " ("@ + items_limited(string_views(inc@), 6) + ")"@,
            None => {
                let pk = match platform_package_list(cat, p) {
                    Some(l) => string_views(l@),
                    None => Seq::<Seq<char>>::empty(),
                };
                if pk.len() == 0 {
                    ""@
                } else if eq_ignore_ascii_case(items_limited(pk, 6), name) {
                    ""@
                } else {
                    " ("@ + items_limited(pk, 6) + ")"@
                }
            },
        },
    }
}

/// `o` is the wizard entry for category `name`, unchecked.
pub open spec fn option_for(o: CategorySelectOption, name: Seq<char>, cat: Category, p: Platform, installed: bool) -> bool {
    &&& o.key@ == name
    &&& o.display_name@ == (if cat.includes is Some {
        name + " (Pack)"@
    } else {
        name
    })
    &&& o.description@ == cat.description@
    &&& o.packages_label@ == packages_label_spec(name, cat, p)
    &&& o.is_installed == installed
    &&& !o.checked
}

/// Every category of the catalog can be evaluated (support and applied status)
/// without running into a cycle of packs.
pub open spec fn catalog_evaluable(config: Config, p: Platform, state: State, host: HostView) -> bool {
    forall|i: int|
        0 <= i < config.categories.values().len() ==> {
            &&& support(config, #[trigger] config.categories.values()[i], p) is Some
            &&& applied(config, config.categories.keys()[i], config.categories.values()[i], state, p, host) is Some
        }
}

/// Whether every category of the catalog can be evaluated (see
/// [`catalog_evaluable`]).
pub fn check_catalog_evaluable(config: &Config, platform: &Platform, state: &State, host: &HostView) -> (r: bool)
    requires
        config.categories.keys().len() < usize::MAX,
    ensures
        r == catalog_evaluable(*config, *platform, *state, *host),
{
    let n = config.categories.len();
    let mut i: usize = 0;
    while i < n
        invariant
            i <= n,
            n == config.categories.values().len(),
            n == config.categories.keys().len(),
            config.categories.keys().len() < usize::MAX,
            forall|j: int|
                0 <= j < i ==> {
                    &&& support(*config, #[trigger] config.categories.values()[j], *platform) is Some
                    &&& applied(*config, config.categories.keys()[j], config.categories.values()[j], *state, *platform, *host) is Some
                },
        decreases n - i,
    {
        let cat = config.categories.value_at(i);
        let key = config.categories.key_at(i);
        if category_support(cat, platform, config).is_none() {
            return false;
        }
        if category_applied(key.as_str(), cat, state, platform, config, host).is_none() {
            return false;
        }
        i = i + 1;
    }
    true
}

/// Category `i` is offered by the wizard (it is supported on `p`) in step `g`.
pub open spec fn in_step(config: Config, p: Platform, g: Seq<char>, i: int) -> bool {
    &&& support(config, config.categories.values()[i], p) == Some(true)
    &&& group_name(config.categories.values()[i]) == g
}

/// The categories (by index, in name order) of step `g`.
pub open spec fn step_indices(config: Config, p: Platform, g: Seq<char>) -> Seq<int> {
    Seq::new(config.categories.values().len(), |i: int| i).filter(|i: int| in_step(config, p, g, i))
}

/// The steps with at least one category.
pub open spec fn present_groups(config: Config, p: Platform) -> Set<Seq<char>> {
    Set::new(|g: Seq<char>| exists|i: int| 0 <= i < config.categories.values().len() && #[trigger] in_step(config, p, g, i))
}

/// A step of the wizard: its title and its categories.
#[derive(Debug)]
pub struct CategoryGroup {
    pub name: String,
    pub options: Vec<CategorySelectOption>,
}

fn packages_label(name: &str, cat: &Category, platform: &Platform) -> (r: String)
    ensures
        r@ == packages_label_spec(name@, *cat, *platform),
{
    proof {
        reveal_strlit("");
    }
    match &cat.display_packages {
        Some(d) => {
            if d.len() == 0 {
                let e = owned("");
                return e;
            }
            let f = format_items_limited(d.as_slice(), 6);
            let a = concat2(" (", f.as_str());
            concat2(a.as_str(), ")")
        },
        None => match &cat.includes {
            Some(inc) => {
                let f = format_items_limited(inc.as_slice(), 6);
                let a = concat2(" (", f.as_str());
                concat2(a.as_str(), ")")
            },
            None => {
                let empty: Vec<String> = Vec::new();
                let pk: &Vec<String> = match platform {
                    Platform::Debian => match &cat.debian_packages {
                        Some(l) => l,
                        None => &empty,
                    },
                    Platform::Termux => match &cat.termux_packages {
                        Some(l) => l,
                        None => &empty,
                    },
                    Platform::Unsupported(_) => &empty,
                };
                assert(string_views(pk@) == match platform_package_list(*cat, *platform) {
                    Some(l) => string_views(l@),
                    None => Seq::<Seq<char>>::empty(),
                }) by {
                    assert(string_views(empty@) =~= Seq::<Seq<char>>::empty());
                }
                if pk.len() == 0 {
                    return owned("");
                }
                let f = format_items_limited(pk.as_slice(), 6);
                if str_eq_ignore_ascii_case(f.as_str(), name) {
                    return owned("");
                }
                let a = concat2(" (", f.as_str());
                concat2(a.as_str(), ")")
            },
        },
    }
}

fn group_of(cat: &Category) -> (r: String)
    ensures
        r@ == group_name(*cat),
{
    match &cat.group {
        Some(g) => g.clone(),
        None => owned("Other Categories"),
    }
}

/// The entries of step `g`, in category-name order.
fn options_for_group(
    config: &Config,
    platform: &Platform,
    state: &State,
    host: &HostView,
    g: &str,
) -> (r: Vec<CategorySelectOption>)
    requires
        config.categories.keys().len() < usize::MAX,
        catalog_evaluable(*config, *platform, *state, *host),
    ensures
        r@.len() == step_indices(*config, *platform, g@).len(),
        forall|j: int|
            0 <= j < r@.len() ==> {
                let i = step_indices(*config, *platform, g@)[j];
                option_for(
                    #[trigger] r@[j],
                    config.categories.keys()[i],
                    config.categories.values()[i],
                    *platform,
                    applied(*config, config.categories.keys()[i], config.categories.values()[i], *state, *platform, *host) == Some(true),
                )
            },
{
    let n = config.categories.len();
    let ghost pred = |i: int| in_step(*config, *platform, g@, i);
    let ghost all = Seq::new(n as nat, |i: int| i);
    let mut out: Vec<CategorySelectOption> = Vec::new();
    let mut k: usize = 0;
    while k < n
        invariant
            k <= n,
            n == config.categories.values().len(),
            n == config.categories.keys().len(),
            n < usize::MAX,
            all == Seq::new(n as nat, |i: int| i),
            pred == (|i: int| in_step(*config, *platform, g@, i)),
            catalog_evaluable(*config, *platform, *state, *host),
            out@.len() == all.take(k as int).filter(pred).len(),
            forall|j: int|
                0 <= j < out@.len() ==> {
                    let i = all.take(k as int).filter(pred)[j];
                    option_for(
                        #[trigger] out@[j],
                        config.categories.keys()[i],
                        config.categories.values()[i],
                        *platform,
                        applied(*config, config.categories.keys()[i], config.categories.values()[i], *state, *platform, *host) == Some(true),
                    )
                },
        decreases n - k,
    {
        let cat = config.categories.value_at(k);
        let key = config.categories.key_at(k);
        assert(all.take(k + 1) =~= all.take(k as int).push(k as int));
        proof {
            all.take(k as int).lemma_filter_push(k as int, pred);
        }
        let supported = category_support(cat, platform, config);
        let gname = group_of(cat);
        let take = match supported {
            Some(true) => str_eq(gname.as_str(), g),
            _ => false,
        };
        assert(take == pred(k as int));
        if take {
            let installed = match category_applied(key.as_str(), cat, state, platform, config, host) {
                Some(b) => b,
                None => false,
            };
            let display_name = match &cat.includes {
                Some(_) => concat2(key.as_str(), " (Pack)"),
                None => key.clone(),
            };
            let label = packages_label(key.as_str(), cat, platform);
            let opt = CategorySelectOption {
                key: key.clone(),
                display_name,
                description: cat.description.clone(),
                packages_label: label,
                is_installed: installed,
                checked: false,
            };
            out.push(opt);
        }
        k = k + 1;
    }
    assert(all.take(n as int) =~= all);
    out
}

/// The ordered step titles: the preferred ones that have categories, in the
/// preferred order, then the others in name order.
pub open spec fn ordered_groups_ok(names: Seq<Seq<char>>, present: Set<Seq<char>>) -> bool {
    exists|others: Seq<Seq<char>>|
        #![trigger sorted_lt(others)]
        {
            &&& sorted_lt(others)
            &&& others.to_set() == present.difference(preferred_groups().to_set())
            &&& names == preferred_groups().filter(|n: Seq<char>| present.contains(n)) + others
        }
}

/// The steps of the custom-selection wizard: titles ordered as
/// [`ordered_groups_ok`] says, and in each step the step's categories (see
/// [`step_indices`]), in name order, as unchecked entries.
pub open spec fn wizard_steps(config: Config, p: Platform, state: State, host: HostView, groups: Seq<CategoryGroup>) -> bool {
    &&& ordered_groups_ok(groups.map_values(|g: CategoryGroup| g.name@), present_groups(config, p))
    &&& forall|t: int|
        0 <= t < groups.len() ==> {
            let g = #[trigger] groups[t];
            &&& g.options@.len() == step_indices(config, p, g.name@).len()
            &&& g.options@.len() > 0
            &&& forall|j: int|
                0 <= j < g.options@.len() ==> {
                    let i = step_indices(config, p, g.name@)[j];
                    option_for(
                        #[trigger] g.options@[j],
                        config.categories.keys()[i],
                        config.categories.values()[i],
                        p,
                        applied(config, config.categories.keys()[i], config.categories.values()[i], state, p, host)
                            == Some(true),
                    )
                }
        }
}

/// The steps of the custom-selection wizard: each supported category, as an
/// unchecked entry, in the step of its group; steps ordered as
/// [`ordered_groups_ok`] says and entries in category-name order. The caller
/// asks the user through each step ([`GroupSelection`]) and installs the
/// categories checked in all of them.
pub fn select_custom_categories(
    config: &Config,
    platform: &Platform,
    state: &State,
    host: &HostView,
) -> (r: Vec<CategoryGroup>)
    requires
        config.categories.keys().len() < usize::MAX,
        catalog_evaluable(*config, *platform, *state, *host),
    ensures
        wizard_steps(*config, *platform, *state, *host, r@),
{
    // Titles of the steps that have categories, with repetitions.
    let n = config.categories.len();
    let mut names: Vec<String> = Vec::new();
    let mut k: usize = 0;
    while k < n
        invariant
            k <= n,
            n == config.categories.values().len(),
            n == config.categories.keys().len(),
            n < usize::MAX,
            forall|g: Seq<char>| string_views(names@).contains(g) <==> exists|i: int| 0 <= i < k && #[trigger] in_step(*config, *platform, g, i),
        decreases n - k,
    {
        let cat = config.categories.value_at(k);
        let supported = category_support(cat, platform, config);
        if let Some(true) = supported {
            let gname = group_of(cat);
            let ghost before = string_views(names@);
            names.push(gname);
            assert(string_views(names@) =~= before.push(group_name(*cat)));
            assert forall|g: Seq<char>| string_views(names@).contains(g) <==> exists|i: int| 0 <= i < k + 1 && #[trigger] in_step(*config, *platform, g, i) by {
                if string_views(names@).contains(g) {
                    let t = choose|t: int| 0 <= t < string_views(names@).len() && string_views(names@)[t] == g;
                    if t == before.len() {
                        assert(in_step(*config, *platform, g, k as int));
                    } else {
                        assert(before.contains(g));
                    }
                }
                if exists|i: int| 0 <= i < k + 1 && #[trigger] in_step(*config, *platform, g, i) {
                    let i = choose|i: int| 0 <= i < k + 1 && #[trigger] in_step(*config, *platform, g, i);
                    if i == k {
                        assert(string_views(names@)[before.len() as int] == g);
                    } else {
                        assert(before.contains(g));
                        let t = choose|t: int| 0 <= t < before.len() && before[t] == g;
                        assert(string_views(names@)[t] == g);
                    }
                }
            }
        } else {
            assert forall|g: Seq<char>| string_views(names@).contains(g) <==> exists|i: int| 0 <= i < k + 1 && #[trigger] in_step(*config, *platform, g, i) by {
                if exists|i: int| 0 <= i < k + 1 && #[trigger] in_step(*config, *platform, g, i) {
                    let i = choose|i: int| 0 <= i < k + 1 && #[trigger] in_step(*config, *platform, g, i);
                    assert(i != k);
                }
            }
        }
        k = k + 1;
    }
    let ghost present = present_groups(*config, *platform);
    assert(string_views(names@).to_set() =~= present);
    let ghost pref = preferred_groups();
    // The other titles, without the preferred ones.
    let mut rest: Vec<String> = Vec::new();
    let mut i: usize = 0;
    while i < names.len()
        invariant
            i <= names@.len(),
            pref == preferred_groups(),
            string_views(rest@).to_set() == string_views(names@).take(i as int).to_set().difference(pref.to_set()),
        decreases names.len() - i,
    {
        let is_pref = str_eq(names[i].as_str(), "Shell & Terminal") || str_eq(names[i].as_str(), "Editors & IDEs")
            || str_eq(names[i].as_str(), "AI & Agents") || str_eq(names[i].as_str(), "Runtimes & Languages")
            || str_eq(names[i].as_str(), "Window Managers & Desktop") || str_eq(names[i].as_str(), "Packs & Bundles");
        assert(is_pref == pref.contains(names@[i as int]@)) by {
            if pref.contains(names@[i as int]@) {
                let t = choose|t: int| 0 <= t < pref.len() && pref[t] == names@[i as int]@;
                assert(0 <= t < 6);
            }
            if is_pref {
                assert(pref[0] == "Shell & Terminal"@);
                assert(pref[1] == "Editors & IDEs"@);
                assert(pref[2] == "AI & Agents"@);
                assert(pref[3] == "Runtimes & Languages"@);
                assert(pref[4] == "Window Managers & Desktop"@);
                assert(pref[5] == "Packs & Bundles"@);
            }
        }
        let ghost before = string_views(rest@);
        let ghost t1 = string_views(names@).take(i as int);
        assert(string_views(names@).take(i + 1) =~= t1.push(names@[i as int]@));
        proof {
            t1.lemma_push_to_set_commute(names@[i as int]@);
        }
        if !is_pref {
            let c = names[i].clone();
            rest.push(c);
            proof {
                before.lemma_push_to_set_commute(names@[i as int]@);
            }
            assert(string_views(rest@) =~= before.push(names@[i as int]@));
            assert(string_views(rest@).to_set() =~= t1.push(names@[i as int]@).to_set().difference(pref.to_set()));
        } else {
            assert(string_views(rest@).to_set() =~= t1.push(names@[i as int]@).to_set().difference(pref.to_set()));
        }
        i = i + 1;
    }
    assert(string_views(names@).take(names@.len() as int) =~= string_views(names@));
    let others = sort_dedup_strings(rest);
    let mut titles: Vec<String> = Vec::new();
    let mut p: usize = 0;
    let ghost keep = |g: Seq<char>| present.contains(g);
    while p < 6
        invariant
            p <= 6,
            pref == preferred_groups(),
            keep == (|g: Seq<char>| present.contains(g)),
            present == string_views(names@).to_set(),
            string_views(titles@) == pref.take(p as int).filter(keep),
        decreases 6 - p,
    {
        let cand = PREFERRED_GROUP_ORDER[p];
        assert(cand@ == pref[p as int]) by {
            assert(PREFERRED_GROUP_ORDER@[p as int] == cand);
        }
        assert(pref.take(p + 1) =~= pref.take(p as int).push(pref[p as int]));
        proof {
            pref.take(p as int).lemma_filter_push(pref[p as int], keep);
        }
        if crate::host::seq_has(&names, cand) {
            titles.push(owned(cand));
        }
        p = p + 1;
    }
    assert(pref.take(6) =~= pref);
    let mut j: usize = 0;
    let ghost head = string_views(titles@);
    while j < others.len()
        invariant
            j <= others@.len(),
            string_views(titles@) == head + string_views(others@).take(j as int),
        decreases others.len() - j,
    {
        let c = others[j].clone();
        let ghost tv = string_views(titles@);
        titles.push(c);
        assert(string_views(titles@) =~= tv.push(others@[j as int]@));
        assert(string_views(titles@) =~= head + string_views(others@).take(j + 1));
        j = j + 1;
    }
    assert(string_views(others@).take(others@.len() as int) =~= string_views(others@));
    assert forall|u: int| 0 <= u < titles@.len() implies present.contains(#[trigger] titles@[u]@) by {
        let tv = string_views(titles@);
        assert(tv[u] == titles@[u]@);
        if u < head.len() {
            broadcast use vstd::seq_lib::group_filter_ensures;
            assert(head[u] == tv[u]);
            assert(keep(head[u]));
        } else {
            let o = string_views(others@);
            assert(o[u - head.len()] == tv[u]);
            assert(o.to_set().contains(o[u - head.len()]));
        }
    }
    // The steps.
    let mut groups: Vec<CategoryGroup> = Vec::new();
    let mut t: usize = 0;
    while t < titles.len()
        invariant
            t <= titles@.len(),
            groups@.len() == t,
            config.categories.keys().len() < usize::MAX,
            catalog_evaluable(*config, *platform, *state, *host),
            present == present_groups(*config, *platform),
            forall|u: int| 0 <= u < titles@.len() ==> present.contains(#[trigger] titles@[u]@),
            forall|u: int| 0 <= u < t ==> (#[trigger] groups@[u]).name@ == titles@[u]@,
            forall|u: int|
                0 <= u < t ==> {
                    let g = #[trigger] groups@[u];
                    &&& g.options@.len() == step_indices(*config, *platform, g.name@).len()
                    &&& g.options@.len() > 0
                    &&& forall|j: int|
                        0 <= j < g.options@.len() ==> {
                            let i = step_indices(*config, *platform, g.name@)[j];
                            option_for(
                                #[trigger] g.options@[j],
                                config.categories.keys()[i],
                                config.categories.values()[i],
                                *platform,
                                applied(*config, config.categories.keys()[i], config.categories.values()[i], *state, *platform, *host) == Some(true),
                            )
                        }
                },
        decreases titles.len() - t,
    {
        let title = titles[t].clone();
        proof {
            assert(present.contains(titles@[t as int]@));
            let i = choose|i: int| 0 <= i < config.categories.values().len() && #[trigger] in_step(*config, *platform, title@, i);
            let range = Seq::new(config.categories.values().len(), |x: int| x);
            assert(range[i] == i);
            range.lemma_filter_contains(|x: int| in_step(*config, *platform, title@, x), i);
            assert(step_indices(*config, *platform, title@).len() > 0);
        }
        let opts = options_for_group(config, platform, state, host, title.as_str());
        groups.push(CategoryGroup { name: title, options: opts });
        t = t + 1;
    }
    assert(groups@.map_values(|g: CategoryGroup| g.name@) =~= string_views(titles@));
    groups
}

// ---------------------------------------------------------------------------
// Setup wizard decisions
// ---------------------------------------------------------------------------

/// The names that the "Full Config" preset lists.
pub open spec fn full_config_names() -> Seq<Seq<char>> {
    seq!["nvim-onedarkpro"@, "zsh-tokyonight"@, "term-flow"@, "nodejs-pnpm"@, "agents-flow"@]
}

/// A "Full Config" name is installed when the catalog has such a category and
/// the platform supports it.
pub open spec fn full_config_pick(config: Config, p: Platform) -> spec_fn(Seq<char>) -> bool {
    |n: Seq<char>| config.categories.lookup(n) matches Some(c) && support(config, c, p) == Some(true)
}

/// The categories that the "Full Config" preset installs on `platform`, in the
/// preset's order.
pub fn full_config_targets(config: &Config, platform: &Platform) -> (r: Vec<String>)
    requires
        config.categories.keys().len() < usize::MAX,
        forall|j: int|
            0 <= j < 5 ==> (config.categories.lookup(#[trigger] full_config_names()[j]) matches Some(c)
                ==> support(*config, c, *platform) is Some),
    ensures
        string_views(r@) == full_config_names().filter(full_config_pick(*config, *platform)),
{
    let ghost names = full_config_names();
    let ghost pick = full_config_pick(*config, *platform);
    proof {
        reveal_strlit("nvim-onedarkpro");
        reveal_strlit("zsh-tokyonight");
        reveal_strlit("term-flow");
        reveal_strlit("nodejs-pnpm");
        reveal_strlit("agents-flow");
    }
    let mut out: Vec<String> = Vec::new();
    let mut i: usize = 0;
    while i < 5
        invariant
            i <= 5,
            names == full_config_names(),
            pick == full_config_pick(*config, *platform),
            config.categories.keys().len() < usize::MAX,
            forall|j: int|
                0 <= j < 5 ==> (config.categories.lookup(#[trigger] full_config_names()[j]) matches Some(c)
                    ==> support(*config, c, *platform) is Some),
            string_views(out@) == names.take(i as int).filter(pick),
        decreases 5 - i,
    {
        let name = FULL_CONFIG_CATEGORIES[i];
        assert(name@ == names[i as int]) by {
            assert(FULL_CONFIG_CATEGORIES@[i as int] == name);
        }
        assert(names.take(i + 1) =~= names.take(i as int).push(names[i as int]));
        proof {
            names.take(i as int).lemma_filter_push(names[i as int], pick);
        }
        let keep = match config.categories.get(name) {
            Some(c) => crate::installer::is_category_supported(c, platform, config),
            None => false,
        };
        if keep {
            let ghost before = string_views(out@);
            out.push(owned(name));
            assert(string_views(out@) =~= before.push(name@));
        }
        i = i + 1;
    }
    assert(names.take(5) =~= names);
    out
}

/// Whether the answer to `Proceed with installation? [Y/n]` goes ahead: an
/// empty answer, `y` or `yes` (ignoring case and surrounding white space).
pub fn proceed_with_install(answer: &str) -> (r: bool)
    ensures
        r == (crate::text::unicode_lowercase(crate::text::trim(answer@)).len() == 0
            || crate::update::is_yes_spec(answer@)),
{
    let t = crate::text::trim_str(answer);
    let l = crate::text::to_lowercase(t.as_str());
    let lv = chars_of(l.as_str());
    lv.len() == 0 || crate::update::is_yes(answer)
}

} // verus!
