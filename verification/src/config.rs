//! The category catalog: its data model, alias resolution, merging of modular
//! catalog files, and what the catalog references.
use crate::keyed::{keys_sorted, lemma_position_of, position_of, KeyedList};
use crate::paths::{join_path, path_join};
use crate::platform::Platform;
use crate::sorting::{sort_dedup_strings, sort_strings, sorted_le, sorted_lt};
use crate::text::{
    contains, parse_unsigned, parse_unsigned_chars, trim, before_char, before_char_chars, char_vec_views, chars_starts_with, starts_with, string_of, trim_by,
    trim_chars, words, words_of, CharClass, chars_of, concat2, decimal, decimal_string, ends_with, eq_ignore_ascii_case, owned,
    str_ends_with, str_eq_ignore_ascii_case, string_views,
};
use vstd::prelude::*;

verus! {

/// Label of the primary catalog source when no catalog file was found.
pub const EMBEDDED_SOURCE_LABEL: &'static str = "Embedded default configuration";

/// The view of an optional string.
pub open spec fn opt_view(o: Option<String>) -> Option<Seq<char>> {
    match o {
        Some(s) => Some(s@),
        None => None,
    }
}

/// The catalog: categories by name.
#[derive(Debug)]
pub struct Config {
    pub categories: KeyedList<Category>,
}

/// One installable category.
#[derive(Debug)]
pub struct Category {
    pub description: String,
    pub aliases: Option<Vec<String>>,
    pub display_packages: Option<Vec<String>>,
    pub debian_packages: Option<Vec<String>>,
    pub termux_packages: Option<Vec<String>>,
    /// Custom binary installers by platform name (`debian`, `termux`).
    pub custom: Option<KeyedList<CustomInstaller>>,
    pub copy_files: Option<Vec<CopyFileAction>>,
    pub post_install_commands: Option<Vec<PostInstallCommand>>,
    pub section_injections: Option<Vec<SectionInjection>>,
    pub final_message: Option<String>,
    pub debian_final_message: Option<String>,
    pub termux_final_message: Option<String>,
    /// Categories that this pack installs.
    pub includes: Option<Vec<String>>,
    pub group: Option<String>,
    pub platform: Option<String>,
}

/// A configuration file to place.
#[derive(Debug)]
pub struct CopyFileAction {
    pub src: String,
    pub dest: String,
    pub platform: Option<String>,
    pub only_if_not_exists: Option<bool>,
    pub backup: Option<bool>,
}

/// A shell command to run after the packages of a category.
#[derive(Debug)]
pub struct PostInstallCommand {
    pub command: String,
    pub description: Option<String>,
    pub platform: Option<String>,
    pub prompt: Option<String>,
    pub confirm: Option<bool>,
}

/// A line to place under a section header comment of a file.
#[derive(Debug)]
pub struct SectionInjection {
    pub file: String,
    pub section: String,
    pub line: String,
    pub description: Option<String>,
    pub platform: Option<String>,
    pub position: Option<String>,
}

/// A binary installed from a release tarball.
#[derive(Debug)]
pub struct CustomInstaller {
    pub name: String,
    pub installer_type: String,
    pub url: String,
    pub extract_dir: String,
    pub bin_symlink: String,
    pub binary_name: Option<String>,
}

impl Category {
    /// The final message for `p`: the platform's own message if it has one,
    /// else the general one.
    pub open spec fn final_message_spec(self, p: Platform) -> Option<Seq<char>> {
        match p {
            Platform::Debian => if self.debian_final_message is Some {
                opt_view(self.debian_final_message)
            } else {
                opt_view(self.final_message)
            },
            Platform::Termux => if self.termux_final_message is Some {
                opt_view(self.termux_final_message)
            } else {
                opt_view(self.final_message)
            },
            Platform::Unsupported(_) => opt_view(self.final_message),
        }
    }

    /// The message shown once the category is installed on `platform`.
    pub fn final_message_for_platform(&self, platform: &Platform) -> (r: Option<&str>)
        ensures
            match r {
                Some(s) => self.final_message_spec(*platform) == Some(s@),
                None => self.final_message_spec(*platform) is None,
            },
    {
        let general = match &self.final_message {
            Some(m) => Some(m.as_str()),
            None => None,
        };
        match platform {
            Platform::Debian => match &self.debian_final_message {
                Some(m) => Some(m.as_str()),
                None => general,
            },
            Platform::Termux => match &self.termux_final_message {
                Some(m) => Some(m.as_str()),
                None => general,
            },
            Platform::Unsupported(_) => general,
        }
    }

    /// Whether one of the aliases equals `q` ignoring ASCII case.
    pub open spec fn has_alias_ignoring_case(self, q: Seq<char>) -> bool {
        &&& self.aliases is Some
        &&& exists|j: int|
            0 <= j < self.aliases->0@.len() && eq_ignore_ascii_case(
                #[trigger] self.aliases->0@[j]@,
                q,
            )
    }

    /// Whether one of the aliases equals `q`, ignoring ASCII case.
    pub fn alias_matches_ignoring_case(&self, q: &str) -> (r: bool)
        ensures
            r == self.has_alias_ignoring_case(q@),
    {
        match &self.aliases {
            Some(a) => {
                let mut j: usize = 0;
                while j < a.len()
                    invariant
                        self.aliases == Some(*a),
                        j <= a@.len(),
                        forall|t: int| 0 <= t < j ==> !eq_ignore_ascii_case(#[trigger] self.aliases->0@[t]@, q@),
                    decreases a.len() - j,
                {
                    if str_eq_ignore_ascii_case(a[j].as_str(), q) {
                        assert(eq_ignore_ascii_case(self.aliases->0@[j as int]@, q@));
                        return true;
                    }
                    j = j + 1;
                }
                false
            },
            None => false,
        }
    }
}

/// `i` is the first category (in name order) with an alias equal to `q`
/// ignoring ASCII case.
pub open spec fn first_alias_match(cats: Seq<Category>, q: Seq<char>, i: int) -> bool {
    &&& 0 <= i < cats.len()
    &&& cats[i].has_alias_ignoring_case(q)
    &&& forall|j: int| 0 <= j < i ==> !(#[trigger] cats[j]).has_alias_ignoring_case(q)
}

impl Config {
    /// An empty catalog.
    pub fn new() -> (r: Config)
        ensures
            r.categories.keys().len() == 0,
    {
        Config { categories: KeyedList::new() }
    }

    /// Resolves a category name or alias to the canonical category name: the name
    /// itself when it names a category, else the first category (in name order)
    /// with an alias equal to `query` ignoring ASCII case.
    pub fn resolve_category_key<'a>(&'a self, query: &str) -> (r: Option<&'a String>)
        ensures
            self.categories.contains(query@) ==> (r matches Some(k) && k@ == query@),
            !self.categories.contains(query@) ==> match r {
                Some(k) => exists|i: int|
                    first_alias_match(self.categories.values(), query@, i)
                        && self.categories.keys()[i] == k@,
                None => forall|i: int|
                    0 <= i < self.categories.values().len() ==> !(
                    #[trigger] self.categories.values()[i]).has_alias_ignoring_case(query@),
            },
    {
        match self.categories.get_key_value(query) {
            Some((k, _)) => {
                return Some(k);
            },
            None => {},
        }
        let n = self.categories.len();
        let mut i: usize = 0;
        while i < n
            invariant
                i <= n,
                !self.categories.contains(query@),
                n == self.categories.values().len(),
                n == self.categories.keys().len(),
                forall|j: int|
                    0 <= j < i ==> !(#[trigger] self.categories.values()[j]).has_alias_ignoring_case(
                        query@,
                    ),
            decreases n - i,
        {
            let cat = self.categories.value_at(i);
            if cat.alias_matches_ignoring_case(query) {
                let k = self.categories.key_at(i);
                assert(first_alias_match(self.categories.values(), query@, i as int));
                return Some(k);
            }
            i = i + 1;
        }
        None
    }

    /// Merges `other` into the catalog: each of its categories replaces the
    /// category of the same name, the others stay.
    pub fn merge_from(&mut self, other: Config)
        ensures
            forall|k: Seq<char>|
                #![trigger final(self).categories.lookup(k)]
                final(self).categories.lookup(k) == if other.categories.contains(k) {
                    other.categories.lookup(k)
                } else {
                    old(self).categories.lookup(k)
                },
    {
        let ghost ok = other.categories.keys();
        let ghost ov = other.categories.values();
        let ghost start = self.categories;
        let mut entries = other.categories.into_entries();
        let ghost n = entries@.len();
        assert(entries@.map_values(|e: (String, Category)| e.0@).len() == n);
        while entries.len() > 0
            invariant
                keys_sorted(ok),
                ok.len() == n,
                ov.len() == n,
                entries@.len() <= n,
                forall|t: int| 0 <= t < entries@.len() ==> (#[trigger] entries@[t]).0@ == ok[t] && entries@[t].1 == ov[t],
                forall|k: Seq<char>|
                    #![trigger self.categories.lookup(k)]
                    (exists|t: int| entries@.len() <= t < n && ok[t] == k) ==> self.categories.lookup(k)
                        == Some(ov[position_of(ok, k)->0]),
                forall|k: Seq<char>|
                    #![trigger self.categories.lookup(k)]
                    !(exists|t: int| entries@.len() <= t < n && ok[t] == k) ==> self.categories.lookup(k)
                        == start.lookup(k),
            decreases entries.len(),
        {
            let ghost m = entries@.len() - 1;
            let (k, v) = entries.pop().unwrap();
            let ghost kv = k@;
            let ghost vv = v;
            assert(kv == ok[m]);
            assert(vv == ov[m]);
            let ghost before = self.categories;
            self.categories.insert(k, v);
            proof {
                lemma_position_of(ok, m);
                assert(self.categories.lookup(kv) == Some(ov[m]));
                assert forall|key: Seq<char>|
                    (exists|t: int| m <= t < n && ok[t] == key) implies #[trigger] self.categories.lookup(key)
                        == Some(ov[position_of(ok, key)->0]) by {
                    if key != kv {
                        let t = choose|t: int| m <= t < n && ok[t] == key;
                        assert(t != m);
                        assert(exists|t: int| m + 1 <= t < n && ok[t] == key);
                        assert(before.lookup(key) == Some(ov[position_of(ok, key)->0]));
                    }
                }
                assert forall|key: Seq<char>|
                    !(exists|t: int| m <= t < n && ok[t] == key) implies #[trigger] self.categories.lookup(key)
                        == start.lookup(key) by {
                    assert(key != kv);
                    assert(!(exists|t: int| m + 1 <= t < n && ok[t] == key));
                    assert(before.lookup(key) == start.lookup(key));
                }
            }
        }
        proof {
            assert forall|k: Seq<char>|
                #![trigger self.categories.lookup(k)]
                self.categories.lookup(k) == if other.categories.contains(k) {
                    other.categories.lookup(k)
                } else {
                    start.lookup(k)
                } by {
                if other.categories.contains(k) {
                    let t = choose|t: int| 0 <= t < ok.len() && ok[t] == k;
                    assert(exists|t: int| 0 <= t < n && ok[t] == k);
                } else {
                    if exists|t: int| 0 <= t < n && ok[t] == k {
                        let t = choose|t: int| 0 <= t < n && ok[t] == k;
                        assert(ok.contains(k));
                    }
                }
            }
        }
    }

    /// Assembles the catalog from the primary one (with a label of where it came
    /// from) and the modular catalogs read from `categories.d/` directories, in
    /// the order they were read: each merged over what came before. The label
    /// returned mentions how many modular files were merged, if any.
    pub fn load(base: Config, primary_source: String, modular: Vec<Config>) -> (r: (Config, String))
        ensures
            r.1@ == source_summary_spec(primary_source@, modular@.len() as nat),
            forall|k: Seq<char>|
                #![trigger r.0.categories.lookup(k)]
                r.0.categories.lookup(k) == merged_lookup(base, modular@, k),
    {
        let count = modular.len();
        let ghost mods = modular@;
        let ghost b = base;
        let mut config = base;
        let mut rest = modular;
        let mut done: usize = 0;
        while rest.len() > 0
            invariant
                done + rest@.len() == count,
                count == mods.len(),
                rest@ == mods.skip(done as int),
                forall|k: Seq<char>|
                    #![trigger config.categories.lookup(k)]
                    config.categories.lookup(k) == merged_lookup(b, mods.take(done as int), k),
            decreases rest.len(),
        {
            let c = rest.remove(0);
            assert(c == mods[done as int]);
            let ghost before = config;
            config.merge_from(c);
            assert(mods.take(done + 1).drop_last() =~= mods.take(done as int));
            assert(mods.take(done + 1).last() == mods[done as int]);
            assert(rest@ =~= mods.skip(done + 1));
            assert forall|k: Seq<char>|
                #![trigger config.categories.lookup(k)]
                config.categories.lookup(k) == merged_lookup(b, mods.take(done + 1), k) by {
                assert(before.categories.lookup(k) == merged_lookup(b, mods.take(done as int), k));
            }
            done = done + 1;
        }
        assert(mods.take(count as int) =~= mods);
        let summary = source_summary(primary_source.as_str(), count);
        (config, summary)
    }

    /// The user's catalog directory, `<home>/.config/dotss`, when the home
    /// directory is known.
    pub fn get_user_config_dir(home: Option<&str>) -> (r: Option<String>)
        ensures
            match home {
                Some(h) => r matches Some(d) && d@ == path_join(h@, ".config/dotss"@),
                None => r is None,
            },
    {
        match home {
            Some(h) => Some(join_path(h, ".config/dotss")),
            None => None,
        }
    }
}

/// What the catalog assembled from `base` and the modular catalogs `mods`
/// (merged in order) holds under `k`: the last modular catalog that has `k`
/// decides, else the base.
pub open spec fn merged_lookup(base: Config, mods: Seq<Config>, k: Seq<char>) -> Option<Category>
    decreases mods.len(),
{
    if mods.len() == 0 {
        base.categories.lookup(k)
    } else if mods.last().categories.contains(k) {
        mods.last().categories.lookup(k)
    } else {
        merged_lookup(base, mods.drop_last(), k)
    }
}

/// Label of the loaded catalog: the primary source, followed by the number of
/// modular files when there were any.
pub open spec fn source_summary_spec(primary: Seq<char>, n: nat) -> Seq<char> {
    if n == 0 {
        primary
    } else {
        primary + " (+ "@ + decimal(n) + " modular file(s) in categories.d/)"@
    }
}

/// Label of a catalog assembled from `primary` and `n` modular files.
pub fn source_summary(primary: &str, n: usize) -> (r: String)
    ensures
        r@ == source_summary_spec(primary@, n as nat),
{
    if n == 0 {
        return owned(primary);
    }
    let a = concat2(primary, " (+ ");
    let d = decimal_string(n as u64);
    let b = concat2(a.as_str(), d.as_str());
    concat2(b.as_str(), " modular file(s) in categories.d/)")
}

/// Whether a loaded catalog came from a file rather than from the embedded default.
pub fn is_external_source(source: &str) -> (r: bool)
    ensures
        r == (source@ != EMBEDDED_SOURCE_LABEL@),
{
    !crate::text::str_eq(source, EMBEDDED_SOURCE_LABEL)
}

/// A directory entry name that `Path::extension` reports as `toml`: it ends in
/// `.toml` and something precedes that dot.
pub open spec fn is_toml_file_name(name: Seq<char>) -> bool {
    ends_with(name, ".toml"@) && name.len() > 5
}

/// Names of the regular files of a `categories.d/` directory that are loaded, in
/// the order they are loaded: those with a `toml` extension, sorted.
pub fn select_modular_files(file_names: Vec<String>) -> (r: Vec<String>)
    ensures
        sorted_le(string_views(r@)),
        string_views(r@).to_multiset() == string_views(file_names@).filter(
            |n: Seq<char>| is_toml_file_name(n),
        ).to_multiset(),
{
    let ghost all = string_views(file_names@);
    let ghost pred = |n: Seq<char>| is_toml_file_name(n);
    let mut kept: Vec<String> = Vec::new();
    let mut i: usize = 0;
    while i < file_names.len()
        invariant
            i <= file_names@.len(),
            all == string_views(file_names@),
            pred == (|n: Seq<char>| is_toml_file_name(n)),
            string_views(kept@) == all.take(i as int).filter(pred),
        decreases file_names.len() - i,
    {
        let name = &file_names[i];
        let keep = str_ends_with(name.as_str(), ".toml") && name.as_str().unicode_len() > 5;
        assert(all.take(i + 1) =~= all.take(i as int).push(all[i as int]));
        proof {
            all.take(i as int).lemma_filter_push(all[i as int], pred);
        }
        if keep {
            let c = name.clone();
            kept.push(c);
            assert(string_views(kept@) =~= all.take(i as int).filter(pred).push(name@));
        }
        i = i + 1;
    }
    assert(all.take(file_names@.len() as int) =~= all);
    sort_strings(kept)
}

// ---------------------------------------------------------------------------
// URLs referenced by the catalog
// ---------------------------------------------------------------------------

/// An HTTP(S) URL: it starts with `http://` or `https://`.
pub open spec fn is_http_url(s: Seq<char>) -> bool {
    starts_with(s, "http://"@) || starts_with(s, "https://"@)
}

/// The URL that a word of a shell command names, if any: the word without the
/// quotes, parentheses and semicolons around it, up to its first `|`.
pub open spec fn word_url(w: Seq<char>) -> Option<Seq<char>> {
    let t = trim_by(w, CharClass::UrlDelimiter);
    if is_http_url(t) {
        Some(before_char(t, '|'))
    } else {
        None
    }
}

/// The URLs that the words `ws` name, in order.
pub open spec fn urls_in_words(ws: Seq<Seq<char>>) -> Seq<Seq<char>>
    decreases ws.len(),
{
    if ws.len() == 0 {
        seq![]
    } else {
        urls_in_words(ws.drop_last()) + match word_url(ws.last()) {
            Some(u) => seq![u],
            None => Seq::<Seq<char>>::empty(),
        }
    }
}

/// The HTTP(S) download URLs of custom installers, in order.
pub open spec fn installer_urls(cs: Seq<CustomInstaller>) -> Seq<Seq<char>>
    decreases cs.len(),
{
    if cs.len() == 0 {
        seq![]
    } else {
        installer_urls(cs.drop_last()) + if is_http_url(cs.last().url@) {
            seq![cs.last().url@]
        } else {
            Seq::<Seq<char>>::empty()
        }
    }
}

/// The URLs that post-install commands name, in order.
pub open spec fn command_urls(cmds: Seq<PostInstallCommand>) -> Seq<Seq<char>>
    decreases cmds.len(),
{
    if cmds.len() == 0 {
        seq![]
    } else {
        command_urls(cmds.drop_last()) + urls_in_words(words(cmds.last().command@))
    }
}

/// The URLs that a category references: its custom installers' downloads, then
/// those its post-install commands name.
pub open spec fn category_urls(cat: Category) -> Seq<Seq<char>> {
    (match cat.custom {
        Some(m) => installer_urls(m.values()),
        None => Seq::<Seq<char>>::empty(),
    }) + match cat.post_install_commands {
        Some(v) => command_urls(v@),
        None => Seq::<Seq<char>>::empty(),
    }
}

/// The URLs that categories reference, in order.
pub open spec fn catalog_urls(cats: Seq<Category>) -> Seq<Seq<char>>
    decreases cats.len(),
{
    if cats.len() == 0 {
        seq![]
    } else {
        catalog_urls(cats.drop_last()) + category_urls(cats.last())
    }
}

fn http_prefixed(t: &[char]) -> (r: bool)
    ensures
        r == is_http_url(t@),
{
    let a = chars_of("http://");
    let b = chars_of("https://");
    chars_starts_with(t, a.as_slice()) || chars_starts_with(t, b.as_slice())
}

fn url_of_word(w: &[char]) -> (r: Option<String>)
    ensures
        match r {
            Some(u) => word_url(w@) == Some(u@),
            None => word_url(w@) is None,
        },
{
    let t = trim_chars(w, &CharClass::UrlDelimiter);
    if http_prefixed(t.as_slice()) {
        let u = before_char_chars(t.as_slice(), '|');
        Some(string_of(u.as_slice()))
    } else {
        None
    }
}

fn append_strings(out: &mut Vec<String>, more: Vec<String>)
    ensures
        string_views(final(out)@) == string_views(old(out)@) + string_views(more@),
{
    let mut more = more;
    let ghost a = string_views(out@);
    let ghost b = string_views(more@);
    out.append(&mut more);
    assert(string_views(out@) =~= a + b);
}

fn urls_of_command(cmd: &str) -> (r: Vec<String>)
    ensures
        string_views(r@) == urls_in_words(words(cmd@)),
{
    let cv = chars_of(cmd);
    let ws = words_of(cv.as_slice());
    let ghost wv = char_vec_views(ws@);
    let mut out: Vec<String> = Vec::new();
    let mut i: usize = 0;
    while i < ws.len()
        invariant
            i <= ws@.len(),
            wv == char_vec_views(ws@),
            wv == words(cmd@),
            string_views(out@) == urls_in_words(wv.take(i as int)),
        decreases ws.len() - i,
    {
        assert(wv.take(i + 1).drop_last() =~= wv.take(i as int));
        assert(wv.take(i + 1).last() == ws@[i as int]@);
        let ghost before = string_views(out@);
        match url_of_word(ws[i].as_slice()) {
            Some(u) => {
                out.push(u);
                assert(string_views(out@) =~= before + seq![string_views(out@).last()]);
            },
            None => {
                assert(string_views(out@) =~= before + Seq::<Seq<char>>::empty());
            },
        }
        i = i + 1;
    }
    assert(wv.take(ws@.len() as int) =~= wv);
    out
}

fn urls_of_category(cat: &Category) -> (r: Vec<String>)
    ensures
        string_views(r@) == category_urls(*cat),
{
    let mut out: Vec<String> = Vec::new();
    match &cat.custom {
        Some(m) => {
            let n = m.len();
            let ghost cs = m.values();
            let mut i: usize = 0;
            while i < n
                invariant
                    i <= n,
                    n == cs.len(),
                    cat.custom == Some(*m),
                    cs == m.values(),
                    string_views(out@) == installer_urls(cs.take(i as int)),
                decreases n - i,
            {
                assert(cs.take(i + 1).drop_last() =~= cs.take(i as int));
                let c = m.value_at(i);
                let ghost before = string_views(out@);
                if http_prefixed(chars_of(c.url.as_str()).as_slice()) {
                    out.push(c.url.clone());
                    assert(string_views(out@) =~= before + seq![c.url@]);
                } else {
                    assert(string_views(out@) =~= before + Seq::<Seq<char>>::empty());
                }
                i = i + 1;
            }
            assert(cs.take(n as int) =~= cs);
        },
        None => {},
    }
    let ghost head = string_views(out@);
    match &cat.post_install_commands {
        Some(cmds) => {
            let mut j: usize = 0;
            while j < cmds.len()
                invariant
                    j <= cmds@.len(),
                    cat.post_install_commands == Some(*cmds),
                    string_views(out@) == head + command_urls(cmds@.take(j as int)),
                decreases cmds.len() - j,
            {
                assert(cmds@.take(j + 1).drop_last() =~= cmds@.take(j as int));
                let more = urls_of_command(cmds[j].command.as_str());
                append_strings(&mut out, more);
                assert(head + command_urls(cmds@.take(j as int)) + urls_in_words(words(cmds@[j as int].command@))
                    =~= head + command_urls(cmds@.take(j + 1)));
                j = j + 1;
            }
            assert(cmds@.take(cmds@.len() as int) =~= cmds@);
        },
        None => {
            assert(string_views(out@) =~= head + Seq::<Seq<char>>::empty());
        },
    }
    out
}

impl Config {
    /// Every HTTP(S) URL the catalog references (custom installer downloads and
    /// URLs named in post-install commands), sorted, each once.
    pub fn extract_all_urls(&self) -> (r: Vec<String>)
        ensures
            sorted_lt(string_views(r@)),
            string_views(r@).to_set() == catalog_urls(self.categories.values()).to_set(),
    {
        let n = self.categories.len();
        let ghost cats = self.categories.values();
        let mut all: Vec<String> = Vec::new();
        let mut i: usize = 0;
        while i < n
            invariant
                i <= n,
                n == cats.len(),
                cats == self.categories.values(),
                string_views(all@) == catalog_urls(cats.take(i as int)),
            decreases n - i,
        {
            assert(cats.take(i + 1).drop_last() =~= cats.take(i as int));
            let more = urls_of_category(self.categories.value_at(i));
            append_strings(&mut all, more);
            i = i + 1;
        }
        assert(cats.take(n as int) =~= cats);
        sort_dedup_strings(all)
    }
}

/// A URL with a `${...}` placeholder: the reachability check accepts it without
/// probing it.
pub fn url_is_templated(url: &str) -> (r: bool)
    ensures
        r == contains(url@, "${"@),
{
    crate::text::str_contains(url, "${")
}

/// What checking a URL's reachability takes.
#[derive(Debug)]
pub enum UrlCheck {
    /// Accepted without a probe, with this status.
    Accepted(u16),
    /// Probe the URL and judge the probe (see [`check_probe`]).
    Probe,
}

/// Decides how to check `url`: a templated URL (one holding `${`) is accepted as
/// reachable, status 200, and never probed; any other is probed.
pub fn plan_url_check(url: &str) -> (r: UrlCheck)
    ensures
        contains(url@, "${"@) ==> (r matches UrlCheck::Accepted(c) && c == 200),
        !contains(url@, "${"@) ==> r is Probe,
{
    if url_is_templated(url) {
        UrlCheck::Accepted(200)
    } else {
        UrlCheck::Probe
    }
}

/// The HTTP status that a probe printed: its output, trimmed, as a `u16`, or 0
/// when it is not one.
pub open spec fn probe_status(output: Seq<char>) -> nat {
    match parse_unsigned(trim(output), 65535) {
        Some(n) => n,
        None => 0,
    }
}

/// Judges a reachability probe of `url`: whether the probe ran successfully and
/// what it printed (the final HTTP status). A status from 200 to 399 is reachable.
pub fn check_probe(url: &str, probe_succeeded: bool, output: &str) -> (r: Result<u16, String>)
    ensures
        !probe_succeeded ==> (r matches Err(m) && m@ == "curl failed to reach URL: "@ + url@),
        probe_succeeded ==> ({
            let c = probe_status(output@);
            if 200 <= c < 400 {
                r == Ok::<u16, String>(c as u16)
            } else {
                r matches Err(m) && m@ == "URL '"@ + url@ + "' returned non-success HTTP status code: "@
                    + decimal(c)
            }
        }),
{
    if !probe_succeeded {
        return Err(concat2("curl failed to reach URL: ", url));
    }
    let ov = chars_of(output);
    let t = trim_chars(ov.as_slice(), &CharClass::Whitespace);
    let code: u16 = match parse_unsigned_chars(t.as_slice(), 65535) {
        Some(n) => n as u16,
        None => 0,
    };
    if 200 <= code && code < 400 {
        Ok(code)
    } else {
        let a = concat2("URL '", url);
        let b = concat2(a.as_str(), "' returned non-success HTTP status code: ");
        let d = decimal_string(code as u64);
        Err(concat2(b.as_str(), d.as_str()))
    }
}

} // verus!
