//! Release versions and the rules of self-update and self-uninstall.
use crate::platform::Platform;
use crate::text::{
    before_char, before_char_chars, char_vec_views, chars_of, concat2, find_chars, first_occurrence,
    lemma_first_occurrence_from, owned, parse_unsigned, parse_unsigned_chars, split_char,
    split_char_chars, string_of, sub_chars, trim_start_by, trim_start_chars, CharClass, decimal, digit_char,
    all_digits, digits_value, is_digit, unsigned_digits, lemma_split_char_concat, lemma_split_char_single,
};
use vstd::prelude::*;

verus! {

/// Repository queried for releases when none is configured.
pub const DEFAULT_REPO: &'static str = "fusoras/project-dots";

/// The repository to query: the configured one (`PROJECT_DOTS_REPO`), else the
/// default.
pub fn repo_or_default(configured: Option<String>) -> (r: String)
    ensures
        match configured {
            Some(c) => r@ == c@,
            None => r@ == DEFAULT_REPO@,
        },
{
    match configured {
        Some(c) => c,
        None => owned(DEFAULT_REPO),
    }
}

/// The GitHub API address of the latest release of `repo`.
pub fn release_api_url(repo: &str) -> (r: String)
    ensures
        r@ == "https://api.github.com/repos/"@ + repo@ + "/releases/latest"@,
{
    let a = concat2("https://api.github.com/repos/", repo);
    concat2(a.as_str(), "/releases/latest")
}

/// Why an update cannot proceed.
#[derive(Debug)]
pub enum UpdateError {
    /// Self-update has no release asset for this platform.
    UnsupportedPlatform(String),
}

/// The release asset for a platform, if self-update supports it.
pub open spec fn asset_name_spec(p: Platform) -> Option<Seq<char>> {
    match p {
        Platform::Debian => Some("project-dots-x86_64-unknown-linux-gnu.tar.gz"@),
        Platform::Termux => Some("project-dots-aarch64-unknown-linux-musl.tar.gz"@),
        Platform::Unsupported(_) => None,
    }
}

/// The release asset for `platform`.
pub fn resolve_asset_name(platform: &Platform) -> (r: Result<&'static str, UpdateError>)
    ensures
        match *platform {
            Platform::Debian => r matches Ok(a) && a@ == "project-dots-x86_64-unknown-linux-gnu.tar.gz"@,
            Platform::Termux => r matches Ok(a) && a@ == "project-dots-aarch64-unknown-linux-musl.tar.gz"@,
            Platform::Unsupported(reason) => r matches Err(UpdateError::UnsupportedPlatform(m)) && m@
                == "Unsupported platform for self-update: "@ + reason@,
        },
{
    match platform {
        Platform::Debian => Ok("project-dots-x86_64-unknown-linux-gnu.tar.gz"),
        Platform::Termux => Ok("project-dots-aarch64-unknown-linux-musl.tar.gz"),
        Platform::Unsupported(reason) => Err(
            UpdateError::UnsupportedPlatform(
                concat2("Unsupported platform for self-update: ", reason.as_str()),
            ),
        ),
    }
}

/// The largest `u32`.
pub open spec fn u32_max() -> nat {
    u32::MAX as nat
}

/// The numbers among `segs` that parse as `u32`, in order (`filter_map` of
/// `parse::<u32>().ok()`).
pub open spec fn parsed_u32s(segs: Seq<Seq<char>>) -> Seq<nat>
    decreases segs.len(),
{
    if segs.len() == 0 {
        seq![]
    } else {
        let pre = parsed_u32s(segs.drop_last());
        match parse_unsigned(segs.last(), u32_max()) {
            Some(n) => pre.push(n),
            None => pre,
        }
    }
}

/// The release numbers of a version: the `.`-separated parts before the first
/// `-` that are numbers.
pub open spec fn version_numbers(v: Seq<char>) -> Seq<nat> {
    parsed_u32s(split_char(before_char(v, '-'), '.'))
}

/// A pre-release: the version has a `-` suffix (such as `-beta.3`).
pub open spec fn is_pre_release(v: Seq<char>) -> bool {
    crate::text::contains(v, "-"@)
}

/// The pre-release number of a version: the number after the first `-beta.` (up
/// to the next `-beta.`), 0 when that is not a number or there is no `-beta.`.
pub open spec fn beta_number(v: Seq<char>) -> nat {
    match first_occurrence(v, "-beta."@) {
        Some(i) => {
            let rest = v.skip(i + 6);
            let piece = match first_occurrence(rest, "-beta."@) {
                Some(j) => rest.take(j),
                None => rest,
            };
            match parse_unsigned(piece, u32_max()) {
                Some(n) => n,
                None => 0,
            }
        },
        None => 0,
    }
}

/// Of two versions with the same release numbers, `v1` comes later: it is the
/// release and `v2` a pre-release of it, or both are pre-releases and `v1` has
/// the larger beta number.
pub open spec fn pre_release_later(v1: Seq<char>, v2: Seq<char>) -> bool {
    if !is_pre_release(v1) {
        is_pre_release(v2)
    } else if !is_pre_release(v2) {
        false
    } else {
        beta_number(v1) > beta_number(v2)
    }
}

/// Lexicographic order on number sequences (a proper prefix sorts first).
pub open spec fn nat_seq_lt(a: Seq<nat>, b: Seq<nat>) -> bool
    decreases a.len(),
{
    if a.len() == 0 {
        b.len() > 0
    } else if b.len() == 0 {
        false
    } else if a[0] != b[0] {
        a[0] < b[0]
    } else {
        nat_seq_lt(a.drop_first(), b.drop_first())
    }
}

/// `v1` is a later version than `v2`: its release numbers are larger, or they are
/// equal and it comes later as a pre-release (see [`pre_release_later`]). For the
/// project's versions, `MAJOR.MINOR.PATCH` with an optional `-beta.N`, this is
/// SemVer 2.0.0 precedence: every release comes after all of its pre-releases.
pub open spec fn version_greater_spec(v1: Seq<char>, v2: Seq<char>) -> bool {
    let p1 = version_numbers(v1);
    let p2 = version_numbers(v2);
    if p1 != p2 {
        nat_seq_lt(p2, p1)
    } else {
        pre_release_later(v1, v2)
    }
}

/// The release tag `latest_tag` (with its leading `v`s removed) names a version
/// other than, and later than, `current_version`.
pub open spec fn is_newer_spec(latest_tag: Seq<char>, current_version: Seq<char>) -> bool {
    let tag = trim_start_by(latest_tag, CharClass::LetterV);
    tag != current_version && version_greater_spec(tag, current_version)
}

fn parsed_numbers(segs: &Vec<Vec<char>>) -> (r: Vec<u64>)
    ensures
        r@.map_values(|x: u64| x as nat) == parsed_u32s(char_vec_views(segs@)),
{
    let mut out: Vec<u64> = Vec::new();
    let mut i: usize = 0;
    while i < segs.len()
        invariant
            i <= segs@.len(),
            out@.map_values(|x: u64| x as nat) == parsed_u32s(char_vec_views(segs@).take(i as int)),
        decreases segs.len() - i,
    {
        let ghost t = char_vec_views(segs@).take(i + 1);
        assert(t.drop_last() =~= char_vec_views(segs@).take(i as int));
        assert(t.last() == segs@[i as int]@);
        let ghost before = out@;
        match parse_unsigned_chars(segs[i].as_slice(), 4294967295) {
            Some(n) => {
                out.push(n);
                assert(out@.map_values(|x: u64| x as nat) =~= before.map_values(|x: u64| x as nat).push(n as nat));
            },
            None => {},
        }
        i = i + 1;
    }
    assert(char_vec_views(segs@).take(segs@.len() as int) =~= char_vec_views(segs@));
    out
}

fn beta_number_exec(v: &[char]) -> (r: u64)
    ensures
        r as nat == beta_number(v@),
{
    proof {
        reveal_strlit("-beta.");
    }
    let marker = chars_of("-beta.");
    match find_chars(v, marker.as_slice()) {
        Some(i) => {
            proof {
                lemma_first_occurrence_from(v@, marker@, 0);
            }
            assert(marker@.len() == 6);
            let n = v.len();
            assert(i + 6 <= n);
            let rest = sub_chars(v, i + 6, n);
            assert(rest@ =~= v@.skip(i + 6));
            let piece = match find_chars(rest.as_slice(), marker.as_slice()) {
                Some(j) => {
                    proof {
                        lemma_first_occurrence_from(rest@, marker@, 0);
                    }
                    let p = sub_chars(rest.as_slice(), 0, j);
                    assert(p@ =~= rest@.take(j as int));
                    p
                },
                None => rest,
            };
            match parse_unsigned_chars(piece.as_slice(), 4294967295) {
                Some(n) => n,
                None => 0,
            }
        },
        None => 0,
    }
}

fn version_key(v: &[char]) -> (r: (Vec<u64>, bool, u64))
    ensures
        r.0@.map_values(|x: u64| x as nat) == version_numbers(v@),
        r.1 == is_pre_release(v@),
        r.2 as nat == beta_number(v@),
{
    let main = before_char_chars(v, '-');
    let segs = split_char_chars(main.as_slice(), '.');
    let dash = chars_of("-");
    (parsed_numbers(&segs), crate::text::chars_contains(v, dash.as_slice()), beta_number_exec(v))
}

fn nums_lt(a: &Vec<u64>, b: &Vec<u64>) -> (r: bool)
    ensures
        r == nat_seq_lt(a@.map_values(|x: u64| x as nat), b@.map_values(|x: u64| x as nat)),
{
    let ghost am = a@.map_values(|x: u64| x as nat);
    let ghost bm = b@.map_values(|x: u64| x as nat);
    let mut i: usize = 0;
    assert(am.skip(0) =~= am);
    assert(bm.skip(0) =~= bm);
    while i < a.len() && i < b.len()
        invariant
            i <= a@.len(),
            i <= b@.len(),
            am == a@.map_values(|x: u64| x as nat),
            bm == b@.map_values(|x: u64| x as nat),
            nat_seq_lt(am, bm) == nat_seq_lt(am.skip(i as int), bm.skip(i as int)),
        decreases a.len() - i,
    {
        assert(am.skip(i as int)[0] == a@[i as int] as nat);
        assert(bm.skip(i as int)[0] == b@[i as int] as nat);
        if a[i] != b[i] {
            return a[i] < b[i];
        }
        assert(am.skip(i as int).drop_first() =~= am.skip(i + 1));
        assert(bm.skip(i as int).drop_first() =~= bm.skip(i + 1));
        i = i + 1;
    }
    assert(am.skip(i as int).len() == a@.len() - i);
    assert(bm.skip(i as int).len() == b@.len() - i);
    i == a.len() && i < b.len()
}

fn nums_eq(a: &Vec<u64>, b: &Vec<u64>) -> (r: bool)
    ensures
        r == (a@.map_values(|x: u64| x as nat) == b@.map_values(|x: u64| x as nat)),
{
    let ghost am = a@.map_values(|x: u64| x as nat);
    let ghost bm = b@.map_values(|x: u64| x as nat);
    if a.len() != b.len() {
        assert(am.len() != bm.len());
        return false;
    }
    let mut i: usize = 0;
    while i < a.len()
        invariant
            i <= a@.len(),
            a@.len() == b@.len(),
            am == a@.map_values(|x: u64| x as nat),
            bm == b@.map_values(|x: u64| x as nat),
            forall|j: int| 0 <= j < i ==> am[j] == bm[j],
        decreases a.len() - i,
    {
        if a[i] != b[i] {
            assert(am[i as int] != bm[i as int]);
            return false;
        }
        i = i + 1;
    }
    assert(am =~= bm);
    true
}

/// Whether version `v1` is later than version `v2` (see [`version_greater_spec`]).
pub fn semver_greater(v1: &str, v2: &str) -> (r: bool)
    ensures
        r == version_greater_spec(v1@, v2@),
{
    let a = chars_of(v1);
    let b = chars_of(v2);
    let (p1, pre1, b1) = version_key(a.as_slice());
    let (p2, pre2, b2) = version_key(b.as_slice());
    if !nums_eq(&p1, &p2) {
        nums_lt(&p2, &p1)
    } else if !pre1 {
        pre2
    } else if !pre2 {
        false
    } else {
        b1 > b2
    }
}

/// Whether the release tag `latest_tag` names a newer version than
/// `current_version`.
pub fn is_newer_version(latest_tag: &str, current_version: &str) -> (r: bool)
    ensures
        r == is_newer_spec(latest_tag@, current_version@),
{
    let lv = chars_of(latest_tag);
    let tag = trim_start_chars(lv.as_slice(), &CharClass::LetterV);
    let cv = chars_of(current_version);
    if crate::text::slice_eq(tag.as_slice(), cv.as_slice()) {
        return false;
    }
    let t = string_of(tag.as_slice());
    semver_greater(t.as_str(), current_version)
}


// ---------------------------------------------------------------------------
// Reading the release tag from a GitHub API response
// ---------------------------------------------------------------------------

/// The text that follows the `"tag_name":` key in a response body.
pub open spec fn after_tag_key(body: Seq<char>) -> Option<Seq<char>> {
    match first_occurrence(body, "\"tag_name\":"@) {
        Some(pos) => Some(body.skip(pos + 11)),
        None => None,
    }
}

/// Reading the tag does not slice a string off a character boundary: when the
/// text after the key holds no quote, it is not empty and begins with an ASCII
/// character (its first byte is skipped).
pub open spec fn tag_extraction_defined(body: Seq<char>) -> bool {
    match after_tag_key(body) {
        Some(rest) => first_occurrence(rest, "\""@) is Some || (rest.len() > 0 && (rest[0] as u32) < 128),
        None => true,
    }
}

/// The release tag in a response body: the text between the first quote after
/// the `"tag_name":` key and the next quote (empty when there is no such text);
/// `None` when the body has no `"tag_name":` key.
pub open spec fn release_tag_spec(body: Seq<char>) -> Option<Seq<char>> {
    match after_tag_key(body) {
        Some(rest) => match first_occurrence(rest, "\""@) {
            Some(q) => {
                let tail = rest.skip(q + 1);
                match first_occurrence(tail, "\""@) {
                    Some(e) => Some(tail.take(e)),
                    None => Some(seq![]),
                }
            },
            None => Some(seq![]),
        },
        None => None,
    }
}

/// Whether [`release_tag_from_body`] can read `body` (see
/// [`tag_extraction_defined`]).
pub fn can_extract_release_tag(body: &str) -> (r: bool)
    ensures
        r == tag_extraction_defined(body@),
{
    proof {
        reveal_strlit("\"tag_name\":");
        reveal_strlit("\"");
    }
    let b = chars_of(body);
    let key = chars_of("\"tag_name\":");
    let quote = chars_of("\"");
    match find_chars(b.as_slice(), key.as_slice()) {
        Some(pos) => {
            proof {
                lemma_first_occurrence_from(b@, key@, 0);
            }
            let n = b.len();
            assert(pos + 11 <= n);
            let rest = sub_chars(b.as_slice(), pos + 11, n);
            assert(rest@ =~= b@.skip(pos + 11));
            match find_chars(rest.as_slice(), quote.as_slice()) {
                Some(_) => true,
                None => rest.len() > 0 && (rest[0] as u32) < 128,
            }
        },
        None => true,
    }
}

/// The release tag named in a GitHub API response body (see [`release_tag_spec`]);
/// `None` when the body has no `"tag_name":` key.
pub fn release_tag_from_body(body: &str) -> (r: Option<String>)
    requires
        tag_extraction_defined(body@),
    ensures
        match r {
            Some(t) => release_tag_spec(body@) == Some(t@),
            None => release_tag_spec(body@) is None,
        },
{
    proof {
        reveal_strlit("\"tag_name\":");
        reveal_strlit("\"");
        reveal_strlit("");
    }
    let b = chars_of(body);
    let key = chars_of("\"tag_name\":");
    let quote = chars_of("\"");
    match find_chars(b.as_slice(), key.as_slice()) {
        Some(pos) => {
            proof {
                lemma_first_occurrence_from(b@, key@, 0);
            }
            let n = b.len();
            assert(pos + 11 <= n);
            let rest = sub_chars(b.as_slice(), pos + 11, n);
            assert(rest@ =~= b@.skip(pos + 11));
            match find_chars(rest.as_slice(), quote.as_slice()) {
                Some(q) => {
                    proof {
                        lemma_first_occurrence_from(rest@, quote@, 0);
                    }
                    let m = rest.len();
                    assert(q + 1 <= m);
                    let tail = sub_chars(rest.as_slice(), q + 1, m);
                    assert(tail@ =~= rest@.skip(q + 1));
                    match find_chars(tail.as_slice(), quote.as_slice()) {
                        Some(e) => {
                            proof {
                                lemma_first_occurrence_from(tail@, quote@, 0);
                            }
                            let t = sub_chars(tail.as_slice(), 0, e);
                            assert(t@ =~= tail@.take(e as int));
                            Some(string_of(t.as_slice()))
                        },
                        None => {
                            let e = owned("");
                            assert(e@ =~= Seq::<char>::empty());
                            Some(e)
                        },
                    }
                },
                None => {
                    let e = owned("");
                    assert(e@ =~= Seq::<char>::empty());
                    Some(e)
                },
            }
        },
        None => None,
    }
}

// ---------------------------------------------------------------------------
// The update and uninstall decisions
// ---------------------------------------------------------------------------

/// What self-update does.
#[derive(Debug)]
pub enum UpdatePlan {
    /// The running version is the latest release.
    UpToDate { latest_tag: String },
    /// Download `asset` from `url` and replace the executable.
    Download { latest_tag: String, asset: String, url: String },
}

/// The download address of release `tag`'s `asset`.
pub open spec fn download_url_spec(repo: Seq<char>, tag: Seq<char>, asset: Seq<char>) -> Seq<char> {
    "https://github.com/"@ + repo + "/releases/download/"@ + tag + "/"@ + asset
}

/// Decides self-update from the running version, the latest release tag (`None`
/// when it could not be fetched: the running version is then taken as latest),
/// the platform and the repository.
pub fn plan_update(
    current_version: &str,
    fetched_tag: Option<String>,
    platform: &Platform,
    repo: &str,
) -> (r: Result<UpdatePlan, UpdateError>)
    ensures
        ({
            let latest = match fetched_tag {
                Some(t) => t@,
                None => "v"@ + current_version@,
            };
            if !is_newer_spec(latest, current_version@) {
                r matches Ok(UpdatePlan::UpToDate { latest_tag }) && latest_tag@ == latest
            } else {
                match *platform {
                    Platform::Unsupported(reason) => r matches Err(UpdateError::UnsupportedPlatform(m))
                        && m@ == "Unsupported platform for self-update: "@ + reason@,
                    _ => r matches Ok(UpdatePlan::Download { latest_tag, asset, url }) && latest_tag@
                        == latest && asset_name_spec(*platform) == Some(asset@) && url@
                        == download_url_spec(repo@, latest, asset@),
                }
            }
        }),
{
    let latest = match fetched_tag {
        Some(t) => t,
        None => concat2("v", current_version),
    };
    if !is_newer_version(latest.as_str(), current_version) {
        return Ok(UpdatePlan::UpToDate { latest_tag: latest });
    }
    let asset = match resolve_asset_name(platform) {
        Ok(a) => a,
        Err(e) => {
            return Err(e);
        },
    };
    let a = concat2("https://github.com/", repo);
    let b = concat2(a.as_str(), "/releases/download/");
    let c = concat2(b.as_str(), latest.as_str());
    let d = concat2(c.as_str(), "/");
    let url = concat2(d.as_str(), asset);
    Ok(UpdatePlan::Download { latest_tag: latest, asset: owned(asset), url })
}

/// An answer to a yes/no question that means yes: `y` or `yes`, ignoring case and
/// surrounding white space.
pub open spec fn is_yes_spec(answer: Seq<char>) -> bool {
    let a = crate::text::unicode_lowercase(crate::text::trim(answer));
    a == "y"@ || a == "yes"@
}

/// Whether an answer to a `[y/N]` question means yes.
pub fn is_yes(answer: &str) -> (r: bool)
    ensures
        r == is_yes_spec(answer@),
{
    let t = crate::text::trim_str(answer);
    let l = crate::text::to_lowercase(t.as_str());
    crate::text::str_eq(l.as_str(), "y") || crate::text::str_eq(l.as_str(), "yes")
}

/// Whether self-uninstall also removes the managed packages and the state and
/// configuration directories: never with `--no`, always with `--yes`, otherwise
/// when the user answered yes (`None` when no answer could be read).
pub fn uninstall_removes_everything(auto_confirm: bool, auto_reject: bool, answer: Option<&str>) -> (r:
    bool)
    ensures
        r == (!auto_reject && (auto_confirm || (answer matches Some(a) && is_yes_spec(a@)))),
{
    if auto_reject {
        false
    } else if auto_confirm {
        true
    } else {
        match answer {
            Some(a) => is_yes(a),
            None => false,
        }
    }
}

// ---------------------------------------------------------------------------
// Laws of the version order
// ---------------------------------------------------------------------------

proof fn lemma_nat_seq_lt_irreflexive(a: Seq<nat>)
    ensures
        !nat_seq_lt(a, a),
    decreases a.len(),
{
    if a.len() > 0 {
        lemma_nat_seq_lt_irreflexive(a.drop_first());
    }
}

proof fn lemma_nat_seq_lt_transitive(a: Seq<nat>, b: Seq<nat>, c: Seq<nat>)
    requires
        nat_seq_lt(a, b),
        nat_seq_lt(b, c),
    ensures
        nat_seq_lt(a, c),
    decreases a.len(),
{
    if a.len() > 0 && b.len() > 0 && c.len() > 0 && a[0] == b[0] && b[0] == c[0] {
        lemma_nat_seq_lt_transitive(a.drop_first(), b.drop_first(), c.drop_first());
    }
}

/// No version is later than itself.
pub proof fn law_version_greater_irreflexive(v: Seq<char>)
    ensures
        !version_greater_spec(v, v),
{
}

/// Of two versions, at most one is later than the other.
pub proof fn law_version_greater_asymmetric(a: Seq<char>, b: Seq<char>)
    ensures
        !(version_greater_spec(a, b) && version_greater_spec(b, a)),
{
    let pa = version_numbers(a);
    let pb = version_numbers(b);
    if pa != pb && nat_seq_lt(pb, pa) && nat_seq_lt(pa, pb) {
        lemma_nat_seq_lt_transitive(pa, pb, pa);
        lemma_nat_seq_lt_irreflexive(pa);
    }
}

/// "Later than" is transitive.
pub proof fn law_version_greater_transitive(a: Seq<char>, b: Seq<char>, c: Seq<char>)
    requires
        version_greater_spec(a, b),
        version_greater_spec(b, c),
    ensures
        version_greater_spec(a, c),
{
    let pa = version_numbers(a);
    let pb = version_numbers(b);
    let pc = version_numbers(c);
    if pa != pb && pb != pc {
        lemma_nat_seq_lt_transitive(pc, pb, pa);
        if pa == pc {
            lemma_nat_seq_lt_irreflexive(pa);
        }
    }
}

/// A release comes after every pre-release of it: `1.0.0` is later than
/// `1.0.0-beta.N` whatever `N` is.
pub proof fn law_release_after_its_pre_releases(release: Seq<char>, pre: Seq<char>)
    requires
        version_numbers(release) == version_numbers(pre),
        !is_pre_release(release),
        is_pre_release(pre),
    ensures
        version_greater_spec(release, pre),
        !version_greater_spec(pre, release),
{
}

/// A release tag for the running version — the version itself, or it with a
/// leading `v` — is never reported as an update, provided the version does not
/// itself begin with `v`.
pub proof fn law_same_version_is_not_newer(current: Seq<char>)
    requires
        current.len() == 0 || current[0] != 'v',
    ensures
        !is_newer_spec(current, current),
        !is_newer_spec(seq!['v'] + current, current),
{
    if current.len() > 0 {
        assert(trim_start_by(current, CharClass::LetterV) == current);
    }
    let tagged = seq!['v'] + current;
    assert(tagged.drop_first() =~= current);
    assert(trim_start_by(tagged, CharClass::LetterV) == trim_start_by(current, CharClass::LetterV));
    if current.len() > 0 {
        assert(trim_start_by(tagged, CharClass::LetterV) == current);
    }
}

/// A release tag that names an earlier version than the running one is never
/// reported as an update.
pub proof fn law_older_tag_is_not_newer(latest_tag: Seq<char>, current: Seq<char>)
    requires
        version_greater_spec(current, trim_start_by(latest_tag, CharClass::LetterV)),
    ensures
        !is_newer_spec(latest_tag, current),
{
    law_version_greater_asymmetric(current, trim_start_by(latest_tag, CharClass::LetterV));
}

// ---------------------------------------------------------------------------
// Release numbers written out
// ---------------------------------------------------------------------------

/// The release `MAJOR.MINOR.PATCH`, each number in decimal.
pub open spec fn release_text(major: nat, minor: nat, patch: nat) -> Seq<char> {
    decimal(major) + "."@ + decimal(minor) + "."@ + decimal(patch)
}

/// `(a1, b1, c1)` comes after `(a2, b2, c2)`: a larger major number, or the same
/// major and a larger minor number, or both the same and a larger patch number.
pub open spec fn numbers_later(a1: nat, b1: nat, c1: nat, a2: nat, b2: nat, c2: nat) -> bool {
    a1 > a2 || (a1 == a2 && (b1 > b2 || (b1 == b2 && c1 > c2)))
}

proof fn lemma_digit_char(d: nat)
    requires
        d < 10,
    ensures
        digit_char(d) as u32 == 48 + d,
{
    assert(('0' as u32) == 48 && ('1' as u32) == 49 && ('2' as u32) == 50 && ('3' as u32) == 51 && ('4' as u32)
        == 52 && ('5' as u32) == 53 && ('6' as u32) == 54 && ('7' as u32) == 55 && ('8' as u32) == 56 && ('9' as u32)
        == 57);
}

proof fn lemma_decimal_digits(n: nat)
    ensures
        decimal(n).len() > 0,
        all_digits(decimal(n)),
        digits_value(decimal(n)) == n,
    decreases n,
{
    if n < 10 {
        lemma_digit_char(n);
        let d = decimal(n);
        assert(d.drop_last() =~= Seq::<char>::empty());
        assert(d.last() == digit_char(n));
        assert(digits_value(d.drop_last()) == 0);
        assert(digits_value(d) == digits_value(d.drop_last()) * 10 + ((d.last() as u32) - 48) as nat);
    } else {
        lemma_decimal_digits(n / 10);
        lemma_digit_char(n % 10);
        let d = decimal(n);
        let pre = decimal(n / 10);
        assert(d.drop_last() =~= pre);
        assert(d.last() == digit_char(n % 10));
        assert forall|i: int| 0 <= i < d.len() implies is_digit(#[trigger] d[i]) by {
            if i < pre.len() {
                assert(d[i] == pre[i]);
            }
        }
        assert(digits_value(d) == digits_value(d.drop_last()) * 10 + ((d.last() as u32) - 48) as nat);
        assert(digits_value(d) == (n / 10) * 10 + n % 10);
        assert(n == (n / 10) * 10 + n % 10);
    }
}

proof fn lemma_parse_decimal(n: nat)
    requires
        n <= u32_max(),
    ensures
        parse_unsigned(decimal(n), u32_max()) == Some(n),
        forall|i: int| 0 <= i < decimal(n).len() ==> {
            &&& #[trigger] decimal(n)[i] != '.'
            &&& decimal(n)[i] != '-'
            &&& decimal(n)[i] != 'v'
        },
{
    lemma_decimal_digits(n);
    let d = decimal(n);
    assert(('.' as u32) == 46 && ('-' as u32) == 45 && ('v' as u32) == 118 && ('+' as u32) == 43);
    assert(is_digit(d[0]));
    assert(d[0] != '+');
    assert(unsigned_digits(d) == Some(d));
    assert forall|i: int| 0 <= i < d.len() implies d[i] != '.' && d[i] != '-' && d[i] != 'v' by {
        assert(is_digit(d[i]));
    }
}

proof fn lemma_before_char_absent(s: Seq<char>, c: char)
    requires
        forall|i: int| 0 <= i < s.len() ==> #[trigger] s[i] != c,
    ensures
        before_char(s, c) == s,
    decreases s.len(),
{
    if s.len() > 0 {
        assert(s[0] != c);
        assert forall|i: int| 0 <= i < s.drop_first().len() implies #[trigger] s.drop_first()[i] != c by {
            assert(s.drop_first()[i] == s[i + 1]);
        }
        lemma_before_char_absent(s.drop_first(), c);
        assert(seq![s[0]] + s.drop_first() =~= s);
    }
}

proof fn lemma_release_numbers(a: nat, b: nat, c: nat)
    requires
        a <= u32_max(),
        b <= u32_max(),
        c <= u32_max(),
    ensures
        version_numbers(release_text(a, b, c)) == seq![a, b, c],
        !is_pre_release(release_text(a, b, c)),
        release_text(a, b, c).len() > 0,
        release_text(a, b, c)[0] != 'v',
{
    reveal_strlit(".");
    reveal_strlit("-");
    let dot: Seq<char> = seq!['.'];
    assert("."@ =~= dot);
    let (da, db, dc) = (decimal(a), decimal(b), decimal(c));
    lemma_parse_decimal(a);
    lemma_parse_decimal(b);
    lemma_parse_decimal(c);
    lemma_decimal_digits(a);
    let v = release_text(a, b, c);
    assert(v =~= da + dot + (db + dot + dc));
    assert forall|i: int| 0 <= i < v.len() implies #[trigger] v[i] != '-' by {
        if i < da.len() {
            assert(v[i] == da[i]);
        } else if i == da.len() {
        } else if i < da.len() + 1 + db.len() {
            assert(v[i] == db[i - da.len() - 1]);
        } else if i == da.len() + 1 + db.len() {
        } else {
            assert(v[i] == dc[i - da.len() - 2 - db.len()]);
        }
    }
    lemma_before_char_absent(v, '-');
    assert forall|i: int| 0 <= i < da.len() implies #[trigger] da[i] != '.' by {}
    assert forall|i: int| 0 <= i < db.len() implies #[trigger] db[i] != '.' by {}
    assert forall|i: int| 0 <= i < dc.len() implies #[trigger] dc[i] != '.' by {}
    assert(!da.contains('.'));
    assert(!db.contains('.'));
    assert(!dc.contains('.'));
    lemma_split_char_concat(da, db + dot + dc, '.');
    lemma_split_char_concat(db, dc, '.');
    lemma_split_char_single(da, '.');
    lemma_split_char_single(db, '.');
    lemma_split_char_single(dc, '.');
    assert(da + dot + (db + dot + dc) =~= da + seq!['.'] + (db + seq!['.'] + dc));
    let segs = split_char(v, '.');
    assert(segs =~= seq![da, db, dc]);
    assert(segs.drop_last() =~= seq![da, db]);
    assert(seq![da, db].drop_last() =~= seq![da]);
    assert(seq![da].drop_last() =~= Seq::<Seq<char>>::empty());
    assert(seq![da].last() == da);
    assert(parsed_u32s(Seq::<Seq<char>>::empty()) == Seq::<nat>::empty());
    assert(parsed_u32s(seq![da]) =~= seq![a]);
    assert(seq![da, db].last() == db);
    assert(segs.last() == dc);
    assert(parsed_u32s(seq![da, db]) =~= seq![a, b]);
    assert(parsed_u32s(segs) =~= seq![a, b, c]);
    assert(!crate::text::contains(v, "-"@)) by {
        if crate::text::contains(v, "-"@) {
            let i = choose|i: int| #[trigger] crate::text::occurs_at(v, "-"@, i);
            assert(v.subrange(i, i + 1)[0] == v[i]);
        }
    }
    assert(v[0] == da[0]);
    assert(is_digit(da[0]));
    assert(('v' as u32) == 118);
}

/// Releases written `MAJOR.MINOR.PATCH` (numbers that fit a `u32`) compare by
/// their numbers: one is later than another exactly when its major number is
/// larger, or the majors are equal and its minor number is larger, or both are
/// equal and its patch number is larger. The same holds of a release tag
/// (`v` and the release) against the running version: it is newer exactly then.
pub proof fn law_releases_compare_by_numbers(a1: nat, b1: nat, c1: nat, a2: nat, b2: nat, c2: nat)
    requires
        a1 <= u32_max(),
        b1 <= u32_max(),
        c1 <= u32_max(),
        a2 <= u32_max(),
        b2 <= u32_max(),
        c2 <= u32_max(),
    ensures
        version_greater_spec(release_text(a1, b1, c1), release_text(a2, b2, c2)) == numbers_later(
            a1,
            b1,
            c1,
            a2,
            b2,
            c2,
        ),
        is_newer_spec("v"@ + release_text(a1, b1, c1), release_text(a2, b2, c2)) == numbers_later(
            a1,
            b1,
            c1,
            a2,
            b2,
            c2,
        ),
{
    let v1 = release_text(a1, b1, c1);
    let v2 = release_text(a2, b2, c2);
    lemma_release_numbers(a1, b1, c1);
    lemma_release_numbers(a2, b2, c2);
    let p1 = seq![a1, b1, c1];
    let p2 = seq![a2, b2, c2];
    assert(p2.drop_first() =~= seq![b2, c2]);
    assert(p1.drop_first() =~= seq![b1, c1]);
    assert(seq![b2, c2].drop_first() =~= seq![c2]);
    assert(seq![b1, c1].drop_first() =~= seq![c1]);
    assert(seq![c2].drop_first() =~= Seq::<nat>::empty());
    assert(seq![c1].drop_first() =~= Seq::<nat>::empty());
    assert(!nat_seq_lt(Seq::<nat>::empty(), Seq::<nat>::empty()));
    assert(nat_seq_lt(seq![c2], seq![c1]) == (c2 < c1));
    assert(nat_seq_lt(seq![b2, c2], seq![b1, c1]) == (b2 < b1 || (b2 == b1 && c2 < c1)));
    assert(nat_seq_lt(p2, p1) == numbers_later(a1, b1, c1, a2, b2, c2));
    if p1 == p2 {
        assert(a1 == a2 && b1 == b2 && c1 == c2) by {
            assert(p1[0] == p2[0] && p1[1] == p2[1] && p1[2] == p2[2]);
        }
    }
    assert(version_greater_spec(v1, v2) == numbers_later(a1, b1, c1, a2, b2, c2));
    reveal_strlit("v");
    let t = "v"@ + v1;
    assert(t[0] == 'v');
    assert(t.drop_first() =~= v1);
    assert(trim_start_by(v1, CharClass::LetterV) == v1);
    assert(trim_start_by(t, CharClass::LetterV) == v1);
    if v1 == v2 {
        assert(p1 == p2);
    }
}

/// The pre-release `MAJOR.MINOR.PATCH-beta.N`, each number in decimal.
pub open spec fn beta_text(major: nat, minor: nat, patch: nat, beta: nat) -> Seq<char> {
    release_text(major, minor, patch) + "-beta."@ + decimal(beta)
}

proof fn lemma_before_char_concat(x: Seq<char>, y: Seq<char>, c: char)
    requires
        forall|i: int| 0 <= i < x.len() ==> #[trigger] x[i] != c,
        y.len() > 0,
        y[0] == c,
    ensures
        before_char(x + y, c) == x,
    decreases x.len(),
{
    if x.len() == 0 {
        assert(x + y =~= y);
    } else {
        assert((x + y)[0] == x[0]);
        assert((x + y).drop_first() =~= x.drop_first() + y);
        assert forall|i: int| 0 <= i < x.drop_first().len() implies #[trigger] x.drop_first()[i] != c by {
            assert(x.drop_first()[i] == x[i + 1]);
        }
        lemma_before_char_concat(x.drop_first(), y, c);
        assert(seq![x[0]] + x.drop_first() =~= x);
    }
}

proof fn lemma_first_occurrence_is(hay: Seq<char>, needle: Seq<char>, k: int)
    requires
        0 <= k,
        crate::text::occurs_at(hay, needle, k),
        forall|t: int| 0 <= t < k ==> !crate::text::occurs_at(hay, needle, t),
    ensures
        first_occurrence(hay, needle) == Some(k),
{
    lemma_first_occurrence_from(hay, needle, 0);
}

proof fn lemma_no_occurrence(hay: Seq<char>, needle: Seq<char>)
    requires
        needle.len() > 0,
        forall|i: int| 0 <= i < hay.len() ==> #[trigger] hay[i] != needle[0],
    ensures
        first_occurrence(hay, needle) is None,
{
    lemma_first_occurrence_from(hay, needle, 0);
    if first_occurrence(hay, needle) is Some {
        let j = first_occurrence(hay, needle)->0;
        assert(hay.subrange(j, j + needle.len())[0] == hay[j]);
    }
}

proof fn lemma_beta_text(a: nat, b: nat, c: nat, n: nat)
    requires
        a <= u32_max(),
        b <= u32_max(),
        c <= u32_max(),
        n <= u32_max(),
    ensures
        version_numbers(beta_text(a, b, c, n)) == seq![a, b, c],
        is_pre_release(beta_text(a, b, c, n)),
        beta_number(beta_text(a, b, c, n)) == n,
{
    reveal_strlit("-beta.");
    reveal_strlit("-");
    lemma_release_numbers(a, b, c);
    lemma_parse_decimal(n);
    let rel = release_text(a, b, c);
    let marker = "-beta."@;
    let v = beta_text(a, b, c, n);
    let dn = decimal(n);
    assert(forall|i: int| 0 <= i < rel.len() ==> #[trigger] rel[i] != '-') by {
        assert forall|i: int| 0 <= i < rel.len() implies #[trigger] rel[i] != '-' by {
            if rel[i] == '-' {
                assert(crate::text::occurs_at(rel, "-"@, i)) by {
                    assert(rel.subrange(i, i + 1) =~= "-"@);
                }
            }
        }
    }
    assert(v =~= rel + (marker + dn));
    assert((marker + dn)[0] == '-');
    lemma_before_char_concat(rel, marker + dn, '-');
    assert(before_char(v, '-') == rel);
    lemma_before_char_absent(rel, '-');
    assert(version_numbers(v) == version_numbers(rel));
    let k = rel.len() as int;
    assert(crate::text::occurs_at(v, "-"@, k)) by {
        assert(v.subrange(k, k + 1) =~= "-"@);
    }
    assert(crate::text::occurs_at(v, marker, k)) by {
        assert(v.subrange(k, k + 6) =~= marker);
    }
    assert forall|t: int| 0 <= t < k implies !crate::text::occurs_at(v, marker, t) by {
        if crate::text::occurs_at(v, marker, t) {
            assert(v.subrange(t, t + 6)[0] == v[t]);
            assert(v[t] == rel[t]);
        }
    }
    lemma_first_occurrence_is(v, marker, k);
    let rest = v.skip(k + 6);
    assert(rest =~= dn);
    lemma_no_occurrence(rest, marker);
}

/// Pre-releases `MAJOR.MINOR.PATCH-beta.N` compare by their release numbers,
/// then by their beta numbers; a release comes after every pre-release of the
/// same numbers, and before any pre-release of larger numbers.
pub proof fn law_pre_releases_compare(
    a1: nat,
    b1: nat,
    c1: nat,
    n1: nat,
    a2: nat,
    b2: nat,
    c2: nat,
    n2: nat,
)
    requires
        a1 <= u32_max(),
        b1 <= u32_max(),
        c1 <= u32_max(),
        n1 <= u32_max(),
        a2 <= u32_max(),
        b2 <= u32_max(),
        c2 <= u32_max(),
        n2 <= u32_max(),
    ensures
        version_greater_spec(beta_text(a1, b1, c1, n1), beta_text(a2, b2, c2, n2)) == (numbers_later(
            a1,
            b1,
            c1,
            a2,
            b2,
            c2,
        ) || (a1 == a2 && b1 == b2 && c1 == c2 && n1 > n2)),
        version_greater_spec(release_text(a1, b1, c1), beta_text(a2, b2, c2, n2)) == (numbers_later(
            a1,
            b1,
            c1,
            a2,
            b2,
            c2,
        ) || (a1 == a2 && b1 == b2 && c1 == c2)),
        version_greater_spec(beta_text(a1, b1, c1, n1), release_text(a2, b2, c2)) == numbers_later(
            a1,
            b1,
            c1,
            a2,
            b2,
            c2,
        ),
{
    lemma_beta_text(a1, b1, c1, n1);
    lemma_beta_text(a2, b2, c2, n2);
    lemma_release_numbers(a1, b1, c1);
    lemma_release_numbers(a2, b2, c2);
    law_releases_compare_by_numbers(a1, b1, c1, a2, b2, c2);
    let p1 = seq![a1, b1, c1];
    let p2 = seq![a2, b2, c2];
    if p1 == p2 {
        assert(a1 == a2 && b1 == b2 && c1 == c2) by {
            assert(p1[0] == p2[0] && p1[1] == p2[1] && p1[2] == p2[2]);
        }
    }
}

} // verus!
