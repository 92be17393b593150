//! Character-level text utilities shared by the rest of the library, with
//! their specifications over `Seq<char>`.
use vstd::prelude::*;
use vstd::string::*;

verus! {

// ---------------------------------------------------------------------------
// Conversions between `str`/`String` and character vectors
// ---------------------------------------------------------------------------

/// The characters of `s`, in order.
pub fn chars_of(s: &str) -> (v: Vec<char>)
    ensures
        v@ == s@,
{
    let n = s.unicode_len();
    let mut v: Vec<char> = Vec::new();
    let mut i: usize = 0;
    while i < n
        invariant
            i <= n,
            n == s@.len(),
            v@ == s@.subrange(0, i as int),
        decreases n - i,
    {
        v.push(s.get_char(i));
        i = i + 1;
    }
    v
}

/// Collects characters into a `String` (std's `String: FromIterator<&char>`);
/// the string holds exactly the given characters, in order.
#[verifier::external_body]
pub(crate) fn string_of(v: &[char]) -> (s: String)
    ensures
        s@ == v@,
{
    v.iter().collect()
}

/// A fresh `String` holding the characters of `s`.
pub fn owned(s: &str) -> (r: String)
    ensures
        r@ == s@,
{
    let v = chars_of(s);
    string_of(v.as_slice())
}

/// Concatenation of two strings.
pub fn concat2(a: &str, b: &str) -> (r: String)
    ensures
        r@ == a@ + b@,
{
    let mut v = chars_of(a);
    let mut w = chars_of(b);
    v.append(&mut w);
    string_of(v.as_slice())
}

/// Character-wise equality of two strings.
pub fn str_eq(a: &str, b: &str) -> (r: bool)
    ensures
        r == (a@ == b@),
{
    let x = chars_of(a);
    let y = chars_of(b);
    slice_eq(x.as_slice(), y.as_slice())
}

/// Element-wise equality of two character slices.
pub fn slice_eq(x: &[char], y: &[char]) -> (r: bool)
    ensures
        r == (x@ == y@),
{
    if x.len() != y.len() {
        return false;
    }
    let mut i: usize = 0;
    while i < x.len()
        invariant
            x@.len() == y@.len(),
            i <= x@.len(),
            forall|j: int| 0 <= j < i ==> x@[j] == y@[j],
        decreases x.len() - i,
    {
        if x[i] != y[i] {
            return false;
        }
        i = i + 1;
    }
    assert(x@ =~= y@);
    true
}

// ---------------------------------------------------------------------------
// Lexicographic order on character sequences (the order of `String`'s `Ord`,
// which compares UTF-8 bytes; UTF-8 preserves the order of code points).
// ---------------------------------------------------------------------------

/// `a` sorts strictly before `b`.
pub open spec fn seq_lt(a: Seq<char>, b: Seq<char>) -> bool
    decreases a.len(),
{
    if a.len() == 0 {
        b.len() > 0
    } else if b.len() == 0 {
        false
    } else if a[0] != b[0] {
        (a[0] as u32) < (b[0] as u32)
    } else {
        seq_lt(a.drop_first(), b.drop_first())
    }
}

/// No string sorts before itself.
pub proof fn lemma_seq_lt_irreflexive(a: Seq<char>)
    ensures
        !seq_lt(a, a),
    decreases a.len(),
{
    if a.len() > 0 {
        lemma_seq_lt_irreflexive(a.drop_first());
    }
}

/// Distinct characters have distinct code points.
pub proof fn lemma_char_u32_injective(a: char, b: char)
    ensures
        a != b ==> (a as u32) != (b as u32),
{
    vstd::utf8::char_u32_cast(a, a as u32);
    vstd::utf8::char_u32_cast(b, b as u32);
}

/// The string order is transitive.
pub proof fn lemma_seq_lt_transitive(a: Seq<char>, b: Seq<char>, c: Seq<char>)
    requires
        seq_lt(a, b),
        seq_lt(b, c),
    ensures
        seq_lt(a, c),
    decreases a.len(),
{
    if a.len() > 0 && b.len() > 0 && c.len() > 0 {
        if a[0] == b[0] && b[0] == c[0] {
            lemma_seq_lt_transitive(a.drop_first(), b.drop_first(), c.drop_first());
        } else {
            assert((a[0] as u32) <= (b[0] as u32) && (b[0] as u32) <= (c[0] as u32));
            lemma_char_u32_injective(a[0], c[0]);
        }
    }
}

/// Of two different strings one sorts before the other.
pub proof fn lemma_seq_lt_total(a: Seq<char>, b: Seq<char>)
    ensures
        a != b ==> seq_lt(a, b) || seq_lt(b, a),
    decreases a.len(),
{
    if a.len() > 0 && b.len() > 0 {
        if a[0] == b[0] {
            lemma_seq_lt_total(a.drop_first(), b.drop_first());
            if a.drop_first() == b.drop_first() {
                assert(a =~= seq![a[0]] + a.drop_first());
                assert(b =~= seq![b[0]] + b.drop_first());
            }
        } else {
            lemma_char_u32_injective(a[0], b[0]);
        }
    } else if a.len() == 0 && b.len() == 0 {
        assert(a =~= b);
    }
}

/// Two strings do not each sort before the other.
pub proof fn lemma_seq_lt_asymmetric(a: Seq<char>, b: Seq<char>)
    ensures
        !(seq_lt(a, b) && seq_lt(b, a)),
{
    if seq_lt(a, b) && seq_lt(b, a) {
        lemma_seq_lt_transitive(a, b, a);
        lemma_seq_lt_irreflexive(a);
    }
}

/// Strict lexicographic comparison of two character slices.
pub fn chars_lt(a: &[char], b: &[char]) -> (r: bool)
    ensures
        r == seq_lt(a@, b@),
{
    let mut i: usize = 0;
    assert(a@.skip(0) =~= a@);
    assert(b@.skip(0) =~= b@);
    while i < a.len() && i < b.len()
        invariant
            i <= a@.len(),
            i <= b@.len(),
            seq_lt(a@, b@) == seq_lt(a@.skip(i as int), b@.skip(i as int)),
        decreases a.len() - i,
    {
        let ghost sa = a@.skip(i as int);
        let ghost sb = b@.skip(i as int);
        assert(sa[0] == a@[i as int]);
        assert(sb[0] == b@[i as int]);
        if a[i] != b[i] {
            return (a[i] as u32) < (b[i] as u32);
        }
        assert(sa.drop_first() =~= a@.skip(i + 1));
        assert(sb.drop_first() =~= b@.skip(i + 1));
        i = i + 1;
    }
    assert(a@.skip(i as int).len() == a@.len() - i);
    i == a.len() && i < b.len()
}

/// Copy of `v[lo..hi]`.
pub fn sub_chars(v: &[char], lo: usize, hi: usize) -> (r: Vec<char>)
    requires
        lo <= hi <= v@.len(),
    ensures
        r@ == v@.subrange(lo as int, hi as int),
{
    let mut r: Vec<char> = Vec::new();
    let mut i = lo;
    while i < hi
        invariant
            lo <= i <= hi,
            hi <= v@.len(),
            r@ == v@.subrange(lo as int, i as int),
        decreases hi - i,
    {
        r.push(v[i]);
        i = i + 1;
    }
    r
}

// ---------------------------------------------------------------------------
// Character classes and trimming
// ---------------------------------------------------------------------------

/// Unicode `White_Space`, the property behind `char::is_whitespace`.
pub open spec fn is_ws(c: char) -> bool {
    let u = c as u32;
    ||| 0x09 <= u <= 0x0D
    ||| u == 0x20
    ||| u == 0x85
    ||| u == 0xA0
    ||| u == 0x1680
    ||| 0x2000 <= u <= 0x200A
    ||| u == 0x2028
    ||| u == 0x2029
    ||| u == 0x202F
    ||| u == 0x205F
    ||| u == 0x3000
}

/// `char::is_whitespace`.
pub fn is_whitespace(c: char) -> (r: bool)
    ensures
        r == is_ws(c),
{
    let u = c as u32;
    (0x09 <= u && u <= 0x0D) || u == 0x20 || u == 0x85 || u == 0xA0 || u == 0x1680 || (0x2000
        <= u && u <= 0x200A) || u == 0x2028 || u == 0x2029 || u == 0x202F || u == 0x205F || u
        == 0x3000
}

/// The sets of characters that the library trims from strings.
pub enum CharClass {
    /// Unicode white space.
    Whitespace,
    /// Quotes, parentheses and semicolons that surround a URL in a shell command.
    UrlDelimiter,
    /// The letter `v` that prefixes a release tag.
    LetterV,
}

/// `c` belongs to class `k`.
pub open spec fn in_class(k: CharClass, c: char) -> bool {
    match k {
        CharClass::Whitespace => is_ws(c),
        CharClass::UrlDelimiter => c == '\'' || c == '"' || c == '(' || c == ')' || c == ';',
        CharClass::LetterV => c == 'v',
    }
}

/// Whether `c` belongs to class `k`.
pub fn class_contains(k: &CharClass, c: char) -> (r: bool)
    ensures
        r == in_class(*k, c),
{
    match k {
        CharClass::Whitespace => is_whitespace(c),
        CharClass::UrlDelimiter => c == '\'' || c == '"' || c == '(' || c == ')' || c == ';',
        CharClass::LetterV => c == 'v',
    }
}

/// `s` without its leading characters of class `k`.
pub open spec fn trim_start_by(s: Seq<char>, k: CharClass) -> Seq<char>
    decreases s.len(),
{
    if s.len() > 0 && in_class(k, s[0]) {
        trim_start_by(s.drop_first(), k)
    } else {
        s
    }
}

/// `s` without its trailing characters of class `k`.
pub open spec fn trim_end_by(s: Seq<char>, k: CharClass) -> Seq<char>
    decreases s.len(),
{
    if s.len() > 0 && in_class(k, s.last()) {
        trim_end_by(s.drop_last(), k)
    } else {
        s
    }
}

/// `s` without leading and trailing characters of class `k` (`str::trim_matches`).
pub open spec fn trim_by(s: Seq<char>, k: CharClass) -> Seq<char> {
    trim_end_by(trim_start_by(s, k), k)
}

/// `str::trim`.
pub open spec fn trim(s: Seq<char>) -> Seq<char> {
    trim_by(s, CharClass::Whitespace)
}

/// Index of the first character of `v` that is not of class `k` (or its length).
pub fn trim_start_index(v: &[char], k: &CharClass) -> (r: usize)
    ensures
        r <= v@.len(),
        v@.skip(r as int) == trim_start_by(v@, *k),
{
    let mut i: usize = 0;
    assert(v@.skip(0) =~= v@);
    while i < v.len() && class_contains(k, v[i])
        invariant
            i <= v@.len(),
            trim_start_by(v@, *k) == trim_start_by(v@.skip(i as int), *k),
        decreases v.len() - i,
    {
        assert(v@.skip(i as int)[0] == v@[i as int]);
        assert(v@.skip(i as int).drop_first() =~= v@.skip(i + 1));
        i = i + 1;
    }
    if i < v.len() {
        assert(v@.skip(i as int)[0] == v@[i as int]);
    }
    i
}

/// `v` trimmed at both ends of characters of class `k`.
pub fn trim_chars(v: &[char], k: &CharClass) -> (r: Vec<char>)
    ensures
        r@ == trim_by(v@, *k),
{
    let lo = trim_start_index(v, k);
    let mut j: usize = v.len();
    assert(v@.skip(lo as int) =~= v@.subrange(lo as int, j as int));
    while j > lo && class_contains(k, v[j - 1])
        invariant
            lo <= j <= v@.len(),
            trim_end_by(v@.skip(lo as int), *k) == trim_end_by(v@.subrange(lo as int, j as int), *k),
        decreases j,
    {
        assert(v@.subrange(lo as int, j as int).last() == v@[j - 1]);
        assert(v@.subrange(lo as int, j as int).drop_last() =~= v@.subrange(lo as int, j - 1));
        j = j - 1;
    }
    if j > lo {
        assert(v@.subrange(lo as int, j as int).last() == v@[j - 1]);
    }
    sub_chars(v, lo, j)
}

/// `v` without leading characters of class `k`.
pub fn trim_start_chars(v: &[char], k: &CharClass) -> (r: Vec<char>)
    ensures
        r@ == trim_start_by(v@, *k),
{
    let lo = trim_start_index(v, k);
    assert(v@.skip(lo as int) =~= v@.subrange(lo as int, v@.len() as int));
    sub_chars(v, lo, v.len())
}

/// `str::trim`, as a new string.
pub fn trim_str(s: &str) -> (r: String)
    ensures
        r@ == trim(s@),
{
    let v = chars_of(s);
    let t = trim_chars(v.as_slice(), &CharClass::Whitespace);
    string_of(t.as_slice())
}

// ---------------------------------------------------------------------------
// ASCII case folding
// ---------------------------------------------------------------------------

/// Code point of `c` after ASCII lowercasing.
pub open spec fn ascii_lower_code(c: char) -> u32 {
    let u = c as u32;
    if 65 <= u <= 90 {
        (u + 32) as u32
    } else {
        u
    }
}

/// `str::eq_ignore_ascii_case`.
pub open spec fn eq_ignore_ascii_case(a: Seq<char>, b: Seq<char>) -> bool {
    &&& a.len() == b.len()
    &&& forall|i: int| 0 <= i < a.len() ==> ascii_lower_code(#[trigger] a[i]) == ascii_lower_code(
        b[i],
    )
}

/// Equality ignoring ASCII case, on character slices.
pub fn chars_eq_ignore_ascii_case(a: &[char], b: &[char]) -> (r: bool)
    ensures
        r == eq_ignore_ascii_case(a@, b@),
{
    if a.len() != b.len() {
        return false;
    }
    let mut i: usize = 0;
    while i < a.len()
        invariant
            a@.len() == b@.len(),
            i <= a@.len(),
            forall|j: int| 0 <= j < i ==> ascii_lower_code(#[trigger] a@[j]) == ascii_lower_code(b@[j]),
        decreases a.len() - i,
    {
        let x = a[i] as u32;
        let y = b[i] as u32;
        let lx = if 65 <= x && x <= 90 { x + 32 } else { x };
        let ly = if 65 <= y && y <= 90 { y + 32 } else { y };
        if lx != ly {
            return false;
        }
        i = i + 1;
    }
    true
}

/// `str::eq_ignore_ascii_case`.
pub fn str_eq_ignore_ascii_case(a: &str, b: &str) -> (r: bool)
    ensures
        r == eq_ignore_ascii_case(a@, b@),
{
    let x = chars_of(a);
    let y = chars_of(b);
    chars_eq_ignore_ascii_case(x.as_slice(), y.as_slice())
}

// ---------------------------------------------------------------------------
// Prefixes, suffixes and substrings
// ---------------------------------------------------------------------------

/// `s` starts with `p`.
pub open spec fn starts_with(s: Seq<char>, p: Seq<char>) -> bool {
    p.len() <= s.len() && s.subrange(0, p.len() as int) == p
}

/// `s` ends with `p`.
pub open spec fn ends_with(s: Seq<char>, p: Seq<char>) -> bool {
    p.len() <= s.len() && s.subrange(s.len() - p.len(), s.len() as int) == p
}

/// `needle` occurs in `hay` starting at index `i`.
pub open spec fn occurs_at(hay: Seq<char>, needle: Seq<char>, i: int) -> bool {
    0 <= i && i + needle.len() <= hay.len() && hay.subrange(i, i + needle.len()) == needle
}

/// `str::contains` with a string pattern.
pub open spec fn contains(hay: Seq<char>, needle: Seq<char>) -> bool {
    exists|i: int| #[trigger] occurs_at(hay, needle, i)
}

/// Whether `needle` occurs in `hay` at index `i`.
pub fn occurs_at_exec(hay: &[char], needle: &[char], i: usize) -> (r: bool)
    ensures
        r == occurs_at(hay@, needle@, i as int),
{
    if i > hay.len() || needle.len() > hay.len() - i {
        return false;
    }
    let mut j: usize = 0;
    while j < needle.len()
        invariant
            i + needle@.len() <= hay@.len(),
            hay@.len() <= usize::MAX,
            j <= needle@.len(),
            forall|t: int| 0 <= t < j ==> hay@[i + t] == needle@[t],
        decreases needle.len() - j,
    {
        if hay[i + j] != needle[j] {
            assert(hay@.subrange(i as int, i + needle@.len())[j as int] != needle@[j as int]);
            return false;
        }
        j = j + 1;
    }
    assert(hay@.subrange(i as int, i + needle@.len()) =~= needle@);
    true
}

/// Whether `s` starts with `p`.
pub fn chars_starts_with(s: &[char], p: &[char]) -> (r: bool)
    ensures
        r == starts_with(s@, p@),
{
    occurs_at_exec(s, p, 0)
}

/// Whether `s` ends with `p`.
pub fn chars_ends_with(s: &[char], p: &[char]) -> (r: bool)
    ensures
        r == ends_with(s@, p@),
{
    if p.len() > s.len() {
        return false;
    }
    occurs_at_exec(s, p, s.len() - p.len())
}

/// Whether `needle` occurs anywhere in `hay`.
pub fn chars_contains(hay: &[char], needle: &[char]) -> (r: bool)
    ensures
        r == contains(hay@, needle@),
{
    if needle.len() > hay.len() {
        assert forall|i: int| !occurs_at(hay@, needle@, i) by {}
        return false;
    }
    let last = hay.len() - needle.len();
    let mut i: usize = 0;
    while i < last
        invariant
            last == hay@.len() - needle@.len(),
            i <= last,
            forall|t: int| 0 <= t < i ==> !occurs_at(hay@, needle@, t),
        decreases last - i,
    {
        if occurs_at_exec(hay, needle, i) {
            return true;
        }
        i = i + 1;
    }
    if occurs_at_exec(hay, needle, last) {
        return true;
    }
    assert forall|t: int| !occurs_at(hay@, needle@, t) by {}
    false
}

/// `str::contains` with a string pattern.
pub fn str_contains(hay: &str, needle: &str) -> (r: bool)
    ensures
        r == contains(hay@, needle@),
{
    let h = chars_of(hay);
    let n = chars_of(needle);
    chars_contains(h.as_slice(), n.as_slice())
}

/// `str::starts_with` with a string pattern.
pub fn str_starts_with(s: &str, p: &str) -> (r: bool)
    ensures
        r == starts_with(s@, p@),
{
    let a = chars_of(s);
    let b = chars_of(p);
    chars_starts_with(a.as_slice(), b.as_slice())
}

/// `str::ends_with` with a string pattern.
pub fn str_ends_with(s: &str, p: &str) -> (r: bool)
    ensures
        r == ends_with(s@, p@),
{
    let a = chars_of(s);
    let b = chars_of(p);
    chars_ends_with(a.as_slice(), b.as_slice())
}


// ---------------------------------------------------------------------------
// Lines and joining
// ---------------------------------------------------------------------------

/// The views of a sequence of strings.
pub open spec fn string_views(v: Seq<String>) -> Seq<Seq<char>> {
    v.map_values(|x: String| x@)
}

/// The views of a sequence of character vectors.
pub open spec fn char_vec_views(v: Seq<Vec<char>>) -> Seq<Seq<char>> {
    v.map_values(|x: Vec<char>| x@)
}

/// `s` split at every occurrence of `c` (`str::split` with a char pattern):
/// always at least one piece, the last one not followed by `c`.
pub open spec fn split_char(s: Seq<char>, c: char) -> Seq<Seq<char>>
    decreases s.len(),
{
    if s.len() == 0 {
        seq![seq![]]
    } else {
        let pre = split_char(s.drop_last(), c);
        if s.last() == c {
            pre.push(seq![])
        } else {
            pre.update(pre.len() - 1, pre.last().push(s.last()))
        }
    }
}

/// A split has at least one piece.
pub proof fn lemma_split_char_nonempty(s: Seq<char>, c: char)
    ensures
        split_char(s, c).len() >= 1,
    decreases s.len(),
{
    if s.len() > 0 {
        lemma_split_char_nonempty(s.drop_last(), c);
    }
}

/// `s` without one trailing carriage return.
pub open spec fn strip_cr(s: Seq<char>) -> Seq<char> {
    if s.len() > 0 && s.last() == '\r' {
        s.drop_last()
    } else {
        s
    }
}

/// `str::lines`: the pieces between `\n`s, each piece that a `\n` ends losing one
/// trailing `\r`, and no empty last piece after a final `\n`.
pub open spec fn lines(s: Seq<char>) -> Seq<Seq<char>> {
    let parts = split_char(s, '\n');
    let n = parts.len();
    Seq::new((n - 1) as nat, |i: int| strip_cr(parts[i])) + if parts.last().len() > 0 {
        seq![parts.last()]
    } else {
        Seq::<Seq<char>>::empty()
    }
}

/// `str::lines`.
pub fn lines_of(v: &[char]) -> (r: Vec<Vec<char>>)
    ensures
        char_vec_views(r@) == lines(v@),
{
    let mut parts: Vec<Vec<char>> = Vec::new();
    let mut cur: Vec<char> = Vec::new();
    let mut i: usize = 0;
    assert(v@.subrange(0, 0) =~= Seq::<char>::empty());
    assert(char_vec_views(parts@).push(cur@) =~= seq![Seq::<char>::empty()]);
    while i < v.len()
        invariant
            i <= v@.len(),
            split_char(v@.subrange(0, i as int), '\n') == char_vec_views(parts@).push(cur@),
        decreases v.len() - i,
    {
        let ghost pre = v@.subrange(0, i as int);
        assert(v@.subrange(0, i + 1).drop_last() =~= pre);
        assert(v@.subrange(0, i + 1).last() == v@[i as int]);
        if v[i] == '\n' {
            let done = cur;
            parts.push(done);
            cur = Vec::new();
            assert(char_vec_views(parts@).push(cur@) =~= split_char(pre, '\n').push(seq![]));
        } else {
            let ghost old_parts = parts@;
            let ghost old_cur = cur@;
            cur.push(v[i]);
            assert(char_vec_views(parts@).push(cur@) =~= split_char(pre, '\n').update(
                split_char(pre, '\n').len() - 1,
                old_cur.push(v@[i as int]),
            ));
        }
        i = i + 1;
    }
    assert(v@.subrange(0, v@.len() as int) =~= v@);
    let ghost parts_all = split_char(v@, '\n');
    let mut r: Vec<Vec<char>> = Vec::new();
    let mut k: usize = 0;
    while k < parts.len()
        invariant
            k <= parts@.len(),
            parts_all == char_vec_views(parts@).push(cur@),
            char_vec_views(r@) == Seq::new(k as nat, |t: int| strip_cr(parts_all[t])),
        decreases parts.len() - k,
    {
        let p = &parts[k];
        let stripped = if p.len() > 0 && p[p.len() - 1] == '\r' {
            sub_chars(p.as_slice(), 0, p.len() - 1)
        } else {
            sub_chars(p.as_slice(), 0, p.len())
        };
        assert(parts_all[k as int] == p@);
        assert(p@.subrange(0, p@.len() as int) =~= p@);
        proof {
            if p@.len() > 0 {
                assert(p@.subrange(0, p@.len() - 1) =~= p@.drop_last());
            }
        }
        assert(stripped@ == strip_cr(parts_all[k as int]));
        let ghost old_r = char_vec_views(r@);
        r.push(stripped);
        assert(char_vec_views(r@) =~= old_r.push(strip_cr(parts_all[k as int])));
        assert(char_vec_views(r@) =~= Seq::new((k + 1) as nat, |t: int| strip_cr(parts_all[t])));
        k = k + 1;
    }
    let ghost body = char_vec_views(r@);
    if cur.len() > 0 {
        r.push(cur);
        assert(char_vec_views(r@) =~= body + seq![parts_all.last()]);
    } else {
        assert(char_vec_views(r@) =~= body + Seq::<Seq<char>>::empty());
    }
    r
}

/// `[S]::join`: the items with `sep` between consecutive ones.
pub open spec fn join(items: Seq<Seq<char>>, sep: Seq<char>) -> Seq<char>
    decreases items.len(),
{
    if items.len() == 0 {
        seq![]
    } else if items.len() == 1 {
        items[0]
    } else {
        join(items.drop_last(), sep) + sep + items.last()
    }
}

/// `[Vec<char>]::join`.
pub fn join_chars(items: &Vec<Vec<char>>, sep: &[char]) -> (r: Vec<char>)
    ensures
        r@ == join(char_vec_views(items@), sep@),
{
    let mut r: Vec<char> = Vec::new();
    let mut i: usize = 0;
    while i < items.len()
        invariant
            i <= items@.len(),
            r@ == join(char_vec_views(items@).take(i as int), sep@),
        decreases items.len() - i,
    {
        let ghost before = r@;
        assert(sep@.subrange(0, sep@.len() as int) =~= sep@);
        assert(items@[i as int]@.subrange(0, items@[i as int]@.len() as int) =~= items@[i as int]@);
        if i > 0 {
            let mut s = sub_chars(sep, 0, sep.len());
            r.append(&mut s);
        }
        let mut x = sub_chars(items[i].as_slice(), 0, items[i].len());
        r.append(&mut x);
        let ghost t = char_vec_views(items@).take(i + 1);
        assert(t.drop_last() =~= char_vec_views(items@).take(i as int));
        assert(t.last() == items@[i as int]@);
        if i == 0 {
            assert(r@ =~= t[0]);
        } else {
            assert(r@ =~= join(t.drop_last(), sep@) + sep@ + t.last());
        }
        i = i + 1;
    }
    assert(char_vec_views(items@).take(items@.len() as int) =~= char_vec_views(items@));
    r
}

/// `items[..n].join(sep)`.
pub fn join_prefix(items: &[String], n: usize, sep: &str) -> (r: String)
    requires
        n <= items@.len(),
    ensures
        r@ == join(string_views(items@).take(n as int), sep@),
{
    let mut vs: Vec<Vec<char>> = Vec::new();
    let mut i: usize = 0;
    while i < n
        invariant
            i <= n,
            n <= items@.len(),
            char_vec_views(vs@) == string_views(items@).take(i as int),
        decreases n - i,
    {
        let cv = chars_of(items[i].as_str());
        let ghost old_vs = char_vec_views(vs@);
        vs.push(cv);
        assert(char_vec_views(vs@) =~= old_vs.push(items@[i as int]@));
        assert(char_vec_views(vs@) =~= string_views(items@).take(i + 1));
        i = i + 1;
    }
    let sepv = chars_of(sep);
    let j = join_chars(&vs, sepv.as_slice());
    string_of(j.as_slice())
}

/// `[String]::join`.
pub fn join_strings(items: &Vec<String>, sep: &str) -> (r: String)
    ensures
        r@ == join(string_views(items@), sep@),
{
    let mut vs: Vec<Vec<char>> = Vec::new();
    let mut i: usize = 0;
    while i < items.len()
        invariant
            i <= items@.len(),
            char_vec_views(vs@) == string_views(items@).take(i as int),
        decreases items.len() - i,
    {
        let cv = chars_of(items[i].as_str());
        let ghost old_vs = char_vec_views(vs@);
        vs.push(cv);
        assert(char_vec_views(vs@) =~= old_vs.push(items@[i as int]@));
        assert(char_vec_views(vs@) =~= string_views(items@).take(i + 1));
        i = i + 1;
    }
    assert(string_views(items@).take(items@.len() as int) =~= string_views(items@));
    let sepv = chars_of(sep);
    let j = join_chars(&vs, sepv.as_slice());
    string_of(j.as_slice())
}

// ---------------------------------------------------------------------------
// Case mapping and decimal formatting
// ---------------------------------------------------------------------------

/// Name for what `str::to_lowercase` returns: the full Unicode lowercase mapping of
/// the characters of its argument (it does not depend on a locale).
pub uninterp spec fn unicode_lowercase(s: Seq<char>) -> Seq<char>;

/// `str::to_lowercase`; its result is named by [`unicode_lowercase`].
#[verifier::external_body]
pub(crate) fn to_lowercase(s: &str) -> (r: String)
    ensures
        r@ == unicode_lowercase(s@),
{
    s.to_lowercase()
}

/// The ASCII digit for `d`.
pub open spec fn digit_char(d: nat) -> char {
    if d == 0 {
        '0'
    } else if d == 1 {
        '1'
    } else if d == 2 {
        '2'
    } else if d == 3 {
        '3'
    } else if d == 4 {
        '4'
    } else if d == 5 {
        '5'
    } else if d == 6 {
        '6'
    } else if d == 7 {
        '7'
    } else if d == 8 {
        '8'
    } else {
        '9'
    }
}

/// Decimal notation of `n`, as `Display` for integers writes it.
pub open spec fn decimal(n: nat) -> Seq<char>
    decreases n,
{
    if n < 10 {
        seq![digit_char(n)]
    } else {
        decimal(n / 10) + seq![digit_char(n % 10)]
    }
}

fn digit_of(d: u64) -> (c: char)
    requires
        d < 10,
    ensures
        c == digit_char(d as nat),
{
    if d == 0 {
        '0'
    } else if d == 1 {
        '1'
    } else if d == 2 {
        '2'
    } else if d == 3 {
        '3'
    } else if d == 4 {
        '4'
    } else if d == 5 {
        '5'
    } else if d == 6 {
        '6'
    } else if d == 7 {
        '7'
    } else if d == 8 {
        '8'
    } else {
        '9'
    }
}

/// Decimal digits of `n`.
pub fn decimal_chars(n: u64) -> (r: Vec<char>)
    ensures
        r@ == decimal(n as nat),
    decreases n,
{
    if n < 10 {
        let mut v: Vec<char> = Vec::new();
        v.push(digit_of(n));
        assert(v@ =~= seq![digit_char(n as nat)]);
        v
    } else {
        let mut v = decimal_chars(n / 10);
        v.push(digit_of(n % 10));
        v
    }
}

/// `n.to_string()`.
pub fn decimal_string(n: u64) -> (r: String)
    ensures
        r@ == decimal(n as nat),
{
    let v = decimal_chars(n);
    string_of(v.as_slice())
}


// ---------------------------------------------------------------------------
// Parsing unsigned integers (`str::parse` for `u16`/`u32`)
// ---------------------------------------------------------------------------

/// An ASCII digit.
pub open spec fn is_digit(c: char) -> bool {
    48 <= (c as u32) <= 57
}

/// Every character is an ASCII digit.
pub open spec fn all_digits(s: Seq<char>) -> bool {
    forall|i: int| 0 <= i < s.len() ==> is_digit(#[trigger] s[i])
}

/// The number that a sequence of ASCII digits writes in decimal.
pub open spec fn digits_value(s: Seq<char>) -> nat
    decreases s.len(),
{
    if s.len() == 0 {
        0
    } else {
        digits_value(s.drop_last()) * 10 + ((s.last() as u32) - 48) as nat
    }
}

/// The digits of an unsigned integer literal as `from_str` for unsigned types
/// accepts it: an optional `+` followed by at least one ASCII digit.
pub open spec fn unsigned_digits(s: Seq<char>) -> Option<Seq<char>> {
    let d = if s.len() > 0 && s[0] == '+' {
        s.drop_first()
    } else {
        s
    };
    if d.len() > 0 && all_digits(d) {
        Some(d)
    } else {
        None
    }
}

/// `str::parse::<uN>()`, for the type whose largest value is `max`.
pub open spec fn parse_unsigned(s: Seq<char>, max: nat) -> Option<nat> {
    match unsigned_digits(s) {
        Some(d) => if digits_value(d) <= max {
            Some(digits_value(d))
        } else {
            None
        },
        None => None,
    }
}

proof fn lemma_digits_value_prefix(s: Seq<char>, k: int)
    requires
        all_digits(s),
        0 <= k <= s.len(),
    ensures
        digits_value(s.subrange(0, k)) <= digits_value(s),
    decreases s.len() - k,
{
    if k < s.len() {
        lemma_digits_value_prefix(s, k + 1);
        assert(s.subrange(0, k + 1).drop_last() =~= s.subrange(0, k));
        assert(is_digit(s[k]));
    } else {
        assert(s.subrange(0, k) =~= s);
    }
}

/// Parses `v` as an unsigned decimal no larger than `max`.
pub fn parse_unsigned_chars(v: &[char], max: u64) -> (r: Option<u64>)
    ensures
        match r {
            Some(n) => parse_unsigned(v@, max as nat) == Some(n as nat),
            None => parse_unsigned(v@, max as nat) is None,
        },
{
    let start: usize = if v.len() > 0 && v[0] == '+' { 1 } else { 0 };
    let ghost d = if v@.len() > 0 && v@[0] == '+' { v@.drop_first() } else { v@ };
    assert(d =~= v@.subrange(start as int, v@.len() as int));
    if start >= v.len() {
        return None;
    }
    let mut i = start;
    let mut value: u64 = 0;
    while i < v.len()
        invariant
            start <= i <= v@.len(),
            d == v@.subrange(start as int, v@.len() as int),
            d == (if v@.len() > 0 && v@[0] == '+' { v@.drop_first() } else { v@ }),
            value <= max,
            all_digits(v@.subrange(start as int, i as int)),
            value as nat == digits_value(v@.subrange(start as int, i as int)),
        decreases v.len() - i,
    {
        let u = v[i] as u32;
        let ghost pre = v@.subrange(start as int, i as int);
        let ghost next = v@.subrange(start as int, i + 1);
        assert(next.drop_last() =~= pre);
        assert(next.last() == v@[i as int]);
        if !(48 <= u && u <= 57) {
            assert(d[i - start] == v@[i as int]);
            assert(!all_digits(d));
            return None;
        }
        let dig = (u - 48) as u64;
        if dig > max || value > (max - dig) / 10 {
            proof {
                assert(value * 10 + dig > max) by (nonlinear_arith)
                    requires
                        dig > max || value > (max - dig) / 10,
                        dig <= max ==> (max - dig) / 10 * 10 + 10 > max - dig,
                ;
                assert(all_digits(next));
                if all_digits(d) {
                    lemma_digits_value_prefix(d, (i + 1 - start) as int);
                    assert(d.subrange(0, (i + 1 - start) as int) =~= next);
                }
            }
            return None;
        }
        proof {
            assert(value * 10 + dig <= max) by (nonlinear_arith)
                requires
                    value <= (max - dig) / 10,
                    dig <= max,
            ;
        }
        value = value * 10 + dig;
        i = i + 1;
    }
    assert(v@.subrange(start as int, v@.len() as int) == d);
    Some(value)
}


// ---------------------------------------------------------------------------
// Searching
// ---------------------------------------------------------------------------

/// Index of the first occurrence of `needle` in `hay` at or after `i`.
pub open spec fn first_occurrence_from(hay: Seq<char>, needle: Seq<char>, i: int) -> Option<int>
    decreases hay.len() + 1 - i,
{
    if i < 0 || i + needle.len() > hay.len() {
        None
    } else if occurs_at(hay, needle, i) {
        Some(i)
    } else {
        first_occurrence_from(hay, needle, i + 1)
    }
}

/// Index of the first occurrence of `needle` in `hay` (`str::find`).
pub open spec fn first_occurrence(hay: Seq<char>, needle: Seq<char>) -> Option<int> {
    first_occurrence_from(hay, needle, 0)
}

/// A first occurrence found from `i` on is a real one, at or after `i`.
pub proof fn lemma_first_occurrence_from(hay: Seq<char>, needle: Seq<char>, i: int)
    requires
        0 <= i,
    ensures
        first_occurrence_from(hay, needle, i) matches Some(k) ==> i <= k && occurs_at(hay, needle, k)
            && forall|t: int| i <= t < k ==> !occurs_at(hay, needle, t),
        first_occurrence_from(hay, needle, i) is None ==> forall|t: int|
            i <= t ==> !occurs_at(hay, needle, t),
    decreases hay.len() + 1 - i,
{
    if i + needle.len() <= hay.len() && !occurs_at(hay, needle, i) {
        lemma_first_occurrence_from(hay, needle, i + 1);
    }
}

/// `str::find`.
pub fn find_chars(hay: &[char], needle: &[char]) -> (r: Option<usize>)
    ensures
        match r {
            Some(k) => first_occurrence(hay@, needle@) == Some(k as int),
            None => first_occurrence(hay@, needle@) is None,
        },
{
    if needle.len() > hay.len() {
        return None;
    }
    let last = hay.len() - needle.len();
    let mut i: usize = 0;
    while i < last
        invariant
            last == hay@.len() - needle@.len(),
            i <= last,
            first_occurrence(hay@, needle@) == first_occurrence_from(hay@, needle@, i as int),
        decreases last - i,
    {
        if occurs_at_exec(hay, needle, i) {
            return Some(i);
        }
        i = i + 1;
    }
    if occurs_at_exec(hay, needle, last) {
        return Some(last);
    }
    assert(first_occurrence_from(hay@, needle@, last + 1) is None);
    None
}

/// The text before the first `c` (all of `s` when there is none):
/// `s.split(c).next()`.
pub open spec fn before_char(s: Seq<char>, c: char) -> Seq<char>
    decreases s.len(),
{
    if s.len() == 0 {
        s
    } else if s[0] == c {
        seq![]
    } else {
        seq![s[0]] + before_char(s.drop_first(), c)
    }
}

/// `s.split(c).next()`.
pub fn before_char_chars(s: &[char], c: char) -> (r: Vec<char>)
    ensures
        r@ == before_char(s@, c),
{
    let mut i: usize = 0;
    assert(s@.skip(0) =~= s@);
    while i < s.len() && s[i] != c
        invariant
            i <= s@.len(),
            before_char(s@, c) == s@.subrange(0, i as int) + before_char(s@.skip(i as int), c),
        decreases s.len() - i,
    {
        assert(s@.skip(i as int)[0] == s@[i as int]);
        assert(s@.skip(i as int).drop_first() =~= s@.skip(i + 1));
        assert(s@.subrange(0, i + 1) =~= s@.subrange(0, i as int) + seq![s@[i as int]]);
        i = i + 1;
    }
    if i < s.len() {
        assert(s@.skip(i as int)[0] == s@[i as int]);
    }
    assert(s@.subrange(0, i as int) + before_char(s@.skip(i as int), c) =~= s@.subrange(0, i as int));
    sub_chars(s, 0, i)
}


/// `str::split` with a char pattern, as character vectors.
pub fn split_char_chars(v: &[char], c: char) -> (r: Vec<Vec<char>>)
    ensures
        char_vec_views(r@) == split_char(v@, c),
{
    let mut parts: Vec<Vec<char>> = Vec::new();
    let mut cur: Vec<char> = Vec::new();
    let mut i: usize = 0;
    assert(v@.subrange(0, 0) =~= Seq::<char>::empty());
    assert(char_vec_views(parts@).push(cur@) =~= seq![Seq::<char>::empty()]);
    while i < v.len()
        invariant
            i <= v@.len(),
            split_char(v@.subrange(0, i as int), c) == char_vec_views(parts@).push(cur@),
        decreases v.len() - i,
    {
        let ghost pre = v@.subrange(0, i as int);
        assert(v@.subrange(0, i + 1).drop_last() =~= pre);
        assert(v@.subrange(0, i + 1).last() == v@[i as int]);
        if v[i] == c {
            let done = cur;
            parts.push(done);
            cur = Vec::new();
            assert(char_vec_views(parts@).push(cur@) =~= split_char(pre, c).push(seq![]));
        } else {
            let ghost old_cur = cur@;
            cur.push(v[i]);
            assert(char_vec_views(parts@).push(cur@) =~= split_char(pre, c).update(
                split_char(pre, c).len() - 1,
                old_cur.push(v@[i as int]),
            ));
        }
        i = i + 1;
    }
    assert(v@.subrange(0, v@.len() as int) =~= v@);
    let ghost body = char_vec_views(parts@);
    parts.push(cur);
    assert(char_vec_views(parts@) =~= body.push(split_char(v@, c).last()));
    parts
}

// ---------------------------------------------------------------------------
// Facts about splitting, joining and trimming
// ---------------------------------------------------------------------------

/// A string without the separator is a single piece.
pub proof fn lemma_split_char_single(s: Seq<char>, c: char)
    requires
        !s.contains(c),
    ensures
        split_char(s, c) == seq![s],
    decreases s.len(),
{
    if s.len() > 0 {
        assert(!s.drop_last().contains(c)) by {
            if s.drop_last().contains(c) {
                let i = choose|i: int| 0 <= i < s.drop_last().len() && s.drop_last()[i] == c;
                assert(s[i] == c);
            }
        }
        lemma_split_char_single(s.drop_last(), c);
        assert(s.last() != c) by {
            assert(s[s.len() - 1] == s.last());
        }
        assert(s.drop_last().push(s.last()) =~= s);
    } else {
        assert(s =~= seq![]);
    }
}

/// Splitting at a separator between `a` and `b` splits each side on its own.
pub proof fn lemma_split_char_concat(a: Seq<char>, b: Seq<char>, c: char)
    ensures
        split_char(a + seq![c] + b, c) == split_char(a, c) + split_char(b, c),
    decreases b.len(),
{
    let s = a + seq![c] + b;
    if b.len() == 0 {
        assert(s.drop_last() =~= a);
        assert(s.last() == c);
        assert(split_char(b, c) == seq![Seq::<char>::empty()]) by {
            assert(b =~= Seq::<char>::empty());
        }
        assert(split_char(a, c).push(seq![]) =~= split_char(a, c) + seq![Seq::<char>::empty()]);
    } else {
        let b1 = b.drop_last();
        assert(s.drop_last() =~= a + seq![c] + b1);
        assert(s.last() == b.last());
        lemma_split_char_concat(a, b1, c);
        lemma_split_char_nonempty(b1, c);
        lemma_split_char_nonempty(a, c);
        let pa = split_char(a, c);
        let pb = split_char(b1, c);
        if b.last() == c {
            assert((pa + pb).push(seq![]) =~= pa + pb.push(seq![]));
        } else {
            let pre = pa + pb;
            assert(pre.update(pre.len() - 1, pre.last().push(b.last())) =~= pa + pb.update(
                pb.len() - 1,
                pb.last().push(b.last()),
            ));
        }
    }
}

/// No piece of a split holds the separator.
pub proof fn lemma_split_char_pieces(s: Seq<char>, c: char, i: int)
    requires
        0 <= i < split_char(s, c).len(),
    ensures
        !split_char(s, c)[i].contains(c),
    decreases s.len(),
{
    if s.len() > 0 {
        let pre = split_char(s.drop_last(), c);
        lemma_split_char_nonempty(s.drop_last(), c);
        if s.last() == c {
            if i < pre.len() {
                lemma_split_char_pieces(s.drop_last(), c, i);
            }
        } else {
            if i < pre.len() - 1 {
                lemma_split_char_pieces(s.drop_last(), c, i);
            } else {
                lemma_split_char_pieces(s.drop_last(), c, pre.len() - 1);
                let p = pre.last().push(s.last());
                assert(!p.contains(c)) by {
                    if p.contains(c) {
                        let j = choose|j: int| 0 <= j < p.len() && p[j] == c;
                        if j < pre.last().len() {
                            assert(pre.last()[j] == c);
                        }
                    }
                }
            }
        }
    }
}

/// Joining two non-empty runs of items is joining each, with the separator between.
pub proof fn lemma_join_append(a: Seq<Seq<char>>, b: Seq<Seq<char>>, sep: Seq<char>)
    requires
        a.len() > 0,
        b.len() > 0,
    ensures
        join(a + b, sep) == join(a, sep) + sep + join(b, sep),
    decreases b.len(),
{
    if b.len() == 1 {
        assert((a + b).drop_last() =~= a);
        assert((a + b).last() == b[0]);
    } else {
        let b1 = b.drop_last();
        assert((a + b).drop_last() =~= a + b1);
        assert((a + b).last() == b.last());
        lemma_join_append(a, b1, sep);
        assert(join(a, sep) + sep + join(b1, sep) + sep + b.last() =~= join(a, sep) + sep + (join(
            b1,
            sep,
        ) + sep + b.last()));
    }
}

/// A piece `x` between two line feeds is a line of the text (less one trailing
/// carriage return).
pub proof fn lemma_lines_inner(a: Seq<char>, x: Seq<char>, b: Seq<char>)
    requires
        !x.contains('\n'),
    ensures
        lines(a + seq!['\n'] + x + seq!['\n'] + b).contains(strip_cr(x)),
{
    let s = a + seq!['\n'] + x + seq!['\n'] + b;
    assert(s =~= a + seq!['\n'] + (x + seq!['\n'] + b));
    lemma_split_char_concat(a, x + seq!['\n'] + b, '\n');
    lemma_split_char_concat(x, b, '\n');
    lemma_split_char_single(x, '\n');
    lemma_split_char_nonempty(b, '\n');
    let pa = split_char(a, '\n');
    let parts = split_char(s, '\n');
    assert(parts =~= pa + seq![x] + split_char(b, '\n'));
    let i = pa.len() as int;
    assert(parts[i] == x);
    assert(i < parts.len() - 1);
    assert(lines(s)[i] == strip_cr(x));
}

/// A non-empty last piece `x` after a line feed is the last line of the text.
pub proof fn lemma_lines_last(a: Seq<char>, x: Seq<char>)
    requires
        !x.contains('\n'),
        x.len() > 0,
    ensures
        lines(a + seq!['\n'] + x).contains(x),
{
    let s = a + seq!['\n'] + x;
    lemma_split_char_concat(a, x, '\n');
    lemma_split_char_single(x, '\n');
    let pa = split_char(a, '\n');
    let parts = split_char(s, '\n');
    assert(parts =~= pa.push(x));
    assert(parts.last() == x);
    let n = parts.len();
    assert(lines(s)[n - 1] == x);
}

/// `trim_start_by` leaves a suffix that does not start with a class character.
pub proof fn lemma_trim_start_shape(s: Seq<char>, k: CharClass)
    ensures
        trim_start_by(s, k).len() <= s.len(),
        trim_start_by(s, k) == s.subrange(s.len() - trim_start_by(s, k).len(), s.len() as int),
        trim_start_by(s, k).len() > 0 ==> !in_class(k, trim_start_by(s, k)[0]),
    decreases s.len(),
{
    if s.len() > 0 && in_class(k, s[0]) {
        lemma_trim_start_shape(s.drop_first(), k);
        let r = trim_start_by(s.drop_first(), k);
        assert(s.drop_first().subrange(s.drop_first().len() - r.len(), s.drop_first().len() as int)
            =~= s.subrange(s.len() - r.len(), s.len() as int));
    } else {
        assert(s.subrange(0, s.len() as int) =~= s);
    }
}

/// `trim_end_by` leaves a prefix that does not end with a class character.
pub proof fn lemma_trim_end_shape(s: Seq<char>, k: CharClass)
    ensures
        trim_end_by(s, k).len() <= s.len(),
        trim_end_by(s, k) == s.subrange(0, trim_end_by(s, k).len() as int),
        trim_end_by(s, k).len() > 0 ==> !in_class(k, trim_end_by(s, k).last()),
    decreases s.len(),
{
    if s.len() > 0 && in_class(k, s.last()) {
        lemma_trim_end_shape(s.drop_last(), k);
        let r = trim_end_by(s.drop_last(), k);
        assert(s.drop_last().subrange(0, r.len() as int) =~= s.subrange(0, r.len() as int));
    } else {
        assert(s.subrange(0, s.len() as int) =~= s);
    }
}

/// A trimmed string: a piece of the input that neither starts nor ends with
/// white space, and that trimming again leaves as it is.
pub proof fn lemma_trim_shape(s: Seq<char>)
    ensures
        trim(s).len() > 0 ==> !is_ws(trim(s)[0]) && !is_ws(trim(s).last()),
        exists|i: int| 0 <= i <= s.len() - trim(s).len() && trim(s) == #[trigger] s.subrange(i, i + trim(s).len()),
        trim(trim(s)) == trim(s),
{
    let k = CharClass::Whitespace;
    let u = trim_start_by(s, k);
    let t = trim_end_by(u, k);
    lemma_trim_start_shape(s, k);
    lemma_trim_end_shape(u, k);
    let i = s.len() - u.len();
    assert(t =~= s.subrange(i, i + t.len()));
    if t.len() > 0 {
        assert(t[0] == u[0]);
    }
    assert(trim_start_by(t, k) == t);
    assert(trim_end_by(t, k) == t);
}

/// Trimming a string without line feeds leaves none.
pub proof fn lemma_trim_no_newline(s: Seq<char>)
    requires
        !s.contains('\n'),
    ensures
        !trim(s).contains('\n'),
{
    lemma_trim_shape(s);
    let t = trim(s);
    let i = choose|i: int| 0 <= i <= s.len() - t.len() && t == #[trigger] s.subrange(i, i + t.len());
    if t.contains('\n') {
        let j = choose|j: int| 0 <= j < t.len() && t[j] == '\n';
        assert(s[i + j] == '\n');
    }
}

/// Trimming the start of `p + q`, where `p` is not all white space, trims `p` alone.
pub proof fn lemma_trim_start_concat(p: Seq<char>, q: Seq<char>)
    requires
        trim_start_by(p, CharClass::Whitespace).len() > 0,
    ensures
        trim_start_by(p + q, CharClass::Whitespace) == trim_start_by(p, CharClass::Whitespace) + q,
    decreases p.len(),
{
    let k = CharClass::Whitespace;
    assert(p.len() > 0);
    assert((p + q)[0] == p[0]);
    if in_class(k, p[0]) {
        assert((p + q).drop_first() =~= p.drop_first() + q);
        lemma_trim_start_concat(p.drop_first(), q);
    }
}

/// Trimming the start of `p + q`, where `p` is all white space, trims `q` alone.
pub proof fn lemma_trim_start_blank_prefix(p: Seq<char>, q: Seq<char>)
    requires
        trim_start_by(p, CharClass::Whitespace).len() == 0,
    ensures
        trim_start_by(p + q, CharClass::Whitespace) == trim_start_by(q, CharClass::Whitespace),
    decreases p.len(),
{
    let k = CharClass::Whitespace;
    if p.len() == 0 {
        assert(p + q =~= q);
    } else {
        assert(in_class(k, p[0]));
        assert((p + q)[0] == p[0]);
        assert((p + q).drop_first() =~= p.drop_first() + q);
        lemma_trim_start_blank_prefix(p.drop_first(), q);
    }
}

/// Trimming the end of `u + q`: when `q` has a character that is not white
/// space, `u` stays whole and `q` is trimmed (to something non-empty);
/// otherwise `q` goes entirely and `u` is trimmed.
pub proof fn lemma_trim_end_concat(u: Seq<char>, q: Seq<char>)
    ensures
        (exists|j: int| 0 <= j < q.len() && !is_ws(#[trigger] q[j])) ==> trim_end_by(u + q, CharClass::Whitespace)
            == u + trim_end_by(q, CharClass::Whitespace) && trim_end_by(q, CharClass::Whitespace).len() > 0,
        !(exists|j: int| 0 <= j < q.len() && !is_ws(#[trigger] q[j])) ==> trim_end_by(u + q, CharClass::Whitespace)
            == trim_end_by(u, CharClass::Whitespace),
    decreases q.len(),
{
    let k = CharClass::Whitespace;
    if q.len() == 0 {
        assert(u + q =~= u);
    } else {
        assert((u + q).last() == q.last());
        assert((u + q).drop_last() =~= u + q.drop_last());
        lemma_trim_end_concat(u, q.drop_last());
        let q0 = q.drop_last();
        if in_class(k, q.last()) {
            if exists|j: int| 0 <= j < q.len() && !is_ws(#[trigger] q[j]) {
                let j = choose|j: int| 0 <= j < q.len() && !is_ws(#[trigger] q[j]);
                assert(j < q.len() - 1);
                assert(q0[j] == q[j]);
            }
            if exists|j: int| 0 <= j < q0.len() && !is_ws(#[trigger] q0[j]) {
                let j = choose|j: int| 0 <= j < q0.len() && !is_ws(#[trigger] q0[j]);
                assert(q[j] == q0[j]);
            }
        } else {
            assert(!is_ws(q[q.len() - 1]));
        }
    }
}

/// A white-space character at the end changes nothing once trimmed.
pub proof fn lemma_trim_drop_trailing_ws(y: Seq<char>, w: char)
    requires
        is_ws(w),
    ensures
        trim(y.push(w)) == trim(y),
{
    let k = CharClass::Whitespace;
    let ts = trim_start_by(y, k);
    assert(y.push(w) =~= y + seq![w]);
    if ts.len() > 0 {
        lemma_trim_start_concat(y, seq![w]);
        assert(ts + seq![w] =~= ts.push(w));
        assert(ts.push(w).drop_last() =~= ts);
    } else {
        lemma_trim_start_blank_prefix(y, seq![w]);
        assert(seq![w].drop_first() =~= Seq::<char>::empty());
        assert(trim_start_by(seq![w], k) == trim_start_by(Seq::<char>::empty(), k));
    }
}

/// Dropping a final carriage return changes nothing once trimmed.
pub proof fn lemma_trim_strip_cr(x: Seq<char>)
    ensures
        trim(strip_cr(x)) == trim(x),
{
    if x.len() > 0 && x.last() == '\r' {
        assert(is_ws('\r'));
        lemma_trim_drop_trailing_ws(x.drop_last(), '\r');
        assert(x.drop_last().push('\r') =~= x);
    }
}

// ---------------------------------------------------------------------------
// Words (`str::split_whitespace`)
// ---------------------------------------------------------------------------

/// `s` split at every white-space character: always at least one piece.
pub open spec fn split_ws(s: Seq<char>) -> Seq<Seq<char>>
    decreases s.len(),
{
    if s.len() == 0 {
        seq![seq![]]
    } else {
        let pre = split_ws(s.drop_last());
        if is_ws(s.last()) {
            pre.push(seq![])
        } else {
            pre.update(pre.len() - 1, pre.last().push(s.last()))
        }
    }
}

/// `str::split_whitespace`: the non-empty runs of characters between white space.
pub open spec fn words(s: Seq<char>) -> Seq<Seq<char>> {
    split_ws(s).filter(non_empty())
}

/// Holds of the non-empty strings.
pub open spec fn non_empty() -> spec_fn(Seq<char>) -> bool {
    |w: Seq<char>| w.len() > 0
}

/// `str::split_whitespace`.
pub fn words_of(v: &[char]) -> (r: Vec<Vec<char>>)
    ensures
        char_vec_views(r@) == words(v@),
{
    proof {
        reveal(Seq::filter);
    }
    let mut done: Vec<Vec<char>> = Vec::new();
    let mut cur: Vec<char> = Vec::new();
    let ghost mut parts: Seq<Seq<char>> = Seq::empty();
    let mut i: usize = 0;
    assert(v@.subrange(0, 0) =~= Seq::<char>::empty());
    assert(parts.push(cur@) =~= seq![Seq::<char>::empty()]);
    while i < v.len()
        invariant
            i <= v@.len(),
            split_ws(v@.subrange(0, i as int)) == parts.push(cur@),
            char_vec_views(done@) == parts.filter(non_empty()),
        decreases v.len() - i,
    {
        let ghost pre = v@.subrange(0, i as int);
        assert(v@.subrange(0, i + 1).drop_last() =~= pre);
        assert(v@.subrange(0, i + 1).last() == v@[i as int]);
        if is_whitespace(v[i]) {
            let ghost old_parts = parts;
            proof {
                reveal(Seq::filter);
                parts = parts.push(cur@);
                assert(parts.drop_last() =~= old_parts);
                assert(non_empty()(parts.last()) == (cur@.len() > 0));
                assert(parts.filter(non_empty()) == if cur@.len() > 0 {
                    old_parts.filter(non_empty()).push(cur@)
                } else {
                    old_parts.filter(non_empty())
                });
            }
            if cur.len() > 0 {
                let w = cur;
                let ghost before = char_vec_views(done@);
                done.push(w);
                assert(char_vec_views(done@) =~= before.push(parts.last()));
            }
            cur = Vec::new();
            assert(parts.push(cur@) =~= split_ws(pre).push(seq![]));
        } else {
            let ghost old_cur = cur@;
            cur.push(v[i]);
            assert(parts.push(cur@) =~= split_ws(pre).update(split_ws(pre).len() - 1, old_cur.push(v@[i as int])));
        }
        i = i + 1;
    }
    assert(v@.subrange(0, v@.len() as int) =~= v@);
    let ghost all = parts.push(cur@);
    assert(all.drop_last() =~= parts);
    assert(non_empty()(all.last()) == (cur@.len() > 0));
    assert(all.filter(non_empty()) == if cur@.len() > 0 {
        parts.filter(non_empty()).push(cur@)
    } else {
        parts.filter(non_empty())
    });
    if cur.len() > 0 {
        let ghost before = char_vec_views(done@);
        done.push(cur);
        assert(char_vec_views(done@) =~= before.push(all.last()));
    }
    done
}

// ---------------------------------------------------------------------------
// UTF-8 lengths
// ---------------------------------------------------------------------------

/// The number of bytes UTF-8 takes for `c`.
pub open spec fn utf8_width(c: char) -> nat {
    let u = c as u32;
    if u < 0x80 {
        1
    } else if u < 0x800 {
        2
    } else if u < 0x10000 {
        3
    } else {
        4
    }
}

/// The number of bytes of `s` in UTF-8 (`str::len`).
pub open spec fn utf8_len(s: Seq<char>) -> nat
    decreases s.len(),
{
    if s.len() == 0 {
        0
    } else {
        utf8_len(s.drop_last()) + utf8_width(s.last())
    }
}

/// The longest start of `s` that takes at most `n` bytes in UTF-8; exactly `n`
/// bytes when `n` falls on a character boundary of `s` (what `&s[..n]` keeps).
pub open spec fn utf8_prefix(s: Seq<char>, n: nat) -> Seq<char>
    decreases s.len(),
{
    if s.len() == 0 || utf8_width(s[0]) > n {
        seq![]
    } else {
        seq![s[0]] + utf8_prefix(s.drop_first(), (n - utf8_width(s[0])) as nat)
    }
}

/// The number of bytes UTF-8 takes for `c`.
pub fn char_utf8_width(c: char) -> (r: usize)
    ensures
        r == utf8_width(c),
        1 <= r <= 4,
{
    let u = c as u32;
    if u < 0x80 {
        1
    } else if u < 0x800 {
        2
    } else if u < 0x10000 {
        3
    } else {
        4
    }
}

proof fn lemma_utf8_len_take(s: Seq<char>, i: int)
    requires
        0 <= i < s.len(),
    ensures
        utf8_len(s.take(i + 1)) == utf8_len(s.take(i)) + utf8_width(s[i]),
{
    assert(s.take(i + 1).drop_last() =~= s.take(i));
}

/// Whether `v` takes more than `n` bytes in UTF-8.
pub fn utf8_longer_than(v: &[char], n: usize) -> (r: bool)
    ensures
        r == (utf8_len(v@) > n),
{
    let mut total: usize = 0;
    let mut i: usize = 0;
    while i < v.len()
        invariant
            i <= v@.len(),
            total == utf8_len(v@.take(i as int)),
            total <= n,
        decreases v.len() - i,
    {
        proof {
            lemma_utf8_len_take(v@, i as int);
        }
        let w = char_utf8_width(v[i]);
        if w > n - total {
            proof {
                lemma_utf8_len_monotone(v@, i + 1);
            }
            return true;
        }
        total = total + w;
        i = i + 1;
    }
    assert(v@.take(v@.len() as int) =~= v@);
    false
}

proof fn lemma_utf8_len_monotone(s: Seq<char>, k: int)
    requires
        0 <= k <= s.len(),
    ensures
        utf8_len(s.take(k)) <= utf8_len(s),
    decreases s.len() - k,
{
    if k < s.len() {
        lemma_utf8_len_take(s, k);
        lemma_utf8_len_monotone(s, k + 1);
    } else {
        assert(s.take(k) =~= s);
    }
}

/// `utf8_prefix(s, n)`: the characters of `s` up to where `n` bytes run out.
pub fn utf8_prefix_chars(v: &[char], n: usize) -> (r: Vec<char>)
    ensures
        r@ == utf8_prefix(v@, n as nat),
{
    let mut out: Vec<char> = Vec::new();
    let mut left: usize = n;
    let mut i: usize = 0;
    assert(v@.skip(0) =~= v@);
    while i < v.len()
        invariant
            i <= v@.len(),
            utf8_prefix(v@, n as nat) == out@ + utf8_prefix(v@.skip(i as int), left as nat),
        decreases v.len() - i,
    {
        let w = char_utf8_width(v[i]);
        assert(v@.skip(i as int)[0] == v@[i as int]);
        if w > left {
            return out;
        }
        assert(v@.skip(i as int).drop_first() =~= v@.skip(i + 1));
        let ghost before = out@;
        out.push(v[i]);
        assert(out@ =~= before + seq![v@[i as int]]);
        assert(before + (seq![v@[i as int]] + utf8_prefix(v@.skip(i + 1), (left - w) as nat)) =~= out@
            + utf8_prefix(v@.skip(i + 1), (left - w) as nat));
        left = left - w;
        i = i + 1;
    }
    assert(v@.skip(v@.len() as int) =~= Seq::<char>::empty());
    assert(out@ + Seq::<char>::empty() =~= out@);
    out
}

proof fn lemma_utf8_len_bound(s: Seq<char>)
    ensures
        utf8_len(s) <= 4 * s.len(),
    decreases s.len(),
{
    if s.len() > 0 {
        lemma_utf8_len_bound(s.drop_last());
    }
}

/// `str::len`: the number of bytes of `s` in UTF-8.
pub fn utf8_len_of(s: &str) -> (r: u128)
    ensures
        r == utf8_len(s@),
        r <= 0x4_0000_0000_0000_0000,
{
    let v = chars_of(s);
    let mut total: u128 = 0;
    let mut i: usize = 0;
    while i < v.len()
        invariant
            i <= v@.len(),
            v@ == s@,
            total == utf8_len(v@.take(i as int)),
        decreases v.len() - i,
    {
        proof {
            lemma_utf8_len_take(v@, i as int);
            lemma_utf8_len_bound(v@.take(i + 1));
        }
        let w = char_utf8_width(v[i]);
        total = total + w as u128;
        i = i + 1;
    }
    assert(v@.take(v@.len() as int) =~= v@);
    proof {
        lemma_utf8_len_bound(v@);
        assert(v@.len() <= usize::MAX);
    }
    total
}

} // verus!
