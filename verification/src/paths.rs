//! Path strings: joining and home-directory expansion.
use crate::text::{chars_of, starts_with, string_of, sub_chars};
use vstd::prelude::*;

verus! {

/// `PathBuf::push` on Unix: an absolute `rel` replaces `base`; otherwise a `/`
/// separates them unless `base` is empty or already ends with one.
pub open spec fn path_join(base: Seq<char>, rel: Seq<char>) -> Seq<char> {
    if rel.len() > 0 && rel[0] == '/' {
        rel
    } else if base.len() == 0 || base.last() == '/' {
        base + rel
    } else {
        base + seq!['/'] + rel
    }
}

/// `Path::join`.
pub fn join_path(base: &str, rel: &str) -> (r: String)
    ensures
        r@ == path_join(base@, rel@),
{
    let b = chars_of(base);
    let mut x = chars_of(rel);
    if x.len() > 0 && x[0] == '/' {
        return string_of(x.as_slice());
    }
    let mut out = sub_chars(b.as_slice(), 0, b.len());
    assert(b@.subrange(0, b@.len() as int) =~= b@);
    if !(b.len() == 0 || b[b.len() - 1] == '/') {
        out.push('/');
    }
    out.append(&mut x);
    string_of(out.as_slice())
}

/// `~/rest` becomes `<home>/rest` when the home directory is known; any other
/// path is left as it is.
pub open spec fn expanded_home(path: Seq<char>, home: Option<Seq<char>>) -> Seq<char> {
    match home {
        Some(h) => if starts_with(path, "~/"@) {
            h + seq!['/'] + path.skip(2)
        } else {
            path
        },
        None => path,
    }
}

/// Expands a leading `~/` to the home directory `home` (the value of `HOME`,
/// when it is set).
pub fn expand_home(path: &str, home: Option<&str>) -> (r: String)
    ensures
        r@ == expanded_home(path@, match home {
            Some(h) => Some(h@),
            None => None,
        }),
{
    let p = chars_of(path);
    match home {
        Some(h) => {
            proof {
                reveal_strlit("~/");
            }
            if p.len() >= 2 && p[0] == '~' && p[1] == '/' {
                assert(p@.subrange(0, 2) =~= "~/"@);
                let mut out = chars_of(h);
                out.push('/');
                let mut rest = sub_chars(p.as_slice(), 2, p.len());
                out.append(&mut rest);
                assert(p@.subrange(2, p@.len() as int) =~= p@.skip(2));
                string_of(out.as_slice())
            } else {
                proof {
                    if starts_with(p@, "~/"@) {
                        assert(p@.subrange(0, 2)[0] == p@[0]);
                        assert(p@.subrange(0, 2)[1] == p@[1]);
                    }
                }
                string_of(p.as_slice())
            }
        },
        None => string_of(p.as_slice()),
    }
}

} // verus!
