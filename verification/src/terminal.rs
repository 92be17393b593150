//! Terminal facts the tool reads from the environment: the width it lays the
//! list out for, the pager flags, and whether a directory is on `$PATH`.
use crate::text::{
    chars_of, ends_with, parse_unsigned, parse_unsigned_chars, split_char, split_char_chars, trim,
    trim_chars, CharClass,
};
use vstd::prelude::*;

verus! {

/// A width taken from the environment: a `usize` wider than 20 columns.
pub open spec fn usable_width(text: Seq<char>) -> Option<nat> {
    match parse_unsigned(text, usize::MAX as nat) {
        Some(w) => if w > 20 {
            Some(w)
        } else {
            None
        },
        None => None,
    }
}

fn usable_width_of(v: &[char]) -> (r: Option<usize>)
    ensures
        match r {
            Some(w) => usable_width(v@) == Some(w as nat),
            None => usable_width(v@) is None,
        },
{
    match parse_unsigned_chars(v, usize::MAX as u64) {
        Some(w) => {
            if w > 20 {
                Some(w as usize)
            } else {
                None
            }
        },
        None => None,
    }
}

/// The terminal width: `$COLUMNS` if it is a usable width, else what `tput cols`
/// printed (trimmed) if that is, else 80.
pub fn terminal_width(columns: Option<&str>, tput_output: Option<&str>) -> (r: usize)
    ensures
        ({
            let from_columns = match columns {
                Some(c) => usable_width(c@),
                None => None,
            };
            let from_tput = match tput_output {
                Some(t) => usable_width(trim(t@)),
                None => None,
            };
            r as nat == match from_columns {
                Some(w) => w,
                None => match from_tput {
                    Some(w) => w,
                    None => 80,
                },
            }
        }),
{
    match columns {
        Some(c) => {
            let v = chars_of(c);
            if let Some(w) = usable_width_of(v.as_slice()) {
                return w;
            }
        },
        None => {},
    }
    match tput_output {
        Some(t) => {
            let v = chars_of(t);
            let tv = trim_chars(v.as_slice(), &CharClass::Whitespace);
            if let Some(w) = usable_width_of(tv.as_slice()) {
                return w;
            }
        },
        None => {},
    }
    80
}

/// The pager is `less`, which is given `-F -R -X` (keep colours, quit when the
/// text fits, do not clear the screen).
pub fn pager_is_less(pager: &str) -> (r: bool)
    ensures
        r == (pager@ == "less"@ || ends_with(pager@, "/less"@)),
{
    crate::text::str_eq(pager, "less") || crate::text::str_ends_with(pager, "/less")
}

/// `dir` is one of the `:`-separated entries of `path_var`.
pub fn dir_in_path(path_var: &str, dir: &str) -> (r: bool)
    ensures
        r == split_char(path_var@, ':').contains(dir@),
{
    let pv = chars_of(path_var);
    let dv = chars_of(dir);
    let parts = split_char_chars(pv.as_slice(), ':');
    let ghost ps = split_char(path_var@, ':');
    let mut i: usize = 0;
    while i < parts.len()
        invariant
            i <= parts@.len(),
            ps == crate::text::char_vec_views(parts@),
            ps == split_char(path_var@, ':'),
            dv@ == dir@,
            forall|j: int| 0 <= j < i ==> ps[j] != dir@,
        decreases parts.len() - i,
    {
        if crate::text::slice_eq(parts[i].as_slice(), dv.as_slice()) {
            assert(ps[i as int] == dir@);
            assert(ps.len() == parts@.len());
            return true;
        }
        i = i + 1;
    }
    false
}

} // verus!
