//! What the host system shows that the catalog logic depends on, gathered by the
//! caller before it asks the library to decide.
use crate::text::{chars_of, slice_eq, string_views};
use vstd::prelude::*;

verus! {

/// Facts about the host: the home directory, which of the paths the caller
/// checked exist, and which command names were found in a `$PATH` directory.
#[derive(Debug)]
pub struct HostView {
    pub home: Option<String>,
    pub existing_paths: Vec<String>,
    pub path_commands: Vec<String>,
}

impl HostView {
    /// The home directory, if known.
    pub open spec fn home_view(self) -> Option<Seq<char>> {
        match self.home {
            Some(h) => Some(h@),
            None => None,
        }
    }

    /// `p` is one of the paths known to exist.
    pub open spec fn path_exists(self, p: Seq<char>) -> bool {
        string_views(self.existing_paths@).contains(p)
    }

    /// A command named `c` was found in a `$PATH` directory.
    pub open spec fn command_in_path(self, c: Seq<char>) -> bool {
        string_views(self.path_commands@).contains(c)
    }

    /// Whether `p` is one of the paths known to exist.
    pub fn has_path(&self, p: &str) -> (r: bool)
        ensures
            r == self.path_exists(p@),
    {
        seq_has(&self.existing_paths, p)
    }

    /// Whether `c` was found in a `$PATH` directory.
    pub fn has_command(&self, c: &str) -> (r: bool)
        ensures
            r == self.command_in_path(c@),
    {
        seq_has(&self.path_commands, c)
    }

    /// The home directory, if known.
    pub fn home_str(&self) -> (r: Option<&str>)
        ensures
            match r {
                Some(h) => self.home_view() == Some(h@),
                None => self.home_view() is None,
            },
    {
        match &self.home {
            Some(h) => Some(h.as_str()),
            None => None,
        }
    }
}

/// Whether `x` is one of the strings of `v`.
pub fn seq_has(v: &Vec<String>, x: &str) -> (r: bool)
    ensures
        r == string_views(v@).contains(x@),
{
    let xv = chars_of(x);
    let mut i: usize = 0;
    while i < v.len()
        invariant
            i <= v@.len(),
            xv@ == x@,
            forall|j: int| 0 <= j < i ==> v@[j]@ != x@,
        decreases v.len() - i,
    {
        let e = chars_of(v[i].as_str());
        if slice_eq(e.as_slice(), xv.as_slice()) {
            assert(string_views(v@)[i as int] == x@);
            return true;
        }
        i = i + 1;
    }
    assert forall|j: int| 0 <= j < string_views(v@).len() implies string_views(v@)[j] != x@ by {}
    false
}

} // verus!
