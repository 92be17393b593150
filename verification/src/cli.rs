//! Decisions of the command line that do not depend on its parser: argument
//! rewriting before parsing, and how the parsed arguments select categories.
use crate::text::{concat2, owned, starts_with, str_eq, string_views};
use vstd::prelude::*;

verus! {

/// The message for the rejected spellings `-s` and `--sh` of `--show-hidden`.
pub open spec fn short_hidden_message() -> Seq<char> {
    "unexpected argument found for 'list'. Use '-sh' or '--show-hidden'."@
}

/// The arguments as the parser receives them: `-ca` is `--categories`.
pub open spec fn rewritten_args(args: Seq<Seq<char>>) -> Seq<Seq<char>> {
    args.map_values(|a: Seq<char>| if a == "-ca"@ { "--categories"@ } else { a })
}

/// Prepares the raw arguments for the parser: refuses `-s` and `--sh` anywhere,
/// and rewrites `-ca` to `--categories`.
pub fn preprocess_args(args: Vec<String>) -> (r: Result<Vec<String>, String>)
    ensures
        (exists|i: int| 0 <= i < args@.len() && (args@[i]@ == "-s"@ || args@[i]@ == "--sh"@)) ==> (r matches Err(
            m,
        ) && m@ == short_hidden_message()),
        !(exists|i: int| 0 <= i < args@.len() && (args@[i]@ == "-s"@ || args@[i]@ == "--sh"@)) ==> (r matches Ok(
            v,
        ) && string_views(v@) == rewritten_args(string_views(args@))),
{
    let mut i: usize = 0;
    while i < args.len()
        invariant
            i <= args@.len(),
            forall|j: int| 0 <= j < i ==> !(args@[j]@ == "-s"@ || args@[j]@ == "--sh"@),
        decreases args.len() - i,
    {
        if str_eq(args[i].as_str(), "-s") || str_eq(args[i].as_str(), "--sh") {
            return Err(owned("unexpected argument found for 'list'. Use '-sh' or '--show-hidden'."));
        }
        i = i + 1;
    }
    let ghost av = string_views(args@);
    let mut out: Vec<String> = Vec::new();
    let mut k: usize = 0;
    while k < args.len()
        invariant
            k <= args@.len(),
            av == string_views(args@),
            string_views(out@) == rewritten_args(av.take(k as int)),
        decreases args.len() - k,
    {
        let a = if str_eq(args[k].as_str(), "-ca") {
            owned("--categories")
        } else {
            args[k].clone()
        };
        let ghost before = string_views(out@);
        out.push(a);
        assert(string_views(out@) =~= before.push(a@));
        assert(rewritten_args(av.take(k + 1)) =~= rewritten_args(av.take(k as int)).push(
            if av[k as int] == "-ca"@ {
                "--categories"@
            } else {
                av[k as int]
            },
        ));
        k = k + 1;
    }
    assert(av.take(args@.len() as int) =~= av);
    Ok(out)
}

/// A version as a tag: with a leading `v`.
pub open spec fn version_tag_spec(v: Seq<char>) -> Seq<char> {
    if starts_with(v, "v"@) {
        v
    } else {
        "v"@ + v
    }
}

/// The version as a tag (see [`version_tag_spec`]).
pub fn version_tag(v: &str) -> (r: String)
    ensures
        r@ == version_tag_spec(v@),
{
    if crate::text::str_starts_with(v, "v") {
        owned(v)
    } else {
        concat2("v", v)
    }
}

/// The category filter of `add`: none for `all`.
pub fn add_target(category: &str) -> (r: Option<&str>)
    ensures
        category@ == "all"@ ==> r is None,
        category@ != "all"@ ==> r == Some(category),
{
    if str_eq(category, "all") {
        None
    } else {
        Some(category)
    }
}

/// The message when `remove` names no category.
pub open spec fn remove_needs_target_message() -> Seq<char> {
    "Please specify a category to remove (e.g. 'dotss remove <category>') or use '--all' / 'all' to remove all categories."@
}

/// The category filter of `remove`: none (everything) for `--all` or `all`,
/// else the category named; an error when none is named.
pub fn remove_target(category: Option<&str>, all: bool) -> (r: Result<Option<&str>, String>)
    ensures
        (all || (category matches Some(c) && c@ == "all"@)) ==> r matches Ok(None),
        !(all || (category matches Some(c) && c@ == "all"@)) ==> match category {
            Some(c) => r == Ok::<Option<&str>, String>(Some(c)),
            None => r matches Err(m) && m@ == remove_needs_target_message(),
        },
{
    let is_all = match category {
        Some(c) => str_eq(c, "all"),
        None => false,
    };
    if all || is_all {
        return Ok(None);
    }
    match category {
        Some(c) => Ok(Some(c)),
        None => Err(
            owned(
                "Please specify a category to remove (e.g. 'dotss remove <category>') or use '--all' / 'all' to remove all categories.",
            ),
        ),
    }
}

} // verus!
