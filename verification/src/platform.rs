//! The operating systems the tool supports, and the rules that recognise them.
use crate::text::{
    chars_of, contains, slice_eq, str_contains, to_lowercase, trim, trim_chars, unicode_lowercase,
    CharClass,
};
use vstd::prelude::*;

verus! {

/// The platform the tool runs on.
#[derive(Debug, Clone, PartialEq, Eq)]
pub enum Platform {
    Debian,
    Termux,
    /// Any other system, with the reason it is not supported.
    Unsupported(String),
}

/// Text of `/etc/os-release` (lowercased) that marks a Debian-family system.
pub open spec fn os_release_says_debian(lower: Seq<char>) -> bool {
    ||| contains(lower, "id=debian"@)
    ||| contains(lower, "id=ubuntu"@)
    ||| contains(lower, "id_like=debian"@)
}

/// The platform named by a category or action's `platform` field matches `p`:
/// the field, lowercased, is `debian` on Debian or `termux` on Termux.
pub open spec fn platform_name_matches(name: Seq<char>, p: Platform) -> bool {
    let l = unicode_lowercase(name);
    ||| (l == "debian"@ && p is Debian)
    ||| (l == "termux"@ && p is Termux)
}

/// An optional `platform` restriction admits `p`.
pub open spec fn platform_filter_admits(filter: Option<String>, p: Platform) -> bool {
    match filter {
        Some(name) => platform_name_matches(name@, p),
        None => true,
    }
}

impl Platform {
    /// Decides the platform from what the host shows: the `TERMUX_VERSION`
    /// variable, the Termux data directory, `/etc/debian_version`, and the text of
    /// `/etc/os-release` when it could be read.
    pub fn detect(
        termux_version_set: bool,
        termux_dir_exists: bool,
        debian_version_exists: bool,
        os_release: Option<&str>,
    ) -> (r: Platform)
        ensures
            (termux_version_set || termux_dir_exists) ==> r is Termux,
            !(termux_version_set || termux_dir_exists) ==> (r is Debian <==> (debian_version_exists
                || (os_release matches Some(s) && os_release_says_debian(unicode_lowercase(s@))))),
            !(termux_version_set || termux_dir_exists) && !(r is Debian) ==> (r matches Platform::Unsupported(
                m,
            ) && m@ == "Unknown Linux/POSIX system"@),
    {
        if termux_version_set || termux_dir_exists {
            return Platform::Termux;
        }
        if debian_version_exists {
            return Platform::Debian;
        }
        if let Some(text) = os_release {
            let lower = to_lowercase(text);
            if str_contains(lower.as_str(), "id=debian") || str_contains(lower.as_str(), "id=ubuntu")
                || str_contains(lower.as_str(), "id_like=debian") {
                return Platform::Debian;
            }
        }
        Platform::Unsupported(crate::text::owned("Unknown Linux/POSIX system"))
    }

    /// Whether a package counts as installed, from what
    /// `dpkg-query -W -f='${db:Status-Status}' <pkg>` printed (`None` when the
    /// query could not be run): on Debian and Termux, the output trimmed is
    /// `installed`; on other systems never.
    pub fn is_package_installed(&self, dpkg_status_output: Option<&str>) -> (r: bool)
        ensures
            r == (!(*self is Unsupported) && (dpkg_status_output matches Some(out) && trim(out@)
                == "installed"@)),
    {
        match self {
            Platform::Unsupported(_) => false,
            _ => match dpkg_status_output {
                Some(out) => {
                    let v = chars_of(out);
                    let t = trim_chars(v.as_slice(), &CharClass::Whitespace);
                    let w = chars_of("installed");
                    slice_eq(t.as_slice(), w.as_slice())
                },
                None => false,
            },
        }
    }
}

/// Whether a `platform` name (as written in the catalog) designates `platform`.
pub fn platform_matches(name: &str, platform: &Platform) -> (r: bool)
    ensures
        r == platform_name_matches(name@, *platform),
{
    let lower = to_lowercase(name);
    let lv = chars_of(lower.as_str());
    let d = chars_of("debian");
    let t = chars_of("termux");
    match platform {
        Platform::Debian => slice_eq(lv.as_slice(), d.as_slice()),
        Platform::Termux => slice_eq(lv.as_slice(), t.as_slice()),
        Platform::Unsupported(_) => false,
    }
}

/// Whether an optional `platform` restriction admits `platform`.
pub fn platform_filter_matches(filter: &Option<String>, platform: &Platform) -> (r: bool)
    ensures
        r == platform_filter_admits(*filter, *platform),
{
    match filter {
        Some(name) => platform_matches(name.as_str(), platform),
        None => true,
    }
}

/// The verdict on the dpkg front-end lock: busy when the lock file exists and
/// `fuser` ran successfully and named a process holding it.
pub fn check_apt_lock(lock_file_exists: bool, fuser_succeeded: bool, fuser_printed_holder: bool) -> (r:
    Result<(), String>)
    ensures
        r is Err <==> (lock_file_exists && fuser_succeeded && fuser_printed_holder),
        r matches Err(m) ==> m@
            == "apt package manager is locked by another process (e.g. background update)."@,
{
    if lock_file_exists && fuser_succeeded && fuser_printed_holder {
        return Err(
            crate::text::owned(
                "apt package manager is locked by another process (e.g. background update).",
            ),
        );
    }
    Ok(())
}

} // verus!
