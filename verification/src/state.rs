//! The persistent record of what the tool installed: tracked packages and the
//! categories applied.
use crate::keyed::KeyedList;
use crate::paths::{join_path, path_join};
use crate::text::{concat2, decimal, decimal_string, owned};
use std::time::SystemTime;
use vstd::prelude::*;

verus! {

#[verifier::external_type_specification]
#[verifier::external_body]
pub struct ExSystemTime(std::time::SystemTime);

/// Reads the system clock (`SystemTime::now`); nothing is promised of the time
/// returned.
#[verifier::external_body]
fn system_time_now() -> SystemTime {
    SystemTime::now()
}

/// Whole seconds from the Unix epoch to `t` (`SystemTime::duration_since` with
/// `UNIX_EPOCH`, in seconds), or `None` when `t` is before the epoch; nothing is
/// promised of the number.
#[verifier::external_body]
fn seconds_since_unix_epoch(t: &SystemTime) -> Option<u64> {
    match t.duration_since(std::time::UNIX_EPOCH) {
        Ok(d) => Some(d.as_secs()),
        Err(_) => None,
    }
}

/// The form of the time stamps recorded for packages: `Timestamp(<seconds>)`.
pub open spec fn is_timestamp(s: Seq<char>) -> bool {
    exists|n: nat| s == "Timestamp("@ + #[trigger] decimal(n) + ")"@
}

/// The time stamp of `secs` seconds since the Unix epoch: `Timestamp(<secs>)`.
pub fn timestamp_text(secs: u64) -> (r: String)
    ensures
        r@ == "Timestamp("@ + decimal(secs as nat) + ")"@,
{
    let d = decimal_string(secs);
    let a = concat2("Timestamp(", d.as_str());
    concat2(a.as_str(), ")")
}

/// The current time as `Timestamp(<seconds since the Unix epoch>)` (zero seconds
/// when the clock reads before the epoch).
pub fn chrono_now_string() -> (r: String)
    ensures
        is_timestamp(r@),
{
    let now = system_time_now();
    let secs = match seconds_since_unix_epoch(&now) {
        Some(s) => s,
        None => 0,
    };
    let r = timestamp_text(secs);
    assert(r@ == "Timestamp("@ + decimal(secs as nat) + ")"@);
    r
}

/// What the tool knows of one package.
#[derive(Debug)]
pub struct TrackedPackage {
    pub category: String,
    /// Present on the system before the tool installed anything; never removed.
    pub was_preexisting: bool,
    pub installed_by_dots: bool,
    pub installed_at: String,
}

/// The state file's contents.
#[derive(Debug)]
pub struct State {
    pub packages: KeyedList<TrackedPackage>,
    pub applied_categories: KeyedList<()>,
    pub cached_latest_version: Option<String>,
    pub last_update_check_epoch: Option<u64>,
}

impl Default for State {
    fn default() -> (r: State)
        ensures
            r.packages.keys().len() == 0,
            r.applied_categories.keys().len() == 0,
            r.cached_latest_version is None,
            r.last_update_check_epoch is None,
    {
        State {
            packages: KeyedList::new(),
            applied_categories: KeyedList::new(),
            cached_latest_version: None,
            last_update_check_epoch: None,
        }
    }
}

/// A tracked record for a package of `category`, flagged pre-existing or not.
pub open spec fn tracked_as(p: TrackedPackage, category: Seq<char>, was_preexisting: bool) -> bool {
    &&& p.category@ == category
    &&& p.was_preexisting == was_preexisting
    &&& p.installed_by_dots == !was_preexisting
    &&& is_timestamp(p.installed_at@)
}

impl State {
    /// The state file, `<home>/.local/state/dotss/state.toml` (relative to the
    /// working directory when the home directory is unknown).
    pub fn get_state_path(home: Option<&str>) -> (r: String)
        ensures
            r@ == path_join(
                match home {
                    Some(h) => h@,
                    None => "."@,
                },
                ".local/state/dotss/state.toml"@,
            ),
    {
        let base = match home {
            Some(h) => h,
            None => ".",
        };
        join_path(base, ".local/state/dotss/state.toml")
    }

    /// Records (or re-records) `name` as a package of `category`, stamped with the
    /// current time; a pre-existing package is never marked as installed by the tool.
    pub fn track_package(&mut self, name: &str, category: &str, was_preexisting: bool)
        ensures
            final(self).packages.lookup(name@) matches Some(p) && tracked_as(
                p,
                category@,
                was_preexisting,
            ),
            forall|k: Seq<char>| k != name@ ==> final(self).packages.lookup(k) == old(self).packages.lookup(k),
            final(self).applied_categories == old(self).applied_categories,
            final(self).cached_latest_version == old(self).cached_latest_version,
            final(self).last_update_check_epoch == old(self).last_update_check_epoch,
    {
        let timestamp = chrono_now_string();
        let record = TrackedPackage {
            category: owned(category),
            was_preexisting,
            installed_by_dots: !was_preexisting,
            installed_at: timestamp,
        };
        self.packages.insert(owned(name), record);
    }

    /// Forgets `name` after it was uninstalled.
    pub fn remove_package(&mut self, name: &str)
        ensures
            final(self).packages.lookup(name@) is None,
            forall|k: Seq<char>| k != name@ ==> final(self).packages.lookup(k) == old(self).packages.lookup(k),
            final(self).applied_categories == old(self).applied_categories,
            final(self).cached_latest_version == old(self).cached_latest_version,
            final(self).last_update_check_epoch == old(self).last_update_check_epoch,
    {
        self.packages.remove(name);
    }

    /// Records `category` as applied.
    pub fn mark_category_applied(&mut self, category: &str)
        ensures
            final(self).applied_categories.contains(category@),
            forall|k: Seq<char>|
                k != category@ ==> final(self).applied_categories.contains(k) == old(
                    self,
                ).applied_categories.contains(k),
            final(self).packages == old(self).packages,
            final(self).cached_latest_version == old(self).cached_latest_version,
            final(self).last_update_check_epoch == old(self).last_update_check_epoch,
    {
        self.applied_categories.insert(owned(category), ());
        proof {
            assert forall|k: Seq<char>| k != category@ implies self.applied_categories.contains(k)
                == old(self).applied_categories.contains(k) by {
                assert(self.applied_categories.lookup(k) == old(self).applied_categories.lookup(k));
                lemma_contains_lookup(self.applied_categories, k);
                lemma_contains_lookup(old(self).applied_categories, k);
            }
            lemma_contains_lookup(self.applied_categories, category@);
        }
    }

    /// Records that `category` is no longer applied.
    pub fn unmark_category_applied(&mut self, category: &str)
        ensures
            !final(self).applied_categories.contains(category@),
            forall|k: Seq<char>|
                k != category@ ==> final(self).applied_categories.contains(k) == old(
                    self,
                ).applied_categories.contains(k),
            final(self).packages == old(self).packages,
            final(self).cached_latest_version == old(self).cached_latest_version,
            final(self).last_update_check_epoch == old(self).last_update_check_epoch,
    {
        self.applied_categories.remove(category);
        proof {
            assert forall|k: Seq<char>| k != category@ implies self.applied_categories.contains(k)
                == old(self).applied_categories.contains(k) by {
                assert(self.applied_categories.lookup(k) == old(self).applied_categories.lookup(k));
                lemma_contains_lookup(self.applied_categories, k);
                lemma_contains_lookup(old(self).applied_categories, k);
            }
        }
    }

    /// Whether `category` is recorded as applied.
    pub fn is_category_applied(&self, category: &str) -> (r: bool)
        ensures
            r == self.applied_categories.contains(category@),
    {
        self.applied_categories.contains_key(category)
    }
}

/// A key is present exactly when something is stored under it.
pub proof fn lemma_contains_lookup<V>(m: KeyedList<V>, k: Seq<char>)
    ensures
        m.contains(k) <==> m.lookup(k) is Some,
{
    if m.contains(k) {
        let i = choose|i: int| 0 <= i < m.keys().len() && m.keys()[i] == k;
        assert(exists|i: int| 0 <= i < m.keys().len() && m.keys()[i] == k);
    }
}

} // verus!
