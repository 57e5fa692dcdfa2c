//! Reversible retirement of library roots, with a safety period before purging.
use crate::library::path::{path_starts_with, starts_with};
use crate::text::chars_of;
use vstd::prelude::*;

verus! {

pub const MIN_RETENTION_DAYS: u16 = 30;

pub const MAX_RETENTION_DAYS: u16 = 365;

pub const DAY_SECONDS: i64 = 86400;

/// How long a retired root is kept before it is purged.
pub struct RetentionSettings {
    pub retention_days: u16,
}

/// A root that was retired and waits for its purge.
pub struct RetiredRoot {
    pub id: i64,
    pub path: String,
    pub path_key: String,
    pub collection: String,
    pub retired_at: i64,
    pub purge_after: i64,
}

impl RetiredRoot {
    /// A copy of this record.
    pub fn duplicate(&self) -> (r: RetiredRoot)
        ensures
            r == *self,
    {
        RetiredRoot {
            id: self.id,
            path: self.path.clone(),
            path_key: self.path_key.clone(),
            collection: self.collection.clone(),
            retired_at: self.retired_at,
            purge_after: self.purge_after,
        }
    }
}

/// When a root retired at `now` may be purged: `days` later, or at the end
/// of time when that does not fit.
pub open spec fn purge_deadline(now: i64, days: u16) -> i64 {
    let t = now + days * DAY_SECONDS;
    if t > i64::MAX {
        i64::MAX
    } else {
        t as i64
    }
}

/// Two root keys overlap when one contains the other (component-wise).
pub open spec fn overlaps(a: Seq<char>, b: Seq<char>) -> bool {
    starts_with(a, b) || starts_with(b, a)
}

/// The retention period to store, or `library_retention_days_out_of_range`
/// outside `30..=365`.
pub fn set_retention_days(days: u16) -> (r: Result<RetentionSettings, String>)
    ensures
        MIN_RETENTION_DAYS <= days <= MAX_RETENTION_DAYS ==> r is Ok && r->Ok_0.retention_days
            == days,
        !(MIN_RETENTION_DAYS <= days <= MAX_RETENTION_DAYS) ==> r is Err && r->Err_0@
            == "library_retention_days_out_of_range"@,
{
    if days < MIN_RETENTION_DAYS || days > MAX_RETENTION_DAYS {
        return Err("library_retention_days_out_of_range".to_owned());
    }
    Ok(RetentionSettings { retention_days: days })
}

/// The purge deadline of a root retired at `now` with `days` of retention.
pub fn purge_after(now: i64, days: u16) -> (r: i64)
    ensures
        r == purge_deadline(now, days),
        r >= now,
{
    let span: i64 = days as i64 * DAY_SECONDS;
    if now > i64::MAX - span {
        i64::MAX
    } else {
        now + span
    }
}

fn keys_overlap(a: &str, b: &str) -> (r: bool)
    ensures
        r == overlaps(a@, b@),
{
    let x = chars_of(a);
    let y = chars_of(b);
    path_starts_with(x.as_slice(), y.as_slice()) || path_starts_with(y.as_slice(), x.as_slice())
}

/// The first retired root (in the order given) whose key contains `path_key`
/// or lies inside it.
pub fn overlapping(retired: &Vec<RetiredRoot>, path_key: &str) -> (r: Option<RetiredRoot>)
    ensures
        match r {
            Some(root) => exists|i: int|
                0 <= i < retired.len() && retired@[i] == root && overlaps(root.path_key@, path_key@)
                    && forall|j: int|
                    0 <= j < i ==> !overlaps((#[trigger] retired@[j]).path_key@, path_key@),
            None => forall|j: int|
                0 <= j < retired.len() ==> !overlaps((#[trigger] retired@[j]).path_key@, path_key@),
        },
{
    let mut i: usize = 0;
    while i < retired.len()
        invariant
            i <= retired.len(),
            forall|j: int|
                0 <= j < i ==> !overlaps((#[trigger] retired@[j]).path_key@, path_key@),
        decreases retired.len() - i,
    {
        if keys_overlap(retired[i].path_key.as_str(), path_key) {
            return Some(retired[i].duplicate());
        }
        i += 1;
    }
    None
}

} // verus!
