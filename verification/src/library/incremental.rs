//! Applying the paths that file-system events name to the catalog, one by
//! one, without a full rescan.
use crate::text::str_eq;
use vstd::prelude::*;

verus! {

/// What an event burst changed, and the roots that need a reconciling scan.
pub struct UpdateReport {
    pub updated: usize,
    pub removed: usize,
    pub unchanged: usize,
    pub failed: usize,
    pub reconcile_roots: Vec<i64>,
}

impl Default for UpdateReport {
    fn default() -> (r: Self)
        ensures
            r.updated == 0 && r.removed == 0 && r.unchanged == 0 && r.failed == 0,
            r.reconcile_roots@.len() == 0,
    {
        UpdateReport { updated: 0, removed: 0, unchanged: 0, failed: 0, reconcile_roots: Vec::new() }
    }
}

/// What an event path asks of the catalog.
#[derive(Clone, Copy, PartialEq, Eq, Structural, Debug)]
pub enum PathStep {
    /// Nothing: seen already in this burst, or outside every root.
    Skip,
    /// A folder changed inside this root: rescan the root.
    Reconcile(i64),
    /// The path is no audio file any more: mark it and what lies below missing.
    MarkMissing,
    /// An audio file of this root changed: catalog it and read its metadata.
    Update(i64),
}

/// The step for one event path (whose key could be normalized), given
/// whether its key is new in this burst, what the path is now, and which
/// enabled root owns it.
pub fn path_step(first_seen: bool, is_dir: bool, is_audio_file: bool, owner: Option<i64>) -> (r:
    PathStep)
    ensures
        !first_seen ==> r == PathStep::Skip,
        first_seen && is_dir ==> r == match owner {
            Some(id) => PathStep::Reconcile(id),
            None => PathStep::Skip,
        },
        first_seen && !is_dir && !is_audio_file ==> r == PathStep::MarkMissing,
        first_seen && !is_dir && is_audio_file ==> r == match owner {
            Some(id) => PathStep::Update(id),
            None => PathStep::Skip,
        },
{
    if !first_seen {
        return PathStep::Skip;
    }
    if is_dir {
        return match owner {
            Some(id) => PathStep::Reconcile(id),
            None => PathStep::Skip,
        };
    }
    if !is_audio_file {
        return PathStep::MarkMissing;
    }
    match owner {
        Some(id) => PathStep::Update(id),
        None => PathStep::Skip,
    }
}

/// The path keys already handled in an event burst.
pub struct SeenKeys {
    pub keys: Vec<String>,
}

pub open spec fn key_views(v: Seq<String>) -> Seq<Seq<char>> {
    v.map_values(|s: String| s@)
}

impl SeenKeys {
    /// No key seen yet.
    pub fn new() -> (r: SeenKeys)
        ensures
            r.keys@.len() == 0,
    {
        SeenKeys { keys: Vec::new() }
    }

    /// Records `key`; says whether it is new in this burst.
    pub fn insert(&mut self, key: &str) -> (new: bool)
        ensures
            new == !key_views(old(self).keys@).contains(key@),
            new ==> key_views(final(self).keys@) == key_views(old(self).keys@).push(key@),
            !new ==> final(self).keys@ == old(self).keys@,
    {
        let mut i: usize = 0;
        while i < self.keys.len()
            invariant
                i <= self.keys.len(),
                self.keys@ == old(self).keys@,
                forall|j: int| 0 <= j < i ==> (#[trigger] self.keys@[j])@ != key@,
            decreases self.keys.len() - i,
        {
            if str_eq(self.keys[i].as_str(), key) {
                assert(key_views(self.keys@)[i as int] == key@);
                return false;
            }
            i += 1;
        }
        proof {
            if key_views(self.keys@).contains(key@) {
                let j = choose|j: int|
                    0 <= j < key_views(self.keys@).len() && key_views(self.keys@)[j] == key@;
                assert(self.keys@[j]@ == key@);
            }
        }
        let ghost before = key_views(self.keys@);
        self.keys.push(key.to_owned());
        assert(key_views(self.keys@) =~= before.push(key@));
        true
    }
}

impl UpdateReport {
    /// Counts a file that was cataloged again, whose metadata read failed or not.
    pub fn record_update(&mut self, failed: bool)
        requires
            old(self).updated < usize::MAX,
            old(self).failed < usize::MAX,
        ensures
            final(self).updated == old(self).updated + 1,
            final(self).failed == old(self).failed + (if failed {
                1int
            } else {
                0int
            }),
            final(self).removed == old(self).removed,
            final(self).unchanged == old(self).unchanged,
            final(self).reconcile_roots == old(self).reconcile_roots,
    {
        self.updated = self.updated + 1;
        if failed {
            self.failed = self.failed + 1;
        }
    }

    /// Counts catalog rows marked missing.
    pub fn record_removed(&mut self, rows: usize)
        requires
            old(self).removed + rows <= usize::MAX,
        ensures
            final(self).removed == old(self).removed + rows,
            final(self).updated == old(self).updated,
            final(self).failed == old(self).failed,
            final(self).unchanged == old(self).unchanged,
            final(self).reconcile_roots == old(self).reconcile_roots,
    {
        self.removed = self.removed + rows;
    }
}

/// Strictly increasing ids.
pub open spec fn ascending(s: Seq<i64>) -> bool {
    forall|i: int, j: int| 0 <= i < j < s.len() ==> #[trigger] s[i] < #[trigger] s[j]
}

impl UpdateReport {
    /// Adds a root to rescan, keeping the list ascending and without repeats.
    pub fn add_reconcile(&mut self, root_id: i64)
        requires
            ascending(old(self).reconcile_roots@),
        ensures
            ascending(final(self).reconcile_roots@),
            final(self).reconcile_roots@.to_set() == old(self).reconcile_roots@.to_set().insert(
                root_id,
            ),
            final(self).updated == old(self).updated,
            final(self).removed == old(self).removed,
            final(self).unchanged == old(self).unchanged,
            final(self).failed == old(self).failed,
    {
        let ghost before = self.reconcile_roots@;
        let mut j: usize = 0;
        while j < self.reconcile_roots.len()
            invariant
                j <= self.reconcile_roots.len(),
                self.reconcile_roots@ == before,
                before == old(self).reconcile_roots@,
                self.updated == old(self).updated,
                self.removed == old(self).removed,
                self.unchanged == old(self).unchanged,
                self.failed == old(self).failed,
                ascending(before),
                forall|m: int| 0 <= m < j ==> #[trigger] before[m] < root_id,
            decreases self.reconcile_roots.len() - j,
        {
            let v = self.reconcile_roots[j];
            if v == root_id {
                assert(before.to_set().insert(root_id) =~= before.to_set());
                return;
            }
            if root_id < v {
                self.reconcile_roots.insert(j, root_id);
                proof {
                    let after = self.reconcile_roots@;
                    assert(after =~= before.insert(j as int, root_id));
                    assert forall|a: int, b: int| 0 <= a < b < after.len() implies #[trigger] after[a]
                        < #[trigger] after[b] by {
                        if a < j {
                            assert(after[a] == before[a]);
                        }
                        if b > j {
                            assert(after[b] == before[b - 1]);
                        }
                        if a > j {
                            assert(after[a] == before[a - 1]);
                        }
                        if b < j {
                            assert(after[b] == before[b]);
                        }
                        if a < j && b > j {
                            assert(before[a] < root_id);
                        }
                    }
                    assert(after.to_set() =~= before.to_set().insert(root_id)) by {
                        assert forall|e: i64| after.to_set().contains(e) implies before.to_set().insert(
                            root_id,
                        ).contains(e) by {
                            let k = choose|k: int| 0 <= k < after.len() && after[k] == e;
                            if k < j {
                                assert(after[k] == before[k]);
                            } else if k > j {
                                assert(after[k] == before[k - 1]);
                            }
                        }
                        assert forall|e: i64| before.to_set().insert(root_id).contains(e) implies after.to_set().contains(
                            e,
                        ) by {
                            if e == root_id {
                                assert(after[j as int] == root_id);
                            } else {
                                let k = choose|k: int| 0 <= k < before.len() && before[k] == e;
                                if k < j {
                                    assert(after[k] == e);
                                } else {
                                    assert(after[k + 1] == e);
                                }
                            }
                        }
                    }
                }
                return;
            }
            j += 1;
        }
        self.reconcile_roots.push(root_id);
        proof {
            let after = self.reconcile_roots@;
            assert(after =~= before.push(root_id));
            assert forall|a: int, b: int| 0 <= a < b < after.len() implies #[trigger] after[a]
                < #[trigger] after[b] by {
                assert(after[a] == before[a]);
                if b < before.len() {
                    assert(after[b] == before[b]);
                }
            }
            assert(after.to_set() =~= before.to_set().insert(root_id)) by {
                assert forall|e: i64| after.to_set().contains(e) implies before.to_set().insert(
                    root_id,
                ).contains(e) by {
                    let k = choose|k: int| 0 <= k < after.len() && after[k] == e;
                    if k < before.len() {
                        assert(after[k] == before[k]);
                    }
                }
                assert forall|e: i64| before.to_set().insert(root_id).contains(e) implies after.to_set().contains(
                    e,
                ) by {
                    if e == root_id {
                        assert(after[before.len() as int] == root_id);
                    } else {
                        let k = choose|k: int| 0 <= k < before.len() && before[k] == e;
                        assert(after[k] == e);
                    }
                }
            }
        }
    }
}

} // verus!
