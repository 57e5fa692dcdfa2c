//! The final purge of retired roots whose safety period has ended.
use vstd::prelude::*;

verus! {

/// What a purge removed: roots, their catalog rows, and the track records
/// that were deleted or kept because a button still uses them.
pub struct PurgeReport {
    pub roots: usize,
    pub catalog_tracks: usize,
    pub deleted_track_meta: usize,
    pub protected_track_meta: usize,
}

impl Default for PurgeReport {
    fn default() -> (r: Self)
        ensures
            r.roots == 0 && r.catalog_tracks == 0 && r.deleted_track_meta == 0
                && r.protected_track_meta == 0,
    {
        PurgeReport { roots: 0, catalog_tracks: 0, deleted_track_meta: 0, protected_track_meta: 0 }
    }
}

/// Some entry of `protected` reads `path`.
pub open spec fn holds_text(protected: Seq<String>, path: Seq<char>) -> bool {
    exists|j: int| 0 <= j < protected.len() && (#[trigger] protected[j])@ == path
}

/// The paths of `paths` that `protected` does not hold, in order.
pub open spec fn unprotected(paths: Seq<String>, protected: Seq<String>) -> Seq<String>
    decreases paths.len(),
{
    if paths.len() == 0 {
        Seq::empty()
    } else {
        let rest = unprotected(paths.drop_last(), protected);
        if holds_text(protected, paths.last()@) {
            rest
        } else {
            rest.push(paths.last())
        }
    }
}

proof fn lemma_unprotected_len(paths: Seq<String>, protected: Seq<String>)
    ensures
        unprotected(paths, protected).len() <= paths.len(),
    decreases paths.len(),
{
    if paths.len() > 0 {
        lemma_unprotected_len(paths.drop_last(), protected);
    }
}

/// A purge never deletes the track record of a protected path: every path
/// it may delete comes from the catalog rows and none is protected.
pub proof fn lemma_purge_spares_protected(paths: Seq<String>, protected: Seq<String>)
    ensures
        forall|i: int|
            0 <= i < unprotected(paths, protected).len() ==> !holds_text(
                protected,
                (#[trigger] unprotected(paths, protected)[i])@,
            ) && paths.contains(unprotected(paths, protected)[i]),
    decreases paths.len(),
{
    if paths.len() > 0 {
        lemma_purge_spares_protected(paths.drop_last(), protected);
        let rest = unprotected(paths.drop_last(), protected);
        assert forall|i: int| 0 <= i < rest.len() implies paths.contains(#[trigger] rest[i]) by {
            let j = choose|j: int| 0 <= j < paths.drop_last().len() && paths.drop_last()[j] == rest[i];
            assert(paths[j] == rest[i]);
        }
        assert(paths[paths.len() - 1] == paths.last());
    }
}

fn is_protected(protected: &Vec<String>, path: &String) -> (r: bool)
    ensures
        r == holds_text(protected@, path@),
{
    let mut i: usize = 0;
    while i < protected.len()
        invariant
            i <= protected.len(),
            forall|j: int| 0 <= j < i ==> (#[trigger] protected@[j])@ != path@,
        decreases protected.len() - i,
    {
        if protected[i] == *path {
            return true;
        }
        i += 1;
    }
    false
}

/// The catalog paths of a purged root whose track records may be deleted:
/// those that no button protects, in order.
pub fn deletable(paths: &Vec<String>, protected: &Vec<String>) -> (r: Vec<String>)
    ensures
        r@ == unprotected(paths@, protected@),
        r.len() <= paths.len(),
{
    let mut r: Vec<String> = Vec::new();
    let mut i: usize = 0;
    while i < paths.len()
        invariant
            i <= paths.len(),
            r@ == unprotected(paths@.take(i as int), protected@),
        decreases paths.len() - i,
    {
        proof {
            assert(paths@.take(i as int + 1).drop_last() =~= paths@.take(i as int));
        }
        if !is_protected(protected, &paths[i]) {
            r.push(paths[i].clone());
        }
        i += 1;
    }
    proof {
        assert(paths@.take(paths.len() as int) =~= paths@);
        lemma_unprotected_len(paths@, protected@);
    }
    r
}

impl PurgeReport {
    /// Counts one purged root with `paths` catalog rows, of which
    /// `deletable` were unprotected and `deleted` track records went.
    pub fn record(&mut self, paths: usize, deletable: usize, deleted: usize)
        requires
            deletable <= paths,
            old(self).roots + 1 <= usize::MAX,
            old(self).catalog_tracks + paths <= usize::MAX,
            old(self).deleted_track_meta + deleted <= usize::MAX,
            old(self).protected_track_meta + (paths - deletable) <= usize::MAX,
        ensures
            final(self).roots == old(self).roots + 1,
            final(self).catalog_tracks == old(self).catalog_tracks + paths,
            final(self).deleted_track_meta == old(self).deleted_track_meta + deleted,
            final(self).protected_track_meta == old(self).protected_track_meta + (paths
                - deletable),
    {
        self.protected_track_meta = self.protected_track_meta + (paths - deletable);
        self.deleted_track_meta = self.deleted_track_meta + deleted;
        self.catalog_tracks = self.catalog_tracks + paths;
        self.roots = self.roots + 1;
    }
}

} // verus!
