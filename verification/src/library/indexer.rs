//! Indexing runs discovery first and metadata afterwards; these are its
//! progress events and reports.
use vstd::prelude::*;

verus! {

/// A progress event: which root, which phase, how far.
pub struct SyncProgress {
    pub root_id: i64,
    pub phase: String,
    pub processed: usize,
    pub total: usize,
}

/// What indexing a root found and did.
pub struct SyncReport {
    pub root_id: i64,
    pub discovered: usize,
    pub enriched: usize,
    pub unchanged: usize,
    pub failed: usize,
    pub missing: usize,
    pub inaccessible: usize,
}

/// What discovery of a root leaves for the metadata phase: the files that
/// need metadata, as `(path_key, path)`.
pub struct DiscoveryWork {
    pub root_id: i64,
    pub discovered: usize,
    pub unchanged: usize,
    pub pending: Vec<(String, String)>,
    pub missing: usize,
    pub inaccessible: usize,
}

/// The sum of `f` over `s`.
pub open spec fn sum_of<A>(s: Seq<A>, f: spec_fn(A) -> nat) -> nat
    decreases s.len(),
{
    if s.len() == 0 {
        0
    } else {
        sum_of(s.drop_last(), f) + f(s.last())
    }
}

pub open spec fn discovered_of() -> spec_fn(DiscoveryWork) -> nat {
    |w: DiscoveryWork| w.discovered as nat
}

pub open spec fn pending_of() -> spec_fn(DiscoveryWork) -> nat {
    |w: DiscoveryWork| w.pending.len() as nat
}

proof fn lemma_sum_take<A>(s: Seq<A>, f: spec_fn(A) -> nat, i: int)
    requires
        0 <= i <= s.len(),
    ensures
        sum_of(s.take(i), f) <= sum_of(s, f),
    decreases s.len(),
{
    if i < s.len() {
        assert(s.drop_last().take(i) =~= s.take(i));
        lemma_sum_take(s.drop_last(), f, i);
    } else {
        assert(s.take(i) =~= s);
    }
}

fn sum_with(work: &Vec<DiscoveryWork>, pending: bool) -> (r: usize)
    requires
        sum_of(work@, if pending { pending_of() } else { discovered_of() }) <= usize::MAX,
    ensures
        r == sum_of(work@, if pending { pending_of() } else { discovered_of() }),
{
    let ghost f = if pending { pending_of() } else { discovered_of() };
    let mut total: usize = 0;
    let mut i: usize = 0;
    while i < work.len()
        invariant
            i <= work.len(),
            f == (if pending { pending_of() } else { discovered_of() }),
            sum_of(work@, f) <= usize::MAX,
            total == sum_of(work@.take(i as int), f),
        decreases work.len() - i,
    {
        proof {
            assert(work@.take(i as int + 1).drop_last() =~= work@.take(i as int));
            lemma_sum_take(work@, f, i as int + 1);
        }
        let n = if pending {
            work[i].pending.len()
        } else {
            work[i].discovered
        };
        total = total + n;
        i += 1;
    }
    assert(work@.take(work.len() as int) =~= work@);
    total
}

/// How many files are searchable once every root is discovered.
pub fn searchable(work: &Vec<DiscoveryWork>) -> (r: usize)
    requires
        sum_of(work@, discovered_of()) <= usize::MAX,
    ensures
        r == sum_of(work@, discovered_of()),
{
    sum_with(work, false)
}

/// How many files wait for metadata across every root.
pub fn pending_total(work: &Vec<DiscoveryWork>) -> (r: usize)
    requires
        sum_of(work@, pending_of()) <= usize::MAX,
    ensures
        r == sum_of(work@, pending_of()),
{
    sum_with(work, true)
}

/// The report of a root whose metadata phase failed on `failed` of its
/// pending files: the others count as enriched.
pub fn report(work: &DiscoveryWork, failed: usize) -> (r: SyncReport)
    requires
        failed <= work.pending.len(),
    ensures
        r.root_id == work.root_id,
        r.discovered == work.discovered,
        r.enriched == work.pending.len() - failed,
        r.enriched + r.failed == work.pending.len(),
        r.unchanged == work.unchanged,
        r.failed == failed,
        r.missing == work.missing,
        r.inaccessible == work.inaccessible,
{
    SyncReport {
        root_id: work.root_id,
        discovered: work.discovered,
        enriched: work.pending.len() - failed,
        unchanged: work.unchanged,
        failed,
        missing: work.missing,
        inaccessible: work.inaccessible,
    }
}

/// What discovery of a root leaves: of the `discovered` files, those not
/// pending are unchanged; the walk's and the stamps' read failures both
/// count as inaccessible.
pub fn discovery_work(
    root_id: i64,
    discovered: usize,
    pending: Vec<(String, String)>,
    missing: usize,
    walk_inaccessible: usize,
    metadata_errors: usize,
) -> (r: DiscoveryWork)
    requires
        pending.len() <= discovered,
        walk_inaccessible + metadata_errors <= usize::MAX,
    ensures
        r.root_id == root_id,
        r.discovered == discovered,
        r.unchanged == discovered - pending.len(),
        r.pending == pending,
        r.missing == missing,
        r.inaccessible == walk_inaccessible + metadata_errors,
{
    let unchanged = discovered - pending.len();
    DiscoveryWork {
        root_id,
        discovered,
        unchanged,
        pending,
        missing,
        inaccessible: walk_inaccessible + metadata_errors,
    }
}

/// How many files a database batch of the metadata phase holds.
pub const DB_BATCH: usize = 500;

/// The progress after batch `index` (from 0) of a root whose `pending`
/// files follow `offset` files of earlier roots.
pub fn enrichment_processed(offset: usize, index: usize, pending: usize) -> (r: usize)
    requires
        (index + 1) * DB_BATCH <= usize::MAX,
        offset + pending <= usize::MAX,
    ensures
        r == offset + if (index + 1) * DB_BATCH < pending {
            (index + 1) * DB_BATCH
        } else {
            pending as int
        },
{
    let done = (index + 1) * DB_BATCH;
    offset + if done < pending {
        done
    } else {
        pending
    }
}

} // verus!
