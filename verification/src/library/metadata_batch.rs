//! How many workers read a metadata batch.
use vstd::prelude::*;

verus! {

/// The most workers that read metadata beside the audio engine.
pub const MAX_WORKERS: usize = 4;

/// The workers a batch of `jobs` files uses when `workers` are asked for:
/// at least one, and no more than there are files.
pub fn worker_count(workers: usize, jobs: usize) -> (r: usize)
    requires
        jobs >= 1,
    ensures
        r == if workers < 1 {
            1
        } else if workers > jobs {
            jobs
        } else {
            workers
        },
        1 <= r <= jobs,
{
    if workers < 1 {
        1
    } else if workers > jobs {
        jobs
    } else {
        workers
    }
}

/// The recommended workers, from the parallelism that the machine reports
/// (2 when it reports none): between 1 and 4.
pub fn recommended_from(available: Option<usize>) -> (r: usize)
    ensures
        1 <= r <= MAX_WORKERS,
        r == match available {
            None => 2,
            Some(n) => if n < 1 {
                1
            } else if n > MAX_WORKERS {
                MAX_WORKERS
            } else {
                n
            },
        },
{
    let n: usize = match available {
        None => 2,
        Some(n) => n,
    };
    if n < 1 {
        1
    } else if n > MAX_WORKERS {
        MAX_WORKERS
    } else {
        n
    }
}

} // verus!
