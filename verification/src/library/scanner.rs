//! Discovering audio files by walking a root, without opening them.
use crate::library::path::{lead, lead_of, segments, segs};
use crate::library::order::views;
use crate::text::{chars_of, seq_eq};
use vstd::prelude::*;

verus! {

/// A discovered audio file, with its catalog key and stamp.
pub struct DiscoveredAudio {
    pub path: String,
    pub path_key: String,
    pub mtime: i64,
    pub size: i64,
}

/// What the walk could not read.
pub struct AudioWalkStats {
    pub inaccessible: usize,
}

/// The files a walk found, and how many could not be read or stamped.
pub struct Discovery {
    pub files: Vec<DiscoveredAudio>,
    pub walk: AudioWalkStats,
    pub metadata_errors: usize,
}

/// Two paths are equal as `Path`s: the same components (root or leading
/// `.`, then the same named components).
pub open spec fn same_path(a: Seq<char>, b: Seq<char>) -> bool {
    lead(a) == lead(b) && segs(a) == segs(b)
}

fn same_path_chars(a: &[char], b: &[char]) -> (r: bool)
    ensures
        r == same_path(a@, b@),
{
    if lead_of(a) != lead_of(b) {
        return false;
    }
    let x = segments(a);
    let y = segments(b);
    let ghost xv = views(x@);
    let ghost yv = views(y@);
    assert(xv == segs(a@) && yv == segs(b@));
    if x.len() != y.len() {
        assert(xv.len() != yv.len());
        return false;
    }
    let mut k: usize = 0;
    while k < x.len()
        invariant
            k <= x.len(),
            x.len() == y.len(),
            xv == views(x@),
            yv == views(y@),
            xv == segs(a@),
            yv == segs(b@),
            lead(a@) == lead(b@),
            xv.len() == x.len(),
            yv.len() == y.len(),
            forall|m: int| 0 <= m < k ==> xv[m] == yv[m],
        decreases x.len() - k,
    {
        if !seq_eq(x[k].as_slice(), y[k].as_slice()) {
            assert(xv[k as int] == x@[k as int]@ && yv[k as int] == y@[k as int]@);
            assert(xv[k as int] != yv[k as int]);
            return false;
        }
        k += 1;
    }
    assert(xv =~= yv);
    true
}

/// Whether the walk enters folder `dir`: unless it is one of the roots that
/// index their own files.
pub fn enters(dir: &str, excluded_roots: &Vec<String>) -> (r: bool)
    ensures
        r == !exists|i: int|
            0 <= i < excluded_roots.len() && same_path(dir@, (#[trigger] excluded_roots@[i])@),
{
    let d = chars_of(dir);
    let mut i: usize = 0;
    while i < excluded_roots.len()
        invariant
            i <= excluded_roots.len(),
            d@ == dir@,
            forall|j: int| 0 <= j < i ==> !same_path(dir@, (#[trigger] excluded_roots@[j])@),
        decreases excluded_roots.len() - i,
    {
        let e = chars_of(excluded_roots[i].as_str());
        if same_path_chars(d.as_slice(), e.as_slice()) {
            return false;
        }
        i += 1;
    }
    true
}

} // verus!
