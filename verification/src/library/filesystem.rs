//! Local exploration for the library window; it never indexes or stores paths.
use crate::library::order::{lemma_lex_transitive, lex_compare, lex_lt};
use crate::library::path::{file_name_chars, file_name_of, rooted, segments, segs};
use crate::text::{chars_of, string_of};
use vstd::prelude::*;

verus! {

/// A place to start exploring: the root directory or a mounted volume.
pub struct StorageRoot {
    pub path: String,
    pub name: String,
}

/// A folder or audio file in the folder being explored.
pub struct FileSystemEntry {
    pub path: String,
    pub name: String,
    pub is_directory: bool,
}

/// The name shown for a storage root: `/` for the root directory, else its
/// last component (the whole path when it has none).
pub open spec fn storage_name_of(path: Seq<char>) -> Seq<char> {
    if rooted(path) && segs(path).len() == 0 {
        "/"@
    } else {
        match file_name_of(path) {
            Some(n) => n,
            None => path,
        }
    }
}

/// The name shown for the storage root at `path`.
pub fn storage_name(path: &str) -> (r: String)
    ensures
        r@ == storage_name_of(path@),
{
    let p = chars_of(path);
    let parts = segments(p.as_slice());
    if p.len() > 0 && p[0] == '/' && parts.len() == 0 {
        assert(parts@.map_values(|v: Vec<char>| v@).len() == 0);
        return "/".to_owned();
    }
    proof {
        assert(parts@.map_values(|v: Vec<char>| v@).len() == parts@.len());
    }
    match file_name_chars(p.as_slice()) {
        Some(n) => string_of(n.as_slice()),
        None => path.to_owned(),
    }
}

/// The storage roots among the candidate places, each with whether it is a
/// directory now: the directories, in order, with their names.
pub fn storage_roots(candidates: &Vec<(String, bool)>) -> (r: Vec<StorageRoot>)
    ensures
        r@.map_values(|s: StorageRoot| s.path@) == candidates@.filter(|c: (String, bool)| c.1).map_values(
            |c: (String, bool)| c.0@,
        ),
        forall|i: int| 0 <= i < r.len() ==> (#[trigger] r@[i]).name@ == storage_name_of(r@[i].path@),
{
    let mut r: Vec<StorageRoot> = Vec::new();
    let mut i: usize = 0;
    while i < candidates.len()
        invariant
            i <= candidates.len(),
            r@.map_values(|s: StorageRoot| s.path@) == candidates@.take(i as int).filter(
                |c: (String, bool)| c.1,
            ).map_values(|c: (String, bool)| c.0@),
            forall|k: int| 0 <= k < r.len() ==> (#[trigger] r@[k]).name@ == storage_name_of(r@[k].path@),
        decreases candidates.len() - i,
    {
        proof {
            let t = candidates@.take(i as int + 1);
            assert(t.drop_last() =~= candidates@.take(i as int));
            reveal(Seq::filter);
        }
        let (path, is_dir) = (&candidates[i].0, candidates[i].1);
        if is_dir {
            let ghost before = r@.map_values(|s: StorageRoot| s.path@);
            let name = storage_name(path.as_str());
            r.push(StorageRoot { path: path.clone(), name });
            assert(r@.map_values(|s: StorageRoot| s.path@) =~= before.push(path@));
        }
        i += 1;
    }
    assert(candidates@.take(candidates.len() as int) =~= candidates@);
    r
}

/// What `str::to_lowercase` returns for `s` (Unicode lower case).
pub uninterp spec fn lowercase(s: Seq<char>) -> Seq<char>;

/// `str::to_lowercase`: the Unicode lower case of `s`, which depends on `s`
/// alone. What that mapping is, is not stated here.
#[verifier::external_body]
fn to_lowercase(s: &str) -> (r: String)
    ensures
        r@ == lowercase(s@),
{
    s.to_lowercase()
}

/// What a listing sorts an entry by: whether it is a folder, and its name
/// in lower case.
pub open spec fn entry_key(e: FileSystemEntry) -> (bool, Seq<char>) {
    (e.is_directory, lowercase(e.name@))
}

/// `a` is listed strictly before `b`: folders first, then by lower-case name.
pub open spec fn listed_before(a: (bool, Seq<char>), b: (bool, Seq<char>)) -> bool {
    (a.0 && !b.0) || (a.0 == b.0 && lex_lt(a.1, b.1))
}

proof fn lemma_listed_transitive(a: (bool, Seq<char>), b: (bool, Seq<char>), c: (bool, Seq<char>))
    requires
        listed_before(a, b),
        listed_before(b, c),
    ensures
        listed_before(a, c),
{
    if a.0 == b.0 && b.0 == c.0 {
        lemma_lex_transitive(a.1, b.1, c.1);
    }
}

/// `perm` lists distinct positions of a sequence of length `n`.
pub open spec fn is_permutation(perm: Seq<int>, n: int) -> bool {
    &&& perm.len() == n
    &&& forall|k: int| 0 <= k < n ==> 0 <= #[trigger] perm[k] < n
    &&& forall|a: int, b: int| 0 <= a < b < n ==> #[trigger] perm[a] != #[trigger] perm[b]
}

/// `r` holds the entries of `s` in listing order, entries with the same key
/// keeping their order (a stable sort).
pub open spec fn sorted_listing(s: Seq<FileSystemEntry>, r: Seq<FileSystemEntry>) -> bool {
    &&& r.len() == s.len()
    &&& forall|a: int, b: int|
        0 <= a < b < r.len() ==> !listed_before(entry_key(#[trigger] r[b]), entry_key(#[trigger] r[a]))
    &&& exists|perm: Seq<int>|
        {
            &&& is_permutation(perm, s.len() as int)
            &&& forall|k: int| 0 <= k < r.len() ==> #[trigger] r[k] == s[perm[k]]
            &&& forall|a: int, b: int|
                0 <= a < b < r.len() && entry_key(r[a]) == entry_key(r[b]) ==> #[trigger] perm[a]
                    < #[trigger] perm[b]
        }
}

fn before_key(xd: bool, x: &[char], yd: bool, y: &[char]) -> (r: bool)
    ensures
        r == listed_before((xd, x@), (yd, y@)),
{
    (xd && !yd) || (xd == yd && lex_compare(x, y) < 0)
}

/// A folder listing in display order: folders first, then by lower-case
/// name, entries that compare equal keeping their order.
pub fn sort_entries(entries: Vec<FileSystemEntry>) -> (r: Vec<FileSystemEntry>)
    ensures
        sorted_listing(entries@, r@),
{
    let ghost src = entries@;
    let n = entries.len();
    let mut rest = entries;
    let mut out: Vec<FileSystemEntry> = Vec::new();
    let mut keys: Vec<Vec<char>> = Vec::new();
    let ghost mut perm: Seq<int> = Seq::empty();
    let mut i: usize = 0;
    while i < n
        invariant
            i <= n,
            n == src.len(),
            rest@ == src.skip(i as int),
            out.len() == i,
            keys.len() == i,
            forall|k: int| 0 <= k < i ==> (#[trigger] keys@[k])@ == lowercase(out@[k].name@),
            is_permutation(perm, i as int),
            forall|k: int| 0 <= k < i ==> #[trigger] out@[k] == src[perm[k]],
            forall|a: int, b: int|
                0 <= a < b < i ==> !listed_before(
                    entry_key(#[trigger] out@[b]),
                    entry_key(#[trigger] out@[a]),
                ),
            forall|a: int, b: int|
                0 <= a < b < i && entry_key(out@[a]) == entry_key(out@[b]) ==> #[trigger] perm[a]
                    < #[trigger] perm[b],
        decreases n - i,
    {
        let e = rest.remove(0);
        assert(e == src[i as int]);
        assert(src.skip(i as int).remove(0) =~= src.skip(i + 1));
        let low = to_lowercase(e.name.as_str());
        let kx = crate::text::chars_of(low.as_str());
        let ghost key_x = entry_key(e);
        let mut pos: usize = 0;
        while pos < out.len() && !before_key(
            e.is_directory,
            kx.as_slice(),
            out[pos].is_directory,
            keys[pos].as_slice(),
        )
            invariant
                pos <= out.len(),
                out.len() == keys.len(),
                kx@ == key_x.1,
                key_x == entry_key(e),
                forall|k: int| 0 <= k < out.len() ==> (#[trigger] keys@[k])@ == lowercase(out@[k].name@),
                forall|k: int| 0 <= k < pos ==> !listed_before(key_x, entry_key(#[trigger] out@[k])),
            decreases out.len() - pos,
        {
            pos += 1;
        }
        let ghost old_out = out@;
        let ghost old_keys = keys@;
        let ghost old_perm = perm;
        proof {
            if pos < old_out.len() {
                assert(listed_before(key_x, entry_key(old_out[pos as int])));
            }
        }
        out.insert(pos, e);
        keys.insert(pos, kx);
        proof {
            perm = old_perm.insert(pos as int, i as int);
            let new_out = out@;
            assert(new_out =~= old_out.insert(pos as int, src[i as int]));
            assert forall|k: int| 0 <= k < i + 1 implies 0 <= #[trigger] perm[k] < i + 1 by {
                if k < pos {
                    assert(perm[k] == old_perm[k]);
                } else if k > pos {
                    assert(perm[k] == old_perm[k - 1]);
                }
            }
            assert forall|a: int, b: int| 0 <= a < b < i + 1 implies #[trigger] perm[a]
                != #[trigger] perm[b] by {
                if a != pos && b != pos {
                    let oa = if a < pos { a } else { a - 1 };
                    let ob = if b < pos { b } else { b - 1 };
                    assert(perm[a] == old_perm[oa] && perm[b] == old_perm[ob]);
                } else if a == pos {
                    assert(perm[b] == old_perm[b - 1]);
                } else {
                    assert(perm[a] == old_perm[a]);
                }
            }
            assert forall|k: int| 0 <= k < i + 1 implies #[trigger] new_out[k] == src[perm[k]] by {
                if k < pos {
                    assert(new_out[k] == old_out[k] && perm[k] == old_perm[k]);
                } else if k > pos {
                    assert(new_out[k] == old_out[k - 1] && perm[k] == old_perm[k - 1]);
                }
            }
            assert forall|a: int, b: int| 0 <= a < b < i + 1 implies !listed_before(
                entry_key(#[trigger] new_out[b]),
                entry_key(#[trigger] new_out[a]),
            ) by {
                if a < pos && b < pos {
                    assert(new_out[a] == old_out[a] && new_out[b] == old_out[b]);
                } else if a > pos {
                    assert(new_out[a] == old_out[a - 1] && new_out[b] == old_out[b - 1]);
                } else if a < pos && b == pos {
                    assert(new_out[a] == old_out[a]);
                } else if a < pos && b > pos {
                    assert(new_out[a] == old_out[a] && new_out[b] == old_out[b - 1]);
                    if b - 1 > a {
                        assert(!listed_before(entry_key(old_out[b - 1]), entry_key(old_out[a])));
                    }
                } else {
                    assert(a == pos && b > pos);
                    assert(new_out[b] == old_out[b - 1]);
                    assert(new_out[a] == src[i as int]);
                    crate::library::order::lemma_lex_irreflexive(entry_key(old_out[pos as int]).1);
                    if listed_before(entry_key(old_out[b - 1]), key_x) {
                        lemma_listed_transitive(
                            entry_key(old_out[b - 1]),
                            key_x,
                            entry_key(old_out[pos as int]),
                        );
                        if b - 1 > pos {
                            assert(!listed_before(
                                entry_key(old_out[b - 1]),
                                entry_key(old_out[pos as int]),
                            ));
                        }
                    }
                }
            }
            assert forall|a: int, b: int|
                0 <= a < b < i + 1 && entry_key(new_out[a]) == entry_key(new_out[b]) implies #[trigger] perm[a]
                < #[trigger] perm[b] by {
                if a < pos && b < pos {
                    assert(new_out[a] == old_out[a] && new_out[b] == old_out[b]);
                    assert(perm[a] == old_perm[a] && perm[b] == old_perm[b]);
                } else if a > pos {
                    assert(new_out[a] == old_out[a - 1] && new_out[b] == old_out[b - 1]);
                    assert(perm[a] == old_perm[a - 1] && perm[b] == old_perm[b - 1]);
                } else if a < pos && b == pos {
                    assert(perm[a] == old_perm[a] && perm[b] == i);
                } else if a < pos && b > pos {
                    assert(new_out[a] == old_out[a] && new_out[b] == old_out[b - 1]);
                    assert(perm[a] == old_perm[a] && perm[b] == old_perm[b - 1]);
                } else {
                    assert(a == pos && b > pos);
                    assert(new_out[b] == old_out[b - 1]);
                    if b - 1 > pos {
                        assert(!listed_before(
                            entry_key(old_out[b - 1]),
                            entry_key(old_out[pos as int]),
                        ));
                    }
                    assert(listed_before(key_x, entry_key(old_out[pos as int])));
                    assert(false);
                }
            }
            assert(keys@ =~= old_keys.insert(pos as int, keys@[pos as int]));
            assert forall|k: int| 0 <= k < i + 1 implies (#[trigger] keys@[k])@ == lowercase(
                out@[k].name@,
            ) by {
                if k < pos {
                    assert(keys@[k] == old_keys[k] && out@[k] == old_out[k]);
                } else if k > pos {
                    assert(keys@[k] == old_keys[k - 1] && out@[k] == old_out[k - 1]);
                }
            }
        }
        i += 1;
    }
    proof {
        assert(is_permutation(perm, n as int));
        assert(forall|k: int| 0 <= k < out.len() ==> #[trigger] out@[k] == src[perm[k]]);
    }
    out
}

} // verus!
