//! Folder children derived from the catalog's relative paths, without
//! walking the disk again.
use crate::library::order::{insert_sorted, lex_lt, strictly_sorted, views};
use crate::seqs::{first_index, lemma_first_is, lemma_first_none};
use crate::text::{
    char_pred, chars_of, push_chars, replace_char, replace_chars, slice_range, string_of,
    trim_char, trim_matches_chars,
};
use vstd::prelude::*;

verus! {

/// A folder directly below the requested parent.
pub struct CatalogFolder {
    pub name: String,
    pub relative_path: String,
}

/// Native separators turned into `'/'`, then separators trimmed from both ends.
pub open spec fn normalized(s: Seq<char>) -> Seq<char> {
    trim_char(replace_char(s, '\\', '/'), '/')
}

/// One character as a `LIKE ... ESCAPE '\'` pattern matches it literally.
pub open spec fn escape_char(c: char) -> Seq<char> {
    if c == '\\' || c == '%' || c == '_' {
        seq!['\\', c]
    } else {
        seq![c]
    }
}

/// `s` with `\`, `%` and `_` escaped for `LIKE ... ESCAPE '\'`.
pub open spec fn escaped(s: Seq<char>) -> Seq<char>
    decreases s.len(),
{
    if s.len() == 0 {
        Seq::empty()
    } else {
        escaped(s.drop_last()) + escape_char(s.last())
    }
}

/// The prefix that the relative paths of a normalized parent's descendants share.
pub open spec fn child_prefix(parent: Seq<char>) -> Seq<char> {
    if parent.len() == 0 {
        Seq::empty()
    } else {
        parent.push('/')
    }
}

pub open spec fn has_prefix(s: Seq<char>, prefix: Seq<char>) -> bool {
    prefix.len() <= s.len() && s.take(prefix.len() as int) == prefix
}

/// The folder that `path` names directly below `prefix`: for a path that
/// starts with the prefix, the text before the first `'/'` of what follows
/// it, when that text is not empty; nothing for any other path.
pub open spec fn folder_of(path: Seq<char>, prefix: Seq<char>) -> Option<Seq<char>> {
    if !has_prefix(path, prefix) {
        None
    } else {
        let rest = path.skip(prefix.len() as int);
        match first_index(rest, char_pred('/')) {
            Some(k) => if k > 0 {
                Some(rest.take(k))
            } else {
                None
            },
            None => None,
        }
    }
}

/// Every folder that some path of `paths` names below `prefix`.
pub open spec fn folder_set(paths: Seq<String>, prefix: Seq<char>) -> Set<Seq<char>> {
    Set::new(
        |f: Seq<char>|
            exists|i: int| 0 <= i < paths.len() && folder_of(#[trigger] paths[i]@, prefix) == Some(f),
    )
}

/// The relative path of folder `name` below the normalized `parent`.
pub open spec fn child_path(parent: Seq<char>, name: Seq<char>) -> Seq<char> {
    if parent.len() == 0 {
        name
    } else {
        parent + seq!['/'] + name
    }
}

/// `path` with native separators turned into `'/'` and no separator at
/// either end.
pub fn normalize(path: &str) -> (r: String)
    ensures
        r@ == normalized(path@),
{
    let v = chars_of(path);
    let w = replace_chars(v.as_slice(), '\\', '/');
    let t = trim_matches_chars(w.as_slice(), '/');
    string_of(t.as_slice())
}

fn escape_chars(s: &[char]) -> (r: Vec<char>)
    ensures
        r@ == escaped(s@),
{
    let mut r: Vec<char> = Vec::new();
    let mut i: usize = 0;
    while i < s.len()
        invariant
            i <= s.len(),
            r@ == escaped(s@.take(i as int)),
        decreases s.len() - i,
    {
        let c = s[i];
        if c == '\\' || c == '%' || c == '_' {
            r.push('\\');
        }
        r.push(c);
        proof {
            let t = s@.take(i as int + 1);
            assert(t.drop_last() =~= s@.take(i as int));
            assert(t.last() == c);
            assert(r@ =~= escaped(s@.take(i as int)) + escape_char(c));
        }
        i += 1;
    }
    assert(s@.take(s.len() as int) =~= s@);
    r
}

/// `value` escaped for a `LIKE ... ESCAPE '\'` pattern.
pub fn escape_like(value: &str) -> (r: String)
    ensures
        r@ == escaped(value@),
{
    let v = chars_of(value);
    let e = escape_chars(v.as_slice());
    string_of(e.as_slice())
}

fn prefix_chars(parent: &str) -> (r: (Vec<char>, Vec<char>))
    ensures
        r.0@ == normalized(parent@),
        r.1@ == child_prefix(normalized(parent@)),
{
    let p = normalize(parent);
    let pv = chars_of(p.as_str());
    let mut pre: Vec<char> = Vec::new();
    if pv.len() > 0 {
        push_chars(&mut pre, pv.as_slice());
        pre.push('/');
    }
    (pv, pre)
}

/// The `LIKE` pattern that selects the descendants of `parent`.
pub fn folder_pattern(parent: &str) -> (r: String)
    ensures
        r@ == escaped(child_prefix(normalized(parent@))).push('%'),
{
    let (_, pre) = prefix_chars(parent);
    let mut e = escape_chars(pre.as_slice());
    e.push('%');
    string_of(e.as_slice())
}

pub fn starts_with_chars(s: &[char], prefix: &[char]) -> (r: bool)
    ensures
        r == has_prefix(s@, prefix@),
{
    if prefix.len() > s.len() {
        return false;
    }
    let mut i: usize = 0;
    while i < prefix.len()
        invariant
            i <= prefix.len() <= s.len(),
            forall|j: int| 0 <= j < i ==> s@[j] == prefix@[j],
        decreases prefix.len() - i,
    {
        if s[i] != prefix[i] {
            assert(s@.take(prefix.len() as int)[i as int] != prefix@[i as int]);
            return false;
        }
        i += 1;
    }
    assert(s@.take(prefix.len() as int) =~= prefix@);
    true
}

fn folder_of_chars(path: &[char], prefix: &[char]) -> (r: Option<Vec<char>>)
    ensures
        match folder_of(path@, prefix@) {
            Some(f) => r is Some && r->0@ == f,
            None => r is None,
        },
{
    if !starts_with_chars(path, prefix) {
        return None;
    }
    let start: usize = prefix.len();
    let ghost rest = path@.skip(prefix@.len() as int);
    let mut k: usize = start;
    while k < path.len()
        invariant
            start <= k <= path.len(),
            rest == path@.skip(start as int),
            has_prefix(path@, prefix@),
            start == prefix@.len(),
            forall|j: int| 0 <= j < k - start ==> !char_pred('/')(#[trigger] rest[j]),
        decreases path.len() - k,
    {
        if path[k] == '/' {
            proof {
                assert(rest[k - start] == path@[k as int]);
                lemma_first_is(rest, char_pred('/'), k - start);
            }
            if k == start {
                return None;
            }
            let f = slice_range(path, start, k);
            assert(f@ =~= rest.take(k - start));
            return Some(f);
        }
        assert(rest[k - start] == path@[k as int]);
        k += 1;
    }
    proof {
        lemma_first_none(rest, char_pred('/'));
    }
    None
}

/// The folders directly below `parent` that the catalog's relative paths
/// name, once each, in `String` order.
pub fn folder_children(parent: &str, paths: &Vec<String>) -> (r: Vec<CatalogFolder>)
    ensures
        ({
            let p = normalized(parent@);
            let names = r@.map_values(|c: CatalogFolder| c.name@);
            &&& strictly_sorted(names)
            &&& names.to_set() == folder_set(paths@, child_prefix(p))
            &&& forall|i: int|
                0 <= i < r.len() ==> (#[trigger] r@[i]).relative_path@ == child_path(
                    p,
                    r@[i].name@,
                )
        }),
{
    let (p, pre) = prefix_chars(parent);
    let ghost prefix = pre@;
    let mut set: Vec<Vec<char>> = Vec::new();
    let mut i: usize = 0;
    assert(views(set@).to_set() =~= folder_set(paths@.take(0), prefix));
    while i < paths.len()
        invariant
            i <= paths.len(),
            prefix == pre@,
            strictly_sorted(views(set@)),
            views(set@).to_set() == folder_set(paths@.take(i as int), prefix),
        decreases paths.len() - i,
    {
        let path = chars_of(paths[i].as_str());
        let found = folder_of_chars(path.as_slice(), pre.as_slice());
        let ghost before = views(set@).to_set();
        let ghost done = paths@.take(i as int);
        let ghost next = paths@.take(i as int + 1);
        assert(next[i as int] == paths@[i as int]);
        match found {
            Some(f) => {
                let ghost fv = f@;
                insert_sorted(&mut set, f);
                assert(folder_set(next, prefix) =~= folder_set(done, prefix).insert(fv)) by {
                    assert forall|g: Seq<char>| #[trigger]
                        folder_set(next, prefix).contains(g) implies folder_set(
                        done,
                        prefix,
                    ).insert(fv).contains(g) by {
                        let j = choose|j: int|
                            0 <= j < next.len() && folder_of(#[trigger] next[j]@, prefix) == Some(
                                g,
                            );
                        if j < i {
                            assert(done[j] == next[j]);
                        }
                    }
                    assert forall|g: Seq<char>| #[trigger]
                        folder_set(done, prefix).insert(fv).contains(g) implies folder_set(
                        next,
                        prefix,
                    ).contains(g) by {
                        if g == fv {
                            assert(folder_of(next[i as int]@, prefix) == Some(g));
                        } else {
                            let j = choose|j: int|
                                0 <= j < done.len() && folder_of(#[trigger] done[j]@, prefix)
                                    == Some(g);
                            assert(next[j] == done[j]);
                        }
                    }
                }
            },
            None => {
                assert(folder_set(next, prefix) =~= folder_set(done, prefix)) by {
                    assert forall|g: Seq<char>| #[trigger]
                        folder_set(next, prefix).contains(g) implies folder_set(
                        done,
                        prefix,
                    ).contains(g) by {
                        let j = choose|j: int|
                            0 <= j < next.len() && folder_of(#[trigger] next[j]@, prefix) == Some(
                                g,
                            );
                        if j < i {
                            assert(done[j] == next[j]);
                        }
                    }
                    assert forall|g: Seq<char>| #[trigger]
                        folder_set(done, prefix).contains(g) implies folder_set(
                        next,
                        prefix,
                    ).contains(g) by {
                        let j = choose|j: int|
                            0 <= j < done.len() && folder_of(#[trigger] done[j]@, prefix) == Some(
                                g,
                            );
                        assert(next[j] == done[j]);
                    }
                }
            },
        }
        i += 1;
    }
    assert(paths@.take(paths.len() as int) =~= paths@);
    let ghost names = views(set@);
    let mut r: Vec<CatalogFolder> = Vec::new();
    let mut k: usize = 0;
    while k < set.len()
        invariant
            k <= set.len(),
            names == views(set@),
            p@ == normalized(parent@),
            r.len() == k,
            forall|m: int| 0 <= m < k ==> (#[trigger] r@[m]).name@ == names[m],
            forall|m: int|
                0 <= m < k ==> (#[trigger] r@[m]).relative_path@ == child_path(p@, names[m]),
        decreases set.len() - k,
    {
        let name = string_of(set[k].as_slice());
        let mut rel: Vec<char> = Vec::new();
        if p.len() > 0 {
            push_chars(&mut rel, p.as_slice());
            rel.push('/');
        }
        push_chars(&mut rel, set[k].as_slice());
        proof {
            if p.len() > 0 {
                assert(rel@ =~= p@ + seq!['/'] + names[k as int]);
            } else {
                assert(rel@ =~= names[k as int]);
            }
        }
        r.push(CatalogFolder { name, relative_path: string_of(rel.as_slice()) });
        k += 1;
    }
    assert(r@.map_values(|c: CatalogFolder| c.name@) =~= names);
    r
}

} // verus!
