//! Browsing the catalog in pages that a cursor links, forwards or backwards,
//! within a collection, a root and a folder.
use crate::library::catalog_tree::{escape_like, escaped, normalize, normalized};
use crate::text::{chars_of, push_str, str_eq, string_of};
use vstd::prelude::*;

verus! {

/// Where a page starts or ends: a file name and the path key that breaks ties.
pub struct BrowseCursor {
    pub file_name: String,
    pub path_key: String,
}

impl BrowseCursor {
    /// A copy of this cursor.
    pub fn duplicate(&self) -> (r: BrowseCursor)
        ensures
            r == *self,
    {
        BrowseCursor { file_name: self.file_name.clone(), path_key: self.path_key.clone() }
    }
}

/// One page of rows, with the cursors that continue before and after it.
pub struct BrowsePage<T> {
    pub items: Vec<T>,
    pub previous_cursor: Option<BrowseCursor>,
    pub next_cursor: Option<BrowseCursor>,
    pub has_more: bool,
}

#[derive(Clone, Copy, PartialEq, Eq, Structural, Debug)]
pub enum BrowseDirection {
    Forward,
    Backward,
}

/// What the catalog queries filter on: a collection (empty for all), a root
/// (negative for all) and a `LIKE` pattern for the folder (empty for all).
pub struct CatalogScope {
    pub collection: String,
    pub root_id: i64,
    pub pattern: String,
}

/// A page query: the scope, how many rows a page shows, where it starts and
/// which way it reads.
pub struct BrowseQuery {
    pub scope: CatalogScope,
    pub limit: usize,
    pub cursor: Option<BrowseCursor>,
    pub direction: BrowseDirection,
}

/// The collections that a filter may name; empty means every collection.
pub open spec fn collection_ok(c: Seq<char>) -> bool {
    c.len() == 0 || c == "music"@ || c == "effects"@
}

/// The `LIKE` pattern that selects the descendants of a folder, or empty
/// when the folder is the root.
pub open spec fn relative_pattern_of(prefix: Seq<char>) -> Seq<char> {
    let p = normalized(prefix);
    if p.len() == 0 {
        Seq::empty()
    } else {
        escaped(p) + "/%"@
    }
}

/// `limit` brought into `1..=500`.
pub open spec fn clamp_limit(limit: usize) -> usize {
    if limit < 1 {
        1
    } else if limit > 500 {
        500
    } else {
        limit
    }
}

pub open spec fn text_or_empty(value: Option<&str>) -> Seq<char> {
    match value {
        Some(s) => s@,
        None => Seq::empty(),
    }
}

/// The scope that the filters describe, when the collection is known.
pub open spec fn scope_of(
    collection: Option<&str>,
    root_id: Option<i64>,
    relative_prefix: Option<&str>,
    s: CatalogScope,
) -> bool {
    &&& s.collection@ == text_or_empty(collection)
    &&& s.root_id == match root_id {
        Some(id) => id,
        None => -1i64,
    }
    &&& s.pattern@ == relative_pattern_of(text_or_empty(relative_prefix))
}

/// The rows that a page keeps, in the order it shows them.
pub open spec fn page_rows<T>(rows: Seq<(BrowseCursor, T)>, limit: usize, direction: BrowseDirection) -> Seq<
    (BrowseCursor, T),
> {
    let kept = if rows.len() > limit {
        rows.take(limit as int)
    } else {
        rows
    };
    match direction {
        BrowseDirection::Forward => kept,
        BrowseDirection::Backward => kept.reverse(),
    }
}

impl BrowseDirection {
    /// Reads a direction: `"forward"` or `"backward"`.
    pub fn parse(value: &str) -> (r: Result<BrowseDirection, String>)
        ensures
            value@ == "forward"@ ==> r == Ok::<BrowseDirection, String>(BrowseDirection::Forward),
            value@ == "backward"@ ==> r == Ok::<BrowseDirection, String>(
                BrowseDirection::Backward,
            ),
            value@ != "forward"@ && value@ != "backward"@ ==> r is Err && r->Err_0@
                == "invalid_library_browse_direction"@,
    {
        proof {
            reveal_strlit("forward");
            reveal_strlit("backward");
            assert("forward"@.len() != "backward"@.len());
        }
        if str_eq(value, "forward") {
            Ok(BrowseDirection::Forward)
        } else if str_eq(value, "backward") {
            Ok(BrowseDirection::Backward)
        } else {
            Err("invalid_library_browse_direction".to_owned())
        }
    }
}

/// The `LIKE` pattern for the descendants of the folder `prefix`: native
/// separators made `'/'`, outer separators trimmed, `\ % _` escaped, then
/// `/%`; empty for the root.
pub fn relative_pattern(prefix: &str) -> (r: String)
    ensures
        r@ == relative_pattern_of(prefix@),
{
    let p = normalize(prefix);
    if p.as_str().is_empty() {
        return String::new();
    }
    let e = escape_like(p.as_str());
    let mut v = chars_of(e.as_str());
    push_str(&mut v, "/%");
    string_of(v.as_slice())
}

fn limit_in_range(limit: usize) -> (r: usize)
    ensures
        r == clamp_limit(limit),
{
    if limit < 1 {
        1
    } else if limit > 500 {
        500
    } else {
        limit
    }
}

fn collection_known(c: &str) -> (r: bool)
    ensures
        r == collection_ok(c@),
{
    c.is_empty() || str_eq(c, "music") || str_eq(c, "effects")
}

/// The scope that the filters describe, or `invalid_library_collection` when
/// the collection is neither empty, `music` nor `effects`. (The compute part
/// of counting the tracks in view.)
pub fn count(collection: Option<&str>, root_id: Option<i64>, relative_prefix: Option<&str>) -> (r:
    Result<CatalogScope, String>)
    ensures
        collection_ok(text_or_empty(collection)) ==> r is Ok && scope_of(
            collection,
            root_id,
            relative_prefix,
            r->Ok_0,
        ),
        !collection_ok(text_or_empty(collection)) ==> r is Err && r->Err_0@
            == "invalid_library_collection"@,
{
    proof {
        reveal_strlit("");
    }
    let c: &str = match collection {
        Some(s) => s,
        None => "",
    };
    if !collection_known(c) {
        return Err("invalid_library_collection".to_owned());
    }
    let prefix: &str = match relative_prefix {
        Some(s) => s,
        None => "",
    };
    let id: i64 = match root_id {
        Some(id) => id,
        None => -1,
    };
    let s = CatalogScope {
        collection: c.to_owned(),
        root_id: id,
        pattern: relative_pattern(prefix),
    };
    assert(s.collection@ == text_or_empty(collection));
    assert(s.pattern@ == relative_pattern_of(text_or_empty(relative_prefix)));
    assert(s.root_id == match root_id {
        Some(id) => id,
        None => -1i64,
    });
    Ok(s)
}

/// The page query for the given filters, limit (brought into `1..=500`),
/// cursor and direction, or `invalid_library_collection`.
pub fn browse_query(
    collection: Option<&str>,
    root_id: Option<i64>,
    relative_prefix: Option<&str>,
    limit: usize,
    cursor: Option<&BrowseCursor>,
    direction: BrowseDirection,
) -> (r: Result<BrowseQuery, String>)
    ensures
        collection_ok(text_or_empty(collection)) ==> r is Ok && ({
            let q = r->Ok_0;
            &&& scope_of(collection, root_id, relative_prefix, q.scope)
            &&& q.limit == clamp_limit(limit)
            &&& q.direction == direction
            &&& match cursor {
                Some(c) => q.cursor == Some(*c),
                None => q.cursor is None,
            }
        }),
        !collection_ok(text_or_empty(collection)) ==> r is Err && r->Err_0@
            == "invalid_library_collection"@,
{
    let scope = match count(collection, root_id, relative_prefix) {
        Ok(s) => s,
        Err(e) => {
            return Err(e);
        },
    };
    let start = match cursor {
        Some(c) => Some(c.duplicate()),
        None => None,
    };
    Ok(BrowseQuery { scope, limit: limit_in_range(limit), cursor: start, direction })
}

/// The page query for a direction given by name: the direction is read
/// first (`invalid_library_browse_direction`), then the collection.
pub fn browse(
    collection: Option<&str>,
    root_id: Option<i64>,
    relative_prefix: Option<&str>,
    limit: usize,
    cursor: Option<&BrowseCursor>,
    direction: &str,
) -> (r: Result<BrowseQuery, String>)
    ensures
        direction@ != "forward"@ && direction@ != "backward"@ ==> r is Err && r->Err_0@
            == "invalid_library_browse_direction"@,
        direction@ == "forward"@ || direction@ == "backward"@ ==> {
            let d = if direction@ == "forward"@ {
                BrowseDirection::Forward
            } else {
                BrowseDirection::Backward
            };
            &&& collection_ok(text_or_empty(collection)) ==> r is Ok && ({
                let q = r->Ok_0;
                &&& scope_of(collection, root_id, relative_prefix, q.scope)
                &&& q.limit == clamp_limit(limit)
                &&& q.direction == d
                &&& match cursor {
                    Some(c) => q.cursor == Some(*c),
                    None => q.cursor is None,
                }
            })
            &&& !collection_ok(text_or_empty(collection)) ==> r is Err && r->Err_0@
                == "invalid_library_collection"@
        },
{
    proof {
        reveal_strlit("forward");
        reveal_strlit("backward");
        if direction@ == "forward"@ {
            assert(direction@ != "backward"@) by {
                assert(direction@.len() != "backward"@.len());
            }
        }
    }
    let d = match BrowseDirection::parse(direction) {
        Ok(d) => d,
        Err(e) => {
            return Err(e);
        },
    };
    browse_query(collection, root_id, relative_prefix, limit, cursor, d)
}

/// Assembles a page from the rows that the query returned (each with its
/// cursor), in query order: at most `limit` of them, in reading order
/// (reversed when reading backwards), with the cursors of the first and last
/// row shown, and whether the catalog returned more than `limit`.
pub fn page<T>(rows: Vec<(BrowseCursor, T)>, limit: usize, direction: BrowseDirection) -> (r:
    BrowsePage<T>)
    ensures
        r.has_more == (rows.len() > limit),
        r.items@ == page_rows(rows@, limit, direction).map_values(|p: (BrowseCursor, T)| p.1),
        ({
            let shown = page_rows(rows@, limit, direction);
            &&& shown.len() == 0 ==> r.previous_cursor is None && r.next_cursor is None
            &&& shown.len() > 0 ==> r.previous_cursor == Some(shown[0].0) && r.next_cursor
                == Some(shown.last().0)
        }),
{
    let has_more = rows.len() > limit;
    let mut kept = rows;
    kept.truncate(limit);
    let ghost shown = page_rows(rows@, limit, direction);
    assert(kept@ =~= (if rows.len() > limit {
        rows@.take(limit as int)
    } else {
        rows@
    }));
    let mut items: Vec<T> = Vec::new();
    let mut first: Option<BrowseCursor> = None;
    let mut last: Option<BrowseCursor> = None;
    let n = kept.len();
    let mut i: usize = 0;
    let ghost all = kept@;
    while i < n
        invariant
            n == all.len(),
            shown.len() == n,
            i <= n,
            kept@ == (match direction {
                BrowseDirection::Forward => all.skip(i as int),
                BrowseDirection::Backward => all.take(n - i),
            }),
            shown == (match direction {
                BrowseDirection::Forward => all,
                BrowseDirection::Backward => all.reverse(),
            }),
            items@ == shown.take(i as int).map_values(|p: (BrowseCursor, T)| p.1),
            i == 0 ==> first is None && last is None,
            i > 0 ==> first == Some(shown[0].0) && last == Some(shown[i - 1].0),
        decreases n - i,
    {
        let row = match direction {
            BrowseDirection::Forward => kept.remove(0),
            BrowseDirection::Backward => {
                let popped = kept.pop();
                match popped {
                    Some(x) => x,
                    None => {
                        proof {
                            assert(false);
                        }
                        return BrowsePage {
                            items,
                            previous_cursor: first,
                            next_cursor: last,
                            has_more,
                        };
                    },
                }
            },
        };
        proof {
            match direction {
                BrowseDirection::Forward => {
                    assert(row == all[i as int]);
                    assert(all.skip(i as int).remove(0) =~= all.skip(i as int + 1));
                },
                BrowseDirection::Backward => {
                    assert(row == all[n - i - 1]);
                    assert(all.take(n - i).subrange(0, n - i - 1) =~= all.take(n - i - 1));
                },
            }
            assert(row == shown[i as int]);
        }
        let (cursor, item) = row;
        if i == 0 {
            first = Some(cursor.duplicate());
        }
        last = Some(cursor);
        items.push(item);
        proof {
            assert(shown.take(i as int + 1) =~= shown.take(i as int).push(shown[i as int]));
        }
        i += 1;
    }
    proof {
        assert(shown.take(n as int) =~= shown);
    }
    BrowsePage { items, previous_cursor: first, next_cursor: last, has_more }
}

} // verus!
