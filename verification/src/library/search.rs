//! Searching the catalog: which candidate query a search text asks for, and
//! the order in which scored candidates are shown.
use crate::library::browse::{clamp_limit, collection_ok, text_or_empty};
use crate::library::order::{lemma_lex_irreflexive, lemma_lex_transitive, lex_compare, lex_lt};
use crate::text::{chars_of, push_chars, push_str, str_eq, string_of};
use vstd::prelude::*;

verus! {

/// How many candidates a prefix or full-text query reads before scoring.
pub const CANDIDATE_LIMIT: usize = 5000;

/// Which candidates a search reads.
#[derive(PartialEq, Eq, Debug)]
pub enum CandidateQuery {
    /// No text: the first rows by file name.
    Browse,
    /// One or two characters: search texts that start with the first
    /// character, or tags that start with the text.
    Prefix { first: String, tag_prefix: String },
    /// Longer texts: the full-text index.
    FullText,
}

/// A search's candidate query, collection filter, and how many rows it reads
/// and shows.
pub struct SearchPlan {
    pub collection: String,
    pub limit: usize,
    pub fetch: usize,
    pub query: CandidateQuery,
}

/// The `LIKE` patterns of a prefix query: the first character followed by
/// `%` (empty for an empty text), and the whole text followed by `%`.
pub open spec fn prefix_patterns_of(query: Seq<char>) -> (Seq<char>, Seq<char>) {
    (if query.len() == 0 {
        Seq::empty()
    } else {
        seq![query[0], '%']
    }, query.push('%'))
}

/// The patterns of a prefix query for the normalized `query`.
pub fn prefix_patterns(query: &str) -> (r: (String, String))
    ensures
        r.0@ == prefix_patterns_of(query@).0,
        r.1@ == prefix_patterns_of(query@).1,
{
    let q = chars_of(query);
    let mut first: Vec<char> = Vec::new();
    if q.len() > 0 {
        first.push(q[0]);
        first.push('%');
        assert(first@ =~= seq![q@[0], '%']);
    }
    let mut tag: Vec<char> = Vec::new();
    push_chars(&mut tag, q.as_slice());
    tag.push('%');
    (string_of(first.as_slice()), string_of(tag.as_slice()))
}

/// The plan of a search for the normalized text `query`: the collection
/// must be empty, `music` or `effects`; the limit is brought into `1..=500`;
/// an empty text browses, a text of one or two characters runs a prefix
/// query, a longer one the full-text index (both read up to 5000 rows).
pub fn search_plan(query: &str, collection: Option<&str>, limit: usize) -> (r: Result<
    SearchPlan,
    String,
>)
    ensures
        !collection_ok(text_or_empty(collection)) ==> r is Err && r->Err_0@
            == "invalid_library_collection"@,
        collection_ok(text_or_empty(collection)) ==> r is Ok && ({
            let p = r->Ok_0;
            &&& p.collection@ == text_or_empty(collection)
            &&& p.limit == clamp_limit(limit)
            &&& query@.len() == 0 ==> p.query == CandidateQuery::Browse && p.fetch == p.limit
            &&& 0 < query@.len() <= 2 ==> (p.fetch == CANDIDATE_LIMIT && (p.query matches CandidateQuery::Prefix { first, tag_prefix }
                && first@ == prefix_patterns_of(query@).0 && tag_prefix@ == prefix_patterns_of(
                query@,
            ).1))
            &&& query@.len() > 2 ==> p.query == CandidateQuery::FullText && p.fetch
                == CANDIDATE_LIMIT
        }),
{
    proof {
        reveal_strlit("");
    }
    let c: &str = match collection {
        Some(s) => s,
        None => "",
    };
    if !(c.is_empty() || str_eq(c, "music") || str_eq(c, "effects")) {
        return Err("invalid_library_collection".to_owned());
    }
    let safe_limit: usize = if limit < 1 {
        1
    } else if limit > 500 {
        500
    } else {
        limit
    };
    let q = chars_of(query);
    let (query_kind, fetch) = if q.len() == 0 {
        (CandidateQuery::Browse, safe_limit)
    } else if q.len() <= 2 {
        let (first, tag_prefix) = prefix_patterns(query);
        (CandidateQuery::Prefix { first, tag_prefix }, CANDIDATE_LIMIT)
    } else {
        (CandidateQuery::FullText, CANDIDATE_LIMIT)
    };
    Ok(SearchPlan { collection: c.to_owned(), limit: safe_limit, fetch, query: query_kind })
}

/// The order of results: higher score first, then by file name, then by path.
pub open spec fn ranks_before(a: (i64, Seq<char>, Seq<char>), b: (i64, Seq<char>, Seq<char>)) -> bool {
    ||| a.0 > b.0
    ||| (a.0 == b.0 && lex_lt(a.1, b.1))
    ||| (a.0 == b.0 && a.1 == b.1 && lex_lt(a.2, b.2))
}

proof fn lemma_ranks_transitive(
    a: (i64, Seq<char>, Seq<char>),
    b: (i64, Seq<char>, Seq<char>),
    c: (i64, Seq<char>, Seq<char>),
)
    requires
        ranks_before(a, b),
        ranks_before(b, c),
    ensures
        ranks_before(a, c),
{
    if a.0 == b.0 && b.0 == c.0 {
        if lex_lt(a.1, b.1) && lex_lt(b.1, c.1) {
            lemma_lex_transitive(a.1, b.1, c.1);
        } else if a.1 == b.1 && b.1 == c.1 {
            lemma_lex_transitive(a.2, b.2, c.2);
        }
    }
}

proof fn lemma_ranks_irreflexive(a: (i64, Seq<char>, Seq<char>))
    ensures
        !ranks_before(a, a),
{
    lemma_lex_irreflexive(a.1);
    lemma_lex_irreflexive(a.2);
}

/// A scored candidate: its score, file name, path, and the result it shows.
pub struct Scored<T> {
    pub score: i64,
    pub file_name: String,
    pub path: String,
    pub item: T,
}

pub open spec fn rank_key<T>(s: Scored<T>) -> (i64, Seq<char>, Seq<char>) {
    (s.score, s.file_name@, s.path@)
}

/// `r` holds the candidates of `s` in result order, candidates that rank
/// the same keeping their order.
pub open spec fn ranked<T>(s: Seq<Scored<T>>, r: Seq<Scored<T>>) -> bool {
    &&& r.len() == s.len()
    &&& forall|a: int, b: int|
        0 <= a < b < r.len() ==> !ranks_before(rank_key(#[trigger] r[b]), rank_key(#[trigger] r[a]))
    &&& exists|perm: Seq<int>|
        {
            &&& perm.len() == s.len()
            &&& (forall|k: int| 0 <= k < s.len() ==> 0 <= #[trigger] perm[k] < s.len())
            &&& (forall|a: int, b: int|
                0 <= a < b < s.len() ==> #[trigger] perm[a] != #[trigger] perm[b])
            &&& (forall|k: int| 0 <= k < r.len() ==> #[trigger] r[k] == s[perm[k]])
            &&& forall|a: int, b: int|
                0 <= a < b < r.len() && rank_key(r[a]) == rank_key(r[b]) ==> #[trigger] perm[a]
                    < #[trigger] perm[b]
        }
}

fn ranks_before_exec(
    xs: i64,
    xn: &[char],
    xp: &[char],
    ys: i64,
    yn: &[char],
    yp: &[char],
) -> (r: bool)
    ensures
        r == ranks_before((xs, xn@, xp@), (ys, yn@, yp@)),
{
    if xs != ys {
        return xs > ys;
    }
    let c = lex_compare(xn, yn);
    if c != 0 {
        return c < 0;
    }
    lex_compare(xp, yp) < 0
}

/// The scored candidates in result order (a stable sort: higher score
/// first, then file name, then path).
pub fn rank<T>(scored: Vec<Scored<T>>) -> (r: Vec<Scored<T>>)
    ensures
        ranked(scored@, r@),
{
    let ghost src = scored@;
    let n = scored.len();
    let mut rest = scored;
    let mut out: Vec<Scored<T>> = Vec::new();
    let ghost mut perm: Seq<int> = Seq::empty();
    let mut i: usize = 0;
    while i < n
        invariant
            i <= n,
            n == src.len(),
            rest@ == src.skip(i as int),
            out.len() == i,
            perm.len() == i,
            forall|k: int| 0 <= k < i ==> 0 <= #[trigger] perm[k] < i,
            forall|a: int, b: int| 0 <= a < b < i ==> #[trigger] perm[a] != #[trigger] perm[b],
            forall|k: int| 0 <= k < i ==> #[trigger] out@[k] == src[perm[k]],
            forall|a: int, b: int|
                0 <= a < b < i ==> !ranks_before(
                    rank_key(#[trigger] out@[b]),
                    rank_key(#[trigger] out@[a]),
                ),
            forall|a: int, b: int|
                0 <= a < b < i && rank_key(out@[a]) == rank_key(out@[b]) ==> #[trigger] perm[a]
                    < #[trigger] perm[b],
        decreases n - i,
    {
        let e = rest.remove(0);
        assert(e == src[i as int]);
        assert(src.skip(i as int).remove(0) =~= src.skip(i + 1));
        let xn = chars_of(e.file_name.as_str());
        let xp = chars_of(e.path.as_str());
        let ghost key_x = rank_key(e);
        let mut pos: usize = 0;
        while pos < out.len()
            invariant
                pos <= out.len(),
                xn@ == key_x.1,
                xp@ == key_x.2,
                key_x == rank_key(e),
                forall|k: int| 0 <= k < pos ==> !ranks_before(key_x, rank_key(#[trigger] out@[k])),
            ensures
                pos <= out.len(),
                forall|k: int| 0 <= k < pos ==> !ranks_before(key_x, rank_key(#[trigger] out@[k])),
                pos < out.len() ==> ranks_before(key_x, rank_key(out@[pos as int])),
            decreases out.len() - pos,
        {
            let yn = chars_of(out[pos].file_name.as_str());
            let yp = chars_of(out[pos].path.as_str());
            if ranks_before_exec(
                e.score,
                xn.as_slice(),
                xp.as_slice(),
                out[pos].score,
                yn.as_slice(),
                yp.as_slice(),
            ) {
                break;
            }
            pos += 1;
        }
        let ghost old_out = out@;
        let ghost old_perm = perm;
        proof {
            if pos < old_out.len() {
                assert(ranks_before(key_x, rank_key(old_out[pos as int])));
            }
        }
        out.insert(pos, e);
        proof {
            perm = old_perm.insert(pos as int, i as int);
            let new_out = out@;
            assert(new_out =~= old_out.insert(pos as int, src[i as int]));
            assert forall|k: int| 0 <= k < i + 1 implies 0 <= #[trigger] perm[k] < i + 1 by {
                if k < pos {
                    assert(perm[k] == old_perm[k]);
                } else if k > pos {
                    assert(perm[k] == old_perm[k - 1]);
                }
            }
            assert forall|a: int, b: int| 0 <= a < b < i + 1 implies #[trigger] perm[a]
                != #[trigger] perm[b] by {
                if a != pos && b != pos {
                    let oa = if a < pos {
                        a
                    } else {
                        a - 1
                    };
                    let ob = if b < pos {
                        b
                    } else {
                        b - 1
                    };
                    assert(perm[a] == old_perm[oa] && perm[b] == old_perm[ob]);
                } else if a == pos {
                    assert(perm[b] == old_perm[b - 1]);
                } else {
                    assert(perm[a] == old_perm[a]);
                }
            }
            assert forall|k: int| 0 <= k < i + 1 implies #[trigger] new_out[k] == src[perm[k]] by {
                if k < pos {
                    assert(new_out[k] == old_out[k] && perm[k] == old_perm[k]);
                } else if k > pos {
                    assert(new_out[k] == old_out[k - 1] && perm[k] == old_perm[k - 1]);
                }
            }
            assert forall|a: int, b: int| 0 <= a < b < i + 1 implies !ranks_before(
                rank_key(#[trigger] new_out[b]),
                rank_key(#[trigger] new_out[a]),
            ) by {
                if a < pos && b < pos {
                    assert(new_out[a] == old_out[a] && new_out[b] == old_out[b]);
                } else if a > pos {
                    assert(new_out[a] == old_out[a - 1] && new_out[b] == old_out[b - 1]);
                } else if a < pos && b == pos {
                    assert(new_out[a] == old_out[a]);
                } else if a < pos && b > pos {
                    assert(new_out[a] == old_out[a] && new_out[b] == old_out[b - 1]);
                } else {
                    assert(new_out[b] == old_out[b - 1]);
                    assert(new_out[a] == src[i as int]);
                    lemma_ranks_irreflexive(rank_key(old_out[pos as int]));
                    if ranks_before(rank_key(old_out[b - 1]), key_x) {
                        lemma_ranks_transitive(
                            rank_key(old_out[b - 1]),
                            key_x,
                            rank_key(old_out[pos as int]),
                        );
                        if b - 1 > pos {
                            assert(!ranks_before(
                                rank_key(old_out[b - 1]),
                                rank_key(old_out[pos as int]),
                            ));
                        }
                    }
                }
            }
            assert forall|a: int, b: int|
                0 <= a < b < i + 1 && rank_key(new_out[a]) == rank_key(new_out[b]) implies #[trigger] perm[a]
                < #[trigger] perm[b] by {
                if a < pos && b < pos {
                    assert(new_out[a] == old_out[a] && new_out[b] == old_out[b]);
                    assert(perm[a] == old_perm[a] && perm[b] == old_perm[b]);
                } else if a > pos {
                    assert(new_out[a] == old_out[a - 1] && new_out[b] == old_out[b - 1]);
                    assert(perm[a] == old_perm[a - 1] && perm[b] == old_perm[b - 1]);
                } else if a < pos && b == pos {
                    assert(perm[a] == old_perm[a] && perm[b] == i);
                } else if a < pos && b > pos {
                    assert(new_out[a] == old_out[a] && new_out[b] == old_out[b - 1]);
                    assert(perm[a] == old_perm[a] && perm[b] == old_perm[b - 1]);
                } else {
                    assert(new_out[b] == old_out[b - 1]);
                    if b - 1 > pos {
                        assert(!ranks_before(
                            rank_key(old_out[b - 1]),
                            rank_key(old_out[pos as int]),
                        ));
                    }
                    assert(ranks_before(key_x, rank_key(old_out[pos as int])));
                    assert(false);
                }
            }
        }
        i += 1;
    }
    out
}

/// The results a search shows: the ranked candidates, at most `limit` of them.
pub fn top_results<T>(scored: Vec<Scored<T>>, limit: usize) -> (r: Vec<T>)
    ensures
        exists|full: Seq<Scored<T>>|
            ranked(scored@, full) && r@ == full.take(
                if full.len() > limit {
                    limit as int
                } else {
                    full.len() as int
                },
            ).map_values(|s: Scored<T>| s.item),
{
    let mut full = rank(scored);
    let ghost all = full@;
    full.truncate(limit);
    let ghost kept = full@;
    assert(kept =~= all.take(
        if all.len() > limit {
            limit as int
        } else {
            all.len() as int
        },
    ));
    let mut r: Vec<T> = Vec::new();
    let m = full.len();
    let mut i: usize = 0;
    while i < m
        invariant
            i <= m,
            m == kept.len(),
            full@ == kept.skip(i as int),
            r@ == kept.take(i as int).map_values(|s: Scored<T>| s.item),
        decreases m - i,
    {
        let s = full.remove(0);
        assert(s == kept[i as int]);
        assert(kept.skip(i as int).remove(0) =~= kept.skip(i + 1));
        r.push(s.item);
        assert(kept.take(i + 1).map_values(|s: Scored<T>| s.item) =~= kept.take(i as int).map_values(
            |s: Scored<T>| s.item,
        ).push(kept[i as int].item));
        i += 1;
    }
    assert(kept.take(m as int) =~= kept);
    r
}

} // verus!
