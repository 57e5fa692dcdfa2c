//! The order of `String`'s `Ord` on character sequences (code-point
//! lexicographic order), and sorted, duplicate-free insertion.
use vstd::prelude::*;

verus! {

/// `a` sorts strictly before `b`: a proper prefix, or smaller at the first
/// difference.
pub open spec fn lex_lt(a: Seq<char>, b: Seq<char>) -> bool
    decreases a.len(),
{
    if a.len() == 0 {
        b.len() > 0
    } else if b.len() == 0 {
        false
    } else if a[0] != b[0] {
        (a[0] as int) < (b[0] as int)
    } else {
        lex_lt(a.drop_first(), b.drop_first())
    }
}

/// Strictly increasing, hence without duplicates.
pub open spec fn strictly_sorted(s: Seq<Seq<char>>) -> bool {
    forall|i: int, j: int| 0 <= i < j < s.len() ==> lex_lt(#[trigger] s[i], #[trigger] s[j])
}

pub proof fn lemma_lex_irreflexive(a: Seq<char>)
    ensures
        !lex_lt(a, a),
    decreases a.len(),
{
    if a.len() > 0 {
        lemma_lex_irreflexive(a.drop_first());
    }
}

pub proof fn lemma_lex_asymmetric(a: Seq<char>, b: Seq<char>)
    ensures
        !(lex_lt(a, b) && lex_lt(b, a)),
    decreases a.len(),
{
    if a.len() > 0 && b.len() > 0 && a[0] == b[0] {
        lemma_lex_asymmetric(a.drop_first(), b.drop_first());
    }
}

pub proof fn lemma_lex_total(a: Seq<char>, b: Seq<char>)
    ensures
        a == b || lex_lt(a, b) || lex_lt(b, a),
    decreases a.len(),
{
    if a.len() > 0 && b.len() > 0 && a[0] == b[0] {
        lemma_lex_total(a.drop_first(), b.drop_first());
        if a.drop_first() == b.drop_first() {
            assert(a =~= seq![a[0]] + a.drop_first());
            assert(b =~= seq![b[0]] + b.drop_first());
        }
    } else if a.len() == 0 && b.len() == 0 {
        assert(a =~= b);
    } else if a.len() > 0 && b.len() > 0 {
        assert((a[0] as int) != (b[0] as int));
    }
}

pub proof fn lemma_lex_transitive(a: Seq<char>, b: Seq<char>, c: Seq<char>)
    requires
        lex_lt(a, b),
        lex_lt(b, c),
    ensures
        lex_lt(a, c),
    decreases a.len(),
{
    if a.len() > 0 && b.len() > 0 && c.len() > 0 && a[0] == b[0] && b[0] == c[0] {
        lemma_lex_transitive(a.drop_first(), b.drop_first(), c.drop_first());
    }
}

/// Compares `a` with `b`: negative, zero or positive as `a` sorts before,
/// equals or sorts after `b`.
pub fn lex_compare(a: &[char], b: &[char]) -> (r: i8)
    ensures
        r < 0 <==> lex_lt(a@, b@),
        r == 0 <==> a@ == b@,
        r > 0 <==> lex_lt(b@, a@),
{
    let mut i: usize = 0;
    assert(a@.skip(0) =~= a@ && b@.skip(0) =~= b@);
    assert(a@.take(0) =~= b@.take(0));
    while i < a.len() && i < b.len()
        invariant
            i <= a.len(),
            i <= b.len(),
            a@.take(i as int) == b@.take(i as int),
            lex_lt(a@, b@) == lex_lt(a@.skip(i as int), b@.skip(i as int)),
            lex_lt(b@, a@) == lex_lt(b@.skip(i as int), a@.skip(i as int)),
        decreases a.len() - i,
    {
        let x = a[i];
        let y = b[i];
        assert(a@.skip(i as int)[0] == x && b@.skip(i as int)[0] == y);
        if x < y {
            proof {
                lemma_lex_asymmetric(a@, b@);
                assert(a@ != b@ ==> true);
                if a@ == b@ {
                    assert(a@[i as int] == b@[i as int]);
                }
            }
            return -1;
        }
        if y < x {
            proof {
                lemma_lex_asymmetric(a@, b@);
                if a@ == b@ {
                    assert(a@[i as int] == b@[i as int]);
                }
            }
            return 1;
        }
        proof {
            assert(a@.skip(i as int).drop_first() =~= a@.skip(i as int + 1));
            assert(b@.skip(i as int).drop_first() =~= b@.skip(i as int + 1));
            assert(a@.take(i as int + 1) =~= a@.take(i as int).push(x));
            assert(b@.take(i as int + 1) =~= b@.take(i as int).push(y));
        }
        i += 1;
    }
    proof {
        lemma_lex_asymmetric(a@, b@);
        if a.len() == b.len() {
            assert(a@ =~= a@.take(i as int));
            assert(b@ =~= b@.take(i as int));
        } else if a.len() < b.len() {
            assert(a@ != b@);
        } else {
            assert(a@ != b@);
        }
    }
    if a.len() < b.len() {
        -1
    } else if b.len() < a.len() {
        1
    } else {
        0
    }
}

pub open spec fn views(v: Seq<Vec<char>>) -> Seq<Seq<char>> {
    v.map_values(|w: Vec<char>| w@)
}

/// Adds `x` to the strictly sorted `set`, unless it is already there.
pub fn insert_sorted(set: &mut Vec<Vec<char>>, x: Vec<char>)
    requires
        strictly_sorted(views(old(set)@)),
    ensures
        strictly_sorted(views(final(set)@)),
        views(final(set)@).to_set() == views(old(set)@).to_set().insert(x@),
{
    let ghost before = views(set@);
    let mut j: usize = 0;
    while j < set.len()
        invariant
            j <= set.len(),
            set@ == old(set)@,
            before == views(set@),
            strictly_sorted(before),
            forall|m: int| 0 <= m < j ==> lex_lt(#[trigger] before[m], x@),
        decreases set.len() - j,
    {
        let c = lex_compare(x.as_slice(), set[j].as_slice());
        assert(before[j as int] == set@[j as int]@);
        if c == 0 {
            proof {
                assert(before.to_set().insert(x@) =~= before.to_set());
            }
            return;
        }
        if c < 0 {
            let ghost xv = x@;
            set.insert(j, x);
            proof {
                let after = views(set@);
                assert(after =~= before.insert(j as int, xv));
                assert forall|a: int, b: int| 0 <= a < b < after.len() implies lex_lt(
                    #[trigger] after[a],
                    #[trigger] after[b],
                ) by {
                    if b == j {
                        assert(after[a] == before[a]);
                    } else if a == j {
                        assert(after[b] == before[b - 1]);
                        if b - 1 > j {
                            lemma_lex_transitive(xv, before[j as int], before[b - 1]);
                        }
                    } else if a < j && b > j {
                        assert(after[a] == before[a]);
                        assert(after[b] == before[b - 1]);
                        lemma_lex_transitive(before[a], xv, before[j as int]);
                        if b - 1 > j {
                            lemma_lex_transitive(before[a], before[j as int], before[b - 1]);
                        }
                    } else if b < j {
                        assert(after[a] == before[a] && after[b] == before[b]);
                    } else {
                        assert(after[a] == before[a - 1] && after[b] == before[b - 1]);
                    }
                }
                assert(after.to_set() =~= before.to_set().insert(xv)) by {
                    assert forall|e: Seq<char>| after.to_set().contains(e) implies before.to_set().insert(
                        xv,
                    ).contains(e) by {
                        let k = choose|k: int| 0 <= k < after.len() && after[k] == e;
                        if k < j {
                            assert(after[k] == before[k]);
                        } else if k > j {
                            assert(after[k] == before[k - 1]);
                        }
                    }
                    assert forall|e: Seq<char>| before.to_set().insert(xv).contains(e) implies after.to_set().contains(
                        e,
                    ) by {
                        if e == xv {
                            assert(after[j as int] == xv);
                        } else {
                            let k = choose|k: int| 0 <= k < before.len() && before[k] == e;
                            if k < j {
                                assert(after[k] == e);
                            } else {
                                assert(after[k + 1] == e);
                            }
                        }
                    }
                }
            }
            return;
        }
        j += 1;
    }
    let ghost xv = x@;
    set.push(x);
    proof {
        let after = views(set@);
        assert(after =~= before.push(xv));
        assert forall|a: int, b: int| 0 <= a < b < after.len() implies lex_lt(
            #[trigger] after[a],
            #[trigger] after[b],
        ) by {
            if b == before.len() {
                assert(after[a] == before[a]);
            } else {
                assert(after[a] == before[a] && after[b] == before[b]);
            }
        }
        assert(after.to_set() =~= before.to_set().insert(xv)) by {
            assert forall|e: Seq<char>| after.to_set().contains(e) implies before.to_set().insert(
                xv,
            ).contains(e) by {
                let k = choose|k: int| 0 <= k < after.len() && after[k] == e;
                if k < before.len() {
                    assert(after[k] == before[k]);
                }
            }
            assert forall|e: Seq<char>| before.to_set().insert(xv).contains(e) implies after.to_set().contains(
                e,
            ) by {
                if e == xv {
                    assert(after[before.len() as int] == xv);
                } else {
                    let k = choose|k: int| 0 <= k < before.len() && before[k] == e;
                    assert(after[k] == e);
                }
            }
        }
    }
}

} // verus!
