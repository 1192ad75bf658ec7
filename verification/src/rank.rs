//! Ranking of codes by their edit distance to what the operator typed.

use vstd::prelude::*;
use crate::levenshtein::{distance, levenshtein_distance};
use crate::sorted_map::SortedMap;
use crate::text::{lemma_lex_lt_irreflexive, lemma_lex_lt_total, lex_lt};

verus! {

/// `order` names the place `k`.
pub open spec fn names(order: Seq<usize>, k: int) -> bool {
    exists|i: int| 0 <= i < order.len() && #[trigger] order[i] == k
}

/// `order` names every place of `dist` once, the places of lesser distance
/// first and, of two places of one distance, the earlier place first.
pub open spec fn is_order(order: Seq<usize>, dist: Seq<usize>) -> bool {
    &&& order.len() == dist.len()
    &&& forall|i: int| 0 <= i < order.len() ==> (#[trigger] order[i]) < dist.len()
    &&& forall|k: int| 0 <= k < dist.len() ==> #[trigger] names(order, k)
    &&& forall|i: int, j: int|
        0 <= i < j < order.len() ==> {
            let a = #[trigger] order[i] as int;
            let b = #[trigger] order[j] as int;
            dist[a] < dist[b] || (dist[a] == dist[b] && a < b)
        }
}

/// The places of `dist` have one order only.
pub proof fn lemma_order_unique(p: Seq<usize>, q: Seq<usize>, dist: Seq<usize>)
    requires
        is_order(p, dist),
        is_order(q, dist),
    ensures
        p == q,
{
    assert forall|i: int| 0 <= i < p.len() implies p[i] == q[i] by {
        lemma_order_at(p, q, dist, i);
    }
    assert(p =~= q);
}

/// In an order, as many places come before the place named at `i` as `i` says;
/// so two orders name the same place there.
proof fn lemma_order_at(p: Seq<usize>, q: Seq<usize>, dist: Seq<usize>, i: int)
    requires
        is_order(p, dist),
        is_order(q, dist),
        0 <= i < p.len(),
    ensures
        p[i] == q[i],
    decreases p.len() - i,
{
    // Everything named after `i` is the same in both, by induction from the end.
    if i + 1 < p.len() {
        lemma_order_at(p, q, dist, i + 1);
    }
    assert forall|j: int| i < j < p.len() implies p[j] == q[j] by {
        lemma_order_at(p, q, dist, j);
    }
    let x = p[i] as int;
    assert(names(q, x));
    let k = choose|k: int| 0 <= k < q.len() && #[trigger] q[k] == x;
    if k > i {
        // Then `p` names x twice.
        assert(p[k] == q[k]);
        let a = p[i] as int;
        let b = p[k] as int;
        assert(dist[a] < dist[b] || (dist[a] == dist[b] && a < b));
    } else if k < i {
        // Then the place that `q` names at `i` comes after x in `q`, and before
        // it in `p`.
        let y = q[i] as int;
        assert(names(p, y));
        let m = choose|m: int| 0 <= m < p.len() && #[trigger] p[m] == y;
        let a = q[k] as int;
        let b = q[i] as int;
        assert(dist[a] < dist[b] || (dist[a] == dist[b] && a < b));
        if m > i {
            assert(p[m] == q[m]);
            let c = q[m] as int;
            assert(dist[b] < dist[c] || (dist[b] == dist[c] && b < c));
        } else if m < i {
            let c = p[m] as int;
            let d = p[i] as int;
            assert(dist[c] < dist[d] || (dist[c] == dist[d] && c < d));
        }
    }
}

/// The places of `dist` in ascending order of the distance found there. Places
/// of one distance keep the order in which they stand.
pub fn order_by_distance(dist: &Vec<usize>) -> (order: Vec<usize>)
    ensures
        is_order(order@, dist@),
{
    let mut order: Vec<usize> = Vec::new();
    let n = dist.len();
    let mut k: usize = 0;
    while k < n
        invariant
            k <= n,
            n == dist.len(),
            order.len() == k,
            is_order(order@, dist@.take(k as int)),
        decreases n - k,
    {
        let d = dist[k];
        let mut at: usize = k;
        while at > 0 && dist[order[at - 1]] > d
            invariant
                at <= k < n,
                n == dist.len(),
                d == dist[k as int],
                order.len() == k,
                is_order(order@, dist@.take(k as int)),
                forall|i: int| at <= i < k ==> dist@[order@[i] as int] > d,
            decreases at,
        {
            at -= 1;
        }
        let ghost before = order@;
        order.insert(at, k);
        proof {
            let old_dist = dist@.take(k as int);
            let new_dist = dist@.take(k + 1);
            let now = order@;
            assert(now == before.insert(at as int, k));
            assert forall|i: int| 0 <= i < now.len() implies (#[trigger] now[i]) < new_dist.len() by {
                if i < at {
                    assert(now[i] == before[i]);
                } else if i > at {
                    assert(now[i] == before[i - 1]);
                }
            }
            assert forall|q: int| 0 <= q < new_dist.len() implies #[trigger] names(now, q) by {
                if q == k {
                    assert(now[at as int] == q);
                } else {
                    assert(names(before, q));
                    let i = choose|i: int| 0 <= i < before.len() && #[trigger] before[i] == q;
                    if i < at {
                        assert(now[i] == q);
                    } else {
                        assert(now[i + 1] == q);
                    }
                }
            }
            assert forall|i: int, j: int| 0 <= i < j < now.len() implies {
                let a = #[trigger] now[i] as int;
                let b = #[trigger] now[j] as int;
                new_dist[a] < new_dist[b] || (new_dist[a] == new_dist[b] && a < b)
            } by {
                let a = now[i] as int;
                let b = now[j] as int;
                if j < at {
                    assert(now[i] == before[i] && now[j] == before[j]);
                } else if j == at {
                    assert(now[i] == before[i]);
                    // Everything before `at` is no farther than the new place.
                    if at > 0 {
                        assert(dist@[before[at - 1] as int] <= d);
                        if i < at - 1 {
                            let x = before[i] as int;
                            let y = before[at - 1] as int;
                            assert(old_dist[x] < old_dist[y] || (old_dist[x] == old_dist[y] && x < y));
                        }
                    }
                } else if i < at {
                    assert(now[i] == before[i] && now[j] == before[j - 1]);
                    if i < j - 1 {
                        let x = before[i] as int;
                        let y = before[j - 1] as int;
                        assert(old_dist[x] < old_dist[y] || (old_dist[x] == old_dist[y] && x < y));
                    }
                } else if i == at {
                    assert(now[j] == before[j - 1]);
                } else {
                    assert(now[i] == before[i - 1] && now[j] == before[j - 1]);
                    let x = before[i - 1] as int;
                    let y = before[j - 1] as int;
                    assert(old_dist[x] < old_dist[y] || (old_dist[x] == old_dist[y] && x < y));
                }
            }
        }
        k += 1;
    }
    assert(dist@.take(n as int) =~= dist@);
    order
}

/// Whether an entry at distance `d1` with the code `c1` is ranked before one at
/// distance `d2` with the code `c2`: the nearer first and, of two equally
/// near, the one with the lesser code.
pub open spec fn ranked_before(c1: Seq<char>, d1: usize, c2: Seq<char>, d2: usize) -> bool {
    d1 < d2 || (d1 == d2 && lex_lt(c1, c2))
}

/// `r` ranks the codes of `items` against `query`: each code once, with its
/// value and its distance to the query, the nearest code first.
pub open spec fn is_ranking<V>(r: Seq<(Seq<char>, V, usize)>, items: Map<Seq<char>, V>, query: Seq<char>) -> bool {
    &&& forall|i: int|
        0 <= i < r.len() ==> items.contains_pair((#[trigger] r[i]).0, r[i].1) && r[i].2 == distance(
            r[i].0,
            query,
        )
    &&& forall|k: Seq<char>| #[trigger]
        items.dom().contains(k) ==> exists|i: int| 0 <= i < r.len() && (#[trigger] r[i]).0 == k
    &&& forall|i: int, j: int|
        0 <= i < j < r.len() ==> ranked_before(
            (#[trigger] r[i]).0,
            r[i].2,
            (#[trigger] r[j]).0,
            r[j].2,
        )
}

/// The ranking of the codes of `items` against `query`.
pub open spec fn ranking_of<V>(items: Map<Seq<char>, V>, query: Seq<char>) -> Seq<(Seq<char>, V, usize)> {
    choose|r: Seq<(Seq<char>, V, usize)>| is_ranking(r, items, query)
}

/// Of two entries at most one is ranked before the other, and none before an
/// entry with its own code and distance.
proof fn lemma_ranked_before_asymmetric(c1: Seq<char>, d1: usize, c2: Seq<char>, d2: usize)
    requires
        ranked_before(c1, d1, c2, d2),
    ensures
        !ranked_before(c2, d2, c1, d1),
        c1 == c2 ==> d1 != d2,
{
    lemma_lex_lt_total(c1, c2);
}

/// A map and a query have one ranking only.
pub proof fn lemma_ranking_unique<V>(
    s: Seq<(Seq<char>, V, usize)>,
    t: Seq<(Seq<char>, V, usize)>,
    items: Map<Seq<char>, V>,
    query: Seq<char>,
)
    requires
        is_ranking(s, items, query),
        is_ranking(t, items, query),
    ensures
        s == t,
    decreases s.len(),
{
    if s.len() == 0 {
        if t.len() > 0 {
            assert(items.contains_pair(t[0].0, t[0].1));
            assert(items.dom().contains(t[0].0));
        }
        assert(s =~= t);
    } else {
        let x = s[s.len() - 1];
        assert(items.contains_pair(x.0, x.1));
        assert(items.dom().contains(x.0));
        let j = choose|j: int| 0 <= j < t.len() && (#[trigger] t[j]).0 == x.0;
        assert(items.contains_pair(t[j].0, t[j].1));
        assert(t[j] == x);
        if j < t.len() - 1 {
            let y = t[t.len() - 1];
            assert(ranked_before(t[j].0, t[j].2, y.0, y.2));
            lemma_ranked_before_asymmetric(x.0, x.2, y.0, y.2);
            assert(items.contains_pair(y.0, y.1));
            assert(items.dom().contains(y.0));
            let i = choose|i: int| 0 <= i < s.len() && (#[trigger] s[i]).0 == y.0;
            assert(items.contains_pair(s[i].0, s[i].1));
            assert(s[i] == y);
            if i < s.len() - 1 {
                assert(ranked_before(s[i].0, s[i].2, x.0, x.2));
            }
        }
        let rest = items.remove(x.0);
        let s2 = s.drop_last();
        let t2 = t.drop_last();
        assert(is_ranking(s2, rest, query)) by {
            assert forall|i: int| 0 <= i < s2.len() implies rest.contains_pair(
                (#[trigger] s2[i]).0,
                s2[i].1,
            ) && s2[i].2 == distance(s2[i].0, query) by {
                assert(s2[i] == s[i]);
                assert(ranked_before(s[i].0, s[i].2, x.0, x.2));
                lemma_ranked_before_asymmetric(s[i].0, s[i].2, x.0, x.2);
            }
            assert forall|k: Seq<char>| #[trigger] rest.dom().contains(k) implies exists|i: int|
                0 <= i < s2.len() && (#[trigger] s2[i]).0 == k by {
                assert(items.dom().contains(k));
                let i = choose|i: int| 0 <= i < s.len() && (#[trigger] s[i]).0 == k;
                assert(s2[i] == s[i]);
            }
            assert forall|i: int, j: int| 0 <= i < j < s2.len() implies ranked_before(
                (#[trigger] s2[i]).0,
                s2[i].2,
                (#[trigger] s2[j]).0,
                s2[j].2,
            ) by {
                assert(s2[i] == s[i] && s2[j] == s[j]);
            }
        }
        assert(is_ranking(t2, rest, query)) by {
            assert forall|i: int| 0 <= i < t2.len() implies rest.contains_pair(
                (#[trigger] t2[i]).0,
                t2[i].1,
            ) && t2[i].2 == distance(t2[i].0, query) by {
                assert(t2[i] == t[i]);
                assert(ranked_before(t[i].0, t[i].2, x.0, x.2));
                lemma_ranked_before_asymmetric(t[i].0, t[i].2, x.0, x.2);
            }
            assert forall|k: Seq<char>| #[trigger] rest.dom().contains(k) implies exists|i: int|
                0 <= i < t2.len() && (#[trigger] t2[i]).0 == k by {
                assert(items.dom().contains(k));
                let i = choose|i: int| 0 <= i < t.len() && (#[trigger] t[i]).0 == k;
                assert(t2[i] == t[i]);
            }
            assert forall|i: int, j: int| 0 <= i < j < t2.len() implies ranked_before(
                (#[trigger] t2[i]).0,
                t2[i].2,
                (#[trigger] t2[j]).0,
                t2[j].2,
            ) by {
                assert(t2[i] == t[i] && t2[j] == t[j]);
            }
        }
        lemma_ranking_unique(s2, t2, rest, query);
        assert(s =~= s2.push(x));
        assert(t =~= t2.push(x));
    }
}

/// A code that is the query itself stands first in the ranking, at distance 0.
pub proof fn lemma_exact_match_first<V>(r: Seq<(Seq<char>, V, usize)>, items: Map<Seq<char>, V>, query: Seq<char>)
    requires
        is_ranking(r, items, query),
        items.dom().contains(query),
    ensures
        r.len() > 0,
        r[0].0 == query,
        r[0].2 == 0,
{
    crate::levenshtein::lemma_distance_self(query);
    let i = choose|i: int| 0 <= i < r.len() && (#[trigger] r[i]).0 == query;
    if i > 0 {
        assert(ranked_before(r[0].0, r[0].2, r[i].0, r[i].2));
        crate::levenshtein::lemma_distance_zero(r[0].0, query);
        lemma_lex_lt_irreflexive(query);
    }
}

/// The codes of a ranking with their distances, without the values.
pub open spec fn without_values(r: Seq<(Seq<char>, (), usize)>) -> Seq<(Seq<char>, usize)> {
    Seq::new(r.len(), |i: int| (r[i].0, r[i].2))
}

/// The rows of a ranking as plain values.
pub open spec fn ranked_view<V>(r: Seq<(String, V, usize)>) -> Seq<(Seq<char>, V, usize)> {
    Seq::new(r.len(), |i: int| (r[i].0@, r[i].1, r[i].2))
}

/// Ranks the keys of `map` against `query`.
pub fn rank<V: Copy>(map: &SortedMap<V>, query: &str) -> (r: Vec<(String, V, usize)>)
    requires
        map.wf(),
    ensures
        is_ranking(ranked_view(r@), map@, query@),
        ranked_view(r@) == ranking_of(map@, query@),
        r.len() == map.listing().len(),
{
    let n = map.len();
    let ghost listing = map.listing();
    proof {
        map.lemma_listing();
    }
    let mut dist: Vec<usize> = Vec::new();
    let mut i: usize = 0;
    while i < n
        invariant
            i <= n,
            n == map.listing().len(),
            dist.len() == i,
            forall|k: int| 0 <= k < i ==> dist[k] == distance(map.listing()[k].0, query@),
        decreases n - i,
    {
        dist.push(levenshtein_distance(map.key_at(i).as_str(), query));
        i += 1;
    }
    let order = order_by_distance(&dist);
    let mut r: Vec<(String, V, usize)> = Vec::new();
    let mut i: usize = 0;
    while i < n
        invariant
            i <= n,
            n == map.listing().len(),
            n == dist.len(),
            is_order(order@, dist@),
            r.len() == i,
            forall|k: int|
                0 <= k < i ==> (#[trigger] r[k]).0@ == map.listing()[order[k] as int].0 && r[k].1
                    == map.listing()[order[k] as int].1 && r[k].2 == dist[order[k] as int],
        decreases n - i,
    {
        let at = order[i];
        r.push((map.key_at(at).clone(), map.value_at(at), dist[at]));
        i += 1;
    }
    proof {
        let v = ranked_view(r@);
        assert forall|k: int| 0 <= k < v.len() implies (#[trigger] v[k]).0 == listing[order[k] as int].0
            && v[k].1 == listing[order[k] as int].1 && v[k].2 == dist[order[k] as int] by {
            assert(v[k].0 == r[k].0@);
        }
        assert forall|k: int| 0 <= k < v.len() implies map@.contains_pair((#[trigger] v[k]).0, v[k].1)
            && v[k].2 == distance(v[k].0, query@) by {
            let at = order[k] as int;
            assert(map@.contains_pair(listing[at].0, listing[at].1));
        }
        assert forall|c: Seq<char>| #[trigger] map@.dom().contains(c) implies exists|k: int|
            0 <= k < v.len() && (#[trigger] v[k]).0 == c by {
            let at = choose|at: int| 0 <= at < listing.len() && #[trigger] listing[at].0 == c;
            assert(names(order@, at));
            let k = choose|k: int| 0 <= k < order@.len() && #[trigger] order@[k] == at;
            assert(v[k].0 == c);
        }
        assert forall|a: int, b: int| 0 <= a < b < v.len() implies ranked_before(
            (#[trigger] v[a]).0,
            v[a].2,
            (#[trigger] v[b]).0,
            v[b].2,
        ) by {
            let x = order@[a] as int;
            let y = order@[b] as int;
            assert(dist@[x] < dist@[y] || (dist@[x] == dist@[y] && x < y));
            if x < y {
                assert(lex_lt(listing[x].0, listing[y].0));
            }
        }
        assert(is_ranking(v, map@, query@));
        lemma_ranking_unique(v, ranking_of(map@, query@), map@, query@);
    }
    r
}

} // verus!
