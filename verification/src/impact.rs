//! The impact of an approved major contract change: every node that lies
//! downstream of the changed one along the edges must be replanned.
use vstd::prelude::*;
use crate::text::{views, contains_string, str_eq};

verus! {

/// There is an edge from `a` to `b`.
pub open spec fn has_edge(edges: Seq<(String, String)>, a: Seq<char>, b: Seq<char>) -> bool {
    exists|e: int| 0 <= e < edges.len() && (#[trigger] edges[e]).0@ == a && edges[e].1@ == b
}

/// Each step of `p` follows an edge.
pub open spec fn is_walk(edges: Seq<(String, String)>, p: Seq<Seq<char>>) -> bool {
    forall|i: int| 0 <= i < p.len() - 1 ==> #[trigger] has_edge(edges, p[i], p[i + 1])
}

/// `x` is reached from `start` by following one edge or more.
pub open spec fn downstream(edges: Seq<(String, String)>, start: Seq<char>, x: Seq<char>) -> bool {
    exists|p: Seq<Seq<char>>| #[trigger] is_walk(edges, p) && p.len() >= 2 && p[0] == start && p.last() == x
}

/// How many edges leave `cur` among the first `n`.
pub open spec fn out_count(edges: Seq<(String, String)>, cur: Seq<char>, n: int) -> nat
    decreases n,
{
    if n <= 0 {
        0
    } else {
        out_count(edges, cur, n - 1) + if edges[n - 1].0@ == cur { 1nat } else { 0nat }
    }
}

/// How many of the first `n` edges leave a node not yet visited.
pub open spec fn pending(edges: Seq<(String, String)>, seen: Seq<Seq<char>>, n: int) -> nat
    decreases n,
{
    if n <= 0 {
        0
    } else {
        pending(edges, seen, n - 1) + if seen.contains(edges[n - 1].0@) { 0nat } else { 1nat }
    }
}

proof fn lemma_pending_step(edges: Seq<(String, String)>, seen: Seq<Seq<char>>, cur: Seq<char>, n: int)
    requires
        !seen.contains(cur),
        0 <= n <= edges.len(),
    ensures
        pending(edges, seen.push(cur), n) + out_count(edges, cur, n) == pending(edges, seen, n),
    decreases n,
{
    if n > 0 {
        lemma_pending_step(edges, seen, cur, n - 1);
        let x = edges[n - 1].0@;
        if x == cur {
            assert(seen.push(cur)[seen.len() as int] == cur);
        } else if seen.push(cur).contains(x) {
            let i = choose|i: int| 0 <= i < seen.push(cur).len() && seen.push(cur)[i] == x;
            assert(seen[i] == x);
        } else if seen.contains(x) {
            let i = choose|i: int| 0 <= i < seen.len() && seen[i] == x;
            assert(seen.push(cur)[i] == x);
        }
    }
}

proof fn lemma_extend(edges: Seq<(String, String)>, start: Seq<char>, cur: Seq<char>, y: Seq<char>)
    requires
        cur == start || downstream(edges, start, cur),
        has_edge(edges, cur, y),
    ensures
        downstream(edges, start, y),
{
    if cur == start {
        let p = seq![start, y];
        assert(has_edge(edges, p[0], p[1]));
        assert(is_walk(edges, p));
    } else {
        let p = choose|p: Seq<Seq<char>>| #[trigger] is_walk(edges, p) && p.len() >= 2 && p[0] == start && p.last() == cur;
        let q = p.push(y);
        assert forall|i: int| 0 <= i < q.len() - 1 implies #[trigger] has_edge(edges, q[i], q[i + 1]) by {
            if i < p.len() - 1 {
                assert(q[i] == p[i] && q[i + 1] == p[i + 1]);
                assert(has_edge(edges, p[i], p[i + 1]));
            } else {
                assert(q[i] == cur && q[i + 1] == y);
            }
        }
        assert(is_walk(edges, q));
        assert(q[0] == start && q.last() == y);
    }
}

proof fn lemma_walk_stays(edges: Seq<(String, String)>, seen: Seq<Seq<char>>, p: Seq<Seq<char>>, i: int)
    requires
        is_walk(edges, p),
        0 <= i < p.len(),
        seen.contains(p[0]),
        forall|x: Seq<char>, y: Seq<char>| #[trigger] seen.contains(x) && #[trigger] has_edge(edges, x, y) ==> seen.contains(y),
    ensures
        seen.contains(p[i]),
    decreases i,
{
    if i > 0 {
        lemma_walk_stays(edges, seen, p, i - 1);
        let j = i - 1;
        assert(has_edge(edges, p[j], p[j + 1]));
    }
}

proof fn lemma_views_push(v: Seq<String>, s: String)
    ensures
        views(v.push(s)) == views(v).push(s@),
{
    assert(views(v.push(s)) =~= views(v).push(s@));
}

proof fn lemma_push_contains(v: Seq<Seq<char>>, s: Seq<char>, x: Seq<char>)
    ensures
        v.push(s).contains(x) <==> (v.contains(x) || x == s),
{
    if v.push(s).contains(x) {
        let i = choose|i: int| 0 <= i < v.push(s).len() && v.push(s)[i] == x;
        if i < v.len() {
            assert(v[i] == x);
        }
    }
    if v.contains(x) {
        let i = choose|i: int| 0 <= i < v.len() && v[i] == x;
        assert(v.push(s)[i] == x);
    }
    if x == s {
        assert(v.push(s)[v.len() as int] == x);
    }
}

proof fn lemma_drop_last_contains(v: Seq<Seq<char>>, x: Seq<char>)
    requires
        v.len() > 0,
    ensures
        v.contains(x) <==> (v.drop_last().contains(x) || x == v.last()),
{
    lemma_push_contains(v.drop_last(), v.last(), x);
    assert(v.drop_last().push(v.last()) =~= v);
}

/// How often `x` occurs in `s`.
pub open spec fn occurrences(s: Seq<Seq<char>>, x: Seq<char>) -> nat
    decreases s.len(),
{
    if s.len() == 0 {
        0
    } else {
        occurrences(s.drop_last(), x) + if s.last() == x { 1nat } else { 0nat }
    }
}

/// How many of the first `n` edges run from `u` to `x`.
pub open spec fn edge_count(edges: Seq<(String, String)>, u: Seq<char>, x: Seq<char>, n: int) -> nat
    decreases n,
{
    if n <= 0 {
        0
    } else {
        edge_count(edges, u, x, n - 1) + if edges[n - 1].0@ == u && edges[n - 1].1@ == x { 1nat } else { 0nat }
    }
}

/// How many of the first `n` edges run into `x` from a node in `from`.
pub open spec fn in_count(edges: Seq<(String, String)>, from: Seq<Seq<char>>, x: Seq<char>, n: int) -> nat
    decreases n,
{
    if n <= 0 {
        0
    } else {
        in_count(edges, from, x, n - 1) + if edges[n - 1].1@ == x && from.contains(edges[n - 1].0@) { 1nat } else { 0nat }
    }
}

/// How many of the first `n` edges run into `x` from `start` or from a node
/// downstream of it.
pub open spec fn reached_in_count(edges: Seq<(String, String)>, start: Seq<char>, x: Seq<char>, n: int) -> nat
    decreases n,
{
    if n <= 0 {
        0
    } else {
        reached_in_count(edges, start, x, n - 1) + if edges[n - 1].1@ == x && (edges[n - 1].0@ == start || downstream(
            edges,
            start,
            edges[n - 1].0@,
        )) {
            1nat
        } else {
            0nat
        }
    }
}

proof fn lemma_occurrences_push(s: Seq<Seq<char>>, y: Seq<char>, x: Seq<char>)
    ensures
        occurrences(s.push(y), x) == occurrences(s, x) + if y == x { 1nat } else { 0nat },
{
    assert(s.push(y).drop_last() =~= s);
}

proof fn lemma_in_count_empty(edges: Seq<(String, String)>, x: Seq<char>, n: int)
    ensures
        in_count(edges, Seq::empty(), x, n) == 0,
    decreases n,
{
    if n > 0 {
        lemma_in_count_empty(edges, x, n - 1);
    }
}

proof fn lemma_in_count_step(edges: Seq<(String, String)>, seen: Seq<Seq<char>>, cur: Seq<char>, x: Seq<char>, n: int)
    requires
        !seen.contains(cur),
    ensures
        in_count(edges, seen.push(cur), x, n) == in_count(edges, seen, x, n) + edge_count(edges, cur, x, n),
    decreases n,
{
    if n > 0 {
        lemma_in_count_step(edges, seen, cur, x, n - 1);
        lemma_push_contains(seen, cur, edges[n - 1].0@);
    }
}

proof fn lemma_in_count_reached(edges: Seq<(String, String)>, seen: Seq<Seq<char>>, start: Seq<char>, x: Seq<char>, n: int)
    requires
        forall|u: Seq<char>| #[trigger] seen.contains(u) <==> (u == start || downstream(edges, start, u)),
    ensures
        in_count(edges, seen, x, n) == reached_in_count(edges, start, x, n),
    decreases n,
{
    if n > 0 {
        lemma_in_count_reached(edges, seen, start, x, n - 1);
        assert(seen.contains(edges[n - 1].0@) <==> (edges[n - 1].0@ == start || downstream(edges, start, edges[n - 1].0@)));
    }
}

/// The nodes downstream of `start`, in the order a depth-first walk from
/// `start` meets them: for each node it visits, the targets of the edges
/// leaving it, in edge order. A node reached along several edges is listed
/// once per such edge.
pub fn downstream_of(start: &String, edges: &Vec<(String, String)>) -> (affected: Vec<String>)
    ensures
        forall|x: Seq<char>| #[trigger] views(affected@).contains(x) <==> downstream(edges@, start@, x),
        forall|x: Seq<char>| #[trigger] occurrences(views(affected@), x) == reached_in_count(edges@, start@, x, edges@.len() as int),
{
    let ghost es = edges@;
    let ghost s0 = start@;
    let mut affected: Vec<String> = Vec::new();
    let mut frontier: Vec<String> = Vec::new();
    frontier.push(start.clone());
    let mut seen: Vec<String> = Vec::new();
    proof {
        lemma_push_contains(Seq::<Seq<char>>::empty(), s0, s0);
        assert(views(frontier@) =~= seq![s0]);
        assert(views(frontier@).contains(s0)) by {
            assert(views(frontier@)[0] == s0);
        }
        assert forall|x: Seq<char>| #[trigger] views(frontier@).contains(x) implies x == s0 by {
            let i = choose|i: int| 0 <= i < views(frontier@).len() && views(frontier@)[i] == x;
        }
        assert forall|x: Seq<char>| #[trigger] occurrences(views(affected@), x) == in_count(es, views(seen@), x, es.len() as int) by {
            assert(views(affected@) =~= Seq::<Seq<char>>::empty());
            assert(views(seen@) =~= Seq::<Seq<char>>::empty());
            lemma_in_count_empty(es, x, es.len() as int);
        }
    }
    while frontier.len() > 0
        invariant
            es == edges@,
            s0 == start@,
            views(seen@).contains(s0) || views(frontier@).contains(s0),
            forall|x: Seq<char>| #[trigger] views(affected@).contains(x) ==> downstream(es, s0, x),
            forall|x: Seq<char>| #[trigger] views(frontier@).contains(x) ==> x == s0 || downstream(es, s0, x),
            forall|x: Seq<char>| #[trigger] views(seen@).contains(x) ==> x == s0 || downstream(es, s0, x),
            forall|x: Seq<char>, y: Seq<char>|
                #[trigger] views(seen@).contains(x) && #[trigger] has_edge(es, x, y) ==> views(affected@).contains(y) && (
                views(seen@).contains(y) || views(frontier@).contains(y)),
            forall|x: Seq<char>| #[trigger] occurrences(views(affected@), x) == in_count(es, views(seen@), x, es.len() as int),
        decreases pending(es, views(seen@), es.len() as int) + frontier@.len(),
    {
        let ghost fr0 = views(frontier@);
        let cur = frontier.pop().unwrap();
        proof {
            assert(views(frontier@) =~= fr0.drop_last());
            assert(fr0.last() == cur@);
            assert forall|x: Seq<char>| #[trigger] fr0.contains(x) implies views(frontier@).contains(x) || x == cur@ by {
                lemma_drop_last_contains(fr0, x);
            }
            assert forall|x: Seq<char>| #[trigger] views(frontier@).contains(x) implies fr0.contains(x) by {
                lemma_drop_last_contains(fr0, x);
            }
            assert(fr0.contains(cur@)) by {
                lemma_drop_last_contains(fr0, cur@);
            }
        }
        if contains_string(&seen, &cur) {
            proof {
                let i = choose|i: int| 0 <= i < seen@.len() && #[trigger] seen@[i]@ == cur@;
                assert(views(seen@)[i] == cur@);
                assert(views(seen@).contains(cur@));
                assert forall|x: Seq<char>, y: Seq<char>|
                    #[trigger] views(seen@).contains(x) && #[trigger] has_edge(es, x, y) implies views(affected@).contains(y)
                    && (views(seen@).contains(y) || views(frontier@).contains(y)) by {
                    if !views(seen@).contains(y) {
                        assert(fr0.contains(y));
                        assert(y != cur@);
                    }
                }
            }
            continue;
        }
        proof {
            if views(seen@).contains(cur@) {
                let i = choose|i: int| 0 <= i < views(seen@).len() && views(seen@)[i] == cur@;
                assert(seen@[i]@ == cur@);
            }
        }
        let ghost seen0 = views(seen@);
        let ghost aff0 = views(affected@);
        let ghost fr1 = views(frontier@);
        let ghost seen_raw = seen@;
        seen.push(cur.clone());
        proof {
            lemma_views_push(seen_raw, cur);
            assert(views(seen@) == seen0.push(cur@));
            lemma_pending_step(es, seen0, cur@, es.len() as int);
            assert forall|x: Seq<char>| #[trigger] views(seen@).contains(x) <==> (seen0.contains(x) || x == cur@) by {
                lemma_push_contains(seen0, cur@, x);
            }
        }
        let mut e: usize = 0;
        while e < edges.len()
            invariant
                es == edges@,
                s0 == start@,
                e <= es.len(),
                cur@ == s0 || downstream(es, s0, cur@),
                forall|x: Seq<char>| #[trigger] aff0.contains(x) ==> views(affected@).contains(x),
                forall|x: Seq<char>| #[trigger] fr1.contains(x) ==> views(frontier@).contains(x),
                forall|x: Seq<char>| #[trigger] views(affected@).contains(x) ==> downstream(es, s0, x),
                forall|x: Seq<char>| #[trigger] views(frontier@).contains(x) ==> x == s0 || downstream(es, s0, x),
                forall|e2: int|
                    0 <= e2 < e && (#[trigger] es[e2]).0@ == cur@ ==> views(affected@).contains(es[e2].1@) && views(
                        frontier@,
                    ).contains(es[e2].1@),
                frontier@.len() == fr1.len() + out_count(es, cur@, e as int),
                forall|x: Seq<char>| #[trigger] occurrences(views(affected@), x) == occurrences(aff0, x) + edge_count(es, cur@, x, e as int),
            decreases edges.len() - e,
        {
            if str_eq(edges[e].0.as_str(), cur.as_str()) {
                let y = edges[e].1.clone();
                proof {
                    assert(has_edge(es, cur@, y@)) by {
                        assert(es[e as int].0@ == cur@ && es[e as int].1@ == y@);
                    }
                    lemma_extend(es, s0, cur@, y@);
                }
                let ghost a1 = views(affected@);
                let ghost f1 = views(frontier@);
                let ghost a_raw = affected@;
                let ghost f_raw = frontier@;
                affected.push(y.clone());
                frontier.push(y);
                proof {
                    lemma_views_push(a_raw, affected@.last());
                    assert(affected@ == a_raw.push(affected@.last()));
                    lemma_views_push(f_raw, frontier@.last());
                    assert(frontier@ == f_raw.push(frontier@.last()));
                    assert forall|x: Seq<char>| #[trigger] views(affected@).contains(x) <==> (a1.contains(x) || x == y@) by {
                        lemma_push_contains(a1, y@, x);
                    }
                    assert forall|x: Seq<char>| #[trigger] occurrences(views(affected@), x) == occurrences(aff0, x) + edge_count(es, cur@, x, e + 1) by {
                        lemma_occurrences_push(a1, y@, x);
                    }
                    assert forall|x: Seq<char>| #[trigger] views(frontier@).contains(x) <==> (f1.contains(x) || x == y@) by {
                        lemma_push_contains(f1, y@, x);
                    }
                }
            } else {
                assert forall|x: Seq<char>| #[trigger] occurrences(views(affected@), x) == occurrences(aff0, x) + edge_count(es, cur@, x, e + 1) by {
                    assert(edge_count(es, cur@, x, e + 1) == edge_count(es, cur@, x, e as int));
                }
            }
            e = e + 1;
        }
        proof {
            assert forall|x: Seq<char>| #[trigger] occurrences(views(affected@), x) == in_count(es, views(seen@), x, es.len() as int) by {
                lemma_in_count_step(es, seen0, cur@, x, es.len() as int);
            }
            assert forall|x: Seq<char>, y: Seq<char>|
                #[trigger] views(seen@).contains(x) && #[trigger] has_edge(es, x, y) implies views(affected@).contains(y) && (
                views(seen@).contains(y) || views(frontier@).contains(y)) by {
                if x == cur@ {
                    let e2 = choose|e2: int| 0 <= e2 < es.len() && (#[trigger] es[e2]).0@ == x && es[e2].1@ == y;
                    assert(views(affected@).contains(es[e2].1@));
                } else {
                    assert(seen0.contains(x));
                    assert(aff0.contains(y));
                    if fr0.contains(y) && !seen0.contains(y) {
                        if y != cur@ {
                            assert(fr1.contains(y));
                        }
                    }
                }
            }
        }
    }
    proof {
        assert(views(seen@).contains(s0));
        assert forall|u: Seq<char>| #[trigger] views(seen@).contains(u) <==> (u == s0 || downstream(es, s0, u)) by {
            if downstream(es, s0, u) {
                let p = choose|p: Seq<Seq<char>>| #[trigger] is_walk(es, p) && p.len() >= 2 && p[0] == s0 && p.last() == u;
                assert forall|a: Seq<char>, b: Seq<char>|
                    #[trigger] views(seen@).contains(a) && #[trigger] has_edge(es, a, b) implies views(seen@).contains(b) by {
                    if views(frontier@).contains(b) {
                        let i = choose|i: int| 0 <= i < views(frontier@).len() && views(frontier@)[i] == b;
                    }
                }
                lemma_walk_stays(es, views(seen@), p, p.len() - 1);
            }
        }
        assert forall|x: Seq<char>| #[trigger] occurrences(views(affected@), x) == reached_in_count(es, s0, x, es.len() as int) by {
            lemma_in_count_reached(es, views(seen@), s0, x, es.len() as int);
        }
        assert forall|x: Seq<char>| #[trigger] views(affected@).contains(x) <==> downstream(es, s0, x) by {
            if downstream(es, s0, x) {
                let p = choose|p: Seq<Seq<char>>| #[trigger] is_walk(es, p) && p.len() >= 2 && p[0] == s0 && p.last() == x;
                let n = p.len() - 1;
                assert forall|a: Seq<char>, b: Seq<char>|
                    #[trigger] views(seen@).contains(a) && #[trigger] has_edge(es, a, b) implies views(seen@).contains(b) by {
                    if views(frontier@).contains(b) {
                        let i = choose|i: int| 0 <= i < views(frontier@).len() && views(frontier@)[i] == b;
                    }
                }
                let j = n - 1;
                lemma_walk_stays(es, views(seen@), p, j);
                assert(has_edge(es, p[j], p[j + 1]));
            }
        }
    }
    affected
}

} // verus!
