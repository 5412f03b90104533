//! Directed graphs on nodes `0..n`: a topological order, or a cycle that shows there is none.
use vstd::prelude::*;

verus! {

/// `(u, v)` is one of the edges.
pub open spec fn edge_in(edges: Seq<(usize, usize)>, u: int, v: int) -> bool {
    exists|i: int| 0 <= i < edges.len() && (#[trigger] edges[i]).0 == u && edges[i].1 == v
}

/// Every edge joins two of the nodes `0..n`.
pub open spec fn edges_within(n: nat, edges: Seq<(usize, usize)>) -> bool {
    forall|i: int| 0 <= i < edges.len() ==> (#[trigger] edges[i]).0 < n && edges[i].1 < n
}

/// `c` walks along edges and comes back to where it started, meeting no
/// node twice before that.
pub open spec fn is_cycle(edges: Seq<(usize, usize)>, c: Seq<usize>) -> bool {
    &&& c.len() >= 2
    &&& c[0] == c.last()
    &&& forall|i: int| 0 <= i < c.len() - 1 ==> #[trigger] edge_in(edges, c[i] as int, c[i + 1] as int)
    &&& forall|i: int, j: int| 0 <= i < j < c.len() - 1 ==> c[i] != c[j]
}

/// `order` lists every node of `0..n` once, and every edge goes forward in it.
pub open spec fn is_topo_order(n: nat, edges: Seq<(usize, usize)>, order: Seq<usize>) -> bool {
    &&& order.len() == n
    &&& order.no_duplicates()
    &&& forall|i: int| 0 <= i < order.len() ==> #[trigger] order[i] < n
    &&& forall|v: int| 0 <= v < n ==> #[trigger] order.contains(v as usize)
    &&& forall|i: int, j: int|
        0 <= i < order.len() && 0 <= j < order.len() && #[trigger] edge_in(
            edges,
            order[i] as int,
            order[j] as int,
        ) ==> i < j
}

/// The number of `false` entries.
pub open spec fn count_false(s: Seq<bool>) -> nat
    decreases s.len(),
{
    if s.len() == 0 {
        0
    } else {
        count_false(s.drop_last()) + if s.last() {
            0nat
        } else {
            1nat
        }
    }
}

proof fn lemma_count_false_update(s: Seq<bool>, i: int)
    requires
        0 <= i < s.len(),
        !s[i],
    ensures
        count_false(s.update(i, true)) + 1 == count_false(s),
    decreases s.len(),
{
    if i == s.len() - 1 {
        assert(s.update(i, true).drop_last() =~= s.drop_last());
    } else {
        assert(s.update(i, true).drop_last() =~= s.drop_last().update(i, true));
        lemma_count_false_update(s.drop_last(), i);
    }
}

/// A graph cannot have both a topological order and a cycle.
pub proof fn lemma_order_excludes_cycle(n: nat, edges: Seq<(usize, usize)>, order: Seq<usize>, c: Seq<usize>)
    requires
        is_topo_order(n, edges, order),
        forall|i: int| 0 <= i < c.len() ==> #[trigger] c[i] < n,
    ensures
        !is_cycle(edges, c),
{
    if !is_cycle(edges, c) {
        return;
    }
    let pos = |v: usize| choose|p: int| 0 <= p < order.len() && order[p] == v;
    assert forall|k: int| 0 <= k < c.len() implies 0 <= #[trigger] pos(c[k]) < order.len() && order[pos(c[k])] == c[k] by {
        assert(order.contains((c[k] as int) as usize));
    }
    assert forall|k: int| 1 <= k < c.len() implies pos(c[0]) < #[trigger] pos(c[k]) by {
        lemma_positions_increase(n, edges, order, c, pos, k);
    }
    assert(pos(c[0]) < pos(c[c.len() - 1]));
}

proof fn lemma_positions_increase(
    n: nat,
    edges: Seq<(usize, usize)>,
    order: Seq<usize>,
    c: Seq<usize>,
    pos: spec_fn(usize) -> int,
    k: int,
)
    requires
        is_topo_order(n, edges, order),
        is_cycle(edges, c),
        1 <= k < c.len(),
        forall|j: int|
            0 <= j < c.len() ==> 0 <= #[trigger] pos(c[j]) < order.len() && order[pos(c[j])] == c[j],
    ensures
        pos(c[0]) < pos(c[k]),
    decreases k,
{
    let a = pos(c[k - 1]);
    let b = pos(c[k]);
    assert(edge_in(edges, c[k - 1] as int, c[(k - 1) + 1] as int));
    assert(edge_in(edges, order[a] as int, order[b] as int));
    if k > 1 {
        lemma_positions_increase(n, edges, order, c, pos, k - 1);
    }
}

/// An undone node with no undone predecessor, if there is one.
fn find_source(n: usize, edges: &Vec<(usize, usize)>, done: &Vec<bool>) -> (r: Option<usize>)
    requires
        done@.len() == n,
        edges_within(n as nat, edges@),
    ensures
        r matches Some(v) ==> v < n && !done@[v as int] && forall|i: int|
            0 <= i < edges@.len() && (#[trigger] edges@[i]).1 == v ==> done@[edges@[i].0 as int],
        r is None ==> forall|v: int|
            0 <= v < n && !done@[v] ==> exists|i: int|
                0 <= i < edges@.len() && (#[trigger] edges@[i]).1 == v && !done@[edges@[i].0 as int],
{
    let mut v: usize = 0;
    while v < n
        invariant
            v <= n,
            done@.len() == n,
            edges_within(n as nat, edges@),
            forall|w: int|
                0 <= w < v && !done@[w] ==> exists|i: int|
                    0 <= i < edges@.len() && (#[trigger] edges@[i]).1 == w && !done@[edges@[i].0 as int],
        decreases n - v,
    {
        if !done[v] {
            let mut i: usize = 0;
            let mut blocked = false;
            while i < edges.len()
                invariant
                    v < n,
                    done@.len() == n,
                    i <= edges@.len(),
                    edges_within(n as nat, edges@),
                    !blocked ==> forall|k: int|
                        0 <= k < i && (#[trigger] edges@[k]).1 == v ==> done@[edges@[k].0 as int],
                    blocked ==> exists|k: int|
                        0 <= k < edges@.len() && (#[trigger] edges@[k]).1 == v && !done@[edges@[k].0 as int],
                decreases edges.len() - i,
            {
                let (a, b) = edges[i];
                if b == v && !done[a] {
                    assert(edges@[i as int].1 == v && !done@[edges@[i as int].0 as int]);
                    blocked = true;
                }
                i = i + 1;
            }
            if !blocked {
                return Some(v);
            }
        }
        v = v + 1;
    }
    None
}

/// The position of `v` in `walk`, which holds it.
fn position_of(walk: &Vec<usize>, v: usize) -> (k: usize)
    requires
        walk@.contains(v),
    ensures
        k < walk@.len(),
        walk@[k as int] == v,
{
    let mut k: usize = 0;
    while k < walk.len()
        invariant
            k <= walk@.len(),
            walk@.contains(v),
            forall|j: int| 0 <= j < k ==> walk@[j] != v,
        decreases walk.len() - k,
    {
        if walk[k] == v {
            return k;
        }
        k = k + 1;
    }
    proof {
        let j = choose|j: int| 0 <= j < walk@.len() && walk@[j] == v;
        assert(walk@[j] != v);
    }
    0
}

/// A predecessor of `v` that is not done.
fn undone_predecessor(n: usize, edges: &Vec<(usize, usize)>, done: &Vec<bool>, v: usize) -> (p: usize)
    requires
        done@.len() == n,
        edges_within(n as nat, edges@),
        exists|i: int| 0 <= i < edges@.len() && (#[trigger] edges@[i]).1 == v && !done@[edges@[i].0 as int],
    ensures
        p < n,
        !done@[p as int],
        edge_in(edges@, p as int, v as int),
{
    let mut i: usize = 0;
    while i < edges.len()
        invariant
            i <= edges@.len(),
            done@.len() == n,
            edges_within(n as nat, edges@),
            exists|k: int| 0 <= k < edges@.len() && (#[trigger] edges@[k]).1 == v && !done@[edges@[k].0 as int],
            forall|k: int| 0 <= k < i ==> !((#[trigger] edges@[k]).1 == v && !done@[edges@[k].0 as int]),
        decreases edges.len() - i,
    {
        let (a, b) = edges[i];
        if b == v && !done[a] {
            assert(edges@[i as int].0 == a && edges@[i as int].1 == b);
            return a;
        }
        i = i + 1;
    }
    proof {
        let k = choose|k: int| 0 <= k < edges@.len() && (#[trigger] edges@[k]).1 == v && !done@[edges@[k].0 as int];
        assert(!((edges@[k]).1 == v && !done@[edges@[k].0 as int]));
    }
    0
}

/// Given undone nodes that each have an undone predecessor, walks backwards
/// from one of them until a node repeats, and returns the cycle found.
fn extract_cycle(n: usize, edges: &Vec<(usize, usize)>, done: &Vec<bool>, start: usize) -> (c: Vec<usize>)
    requires
        done@.len() == n,
        edges_within(n as nat, edges@),
        start < n,
        !done@[start as int],
        forall|v: int|
            0 <= v < n && !done@[v] ==> exists|i: int|
                0 <= i < edges@.len() && (#[trigger] edges@[i]).1 == v && !done@[edges@[i].0 as int],
    ensures
        is_cycle(edges@, c@),
        forall|i: int| 0 <= i < c@.len() ==> #[trigger] c@[i] < n,
{
    let mut seen: Vec<bool> = Vec::new();
    let mut t: usize = 0;
    while t < n
        invariant
            t <= n,
            seen@.len() == t,
            forall|k: int| 0 <= k < t ==> !seen@[k],
        decreases n - t,
    {
        seen.push(false);
        t = t + 1;
    }
    let mut walk: Vec<usize> = Vec::new();
    walk.push(start);
    seen.set(start, true);
    proof {
        assert forall|v: int| 0 <= v < n implies (#[trigger] seen@[v] <==> walk@.contains(v as usize)) by {
            if v == start as int {
                assert(walk@[0] == start);
            } else {
                if walk@.contains(v as usize) {
                    let i = choose|i: int| 0 <= i < walk@.len() && walk@[i] == v as usize;
                }
            }
        }
    }
    loop
        invariant
            done@.len() == n,
            seen@.len() == n,
            edges_within(n as nat, edges@),
            walk@.len() >= 1,
            forall|i: int| 0 <= i < walk@.len() ==> #[trigger] walk@[i] < n && !done@[walk@[i] as int],
            forall|v: int| 0 <= v < n ==> (#[trigger] seen@[v] <==> walk@.contains(v as usize)),
            forall|i: int|
                0 <= i < walk@.len() - 1 ==> #[trigger] edge_in(edges@, walk@[i + 1] as int, walk@[i] as int),
            forall|a: int, b: int| 0 <= a < b < walk@.len() ==> walk@[a] != walk@[b],
            forall|v: int|
                0 <= v < n && !done@[v] ==> exists|i: int|
                    0 <= i < edges@.len() && (#[trigger] edges@[i]).1 == v && !done@[edges@[i].0 as int],
        decreases count_false(seen@),
    {
        let last = walk[walk.len() - 1];
        let p = undone_predecessor(n, edges, done, last);
        if seen[p] {
            let k = position_of(&walk, p);
            let mut c: Vec<usize> = Vec::new();
            c.push(p);
            let mut j = walk.len();
            while j > k
                invariant
                    k < walk@.len(),
                    k <= j <= walk@.len(),
                    walk@[k as int] == p,
                    forall|a: int, b: int| 0 <= a < b < walk@.len() ==> walk@[a] != walk@[b],
                    c@.len() == 1 + walk@.len() - j,
                    c@[0] == p,
                    forall|i: int| 0 <= i < walk@.len() ==> #[trigger] walk@[i] < n,
                    forall|i: int| 0 <= i < c@.len() ==> #[trigger] c@[i] < n,
                    forall|i: int|
                        1 <= i < c@.len() ==> #[trigger] c@[i] == walk@[walk@.len() - i],
                    forall|i: int|
                        0 <= i < walk@.len() - 1 ==> #[trigger] edge_in(edges@, walk@[i + 1] as int, walk@[i] as int),
                    edge_in(edges@, p as int, walk@[walk@.len() - 1] as int),
                    forall|i: int| 0 <= i < c@.len() - 1 ==> #[trigger] edge_in(edges@, c@[i] as int, c@[i + 1] as int),
                decreases j,
            {
                let ghost before = c@;
                c.push(walk[j - 1]);
                proof {
                    let m = before.len() as int;
                    if m >= 2 {
                        assert(c@[m - 1] == walk@[walk@.len() - (m - 1)]);
                        assert(c@[m] == walk@[j - 1]);
                        assert(walk@.len() - (m - 1) == j as int);
                        assert(edge_in(edges@, walk@[(j - 1) + 1] as int, walk@[j - 1] as int));
                    }
                    assert forall|i: int| 0 <= i < c@.len() - 1 implies #[trigger] edge_in(edges@, c@[i] as int, c@[i + 1] as int) by {
                        if i < m - 1 {
                            assert(c@[i] == before[i] && c@[i + 1] == before[i + 1]);
                        }
                    }
                }
                j = j - 1;
            }
            assert(c@.last() == walk@[k as int]);
            proof {
                assert forall|a: int, b: int| 0 <= a < b < c@.len() - 1 implies c@[a] != c@[b] by {
                    assert(c@[b] == walk@[walk@.len() - b]);
                    if a == 0 {
                        assert(walk@[k as int] != walk@[walk@.len() - b]);
                    } else {
                        assert(c@[a] == walk@[walk@.len() - a]);
                        assert(walk@[walk@.len() - b] != walk@[walk@.len() - a]);
                    }
                }
            }
            return c;
        }
        proof {
            lemma_count_false_update(seen@, p as int);
        }
        let ghost old_walk = walk@;
        let ghost old_seen = seen@;
        walk.push(p);
        seen.set(p, true);
        proof {
            assert forall|a: int, b: int| 0 <= a < b < walk@.len() implies walk@[a] != walk@[b] by {
                if b == walk@.len() - 1 {
                    assert(walk@[a] == old_walk[a]);
                    assert(!old_walk.contains(p));
                } else {
                    assert(walk@[a] == old_walk[a] && walk@[b] == old_walk[b]);
                }
            }
            assert forall|v: int| 0 <= v < n implies (#[trigger] seen@[v] <==> walk@.contains(v as usize)) by {
                if v == p as int {
                    assert(walk@[walk@.len() - 1] == p);
                } else {
                    assert(seen@[v] == old_seen[v]);
                    if walk@.contains(v as usize) {
                        let i = choose|i: int| 0 <= i < walk@.len() && walk@[i] == v as usize;
                        assert(i < old_walk.len());
                        assert(old_walk[i] == v as usize);
                    }
                    if old_walk.contains(v as usize) {
                        let i = choose|i: int| 0 <= i < old_walk.len() && old_walk[i] == v as usize;
                        assert(walk@[i] == v as usize);
                    }
                }
            }
            assert forall|i: int| 0 <= i < walk@.len() - 1 implies #[trigger] edge_in(edges@, walk@[i + 1] as int, walk@[i] as int) by {
                if i < walk@.len() - 2 {
                    assert(walk@[i] == old_walk[i] && walk@[i + 1] == old_walk[i + 1]);
                } else {
                    assert(walk@[i] == last && walk@[i + 1] == p);
                }
            }
        }
    }
}

/// A topological order of the nodes `0..n` (`Ok`), or a cycle (`Err`).
pub fn order_or_cycle(n: usize, edges: &Vec<(usize, usize)>) -> (r: Result<Vec<usize>, Vec<usize>>)
    requires
        edges_within(n as nat, edges@),
    ensures
        r matches Ok(order) ==> is_topo_order(n as nat, edges@, order@),
        r matches Err(c) ==> is_cycle(edges@, c@) && forall|i: int| 0 <= i < c@.len() ==> #[trigger] c@[i] < n,
{
    let mut done: Vec<bool> = Vec::new();
    let mut t: usize = 0;
    while t < n
        invariant
            t <= n,
            done@.len() == t,
            forall|k: int| 0 <= k < t ==> !done@[k],
        decreases n - t,
    {
        done.push(false);
        t = t + 1;
    }
    let mut order: Vec<usize> = Vec::new();
    assert(forall|v: int| 0 <= v < n ==> !#[trigger] order@.contains(v as usize));
    proof {
        lemma_count_false_all_false(done@);
    }
    loop
        invariant
            done@.len() == n,
            edges_within(n as nat, edges@),
            order@.no_duplicates(),
            order@.len() + count_false(done@) == n,
            forall|i: int| 0 <= i < order@.len() ==> #[trigger] order@[i] < n,
            forall|v: int| 0 <= v < n ==> (#[trigger] done@[v] <==> order@.contains(v as usize)),
            forall|i: int, u: int|
                0 <= i < order@.len() && #[trigger] edge_in(edges@, u, order@[i] as int) ==> exists|j: int|
                    0 <= j < i && order@[j] == u,
        ensures
            forall|v: int|
                0 <= v < n && !done@[v] ==> exists|i: int|
                    0 <= i < edges@.len() && (#[trigger] edges@[i]).1 == v && !done@[edges@[i].0 as int],
        decreases count_false(done@),
    {
        match find_source(n, edges, &done) {
            Some(v) => {
                let ghost old_order = order@;
                let ghost old_done = done@;
                proof {
                    lemma_count_false_update(done@, v as int);
                }
                order.push(v);
                done.set(v, true);
                proof {
                    assert(!old_order.contains(v));
                    assert forall|a: int, b: int| 0 <= a < b < order@.len() implies order@[a] != order@[b] by {
                        if b == order@.len() - 1 {
                            assert(old_order[a] == order@[a]);
                        } else {
                            assert(old_order[a] == order@[a] && old_order[b] == order@[b]);
                        }
                    }
                    assert forall|w: int| 0 <= w < n implies (#[trigger] done@[w] <==> order@.contains(w as usize)) by {
                        if w != v as int {
                            if order@.contains(w as usize) {
                                let i = choose|i: int| 0 <= i < order@.len() && order@[i] == w as usize;
                                assert(old_order[i] == w as usize);
                            }
                            if old_order.contains(w as usize) {
                                let i = choose|i: int| 0 <= i < old_order.len() && old_order[i] == w as usize;
                                assert(order@[i] == w as usize);
                            }
                        } else {
                            assert(order@[order@.len() - 1] == v);
                        }
                    }
                    assert forall|i: int, u: int|
                        0 <= i < order@.len() && #[trigger] edge_in(edges@, u, order@[i] as int) implies exists|j: int|
                            0 <= j < i && order@[j] == u by {
                        if i == order@.len() - 1 {
                            let e = choose|e: int| 0 <= e < edges@.len() && (#[trigger] edges@[e]).0 == u && edges@[e].1 == v;
                            assert(edges@[e].1 == v);
                            assert(old_done[u]);
                            assert(old_order.contains(u as usize));
                            let j = choose|j: int| 0 <= j < old_order.len() && old_order[j] == u as usize;
                            assert(order@[j] == u);
                        } else {
                            assert(old_order[i] == order@[i]);
                            let j = choose|j: int| 0 <= j < i && old_order[j] == u;
                            assert(order@[j] == u);
                        }
                    }
                }
            },
            None => {
                break ;
            },
        }
    }
    let mut s: usize = 0;
    while s < n
        invariant
            s <= n,
            done@.len() == n,
            order@.len() + count_false(done@) == n,
            edges_within(n as nat, edges@),
            forall|v: int|
                0 <= v < n && !done@[v] ==> exists|i: int|
                    0 <= i < edges@.len() && (#[trigger] edges@[i]).1 == v && !done@[edges@[i].0 as int],
            forall|w: int| 0 <= w < s ==> done@[w],
        decreases n - s,
    {
        if !done[s] {
            let c = extract_cycle(n, edges, &done, s);
            return Err(c);
        }
        s = s + 1;
    }
    proof {
        assert forall|i: int, j: int|
            0 <= i < order@.len() && 0 <= j < order@.len() && #[trigger] edge_in(
                edges@,
                order@[i] as int,
                order@[j] as int,
            ) implies i < j by {
            let k = choose|k: int| 0 <= k < j && order@[k] == order@[i] as int;
            assert(k == i);
        }
        assert forall|v: int| 0 <= v < n implies #[trigger] order@.contains(v as usize) by {
            assert(done@[v]);
        }
        lemma_count_false_all_true(done@);
    }
    Ok(order)
}

proof fn lemma_count_false_all_true(s: Seq<bool>)
    requires
        forall|i: int| 0 <= i < s.len() ==> s[i],
    ensures
        count_false(s) == 0,
    decreases s.len(),
{
    if s.len() > 0 {
        lemma_count_false_all_true(s.drop_last());
    }
}

proof fn lemma_count_false_all_false(s: Seq<bool>)
    requires
        forall|i: int| 0 <= i < s.len() ==> !s[i],
    ensures
        count_false(s) == s.len(),
    decreases s.len(),
{
    if s.len() > 0 {
        lemma_count_false_all_false(s.drop_last());
    }
}

} // verus!
