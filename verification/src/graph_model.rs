//! Directed graphs as successor lists: paths, cycles, and the first route that
//! a bounded depth-first search finds.
//!
//! A graph is a map from a node to the list of the nodes that its edges lead to;
//! a node that the map lacks has no edge. Nodes are plain numbers.

use vstd::prelude::*;

verus! {

/// A graph: for each node with an outgoing edge, the targets of its edges in
/// the order in which they were added.
pub type Succ = Map<usize, Seq<usize>>;

/// The targets of the edges that leave `a`.
pub open spec fn targets(g: Succ, a: usize) -> Seq<usize> {
    if g.contains_key(a) {
        g[a]
    } else {
        Seq::empty()
    }
}

/// Whether the graph has an edge from `a` to `b`.
pub open spec fn has_edge(g: Succ, a: usize, b: usize) -> bool {
    targets(g, a).contains(b)
}

/// Whether each node of `p` but the last has an edge to the next one.
pub open spec fn is_path(g: Succ, p: Seq<usize>) -> bool {
    &&& p.len() >= 1
    &&& forall|i: int| 0 <= i < p.len() - 1 ==> has_edge(g, #[trigger] p[i], p[i + 1])
}

/// Whether `p` is a path from `a` to `b`.
pub open spec fn connects(g: Succ, p: Seq<usize>, a: usize, b: usize) -> bool {
    is_path(g, p) && p[0] == a && p.last() == b
}

/// Whether `b` can be reached from `a` along edges; every node reaches itself.
pub open spec fn reaches(g: Succ, a: usize, b: usize) -> bool {
    exists|p: Seq<usize>| connects(g, p, a, b)
}

/// Whether `b` can be reached from `a` along at least one edge.
pub open spec fn reaches_by_edge(g: Succ, a: usize, b: usize) -> bool {
    exists|p: Seq<usize>| connects(g, p, a, b) && p.len() >= 2
}

/// Whether no node can be reached from itself along at least one edge.
pub open spec fn acyclic(g: Succ) -> bool {
    forall|a: usize| !reaches_by_edge(g, a, a)
}

/// The graph with one more edge, from `a` to `b`, added after the edges that
/// already leave `a`.
pub open spec fn with_edge(g: Succ, a: usize, b: usize) -> Succ {
    g.insert(a, targets(g, a).push(b))
}

/// Whether every edge of `g` is an edge of `h`.
pub open spec fn subgraph(g: Succ, h: Succ) -> bool {
    forall|a: usize, b: usize| has_edge(g, a, b) ==> has_edge(h, a, b)
}

/// The first route from `cur` to `goal` that a depth-first search finds when it
/// tries the edges of each node in order and follows at most `fuel` edges.
pub open spec fn route(g: Succ, goal: usize, cur: usize, fuel: nat) -> Option<Seq<usize>>
    decreases fuel, 0nat, 0nat,
{
    if cur == goal {
        Some(seq![cur])
    } else if fuel == 0 {
        None
    } else {
        match route_through(g, goal, targets(g, cur), 0, (fuel - 1) as nat) {
            Some(r) => Some(seq![cur] + r),
            None => None,
        }
    }
}

/// The first route to `goal` that starts at one of `ts[from..]`, trying them in
/// order, each with `fuel` edges to follow.
pub open spec fn route_through(g: Succ, goal: usize, ts: Seq<usize>, from: int, fuel: nat) -> Option<
    Seq<usize>,
>
    decreases fuel, 1nat, ts.len() - from,
{
    if from < 0 || from >= ts.len() {
        None
    } else {
        match route(g, goal, ts[from], fuel) {
            Some(r) => Some(r),
            None => route_through(g, goal, ts, from + 1, fuel),
        }
    }
}

/// A route that the search returns is a path from its start to the goal, and
/// has no more edges than the search was allowed.
pub proof fn lemma_route_is_path(g: Succ, goal: usize, cur: usize, fuel: nat)
    requires
        route(g, goal, cur, fuel) is Some,
    ensures
        connects(g, route(g, goal, cur, fuel)->0, cur, goal),
        route(g, goal, cur, fuel)->0.len() <= fuel + 1,
    decreases fuel, 0nat, 0nat,
{
    if cur != goal {
        let ts = targets(g, cur);
        lemma_route_through_is_path(g, goal, ts, 0, (fuel - 1) as nat);
        let r = route_through(g, goal, ts, 0, (fuel - 1) as nat)->0;
        let p = seq![cur] + r;
        assert(ts.contains(r[0]));
        assert forall|i: int| 0 <= i < p.len() - 1 implies has_edge(g, #[trigger] p[i], p[i + 1]) by {
            if i > 0 {
                assert(p[i] == r[i - 1]);
                assert(p[i + 1] == r[i]);
            }
        }
    }
}

/// A route found through one of `ts[from..]` is a path from that target to the
/// goal.
pub proof fn lemma_route_through_is_path(g: Succ, goal: usize, ts: Seq<usize>, from: int, fuel: nat)
    requires
        route_through(g, goal, ts, from, fuel) is Some,
    ensures
        ({
            let r = route_through(g, goal, ts, from, fuel)->0;
            &&& is_path(g, r)
            &&& r.last() == goal
            &&& r.len() <= fuel + 1
            &&& exists|i: int| from <= i < ts.len() && ts[i] == r[0]
        }),
    decreases fuel, 1nat, ts.len() - from,
{
    if route(g, goal, ts[from], fuel) is Some {
        lemma_route_is_path(g, goal, ts[from], fuel);
    } else {
        lemma_route_through_is_path(g, goal, ts, from + 1, fuel);
    }
}

/// Where a path to the goal has no more edges than the search may follow, the
/// search finds a route.
pub proof fn lemma_route_finds_path(g: Succ, goal: usize, p: Seq<usize>, fuel: nat)
    requires
        is_path(g, p),
        p.last() == goal,
        p.len() <= fuel + 1,
    ensures
        route(g, goal, p[0], fuel) is Some,
    decreases fuel, 0nat, 0nat,
{
    if p[0] != goal {
        let ts = targets(g, p[0]);
        let q = p.subrange(1, p.len() as int);
        assert(has_edge(g, p[0], p[1]));
        let k = choose|k: int| 0 <= k < ts.len() && ts[k] == p[1];
        assert forall|i: int| 0 <= i < q.len() - 1 implies has_edge(g, #[trigger] q[i], q[i + 1]) by {
            assert(q[i] == p[i + 1]);
            assert(has_edge(g, p[i + 1], p[i + 1 + 1]));
        }
        lemma_route_finds_path(g, goal, q, (fuel - 1) as nat);
        lemma_route_through_finds(g, goal, ts, 0, k, (fuel - 1) as nat);
    }
}

/// Where the search finds a route from `ts[k]`, it finds one through
/// `ts[from..]` for every `from` up to `k`.
pub proof fn lemma_route_through_finds(g: Succ, goal: usize, ts: Seq<usize>, from: int, k: int, fuel: nat)
    requires
        0 <= from <= k < ts.len(),
        route(g, goal, ts[k], fuel) is Some,
    ensures
        route_through(g, goal, ts, from, fuel) is Some,
    decreases k - from,
{
    if from < k && route(g, goal, ts[from], fuel) is None {
        lemma_route_through_finds(g, goal, ts, from + 1, k, fuel);
    }
}

/// A part of a path is a path.
pub proof fn lemma_subpath(g: Succ, p: Seq<usize>, i: int, j: int)
    requires
        is_path(g, p),
        0 <= i < j <= p.len(),
    ensures
        is_path(g, p.subrange(i, j)),
{
    let q = p.subrange(i, j);
    assert forall|k: int| 0 <= k < q.len() - 1 implies has_edge(g, #[trigger] q[k], q[k + 1]) by {
        assert(q[k] == p[i + k]);
        assert(has_edge(g, p[i + k], p[i + k + 1]));
    }
}

/// Two paths that meet make one path.
pub proof fn lemma_join(g: Succ, p: Seq<usize>, q: Seq<usize>)
    requires
        is_path(g, p),
        is_path(g, q),
        p.last() == q[0],
    ensures
        is_path(g, p + q.subrange(1, q.len() as int)),
        (p + q.subrange(1, q.len() as int))[0] == p[0],
        (p + q.subrange(1, q.len() as int)).last() == q.last(),
        (p + q.subrange(1, q.len() as int)).len() == p.len() + q.len() - 1,
{
    let r = p + q.subrange(1, q.len() as int);
    assert forall|k: int| 0 <= k < r.len() - 1 implies has_edge(g, #[trigger] r[k], r[k + 1]) by {
        if k < p.len() - 1 {
            assert(has_edge(g, p[k], p[k + 1]));
        } else if k == p.len() - 1 {
            assert(r[k] == q[0]);
            assert(r[k + 1] == q[1]);
            assert(has_edge(g, q[0int], q[0int + 1]));
        } else {
            let m = k - p.len() + 1;
            assert(r[k] == q[m]);
            assert(r[k + 1] == q[m + 1]);
            assert(has_edge(g, q[m], q[m + 1]));
        }
    }
}

/// Reaching is transitive.
pub proof fn lemma_reaches_transitive(g: Succ, a: usize, b: usize, c: usize)
    requires
        reaches(g, a, b),
        reaches(g, b, c),
    ensures
        reaches(g, a, c),
{
    let p = choose|p: Seq<usize>| connects(g, p, a, b);
    let q = choose|q: Seq<usize>| connects(g, q, b, c);
    lemma_join(g, p, q);
    assert(connects(g, p + q.subrange(1, q.len() as int), a, c));
}

/// Reaching, then one edge more, is reaching along at least one edge.
pub proof fn lemma_reaches_then_edge(g: Succ, a: usize, b: usize, c: usize)
    requires
        reaches(g, a, b),
        has_edge(g, b, c),
    ensures
        reaches_by_edge(g, a, c),
{
    let p = choose|p: Seq<usize>| connects(g, p, a, b);
    let q = seq![b, c];
    assert(is_path(g, q));
    lemma_join(g, p, q);
    assert(connects(g, p + q.subrange(1, q.len() as int), a, c));
}

/// A path of a graph is a path of every graph that has its edges.
pub proof fn lemma_path_in_larger(g: Succ, h: Succ, p: Seq<usize>)
    requires
        subgraph(g, h),
        is_path(g, p),
    ensures
        is_path(h, p),
{
    assert forall|i: int| 0 <= i < p.len() - 1 implies has_edge(h, #[trigger] p[i], p[i + 1]) by {
        assert(has_edge(g, p[i], p[i + 1]));
    }
}

/// A graph whose edges all belong to a graph without cycles has no cycle.
pub proof fn lemma_subgraph_acyclic(g: Succ, h: Succ)
    requires
        subgraph(g, h),
        acyclic(h),
    ensures
        acyclic(g),
{
    assert forall|a: usize| !reaches_by_edge(g, a, a) by {
        if reaches_by_edge(g, a, a) {
            let p = choose|p: Seq<usize>| connects(g, p, a, a) && p.len() >= 2;
            lemma_path_in_larger(g, h, p);
            assert(connects(h, p, a, a) && p.len() >= 2);
            assert(reaches_by_edge(h, a, a));
        }
    }
}

/// The edges of the graph with one more edge are the old ones and the new one.
pub proof fn lemma_with_edge_edges(g: Succ, a: usize, b: usize)
    ensures
        forall|x: usize, y: usize|
            has_edge(with_edge(g, a, b), x, y) <==> (has_edge(g, x, y) || (x == a && y == b)),
{
    let h = with_edge(g, a, b);
    assert forall|x: usize, y: usize|
        has_edge(h, x, y) <==> (has_edge(g, x, y) || (x == a && y == b)) by {
        let old_ts = targets(g, a);
        let new_ts = old_ts.push(b);
        if x == a {
            assert(targets(h, x) == new_ts);
            if has_edge(g, x, y) {
                let i = choose|i: int| 0 <= i < old_ts.len() && old_ts[i] == y;
                assert(new_ts[i] == y);
            }
            if y == b {
                assert(new_ts[old_ts.len() as int] == b);
            }
            if has_edge(h, x, y) {
                let i = choose|i: int| 0 <= i < new_ts.len() && new_ts[i] == y;
                if i < old_ts.len() {
                    assert(old_ts[i] == y);
                }
            }
        } else {
            assert(targets(h, x) == targets(g, x));
        }
    }
}

/// A path of the graph with the new edge from `a` to `b` either is matched by a
/// path of the old graph with at least one edge, or passes over the new edge:
/// then the old graph leads from its start to `a` and from `b` to its end.
pub proof fn lemma_path_over_new_edge(g: Succ, a: usize, b: usize, p: Seq<usize>)
    requires
        is_path(with_edge(g, a, b), p),
        p.len() >= 2,
    ensures
        reaches_by_edge(g, p[0], p.last()) || (reaches(g, p[0], a) && reaches(g, b, p.last())),
    decreases p.len(),
{
    let h = with_edge(g, a, b);
    lemma_with_edge_edges(g, a, b);
    let q = p.drop_last();
    let x = p.last();
    assert(q.last() == p[p.len() - 2]);
    assert(has_edge(h, p[p.len() - 2], p[p.len() - 2 + 1]));
    assert(connects(g, seq![b], b, b));
    assert(connects(g, seq![p[0]], p[0], p[0]));
    if q.len() == 1 {
        if has_edge(g, q.last(), x) {
            lemma_reaches_then_edge(g, p[0], p[0], x);
        }
    } else {
        lemma_subpath(h, p, 0, p.len() - 1);
        lemma_path_over_new_edge(g, a, b, q);
        if has_edge(g, q.last(), x) {
            if reaches_by_edge(g, q[0], q.last()) {
                lemma_reaches_then_edge(g, p[0], q.last(), x);
            } else {
                lemma_reaches_then_edge(g, b, q.last(), x);
            }
        } else {
            assert(q.last() == a && x == b);
        }
    }
}

/// Adding an edge from `a` to `b` to a graph without cycles closes a cycle
/// exactly when `a` could already be reached from `b`.
pub proof fn lemma_new_edge_closes_cycle(g: Succ, a: usize, b: usize)
    requires
        acyclic(g),
    ensures
        acyclic(with_edge(g, a, b)) <==> !reaches(g, b, a),
{
    let h = with_edge(g, a, b);
    lemma_with_edge_edges(g, a, b);
    if reaches(g, b, a) {
        let p = choose|p: Seq<usize>| connects(g, p, b, a);
        assert(subgraph(g, h));
        lemma_path_in_larger(g, h, p);
        assert(connects(h, p, b, a));
        lemma_reaches_then_edge(h, b, a, b);
        assert(!acyclic(h));
    } else {
        assert forall|c: usize| !reaches_by_edge(h, c, c) by {
            if reaches_by_edge(h, c, c) {
                let p = choose|p: Seq<usize>| connects(h, p, c, c) && p.len() >= 2;
                lemma_path_over_new_edge(g, a, b, p);
                if !reaches_by_edge(g, c, c) {
                    lemma_reaches_transitive(g, b, c, a);
                }
            }
        }
    }
}

/// In a graph without cycles no node occurs twice on a path.
pub proof fn lemma_path_has_no_repeat(g: Succ, p: Seq<usize>)
    requires
        acyclic(g),
        is_path(g, p),
    ensures
        p.no_duplicates(),
{
    assert forall|i: int, j: int| 0 <= i < p.len() && 0 <= j < p.len() && i != j implies p[i]
        != p[j] by {
        let (lo, hi) = if i < j {
            (i, j)
        } else {
            (j, i)
        };
        if p[lo] == p[hi] {
            lemma_subpath(g, p, lo, hi + 1);
            let c = p.subrange(lo, hi + 1);
            assert(connects(g, c, p[lo], p[lo]) && c.len() >= 2);
            assert(reaches_by_edge(g, p[lo], p[lo]));
        }
    }
}

/// In a graph without cycles a path has no more edges than the graph has nodes
/// with an outgoing edge.
pub proof fn lemma_path_is_short(g: Succ, p: Seq<usize>)
    requires
        acyclic(g),
        g.dom().finite(),
        is_path(g, p),
    ensures
        p.len() <= g.dom().len() + 1,
{
    lemma_path_has_no_repeat(g, p);
    let q = p.drop_last();
    assert(q.no_duplicates());
    q.unique_seq_to_set();
    assert forall|x: usize| q.to_set().contains(x) implies g.dom().contains(x) by {
        let i = choose|i: int| 0 <= i < q.len() && q[i] == x;
        assert(has_edge(g, p[i], p[i + 1]));
    }
    vstd::set_lib::lemma_len_subset(q.to_set(), g.dom());
}

/// In a graph without cycles, a search that may follow as many edges as the
/// graph has nodes with an outgoing edge finds a route exactly when the goal
/// can be reached.
pub proof fn lemma_route_decides_reaches(g: Succ, goal: usize, cur: usize, fuel: nat)
    requires
        acyclic(g),
        g.dom().finite(),
        fuel >= g.dom().len(),
    ensures
        route(g, goal, cur, fuel) is Some <==> reaches(g, cur, goal),
{
    if route(g, goal, cur, fuel) is Some {
        lemma_route_is_path(g, goal, cur, fuel);
    }
    if reaches(g, cur, goal) {
        let p = choose|p: Seq<usize>| connects(g, p, cur, goal);
        lemma_path_is_short(g, p);
        lemma_route_finds_path(g, goal, p, fuel);
    }
}

} // verus!
