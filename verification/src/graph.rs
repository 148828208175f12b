//! The graph of runtimes that wait for one another.
//!
//! A runtime that is about to sleep until another finishes a query first adds
//! an edge to the other. The graph refuses an edge that would close a cycle, so
//! the runtimes can never all wait for each other.

use crate::collections::edge_list_as_slice;
use crate::collections::edge_list_items;
use crate::collections::edge_list_new;
use crate::collections::edge_list_push;
use crate::collections::edge_list_swap_remove;
use crate::collections::fx_get;
use crate::collections::fx_insert;
use crate::collections::fx_len;
use crate::collections::fx_remove;
use crate::collections::id_list_as_slice;
use crate::collections::id_list_items;
use crate::collections::id_list_new;
use crate::collections::id_list_push;
use crate::collections::EdgeList;
use crate::collections::IdList;
use crate::graph_model::acyclic;
use crate::graph_model::has_edge;
use crate::graph_model::lemma_new_edge_closes_cycle;
use crate::graph_model::lemma_route_decides_reaches;
use crate::graph_model::lemma_subgraph_acyclic;
use crate::graph_model::reaches;
use crate::graph_model::route;
use crate::graph_model::route_through;
use crate::graph_model::subgraph;
use crate::graph_model::targets;
use crate::graph_model::with_edge;
use crate::graph_model::Succ;
use crate::key::append_from;
use crate::key::DatabaseKeyIndex;
use crate::runtime::RuntimeId;
use rustc_hash::FxHashMap;
use vstd::prelude::*;

verus! {

broadcast use vstd::std_specs::hash::group_hash_axioms;

/// What the contracts say of an edge: the runtime that it leads to, and the
/// queries that the waiting runtime was in when it went to sleep, outermost
/// first, ending with the query that it waits for.
pub type EdgeView = (RuntimeId, Seq<DatabaseKeyIndex>);

/// One edge: the runtime waited for, and the stack of the one that waits.
pub struct Edge {
    id: RuntimeId,
    path: Vec<DatabaseKeyIndex>,
}

impl View for Edge {
    type V = EdgeView;

    closed spec fn view(&self) -> EdgeView {
        (self.id, self.path@)
    }
}

/// Which runtime waits for which.
///
/// Besides the edges themselves the graph keeps two indexes, so that all the
/// edges that end when a query or a fork finishes are found at once: from a
/// query to the runtimes that wait for it, and from a forked runtime to the
/// runtimes that wait for the fork.
pub struct DependencyGraph {
    edges: FxHashMap<usize, EdgeList>,
    labels: FxHashMap<u64, IdList>,
    forks: FxHashMap<usize, IdList>,
}

/// The part of `s` behind its last `x`; all of `s` where it holds no `x`.
pub open spec fn after_last(s: Seq<DatabaseKeyIndex>, x: DatabaseKeyIndex) -> Seq<DatabaseKeyIndex> {
    if s.contains(x) {
        s.subrange(last_index(s, x) + 1, s.len() as int)
    } else {
        s
    }
}

/// The place of the last `x` in `s`.
pub open spec fn last_index(s: Seq<DatabaseKeyIndex>, x: DatabaseKeyIndex) -> int {
    choose|i: int| 0 <= i < s.len() && s[i] == x && forall|j: int| i < j < s.len() ==> s[j] != x
}

/// The place of the first `x` in `s`.
pub open spec fn first_index(s: Seq<DatabaseKeyIndex>, x: DatabaseKeyIndex) -> int {
    choose|i: int| 0 <= i < s.len() && s[i] == x && forall|j: int| 0 <= j < i ==> s[j] != x
}

/// The part of `s` behind its first `x`; nothing where it holds no `x`.
pub open spec fn after_first(s: Seq<DatabaseKeyIndex>, x: DatabaseKeyIndex) -> Seq<DatabaseKeyIndex> {
    if s.contains(x) {
        s.subrange(first_index(s, x) + 1, s.len() as int)
    } else {
        Seq::empty()
    }
}

/// Whether the place `i` holds the first edge of `es` that leads to `to`.
pub open spec fn is_first_edge_to(es: Seq<EdgeView>, to: RuntimeId, i: int) -> bool {
    &&& 0 <= i < es.len()
    &&& es[i].0 == to
    &&& forall|j: int| 0 <= j < i ==> es[j].0 != to
}

/// Whether some edge of `es` leads to `to`.
pub open spec fn has_edge_to(es: Seq<EdgeView>, to: RuntimeId) -> bool {
    exists|i: int| 0 <= i < es.len() && es[i].0 == to
}

/// The place of the first edge of `es` that leads to `to`.
pub open spec fn first_edge_to(es: Seq<EdgeView>, to: RuntimeId) -> int {
    choose|i: int| is_first_edge_to(es, to, i)
}

/// `es` without its first edge to `to`, the last edge moved into the gap;
/// `es` itself where no edge leads to `to`.
pub open spec fn without_edge_to(es: Seq<EdgeView>, to: RuntimeId) -> Seq<EdgeView> {
    if has_edge_to(es, to) {
        es.update(first_edge_to(es, to), es.last()).drop_last()
    } else {
        es
    }
}

/// `es` after `n` removals of an edge to `to`.
pub open spec fn without_edges_to(es: Seq<EdgeView>, to: RuntimeId, n: nat) -> Seq<EdgeView>
    decreases n,
{
    if n == 0 {
        es
    } else {
        without_edge_to(without_edges_to(es, to, (n - 1) as nat), to)
    }
}

/// Removing edges from a runtime that none leaves changes nothing.
pub proof fn lemma_without_edges_of_none(es: Seq<EdgeView>, to: RuntimeId, n: nat)
    requires
        es.len() == 0,
    ensures
        without_edges_to(es, to, n) == es,
    decreases n,
{
    if n > 0 {
        lemma_without_edges_of_none(es, to, (n - 1) as nat);
    }
}

/// How often `r` occurs among the first `upto` items of `s`.
pub open spec fn occurrences(s: Seq<RuntimeId>, r: RuntimeId, upto: int) -> nat
    decreases upto,
{
    if upto <= 0 {
        0
    } else {
        occurrences(s, r, upto - 1) + if s[upto - 1] == r {
            1nat
        } else {
            0nat
        }
    }
}

impl Default for DependencyGraph {
    /// A graph without edges.
    fn default() -> (g: DependencyGraph)
        ensures
            g.wf(),
            g.is_empty(),
    {
        DependencyGraph::new()
    }
}

impl DependencyGraph {
    /// Whether the graph has no edge and nobody is registered in its indexes.
    pub open spec fn is_empty(self) -> bool {
        &&& forall|r: RuntimeId| self.out_edges(r) == Seq::<EdgeView>::empty()
        &&& forall|k: DatabaseKeyIndex| self.blocked_on_key(k) == Seq::<RuntimeId>::empty()
        &&& forall|r: RuntimeId| self.blocked_on_fork(r) == Seq::<RuntimeId>::empty()
        &&& forall|a: RuntimeId, b: RuntimeId| self.reaches(a, b) <==> a == b
    }

    /// The edges that leave `from`, in the order in which the graph holds them.
    pub closed spec fn out_edges(self, from: RuntimeId) -> Seq<EdgeView> {
        if self.edges@.contains_key(from.counter) {
            edge_list_items(self.edges@[from.counter]).map_values(|e: Edge| e@)
        } else {
            Seq::empty()
        }
    }

    /// The runtimes that wait for the query `key`, in the order in which they
    /// went to sleep.
    pub closed spec fn blocked_on_key(self, key: DatabaseKeyIndex) -> Seq<RuntimeId> {
        if self.labels@.contains_key(key.spec_code()) {
            id_list_items(self.labels@[key.spec_code()])
        } else {
            Seq::empty()
        }
    }

    /// The runtimes that wait for the forked runtime `to`.
    pub closed spec fn blocked_on_fork(self, to: RuntimeId) -> Seq<RuntimeId> {
        if self.forks@.contains_key(to.counter) {
            id_list_items(self.forks@[to.counter])
        } else {
            Seq::empty()
        }
    }

    /// The graph as successor lists over the counters of the runtimes.
    pub closed spec fn succ(self) -> Succ {
        Map::new(
            |c: usize| self.edges@.contains_key(c),
            |c: usize| edge_list_items(self.edges@[c]).map_values(|e: Edge| e.id.counter),
        )
    }

    /// Whether `b` can be reached from `a` along the edges. Every runtime
    /// reaches itself.
    pub open spec fn reaches(self, a: RuntimeId, b: RuntimeId) -> bool {
        reaches(self.succ(), a.counter, b.counter)
    }

    /// How many runtimes have an edge leaving them.
    pub closed spec fn sources(self) -> nat {
        self.edges@.dom().len()
    }

    /// What holds of every graph that this module hands out: no runtime waits,
    /// directly or through others, for itself.
    pub closed spec fn wf(self) -> bool {
        &&& acyclic(self.succ())
        &&& self.edges@.dom().finite()
    }

    /// The successor lists say what `out_edges` says.
    proof fn lemma_succ_is_out_edges(self, a: RuntimeId, b: RuntimeId)
        ensures
            has_edge(self.succ(), a.counter, b.counter) <==> has_edge_to(self.out_edges(a), b),
            self.succ().dom().finite() <==> self.edges@.dom().finite(),
            self.succ().dom().len() == self.sources(),
    {
        assert(self.succ().dom() =~= self.edges@.dom());
        let ts = targets(self.succ(), a.counter);
        let es = self.out_edges(a);
        assert(ts.len() == es.len());
        if has_edge(self.succ(), a.counter, b.counter) {
            let i = choose|i: int| 0 <= i < ts.len() && ts[i] == b.counter;
            assert(es[i].0 == b);
        }
        if has_edge_to(es, b) {
            let i = choose|i: int| 0 <= i < es.len() && es[i].0 == b;
            assert(ts[i] == b.counter);
        }
    }

    /// A runtime reaches every runtime that one of its edges leads to, and
    /// everything that this one reaches.
    pub proof fn lemma_edge_reaches(self, a: RuntimeId, b: RuntimeId, c: RuntimeId)
        requires
            has_edge_to(self.out_edges(a), b),
            self.reaches(b, c),
        ensures
            self.reaches(a, b),
            self.reaches(a, c),
    {
        self.lemma_succ_is_out_edges(a, b);
        let p = seq![a.counter, b.counter];
        assert(crate::graph_model::connects(self.succ(), p, a.counter, b.counter)) by {
            assert(p[0] == a.counter && p[1] == b.counter);
        }
        crate::graph_model::lemma_reaches_transitive(self.succ(), a.counter, b.counter, c.counter);
    }

    /// Every runtime reaches itself.
    pub proof fn lemma_reaches_itself(self, a: RuntimeId)
        ensures
            self.reaches(a, a),
    {
        assert(crate::graph_model::connects(self.succ(), seq![a.counter], a.counter, a.counter));
    }

    /// A runtime that no edge leaves reaches nobody but itself.
    pub proof fn lemma_no_edge_no_reach(self, a: RuntimeId, b: RuntimeId)
        requires
            self.out_edges(a).len() == 0,
            a != b,
        ensures
            !self.reaches(a, b),
    {
        if self.reaches(a, b) {
            let p = choose|p: Seq<usize>| crate::graph_model::connects(self.succ(), p, a.counter, b.counter);
            assert(has_edge(self.succ(), p[0int], p[0int + 1]));
            assert(targets(self.succ(), a.counter).len() == self.out_edges(a).len());
        }
    }

    /// A graph without edges.
    pub fn new() -> (g: DependencyGraph)
        ensures
            g.wf(),
            g.is_empty(),
    {
        let g = DependencyGraph {
            edges: FxHashMap::default(),
            labels: FxHashMap::default(),
            forks: FxHashMap::default(),
        };
        proof {
            assert(g.succ() =~= Map::<usize, Seq<usize>>::empty());
            assert forall|a: RuntimeId, b: RuntimeId| g.reaches(a, b) <==> a == b by {
                Self::lemma_empty_reaches(g.succ(), a.counter, b.counter);
            }
            assert forall|c: usize| !crate::graph_model::reaches_by_edge(g.succ(), c, c) by {
                if crate::graph_model::reaches_by_edge(g.succ(), c, c) {
                    let p = choose|p: Seq<usize>|
                        crate::graph_model::connects(g.succ(), p, c, c) && p.len() >= 2;
                    assert(has_edge(g.succ(), p[0int], p[0int + 1]));
                }
            }
        }
        g
    }

    proof fn lemma_empty_reaches(g: Succ, a: usize, b: usize)
        requires
            g == Map::<usize, Seq<usize>>::empty(),
        ensures
            reaches(g, a, b) <==> a == b,
    {
        if reaches(g, a, b) {
            let p = choose|p: Seq<usize>| crate::graph_model::connects(g, p, a, b);
            if p.len() >= 2 {
                assert(has_edge(g, p[0int], p[0int + 1]));
            }
        }
        if a == b {
            assert(crate::graph_model::connects(g, seq![a], a, b));
        }
    }

    /// Walks the edges from `cur`, depth first and in the order in which each
    /// runtime's edges are held, for at most `fuel` edges, looking for `goal`.
    /// Where it finds the goal it adds the route to `trail`, end first and
    /// without the runtime that it started from.
    fn find_edge_within(&self, goal: usize, cur: usize, fuel: usize, trail: &mut Vec<usize>) -> (found:
        bool)
        ensures
            found == (route(self.succ(), goal, cur, fuel as nat) is Some),
            found ==> final(trail)@ == old(trail)@ + route(
                self.succ(),
                goal,
                cur,
                fuel as nat,
            )->0.drop_first().reverse(),
            !found ==> final(trail)@ == old(trail)@,
        decreases fuel,
    {
        if goal == cur {
            proof {
                assert(seq![cur].drop_first().reverse() =~= Seq::<usize>::empty());
                assert(trail@ + Seq::<usize>::empty() =~= trail@);
            }
            return true;
        }
        if fuel == 0 {
            return false;
        }
        let ghost g = self.succ();
        let ghost ts = targets(g, cur);
        match fx_get(&self.edges, &cur) {
            None => {
                assert(ts.len() == 0);
                false
            },
            Some(list) => {
                let qs = edge_list_as_slice(list);
                assert(ts == qs@.map_values(|e: Edge| e.id.counter));
                let mut i: usize = 0;
                while i < qs.len()
                    invariant
                        i <= qs.len(),
                        ts == qs@.map_values(|e: Edge| e.id.counter),
                        g == self.succ(),
                        ts == targets(g, cur),
                        goal != cur,
                        fuel > 0,
                        trail@ == old(trail)@,
                        route_through(g, goal, ts, 0, (fuel - 1) as nat) == route_through(
                            g,
                            goal,
                            ts,
                            i as int,
                            (fuel - 1) as nat,
                        ),
                    decreases qs.len() - i,
                {
                    let next: usize = qs[i].id.counter;
                    assert(ts[i as int] == next);
                    if self.find_edge_within(goal, next, fuel - 1, trail) {
                        trail.push(next);
                        proof {
                            let sub = route(g, goal, next, (fuel - 1) as nat)->0;
                            let whole = route(g, goal, cur, fuel as nat)->0;
                            crate::graph_model::lemma_route_is_path(g, goal, next, (fuel - 1) as nat);
                            assert(whole == seq![cur] + sub);
                            assert(whole.drop_first() =~= sub);
                            assert(sub.reverse() =~= sub.drop_first().reverse().push(next));
                            assert(trail@ =~= old(trail)@ + whole.drop_first().reverse());
                        }
                        return true;
                    }
                    i = i + 1;
                }
                false
            },
        }
    }

    /// Whether `from_id` can be reached from `to_id`. Where it can, the
    /// counters of the runtimes on the first route that a depth-first walk
    /// finds are added to `trail`, `from_id` first and `to_id` left out.
    pub fn find_edge(&self, from_id: RuntimeId, to_id: RuntimeId, trail: &mut Vec<usize>) -> (found:
        bool)
        requires
            self.wf(),
        ensures
            found == self.reaches(to_id, from_id),
            found == (route(self.succ(), from_id.counter, to_id.counter, self.sources()) is Some),
            found ==> final(trail)@ == old(trail)@ + route(
                self.succ(),
                from_id.counter,
                to_id.counter,
                self.sources(),
            )->0.drop_first().reverse(),
            !found ==> final(trail)@ == old(trail)@,
    {
        let fuel = fx_len(&self.edges);
        proof {
            self.lemma_succ_is_out_edges(from_id, to_id);
            lemma_route_decides_reaches(self.succ(), from_id.counter, to_id.counter, fuel as nat);
        }
        self.find_edge_within(from_id.counter, to_id.counter, fuel, trail)
    }

    /// Whether an edge from `from_id` to `to_id` would leave the graph without
    /// a cycle: whether `to_id` does not already wait, directly or through
    /// others, for `from_id`.
    pub fn can_add_edge(&self, from_id: RuntimeId, to_id: RuntimeId) -> (ok: bool)
        requires
            self.wf(),
        ensures
            ok == !self.reaches(to_id, from_id),
            ok == acyclic(with_edge(self.succ(), from_id.counter, to_id.counter)),
    {
        let mut trail: Vec<usize> = Vec::new();
        proof {
            lemma_new_edge_closes_cycle(self.succ(), from_id.counter, to_id.counter);
        }
        !self.find_edge(from_id, to_id, &mut trail)
    }

    /// Whether two graphs hold the same edges and the same indexes.
    pub open spec fn same_as(self, other: DependencyGraph) -> bool {
        &&& self.succ() == other.succ()
        &&& self.sources() == other.sources()
        &&& forall|r: RuntimeId| self.out_edges(r) == other.out_edges(r)
        &&& forall|k: DatabaseKeyIndex| self.blocked_on_key(k) == other.blocked_on_key(k)
        &&& forall|r: RuntimeId| self.blocked_on_fork(r) == other.blocked_on_fork(r)
    }

    /// What an edge records of the runtime that waits: its stack, and behind it
    /// the query that it waits for, if it waits for a query.
    pub open spec fn edge_path(path: Seq<DatabaseKeyIndex>, database_key: Option<&DatabaseKeyIndex>) -> Seq<
        DatabaseKeyIndex,
    > {
        match database_key {
            Some(k) => path.push(*k),
            None => path,
        }
    }

    /// Whether `self` is `before` with one edge more: from `from_id` to `to_id`,
    /// recorded with `path`, and registered under the query `database_key` or,
    /// where there is none, under the fork `to_id`.
    pub open spec fn is_with_edge(
        self,
        before: DependencyGraph,
        from_id: RuntimeId,
        database_key: Option<&DatabaseKeyIndex>,
        to_id: RuntimeId,
        path: Seq<DatabaseKeyIndex>,
    ) -> bool {
        &&& self.succ() == with_edge(before.succ(), from_id.counter, to_id.counter)
        &&& self.out_edges(from_id) == before.out_edges(from_id).push(
            (to_id, Self::edge_path(path, database_key)),
        )
        &&& forall|r: RuntimeId| r != from_id ==> self.out_edges(r) == before.out_edges(r)
        &&& forall|k: DatabaseKeyIndex|
            self.blocked_on_key(k) == if database_key == Some(&k) {
                before.blocked_on_key(k).push(from_id)
            } else {
                before.blocked_on_key(k)
            }
        &&& forall|r: RuntimeId|
            self.blocked_on_fork(r) == if database_key is None && r == to_id {
                before.blocked_on_fork(r).push(from_id)
            } else {
                before.blocked_on_fork(r)
            }
    }

    /// Whether `self` is `before` without the edges that ended when the query
    /// `database_key` finished in `to_id` or, where there is no query, when the
    /// fork `to_id` joined: the runtimes registered there are forgotten, and
    /// each of them lost one edge to `to_id` for each time it was registered.
    pub open spec fn is_without_edges(
        self,
        before: DependencyGraph,
        database_key: Option<&DatabaseKeyIndex>,
        to_id: RuntimeId,
    ) -> bool {
        &&& subgraph(self.succ(), before.succ())
        &&& forall|r: RuntimeId| #[trigger]
            self.out_edges(r) == without_edges_to(
                before.out_edges(r),
                to_id,
                occurrences(
                    before.blocked_on(database_key, to_id),
                    r,
                    before.blocked_on(database_key, to_id).len() as int,
                ),
            )
        &&& forall|k: DatabaseKeyIndex| #[trigger]
            self.blocked_on_key(k) == if database_key == Some(&k) {
                Seq::<RuntimeId>::empty()
            } else {
                before.blocked_on_key(k)
            }
        &&& forall|r: RuntimeId| #[trigger]
            self.blocked_on_fork(r) == if database_key is None && r == to_id {
                Seq::<RuntimeId>::empty()
            } else {
                before.blocked_on_fork(r)
            }
    }

    /// Attempt to add an edge `from_id -> to_id` into the graph: `from_id` is
    /// about to wait for `to_id`, either for the query `database_key` or, where
    /// there is none, for the fork `to_id` to join. `path` is the stack of
    /// `from_id`, outermost query first.
    ///
    /// The edge is refused, and `false` returned, exactly when it would close a
    /// cycle; the graph is then left as it was.
    pub fn add_edge(
        &mut self,
        from_id: RuntimeId,
        database_key: Option<&DatabaseKeyIndex>,
        to_id: RuntimeId,
        path: Vec<DatabaseKeyIndex>,
    ) -> (added: bool)
        requires
            old(self).wf(),
        ensures
            final(self).wf(),
            added == !old(self).reaches(to_id, from_id),
            added == acyclic(with_edge(old(self).succ(), from_id.counter, to_id.counter)),
            !added ==> final(self).same_as(*old(self)),
            added ==> final(self).is_with_edge(*old(self), from_id, database_key, to_id, path@),
    {
        if !self.can_add_edge(from_id, to_id) {
            return false;
        }
        let mut full_path = path;
        match database_key {
            Some(k) => {
                full_path.push(*k);
            },
            None => {},
        }
        let edge = Edge { id: to_id, path: full_path };
        let mut list: EdgeList = match fx_remove(&mut self.edges, &from_id.counter) {
            Some(l) => l,
            None => edge_list_new(),
        };
        edge_list_push(&mut list, edge);
        fx_insert(&mut self.edges, from_id.counter, list);
        proof {
            assert(self.succ() =~= with_edge(old(self).succ(), from_id.counter, to_id.counter)) by {
                let h = with_edge(old(self).succ(), from_id.counter, to_id.counter);
                assert(self.succ().dom() =~= h.dom());
                assert forall|c: usize| self.succ().contains_key(c) implies self.succ()[c] == h[c] by {
                    if c == from_id.counter {
                        assert(self.succ()[c] =~= h[c]);
                    }
                }
            }
            assert(self.out_edges(from_id) =~= old(self).out_edges(from_id).push(
                (to_id, Self::edge_path(path@, database_key)),
            ));
        }
        match database_key {
            Some(k) => {
                let code = k.code();
                let mut waiting: IdList = match fx_remove(&mut self.labels, &code) {
                    Some(l) => l,
                    None => id_list_new(),
                };
                id_list_push(&mut waiting, from_id);
                fx_insert(&mut self.labels, code, waiting);
                proof {
                    assert forall|k2: DatabaseKeyIndex|
                        self.blocked_on_key(k2) == if database_key == Some(&k2) {
                            old(self).blocked_on_key(k2).push(from_id)
                        } else {
                            old(self).blocked_on_key(k2)
                        } by {
                        DatabaseKeyIndex::lemma_code_injective(*k, k2);
                    }
                }
            },
            None => {
                let mut waiting: IdList = match fx_remove(&mut self.forks, &to_id.counter) {
                    Some(l) => l,
                    None => id_list_new(),
                };
                id_list_push(&mut waiting, from_id);
                fx_insert(&mut self.forks, to_id.counter, waiting);
            },
        }
        true
    }

    /// The runtimes whose edges end when the query `database_key` finishes in
    /// the runtime `to_id`, or, where there is no query, when the fork `to_id`
    /// joins.
    pub open spec fn blocked_on(self, database_key: Option<&DatabaseKeyIndex>, to_id: RuntimeId) -> Seq<
        RuntimeId,
    > {
        match database_key {
            Some(k) => self.blocked_on_key(*k),
            None => self.blocked_on_fork(to_id),
        }
    }

    /// Takes the first edge to `to_id` out of the edges that leave `from_id`,
    /// if there is one, and forgets `from_id` where no edge is left.
    fn remove_one_edge(&mut self, from_id: RuntimeId, to_id: RuntimeId)
        requires
            old(self).edges@.dom().finite(),
        ensures
            final(self).edges@.dom().finite(),
            final(self).labels == old(self).labels,
            final(self).forks == old(self).forks,
            subgraph(final(self).succ(), old(self).succ()),
            final(self).out_edges(from_id) == without_edge_to(old(self).out_edges(from_id), to_id),
            forall|r: RuntimeId| r != from_id ==> final(self).out_edges(r) == old(self).out_edges(r),
    {
        let ghost before = old(self).out_edges(from_id);
        match fx_remove(&mut self.edges, &from_id.counter) {
            None => {},
            Some(edges) => {
                let mut edges = edges;
                let ghost held = edge_list_items(edges);
                let j: usize = first_edge_position(edge_list_as_slice(&edges), to_id);
                let count: usize = edge_list_as_slice(&edges).len();
                assert(before == held.map_values(|e: Edge| e@));
                if j < count {
                    assert(is_first_edge_to(before, to_id, j as int));
                    assert(has_edge_to(before, to_id));
                    edge_list_swap_remove(&mut edges, j);
                    assert(edge_list_items(edges).map_values(|e: Edge| e@) =~= without_edge_to(
                        before,
                        to_id,
                    ));
                } else {
                    assert(!has_edge_to(before, to_id)) by {
                        if has_edge_to(before, to_id) {
                            let m = choose|m: int| 0 <= m < before.len() && before[m].0 == to_id;
                            assert(held[m].id == to_id);
                        }
                    }
                }
                let ghost kept = edge_list_items(edges);
                assert(forall|m: int|
                    0 <= m < kept.len() ==> exists|n: int|
                        0 <= n < held.len() && held[n] == #[trigger] kept[m]) by {
                    assert forall|m: int| 0 <= m < kept.len() implies exists|n: int|
                        0 <= n < held.len() && held[n] == #[trigger] kept[m] by {
                        if kept == held {
                            assert(held[m] == kept[m]);
                        } else if m == j {
                            assert(held[held.len() - 1] == kept[m]);
                        } else {
                            assert(held[m] == kept[m]);
                        }
                    }
                }
                if edge_list_as_slice(&edges).len() > 0 {
                    fx_insert(&mut self.edges, from_id.counter, edges);
                    assert(self.out_edges(from_id) == kept.map_values(|e: Edge| e@));
                }
                proof {
                    assert forall|a: usize, b: usize| has_edge(self.succ(), a, b) implies has_edge(
                        old(self).succ(),
                        a,
                        b,
                    ) by {
                        let ts = targets(self.succ(), a);
                        let m = choose|m: int| 0 <= m < ts.len() && ts[m] == b;
                        if a == from_id.counter {
                            assert(ts == kept.map_values(|e: Edge| e.id.counter));
                            let n = choose|n: int| 0 <= n < held.len() && held[n] == kept[m];
                            assert(targets(old(self).succ(), a)[n] == b);
                        } else {
                            assert(targets(old(self).succ(), a)[m] == b);
                        }
                    }
                }
            },
        }
    }

    /// Removes the edges that end when the query `database_key` finishes in
    /// the runtime `to_id` or, where there is no query, when the fork `to_id`
    /// joins. The runtimes registered for that query or fork are forgotten, and
    /// for each of them one edge to `to_id` is taken out of the edges that
    /// leave it.
    pub fn remove_edge(&mut self, database_key: Option<&DatabaseKeyIndex>, to_id: RuntimeId)
        requires
            old(self).wf(),
        ensures
            final(self).wf(),
            final(self).is_without_edges(*old(self), database_key, to_id),
    {
        let taken: IdList = match database_key {
            Some(k) => {
                let code = k.code();
                let taken = fx_remove(&mut self.labels, &code);
                proof {
                    assert forall|k2: DatabaseKeyIndex| #[trigger]
                        self.blocked_on_key(k2) == if database_key == Some(&k2) {
                            Seq::<RuntimeId>::empty()
                        } else {
                            old(self).blocked_on_key(k2)
                        } by {
                        DatabaseKeyIndex::lemma_code_injective(*k, k2);
                    }
                }
                match taken {
                    Some(l) => l,
                    None => id_list_new(),
                }
            },
            None => {
                match fx_remove(&mut self.forks, &to_id.counter) {
                    Some(l) => l,
                    None => id_list_new(),
                }
            },
        };
        let list = id_list_as_slice(&taken);
        assert(list@ == old(self).blocked_on(database_key, to_id));
        let ghost pre = *self;
        assert(forall|k: DatabaseKeyIndex| #[trigger]
            pre.blocked_on_key(k) == if database_key == Some(&k) {
                Seq::<RuntimeId>::empty()
            } else {
                old(self).blocked_on_key(k)
            });
        assert(forall|r: RuntimeId| #[trigger]
            pre.blocked_on_fork(r) == if database_key is None && r == to_id {
                Seq::<RuntimeId>::empty()
            } else {
                old(self).blocked_on_fork(r)
            });
        let ghost labels = self.labels;
        let ghost forks = self.forks;
        let mut i: usize = 0;
        while i < list.len()
            invariant
                i <= list.len(),
                self.labels == labels,
                self.forks == forks,
                labels == pre.labels,
                forks == pre.forks,
                self.edges@.dom().finite(),
                subgraph(self.succ(), old(self).succ()),
                forall|r: RuntimeId| #[trigger]
                    self.out_edges(r) == without_edges_to(
                        old(self).out_edges(r),
                        to_id,
                        occurrences(list@, r, i as int),
                    ),
            decreases list.len() - i,
        {
            let from_id = list[i];
            let ghost mid = *self;
            self.remove_one_edge(from_id, to_id);
            proof {
                assert forall|r: RuntimeId| #[trigger]
                    self.out_edges(r) == without_edges_to(
                        old(self).out_edges(r),
                        to_id,
                        occurrences(list@, r, i + 1),
                    ) by {
                    assert(mid.out_edges(r) == without_edges_to(
                        old(self).out_edges(r),
                        to_id,
                        occurrences(list@, r, i as int),
                    ));
                }
            }
            i = i + 1;
        }
        proof {
            lemma_subgraph_acyclic(self.succ(), old(self).succ());
            assert forall|k: DatabaseKeyIndex| #[trigger]
                self.blocked_on_key(k) == if database_key == Some(&k) {
                    Seq::<RuntimeId>::empty()
                } else {
                    old(self).blocked_on_key(k)
                } by {
                assert(self.blocked_on_key(k) == pre.blocked_on_key(k));
            }
            assert forall|r: RuntimeId| #[trigger]
                self.blocked_on_fork(r) == if database_key is None && r == to_id {
                    Seq::<RuntimeId>::empty()
                } else {
                    old(self).blocked_on_fork(r)
                } by {
                assert(self.blocked_on_fork(r) == pre.blocked_on_fork(r));
            }
        }
    }

    /// The runtimes on the way from `to` to `from`, `to` first, as a
    /// depth-first walk finds them; `to` alone where there is no way.
    pub open spec fn cycle_nodes(self, from: RuntimeId, to: RuntimeId) -> Seq<usize> {
        match route(self.succ(), from.counter, to.counter, self.sources()) {
            Some(r) => r,
            None => seq![to.counter],
        }
    }

    /// The queries of a cycle from the place `k` of `nodes` on, where `seg` is
    /// the stretch of queries that belongs to `nodes[k]` and `link` the last
    /// query that a stretch ended with.
    ///
    /// The stretch of the next runtime is what the edge to it recorded behind
    /// the query that this stretch ends with, or all that it recorded where
    /// that query is not in it. After the last runtime comes what `local`
    /// holds behind that query.
    #[verifier::opaque]
    pub open spec fn stitch(
        self,
        nodes: Seq<usize>,
        k: int,
        seg: Seq<DatabaseKeyIndex>,
        link: DatabaseKeyIndex,
        local: Seq<DatabaseKeyIndex>,
    ) -> Seq<DatabaseKeyIndex>
        decreases nodes.len() - k,
    {
        let link = if seg.len() > 0 {
            seg.last()
        } else {
            link
        };
        if 0 <= k && k + 1 < nodes.len() && has_edge_to(
            self.out_edges(RuntimeId { counter: nodes[k] }),
            RuntimeId { counter: nodes[k + 1] },
        ) {
            let es = self.out_edges(RuntimeId { counter: nodes[k] });
            let j = first_edge_to(es, RuntimeId { counter: nodes[k + 1] });
            seg + self.stitch(nodes, k + 1, after_last(es[j].1, link), link, local)
        } else {
            seg + after_first(local, link)
        }
    }

    /// The query that the stretch `seg` ends with, or `link` where it is empty.
    pub open spec fn link_of(seg: Seq<DatabaseKeyIndex>, link: DatabaseKeyIndex) -> DatabaseKeyIndex {
        if seg.len() > 0 {
            seg.last()
        } else {
            link
        }
    }

    /// One step of `stitch` where an edge leads on to the next runtime.
    proof fn lemma_stitch_next(
        self,
        nodes: Seq<usize>,
        k: int,
        seg: Seq<DatabaseKeyIndex>,
        link: DatabaseKeyIndex,
        local: Seq<DatabaseKeyIndex>,
    )
        requires
            0 <= k,
            k + 1 < nodes.len(),
            has_edge_to(
                self.out_edges(RuntimeId { counter: nodes[k] }),
                RuntimeId { counter: nodes[k + 1] },
            ),
        ensures
            self.stitch(nodes, k, seg, link, local) == seg + self.stitch(
                nodes,
                k + 1,
                after_last(
                    self.out_edges(RuntimeId { counter: nodes[k] })[first_edge_to(
                        self.out_edges(RuntimeId { counter: nodes[k] }),
                        RuntimeId { counter: nodes[k + 1] },
                    )].1,
                    Self::link_of(seg, link),
                ),
                Self::link_of(seg, link),
                local,
            ),
    {
        reveal_with_fuel(DependencyGraph::stitch, 1);
    }

    /// The last step of `stitch`.
    proof fn lemma_stitch_end(
        self,
        nodes: Seq<usize>,
        k: int,
        seg: Seq<DatabaseKeyIndex>,
        link: DatabaseKeyIndex,
        local: Seq<DatabaseKeyIndex>,
    )
        requires
            !(0 <= k && k + 1 < nodes.len() && has_edge_to(
                self.out_edges(RuntimeId { counter: nodes[k] }),
                RuntimeId { counter: nodes[k + 1] },
            )),
        ensures
            self.stitch(nodes, k, seg, link, local) == seg + after_first(
                local,
                Self::link_of(seg, link),
            ),
    {
        reveal_with_fuel(DependencyGraph::stitch, 1);
    }

    /// The queries of the cycle that the runtime `from` closes by waiting for
    /// `to`, in the order in which they were entered, starting with
    /// `database_key` and ending with the tail of `local`, the stack of `from`.
    pub open spec fn cycle_path(
        self,
        database_key: DatabaseKeyIndex,
        from: RuntimeId,
        to: RuntimeId,
        local: Seq<DatabaseKeyIndex>,
    ) -> Seq<DatabaseKeyIndex> {
        self.stitch(self.cycle_nodes(from, to), 0, seq![database_key], database_key, local)
    }

    /// Graphs with the same edges tell of the same cycles.
    pub proof fn lemma_same_cycle_path(
        self,
        other: DependencyGraph,
        database_key: DatabaseKeyIndex,
        from: RuntimeId,
        to: RuntimeId,
        local: Seq<DatabaseKeyIndex>,
    )
        requires
            other.same_as(self),
            other.sources() == self.sources(),
        ensures
            other.cycle_path(database_key, from, to, local) == self.cycle_path(
                database_key,
                from,
                to,
                local,
            ),
    {
        let nodes = self.cycle_nodes(from, to);
        self.lemma_same_stitch(other, nodes, 0, seq![database_key], database_key, local);
    }

    /// Graphs with the same edges stitch the same.
    proof fn lemma_same_stitch(
        self,
        other: DependencyGraph,
        nodes: Seq<usize>,
        k: int,
        seg: Seq<DatabaseKeyIndex>,
        link: DatabaseKeyIndex,
        local: Seq<DatabaseKeyIndex>,
    )
        requires
            other.same_as(self),
        ensures
            other.stitch(nodes, k, seg, link, local) == self.stitch(nodes, k, seg, link, local),
        decreases nodes.len() - k,
    {
        reveal_with_fuel(DependencyGraph::stitch, 1);
        let link2 = Self::link_of(seg, link);
        if 0 <= k && k + 1 < nodes.len() && has_edge_to(
            self.out_edges(RuntimeId { counter: nodes[k] }),
            RuntimeId { counter: nodes[k + 1] },
        ) {
            let es = self.out_edges(RuntimeId { counter: nodes[k] });
            let j = first_edge_to(es, RuntimeId { counter: nodes[k + 1] });
            self.lemma_same_stitch(other, nodes, k + 1, after_last(es[j].1, link2), link2, local);
        }
    }

    /// What the first edge from `id` to `next_id` recorded behind the query
    /// `link`; `None` where there is no such edge.
    fn next_stretch(&self, id: usize, next_id: usize, link: DatabaseKeyIndex) -> (r: Option<
        Vec<DatabaseKeyIndex>,
    >)
        ensures
            r is Some == has_edge_to(
                self.out_edges(RuntimeId { counter: id }),
                RuntimeId { counter: next_id },
            ),
            r is Some ==> r->0@ == after_last(
                self.out_edges(RuntimeId { counter: id })[first_edge_to(
                    self.out_edges(RuntimeId { counter: id }),
                    RuntimeId { counter: next_id },
                )].1,
                link,
            ),
    {
        let ghost es = self.out_edges(RuntimeId { counter: id });
        let ghost next = RuntimeId { counter: next_id };
        match fx_get(&self.edges, &id) {
            None => {
                assert(es.len() == 0);
                None
            },
            Some(list) => {
                let edges = edge_list_as_slice(list);
                assert(es == edges@.map_values(|e: Edge| e@));
                let j: usize = first_edge_position(edges, RuntimeId { counter: next_id });
                if j < edges.len() {
                    assert(is_first_edge_to(es, next, j as int));
                    let start = index_after_last(&edges[j].path, link);
                    let mut fresh: Vec<DatabaseKeyIndex> = Vec::new();
                    append_from(&mut fresh, edges[j].path.as_slice(), start);
                    assert(fresh@ =~= after_last(es[j as int].1, link));
                    Some(fresh)
                } else {
                    assert(!has_edge_to(es, next)) by {
                        if has_edge_to(es, next) {
                            let m = choose|m: int| 0 <= m < es.len() && es[m].0 == next;
                            assert(edges@[m].id == next);
                        }
                    }
                    None
                }
            },
        }
    }

    /// The queries of the cycle that `from` closes by waiting for `to`.
    ///
    /// Walks from `to` along the edges to `from`, and puts together what each
    /// edge on the way recorded of the stack of the runtime that waits, each
    /// stretch starting behind the query that the one before ended with; the
    /// tail of `local_path`, the stack of `from`, comes last.
    pub fn get_cycle_path(
        &self,
        database_key: &DatabaseKeyIndex,
        from: RuntimeId,
        to: RuntimeId,
        local_path: &[DatabaseKeyIndex],
    ) -> (cycle: Vec<DatabaseKeyIndex>)
        requires
            self.wf(),
        ensures
            cycle@ == self.cycle_path(*database_key, from, to, local_path@),
    {
        let mut trail: Vec<usize> = Vec::new();
        let found = self.find_edge(from, to, &mut trail);
        trail.push(to.counter);
        let ghost nodes = self.cycle_nodes(from, to);
        proof {
            if found {
                crate::graph_model::lemma_route_is_path(
                    self.succ(),
                    from.counter,
                    to.counter,
                    self.sources(),
                );
            }
            assert(trail@ =~= nodes.reverse());
        }
        let n: usize = trail.len();
        let mut out: Vec<DatabaseKeyIndex> = Vec::new();
        let mut seg: Vec<DatabaseKeyIndex> = Vec::new();
        seg.push(*database_key);
        let mut link: DatabaseKeyIndex = *database_key;
        let mut k: usize = 0;
        assert(seg@ =~= seq![*database_key]);
        assert(out@ + self.stitch(nodes, 0, seg@, link, local_path@) =~= self.cycle_path(
            *database_key,
            from,
            to,
            local_path@,
        ));
        loop
            invariant
                k < n,
                n == nodes.len(),
                n == trail.len(),
                forall|m: int| 0 <= m < n ==> trail@[n - 1 - m] == #[trigger] nodes[m],
                self.cycle_path(*database_key, from, to, local_path@) == out@ + self.stitch(
                    nodes,
                    k as int,
                    seg@,
                    link,
                    local_path@,
                ),
            decreases n - k,
        {
            let ghost old_link = link;
            let ghost this_seg = seg@;
            let ghost emitted = out@;
            if seg.len() > 0 {
                link = seg[seg.len() - 1];
            }
            assert(link == Self::link_of(this_seg, old_link));
            let id: usize = trail[n - 1 - k];
            assert(id == nodes[k as int]);
            let mut next_seg: Option<Vec<DatabaseKeyIndex>> = None;
            if k + 1 < n {
                let next_id: usize = trail[n - 2 - k];
                assert(next_id == nodes[k + 1]);
                next_seg = self.next_stretch(id, next_id, link);
            }
            append_from(&mut out, seg.as_slice(), 0);
            assert(out@ == emitted + this_seg) by {
                assert(this_seg.subrange(0, this_seg.len() as int) =~= this_seg);
            }
            match next_seg {
                Some(fresh) => {
                    proof {
                        self.lemma_stitch_next(nodes, k as int, this_seg, old_link, local_path@);
                        let rest = self.stitch(nodes, k + 1, fresh@, link, local_path@);
                        assert(emitted + (this_seg + rest) =~= (emitted + this_seg) + rest);
                    }
                    seg = fresh;
                    k = k + 1;
                },
                None => {
                    proof {
                        self.lemma_stitch_end(nodes, k as int, this_seg, old_link, local_path@);
                    }
                    let start = index_after_first(local_path, link);
                    let ghost tail = after_first(local_path@, link);
                    append_from(&mut out, local_path, start);
                    assert(emitted + (this_seg + tail) =~= (emitted + this_seg) + tail);
                    return out;
                },
            }
        }
    }
}

/// The place of the first of `edges` that leads to `to_id`; their number where
/// none does.
fn first_edge_position(edges: &[Edge], to_id: RuntimeId) -> (j: usize)
    ensures
        j <= edges@.len(),
        forall|m: int| 0 <= m < j ==> edges@[m].id != to_id,
        j < edges@.len() ==> edges@[j as int].id == to_id,
{
    let mut j: usize = 0;
    while j < edges.len() && !(edges[j].id == to_id)
        invariant
            j <= edges.len(),
            forall|m: int| 0 <= m < j ==> edges@[m].id != to_id,
        decreases edges.len() - j,
    {
        j = j + 1;
    }
    j
}

/// Where the part of `path` behind its last `x` starts.
fn index_after_last(path: &Vec<DatabaseKeyIndex>, x: DatabaseKeyIndex) -> (start: usize)
    ensures
        start <= path.len(),
        path@.subrange(start as int, path.len() as int) == after_last(path@, x),
{
    let mut i: usize = path.len();
    while i > 0 && !(path[i - 1] == x)
        invariant
            i <= path.len(),
            forall|j: int| i <= j < path.len() ==> path@[j] != x,
        decreases i,
    {
        i = i - 1;
    }
    proof {
        if i > 0 {
            let s = path@;
            let w = (i - 1) as int;
            assert(0 <= w < s.len() && s[w] == x && forall|j: int| w < j < s.len() ==> s[j] != x);
            assert(s.contains(x));
            let c = last_index(s, x);
            assert(c == w);
        } else {
            assert(!path@.contains(x));
            assert(path@.subrange(0, path.len() as int) =~= path@);
        }
    }
    i
}

/// Where the part of `local` behind its first `x` starts.
fn index_after_first(local: &[DatabaseKeyIndex], x: DatabaseKeyIndex) -> (start: usize)
    ensures
        start <= local.len(),
        local@.subrange(start as int, local.len() as int) == after_first(local@, x),
{
    let mut i: usize = 0;
    while i < local.len() && !(local[i] == x)
        invariant
            i <= local.len(),
            forall|j: int| 0 <= j < i ==> local@[j] != x,
        decreases local.len() - i,
    {
        i = i + 1;
    }
    proof {
        let s = local@;
        if i < local.len() {
            let w = i as int;
            assert(0 <= w < s.len() && s[w] == x && forall|j: int| 0 <= j < w ==> s[j] != x);
            assert(s.contains(x));
            let c = first_index(s, x);
            assert(c == w);
        } else {
            assert(!s.contains(x));
            assert(s.subrange(s.len() as int, s.len() as int) =~= Seq::<DatabaseKeyIndex>::empty());
        }
    }
    if i < local.len() {
        i + 1
    } else {
        i
    }
}

} // verus!
