//! The per-thread handle of the engine and the bookkeeping that it shares.

use crate::cycle::CycleDetected;
use crate::cycle::CycleError;
use crate::durability::Durability;
use crate::event::Event;
use crate::event::EventKind;
use crate::graph::lemma_without_edges_of_none;
use crate::graph::occurrences;
use crate::graph::DependencyGraph;
use crate::key::DatabaseKeyIndex;
use crate::local_state::innermost;
use crate::local_state::keys_on;
use crate::local_state::top_run;
use crate::local_state::with_top;
use crate::local_state::FrameView;
use crate::local_state::LocalState;
use crate::revision::Revision;
use vstd::prelude::*;

verus! {

/// A value together with the stamps that say when it last changed and how
/// durable it is.
#[derive(Clone, Debug)]
pub struct StampedValue<V> {
    /// The value.
    pub value: V,
    /// The least durability among what the value was computed from.
    pub durability: Durability,
    /// The revision in which the value last changed.
    pub changed_at: Revision,
}

/// A unique identifier for a particular runtime. Each time you create
/// a snapshot, a fresh `RuntimeId` is generated.
#[derive(Copy, Clone, Debug, PartialEq, Eq, Hash, PartialOrd, Ord, Structural)]
pub struct RuntimeId {
    /// The position of the runtime among those that its database has made.
    pub counter: usize,
}

/// What the execution of a query function came to: its value and what the
/// frame of the query had gathered when it was left.
pub struct ComputedQueryResult<V> {
    /// Final value produced.
    pub value: V,
    /// Minimum durability of inputs observed so far.
    pub durability: Durability,
    /// Maximum revision of all inputs observed. If we observe an
    /// untracked read, this will be set to the most recent revision.
    pub changed_at: Revision,
    /// Complete set of subqueries that were accessed, in the order of their
    /// first access, or `None` if there was an untracked read.
    pub dependencies: Option<Vec<DatabaseKeyIndex>>,
    /// The cycle if one occurred while computing this value.
    pub cycle: Vec<DatabaseKeyIndex>,
}

/// The runtimes on whose behalf a forked runtime works: the runtime that
/// forked it and, before that one, those that it worked for itself.
pub struct ForkState {
    /// The runtimes, outermost first.
    pub parents: Vec<RuntimeId>,
}

/// Made by [`forker`]; forks runtimes that run queries side by side with the
/// runtime that made it.
pub struct Forker {
    /// What each forked runtime is told of its parents.
    pub state: ForkState,
}

/// The state that all the runtimes of one database share: the clock, the
/// counter that names the runtimes, and the graph of who waits for whom.
pub struct SharedState {
    next_id: usize,
    pending_revision: Revision,
    revisions: Vec<Revision>,
    dependency_graph: DependencyGraph,
}

/// A copy of a list of runtimes.
fn copy_ids(src: &Vec<RuntimeId>) -> (out: Vec<RuntimeId>)
    ensures
        out@ == src@,
{
    let mut out: Vec<RuntimeId> = Vec::new();
    let mut i: usize = 0;
    while i < src.len()
        invariant
            i <= src.len(),
            out@ == src@.subrange(0, i as int),
        decreases src.len() - i,
    {
        out.push(src[i]);
        assert(out@ =~= src@.subrange(0, i + 1));
        i = i + 1;
    }
    assert(src@.subrange(0, src.len() as int) =~= src@);
    out
}

impl SharedState {
    /// The revision that the database is in.
    pub closed spec fn current(self) -> Revision {
        self.revisions@[0]
    }

    /// The latest revision in which a value of durability `d` or higher
    /// changed.
    pub closed spec fn last_changed(self, d: Durability) -> Revision {
        self.revisions@[d.spec_index()]
    }

    /// The revision that is being prepared: the current one, or the next one
    /// while a write waits for the running queries to end.
    pub closed spec fn pending(self) -> Revision {
        self.pending_revision
    }

    /// The counter of the next runtime to be made.
    pub closed spec fn next_id(self) -> usize {
        self.next_id
    }

    /// The graph of the runtimes that wait for one another.
    pub closed spec fn graph(self) -> DependencyGraph {
        self.dependency_graph
    }

    /// What holds of a shared state at all times: the higher the durability,
    /// the longer ago the last change, and none before the first revision; the
    /// lowest level changed in the current revision; at most one revision is
    /// pending; the graph has no cycle, and no edge leaves a runtime that has
    /// not been made yet.
    pub closed spec fn wf(self) -> bool {
        &&& self.revisions@.len() == 3
        &&& self.revisions@[0]@ >= self.revisions@[1]@ >= self.revisions@[2]@
        &&& self.revisions@[2]@ >= 1
        &&& self.revisions@[0]@ <= self.pending_revision@ <= self.revisions@[0]@ + 1
        &&& self.next_id >= 1
        &&& self.dependency_graph.wf()
        &&& forall|r: RuntimeId|
            r.counter >= self.next_id ==> (#[trigger] self.dependency_graph.out_edges(r)).len() == 0
    }

    /// Whether the two states show the same clock.
    pub open spec fn same_clock(self, other: SharedState) -> bool {
        &&& self.current() == other.current()
        &&& self.pending() == other.pending()
        &&& forall|d: Durability| self.last_changed(d) == other.last_changed(d)
    }

    /// Whether `self` is what a write that changed a value of durability
    /// `changed` makes of `before`: a new revision has begun and, where a value
    /// changed, every level up to its durability last changed in it.
    pub open spec fn is_written(self, before: SharedState, changed: Option<Durability>) -> bool {
        &&& self.current() == before.current().spec_next()
        &&& self.current()@ == before.current()@ + 1
        &&& self.pending() == self.current()
        &&& forall|d: Durability|
            self.last_changed(d) == if d == Durability::Low || (changed is Some && d.spec_index()
                <= changed->0.spec_index()) {
                self.current()
            } else {
                before.last_changed(d)
            }
    }

    /// The consequences of `wf` that callers rely on.
    pub proof fn lemma_wf(self)
        requires
            self.wf(),
        ensures
            self.graph().wf(),
            self.last_changed(Durability::Low) == self.current(),
            forall|a: Durability, b: Durability|
                a.spec_index() <= b.spec_index() ==> self.last_changed(a)@ >= self.last_changed(b)@,
            forall|d: Durability| (#[trigger] self.last_changed(d))@ <= self.current()@,
            forall|d: Durability| (#[trigger] self.last_changed(d))@ >= 1,
            self.current()@ >= 1,
            self.pending()@ >= 1,
            self.current()@ <= self.pending()@ <= self.current()@ + 1,
            forall|r: RuntimeId|
                r.counter >= self.next_id() ==> (#[trigger] self.graph().out_edges(r)).len() == 0,
    {
    }

    /// A write moves the clock forward and never back: the current revision
    /// is the next one, nothing is pending any more, every level up to the
    /// durability of what changed last changed in the new revision, and the
    /// levels above are as they were.
    pub proof fn lemma_write_moves_forward(
        before: SharedState,
        after: SharedState,
        changed: Option<Durability>,
    )
        requires
            before.wf(),
            after.is_written(before, changed),
        ensures
            after.current()@ == before.current()@ + 1,
            after.current()@ > before.current()@,
            after.pending() == after.current(),
            forall|d: Durability| (#[trigger] after.last_changed(d))@ >= before.last_changed(d)@,
            forall|d: Durability|
                changed is Some && d.spec_index() <= changed->0.spec_index()
                    ==> #[trigger] after.last_changed(d) == after.current(),
            forall|d: Durability|
                changed is Some && d.spec_index() > changed->0.spec_index()
                    ==> #[trigger] after.last_changed(d) == before.last_changed(d),
            after.last_changed(Durability::Low) == after.current(),
    {
        before.lemma_wf();
        assert forall|d: Durability| (#[trigger] after.last_changed(d))@ >= before.last_changed(
            d,
        )@ by {
            assert(before.last_changed(d)@ <= before.current()@);
        }
    }

    /// The shared state of a fresh database: the first revision, nothing
    /// pending, nobody waiting, and one runtime made.
    pub fn new() -> (shared: SharedState)
        ensures
            shared.wf(),
            shared.current() == Revision::start(),
            shared.current()@ == 1,
            shared.pending() == Revision::start(),
            forall|d: Durability| shared.last_changed(d) == Revision::start(),
            shared.next_id() == 1,
            shared.graph().is_empty(),
    {
        let mut revisions: Vec<Revision> = Vec::new();
        revisions.push(Revision::start());
        revisions.push(Revision::start());
        revisions.push(Revision::start());
        SharedState {
            next_id: 1,
            pending_revision: Revision::start(),
            revisions,
            dependency_graph: DependencyGraph::new(),
        }
    }

    /// Read current value of the revision counter.
    pub fn current_revision(&self) -> (r: Revision)
        requires
            self.wf(),
        ensures
            r == self.current(),
    {
        self.revisions[0]
    }

    /// The revision in which values with durability `d` may have last
    /// changed. For `LOW` this is just the current revision; for higher
    /// levels it may lag behind, which is what allows a memo of that
    /// durability to be reused without a look at its inputs.
    pub fn last_changed_revision(&self, d: Durability) -> (r: Revision)
        requires
            self.wf(),
        ensures
            r == self.last_changed(d),
    {
        self.revisions[d.index()]
    }

    /// The revision that is pending.
    pub fn pending_revision(&self) -> (r: Revision)
        ensures
            r == self.pending(),
    {
        self.pending_revision
    }

    /// The counter of the next runtime to be made.
    pub fn next_counter(&self) -> (counter: usize)
        ensures
            counter == self.next_id(),
    {
        self.next_id
    }

    /// The graph of the runtimes that wait for one another.
    pub fn dependency_graph(&self) -> (graph: &DependencyGraph)
        ensures
            *graph == self.graph(),
    {
        &self.dependency_graph
    }

    /// Names a new runtime.
    pub fn next_runtime_id(&mut self) -> (id: RuntimeId)
        requires
            old(self).wf(),
            old(self).next_id() < usize::MAX,
        ensures
            final(self).wf(),
            id.counter == old(self).next_id(),
            final(self).next_id() == old(self).next_id() + 1,
            final(self).same_clock(*old(self)),
            final(self).graph() == old(self).graph(),
    {
        let id = RuntimeId { counter: self.next_id };
        self.next_id = self.next_id + 1;
        id
    }

    /// Announces a write: the next revision becomes pending, so that running
    /// queries that ask see that the current one is canceled. Returns the
    /// revision that is still current.
    pub fn begin_increment(&mut self) -> (current: Revision)
        requires
            old(self).wf(),
            old(self).pending() == old(self).current(),
            old(self).current()@ < u64::MAX,
        ensures
            final(self).wf(),
            current == old(self).current(),
            final(self).current() == old(self).current(),
            final(self).pending() == old(self).current().spec_next(),
            final(self).pending()@ == old(self).current()@ + 1,
            forall|d: Durability| final(self).last_changed(d) == old(self).last_changed(d),
            final(self).next_id() == old(self).next_id(),
            final(self).graph() == old(self).graph(),
    {
        let current = self.pending_revision;
        self.pending_revision = current.next();
        proof {
            Revision::lemma_view_injective(current, self.revisions@[0]);
        }
        current
    }

    /// Carries out the write that was announced: the pending revision becomes
    /// the current one and, where the write changed a value of durability
    /// `changed`, every level up to that durability is marked as changed in
    /// it. Returns the new revision.
    pub fn finish_increment(&mut self, changed: Option<Durability>) -> (new_revision: Revision)
        requires
            old(self).wf(),
            old(self).pending()@ == old(self).current()@ + 1,
        ensures
            final(self).wf(),
            new_revision == final(self).current(),
            final(self).is_written(*old(self), changed),
            final(self).next_id() == old(self).next_id(),
            final(self).graph() == old(self).graph(),
            forall|d: Durability| final(self).last_changed(d)@ >= old(self).last_changed(d)@,
    {
        proof {
            Revision::lemma_view_injective(self.pending_revision, self.revisions@[0]);
        }
        let new_revision = self.revisions[0].next();
        proof {
            Revision::lemma_view_injective(new_revision, self.pending_revision);
        }
        self.revisions.set(0, new_revision);
        match changed {
            Some(d) => {
                let top = d.index();
                let mut i: usize = 1;
                while i <= top
                    invariant
                        1 <= i <= top + 1,
                        top < 3,
                        self.revisions@.len() == 3,
                        self.revisions@[0] == new_revision,
                        self.next_id == old(self).next_id,
                        self.pending_revision == old(self).pending_revision,
                        self.dependency_graph == old(self).dependency_graph,
                        forall|j: int|
                            1 <= j < 3 ==> self.revisions@[j] == if j < i {
                                new_revision
                            } else {
                                old(self).revisions@[j]
                            },
                    decreases top + 1 - i,
                {
                    self.revisions.set(i, new_revision);
                    i = i + 1;
                }
            },
            None => {},
        }
        proof {
            assert forall|d: Durability|
                self.last_changed(d) == if d == Durability::Low || (changed is Some
                    && d.spec_index() <= changed->0.spec_index()) {
                    self.current()
                } else {
                    old(self).last_changed(d)
                } by {
                Durability::lemma_index_injective(d, Durability::Low);
            }
        }
        new_revision
    }
}

/// The handle through which one thread of control uses the database: its
/// name, the queries that it is in the middle of, and whose fork it is.
///
/// The state that all runtimes share is not part of the handle; every
/// operation that needs it takes it as an argument.
pub struct Runtime {
    /// Our unique runtime id.
    id: RuntimeId,
    /// Whether this is a snapshot or a fork, which keeps the revision from
    /// moving on while it lives.
    revision_guard: bool,
    /// Local state that is specific to this runtime.
    local_state: LocalState,
    /// The runtimes that this one was forked for, if it is a fork.
    parent: Option<ForkState>,
}

impl Default for Runtime {
    /// The first handle of a new database.
    fn default() -> (rt: Runtime)
        ensures
            rt.spec_id().counter == 0,
            rt.stack() == Seq::<FrameView>::empty(),
            !rt.holds_guard(),
            !rt.is_fork(),
            rt.parents() == Seq::<RuntimeId>::empty(),
    {
        Runtime::new()
    }
}

impl Runtime {
    /// The name of the runtime.
    pub closed spec fn spec_id(self) -> RuntimeId {
        self.id
    }

    /// The frames of the queries that the runtime is in, outermost first.
    pub closed spec fn stack(self) -> Seq<FrameView> {
        self.local_state@
    }

    /// Whether the runtime is a snapshot or a fork.
    pub closed spec fn holds_guard(self) -> bool {
        self.revision_guard
    }

    /// The runtimes that this one works for, outermost first; none where it is
    /// no fork.
    pub closed spec fn parents(self) -> Seq<RuntimeId> {
        match self.parent {
            Some(state) => state.parents@,
            None => Seq::empty(),
        }
    }

    /// Whether the runtime is the fork of another.
    pub closed spec fn is_fork(self) -> bool {
        self.parent is Some
    }

    /// Whether the runtime may start a new revision: it is no snapshot and
    /// runs no query.
    pub open spec fn spec_permits_increment(self) -> bool {
        !self.holds_guard() && self.stack().len() == 0
    }

    /// Whether `self` is `before` with another stack.
    pub open spec fn same_but_stack(self, before: Runtime) -> bool {
        &&& self.spec_id() == before.spec_id()
        &&& self.holds_guard() == before.holds_guard()
        &&& self.parents() == before.parents()
        &&& self.is_fork() == before.is_fork()
    }

    /// Create a new runtime: the first handle of a new database.
    pub fn new() -> (rt: Runtime)
        ensures
            rt.spec_id().counter == 0,
            rt.stack() == Seq::<FrameView>::empty(),
            !rt.holds_guard(),
            !rt.is_fork(),
            rt.parents() == Seq::<RuntimeId>::empty(),
    {
        Runtime {
            id: RuntimeId { counter: 0 },
            revision_guard: false,
            local_state: LocalState::new(),
            parent: None,
        }
    }

    /// A second handle to the database, under a new name, that holds the
    /// database at its current revision. It works for whom this runtime works
    /// for. Not to be called in the middle of a query.
    pub fn snapshot(&self, shared: &mut SharedState) -> (rt: Runtime)
        requires
            self.stack().len() == 0,
            old(shared).wf(),
            old(shared).next_id() < usize::MAX,
        ensures
            final(shared).wf(),
            rt.spec_id().counter == old(shared).next_id(),
            final(shared).next_id() == old(shared).next_id() + 1,
            final(shared).same_clock(*old(shared)),
            final(shared).graph() == old(shared).graph(),
            rt.holds_guard(),
            rt.stack() == Seq::<FrameView>::empty(),
            rt.is_fork() == self.is_fork(),
            rt.parents() == self.parents(),
    {
        let id = shared.next_runtime_id();
        let parent = match &self.parent {
            Some(state) => Some(ForkState { parents: copy_ids(&state.parents) }),
            None => None,
        };
        Runtime { id, revision_guard: true, local_state: LocalState::new(), parent }
    }

    /// Returns a "forked" runtime, suitable to call concurrent queries: a
    /// handle under a new name that works for the runtimes in `state`. This
    /// runtime is registered as waiting for the fork to join.
    pub fn fork(&self, shared: &mut SharedState, state: ForkState) -> (rt: Runtime)
        requires
            old(shared).wf(),
            old(shared).next_id() < usize::MAX,
            self.spec_id().counter < old(shared).next_id(),
        ensures
            final(shared).wf(),
            rt.spec_id().counter == old(shared).next_id(),
            final(shared).next_id() == old(shared).next_id() + 1,
            final(shared).same_clock(*old(shared)),
            final(shared).graph().is_with_edge(
                old(shared).graph(),
                self.spec_id(),
                None,
                rt.spec_id(),
                keys_on(self.stack()),
            ),
            rt.holds_guard(),
            rt.stack() == Seq::<FrameView>::empty(),
            rt.is_fork(),
            rt.parents() == state.parents@,
    {
        let id = shared.next_runtime_id();
        let ghost mid = *shared;
        proof {
            shared.dependency_graph.lemma_no_edge_no_reach(id, self.id);
        }
        let added = shared.dependency_graph.add_edge(
            self.id,
            None,
            id,
            self.local_state.stack_path(),
        );
        assert(added);
        Runtime { id, revision_guard: true, local_state: LocalState::new(), parent: Some(state) }
    }

    /// A "synthetic write" causes the system to act *as though* some
    /// input of durability `durability` has changed: a new revision begins in
    /// which every level up to `durability` counts as changed. Not to be
    /// called from a snapshot or in the middle of a query.
    pub fn synthetic_write(&mut self, shared: &mut SharedState, durability: Durability)
        requires
            old(self).spec_permits_increment(),
            old(shared).wf(),
            old(shared).pending() == old(shared).current(),
            old(shared).current()@ < u64::MAX,
        ensures
            *final(self) == *old(self),
            final(shared).wf(),
            final(shared).is_written(*old(shared), Some(durability)),
            final(shared).next_id() == old(shared).next_id(),
            final(shared).graph() == old(shared).graph(),
    {
        shared.begin_increment();
        shared.finish_increment(Some(durability));
    }

    /// The unique identifier attached to this runtime. Each
    /// snapshotted runtime has a distinct identifier.
    pub fn id(&self) -> (id: RuntimeId)
        ensures
            id == self.spec_id(),
    {
        self.id
    }

    /// The unique identifier attached to this runtime and the ids of its
    /// parents, outermost first and its own last.
    pub fn ids(&self) -> (ids: Vec<RuntimeId>)
        ensures
            ids@ == self.parents().push(self.spec_id()),
    {
        let mut ids = match &self.parent {
            Some(state) => copy_ids(&state.parents),
            None => Vec::new(),
        };
        ids.push(self.id);
        ids
    }

    /// Returns the database-key for the query that this thread is
    /// actively executing (if any).
    pub fn active_query(&self) -> (key: Option<DatabaseKeyIndex>)
        ensures
            key == if self.stack().len() > 0 {
                Some(self.stack().last().database_key_index)
            } else {
                None
            },
    {
        self.local_state.active_query()
    }

    /// The queries that the runtime is in, outermost first.
    pub fn stack_path(&self) -> (path: Vec<DatabaseKeyIndex>)
        ensures
            path@ == keys_on(self.stack()),
    {
        self.local_state.stack_path()
    }

    /// Check if the current revision is canceled: whether a write has been
    /// announced that the running queries hold up.
    ///
    /// If it is, the innermost running query is marked as having read
    /// something that the engine cannot trace, so that it is recomputed in the
    /// next revision whatever it returns now. If it is not, the query counts
    /// as changed in the current revision at the earliest, so that its result
    /// is never taken for one from before a cancellation.
    pub fn is_current_revision_canceled(&mut self, shared: &SharedState) -> (canceled: bool)
        requires
            shared.wf(),
        ensures
            canceled == (shared.pending()@ > shared.current()@),
            final(self).same_but_stack(*old(self)),
            final(self).stack() == with_top(
                old(self).stack(),
                if canceled {
                    old(self).stack().last().after_untracked_read(shared.current())
                } else {
                    old(self).stack().last().after_anon_read(shared.pending())
                },
            ),
    {
        let current_revision = shared.current_revision();
        let pending_revision = shared.pending_revision();
        if pending_revision.as_u64() > current_revision.as_u64() {
            self.local_state.report_untracked_read(current_revision);
            true
        } else {
            self.local_state.report_anon_read(pending_revision);
            false
        }
    }

    /// Starts a new revision and lets `op` carry out the write in it. `op` is
    /// given the new revision and says what it changed: `None` where no value
    /// that existed before was modified, else the durability of the value that
    /// was. Every level up to that durability then counts as changed in the
    /// new revision. Not to be called from a snapshot or in the middle of a
    /// query.
    pub fn with_incremented_revision<F: FnOnce(Revision) -> Option<Durability>>(
        &mut self,
        shared: &mut SharedState,
        op: F,
    ) -> (changed: Option<Durability>)
        requires
            old(self).spec_permits_increment(),
            old(shared).wf(),
            old(shared).pending() == old(shared).current(),
            old(shared).current()@ < u64::MAX,
            call_requires(op, (old(shared).current().spec_next(),)),
        ensures
            *final(self) == *old(self),
            final(shared).wf(),
            call_ensures(op, (old(shared).current().spec_next(),), changed),
            final(shared).is_written(*old(shared), changed),
            final(shared).next_id() == old(shared).next_id(),
            final(shared).graph() == old(shared).graph(),
    {
        let current_revision = shared.begin_increment();
        let new_revision = current_revision.next();
        let changed = op(new_revision);
        shared.finish_increment(changed);
        changed
    }

    /// Whether the runtime may start a new revision.
    pub fn permits_increment(&self) -> (ok: bool)
        ensures
            ok == self.spec_permits_increment(),
    {
        !self.revision_guard && !self.local_state.query_in_progress()
    }

    /// Enters the query `database_key_index`: a frame that has read nothing,
    /// of the highest durability, is put on the stack. Returns the event that
    /// tells the database that the query function is about to run.
    pub fn prepare_query_implementation(&mut self, database_key_index: DatabaseKeyIndex) -> (event:
        Event)
        ensures
            event == (Event {
                runtime_id: old(self).spec_id(),
                kind: EventKind::WillExecute { database_key: database_key_index },
            }),
            final(self).same_but_stack(*old(self)),
            final(self).stack() == old(self).stack().push(
                FrameView::fresh(database_key_index, Durability::High),
            ),
    {
        self.local_state.push_query(database_key_index, Durability::MAX);
        Event { runtime_id: self.id, kind: EventKind::WillExecute { database_key: database_key_index } }
    }

    /// Leaves the innermost query, whose function returned `value`, and says
    /// what it came to: the value with what the frame has gathered.
    pub fn complete_query<V>(&mut self, value: V) -> (result: ComputedQueryResult<V>)
        requires
            old(self).stack().len() > 0,
        ensures
            final(self).same_but_stack(*old(self)),
            final(self).stack() == old(self).stack().drop_last(),
            result.value == value,
            result.durability == old(self).stack().last().durability,
            result.changed_at == old(self).stack().last().changed_at,
            result.dependencies is Some == old(self).stack().last().dependencies is Some,
            result.dependencies is Some ==> result.dependencies->0@ == old(
                self,
            ).stack().last().dependencies->0,
            result.cycle@ == old(self).stack().last().cycle,
    {
        let frame = self.local_state.pop_query();
        let (durability, changed_at, dependencies, cycle) = frame.into_parts();
        ComputedQueryResult { value, durability, changed_at, dependencies, cycle }
    }

    /// Reports that the currently active query read the result from
    /// another query.
    ///
    /// - `input`: the query whose result was read
    /// - `changed_at`: the last revision in which the result of that
    ///   query had changed
    pub fn report_query_read(
        &mut self,
        input: DatabaseKeyIndex,
        durability: Durability,
        changed_at: Revision,
    )
        ensures
            final(self).same_but_stack(*old(self)),
            final(self).stack() == with_top(
                old(self).stack(),
                old(self).stack().last().after_read(input, durability, changed_at),
            ),
    {
        self.local_state.report_query_read(input, durability, changed_at);
    }

    /// Reports that the query depends on some state unknown to the engine.
    ///
    /// Queries which report untracked reads will be re-executed in the next
    /// revision.
    pub fn report_untracked_read(&mut self, shared: &SharedState)
        requires
            shared.wf(),
        ensures
            final(self).same_but_stack(*old(self)),
            final(self).stack() == with_top(
                old(self).stack(),
                old(self).stack().last().after_untracked_read(shared.current()),
            ),
    {
        self.local_state.report_untracked_read(shared.current_revision());
    }

    /// Acts as though the current query had read an input with the given
    /// durability; this will force the current query's durability to be at
    /// most `durability`.
    pub fn report_synthetic_read(&mut self, durability: Durability)
        ensures
            final(self).same_but_stack(*old(self)),
            final(self).stack() == with_top(
                old(self).stack(),
                old(self).stack().last().after_synthetic_read(durability),
            ),
    {
        self.local_state.report_synthetic_read(durability);
    }

    /// An "anonymous" read is a read that doesn't come from executing
    /// a query, but from some other internal operation. It just
    /// modifies the "changed at" to be at least the given revision.
    pub fn report_anon_read(&mut self, revision: Revision)
        ensures
            final(self).same_but_stack(*old(self)),
            final(self).stack() == with_top(
                old(self).stack(),
                old(self).stack().last().after_anon_read(revision),
            ),
    {
        self.local_state.report_anon_read(revision);
    }

    /// The queries of the cycle that `error` tells of, found while reading
    /// `database_key_index`.
    ///
    /// Where the runtime ran into itself, the cycle is its own stack from the
    /// innermost frame of the query up. Where it ran into another runtime, the
    /// cycle is put together from what the runtimes on the way recorded when
    /// they went to sleep, and ends with the query itself.
    pub open spec fn cycle_of(
        self,
        shared: SharedState,
        database_key_index: DatabaseKeyIndex,
        error: CycleDetected,
    ) -> Seq<DatabaseKeyIndex> {
        if error.from == error.to {
            keys_on(self.stack()).subrange(
                innermost(self.stack(), database_key_index),
                self.stack().len() as int,
            )
        } else {
            shared.graph().cycle_path(
                database_key_index,
                error.from,
                error.to,
                keys_on(self.stack()),
            ).push(database_key_index)
        }
    }

    /// Whether the frame at the place `i` of the stack takes part in the cycle
    /// that `error` tells of.
    pub open spec fn takes_part(
        self,
        shared: SharedState,
        database_key_index: DatabaseKeyIndex,
        error: CycleDetected,
        i: int,
    ) -> bool {
        if error.from == error.to {
            i >= innermost(self.stack(), database_key_index)
        } else {
            self.cycle_of(shared, database_key_index, error).contains(
                self.stack()[i].database_key_index,
            )
        }
    }

    /// Whether `self` is `before` after the cycle that `error` tells of was
    /// given to every frame that takes part in it.
    pub open spec fn is_marked(
        self,
        before: Runtime,
        shared: SharedState,
        database_key_index: DatabaseKeyIndex,
        error: CycleDetected,
    ) -> bool {
        &&& self.same_but_stack(before)
        &&& self.stack().len() == before.stack().len()
        &&& forall|i: int|
            0 <= i < before.stack().len() ==> #[trigger] self.stack()[i] == if before.takes_part(
                shared,
                database_key_index,
                error,
                i,
            ) {
                before.stack()[i].in_cycle(before.cycle_of(shared, database_key_index, error))
            } else {
                before.stack()[i]
            }
    }

    /// Works out the cycle that was found while reading `database_key_index`,
    /// gives it to every frame of this runtime that takes part in it, and
    /// returns it as an error stamped with `changed_at` and the highest
    /// durability.
    pub fn report_unexpected_cycle(
        &mut self,
        shared: &SharedState,
        database_key_index: DatabaseKeyIndex,
        error: CycleDetected,
        changed_at: Revision,
    ) -> (err: CycleError<DatabaseKeyIndex>)
        requires
            shared.wf(),
            error.from == error.to ==> keys_on(old(self).stack()).contains(database_key_index),
        ensures
            err.cycle@ == old(self).cycle_of(*shared, database_key_index, error),
            err.cycle@.len() > 0,
            err.changed_at == changed_at,
            err.durability == Durability::High,
            final(self).is_marked(*old(self), *shared, database_key_index, error),
    {
        if error.from == error.to {
            let cycle = self.local_state.mark_self_cycle(database_key_index);
            CycleError { cycle, changed_at, durability: Durability::MAX }
        } else {
            let path = self.local_state.stack_path();
            let mut cycle = shared.dependency_graph.get_cycle_path(
                &database_key_index,
                error.from,
                error.to,
                path.as_slice(),
            );
            cycle.push(database_key_index);
            self.local_state.mark_frames_in(cycle.as_slice());
            CycleError { cycle, changed_at, durability: Durability::MAX }
        }
    }

    /// Gives `cycle` to the frames at the top of the stack whose queries are
    /// in it, from the top down to the first frame whose query is not.
    pub fn mark_cycle_participants(&mut self, cycle: &[DatabaseKeyIndex])
        ensures
            final(self).same_but_stack(*old(self)),
            final(self).stack().len() == old(self).stack().len(),
            forall|i: int|
                0 <= i < old(self).stack().len() ==> #[trigger] final(self).stack()[i] == if i
                    >= old(self).stack().len() - top_run(old(self).stack(), cycle@) {
                    old(self).stack()[i].in_cycle(cycle@)
                } else {
                    old(self).stack()[i]
                },
    {
        self.local_state.mark_cycle_participants(cycle);
    }

    /// Try to make this runtime blocked on `other_id`, which is computing
    /// `database_key`. Returns true upon success or false if `other_id` is
    /// already blocked on us, directly or through others; the graph is then
    /// left as it was.
    pub fn try_block_on(
        &self,
        shared: &mut SharedState,
        database_key: DatabaseKeyIndex,
        other_id: RuntimeId,
    ) -> (blocked: bool)
        requires
            old(shared).wf(),
            self.spec_id().counter < old(shared).next_id(),
        ensures
            final(shared).wf(),
            final(shared).same_clock(*old(shared)),
            final(shared).next_id() == old(shared).next_id(),
            blocked == !old(shared).graph().reaches(other_id, self.spec_id()),
            !blocked ==> final(shared).graph().same_as(old(shared).graph()),
            blocked ==> final(shared).graph().is_with_edge(
                old(shared).graph(),
                self.spec_id(),
                Some(&database_key),
                other_id,
                keys_on(self.stack()),
            ),
    {
        shared.dependency_graph.add_edge(
            self.id,
            Some(&database_key),
            other_id,
            self.local_state.stack_path(),
        )
    }

    /// Try to make this runtime wait for its fork `other_id` to join. Returns
    /// true upon success or false if `other_id` is already blocked on us.
    pub fn try_block_on_fork(&self, shared: &mut SharedState, other_id: RuntimeId) -> (blocked: bool)
        requires
            old(shared).wf(),
            self.spec_id().counter < old(shared).next_id(),
        ensures
            final(shared).wf(),
            final(shared).same_clock(*old(shared)),
            final(shared).next_id() == old(shared).next_id(),
            blocked == !old(shared).graph().reaches(other_id, self.spec_id()),
            !blocked ==> final(shared).graph().same_as(old(shared).graph()),
            blocked ==> final(shared).graph().is_with_edge(
                old(shared).graph(),
                self.spec_id(),
                None,
                other_id,
                keys_on(self.stack()),
            ),
    {
        shared.dependency_graph.add_edge(self.id, None, other_id, self.local_state.stack_path())
    }

    /// Ends the waiting of the runtimes that are blocked on this one: on its
    /// query `database_key_index` or, where there is none, on its joining as a
    /// fork.
    pub fn unblock_queries_blocked_on_self(
        &self,
        shared: &mut SharedState,
        database_key_index: Option<DatabaseKeyIndex>,
    )
        requires
            old(shared).wf(),
        ensures
            final(shared).wf(),
            final(shared).same_clock(*old(shared)),
            final(shared).next_id() == old(shared).next_id(),
            final(shared).graph().is_without_edges(
                old(shared).graph(),
                match database_key_index {
                    Some(k) => Some(&k),
                    None => None,
                },
                self.spec_id(),
            ),
    {
        match database_key_index {
            Some(k) => shared.dependency_graph.remove_edge(Some(&k), self.id),
            None => shared.dependency_graph.remove_edge(None, self.id),
        }
        proof {
            assert forall|r: RuntimeId| r.counter >= shared.next_id implies (
            #[trigger] shared.dependency_graph.out_edges(r)).len() == 0 by {
                let blocked = old(shared).dependency_graph.blocked_on(
                    match database_key_index {
                        Some(k) => Some(&k),
                        None => None,
                    },
                    self.id,
                );
                assert(old(shared).dependency_graph.out_edges(r).len() == 0);
                lemma_without_edges_of_none(
                    old(shared).dependency_graph.out_edges(r),
                    self.id,
                    occurrences(blocked, r, blocked.len() as int),
                );
            }
        }
    }
}

/// What a runtime tells the runtimes that it forks: that they work for it and
/// for those that it works for itself.
pub fn forker(runtime: &Runtime) -> (forker: Forker)
    ensures
        forker.state.parents@ == runtime.parents().push(runtime.spec_id()),
{
    Forker { state: ForkState { parents: runtime.ids() } }
}

impl Forker {
    /// Returns a runtime which can be used to run a query concurrently with
    /// `runtime`, the runtime that made this forker.
    pub fn fork(&self, runtime: &Runtime, shared: &mut SharedState) -> (rt: Runtime)
        requires
            old(shared).wf(),
            old(shared).next_id() < usize::MAX,
            runtime.spec_id().counter < old(shared).next_id(),
        ensures
            final(shared).wf(),
            rt.spec_id().counter == old(shared).next_id(),
            final(shared).next_id() == old(shared).next_id() + 1,
            final(shared).same_clock(*old(shared)),
            final(shared).graph().is_with_edge(
                old(shared).graph(),
                runtime.spec_id(),
                None,
                rt.spec_id(),
                keys_on(runtime.stack()),
            ),
            rt.holds_guard(),
            rt.stack() == Seq::<FrameView>::empty(),
            rt.is_fork(),
            rt.parents() == self.state.parents@,
    {
        runtime.fork(shared, ForkState { parents: copy_ids(&self.state.parents) })
    }

    /// Ends the forking once every fork has joined. Where the forks ran into
    /// a cycle, `cycle` holds its queries, and the frames at the top of the
    /// stack of `runtime` that take part in it are given the cycle.
    pub fn join(self, runtime: &mut Runtime, cycle: &[DatabaseKeyIndex])
        ensures
            final(runtime).same_but_stack(*old(runtime)),
            final(runtime).stack().len() == old(runtime).stack().len(),
            cycle@.len() == 0 ==> final(runtime).stack() == old(runtime).stack(),
            forall|i: int|
                0 <= i < old(runtime).stack().len() ==> #[trigger] final(runtime).stack()[i]
                    == if cycle@.len() > 0 && i >= old(runtime).stack().len() - top_run(
                    old(runtime).stack(),
                    cycle@,
                ) {
                    old(runtime).stack()[i].in_cycle(cycle@)
                } else {
                    old(runtime).stack()[i]
                },
    {
        if cycle.len() > 0 {
            runtime.mark_cycle_participants(cycle);
        } else {
            assert(final(runtime).stack() =~= old(runtime).stack());
        }
    }
}

} // verus!
