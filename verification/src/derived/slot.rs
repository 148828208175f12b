//! The slot of one derived query: what is known of the value for one key, and
//! the steps that take it from not computed through in progress to memoized.
//!
//! Every function here is one step that a database runs under the lock of the
//! slot. What happens between the steps (waiting for another runtime, running
//! the query function, asking other queries whether they changed) is the
//! database's own business; it hands what came of it to the next step.

use crate::collections::id_list_as_slice;
use crate::collections::id_list_items;
use crate::collections::id_list_new;
use crate::collections::id_list_push;
use crate::collections::IdList;
use crate::cycle::CycleDetected;
use crate::cycle::CycleError;
use crate::derived::MemoizationPolicy;
use crate::durability::Durability;
use crate::event::Event;
use crate::event::EventKind;
use crate::key::copy_keys;
use crate::key::DatabaseKeyIndex;
use crate::local_state::keys_on;
use crate::local_state::FrameView;
use crate::revision::Revision;
use crate::runtime::ComputedQueryResult;
use crate::runtime::Runtime;
use crate::runtime::RuntimeId;
use crate::runtime::SharedState;
use crate::runtime::StampedValue;
use crate::sweep::DiscardIf;
use crate::sweep::DiscardWhat;
use crate::sweep::SweepStrategy;
use vstd::prelude::*;

verus! {

/// What a runtime that waited for a query is told when the query is done: the
/// value, and the cycle that the value was computed in, if any.
pub struct WaitResult<V, K> {
    /// The value that the query came to, with its stamps.
    pub value: StampedValue<V>,
    /// The queries of the cycle that the computation ran into; empty where it
    /// ran into none.
    pub cycle: Vec<K>,
}

/// An insertion-order-preserving set of queries. Used to track the
/// inputs accessed during query execution.
pub enum MemoInputs {
    /// Non-empty set of inputs, fully known.
    Traced {
        /// The queries, in the order in which they were first read.
        inputs: Vec<DatabaseKeyIndex>,
    },
    /// Empty set of inputs, fully known.
    NoInputs,
    /// Unknown quantity of inputs.
    Untracked,
}

/// The stamps of a memo.
pub struct MemoRevisions {
    /// Last revision when this memo was verified (if there are
    /// untracked inputs, this will also be when the memo was
    /// created).
    pub verified_at: Revision,
    /// Last revision when the memoized value was observed to change.
    pub changed_at: Revision,
    /// Minimum durability of the inputs to this query.
    pub durability: Durability,
    /// The inputs that went into our query, if we are tracking them.
    pub inputs: MemoInputs,
}

/// What is kept of a computed query.
pub struct Memo<V> {
    /// The result of the query, if we decide to memoize it.
    pub value: Option<V>,
    /// Revision information.
    pub revisions: MemoRevisions,
}

/// Defines the "current state" of query's memoized results.
pub enum QueryState<V> {
    /// Nothing is known of the query.
    NotComputed,
    /// The runtime with the given id is currently computing the
    /// result of this query.
    InProgress {
        /// The runtime that computes.
        id: RuntimeId,
        /// The runtimes that wait for it to finish, in the order in which they
        /// came.
        waiting: IdList,
    },
    /// We have computed the query already, and here is the result.
    Memoized(Memo<V>),
}

/// The slot of the query `database_key_index`.
pub struct Slot<V> {
    database_key_index: DatabaseKeyIndex,
    state: QueryState<V>,
}

/// Return value of the `probe` helper.
pub enum ProbeState<V> {
    /// The slot holds a value that was verified in the current revision.
    UpToDate(StampedValue<V>),
    /// There is no memo, or it has no value, or it was not verified in the
    /// current revision.
    StaleOrAbsent,
    /// Another runtime is computing the query; this runtime has registered to
    /// be told of the result and may go to sleep.
    Pending(RuntimeId),
    /// The query is being computed by this runtime itself or by one that
    /// waits for it: to wait would close a cycle.
    Cycle(CycleError<DatabaseKeyIndex>),
}

/// Holds what a runtime took out of a slot when it began to compute the query,
/// until the computation ends one way or another.
pub struct PanicGuard<V> {
    /// The query that is computed.
    pub database_key_index: DatabaseKeyIndex,
    /// The memo that the slot held before, if any; later, the memo that is to
    /// be put into the slot.
    pub memo: Option<Memo<V>>,
}

/// How a computation ended: what the reader gets, and whom to tell.
pub struct Completed<V> {
    /// The value with its stamps, or the cycle that the query did not recover
    /// from.
    pub outcome: Result<StampedValue<V>, CycleError<DatabaseKeyIndex>>,
    /// The runtimes that waited for the computation, in the order in which
    /// they came.
    pub waiters: Vec<RuntimeId>,
    /// What the waiters are told where there is a value. Where the outcome is
    /// a cycle, that is what they are told.
    pub notify: Option<WaitResult<V, DatabaseKeyIndex>>,
}

/// What a read has come to after its first step.
pub enum ReadStep<V> {
    /// The value, which was current.
    Done(StampedValue<V>),
    /// Another runtime computes the query: wait for it, then go on with
    /// `wait_for_value`.
    Wait(RuntimeId),
    /// To wait would close a cycle: ask the query to recover.
    Cycle(CycleError<DatabaseKeyIndex>),
    /// The slot is now marked as computed by this runtime: validate the old
    /// memo or execute the query, then end with the guard.
    Begun(PanicGuard<V>),
}

/// What a check for changes has come to after its first step.
pub enum MaybeChangedSinceState {
    /// Another runtime computes the query: wait for it, then judge by what it
    /// came to.
    Wait(RuntimeId),
    /// The memo has a value and inputs that may have changed: read the query
    /// in the given revision, then judge by what the read came to.
    Read(Revision),
    /// The answer.
    Done(bool),
    /// The memo has no value but inputs that may have changed: check them,
    /// then bring the slot up to date.
    Check(Vec<DatabaseKeyIndex>, Revision),
}

/// The runtimes of a list, in the order in which the list holds them.
fn ids_of(list: &IdList) -> (ids: Vec<RuntimeId>)
    ensures
        ids@ == id_list_items(*list),
{
    let items = id_list_as_slice(list);
    let mut ids: Vec<RuntimeId> = Vec::new();
    let mut i: usize = 0;
    while i < items.len()
        invariant
            i <= items.len(),
            ids@ == items@.subrange(0, i as int),
        decreases items.len() - i,
    {
        ids.push(items[i]);
        assert(ids@ =~= items@.subrange(0, i + 1));
        i = i + 1;
    }
    assert(items@.subrange(0, items.len() as int) =~= items@);
    ids
}

impl MemoInputs {
    /// Whether the inputs are unknown.
    pub open spec fn is_untracked(self) -> bool {
        self is Untracked
    }
}

impl MemoRevisions {
    /// What holds of the stamps of every memo: the value was verified no
    /// earlier than it changed, and a tracked set of inputs is not empty.
    pub open spec fn wf(self) -> bool {
        &&& self.changed_at@ <= self.verified_at@
        &&& self.inputs matches MemoInputs::Traced { inputs } ==> inputs@.len() > 0
    }

    /// True if this memo is known not to have changed based on its
    /// durability: no value of its durability or higher changed since it was
    /// last verified.
    pub open spec fn spec_check_durability(self, shared: SharedState) -> bool {
        shared.last_changed(self.durability)@ <= self.verified_at@
    }

    /// True if this memo is known not to have changed based on its durability.
    pub fn check_durability(&self, shared: &SharedState) -> (unchanged: bool)
        requires
            shared.wf(),
        ensures
            unchanged == self.spec_check_durability(*shared),
    {
        let last_changed = shared.last_changed_revision(self.durability);
        last_changed.as_u64() <= self.verified_at.as_u64()
    }

    /// Records that the memo was found to be current in `revision_now`.
    pub fn mark_value_as_verified(&mut self, revision_now: Revision) -> (ok: bool)
        ensures
            ok,
            *final(self) == (MemoRevisions { verified_at: revision_now, ..*old(self) }),
    {
        self.verified_at = revision_now;
        true
    }

    /// Whether the query read something that the engine cannot trace.
    pub fn has_untracked_input(&self) -> (untracked: bool)
        ensures
            untracked == self.inputs.is_untracked(),
    {
        match self.inputs {
            MemoInputs::Untracked => true,
            _ => false,
        }
    }
}

impl<V> QueryState<V> {
    /// The state of a query that `id` has begun to compute and for which
    /// nobody waits yet.
    pub fn in_progress(id: RuntimeId) -> (state: QueryState<V>)
        ensures
            state matches QueryState::InProgress { id: owner, waiting } && owner == id
                && id_list_items(waiting) == Seq::<RuntimeId>::empty(),
    {
        QueryState::InProgress { id, waiting: id_list_new() }
    }

    /// The revision in which the memo was last verified, where there is one.
    pub open spec fn verified_at(self) -> Option<Revision> {
        match self {
            QueryState::Memoized(memo) => Some(memo.revisions.verified_at),
            _ => None,
        }
    }

    /// Whether the state can stand in a slot while the database is in the
    /// revision `now`: a memo has well-formed stamps and was not verified
    /// later than `now`.
    pub open spec fn wf_at(self, now: Revision) -> bool {
        self matches QueryState::Memoized(memo) ==> memo.revisions.wf() && memo.revisions.verified_at@
            <= now@
    }

    /// Whether going from `self` to `after` lost no verification: where both
    /// hold a memo, the later one was verified no earlier.
    pub open spec fn verified_no_earlier_in(self, after: QueryState<V>) -> bool {
        self.verified_at() is Some && after.verified_at() is Some ==> self.verified_at()->0@
            <= after.verified_at()->0@
    }
}

impl<V> Slot<V> {
    /// The query that the slot belongs to.
    pub closed spec fn key(self) -> DatabaseKeyIndex {
        self.database_key_index
    }

    /// What is known of the query.
    pub closed spec fn state(self) -> QueryState<V> {
        self.state
    }

    /// The slot of a query of which nothing is known yet.
    pub fn new(database_key_index: DatabaseKeyIndex) -> (slot: Slot<V>)
        ensures
            slot.key() == database_key_index,
            slot.state() is NotComputed,
    {
        Slot { database_key_index, state: QueryState::NotComputed }
    }

    /// What is known of the query.
    pub fn query_state(&self) -> (state: &QueryState<V>)
        ensures
            *state == self.state(),
    {
        &self.state
    }

    /// The query that the slot belongs to.
    pub fn database_key_index(&self) -> (key: DatabaseKeyIndex)
        ensures
            key == self.key(),
    {
        self.database_key_index
    }

    /// The memoized value with its stamps, if the slot holds one, whether or
    /// not it is still current.
    pub fn peek(&self) -> (found: Option<StampedValue<V>>) where V: Clone
        ensures
            found is Some == (self.state() matches QueryState::Memoized(memo) && memo.value is Some),
            found is Some ==> {
                let memo = self.state()->Memoized_0;
                &&& cloned(memo.value->0, found->0.value)
                &&& found->0.durability == memo.revisions.durability
                &&& found->0.changed_at == memo.revisions.changed_at
            },
    {
        match &self.state {
            QueryState::Memoized(memo) => match &memo.value {
                Some(value) => Some(
                    StampedValue {
                        durability: memo.revisions.durability,
                        changed_at: memo.revisions.changed_at,
                        value: value.clone(),
                    },
                ),
                None => None,
            },
            _ => None,
        }
    }

    /// What a listing of the table shows of the slot: nothing where nothing is
    /// known of the query, an entry without value while it is being computed,
    /// and else the memoized value, if there is one.
    pub fn as_table_entry(&self) -> (entry: Option<Option<V>>) where V: Clone
        ensures
            entry is None == self.state() is NotComputed,
            self.state() is InProgress ==> entry == Some(None::<V>),
            self.state() matches QueryState::Memoized(memo) ==> entry is Some && (entry->0 is Some
                == memo.value is Some) && (memo.value is Some ==> cloned(
                memo.value->0,
                entry->0->0,
            )),
    {
        match &self.state {
            QueryState::NotComputed => None,
            QueryState::InProgress { .. } => Some(None),
            QueryState::Memoized(memo) => match &memo.value {
                Some(value) => Some(Some(value.clone())),
                None => Some(None),
            },
        }
    }

    /// The durability that a read of the query can rely on: that of the memo
    /// where no value of that durability or higher changed since the memo was
    /// verified, else the lowest. Not to be asked of a query that is being
    /// computed.
    pub fn durability(&self, shared: &SharedState) -> (d: Durability)
        requires
            shared.wf(),
            !(self.state() is InProgress),
        ensures
            d == match self.state() {
                QueryState::Memoized(memo) => if memo.revisions.spec_check_durability(*shared) {
                    memo.revisions.durability
                } else {
                    Durability::Low
                },
                _ => Durability::Low,
            },
    {
        match &self.state {
            QueryState::NotComputed => Durability::LOW,
            QueryState::InProgress { .. } => Durability::LOW,
            QueryState::Memoized(memo) => {
                if memo.revisions.check_durability(shared) {
                    memo.revisions.durability
                } else {
                    Durability::LOW
                }
            },
        }
    }

    /// What eviction makes of a state: a memo whose inputs are known loses its
    /// value and keeps the record of its inputs; every other state stays.
    pub open spec fn evicted(state: QueryState<V>) -> QueryState<V> {
        match state {
            QueryState::Memoized(memo) => if memo.revisions.inputs.is_untracked() {
                state
            } else {
                QueryState::Memoized(Memo { value: None, revisions: memo.revisions })
            },
            _ => state,
        }
    }

    /// Drops the memoized value to make room, keeping the record of what it
    /// was computed from. A memo with untracked inputs is left alone: computed
    /// again in the same revision, it might come to another value.
    pub fn evict(&mut self)
        ensures
            final(self).key() == old(self).key(),
            final(self).state() == Self::evicted(old(self).state()),
    {
        match &mut self.state {
            QueryState::Memoized(memo) => {
                if memo.revisions.has_untracked_input() {
                    return ;
                }
                memo.value = None;
            },
            _ => {},
        }
    }

    /// Whether a sweep with `strategy` in the revision `revision_now` may
    /// discard from a memo with these stamps: never under `Never`; under
    /// `Outdated`, and whenever the inputs are untracked, only what was not
    /// verified in the current revision.
    pub open spec fn may_discard(
        revisions: MemoRevisions,
        revision_now: Revision,
        strategy: SweepStrategy,
    ) -> bool {
        match strategy.discard_if {
            DiscardIf::Never => false,
            DiscardIf::Outdated => revisions.verified_at != revision_now,
            DiscardIf::Always => !(revisions.inputs.is_untracked() && revisions.verified_at
                == revision_now),
        }
    }

    /// What a sweep makes of a state: a memo that may be discarded loses its
    /// value or is forgotten altogether, as the strategy says; every other
    /// state stays.
    pub open spec fn swept(
        state: QueryState<V>,
        revision_now: Revision,
        strategy: SweepStrategy,
    ) -> QueryState<V> {
        match state {
            QueryState::Memoized(memo) => if Self::may_discard(
                memo.revisions,
                revision_now,
                strategy,
            ) {
                match strategy.discard_what {
                    DiscardWhat::Nothing => state,
                    DiscardWhat::Values => QueryState::Memoized(
                        Memo { value: None, revisions: memo.revisions },
                    ),
                    DiscardWhat::Everything => QueryState::NotComputed,
                }
            } else {
                state
            },
            _ => state,
        }
    }

    /// Discards from the slot what `strategy` says, in the revision
    /// `revision_now`. A query that is being computed is never touched.
    pub fn sweep(&mut self, revision_now: Revision, strategy: SweepStrategy)
        requires
            old(self).state().wf_at(revision_now),
        ensures
            final(self).key() == old(self).key(),
            final(self).state() == Self::swept(old(self).state(), revision_now, strategy),
            final(self).state().wf_at(revision_now),
            old(self).state().verified_no_earlier_in(final(self).state()),
    {
        let mut forget = false;
        match &mut self.state {
            QueryState::NotComputed => {},
            QueryState::InProgress { .. } => {},
            QueryState::Memoized(memo) => {
                let has_untracked_input = memo.revisions.has_untracked_input();
                let current = memo.revisions.verified_at == revision_now;
                let discard = match strategy.discard_if {
                    DiscardIf::Never => false,
                    DiscardIf::Outdated => !current,
                    DiscardIf::Always => !(has_untracked_input && current),
                };
                if discard {
                    match strategy.discard_what {
                        DiscardWhat::Nothing => {},
                        DiscardWhat::Values => {
                            memo.value = None;
                        },
                        DiscardWhat::Everything => {
                            forget = true;
                        },
                    }
                }
            },
        }
        if forget {
            self.state = QueryState::NotComputed;
        }
    }

    /// What invalidation makes of a state: the inputs of a memo count as
    /// untracked from now on; every other state stays.
    pub open spec fn invalidated(state: QueryState<V>) -> QueryState<V> {
        match state {
            QueryState::Memoized(memo) => QueryState::Memoized(
                Memo {
                    value: memo.value,
                    revisions: MemoRevisions { inputs: MemoInputs::Untracked, ..memo.revisions },
                },
            ),
            _ => state,
        }
    }

    /// Marks the memoized value as outdated: whatever its inputs were, the
    /// query is computed anew the next time it is read in a later revision.
    /// Returns the durability of the memo, if there is one.
    pub fn invalidate(&mut self) -> (durability: Option<Durability>)
        ensures
            final(self).key() == old(self).key(),
            final(self).state() == Self::invalidated(old(self).state()),
            durability == match old(self).state() {
                QueryState::Memoized(memo) => Some(memo.revisions.durability),
                _ => None,
            },
    {
        match &mut self.state {
            QueryState::Memoized(memo) => {
                memo.revisions.inputs = MemoInputs::Untracked;
                Some(memo.revisions.durability)
            },
            _ => None,
        }
    }

    /// What the end of a check of the inputs makes of a state, when the check
    /// started in `revision_now` and found that they `maybe_changed`: a memo
    /// that somebody verified in the meantime stays; else a memo whose inputs
    /// may have changed is forgotten, and one whose inputs did not is verified
    /// in `revision_now`. Every other state stays.
    pub open spec fn checked(
        state: QueryState<V>,
        maybe_changed: bool,
        revision_now: Revision,
    ) -> QueryState<V> {
        match state {
            QueryState::Memoized(memo) => if memo.revisions.verified_at == revision_now {
                state
            } else if maybe_changed {
                QueryState::NotComputed
            } else {
                QueryState::Memoized(
                    Memo {
                        value: memo.value,
                        revisions: MemoRevisions { verified_at: revision_now, ..memo.revisions },
                    },
                )
            },
            _ => state,
        }
    }

    /// Brings the slot up to date after the inputs of its memo were checked
    /// without the lock of the slot being held. Much may have happened in the
    /// meantime, so the state is looked at again.
    pub fn maybe_changed_since_update(&mut self, maybe_changed: bool, revision_now: Revision)
        requires
            old(self).state().wf_at(revision_now),
        ensures
            final(self).key() == old(self).key(),
            final(self).state() == Self::checked(old(self).state(), maybe_changed, revision_now),
            final(self).state().wf_at(revision_now),
            old(self).state().verified_no_earlier_in(final(self).state()),
    {
        let mut forget = false;
        match &mut self.state {
            QueryState::Memoized(memo) => {
                if memo.revisions.verified_at == revision_now {
                } else if maybe_changed {
                    forget = true;
                } else {
                    memo.revisions.verified_at = revision_now;
                }
            },
            QueryState::InProgress { .. } => {},
            QueryState::NotComputed => {},
        }
        if forget {
            self.state = QueryState::NotComputed;
        }
    }

    /// Whether the slot says that `id` computes the query.
    pub open spec fn computed_by(self, id: RuntimeId) -> bool {
        self.state() matches QueryState::InProgress { id: owner, .. } && owner == id
    }

    /// The runtimes that wait for the query to be computed, in the order in
    /// which they came; none where it is not being computed.
    pub fn waiters(&self) -> (waiters: Vec<RuntimeId>)
        ensures
            waiters@ == self.waiting(),
    {
        match &self.state {
            QueryState::InProgress { waiting, .. } => ids_of(waiting),
            _ => Vec::new(),
        }
    }

    /// The runtimes that wait for the query to be computed; none where it is
    /// not being computed.
    pub open spec fn waiting(self) -> Seq<RuntimeId> {
        match self.state() {
            QueryState::InProgress { waiting, .. } => id_list_items(waiting),
            _ => Seq::empty(),
        }
    }

    /// What registering with the runtime `other_id`, which computes the
    /// query, comes to for the runtime `me`: a cycle where they are the same
    /// runtime or `other_id` already waits for `me`, else nothing.
    pub open spec fn registration(
        me: RuntimeId,
        other_id: RuntimeId,
        shared: SharedState,
    ) -> Result<(), CycleDetected> {
        if other_id == me {
            Err(CycleDetected { from: me, to: me })
        } else if shared.graph().reaches(other_id, me) {
            Err(CycleDetected { from: me, to: other_id })
        } else {
            Ok(())
        }
    }

    /// When we encounter an `InProgress` indicator, we need to either
    /// report a cycle or else register ourselves to be notified when
    /// that work completes. Where there is no cycle, the runtime is put into
    /// the graph as waiting for `other_id` and into the slot's list of
    /// waiters; where there is one, nothing changes.
    pub fn register_with_in_progress_thread(
        &mut self,
        runtime: &Runtime,
        shared: &mut SharedState,
        other_id: RuntimeId,
    ) -> (r: Result<(), CycleDetected>)
        requires
            old(shared).wf(),
            runtime.spec_id().counter < old(shared).next_id(),
            old(self).computed_by(other_id),
        ensures
            final(shared).wf(),
            final(shared).same_clock(*old(shared)),
            final(shared).next_id() == old(shared).next_id(),
            final(self).key() == old(self).key(),
            final(self).computed_by(other_id),
            r == Self::registration(runtime.spec_id(), other_id, *old(shared)),
            r is Err ==>
                final(self).waiting() == old(self).waiting()
                    && final(shared).graph().same_as(old(shared).graph()),
            r is Ok ==> final(self).is_registered(
                *old(self),
                *runtime,
                other_id,
                *old(shared),
                *final(shared),
            ),
    {
        let id = runtime.id();
        if other_id == id {
            Err(CycleDetected { from: id, to: id })
        } else {
            if !runtime.try_block_on(shared, self.database_key_index, other_id) {
                return Err(CycleDetected { from: id, to: other_id });
            }
            match &mut self.state {
                QueryState::InProgress { waiting, .. } => {
                    id_list_push(waiting, id);
                },
                _ => {},
            }
            Ok(())
        }
    }

    /// Whether `self` is the slot `before` after the runtime `me` has been put
    /// down as waiting for `other_id`: in the slot's list of waiters and, with
    /// its stack, in the graph.
    pub open spec fn is_registered(
        self,
        before: Slot<V>,
        me: Runtime,
        other_id: RuntimeId,
        shared_before: SharedState,
        shared_after: SharedState,
    ) -> bool {
        &&& self.waiting() == before.waiting().push(me.spec_id())
        &&& shared_after.graph().is_with_edge(
            shared_before.graph(),
            me.spec_id(),
            Some(&before.key()),
            other_id,
            keys_on(me.stack()),
        )
    }

    /// Whether `err` reports the cycle that `error` tells of, found by the
    /// runtime `me` at the slot `before` in the revision `revision_now`: the
    /// frames of the runtime that take part in the cycle have been given it,
    /// and neither the slot's waiters nor the graph have changed.
    pub open spec fn is_cycle_report(
        self,
        before: Slot<V>,
        err: CycleError<DatabaseKeyIndex>,
        error: CycleDetected,
        me: Runtime,
        me_after: Runtime,
        shared_before: SharedState,
        shared_after: SharedState,
        revision_now: Revision,
    ) -> bool {
        &&& err.cycle@ == me.cycle_of(shared_before, before.key(), error)
        &&& err.changed_at == revision_now
        &&& err.durability == Durability::High
        &&& me_after.is_marked(me, shared_before, before.key(), error)
        &&& self.waiting() == before.waiting()
        &&& shared_after.graph().same_as(shared_before.graph())
    }

    /// Whether `self` is the slot `before` after the runtime `me` has taken the
    /// computation on: the slot is marked as computed by `me`, with nobody
    /// waiting, and `guard` holds the memo that the slot held.
    pub open spec fn is_taken_on(self, before: Slot<V>, guard: PanicGuard<V>, me: RuntimeId) -> bool {
        &&& guard.database_key_index == before.key()
        &&& guard.memo == Self::memo_of(before.state())
        &&& self.computed_by(me)
        &&& self.waiting() == Seq::<RuntimeId>::empty()
    }

    /// Whether the slot holds a value that was verified in `revision_now`.
    pub open spec fn is_up_to_date(self, revision_now: Revision) -> bool {
        self.state() matches QueryState::Memoized(memo) && memo.value is Some
            && memo.revisions.verified_at == revision_now
    }

    /// Whether `value` is the memoized value of the slot with its stamps.
    pub open spec fn holds_stamped(self, value: StampedValue<V>) -> bool where V: Clone {
        self.state() matches QueryState::Memoized(memo) && memo.value is Some && cloned(
            memo.value->0,
            value.value,
        ) && value.durability == memo.revisions.durability && value.changed_at
            == memo.revisions.changed_at
    }

    /// Helper for `read` that does a shallow check (not recursive) if we have
    /// an up-to-date value.
    ///
    /// - `UpToDate` if the slot has a value that was verified in
    ///   `revision_now`; nothing changes.
    /// - `StaleOrAbsent` if there is no memo, the memo has no value, or the
    ///   memo has not been verified in `revision_now`; nothing changes.
    /// - `Pending` if another runtime computes the query and this one has been
    ///   registered as waiting for it.
    /// - `Cycle` if to wait would close a cycle; the frames of this runtime
    ///   that take part in the cycle have been given it.
    pub fn probe_inner(
        &mut self,
        runtime: &mut Runtime,
        shared: &mut SharedState,
        revision_now: Revision,
    ) -> (probe: ProbeState<V>) where V: Clone
        requires
            old(shared).wf(),
            old(runtime).spec_id().counter < old(shared).next_id(),
            old(self).computed_by(old(runtime).spec_id()) ==> keys_on(old(runtime).stack()).contains(
                old(self).key(),
            ),
        ensures
            final(shared).wf(),
            final(shared).same_clock(*old(shared)),
            final(shared).next_id() == old(shared).next_id(),
            final(self).key() == old(self).key(),
            final(runtime).same_but_stack(*old(runtime)),
            !(old(self).state() is InProgress) ==> {
                &&& *final(self) == *old(self)
                &&& *final(runtime) == *old(runtime)
                &&& final(shared).graph() == old(shared).graph()
                &&& probe is UpToDate == old(self).is_up_to_date(revision_now)
                &&& probe is StaleOrAbsent == !old(self).is_up_to_date(revision_now)
                &&& probe is UpToDate ==> old(self).holds_stamped(probe->UpToDate_0)
            },
            old(self).state() is InProgress ==> {
                let other_id = old(self).state()->InProgress_id;
                let me = old(runtime).spec_id();
                &&& final(self).computed_by(other_id)
                &&& match Self::registration(me, other_id, *old(shared)) {
                    Ok(_) => {
                        &&& probe == ProbeState::<V>::Pending(other_id)
                        &&& *final(runtime) == *old(runtime)
                        &&& final(self).is_registered(
                            *old(self),
                            *old(runtime),
                            other_id,
                            *old(shared),
                            *final(shared),
                        )
                    },
                    Err(error) => {
                        &&& probe is Cycle
                        &&& final(self).is_cycle_report(
                            *old(self),
                            probe->Cycle_0,
                            error,
                            *old(runtime),
                            *final(runtime),
                            *old(shared),
                            *final(shared),
                            revision_now,
                        )
                    },
                }
            },
    {
        let mut owner: Option<RuntimeId> = None;
        match &self.state {
            QueryState::NotComputed => {},
            QueryState::InProgress { id, .. } => {
                owner = Some(*id);
            },
            QueryState::Memoized(memo) => {
                match &memo.value {
                    Some(value) => {
                        if memo.revisions.verified_at == revision_now {
                            let value = StampedValue {
                                durability: memo.revisions.durability,
                                changed_at: memo.revisions.changed_at,
                                value: value.clone(),
                            };
                            return ProbeState::UpToDate(value);
                        }
                    },
                    None => {},
                }
            },
        }
        match owner {
            None => ProbeState::StaleOrAbsent,
            Some(other_id) => {
                let ghost before = *shared;
                match self.register_with_in_progress_thread(runtime, shared, other_id) {
                    Ok(_) => ProbeState::Pending(other_id),
                    Err(err) => {
                        proof {
                            before.graph().lemma_same_cycle_path(
                                shared.graph(),
                                self.database_key_index,
                                err.from,
                                err.to,
                                keys_on(runtime.stack()),
                            );
                        }
                        let err = runtime.report_unexpected_cycle(
                            shared,
                            self.database_key_index,
                            err,
                            revision_now,
                        );
                        ProbeState::Cycle(err)
                    },
                }
            },
        }
    }

    /// The memo that the state holds, if it holds one.
    pub open spec fn memo_of(state: QueryState<V>) -> Option<Memo<V>> {
        match state {
            QueryState::Memoized(memo) => Some(memo),
            _ => None,
        }
    }

    /// Second phase of a read operation, for a slot that has no current
    /// value: if nobody computes the query, this runtime takes it on. The slot
    /// is marked as computed by it, and the memo that the slot held is handed
    /// out in a guard, to be validated or replaced.
    ///
    /// Where somebody computes the query already, the outcome is that of
    /// `probe_inner`.
    pub fn read_upgrade(
        &mut self,
        runtime: &mut Runtime,
        shared: &mut SharedState,
        revision_now: Revision,
    ) -> (step: ReadStep<V>) where V: Clone
        requires
            old(shared).wf(),
            old(runtime).spec_id().counter < old(shared).next_id(),
            old(self).computed_by(old(runtime).spec_id()) ==> keys_on(old(runtime).stack()).contains(
                old(self).key(),
            ),
        ensures
            final(shared).wf(),
            final(shared).same_clock(*old(shared)),
            final(shared).next_id() == old(shared).next_id(),
            final(self).key() == old(self).key(),
            final(runtime).same_but_stack(*old(runtime)),
            !(old(self).state() is InProgress) ==> {
                &&& *final(runtime) == *old(runtime)
                &&& final(shared).graph() == old(shared).graph()
                &&& if old(self).is_up_to_date(revision_now) {
                    &&& step is Done
                    &&& old(self).holds_stamped(step->Done_0)
                    &&& *final(self) == *old(self)
                } else {
                    &&& step is Begun
                    &&& final(self).is_taken_on(*old(self), step->Begun_0, old(runtime).spec_id())
                }
            },
            old(self).state() is InProgress ==> {
                let other_id = old(self).state()->InProgress_id;
                let me = old(runtime).spec_id();
                &&& final(self).computed_by(other_id)
                &&& match Self::registration(me, other_id, *old(shared)) {
                    Ok(_) => {
                        &&& step == ReadStep::<V>::Wait(other_id)
                        &&& *final(runtime) == *old(runtime)
                        &&& final(self).is_registered(
                            *old(self),
                            *old(runtime),
                            other_id,
                            *old(shared),
                            *final(shared),
                        )
                    },
                    Err(error) => {
                        &&& step is Cycle
                        &&& final(self).is_cycle_report(
                            *old(self),
                            step->Cycle_0,
                            error,
                            *old(runtime),
                            *final(runtime),
                            *old(shared),
                            *final(shared),
                            revision_now,
                        )
                    },
                }
            },
    {
        match self.probe_inner(runtime, shared, revision_now) {
            ProbeState::Pending(other_id) => ReadStep::Wait(other_id),
            ProbeState::UpToDate(value) => ReadStep::Done(value),
            ProbeState::Cycle(err) => ReadStep::Cycle(err),
            ProbeState::StaleOrAbsent => {
                let mut taken: QueryState<V> = QueryState::in_progress(runtime.id());
                core::mem::swap(&mut self.state, &mut taken);
                let memo = match taken {
                    QueryState::Memoized(old_memo) => Some(old_memo),
                    _ => None,
                };
                ReadStep::Begun(PanicGuard::new(self.database_key_index, memo))
            },
        }
    }

    /// The first step of reading the query, in the revision that the database
    /// is in: a current value is returned at once; where another runtime
    /// computes the query, this one registers to wait for it, unless that
    /// would close a cycle; else this runtime takes the computation on.
    pub fn read(&mut self, runtime: &mut Runtime, shared: &mut SharedState) -> (step: ReadStep<V>) where
        V: Clone,

        requires
            old(shared).wf(),
            old(runtime).spec_id().counter < old(shared).next_id(),
            old(self).computed_by(old(runtime).spec_id()) ==> keys_on(old(runtime).stack()).contains(
                old(self).key(),
            ),
        ensures
            final(shared).wf(),
            final(shared).same_clock(*old(shared)),
            final(shared).next_id() == old(shared).next_id(),
            final(self).key() == old(self).key(),
            final(runtime).same_but_stack(*old(runtime)),
            !(old(self).state() is InProgress) ==> {
                &&& *final(runtime) == *old(runtime)
                &&& final(shared).graph() == old(shared).graph()
                &&& if old(self).is_up_to_date(old(shared).current()) {
                    &&& step is Done
                    &&& old(self).holds_stamped(step->Done_0)
                    &&& *final(self) == *old(self)
                } else {
                    &&& step is Begun
                    &&& final(self).is_taken_on(*old(self), step->Begun_0, old(runtime).spec_id())
                }
            },
            old(self).state() is InProgress ==> {
                let other_id = old(self).state()->InProgress_id;
                let me = old(runtime).spec_id();
                &&& final(self).computed_by(other_id)
                &&& match Self::registration(me, other_id, *old(shared)) {
                    Ok(_) => {
                        &&& step == ReadStep::<V>::Wait(other_id)
                        &&& *final(runtime) == *old(runtime)
                        &&& final(self).is_registered(
                            *old(self),
                            *old(runtime),
                            other_id,
                            *old(shared),
                            *final(shared),
                        )
                    },
                    Err(error) => {
                        &&& step is Cycle
                        &&& final(self).is_cycle_report(
                            *old(self),
                            step->Cycle_0,
                            error,
                            *old(runtime),
                            *final(runtime),
                            *old(shared),
                            *final(shared),
                            old(shared).current(),
                        )
                    },
                }
            },
    {
        let revision_now = shared.current_revision();
        match self.probe_inner(runtime, shared, revision_now) {
            ProbeState::Pending(other_id) => ReadStep::Wait(other_id),
            ProbeState::UpToDate(value) => ReadStep::Done(value),
            ProbeState::Cycle(err) => ReadStep::Cycle(err),
            ProbeState::StaleOrAbsent => self.read_upgrade(runtime, shared, revision_now),
        }
    }

    /// The event that tells the database that `runtime` is about to wait for
    /// `other_id` to compute the query.
    pub fn will_block_on(&self, runtime: &Runtime, other_id: RuntimeId) -> (event: Event)
        ensures
            event == (Event {
                runtime_id: runtime.spec_id(),
                kind: EventKind::WillBlockOn {
                    other_runtime_id: other_id,
                    database_key: self.key(),
                },
            }),
    {
        Event {
            runtime_id: runtime.id(),
            kind: EventKind::WillBlockOn {
                other_runtime_id: other_id,
                database_key: self.database_key_index,
            },
        }
    }

    /// What a runtime that waited for the query makes of what it was told:
    /// the value, where the computation ran into no cycle. Where it did, the
    /// frames at the top of the stack of `runtime` that take part in the cycle
    /// are given it, and the cycle is returned as an error, stamped as the
    /// value was; the query may then recover from it.
    pub fn wait_for_value(
        &self,
        runtime: &mut Runtime,
        result: WaitResult<V, DatabaseKeyIndex>,
    ) -> (r: Result<StampedValue<V>, CycleError<DatabaseKeyIndex>>)
        ensures
            final(runtime).same_but_stack(*old(runtime)),
            result.cycle@.len() == 0 ==> r == Ok::<StampedValue<V>, CycleError<DatabaseKeyIndex>>(
                result.value,
            ) && *final(runtime) == *old(runtime),
            result.cycle@.len() > 0 ==> {
                &&& r is Err
                &&& r->Err_0.cycle == result.cycle
                &&& r->Err_0.changed_at == result.value.changed_at
                &&& r->Err_0.durability == result.value.durability
                &&& final(runtime).stack().len() == old(runtime).stack().len()
                &&& forall|i: int|
                    0 <= i < old(runtime).stack().len() ==> #[trigger] final(runtime).stack()[i]
                        == if i >= old(runtime).stack().len() - crate::local_state::top_run(
                        old(runtime).stack(),
                        result.cycle@,
                    ) {
                        old(runtime).stack()[i].in_cycle(result.cycle@)
                    } else {
                        old(runtime).stack()[i]
                    }
            },
    {
        if result.cycle.len() == 0 {
            Ok(result.value)
        } else {
            let err = CycleError {
                cycle: result.cycle,
                changed_at: result.value.changed_at,
                durability: result.value.durability,
            };
            runtime.mark_cycle_participants(err.cycle.as_slice());
            Err(err)
        }
    }

    /// What a runtime that waited for the query makes of being told that the
    /// computation ended in the cycle `err` without recovery: the frames at the
    /// top of its stack that take part in the cycle are given it, and the
    /// cycle is handed back; the query may then recover from it.
    pub fn wait_for_cycle(
        &self,
        runtime: &mut Runtime,
        err: CycleError<DatabaseKeyIndex>,
    ) -> (r: CycleError<DatabaseKeyIndex>)
        ensures
            r == err,
            final(runtime).same_but_stack(*old(runtime)),
            final(runtime).stack().len() == old(runtime).stack().len(),
            forall|i: int|
                0 <= i < old(runtime).stack().len() ==> #[trigger] final(runtime).stack()[i]
                    == if i >= old(runtime).stack().len() - crate::local_state::top_run(
                    old(runtime).stack(),
                    err.cycle@,
                ) {
                    old(runtime).stack()[i].in_cycle(err.cycle@)
                } else {
                    old(runtime).stack()[i]
                },
    {
        runtime.mark_cycle_participants(err.cycle.as_slice());
        err
    }
}

/// Whether asking `changed` about the first `upto` of `inputs` gave `false`
/// each time.
pub open spec fn none_changed<F: Fn(DatabaseKeyIndex, Revision) -> bool>(
    inputs: Seq<DatabaseKeyIndex>,
    since: Revision,
    changed: F,
    upto: int,
) -> bool {
    forall|j: int| 0 <= j < upto ==> call_ensures(changed, (#[trigger] inputs[j], since), false)
}

/// Asks `changed` about each of `inputs` in order, whether it may have changed
/// since the revision `since`, until one answer is yes. Returns the place of
/// that input, or `None` where every answer was no.
pub fn first_changed_input<F: Fn(DatabaseKeyIndex, Revision) -> bool>(
    inputs: &Vec<DatabaseKeyIndex>,
    since: Revision,
    changed: &F,
) -> (found: Option<usize>)
    requires
        forall|k: DatabaseKeyIndex, r: Revision| call_requires(*changed, (k, r)),
    ensures
        match found {
            Some(i) => i < inputs.len() && none_changed(inputs@, since, *changed, i as int)
                && call_ensures(*changed, (inputs@[i as int], since), true),
            None => none_changed(inputs@, since, *changed, inputs.len() as int),
        },
{
    let mut i: usize = 0;
    while i < inputs.len()
        invariant
            i <= inputs.len(),
            none_changed(inputs@, since, *changed, i as int),
            forall|k: DatabaseKeyIndex, r: Revision| call_requires(*changed, (k, r)),
        decreases inputs.len() - i,
    {
        if changed(inputs[i], since) {
            return Some(i);
        }
        i = i + 1;
    }
    None
}

impl MemoRevisions {
    /// What validation makes of the stamps, given whether the inputs, where
    /// they had to be asked, may have changed: where the memo is found to be
    /// current, it counts as verified in `revision_now`; else nothing changes.
    ///
    /// The memo is current where no value of its durability or higher changed
    /// since it was verified; failing that, never where the inputs are
    /// untracked, always where there are none, and else where no input may
    /// have changed.
    pub open spec fn validated(
        self,
        last_changed: Revision,
        revision_now: Revision,
        input_changed: bool,
    ) -> (bool, MemoRevisions) {
        let valid = self.unchanged_since(last_changed) || match self.inputs {
            MemoInputs::Untracked => false,
            MemoInputs::NoInputs => true,
            MemoInputs::Traced { .. } => !input_changed,
        };
        if valid {
            (true, MemoRevisions { verified_at: revision_now, ..self })
        } else {
            (false, self)
        }
    }

    /// Whether the inputs have to be asked to find out if the memo is
    /// current.
    pub open spec fn must_ask_inputs(self, last_changed: Revision) -> bool {
        !self.unchanged_since(last_changed) && self.inputs is Traced
    }

    /// Whether the memo was verified no earlier than `last_changed`, the
    /// revision in which a value of its durability or higher last changed.
    pub open spec fn unchanged_since(self, last_changed: Revision) -> bool {
        last_changed@ <= self.verified_at@
    }

    /// Finds out whether the memo, last verified in an earlier revision, is
    /// still current in `revision_now`, and marks it as verified if it is.
    ///
    /// `last_changed` is the revision in which a value of the memo's
    /// durability or higher last changed. Where that does not settle it and
    /// the inputs are known, each input is asked through `changed` whether it
    /// may have changed since the memo was last verified, in the order in
    /// which the inputs were read and up to the first that may have.
    pub fn validate_memoized_value<F: Fn(DatabaseKeyIndex, Revision) -> bool>(
        &mut self,
        last_changed: Revision,
        revision_now: Revision,
        changed: &F,
    ) -> (valid: bool)
        requires
            old(self).verified_at != revision_now,
            forall|k: DatabaseKeyIndex, r: Revision| call_requires(*changed, (k, r)),
        ensures
            exists|input_changed: bool|
                (valid, *final(self)) == #[trigger] old(self).validated(
                    last_changed,
                    revision_now,
                    input_changed,
                ) && (old(self).must_ask_inputs(last_changed) ==> Self::is_answer(
                    *old(self),
                    *changed,
                    input_changed,
                )),
    {
        if last_changed.as_u64() <= self.verified_at.as_u64() {
            let ok = self.mark_value_as_verified(revision_now);
            assert((ok, *self) == old(self).validated(last_changed, revision_now, false));
            return ok;
        }
        let mut input_changed = false;
        match &self.inputs {
            MemoInputs::Untracked => {
                assert((false, *self) == old(self).validated(last_changed, revision_now, false));
                return false;
            },
            MemoInputs::NoInputs => {},
            MemoInputs::Traced { inputs } => {
                let found = first_changed_input(inputs, self.verified_at, changed);
                if found.is_some() {
                    assert((false, *self) == old(self).validated(last_changed, revision_now, true));
                    assert(Self::is_answer(*old(self), *changed, true));
                    return false;
                }
                assert(Self::is_answer(*old(self), *changed, false));
            },
        }
        let ok = self.mark_value_as_verified(revision_now);
        assert((ok, *self) == old(self).validated(last_changed, revision_now, false));
        ok
    }

    /// Whether `input_changed` is what asking the inputs of the memo came to:
    /// true where some input said that it may have changed since the memo was
    /// verified and those before it said that they had not, false where all
    /// said that they had not.
    pub open spec fn is_answer<F: Fn(DatabaseKeyIndex, Revision) -> bool>(
        revisions: MemoRevisions,
        changed: F,
        input_changed: bool,
    ) -> bool {
        let inputs = revisions.inputs->Traced_inputs@;
        if input_changed {
            exists|i: int|
                0 <= i < inputs.len() && none_changed(inputs, revisions.verified_at, changed, i)
                    && call_ensures(changed, (#[trigger] inputs[i], revisions.verified_at), true)
        } else {
            none_changed(inputs, revisions.verified_at, changed, inputs.len() as int)
        }
    }
}

impl<V> Memo<V> {
    /// Finds out whether the memo is still current in `revision_now`, and
    /// marks it as verified where it is; see
    /// `MemoRevisions::validate_memoized_value`. Where the memo is current and
    /// has a value, the value is returned with its stamps.
    ///
    /// A memo without a value has its inputs looked at all the same, unless it
    /// was verified in `revision_now` already; there is then nothing to
    /// return.
    pub fn validate_memoized_value<F: Fn(DatabaseKeyIndex, Revision) -> bool>(
        &mut self,
        last_changed: Revision,
        revision_now: Revision,
        changed: &F,
    ) -> (value: Option<StampedValue<V>>) where V: Clone
        requires
            old(self).value is Some ==> old(self).revisions.verified_at != revision_now,
            forall|k: DatabaseKeyIndex, r: Revision| call_requires(*changed, (k, r)),
        ensures
            final(self).value == old(self).value,
            old(self).value is None ==> value is None,
            old(self).revisions.verified_at == revision_now ==> *final(self) == *old(self),
            old(self).revisions.verified_at != revision_now ==> exists|input_changed: bool|
                {
                    let (valid, revisions) = #[trigger] old(self).revisions.validated(
                        last_changed,
                        revision_now,
                        input_changed,
                    );
                    &&& final(self).revisions == revisions
                    &&& value is Some == (valid && old(self).value is Some)
                    &&& old(self).revisions.must_ask_inputs(last_changed)
                        ==> MemoRevisions::is_answer(old(self).revisions, *changed, input_changed)
                },
            value is Some ==> {
                &&& cloned(old(self).value->0, value->0.value)
                &&& value->0.durability == old(self).revisions.durability
                &&& value->0.changed_at == old(self).revisions.changed_at
            },
    {
        if self.revisions.verified_at == revision_now {
            return None;
        }
        if self.revisions.validate_memoized_value(last_changed, revision_now, changed) {
            match &self.value {
                Some(v) => Some(
                    StampedValue {
                        durability: self.revisions.durability,
                        changed_at: self.revisions.changed_at,
                        value: v.clone(),
                    },
                ),
                None => None,
            }
        } else {
            None
        }
    }
}

/// What a memo records of the queries that a computation read: that they are
/// unknown, that there were none, or which they were.
pub open spec fn inputs_of(dependencies: Option<Vec<DatabaseKeyIndex>>) -> MemoInputs {
    match dependencies {
        None => MemoInputs::Untracked,
        Some(inputs) => if inputs@.len() == 0 {
            MemoInputs::NoInputs
        } else {
            MemoInputs::Traced { inputs }
        },
    }
}

/// The revision in which a recomputed value counts as changed.
///
/// Where the memo that the slot held before had a value that the new one
/// equals, and the new value is no less durable, the change is dated back to
/// when the old value changed, unless that is later than what the computation
/// found; else it is what the computation found.
pub open spec fn backdated<V>(
    old_memo: Option<Memo<V>>,
    durability: Durability,
    changed_at: Revision,
    values_equal: bool,
) -> Revision {
    if old_memo is Some && old_memo->0.value is Some && durability.spec_index()
        >= old_memo->0.revisions.durability.spec_index() && values_equal
        && old_memo->0.revisions.changed_at@ <= changed_at@ {
        old_memo->0.revisions.changed_at
    } else {
        changed_at
    }
}

/// After a read that dates the change back, the new memo counts as changed
/// when the old one did and as verified in the current revision; where the
/// durability did not rise, the pair of durability and change is that of the
/// old memo.
pub proof fn lemma_backdating_keeps_stamps<V>(
    old_memo: Memo<V>,
    new_revisions: MemoRevisions,
    durability: Durability,
    changed_at: Revision,
    revision_now: Revision,
)
    requires
        old_memo.value is Some,
        durability.spec_index() >= old_memo.revisions.durability.spec_index(),
        old_memo.revisions.changed_at@ <= changed_at@,
        new_revisions.verified_at == revision_now,
        new_revisions.durability == durability,
        new_revisions.changed_at == backdated(Some(old_memo), durability, changed_at, true),
    ensures
        new_revisions.changed_at == old_memo.revisions.changed_at,
        new_revisions.verified_at == revision_now,
        durability == old_memo.revisions.durability ==> (
        new_revisions.durability,
        new_revisions.changed_at,
    ) == (old_memo.revisions.durability, old_memo.revisions.changed_at),
{
}

/// Losing no verification carries over from step to step: where no step of
/// two moved the verification of a memo back, neither did both together.
pub proof fn lemma_verification_is_monotone<V>(
    first: QueryState<V>,
    second: QueryState<V>,
    third: QueryState<V>,
)
    requires
        first.verified_no_earlier_in(second),
        second.verified_no_earlier_in(third),
        second.verified_at() is Some,
    ensures
        first.verified_no_earlier_in(third),
{
}

/// A memo that is put into a slot at the end of a read, validated or computed
/// anew, was verified no earlier than the memo that the read took out of the
/// slot, as long as that one was fit for the revision of the read.
pub proof fn lemma_read_keeps_verification<V>(
    taken: Memo<V>,
    put: Memo<V>,
    revision_now: Revision,
)
    requires
        QueryState::Memoized(taken).wf_at(revision_now),
        put.revisions.verified_at == revision_now,
    ensures
        QueryState::Memoized(taken).verified_no_earlier_in(QueryState::Memoized(put)),
{
}

/// A query that asked whether the revision is canceled, and was told that it
/// is not, counts as changed in the current revision at the earliest. So a run
/// in which it comes to another value than before is stamped as changed in the
/// current revision, whatever the memo that the slot held before: a result
/// from before a cancellation is never taken for the one after it.
pub proof fn lemma_uncanceled_run_is_dated_now<V>(
    old_memo: Option<Memo<V>>,
    frame: FrameView,
    shared: SharedState,
)
    requires
        shared.wf(),
        shared.pending() == shared.current(),
        frame.changed_at@ <= shared.current()@,
    ensures
        frame.after_anon_read(shared.pending()).changed_at == shared.current(),
        backdated(
            old_memo,
            frame.durability,
            frame.after_anon_read(shared.pending()).changed_at,
            false,
        ) == shared.current(),
        FrameView::fresh(frame.database_key_index, frame.durability).after_anon_read(
            shared.pending(),
        ).changed_at == shared.current(),
{
    shared.lemma_wf();
    Revision::lemma_view_injective(frame.changed_at, shared.current());
    Revision::lemma_view_injective(Revision::start(), shared.current());
}

/// A change runs down a chain of queries. Let the first query have been
/// computed anew in the revision `now` and be stamped as changed in it; let
/// the second have read the first, and the third the second, and let both hold
/// memos that were verified before `now` and whose durability does not settle
/// whether they are current.
///
/// Then the first, asked by the second whether it changed since the second
/// was verified, says yes, so that the memo of the second cannot be reused;
/// the second, run again and come to another value, is stamped as changed no
/// earlier than `now`; and so the memo of the third cannot be reused either.
pub proof fn lemma_change_runs_down_the_chain<V>(
    first_slot: Slot<V>,
    first_slot_after: Slot<V>,
    shared: SharedState,
    shared_after: SharedState,
    runtime: Runtime,
    step: MaybeChangedSinceState,
    first: Memo<V>,
    second: Memo<V>,
    third: Memo<V>,
    first_key: DatabaseKeyIndex,
    second_frame: FrameView,
    last_changed: Revision,
    now: Revision,
)
    requires
        shared.current() == now,
        first_slot.state() == QueryState::Memoized(first),
        first_slot_after.is_first_step(
            first_slot,
            runtime,
            shared,
            shared_after,
            second.revisions.verified_at,
            step,
        ),
        first.revisions.verified_at == now,
        first.revisions.changed_at == now,
        second.revisions.verified_at@ < now@,
        third.revisions.verified_at@ < now@,
        second.revisions.inputs is Traced,
        third.revisions.inputs is Traced,
        !second.revisions.unchanged_since(last_changed),
        !third.revisions.unchanged_since(last_changed),
    ensures
        step == MaybeChangedSinceState::Done(true),
        first_slot_after == first_slot,
        first.revisions.changed_at@ > second.revisions.verified_at@,
        second.revisions.validated(last_changed, now, true) == (false, second.revisions),
        ({
            let frame = second_frame.after_read(
                first_key,
                first.revisions.durability,
                first.revisions.changed_at,
            );
            let dated = backdated(Some(second), frame.durability, frame.changed_at, false);
            dated@ >= now@ && dated@ > third.revisions.verified_at@
        }),
        third.revisions.validated(last_changed, now, true) == (false, third.revisions),
{
}

/// Whether the value may have changed since `revision`, judged by what a
/// runtime that waited for the computation was told: yes where the
/// computation ran into a cycle or the value changed later than `revision`.
pub fn changed_after_wait<V>(result: &WaitResult<V, DatabaseKeyIndex>, revision: Revision) -> (changed:
    bool)
    ensures
        changed == (result.cycle@.len() > 0 || result.value.changed_at@ > revision@),
{
    result.cycle.len() > 0 || result.value.changed_at.as_u64() > revision.as_u64()
}

/// Whether the value may have changed since `revision`, judged by what a read
/// came to: yes where the read failed or the value changed later than
/// `revision`.
pub fn changed_after_read<V>(
    result: &Result<StampedValue<V>, CycleError<DatabaseKeyIndex>>,
    revision: Revision,
) -> (changed: bool)
    ensures
        changed == match result {
            Ok(v) => v.changed_at@ > revision@,
            Err(_) => true,
        },
{
    match result {
        Ok(v) => v.changed_at.as_u64() > revision.as_u64(),
        Err(_) => true,
    }
}

impl<V> PanicGuard<V> {
    /// The guard of the query `database_key_index`, whose slot held `memo`.
    pub fn new(database_key_index: DatabaseKeyIndex, memo: Option<Memo<V>>) -> (guard: PanicGuard<V>)
        ensures
            guard.database_key_index == database_key_index,
            guard.memo == memo,
    {
        PanicGuard { database_key_index, memo }
    }

    /// The durability of the memo that the slot held, if it held one: the
    /// level whose last change decides whether the memo is current without a
    /// look at its inputs.
    pub fn durability(&self) -> (d: Option<Durability>)
        ensures
            d == match self.memo {
                Some(memo) => Some(memo.revisions.durability),
                None => None,
            },
    {
        match &self.memo {
            Some(memo) => Some(memo.revisions.durability),
            None => None,
        }
    }

    /// Finds out whether the memo that the slot held is still current in
    /// `revision_now`; see `Memo::validate_memoized_value`. Where there is no
    /// memo there is nothing to find out.
    pub fn validate_memoized_value<F: Fn(DatabaseKeyIndex, Revision) -> bool>(
        &mut self,
        last_changed: Revision,
        revision_now: Revision,
        changed: &F,
    ) -> (value: Option<StampedValue<V>>) where V: Clone
        requires
            old(self).memo is Some && old(self).memo->0.value is Some ==>
                old(self).memo->0.revisions.verified_at != revision_now,
            forall|k: DatabaseKeyIndex, r: Revision| call_requires(*changed, (k, r)),
        ensures
            final(self).database_key_index == old(self).database_key_index,
            final(self).memo is Some == old(self).memo is Some,
            old(self).memo is None ==> value is None,
            old(self).memo is Some ==> {
                let before = old(self).memo->0;
                let after = final(self).memo->0;
                &&& after.value == before.value
                &&& before.value is None ==> value is None
                &&& before.revisions.verified_at == revision_now ==> after == before
                &&& before.revisions.verified_at != revision_now ==> exists|input_changed: bool|
                    {
                        let (valid, revisions) = #[trigger] before.revisions.validated(
                            last_changed,
                            revision_now,
                            input_changed,
                        );
                        &&& after.revisions == revisions
                        &&& value is Some == (valid && before.value is Some)
                        &&& before.revisions.must_ask_inputs(last_changed)
                            ==> MemoRevisions::is_answer(before.revisions, *changed, input_changed)
                    }
                &&& value is Some ==> {
                    &&& cloned(before.value->0, value->0.value)
                    &&& value->0.durability == before.revisions.durability
                    &&& value->0.changed_at == before.revisions.changed_at
                }
            },
    {
        match &mut self.memo {
            Some(memo) => memo.validate_memoized_value(last_changed, revision_now, changed),
            None => None,
        }
    }

    /// The event that tells the database that the old value was found to be
    /// current.
    pub fn did_validate(&self, runtime: &Runtime) -> (event: Event)
        ensures
            event == (Event {
                runtime_id: runtime.spec_id(),
                kind: EventKind::DidValidateMemoizedValue { database_key: self.database_key_index },
            }),
    {
        Event {
            runtime_id: runtime.id(),
            kind: EventKind::DidValidateMemoizedValue { database_key: self.database_key_index },
        }
    }

    /// Overwrites the `InProgress` placeholder that this runtime put into the
    /// slot: with the memo of the guard where `keep` says so and there is one,
    /// else with `NotComputed`. The runtimes that waited are taken out of the
    /// graph and returned, in the order in which they came.
    pub fn overwrite_placeholder(
        self,
        slot: &mut Slot<V>,
        runtime: &Runtime,
        shared: &mut SharedState,
        keep: bool,
    ) -> (waiters: Vec<RuntimeId>)
        requires
            old(shared).wf(),
            old(slot).computed_by(runtime.spec_id()),
            old(slot).key() == self.database_key_index,
        ensures
            final(shared).wf(),
            final(shared).same_clock(*old(shared)),
            final(shared).next_id() == old(shared).next_id(),
            final(shared).graph().is_without_edges(
                old(shared).graph(),
                Some(&self.database_key_index),
                runtime.spec_id(),
            ),
            final(slot).key() == old(slot).key(),
            final(slot).state() == if keep && self.memo is Some {
                QueryState::Memoized(self.memo->0)
            } else {
                QueryState::NotComputed
            },
            waiters@ == old(slot).waiting(),
    {
        let mut state: QueryState<V> = match self.memo {
            Some(memo) => if keep {
                QueryState::Memoized(memo)
            } else {
                QueryState::NotComputed
            },
            None => QueryState::NotComputed,
        };
        core::mem::swap(&mut slot.state, &mut state);
        runtime.unblock_queries_blocked_on_self(shared, Some(self.database_key_index));
        match state {
            QueryState::InProgress { id: _, waiting } => ids_of(&waiting),
            _ => Vec::new(),
        }
    }

    /// Ends the computation with a value: the memo of the guard goes into the
    /// slot, and the runtimes that waited are to be told `new_value` and
    /// `cycle`.
    pub fn proceed(
        self,
        slot: &mut Slot<V>,
        runtime: &Runtime,
        shared: &mut SharedState,
        new_value: &StampedValue<V>,
        cycle: Vec<DatabaseKeyIndex>,
    ) -> (told: (Vec<RuntimeId>, WaitResult<V, DatabaseKeyIndex>)) where V: Clone
        requires
            old(shared).wf(),
            old(slot).computed_by(runtime.spec_id()),
            old(slot).key() == self.database_key_index,
            self.memo is Some,
        ensures
            final(shared).wf(),
            final(shared).same_clock(*old(shared)),
            final(shared).next_id() == old(shared).next_id(),
            final(shared).graph().is_without_edges(
                old(shared).graph(),
                Some(&self.database_key_index),
                runtime.spec_id(),
            ),
            final(slot).key() == old(slot).key(),
            final(slot).state() == QueryState::Memoized(self.memo->0),
            told.0@ == old(slot).waiting(),
            cloned(new_value.value, told.1.value.value),
            told.1.value.durability == new_value.durability,
            told.1.value.changed_at == new_value.changed_at,
            told.1.cycle == cycle,
    {
        let waiters = self.overwrite_placeholder(slot, runtime, shared, true);
        let result = WaitResult {
            value: StampedValue {
                value: new_value.value.clone(),
                durability: new_value.durability,
                changed_at: new_value.changed_at,
            },
            cycle,
        };
        (waiters, result)
    }

    /// Ends the computation with a cycle that the query did not recover from:
    /// the slot is left as not computed, and the runtimes that waited are
    /// returned, to be told of the cycle.
    pub fn report_unexpected_cycle(
        self,
        slot: &mut Slot<V>,
        runtime: &Runtime,
        shared: &mut SharedState,
    ) -> (waiters: Vec<RuntimeId>)
        requires
            old(shared).wf(),
            old(slot).computed_by(runtime.spec_id()),
            old(slot).key() == self.database_key_index,
        ensures
            final(shared).wf(),
            final(shared).same_clock(*old(shared)),
            final(shared).next_id() == old(shared).next_id(),
            final(shared).graph().is_without_edges(
                old(shared).graph(),
                Some(&self.database_key_index),
                runtime.spec_id(),
            ),
            final(slot).key() == old(slot).key(),
            final(slot).state() is NotComputed,
            waiters@ == old(slot).waiting(),
    {
        self.overwrite_placeholder(slot, runtime, shared, false)
    }

    /// Ends a computation that panicked: the slot is left as not computed,
    /// and the runtimes that waited are returned. They are told nothing; the
    /// panic is theirs as well.
    pub fn abandon(self, slot: &mut Slot<V>, runtime: &Runtime, shared: &mut SharedState) -> (waiters:
        Vec<RuntimeId>)
        requires
            old(shared).wf(),
            old(slot).computed_by(runtime.spec_id()),
            old(slot).key() == self.database_key_index,
        ensures
            final(shared).wf(),
            final(shared).same_clock(*old(shared)),
            final(shared).next_id() == old(shared).next_id(),
            final(shared).graph().is_without_edges(
                old(shared).graph(),
                Some(&self.database_key_index),
                runtime.spec_id(),
            ),
            final(slot).key() == old(slot).key(),
            final(slot).state() is NotComputed,
            waiters@ == old(slot).waiting(),
    {
        self.overwrite_placeholder(slot, runtime, shared, false)
    }

    /// Whether the computation ended in a cycle that the query did not
    /// recover from.
    pub open spec fn fails(result: ComputedQueryResult<V>, recovered: Option<V>) -> bool {
        result.cycle@.len() > 0 && recovered is None
    }

    /// The value that the computation came to: what the query function
    /// returned or, after a cycle, what the recovery gave.
    pub open spec fn value_of(result: ComputedQueryResult<V>, recovered: Option<V>) -> V {
        if result.cycle@.len() > 0 {
            recovered->0
        } else {
            result.value
        }
    }

    /// Ends the computation of a query whose function has run.
    ///
    /// `result` is what the run came to. Where it ran into a cycle,
    /// `recovered` is what the recovery of the query gave. `values_equal`
    /// says whether the policy of the query takes the new value for the same
    /// as the old one, and `should_memoize` whether the value is to be kept.
    ///
    /// After a cycle without recovery the slot is left as not computed and the
    /// cycle is the outcome. Else the slot gets a memo, verified in
    /// `revision_now`, with the value if it is to be kept, the durability that
    /// the run found, what it read, and the revision of the change, dated back
    /// where `backdated` says so; the outcome is the value with these stamps.
    pub fn complete_with(
        self,
        slot: &mut Slot<V>,
        runtime: &Runtime,
        shared: &mut SharedState,
        result: ComputedQueryResult<V>,
        recovered: Option<V>,
        values_equal: bool,
        should_memoize: bool,
        revision_now: Revision,
    ) -> (done: Completed<V>) where V: Clone
        requires
            old(shared).wf(),
            old(slot).computed_by(runtime.spec_id()),
            old(slot).key() == self.database_key_index,
        ensures
            final(shared).wf(),
            final(shared).same_clock(*old(shared)),
            final(shared).next_id() == old(shared).next_id(),
            final(shared).graph().is_without_edges(
                old(shared).graph(),
                Some(&self.database_key_index),
                runtime.spec_id(),
            ),
            final(slot).key() == old(slot).key(),
            done.waiters@ == old(slot).waiting(),
            Self::fails(result, recovered) ==> {
                &&& final(slot).state() is NotComputed
                &&& done.notify is None
                &&& done.outcome == Err::<StampedValue<V>, CycleError<DatabaseKeyIndex>>(
                    CycleError {
                        cycle: result.cycle,
                        durability: result.durability,
                        changed_at: result.changed_at,
                    },
                )
            },
            !Self::fails(result, recovered) ==> {
                let changed_at = backdated(
                    self.memo,
                    result.durability,
                    result.changed_at,
                    values_equal,
                );
                &&& done.outcome == Ok::<StampedValue<V>, CycleError<DatabaseKeyIndex>>(
                    StampedValue {
                        value: Self::value_of(result, recovered),
                        durability: result.durability,
                        changed_at,
                    },
                )
                &&& final(slot).state() is Memoized
                &&& final(slot).state()->Memoized_0.revisions == (MemoRevisions {
                    verified_at: revision_now,
                    changed_at,
                    durability: result.durability,
                    inputs: inputs_of(result.dependencies),
                })
                &&& final(slot).state()->Memoized_0.value is Some == should_memoize
                &&& should_memoize ==> cloned(
                    Self::value_of(result, recovered),
                    final(slot).state()->Memoized_0.value->0,
                )
                &&& done.notify is Some
                &&& cloned(Self::value_of(result, recovered), done.notify->0.value.value)
                &&& done.notify->0.value.durability == result.durability
                &&& done.notify->0.value.changed_at == changed_at
                &&& done.notify->0.cycle@ == result.cycle@
                &&& result.changed_at@ <= revision_now@ ==> final(slot).state().wf_at(revision_now)
            },
    {
        let mut this = self;
        let ComputedQueryResult { value, durability, changed_at, dependencies, cycle } = result;
        let mut value = value;
        let mut changed_at = changed_at;
        if cycle.len() > 0 {
            match recovered {
                Some(v) => {
                    value = v;
                },
                None => {
                    let err = CycleError { cycle, durability, changed_at };
                    let waiters = this.report_unexpected_cycle(slot, runtime, shared);
                    return Completed { outcome: Err(err), waiters, notify: None };
                },
            }
        }
        match &this.memo {
            Some(old_memo) => {
                if old_memo.value.is_some() && durability.index()
                    >= old_memo.revisions.durability.index() && values_equal
                    && old_memo.revisions.changed_at.as_u64() <= changed_at.as_u64() {
                    changed_at = old_memo.revisions.changed_at;
                }
            },
            None => {},
        }
        let new_value = StampedValue { value, durability, changed_at };
        let kept = if should_memoize {
            Some(new_value.value.clone())
        } else {
            None
        };
        let to_tell = copy_keys(cycle.as_slice());
        let inputs = match dependencies {
            None => MemoInputs::Untracked,
            Some(dependencies) => {
                if dependencies.len() == 0 {
                    MemoInputs::NoInputs
                } else {
                    MemoInputs::Traced { inputs: dependencies }
                }
            },
        };
        this.memo = Some(
            Memo {
                value: kept,
                revisions: MemoRevisions { changed_at, verified_at: revision_now, inputs, durability },
            },
        );
        let (waiters, notify) = this.proceed(slot, runtime, shared, &new_value, to_tell);
        Completed { outcome: Ok(new_value), waiters, notify: Some(notify) }
    }

    /// Whether the policy is asked if the new value is the same as the old
    /// one: the slot held a value before, and the new value is no less
    /// durable.
    pub open spec fn asks_policy(memo: Option<Memo<V>>, result: ComputedQueryResult<V>) -> bool {
        memo is Some && memo->0.value is Some && result.durability.spec_index()
            >= memo->0.revisions.durability.spec_index()
    }

    /// Ends the computation of a query whose function has run, as
    /// `complete_with` does, after asking the policy `MP` of the query: whether
    /// the value for `key` is to be kept and, where the slot held a value
    /// before that the new one could be dated back to, whether the two are the
    /// same.
    pub fn complete<K, MP: MemoizationPolicy<K, V>>(
        self,
        slot: &mut Slot<V>,
        runtime: &Runtime,
        shared: &mut SharedState,
        key: &K,
        result: ComputedQueryResult<V>,
        recovered: Option<V>,
        revision_now: Revision,
    ) -> (done: Completed<V>) where V: Clone
        requires
            old(shared).wf(),
            old(slot).computed_by(runtime.spec_id()),
            old(slot).key() == self.database_key_index,
        ensures
            final(shared).wf(),
            final(shared).same_clock(*old(shared)),
            final(shared).next_id() == old(shared).next_id(),
            final(shared).graph().is_without_edges(
                old(shared).graph(),
                Some(&self.database_key_index),
                runtime.spec_id(),
            ),
            final(slot).key() == old(slot).key(),
            done.waiters@ == old(slot).waiting(),
            Self::fails(result, recovered) ==> {
                &&& final(slot).state() is NotComputed
                &&& done.notify is None
                &&& done.outcome == Err::<StampedValue<V>, CycleError<DatabaseKeyIndex>>(
                    CycleError {
                        cycle: result.cycle,
                        durability: result.durability,
                        changed_at: result.changed_at,
                    },
                )
            },
            !Self::fails(result, recovered) ==> {
                &&& done.outcome is Ok
                &&& done.outcome->Ok_0.value == Self::value_of(result, recovered)
                &&& done.outcome->Ok_0.durability == result.durability
                &&& done.notify is Some
                &&& cloned(Self::value_of(result, recovered), done.notify->0.value.value)
                &&& done.notify->0.value.durability == result.durability
                &&& done.notify->0.value.changed_at == done.outcome->Ok_0.changed_at
                &&& done.notify->0.cycle@ == result.cycle@
                &&& result.changed_at@ <= revision_now@ ==> final(slot).state().wf_at(revision_now)
                &&& final(slot).state() is Memoized
                &&& final(slot).state()->Memoized_0.revisions.verified_at == revision_now
                &&& final(slot).state()->Memoized_0.revisions.durability == result.durability
                &&& final(slot).state()->Memoized_0.revisions.inputs == inputs_of(
                    result.dependencies,
                )
                &&& final(slot).state()->Memoized_0.revisions.changed_at
                    == done.outcome->Ok_0.changed_at
                &&& call_ensures(
                    MP::should_memoize_value,
                    (key,),
                    final(slot).state()->Memoized_0.value is Some,
                )
                &&& final(slot).state()->Memoized_0.value is Some ==> cloned(
                    Self::value_of(result, recovered),
                    final(slot).state()->Memoized_0.value->0,
                )
                &&& exists|values_equal: bool|
                    {
                        &&& #[trigger] backdated(
                            self.memo,
                            result.durability,
                            result.changed_at,
                            values_equal,
                        ) == done.outcome->Ok_0.changed_at
                        &&& Self::asks_policy(self.memo, result) ==> call_ensures(
                            MP::memoized_value_eq,
                            (&self.memo->0.value->0, &Self::value_of(result, recovered)),
                            values_equal,
                        )
                    }
            },
    {
        if result.cycle.len() > 0 && recovered.is_none() {
            return self.complete_with(
                slot,
                runtime,
                shared,
                result,
                recovered,
                false,
                false,
                revision_now,
            );
        }
        let should_memoize = MP::should_memoize_value(key);
        let mut values_equal = false;
        match &self.memo {
            Some(old_memo) => match &old_memo.value {
                Some(old_value) => {
                    if result.durability.index() >= old_memo.revisions.durability.index() {
                        values_equal = match &recovered {
                            Some(v) => if result.cycle.len() > 0 {
                                MP::memoized_value_eq(old_value, v)
                            } else {
                                MP::memoized_value_eq(old_value, &result.value)
                            },
                            None => MP::memoized_value_eq(old_value, &result.value),
                        };
                    }
                },
                None => {},
            },
            None => {},
        }
        let ghost changed_at = backdated(self.memo, result.durability, result.changed_at, values_equal);
        let done = self.complete_with(
            slot,
            runtime,
            shared,
            result,
            recovered,
            values_equal,
            should_memoize,
            revision_now,
        );
        assert(backdated(self.memo, result.durability, result.changed_at, values_equal)
            == done.outcome->Ok_0.changed_at);
        done
    }
}

/// No step that a slot takes on its own moves the verification of its memo
/// back: not eviction, not a sweep, not invalidation, and not the end of a
/// check of its inputs. Each also leaves the memo fit for the revision that the
/// database is in.
pub proof fn lemma_steps_keep_verification<V>(
    state: QueryState<V>,
    revision_now: Revision,
    strategy: SweepStrategy,
    maybe_changed: bool,
)
    requires
        state.wf_at(revision_now),
    ensures
        state.verified_no_earlier_in(Slot::<V>::evicted(state)),
        state.verified_no_earlier_in(Slot::<V>::swept(state, revision_now, strategy)),
        state.verified_no_earlier_in(Slot::<V>::invalidated(state)),
        state.verified_no_earlier_in(Slot::<V>::checked(state, maybe_changed, revision_now)),
        Slot::<V>::evicted(state).wf_at(revision_now),
        Slot::<V>::swept(state, revision_now, strategy).wf_at(revision_now),
        Slot::<V>::invalidated(state).wf_at(revision_now),
        Slot::<V>::checked(state, maybe_changed, revision_now).wf_at(revision_now),
{
}

impl<V> Slot<V> {
    /// Whether `step` is the first step of finding out, for the runtime
    /// `runtime`, whether the value of the slot `before` may have changed since
    /// `revision`, and `self` and `shared_after` are what the step left of the
    /// slot and the shared state.
    ///
    /// - Nothing is known of the query: the answer is yes; nothing changes.
    /// - Another runtime computes it: the runtime is registered and waits, or,
    ///   where that would close a cycle, the answer is yes and nothing changes.
    /// - The memo was verified in the current revision: the answer is whether
    ///   the value last changed after `revision`; nothing changes.
    /// - The durability of the memo settles it, or the memo has no inputs: the
    ///   answer is no, and the memo is verified in the current revision.
    /// - The inputs are untracked: the answer is yes; nothing changes.
    /// - The inputs are known: a read is asked for where the memo has a
    ///   value, a check of the inputs where it has none; nothing changes.
    pub open spec fn is_first_step(
        self,
        before: Slot<V>,
        runtime: Runtime,
        shared_before: SharedState,
        shared_after: SharedState,
        revision: Revision,
        step: MaybeChangedSinceState,
    ) -> bool {
        let now = shared_before.current();
        match before.state() {
            QueryState::NotComputed => {
                &&& step == MaybeChangedSinceState::Done(true)
                &&& self == before
                &&& shared_after.graph() == shared_before.graph()
            },
            QueryState::InProgress { id: other_id, .. } => {
                &&& self.computed_by(other_id)
                &&& match Self::registration(runtime.spec_id(), other_id, shared_before) {
                    Ok(_) => {
                        &&& step == MaybeChangedSinceState::Wait(other_id)
                        &&& self.is_registered(before, runtime, other_id, shared_before, shared_after)
                    },
                    Err(_) => {
                        &&& step == MaybeChangedSinceState::Done(true)
                        &&& self.waiting() == before.waiting()
                        &&& shared_after.graph().same_as(shared_before.graph())
                    },
                }
            },
            QueryState::Memoized(memo) => {
                &&& shared_after.graph() == shared_before.graph()
                &&& if memo.revisions.verified_at == now {
                    &&& step == MaybeChangedSinceState::Done(memo.revisions.changed_at@ > revision@)
                    &&& self == before
                } else if memo.revisions.spec_check_durability(shared_before)
                    || memo.revisions.inputs is NoInputs {
                    &&& step == MaybeChangedSinceState::Done(false)
                    &&& self.key() == before.key()
                    &&& self.state() == Self::checked(before.state(), false, now)
                } else if memo.revisions.inputs is Untracked {
                    &&& step == MaybeChangedSinceState::Done(true)
                    &&& self == before
                } else if memo.value is Some {
                    &&& step == MaybeChangedSinceState::Read(now)
                    &&& self == before
                } else {
                    &&& step is Check
                    &&& step->Check_0@ == memo.revisions.inputs->Traced_inputs@
                    &&& step->Check_1 == now
                    &&& self == before
                }
            },
        }
    }

    /// The first step of finding out whether the value of the query may have
    /// changed since `revision`.
    ///
    /// - Nothing is known of the query: it may have.
    /// - Another runtime computes it: this one registers to wait, and judges
    ///   by the result; where to wait would close a cycle, the value counts as
    ///   changed.
    /// - The memo was verified in the current revision: the value changed
    ///   since `revision` exactly if it last changed after it.
    /// - No value of the memo's durability or higher changed since the memo
    ///   was verified, or the memo has no inputs: it did not, and the memo is
    ///   marked as verified in the current revision.
    /// - The inputs are untracked: it may have.
    /// - Else the inputs have to be looked at: by a read where the memo has a
    ///   value, by asking them one by one where it has none.
    pub fn maybe_changed_since_inner(
        &mut self,
        runtime: &Runtime,
        shared: &mut SharedState,
        revision: Revision,
    ) -> (step: MaybeChangedSinceState)
        requires
            old(shared).wf(),
            runtime.spec_id().counter < old(shared).next_id(),
            old(self).state().wf_at(old(shared).current()),
        ensures
            final(shared).wf(),
            final(shared).same_clock(*old(shared)),
            final(shared).next_id() == old(shared).next_id(),
            final(self).key() == old(self).key(),
            final(self).state().wf_at(old(shared).current()),
            old(self).state().verified_no_earlier_in(final(self).state()),
            final(self).is_first_step(
                *old(self),
                *runtime,
                *old(shared),
                *final(shared),
                revision,
                step,
            ),
    {
        let revision_now = shared.current_revision();
        let mut owner: Option<RuntimeId> = None;
        let maybe_changed: bool;
        match &self.state {
            QueryState::NotComputed => {
                return MaybeChangedSinceState::Done(true);
            },
            QueryState::InProgress { id, .. } => {
                owner = Some(*id);
                maybe_changed = true;
            },
            QueryState::Memoized(memo) => {
                if memo.revisions.verified_at == revision_now {
                    return MaybeChangedSinceState::Done(
                        memo.revisions.changed_at.as_u64() > revision.as_u64(),
                    );
                }
                if memo.revisions.check_durability(shared) {
                    maybe_changed = false;
                } else {
                    match &memo.revisions.inputs {
                        MemoInputs::Untracked => {
                            return MaybeChangedSinceState::Done(true);
                        },
                        MemoInputs::NoInputs => {
                            maybe_changed = false;
                        },
                        MemoInputs::Traced { inputs } => {
                            if memo.value.is_some() {
                                return MaybeChangedSinceState::Read(revision_now);
                            }
                            let inputs = copy_keys(inputs.as_slice());
                            return MaybeChangedSinceState::Check(inputs, revision_now);
                        },
                    }
                }
            },
        }
        match owner {
            Some(other_id) => {
                match self.register_with_in_progress_thread(runtime, shared, other_id) {
                    Ok(_) => MaybeChangedSinceState::Wait(other_id),
                    Err(_) => MaybeChangedSinceState::Done(true),
                }
            },
            None => {
                self.maybe_changed_since_update(maybe_changed, revision_now);
                MaybeChangedSinceState::Done(maybe_changed)
            },
        }
    }

    /// Finds out whether the value of the query may have changed since
    /// `revision`, as far as that can be done without waiting and without
    /// reading: as `maybe_changed_since_inner` does, and where the inputs of a
    /// memo without a value have to be asked, by asking them through `changed`
    /// and bringing the slot up to date with the answer.
    pub fn maybe_changed_since<F: Fn(DatabaseKeyIndex, Revision) -> bool>(
        &mut self,
        runtime: &Runtime,
        shared: &mut SharedState,
        revision: Revision,
        changed: &F,
    ) -> (step: MaybeChangedSinceState)
        requires
            old(shared).wf(),
            runtime.spec_id().counter < old(shared).next_id(),
            old(self).state().wf_at(old(shared).current()),
            forall|k: DatabaseKeyIndex, r: Revision| call_requires(*changed, (k, r)),
        ensures
            final(shared).wf(),
            final(shared).same_clock(*old(shared)),
            final(shared).next_id() == old(shared).next_id(),
            final(self).key() == old(self).key(),
            final(self).state().wf_at(old(shared).current()),
            old(self).state().verified_no_earlier_in(final(self).state()),
            !(step is Check),
            !Self::must_check(old(self).state(), old(shared).current(), *old(shared))
                ==> final(self).is_first_step(
                *old(self),
                *runtime,
                *old(shared),
                *final(shared),
                revision,
                step,
            ),
            Self::must_check(old(self).state(), old(shared).current(), *old(shared)) ==> {
                let inputs = old(self).state()->Memoized_0.revisions.inputs->Traced_inputs@;
                &&& final(shared).graph() == old(shared).graph()
                &&& step is Done
                &&& final(self).state() == Self::checked(
                    old(self).state(),
                    step->Done_0,
                    old(shared).current(),
                )
                &&& step->Done_0 ==> exists|i: int|
                    0 <= i < inputs.len() && none_changed(inputs, revision, *changed, i)
                        && call_ensures(*changed, (#[trigger] inputs[i], revision), true)
                &&& !step->Done_0 ==> none_changed(inputs, revision, *changed, inputs.len() as int)
            },
    {
        let ghost before = *self;
        match self.maybe_changed_since_inner(runtime, shared, revision) {
            MaybeChangedSinceState::Check(inputs, revision_now) => {
                assert(*self == before);
                let found = first_changed_input(&inputs, revision, changed);
                let maybe_changed = found.is_some();
                self.maybe_changed_since_update(maybe_changed, revision_now);
                MaybeChangedSinceState::Done(maybe_changed)
            },
            step => {
                assert(!Self::must_check(old(self).state(), old(shared).current(), *old(shared)));
                step
            },
        }
    }

    /// Whether finding out if the value changed takes asking the inputs one
    /// by one: the memo was not verified in the revision `now`, its durability
    /// does not settle the matter, and it has inputs that are known but no
    /// value.
    pub open spec fn must_check(state: QueryState<V>, now: Revision, shared: SharedState) -> bool {
        &&& state matches QueryState::Memoized(memo)
        &&& memo.revisions.verified_at != now
        &&& !memo.revisions.spec_check_durability(shared)
        &&& memo.revisions.inputs is Traced
        &&& memo.value is None
    }
}

} // verus!
