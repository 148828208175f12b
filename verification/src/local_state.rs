//! The queries that one runtime is in the middle of.

use crate::collections::index_set_insert;
use crate::collections::index_set_into_vec;
use crate::collections::index_set_items;
use crate::collections::index_set_new;
use crate::collections::FxIndexSet;
use crate::durability::Durability;
use crate::key::append_from;
use crate::key::copy_keys;
use crate::key::holds_key;
use crate::key::DatabaseKeyIndex;
use crate::revision::spec_later;
use crate::revision::Revision;
use vstd::prelude::*;

verus! {

/// What the contracts say of a frame.
pub struct FrameView {
    /// The query that is running.
    pub database_key_index: DatabaseKeyIndex,
    /// The least durability among what the query has read.
    pub durability: Durability,
    /// The latest revision in which something that the query has read changed.
    pub changed_at: Revision,
    /// The queries that were read, each once, in the order of the first read;
    /// `None` after a read that the engine cannot trace.
    pub dependencies: Option<Seq<DatabaseKeyIndex>>,
    /// The cycle that the query was found to be part of; empty where none was.
    pub cycle: Seq<DatabaseKeyIndex>,
}

impl FrameView {
    /// The frame of a query that has read nothing yet.
    pub open spec fn fresh(database_key_index: DatabaseKeyIndex, max_durability: Durability) -> FrameView {
        FrameView {
            database_key_index,
            durability: max_durability,
            changed_at: Revision::start(),
            dependencies: Some(Seq::empty()),
            cycle: Seq::empty(),
        }
    }

    /// The frame after the query read `input`, whose value has the given
    /// durability and last changed in `revision`.
    pub open spec fn after_read(
        self,
        input: DatabaseKeyIndex,
        durability: Durability,
        revision: Revision,
    ) -> FrameView {
        FrameView {
            durability: self.durability.spec_min(durability),
            changed_at: spec_later(self.changed_at, revision),
            dependencies: match self.dependencies {
                Some(s) => Some(with_item(s, input)),
                None => None,
            },
            ..self
        }
    }

    /// The frame after the query read something that the engine cannot trace,
    /// in the revision `changed_at`.
    pub open spec fn after_untracked_read(self, changed_at: Revision) -> FrameView {
        FrameView { durability: Durability::Low, changed_at, dependencies: None, ..self }
    }

    /// The frame with its durability lowered to at most `durability`.
    pub open spec fn after_synthetic_read(self, durability: Durability) -> FrameView {
        FrameView { durability: self.durability.spec_min(durability), ..self }
    }

    /// The frame with the revision of its last change raised to at least
    /// `changed_at`.
    pub open spec fn after_anon_read(self, changed_at: Revision) -> FrameView {
        FrameView { changed_at: spec_later(self.changed_at, changed_at), ..self }
    }

    /// The frame marked as part of `cycle`.
    pub open spec fn in_cycle(self, cycle: Seq<DatabaseKeyIndex>) -> FrameView {
        FrameView { cycle, ..self }
    }
}

/// The frame of one running query: what it has read so far.
pub struct ActiveQuery {
    /// What query is executing.
    pub(crate) database_key_index: DatabaseKeyIndex,
    /// Minimum durability of inputs observed so far.
    pub(crate) durability: Durability,
    /// Maximum revision of all inputs observed. If we observe an
    /// untracked read, this will be set to the most recent revision.
    pub(crate) changed_at: Revision,
    /// Set of subqueries that were accessed thus far, by code, or `None` if
    /// there was an untracked read.
    pub(crate) dependencies: Option<FxIndexSet>,
    /// Stores the entire cycle, if one is found and this query is part of it.
    pub(crate) cycle: Vec<DatabaseKeyIndex>,
}

/// The queries with the given codes.
pub open spec fn keys_of(codes: Seq<u64>) -> Seq<DatabaseKeyIndex> {
    codes.map_values(|c: u64| DatabaseKeyIndex::spec_from_code(c))
}

/// The list `s` with `x` at its end, unless it holds `x` already.
pub open spec fn with_item(s: Seq<DatabaseKeyIndex>, x: DatabaseKeyIndex) -> Seq<DatabaseKeyIndex> {
    if s.contains(x) {
        s
    } else {
        s.push(x)
    }
}

impl View for ActiveQuery {
    type V = FrameView;

    closed spec fn view(&self) -> FrameView {
        FrameView {
            database_key_index: self.database_key_index,
            durability: self.durability,
            changed_at: self.changed_at,
            dependencies: match self.dependencies {
                Some(set) => Some(keys_of(index_set_items(set))),
                None => None,
            },
            cycle: self.cycle@,
        }
    }
}

impl ActiveQuery {
    /// The frame of a query that has read nothing yet.
    pub fn new(database_key_index: DatabaseKeyIndex, max_durability: Durability) -> (frame:
        ActiveQuery)
        ensures
            frame@ == FrameView::fresh(database_key_index, max_durability),
    {
        let frame = ActiveQuery {
            database_key_index,
            durability: max_durability,
            changed_at: Revision::start(),
            dependencies: Some(index_set_new()),
            cycle: Vec::new(),
        };
        assert(keys_of(Seq::<u64>::empty()) =~= Seq::<DatabaseKeyIndex>::empty());
        frame
    }

    /// Records that the query read `input`, whose value has the given
    /// durability and last changed in `revision`.
    pub fn add_read(&mut self, input: DatabaseKeyIndex, durability: Durability, revision: Revision)
        ensures
            final(self)@ == old(self)@.after_read(input, durability, revision),
    {
        let taken = self.dependencies.take();
        match taken {
            Some(set) => {
                let mut set = set;
                let ghost before = index_set_items(set);
                index_set_insert(&mut set, input.code());
                proof {
                    DatabaseKeyIndex::lemma_code_round_trip(input, 0);
                    if before.contains(input.spec_code()) {
                        let i = choose|i: int| 0 <= i < before.len() && before[i] == input.spec_code();
                        assert(keys_of(before)[i] == input);
                    }
                    if keys_of(before).contains(input) {
                        let i = choose|i: int|
                            0 <= i < keys_of(before).len() && keys_of(before)[i] == input;
                        DatabaseKeyIndex::lemma_code_round_trip(input, before[i]);
                        assert(before[i] == input.spec_code());
                    }
                    assert(keys_of(index_set_items(set)) =~= with_item(keys_of(before), input));
                }
                self.dependencies = Some(set);
            },
            None => {},
        }
        self.durability = self.durability.min(durability);
        self.changed_at = self.changed_at.max(revision);
    }

    /// Records that the query read something that the engine cannot trace:
    /// from now on it counts as having changed in `changed_at`, the current
    /// revision, and as no more durable than `LOW`.
    pub fn add_untracked_read(&mut self, changed_at: Revision)
        ensures
            final(self)@ == old(self)@.after_untracked_read(changed_at),
    {
        self.dependencies = None;
        self.durability = Durability::LOW;
        self.changed_at = changed_at;
    }

    /// Lowers the durability of the query to at most `durability`.
    pub fn add_synthetic_read(&mut self, durability: Durability)
        ensures
            final(self)@ == old(self)@.after_synthetic_read(durability),
    {
        self.durability = self.durability.min(durability);
    }

    /// Raises the revision in which the query counts as changed to at least
    /// `changed_at`.
    pub fn add_anon_read(&mut self, changed_at: Revision)
        ensures
            final(self)@ == old(self)@.after_anon_read(changed_at),
    {
        self.changed_at = self.changed_at.max(changed_at);
    }

    /// Takes the frame apart into what the query read: the durability, the
    /// revision of the last change, the queries read and the cycle.
    pub fn into_parts(self) -> (parts: (Durability, Revision, Option<Vec<DatabaseKeyIndex>>, Vec<
        DatabaseKeyIndex,
    >))
        ensures
            parts.0 == self@.durability,
            parts.1 == self@.changed_at,
            parts.2 is Some == self@.dependencies is Some,
            parts.2 is Some ==> parts.2->0@ == self@.dependencies->0,
            parts.3@ == self@.cycle,
    {
        let ActiveQuery { database_key_index: _, durability, changed_at, dependencies, cycle } = self;
        let keys = match dependencies {
            Some(set) => {
                let codes = index_set_into_vec(set);
                let mut keys: Vec<DatabaseKeyIndex> = Vec::new();
                let mut i: usize = 0;
                while i < codes.len()
                    invariant
                        i <= codes.len(),
                        keys@ == keys_of(codes@.subrange(0, i as int)),
                    decreases codes.len() - i,
                {
                    keys.push(DatabaseKeyIndex::from_code(codes[i]));
                    assert(keys@ =~= keys_of(codes@.subrange(0, i + 1)));
                    i = i + 1;
                }
                assert(codes@.subrange(0, codes.len() as int) =~= codes@);
                Some(keys)
            },
            None => None,
        };
        (durability, changed_at, keys, cycle)
    }
}

/// The stack of the queries that a runtime is in the middle of, outermost
/// first.
pub struct LocalState {
    query_stack: Vec<ActiveQuery>,
}

impl View for LocalState {
    type V = Seq<FrameView>;

    closed spec fn view(&self) -> Seq<FrameView> {
        self.query_stack@.map_values(|f: ActiveQuery| f@)
    }
}

/// The stack with its top frame replaced by `top`; the stack itself where it
/// is empty.
pub open spec fn with_top(stack: Seq<FrameView>, top: FrameView) -> Seq<FrameView> {
    if stack.len() > 0 {
        stack.update(stack.len() - 1, top)
    } else {
        stack
    }
}

/// The queries of the frames, outermost first.
pub open spec fn keys_on(stack: Seq<FrameView>) -> Seq<DatabaseKeyIndex> {
    stack.map_values(|f: FrameView| f.database_key_index)
}

/// The place of the innermost frame of `key`.
pub open spec fn innermost(stack: Seq<FrameView>, key: DatabaseKeyIndex) -> int {
    choose|i: int|
        0 <= i < stack.len() && stack[i].database_key_index == key && forall|j: int|
            i < j < stack.len() ==> stack[j].database_key_index != key
}

/// How many frames, counted from the top, belong to queries of `cycle` without
/// a gap.
pub open spec fn top_run(stack: Seq<FrameView>, cycle: Seq<DatabaseKeyIndex>) -> nat
    decreases stack.len(),
{
    if stack.len() > 0 && cycle.contains(stack.last().database_key_index) {
        1 + top_run(stack.drop_last(), cycle)
    } else {
        0
    }
}

impl LocalState {
    /// The state of a runtime that runs no query.
    pub fn new() -> (state: LocalState)
        ensures
            state@ == Seq::<FrameView>::empty(),
    {
        let state = LocalState { query_stack: Vec::new() };
        assert(state@ =~= Seq::<FrameView>::empty());
        state
    }

    /// Enters the query `database_key_index`: a frame that has read nothing is
    /// put on top of the stack.
    pub fn push_query(&mut self, database_key_index: DatabaseKeyIndex, max_durability: Durability)
        ensures
            final(self)@ == old(self)@.push(FrameView::fresh(database_key_index, max_durability)),
    {
        self.query_stack.push(ActiveQuery::new(database_key_index, max_durability));
        assert(self@ =~= old(self)@.push(FrameView::fresh(database_key_index, max_durability)));
    }

    /// Leaves the innermost query and hands out its frame.
    pub fn pop_query(&mut self) -> (frame: ActiveQuery)
        requires
            old(self)@.len() > 0,
        ensures
            frame@ == old(self)@.last(),
            final(self)@ == old(self)@.drop_last(),
    {
        let popped = self.query_stack.pop();
        assert(self@ =~= old(self)@.drop_last());
        popped.unwrap()
    }

    /// Whether the runtime is in the middle of a query.
    pub fn query_in_progress(&self) -> (busy: bool)
        ensures
            busy == (self@.len() > 0),
    {
        self.query_stack.len() > 0
    }

    /// The innermost query that the runtime is in, if any.
    pub fn active_query(&self) -> (key: Option<DatabaseKeyIndex>)
        ensures
            key == if self@.len() > 0 {
                Some(self@.last().database_key_index)
            } else {
                None
            },
    {
        let n = self.query_stack.len();
        if n > 0 {
            Some(self.query_stack[n - 1].database_key_index)
        } else {
            None
        }
    }

    /// The queries that the runtime is in, outermost first.
    pub fn stack_path(&self) -> (path: Vec<DatabaseKeyIndex>)
        ensures
            path@ == keys_on(self@),
    {
        let mut path: Vec<DatabaseKeyIndex> = Vec::new();
        let mut i: usize = 0;
        while i < self.query_stack.len()
            invariant
                i <= self.query_stack.len(),
                path@ == keys_on(self@).subrange(0, i as int),
            decreases self.query_stack.len() - i,
        {
            path.push(self.query_stack[i].database_key_index);
            assert(path@ =~= keys_on(self@).subrange(0, i + 1));
            i = i + 1;
        }
        assert(keys_on(self@).subrange(0, self@.len() as int) =~= keys_on(self@));
        path
    }

    /// Records in the innermost frame, if there is one, that its query read
    /// `input`.
    pub fn report_query_read(
        &mut self,
        input: DatabaseKeyIndex,
        durability: Durability,
        changed_at: Revision,
    )
        ensures
            final(self)@ == with_top(
                old(self)@,
                old(self)@.last().after_read(input, durability, changed_at),
            ),
    {
        let n = self.query_stack.len();
        if n > 0 {
            self.query_stack[n - 1].add_read(input, durability, changed_at);
        }
        assert(self@ =~= with_top(
            old(self)@,
            old(self)@.last().after_read(input, durability, changed_at),
        ));
    }

    /// Records in the innermost frame, if there is one, that its query read
    /// something that the engine cannot trace.
    pub fn report_untracked_read(&mut self, current_revision: Revision)
        ensures
            final(self)@ == with_top(
                old(self)@,
                old(self)@.last().after_untracked_read(current_revision),
            ),
    {
        let n = self.query_stack.len();
        if n > 0 {
            self.query_stack[n - 1].add_untracked_read(current_revision);
        }
        assert(self@ =~= with_top(
            old(self)@,
            old(self)@.last().after_untracked_read(current_revision),
        ));
    }

    /// Lowers the durability of the innermost query, if there is one, to at
    /// most `durability`.
    pub fn report_synthetic_read(&mut self, durability: Durability)
        ensures
            final(self)@ == with_top(old(self)@, old(self)@.last().after_synthetic_read(durability)),
    {
        let n = self.query_stack.len();
        if n > 0 {
            self.query_stack[n - 1].add_synthetic_read(durability);
        }
        assert(self@ =~= with_top(old(self)@, old(self)@.last().after_synthetic_read(durability)));
    }

    /// Raises the revision in which the innermost query, if there is one,
    /// counts as changed to at least `revision`.
    pub fn report_anon_read(&mut self, revision: Revision)
        ensures
            final(self)@ == with_top(old(self)@, old(self)@.last().after_anon_read(revision)),
    {
        let n = self.query_stack.len();
        if n > 0 {
            self.query_stack[n - 1].add_anon_read(revision);
        }
        assert(self@ =~= with_top(old(self)@, old(self)@.last().after_anon_read(revision)));
    }

    /// Marks the cycle that the runtime closed by reading `key` while it was
    /// still computing it: the queries from the innermost frame of `key` up to
    /// the top of the stack. Each of their frames is given the cycle, which is
    /// also returned.
    pub fn mark_self_cycle(&mut self, key: DatabaseKeyIndex) -> (cycle: Vec<DatabaseKeyIndex>)
        requires
            keys_on(old(self)@).contains(key),
        ensures
            cycle@ == keys_on(old(self)@).subrange(
                innermost(old(self)@, key),
                old(self)@.len() as int,
            ),
            cycle@.len() > 0,
            final(self)@.len() == old(self)@.len(),
            forall|i: int|
                0 <= i < old(self)@.len() ==> #[trigger] final(self)@[i] == if i >= innermost(
                    old(self)@,
                    key,
                ) {
                    old(self)@[i].in_cycle(cycle@)
                } else {
                    old(self)@[i]
                },
    {
        let n = self.query_stack.len();
        let mut start: usize = n;
        while start > 0 && !(self.query_stack[start - 1].database_key_index == key)
            invariant
                start <= n,
                n == self.query_stack.len(),
                forall|j: int| start <= j < n ==> self@[j].database_key_index != key,
            decreases start,
        {
            start = start - 1;
        }
        proof {
            let w = choose|w: int| 0 <= w < keys_on(self@).len() && keys_on(self@)[w] == key;
            assert(self@[w].database_key_index == key);
            assert(start > 0);
            let at = (start - 1) as int;
            assert(0 <= at < self@.len() && self@[at].database_key_index == key && forall|j: int|
                at < j < self@.len() ==> self@[j].database_key_index != key);
            assert(innermost(self@, key) == at);
        }
        let start: usize = start - 1;
        let path = self.stack_path();
        let mut cycle: Vec<DatabaseKeyIndex> = Vec::new();
        append_from(&mut cycle, path.as_slice(), start);
        let mut i: usize = start;
        while i < n
            invariant
                start <= i <= n,
                n == self.query_stack.len(),
                n == old(self)@.len(),
                forall|j: int|
                    0 <= j < n ==> (#[trigger] self.query_stack@[j])@ == if start <= j < i {
                        old(self)@[j].in_cycle(cycle@)
                    } else {
                        old(self)@[j]
                    },
            decreases n - i,
        {
            self.query_stack[i].cycle = copy_keys(cycle.as_slice());
            i = i + 1;
        }
        assert forall|j: int| 0 <= j < n implies #[trigger] self@[j] == if j >= innermost(
            old(self)@,
            key,
        ) {
            old(self)@[j].in_cycle(cycle@)
        } else {
            old(self)@[j]
        } by {
            assert(self@[j] == self.query_stack@[j]@);
        }
        cycle
    }

    /// Gives `cycle` to every frame whose query is in it.
    pub fn mark_frames_in(&mut self, cycle: &[DatabaseKeyIndex])
        ensures
            final(self)@.len() == old(self)@.len(),
            forall|i: int|
                0 <= i < old(self)@.len() ==> #[trigger] final(self)@[i] == if cycle@.contains(
                    old(self)@[i].database_key_index,
                ) {
                    old(self)@[i].in_cycle(cycle@)
                } else {
                    old(self)@[i]
                },
    {
        let n = self.query_stack.len();
        let mut i: usize = 0;
        while i < n
            invariant
                i <= n,
                n == self.query_stack.len(),
                n == old(self)@.len(),
                forall|j: int|
                    0 <= j < n ==> (#[trigger] self.query_stack@[j])@ == if j < i && cycle@.contains(
                        old(self)@[j].database_key_index,
                    ) {
                        old(self)@[j].in_cycle(cycle@)
                    } else {
                        old(self)@[j]
                    },
            decreases n - i,
        {
            if holds_key(cycle, self.query_stack[i].database_key_index) {
                self.query_stack[i].cycle = copy_keys(cycle);
            }
            i = i + 1;
        }
        assert forall|j: int| 0 <= j < n implies #[trigger] self@[j] == if cycle@.contains(
            old(self)@[j].database_key_index,
        ) {
            old(self)@[j].in_cycle(cycle@)
        } else {
            old(self)@[j]
        } by {
            assert(self@[j] == self.query_stack@[j]@);
        }
    }

    /// Gives `cycle` to the frames at the top of the stack whose queries are in
    /// it, from the top down to the first frame whose query is not.
    pub fn mark_cycle_participants(&mut self, cycle: &[DatabaseKeyIndex])
        ensures
            final(self)@.len() == old(self)@.len(),
            forall|i: int|
                0 <= i < old(self)@.len() ==> #[trigger] final(self)@[i] == if i >= old(self)@.len()
                    - top_run(old(self)@, cycle@) {
                    old(self)@[i].in_cycle(cycle@)
                } else {
                    old(self)@[i]
                },
    {
        let n = self.query_stack.len();
        let mut i: usize = n;
        assert(old(self)@.subrange(0, n as int) =~= old(self)@);
        while i > 0 && holds_key(cycle, self.query_stack[i - 1].database_key_index)
            invariant
                i <= n,
                n == self.query_stack.len(),
                n == old(self)@.len(),
                top_run(old(self)@, cycle@) == (n - i) + top_run(
                    old(self)@.subrange(0, i as int),
                    cycle@,
                ),
                forall|j: int|
                    0 <= j < n ==> (#[trigger] self.query_stack@[j])@ == if j >= i {
                        old(self)@[j].in_cycle(cycle@)
                    } else {
                        old(self)@[j]
                    },
            decreases i,
        {
            proof {
                let s = old(self)@.subrange(0, i as int);
                assert(self.query_stack@[i - 1]@ == old(self)@[i - 1]);
                assert(s.last() == old(self)@[i - 1]);
                assert(s.drop_last() =~= old(self)@.subrange(0, i - 1));
                assert(top_run(s, cycle@) == 1 + top_run(s.drop_last(), cycle@));
            }
            self.query_stack[i - 1].cycle = copy_keys(cycle);
            i = i - 1;
        }
        proof {
            let s = old(self)@.subrange(0, i as int);
            if i > 0 {
                assert(self.query_stack@[i - 1]@ == old(self)@[i - 1]);
                assert(s.last() == old(self)@[i - 1]);
            }
            assert(top_run(s, cycle@) == 0);
            assert forall|j: int| 0 <= j < n implies #[trigger] self@[j] == if j >= n - top_run(
                old(self)@,
                cycle@,
            ) {
                old(self)@[j].in_cycle(cycle@)
            } else {
                old(self)@[j]
            } by {
                assert(self@[j] == self.query_stack@[j]@);
            }
        }
    }
}

} // verus!
