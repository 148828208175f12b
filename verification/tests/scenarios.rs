//! A small single-threaded database built from the steps of the library, and
//! the behaviour of the engine as a whole on it.

use salsa::derived::slot::first_changed_input;
use salsa::derived::slot::MaybeChangedSinceState;
use salsa::derived::slot::MemoInputs;
use salsa::derived::slot::QueryState;
use salsa::derived::slot::ReadStep;
use salsa::derived::slot::Slot;
use salsa::derived::MemoizationPolicy;
use salsa::runtime::SharedState;
use salsa::runtime::StampedValue;
use salsa::CycleError;
use salsa::DatabaseKeyIndex;
use salsa::Durability;
use salsa::Event;
use salsa::EventKind;
use salsa::Revision;
use salsa::Runtime;
use salsa::RuntimeId;
use salsa::SweepStrategy;
use std::cell::RefCell;
use std::collections::HashMap;

const INPUTS: u16 = 0;

type QueryFn = fn(&Db, usize, u32) -> i64;
type RecoverFn = fn(&[DatabaseKeyIndex], u32) -> Option<i64>;

struct Always;

impl MemoizationPolicy<u32, i64> for Always {
    fn should_memoize_value(_key: &u32) -> bool {
        true
    }

    fn memoized_value_eq(old_value: &i64, new_value: &i64) -> bool {
        old_value == new_value
    }
}

struct Db {
    shared: RefCell<SharedState>,
    runtimes: Vec<RefCell<Runtime>>,
    inputs: RefCell<HashMap<u32, (i64, Durability, Revision)>>,
    slots: RefCell<HashMap<DatabaseKeyIndex, Slot<i64>>>,
    queries: HashMap<u16, QueryFn>,
    recover: HashMap<u16, RecoverFn>,
    events: RefCell<Vec<Event>>,
    asked: RefCell<Vec<DatabaseKeyIndex>>,
}

fn input_key(key: u32) -> DatabaseKeyIndex {
    DatabaseKeyIndex::new(0, INPUTS, key)
}

fn derived_key(query: u16, key: u32) -> DatabaseKeyIndex {
    DatabaseKeyIndex::new(0, query, key)
}

impl Db {
    fn new() -> Db {
        Db {
            shared: RefCell::new(SharedState::new()),
            runtimes: vec![RefCell::new(Runtime::new())],
            inputs: RefCell::new(HashMap::new()),
            slots: RefCell::new(HashMap::new()),
            queries: HashMap::new(),
            recover: HashMap::new(),
            events: RefCell::new(Vec::new()),
            asked: RefCell::new(Vec::new()),
        }
    }

    fn now(&self) -> Revision {
        self.shared.borrow().current_revision()
    }

    fn set(&self, key: u32, value: i64, durability: Durability) {
        let mut runtime = self.runtimes[0].borrow_mut();
        let mut shared = self.shared.borrow_mut();
        assert!(runtime.permits_increment());
        let inputs = &self.inputs;
        runtime.with_incremented_revision(&mut shared, |next_revision| {
            let old = inputs
                .borrow_mut()
                .insert(key, (value, durability, next_revision));
            old.map(|(_, old_durability, _)| old_durability)
        });
    }

    fn input(&self, rt: usize, key: u32) -> i64 {
        let (value, durability, changed_at) = self.inputs.borrow()[&key];
        self.runtimes[rt]
            .borrow_mut()
            .report_query_read(input_key(key), durability, changed_at);
        value
    }

    fn with_slot<R>(&self, key: DatabaseKeyIndex, f: impl FnOnce(&mut Slot<i64>) -> R) -> R {
        let mut slots = self.slots.borrow_mut();
        let slot = slots.entry(key).or_insert_with(|| Slot::new(key));
        f(slot)
    }

    fn executions(&self, key: DatabaseKeyIndex) -> usize {
        self.events
            .borrow()
            .iter()
            .filter(|e| e.kind == EventKind::WillExecute { database_key: key })
            .count()
    }

    fn validations(&self, key: DatabaseKeyIndex) -> usize {
        self.events
            .borrow()
            .iter()
            .filter(|e| e.kind == EventKind::DidValidateMemoizedValue { database_key: key })
            .count()
    }

    fn recover(&self, query: u16, cycle: &[DatabaseKeyIndex], key: u32) -> Option<i64> {
        match self.recover.get(&query) {
            Some(f) => f(cycle, key),
            None => None,
        }
    }

    /// Reads a derived query and reports the read to the running query.
    fn get(&self, rt: usize, query: u16, key: u32) -> Result<i64, CycleError<DatabaseKeyIndex>> {
        let dk = derived_key(query, key);
        let step = self.with_slot(dk, |slot| {
            slot.read(
                &mut self.runtimes[rt].borrow_mut(),
                &mut self.shared.borrow_mut(),
            )
        });
        let stamped = self.finish_read(rt, query, key, step)?;
        self.runtimes[rt]
            .borrow_mut()
            .report_query_read(dk, stamped.durability, stamped.changed_at);
        Ok(stamped.value)
    }

    fn finish_read(
        &self,
        rt: usize,
        query: u16,
        key: u32,
        step: ReadStep<i64>,
    ) -> Result<StampedValue<i64>, CycleError<DatabaseKeyIndex>> {
        let dk = derived_key(query, key);
        match step {
            ReadStep::Done(value) => Ok(value),
            ReadStep::Wait(_) => panic!("a single thread cannot wait for another runtime"),
            ReadStep::Cycle(err) => {
                let recovered = self.recover(query, &err.cycle, key);
                err.recovered(recovered)
            }
            ReadStep::Begun(mut guard) => {
                let revision_now = self.now();
                let validated = match guard.durability() {
                    Some(durability) => {
                        let last_changed =
                            self.shared.borrow().last_changed_revision(durability);
                        guard.validate_memoized_value(
                            last_changed,
                            revision_now,
                            &|input, since| self.maybe_changed_since(rt, input, since),
                        )
                    }
                    None => None,
                };
                if let Some(value) = validated {
                    let event = guard.did_validate(&self.runtimes[rt].borrow());
                    self.events.borrow_mut().push(event);
                    self.with_slot(dk, |slot| {
                        guard.proceed(
                            slot,
                            &self.runtimes[rt].borrow(),
                            &mut self.shared.borrow_mut(),
                            &value,
                            Vec::new(),
                        )
                    });
                    return Ok(value);
                }
                let event = self.runtimes[rt]
                    .borrow_mut()
                    .prepare_query_implementation(dk);
                self.events.borrow_mut().push(event);
                let value = (self.queries[&query])(self, rt, key);
                let result = self.runtimes[rt].borrow_mut().complete_query(value);
                let recovered = if result.cycle.is_empty() {
                    None
                } else {
                    self.recover(query, &result.cycle, key)
                };
                let done = self.with_slot(dk, |slot| {
                    guard.complete::<u32, Always>(
                        slot,
                        &self.runtimes[rt].borrow(),
                        &mut self.shared.borrow_mut(),
                        &key,
                        result,
                        recovered,
                        revision_now,
                    )
                });
                done.outcome
            }
        }
    }

    fn maybe_changed_since(&self, rt: usize, input: DatabaseKeyIndex, since: Revision) -> bool {
        self.asked.borrow_mut().push(input);
        if input.query_index() == INPUTS {
            let (_, _, changed_at) = self.inputs.borrow()[&input.key_index()];
            return changed_at > since;
        }
        let step = self.with_slot(input, |slot| {
            slot.maybe_changed_since_inner(
                &self.runtimes[rt].borrow(),
                &mut self.shared.borrow_mut(),
                since,
            )
        });
        match step {
            MaybeChangedSinceState::Done(changed) => changed,
            MaybeChangedSinceState::Wait(_) => panic!("a single thread cannot wait"),
            MaybeChangedSinceState::Read(revision_now) => {
                let step = self.with_slot(input, |slot| {
                    slot.read_upgrade(
                        &mut self.runtimes[rt].borrow_mut(),
                        &mut self.shared.borrow_mut(),
                        revision_now,
                    )
                });
                let result = self.finish_read(rt, input.query_index(), input.key_index(), step);
                salsa::derived::slot::changed_after_read(&result, since)
            }
            MaybeChangedSinceState::Check(inputs, revision_now) => {
                let found = first_changed_input(&inputs, since, &|i, s| {
                    self.maybe_changed_since(rt, i, s)
                });
                self.with_slot(input, |slot| {
                    slot.maybe_changed_since_update(found.is_some(), revision_now)
                });
                found.is_some()
            }
        }
    }

    fn stamps(&self, key: DatabaseKeyIndex) -> StampedValue<i64> {
        self.slots.borrow()[&key].peek().expect("a memoized value")
    }
}

const A: u32 = 1;
const B: u32 = 2;
const C: u32 = 3;

const SUM: u16 = 1;
const LEN: u16 = 2;
const Q1: u16 = 3;
const Q2: u16 = 4;
const Q3: u16 = 5;
const SELF: u16 = 6;
const VOLATILE: u16 = 7;

fn sum(db: &Db, rt: usize, _key: u32) -> i64 {
    db.input(rt, A) + db.input(rt, B)
}

fn len(db: &Db, rt: usize, _key: u32) -> i64 {
    format!("{}", db.input(rt, A)).len() as i64
}

fn q1(db: &Db, rt: usize, _key: u32) -> i64 {
    let canceled = db.runtimes[rt]
        .borrow_mut()
        .is_current_revision_canceled(&db.shared.borrow());
    if canceled {
        -1
    } else {
        db.input(rt, A)
    }
}

fn q2(db: &Db, rt: usize, key: u32) -> i64 {
    db.get(rt, Q1, key).unwrap()
}

fn q3(db: &Db, rt: usize, key: u32) -> i64 {
    db.get(rt, Q2, key).unwrap()
}

fn selfish(db: &Db, rt: usize, key: u32) -> i64 {
    match db.get(rt, SELF, key) {
        Ok(v) => v,
        Err(_) => -7,
    }
}

fn volatile(db: &Db, rt: usize, _key: u32) -> i64 {
    db.runtimes[rt]
        .borrow_mut()
        .report_untracked_read(&db.shared.borrow());
    db.input(rt, A)
}

fn database() -> Db {
    let mut db = Db::new();
    db.queries.insert(SUM, sum);
    db.queries.insert(LEN, len);
    db.queries.insert(Q1, q1);
    db.queries.insert(Q2, q2);
    db.queries.insert(Q3, q3);
    db.queries.insert(SELF, selfish);
    db.queries.insert(VOLATILE, volatile);
    db
}

#[test]
fn simple_reuse() {
    let db = database();
    db.set(A, 1, Durability::LOW);
    db.set(B, 2, Durability::LOW);
    let key = derived_key(SUM, 0);
    assert_eq!(db.get(0, SUM, 0), Ok(3));
    assert_eq!(db.executions(key), 1);
    assert_eq!(db.validations(key), 0);

    // Read again in the same revision: the memo is current as it stands.
    assert_eq!(db.get(0, SUM, 0), Ok(3));
    assert_eq!(db.executions(key), 1);
    assert_eq!(db.validations(key), 0);

    // A write that `sum` does not depend on begins a new revision: the second
    // read validates the inputs and reuses the value.
    db.set(C, 9, Durability::LOW);
    assert_eq!(db.get(0, SUM, 0), Ok(3));
    assert_eq!(db.executions(key), 1);
    assert_eq!(db.validations(key), 1);
    assert_eq!(
        db.events.borrow().len(),
        2,
        "one WillExecute and one DidValidateMemoizedValue"
    );
    assert_eq!(*db.asked.borrow(), vec![input_key(A), input_key(B)]);
    assert_eq!(db.stamps(key).changed_at, Revision::from(3));
}

#[test]
fn simple_reuse_records_inputs_in_order() {
    let db = database();
    db.set(A, 1, Durability::LOW);
    db.set(B, 2, Durability::HIGH);
    assert_eq!(db.get(0, SUM, 0), Ok(3));
    let slots = db.slots.borrow();
    match slots[&derived_key(SUM, 0)].query_state() {
        QueryState::Memoized(memo) => {
            assert_eq!(memo.value, Some(3));
            assert_eq!(memo.revisions.durability, Durability::LOW);
            assert_eq!(memo.revisions.verified_at, Revision::from(3));
            assert_eq!(memo.revisions.changed_at, Revision::from(3));
            match &memo.revisions.inputs {
                MemoInputs::Traced { inputs } => {
                    assert_eq!(*inputs, vec![input_key(A), input_key(B)])
                }
                _ => panic!("the inputs are known"),
            }
        }
        _ => panic!("the query is memoized"),
    }
}

#[test]
fn back_date() {
    let db = database();
    db.set(A, 1, Durability::LOW);
    let key = derived_key(LEN, 0);
    assert_eq!(db.get(0, LEN, 0), Ok(1));
    let first = db.stamps(key).changed_at;
    assert_eq!(first, Revision::from(2));

    db.set(A, 2, Durability::LOW);
    assert_eq!(db.now(), Revision::from(3));
    assert_eq!(db.get(0, LEN, 0), Ok(1));
    assert_eq!(db.executions(key), 2, "the input changed: the query ran again");
    assert_eq!(db.stamps(key).changed_at, first, "the change is dated back");
    let slots = db.slots.borrow();
    match slots[&key].query_state() {
        QueryState::Memoized(memo) => {
            assert_eq!(memo.revisions.verified_at, Revision::from(3));
            assert_eq!(memo.revisions.durability, Durability::LOW);
        }
        _ => panic!("the query is memoized"),
    }
}

#[test]
fn no_back_date_when_the_value_changes() {
    let db = database();
    db.set(A, 1, Durability::LOW);
    let key = derived_key(LEN, 0);
    assert_eq!(db.get(0, LEN, 0), Ok(1));
    db.set(A, 22, Durability::LOW);
    assert_eq!(db.get(0, LEN, 0), Ok(2));
    assert_eq!(db.stamps(key).changed_at, Revision::from(3));
}

#[test]
fn no_back_date_when_durability_drops() {
    let db = database();
    db.set(A, 1, Durability::HIGH);
    let key = derived_key(LEN, 0);
    assert_eq!(db.get(0, LEN, 0), Ok(1));
    assert_eq!(db.stamps(key).durability, Durability::HIGH);
    db.set(A, 2, Durability::LOW);
    assert_eq!(db.get(0, LEN, 0), Ok(1));
    assert_eq!(db.stamps(key).durability, Durability::LOW);
    assert_eq!(
        db.stamps(key).changed_at,
        Revision::from(3),
        "a less durable value is never dated back"
    );
}

#[test]
fn no_back_date_across_cancellation() {
    let db = database();
    db.set(A, 5, Durability::LOW);
    let r1 = db.now();

    // A write is announced while the queries run: they see the cancellation.
    db.shared.borrow_mut().begin_increment();
    assert_eq!(db.get(0, Q3, 0), Ok(-1));
    match db.slots.borrow()[&derived_key(Q1, 0)].query_state() {
        QueryState::Memoized(memo) => {
            assert!(matches!(memo.revisions.inputs, MemoInputs::Untracked));
            assert_eq!(memo.revisions.changed_at, r1);
            assert_eq!(memo.revisions.durability, Durability::LOW);
        }
        _ => panic!("the query is memoized"),
    }
    let r2 = db.shared.borrow_mut().finish_increment(None);
    assert_eq!(r2, r1.next());

    // No cancellation in the next revision.
    assert_eq!(db.get(0, Q3, 0), Ok(5));
    assert_eq!(db.stamps(derived_key(Q1, 0)).changed_at, r2);
    assert_eq!(db.executions(derived_key(Q1, 0)), 2);
    assert_eq!(db.executions(derived_key(Q2, 0)), 2);
    assert_eq!(db.executions(derived_key(Q3, 0)), 2);
}

#[test]
fn anonymous_read_dates_an_uncanceled_query_to_the_pending_revision() {
    let db = database();
    db.set(A, 5, Durability::LOW);
    db.set(C, 1, Durability::LOW);
    db.set(C, 2, Durability::LOW);
    // `a` last changed in revision 2, the database is in revision 4.
    assert_eq!(db.get(0, Q1, 0), Ok(5));
    assert_eq!(db.stamps(derived_key(Q1, 0)).changed_at, Revision::from(4));
}

fn recover_with_zero(_cycle: &[DatabaseKeyIndex], _key: u32) -> Option<i64> {
    Some(0)
}

#[test]
fn self_cycle() {
    let db = database();
    let key = derived_key(SELF, 4);
    let err = db.get(0, SELF, 4).unwrap_err();
    assert_eq!(err.cycle, vec![key]);
    assert!(matches!(
        db.slots.borrow()[&key].query_state(),
        QueryState::NotComputed
    ));
    assert_eq!(db.runtimes[0].borrow().active_query(), None);
}

#[test]
fn self_cycle_with_recovery() {
    let mut db = database();
    db.recover.insert(SELF, recover_with_zero);
    assert_eq!(db.get(0, SELF, 4), Ok(0));
    match db.slots.borrow()[&derived_key(SELF, 4)].query_state() {
        QueryState::Memoized(memo) => assert_eq!(memo.value, Some(0)),
        _ => panic!("the recovered value is memoized"),
    };
}

#[test]
fn cross_thread_cycle() {
    let mut shared = SharedState::new();
    let mut first = Runtime::new();
    let mut second = first.snapshot(&mut shared);
    assert_eq!(second.id(), RuntimeId { counter: 1 });
    let qa = derived_key(10, 0);
    let qb = derived_key(11, 0);
    let mut slot_a: Slot<i64> = Slot::new(qa);
    let mut slot_b: Slot<i64> = Slot::new(qb);

    // Each runtime begins one of the queries.
    assert!(matches!(slot_a.read(&mut first, &mut shared), ReadStep::Begun(_)));
    first.prepare_query_implementation(qa);
    assert!(matches!(slot_b.read(&mut second, &mut shared), ReadStep::Begun(_)));
    second.prepare_query_implementation(qb);

    // The first reads the query of the second and goes to sleep.
    match slot_b.read(&mut first, &mut shared) {
        ReadStep::Wait(other) => assert_eq!(other, second.id()),
        _ => panic!("the first runtime waits"),
    }
    match slot_b.query_state() {
        QueryState::InProgress { id, .. } => {
            assert_eq!(*id, second.id());
            assert_eq!(slot_b.waiters(), vec![first.id()]);
        }
        _ => panic!("the query is in progress"),
    }
    assert!(!shared.dependency_graph().can_add_edge(second.id(), first.id()));

    // The second reads the query of the first: that would close the cycle.
    match slot_a.read(&mut second, &mut shared) {
        ReadStep::Cycle(err) => {
            assert_eq!(err.cycle, vec![qa, qb, qa]);
            assert_eq!(err.changed_at, Revision::start());
            assert_eq!(err.durability, Durability::MAX);
        }
        _ => panic!("the second runtime finds the cycle"),
    }
    match slot_a.query_state() {
        QueryState::InProgress { id, .. } => {
            assert_eq!(*id, first.id());
            assert!(slot_a.waiters().is_empty());
        }
        _ => panic!("the query is still in progress"),
    }
    // The frame of the second runtime was given the cycle.
    let result = second.complete_query(0i64);
    assert_eq!(result.cycle, vec![qa, qb, qa]);
}

#[test]
fn eviction_safety() {
    let db = database();
    db.set(A, 1, Durability::LOW);
    db.set(B, 2, Durability::LOW);
    let traced = derived_key(SUM, 0);
    let untracked = derived_key(VOLATILE, 0);
    assert_eq!(db.get(0, SUM, 0), Ok(3));
    assert_eq!(db.get(0, VOLATILE, 0), Ok(1));

    db.with_slot(untracked, |slot| slot.evict());
    match db.slots.borrow()[&untracked].query_state() {
        QueryState::Memoized(memo) => {
            assert_eq!(memo.value, Some(1));
            assert!(matches!(memo.revisions.inputs, MemoInputs::Untracked));
        }
        _ => panic!("the memo stays"),
    }

    db.with_slot(traced, |slot| slot.evict());
    match db.slots.borrow()[&traced].query_state() {
        QueryState::Memoized(memo) => {
            assert_eq!(memo.value, None);
            assert!(matches!(memo.revisions.inputs, MemoInputs::Traced { .. }));
        }
        _ => panic!("the record of the inputs stays"),
    }

    // In a later revision the next read looks at the inputs, then executes.
    db.set(C, 0, Durability::LOW);
    db.asked.borrow_mut().clear();
    assert_eq!(db.get(0, SUM, 0), Ok(3));
    assert_eq!(*db.asked.borrow(), vec![input_key(A), input_key(B)]);
    assert_eq!(db.executions(traced), 2);
    assert_eq!(db.validations(traced), 0);
}

#[test]
fn eviction_in_the_same_revision_re_executes() {
    let db = database();
    db.set(A, 1, Durability::LOW);
    db.set(B, 2, Durability::LOW);
    assert_eq!(db.get(0, SUM, 0), Ok(3));
    db.with_slot(derived_key(SUM, 0), |slot| slot.evict());
    assert_eq!(db.get(0, SUM, 0), Ok(3));
    assert_eq!(db.executions(derived_key(SUM, 0)), 2);
}

#[test]
fn untracked_query_runs_again_in_every_revision() {
    let db = database();
    db.set(A, 1, Durability::HIGH);
    assert_eq!(db.get(0, VOLATILE, 0), Ok(1));
    assert_eq!(db.get(0, VOLATILE, 0), Ok(1));
    assert_eq!(db.executions(derived_key(VOLATILE, 0)), 1);
    db.set(C, 0, Durability::LOW);
    assert_eq!(db.get(0, VOLATILE, 0), Ok(1));
    assert_eq!(db.executions(derived_key(VOLATILE, 0)), 2);
}

#[test]
fn durable_memo_is_reused_without_asking_its_inputs() {
    let db = database();
    db.set(A, 1, Durability::HIGH);
    db.set(B, 2, Durability::HIGH);
    assert_eq!(db.get(0, SUM, 0), Ok(3));
    db.set(C, 0, Durability::LOW);
    assert_eq!(db.get(0, SUM, 0), Ok(3));
    assert!(db.asked.borrow().is_empty());
    assert_eq!(db.validations(derived_key(SUM, 0)), 1);
    assert_eq!(db.executions(derived_key(SUM, 0)), 1);
}

#[test]
fn sweep_everything_forces_recomputation() {
    let db = database();
    db.set(A, 1, Durability::LOW);
    db.set(B, 2, Durability::LOW);
    assert_eq!(db.get(0, SUM, 0), Ok(3));
    let now = db.now();
    db.with_slot(derived_key(SUM, 0), |slot| {
        slot.sweep(now, SweepStrategy::discard_outdated())
    });
    assert_eq!(db.get(0, SUM, 0), Ok(3));
    assert_eq!(
        db.executions(derived_key(SUM, 0)),
        1,
        "a memo verified in the current revision is not outdated"
    );
    db.with_slot(derived_key(SUM, 0), |slot| {
        slot.sweep(now, SweepStrategy::default().discard_everything().sweep_all_revisions())
    });
    assert!(matches!(
        db.slots.borrow()[&derived_key(SUM, 0)].query_state(),
        QueryState::NotComputed
    ));
    assert_eq!(db.get(0, SUM, 0), Ok(3));
    assert_eq!(db.executions(derived_key(SUM, 0)), 2);
}

#[test]
fn invalidate_forces_recomputation_in_the_next_revision() {
    let db = database();
    db.set(A, 1, Durability::HIGH);
    db.set(B, 2, Durability::HIGH);
    assert_eq!(db.get(0, SUM, 0), Ok(3));
    let durability = db.with_slot(derived_key(SUM, 0), |slot| slot.invalidate());
    assert_eq!(durability, Some(Durability::HIGH));
    db.runtimes[0]
        .borrow_mut()
        .synthetic_write(&mut db.shared.borrow_mut(), Durability::HIGH);
    assert_eq!(db.get(0, SUM, 0), Ok(3));
    assert_eq!(db.executions(derived_key(SUM, 0)), 2);
}
