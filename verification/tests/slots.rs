use salsa::derived::slot::changed_after_wait;
use salsa::derived::slot::first_changed_input;
use salsa::derived::slot::MaybeChangedSinceState;
use salsa::derived::slot::Memo;
use salsa::derived::slot::MemoInputs;
use salsa::derived::slot::MemoRevisions;
use salsa::derived::slot::PanicGuard;
use salsa::derived::slot::QueryState;
use salsa::derived::slot::ReadStep;
use salsa::derived::slot::Slot;
use salsa::derived::slot::WaitResult;
use salsa::runtime::ComputedQueryResult;
use salsa::runtime::SharedState;
use salsa::runtime::StampedValue;
use salsa::CycleError;
use salsa::DatabaseKeyIndex;
use salsa::Durability;
use salsa::EventKind;
use salsa::Revision;
use salsa::Runtime;
use salsa::SweepStrategy;
use std::cell::RefCell;

fn k(i: u32) -> DatabaseKeyIndex {
    DatabaseKeyIndex::new(0, 1, i)
}

fn rev(g: u64) -> Revision {
    Revision::from(g)
}

/// A database in revision 3 whose high durability last changed in revision 2.
fn clock() -> (SharedState, Runtime) {
    let mut shared = SharedState::new();
    let mut runtime = Runtime::new();
    runtime.synthetic_write(&mut shared, Durability::HIGH);
    runtime.synthetic_write(&mut shared, Durability::LOW);
    (shared, runtime)
}

/// Puts a memo into a fresh slot by running a computation to its end.
fn memoized(
    shared: &mut SharedState,
    runtime: &mut Runtime,
    value: i64,
    durability: Durability,
    changed_at: Revision,
    dependencies: Option<Vec<DatabaseKeyIndex>>,
    keep: bool,
) -> Slot<i64> {
    let mut slot = Slot::new(k(0));
    let guard = match slot.read(runtime, shared) {
        ReadStep::Begun(guard) => guard,
        _ => panic!("a fresh slot is taken on"),
    };
    let result = ComputedQueryResult { value, durability, changed_at, dependencies, cycle: vec![] };
    let now = shared.current_revision();
    let done = guard.complete_with(&mut slot, runtime, shared, result, None, false, keep, now);
    assert!(done.outcome.is_ok());
    slot
}

fn memo_of(slot: &Slot<i64>) -> &Memo<i64> {
    match slot.query_state() {
        QueryState::Memoized(memo) => memo,
        _ => panic!("the slot holds a memo"),
    }
}

#[test]
fn a_fresh_slot() {
    let (shared, _) = clock();
    let slot: Slot<i64> = Slot::new(k(3));
    assert_eq!(slot.database_key_index(), k(3));
    assert!(matches!(slot.query_state(), QueryState::NotComputed));
    assert!(slot.peek().is_none());
    assert_eq!(slot.durability(&shared), Durability::LOW);
}

#[test]
fn completion_memoizes_with_the_stamps_of_the_run() {
    let (mut shared, mut runtime) = clock();
    let slot = memoized(&mut shared, &mut runtime, 5, Durability::MEDIUM, rev(2), Some(vec![k(1), k(2)]), true);
    let memo = memo_of(&slot);
    assert_eq!(memo.value, Some(5));
    assert_eq!(memo.revisions.verified_at, rev(3));
    assert_eq!(memo.revisions.changed_at, rev(2));
    assert_eq!(memo.revisions.durability, Durability::MEDIUM);
    match &memo.revisions.inputs {
        MemoInputs::Traced { inputs } => assert_eq!(*inputs, vec![k(1), k(2)]),
        _ => panic!("the inputs are known"),
    }
    let stamped = slot.peek().unwrap();
    assert_eq!((stamped.value, stamped.durability, stamped.changed_at), (5, Durability::MEDIUM, rev(2)));
}

#[test]
fn what_was_read_decides_the_kind_of_inputs() {
    let (mut shared, mut runtime) = clock();
    let none = memoized(&mut shared, &mut runtime, 5, Durability::HIGH, rev(1), Some(vec![]), true);
    assert!(matches!(memo_of(&none).revisions.inputs, MemoInputs::NoInputs));
    let unknown = memoized(&mut shared, &mut runtime, 5, Durability::LOW, rev(3), None, true);
    assert!(matches!(memo_of(&unknown).revisions.inputs, MemoInputs::Untracked));
    let unkept = memoized(&mut shared, &mut runtime, 5, Durability::LOW, rev(3), Some(vec![k(1)]), false);
    assert_eq!(memo_of(&unkept).value, None);
    assert!(matches!(memo_of(&unkept).revisions.inputs, MemoInputs::Traced { .. }));
    assert!(unkept.peek().is_none());
}

#[test]
fn durability_of_a_slot() {
    let (mut shared, mut runtime) = clock();
    let slot = memoized(&mut shared, &mut runtime, 5, Durability::HIGH, rev(1), Some(vec![k(1)]), true);
    assert_eq!(slot.durability(&shared), Durability::HIGH);
    runtime.synthetic_write(&mut shared, Durability::MEDIUM);
    assert_eq!(slot.durability(&shared), Durability::HIGH);
    runtime.synthetic_write(&mut shared, Durability::HIGH);
    assert_eq!(slot.durability(&shared), Durability::LOW);
}

#[test]
fn evict_drops_the_value_unless_the_inputs_are_untracked() {
    let (mut shared, mut runtime) = clock();
    let mut known = memoized(&mut shared, &mut runtime, 5, Durability::LOW, rev(3), Some(vec![k(1)]), true);
    known.evict();
    assert_eq!(memo_of(&known).value, None);
    assert_eq!(memo_of(&known).revisions.verified_at, rev(3));
    let mut unknown = memoized(&mut shared, &mut runtime, 5, Durability::LOW, rev(3), None, true);
    unknown.evict();
    assert_eq!(memo_of(&unknown).value, Some(5));
    let mut fresh: Slot<i64> = Slot::new(k(0));
    fresh.evict();
    assert!(matches!(fresh.query_state(), QueryState::NotComputed));
}

#[test]
fn invalidate_makes_the_inputs_untracked() {
    let (mut shared, mut runtime) = clock();
    let mut slot = memoized(&mut shared, &mut runtime, 5, Durability::MEDIUM, rev(2), Some(vec![k(1)]), true);
    assert_eq!(slot.invalidate(), Some(Durability::MEDIUM));
    assert!(matches!(memo_of(&slot).revisions.inputs, MemoInputs::Untracked));
    assert_eq!(memo_of(&slot).value, Some(5));
    assert_eq!(memo_of(&slot).revisions.changed_at, rev(2));
    let mut fresh: Slot<i64> = Slot::new(k(0));
    assert_eq!(fresh.invalidate(), None);
}

fn sweep_one(
    deps: Option<Vec<DatabaseKeyIndex>>,
    later: bool,
    strategy: SweepStrategy,
) -> Slot<i64> {
    let (mut shared, mut runtime) = clock();
    let mut slot = memoized(&mut shared, &mut runtime, 5, Durability::LOW, rev(3), deps, true);
    if later {
        runtime.synthetic_write(&mut shared, Durability::LOW);
    }
    slot.sweep(shared.current_revision(), strategy);
    slot
}

#[test]
fn sweep_policy() {
    let values = SweepStrategy::default().discard_values();
    let everything = SweepStrategy::default().discard_everything();
    let known = || Some(vec![k(1)]);

    // `Never` keeps everything.
    assert_eq!(memo_of(&sweep_one(known(), true, everything)).value, Some(5));
    // `Outdated` keeps what was verified in the current revision.
    assert_eq!(memo_of(&sweep_one(known(), false, values.sweep_outdated())).value, Some(5));
    assert_eq!(memo_of(&sweep_one(known(), true, values.sweep_outdated())).value, None);
    assert!(matches!(
        sweep_one(known(), true, everything.sweep_outdated()).query_state(),
        QueryState::NotComputed
    ));
    // `Always` discards current entries too...
    assert_eq!(memo_of(&sweep_one(known(), false, values.sweep_all_revisions())).value, None);
    assert!(matches!(
        sweep_one(known(), false, everything.sweep_all_revisions()).query_state(),
        QueryState::NotComputed
    ));
    // ...unless their inputs are untracked.
    assert_eq!(memo_of(&sweep_one(None, false, values.sweep_all_revisions())).value, Some(5));
    assert_eq!(memo_of(&sweep_one(None, false, everything.sweep_all_revisions())).value, Some(5));
    assert_eq!(memo_of(&sweep_one(None, true, values.sweep_all_revisions())).value, None);
    assert!(matches!(
        sweep_one(None, true, everything.sweep_outdated()).query_state(),
        QueryState::NotComputed
    ));
    // Discarding nothing discards nothing.
    assert_eq!(
        memo_of(&sweep_one(known(), true, SweepStrategy::default().sweep_all_revisions())).value,
        Some(5)
    );
}

#[test]
fn a_slot_in_progress_is_never_swept() {
    let (mut shared, mut runtime) = clock();
    let mut slot: Slot<i64> = Slot::new(k(0));
    assert!(matches!(slot.read(&mut runtime, &mut shared), ReadStep::Begun(_)));
    slot.sweep(rev(3), SweepStrategy::default().discard_everything().sweep_all_revisions());
    slot.evict();
    assert_eq!(slot.invalidate(), None);
    match slot.query_state() {
        QueryState::InProgress { id, .. } => {
            assert_eq!(*id, runtime.id());
            assert!(slot.waiters().is_empty());
        }
        _ => panic!("the slot is in progress"),
    }
}

#[test]
fn back_dating() {
    let run = |old_durability: Durability,
               new_durability: Durability,
               new_changed_at: u64,
               equal: bool| {
        let (mut shared, mut runtime) = clock();
        let mut slot = memoized(&mut shared, &mut runtime, 5, old_durability, rev(2), Some(vec![k(1)]), true);
        runtime.synthetic_write(&mut shared, Durability::LOW);
        let guard = match slot.read(&mut runtime, &mut shared) {
            ReadStep::Begun(guard) => guard,
            _ => panic!("a stale slot is taken on"),
        };
        assert_eq!(guard.durability(), Some(old_durability));
        let result = ComputedQueryResult {
            value: 6,
            durability: new_durability,
            changed_at: rev(new_changed_at),
            dependencies: Some(vec![k(2)]),
            cycle: vec![],
        };
        let done = guard.complete_with(&mut slot, &runtime, &mut shared, result, None, equal, true, rev(4));
        let stamped = done.outcome.unwrap();
        assert_eq!(stamped.value, 6);
        assert_eq!(stamped.durability, new_durability);
        assert_eq!(memo_of(&slot).revisions.verified_at, rev(4));
        assert_eq!(memo_of(&slot).revisions.changed_at, stamped.changed_at);
        assert_eq!(memo_of(&slot).revisions.durability, new_durability);
        stamped.changed_at
    };
    assert_eq!(run(Durability::MEDIUM, Durability::MEDIUM, 4, true), rev(2));
    assert_eq!(run(Durability::MEDIUM, Durability::HIGH, 4, true), rev(2));
    assert_eq!(run(Durability::MEDIUM, Durability::LOW, 4, true), rev(4));
    assert_eq!(run(Durability::MEDIUM, Durability::MEDIUM, 4, false), rev(4));
    assert_eq!(run(Durability::MEDIUM, Durability::MEDIUM, 1, true), rev(1));
}

#[test]
fn no_back_dating_to_a_memo_without_value() {
    let (mut shared, mut runtime) = clock();
    let mut slot = memoized(&mut shared, &mut runtime, 5, Durability::LOW, rev(2), Some(vec![k(1)]), false);
    runtime.synthetic_write(&mut shared, Durability::LOW);
    let guard = match slot.read(&mut runtime, &mut shared) {
        ReadStep::Begun(guard) => guard,
        _ => panic!("a stale slot is taken on"),
    };
    let result = ComputedQueryResult {
        value: 5,
        durability: Durability::LOW,
        changed_at: rev(4),
        dependencies: Some(vec![k(1)]),
        cycle: vec![],
    };
    let done = guard.complete_with(&mut slot, &runtime, &mut shared, result, None, true, true, rev(4));
    assert_eq!(done.outcome.unwrap().changed_at, rev(4));
}

#[test]
fn waiters_are_told_the_result() {
    let mut shared = SharedState::new();
    let mut owner = Runtime::new();
    let mut reader = owner.snapshot(&mut shared);
    let mut other = owner.snapshot(&mut shared);
    let mut slot: Slot<i64> = Slot::new(k(0));
    let guard = match slot.read(&mut owner, &mut shared) {
        ReadStep::Begun(guard) => guard,
        _ => panic!("a fresh slot is taken on"),
    };
    assert!(matches!(slot.read(&mut reader, &mut shared), ReadStep::Wait(id) if id == owner.id()));
    assert!(matches!(slot.read(&mut other, &mut shared), ReadStep::Wait(id) if id == owner.id()));
    let event = slot.will_block_on(&reader, owner.id());
    assert_eq!(event.runtime_id, reader.id());
    assert_eq!(
        event.kind,
        EventKind::WillBlockOn { other_runtime_id: owner.id(), database_key: k(0) }
    );
    assert!(!shared.dependency_graph().can_add_edge(owner.id(), reader.id()));

    let result = ComputedQueryResult {
        value: 8,
        durability: Durability::HIGH,
        changed_at: rev(1),
        dependencies: Some(vec![]),
        cycle: vec![],
    };
    let done = guard.complete_with(&mut slot, &owner, &mut shared, result, None, false, true, rev(1));
    assert_eq!(done.waiters, vec![reader.id(), other.id()]);
    let told = done.notify.unwrap();
    assert_eq!(told.value.value, 8);
    assert!(told.cycle.is_empty());
    assert!(shared.dependency_graph().can_add_edge(owner.id(), reader.id()));
    assert!(shared.dependency_graph().can_add_edge(owner.id(), other.id()));
    assert!(!changed_after_wait(&told, rev(1)));
    let got = slot.wait_for_value(&mut reader, told).unwrap();
    assert_eq!((got.value, got.durability, got.changed_at), (8, Durability::HIGH, rev(1)));
    assert!(matches!(slot.read(&mut reader, &mut shared), ReadStep::Done(v) if v.value == 8));
}

#[test]
fn a_waiter_told_of_a_cycle_marks_its_frames() {
    let mut reader = Runtime::new();
    reader.prepare_query_implementation(k(1));
    let slot: Slot<i64> = Slot::new(k(0));
    let told = WaitResult {
        value: StampedValue { value: 0i64, durability: Durability::LOW, changed_at: rev(3) },
        cycle: vec![k(0), k(1)],
    };
    assert!(changed_after_wait(&told, rev(5)));
    let err = slot.wait_for_value(&mut reader, told).unwrap_err();
    assert_eq!(err, CycleError { cycle: vec![k(0), k(1)], changed_at: rev(3), durability: Durability::LOW });
    assert_eq!(reader.complete_query(()).cycle, vec![k(0), k(1)]);
    let recovered = err.clone().recovered(Some(4i64)).unwrap();
    assert_eq!((recovered.value, recovered.durability, recovered.changed_at), (4, Durability::LOW, rev(3)));
    assert_eq!(err.clone().recovered(None::<i64>).unwrap_err(), err);
}

#[test]
fn a_cycle_without_recovery_leaves_the_slot_not_computed() {
    let mut shared = SharedState::new();
    let mut owner = Runtime::new();
    let mut reader = owner.snapshot(&mut shared);
    let mut slot: Slot<i64> = Slot::new(k(0));
    let guard = match slot.read(&mut owner, &mut shared) {
        ReadStep::Begun(guard) => guard,
        _ => panic!("a fresh slot is taken on"),
    };
    assert!(matches!(slot.read(&mut reader, &mut shared), ReadStep::Wait(_)));
    let result = ComputedQueryResult {
        value: 8,
        durability: Durability::MEDIUM,
        changed_at: rev(1),
        dependencies: Some(vec![]),
        cycle: vec![k(0), k(5)],
    };
    let done = guard.complete_with(&mut slot, &owner, &mut shared, result, None, false, true, rev(1));
    assert_eq!(
        done.outcome.clone().unwrap_err(),
        CycleError { cycle: vec![k(0), k(5)], changed_at: rev(1), durability: Durability::MEDIUM }
    );
    assert!(done.notify.is_none());
    assert_eq!(done.waiters, vec![reader.id()]);
    assert!(matches!(slot.query_state(), QueryState::NotComputed));
    assert!(shared.dependency_graph().can_add_edge(owner.id(), reader.id()));

    // The runtime that waited is told the cycle and marks its frames.
    reader.prepare_query_implementation(k(5));
    let err = slot.wait_for_cycle(&mut reader, done.outcome.unwrap_err());
    assert_eq!(err.cycle, vec![k(0), k(5)]);
    assert_eq!(reader.complete_query(()).cycle, vec![k(0), k(5)]);
}

#[test]
fn a_recovered_cycle_is_memoized_and_passed_on() {
    let mut shared = SharedState::new();
    let mut owner = Runtime::new();
    let mut slot: Slot<i64> = Slot::new(k(0));
    let guard = match slot.read(&mut owner, &mut shared) {
        ReadStep::Begun(guard) => guard,
        _ => panic!("a fresh slot is taken on"),
    };
    let result = ComputedQueryResult {
        value: 8,
        durability: Durability::MEDIUM,
        changed_at: rev(1),
        dependencies: Some(vec![]),
        cycle: vec![k(0), k(5)],
    };
    let done = guard.complete_with(&mut slot, &owner, &mut shared, result, Some(-1), false, true, rev(1));
    assert_eq!(done.outcome.unwrap().value, -1);
    assert_eq!(done.notify.unwrap().cycle, vec![k(0), k(5)]);
    assert_eq!(memo_of(&slot).value, Some(-1));
}

#[test]
fn a_panic_leaves_the_slot_not_computed() {
    let (mut shared, mut runtime) = clock();
    let mut slot = memoized(&mut shared, &mut runtime, 5, Durability::LOW, rev(3), Some(vec![k(1)]), true);
    runtime.synthetic_write(&mut shared, Durability::LOW);
    let mut reader = runtime.snapshot(&mut shared);
    let guard = match slot.read(&mut runtime, &mut shared) {
        ReadStep::Begun(guard) => guard,
        _ => panic!("a stale slot is taken on"),
    };
    assert!(matches!(slot.read(&mut reader, &mut shared), ReadStep::Wait(_)));
    let waiters = guard.abandon(&mut slot, &runtime, &mut shared);
    assert_eq!(waiters, vec![reader.id()]);
    assert!(matches!(slot.query_state(), QueryState::NotComputed));
    assert!(shared.dependency_graph().can_add_edge(runtime.id(), reader.id()));
}

fn guard_with(inputs: MemoInputs, value: Option<i64>) -> PanicGuard<i64> {
    PanicGuard {
        database_key_index: k(0),
        memo: Some(Memo {
            value,
            revisions: MemoRevisions {
                verified_at: rev(3),
                changed_at: rev(2),
                durability: Durability::MEDIUM,
                inputs,
            },
        }),
    }
}

#[test]
fn validation() {
    let asked = RefCell::new(Vec::new());
    let changed_is_2 = |input: DatabaseKeyIndex, since: Revision| {
        asked.borrow_mut().push((input, since));
        input == k(2)
    };
    let never = |input: DatabaseKeyIndex, since: Revision| {
        asked.borrow_mut().push((input, since));
        false
    };
    let known = || MemoInputs::Traced { inputs: vec![k(1), k(2), k(3)] };

    // The durability settles it: nobody is asked.
    let mut guard = guard_with(known(), Some(5));
    let value = guard.validate_memoized_value(rev(3), rev(6), &changed_is_2).unwrap();
    assert_eq!((value.value, value.durability, value.changed_at), (5, Durability::MEDIUM, rev(2)));
    assert_eq!(guard.memo.as_ref().unwrap().revisions.verified_at, rev(6));
    assert!(asked.borrow().is_empty());

    // The inputs are asked in order, since the last verification, up to the
    // first that changed.
    let mut guard = guard_with(known(), Some(5));
    assert!(guard.validate_memoized_value(rev(4), rev(6), &changed_is_2).is_none());
    assert_eq!(guard.memo.as_ref().unwrap().revisions.verified_at, rev(3));
    assert_eq!(*asked.borrow(), vec![(k(1), rev(3)), (k(2), rev(3))]);
    asked.borrow_mut().clear();

    let mut guard = guard_with(known(), Some(5));
    assert!(guard.validate_memoized_value(rev(4), rev(6), &never).is_some());
    assert_eq!(guard.memo.as_ref().unwrap().revisions.verified_at, rev(6));
    assert_eq!(asked.borrow().len(), 3);
    asked.borrow_mut().clear();

    // Untracked inputs cannot be validated; no inputs are always valid.
    let mut guard = guard_with(MemoInputs::Untracked, Some(5));
    assert!(guard.validate_memoized_value(rev(4), rev(6), &never).is_none());
    assert_eq!(guard.memo.as_ref().unwrap().revisions.verified_at, rev(3));
    let mut guard = guard_with(MemoInputs::Untracked, Some(5));
    assert!(guard.validate_memoized_value(rev(3), rev(6), &never).is_some());
    let mut guard = guard_with(MemoInputs::NoInputs, Some(5));
    assert!(guard.validate_memoized_value(rev(4), rev(6), &never).is_some());
    assert!(asked.borrow().is_empty());

    // Without a value there is nothing to reuse, but the inputs are looked at.
    let mut guard = guard_with(known(), None);
    assert!(guard.validate_memoized_value(rev(4), rev(6), &never).is_none());
    assert_eq!(guard.memo.as_ref().unwrap().revisions.verified_at, rev(6));
    assert_eq!(asked.borrow().len(), 3);

    let mut guard: PanicGuard<i64> = PanicGuard { database_key_index: k(0), memo: None };
    assert_eq!(guard.durability(), None);
    assert!(guard.validate_memoized_value(rev(4), rev(6), &never).is_none());
}

#[test]
fn first_changed_input_stops_at_the_first() {
    let inputs = vec![k(1), k(2), k(3), k(2)];
    assert_eq!(first_changed_input(&inputs, rev(1), &|i, _| i == k(2)), Some(1));
    assert_eq!(first_changed_input(&inputs, rev(1), &|i, _| i == k(3)), Some(2));
    assert_eq!(first_changed_input(&inputs, rev(1), &|_, _| false), None);
    assert_eq!(first_changed_input(&inputs, rev(1), &|_, since| since == rev(1)), Some(0));
    assert_eq!(first_changed_input(&vec![], rev(1), &|_, _| true), None);
}

fn changed_since(slot: &mut Slot<i64>, shared: &mut SharedState, runtime: &Runtime, since: u64) -> MaybeChangedSinceState {
    slot.maybe_changed_since_inner(runtime, shared, rev(since))
}

#[test]
fn maybe_changed_since() {
    let (mut shared, mut runtime) = clock();
    // Nothing is known: it may have changed.
    let mut fresh: Slot<i64> = Slot::new(k(0));
    assert!(matches!(changed_since(&mut fresh, &mut shared, &runtime, 1), MaybeChangedSinceState::Done(true)));

    // Verified in the current revision: judged by the revision of the change.
    let mut slot = memoized(&mut shared, &mut runtime, 5, Durability::MEDIUM, rev(2), Some(vec![k(1)]), true);
    assert!(matches!(changed_since(&mut slot, &mut shared, &runtime, 1), MaybeChangedSinceState::Done(true)));
    assert!(matches!(changed_since(&mut slot, &mut shared, &runtime, 2), MaybeChangedSinceState::Done(false)));

    // A later revision that leaves the durability of the memo alone.
    runtime.synthetic_write(&mut shared, Durability::LOW);
    assert!(matches!(changed_since(&mut slot, &mut shared, &runtime, 2), MaybeChangedSinceState::Done(false)));
    assert_eq!(memo_of(&slot).revisions.verified_at, rev(4));

    // A change at the durability of the memo: the inputs have to be looked at.
    runtime.synthetic_write(&mut shared, Durability::MEDIUM);
    assert!(matches!(changed_since(&mut slot, &mut shared, &runtime, 2), MaybeChangedSinceState::Read(r) if r == rev(5)));
    assert_eq!(memo_of(&slot).revisions.verified_at, rev(4));
    slot.evict();
    match changed_since(&mut slot, &mut shared, &runtime, 2) {
        MaybeChangedSinceState::Check(inputs, now) => {
            assert_eq!(inputs, vec![k(1)]);
            assert_eq!(now, rev(5));
        }
        _ => panic!("the inputs are to be checked"),
    }
    match slot.maybe_changed_since(&runtime, &mut shared, rev(2), &|_, _| false) {
        MaybeChangedSinceState::Done(changed) => assert!(!changed),
        _ => panic!("the check is done"),
    }
    assert_eq!(memo_of(&slot).revisions.verified_at, rev(5));

    runtime.synthetic_write(&mut shared, Durability::MEDIUM);
    match slot.maybe_changed_since(&runtime, &mut shared, rev(2), &|_, _| true) {
        MaybeChangedSinceState::Done(changed) => assert!(changed),
        _ => panic!("the check is done"),
    }
    assert!(matches!(slot.query_state(), QueryState::NotComputed));
}

#[test]
fn maybe_changed_since_answers_at_once_where_nothing_has_to_be_asked() {
    let (mut shared, mut runtime) = clock();
    let asked = RefCell::new(0);
    let count = |_: DatabaseKeyIndex, _: Revision| {
        *asked.borrow_mut() += 1;
        false
    };
    let mut fresh: Slot<i64> = Slot::new(k(0));
    assert!(matches!(
        fresh.maybe_changed_since(&runtime, &mut shared, rev(1), &count),
        MaybeChangedSinceState::Done(true)
    ));
    assert!(matches!(fresh.query_state(), QueryState::NotComputed));

    let mut slot = memoized(&mut shared, &mut runtime, 5, Durability::LOW, rev(2), Some(vec![k(1)]), true);
    assert!(matches!(
        slot.maybe_changed_since(&runtime, &mut shared, rev(1), &count),
        MaybeChangedSinceState::Done(true)
    ));
    assert!(matches!(
        slot.maybe_changed_since(&runtime, &mut shared, rev(2), &count),
        MaybeChangedSinceState::Done(false)
    ));
    assert!(matches!(
        slot.maybe_changed_since(&runtime, &mut shared, rev(3), &count),
        MaybeChangedSinceState::Done(false)
    ));
    assert_eq!(memo_of(&slot).value, Some(5));
    assert_eq!(memo_of(&slot).revisions.verified_at, rev(3));

    // In a later revision a memo with a value and inputs asks for a read.
    runtime.synthetic_write(&mut shared, Durability::LOW);
    assert!(matches!(
        slot.maybe_changed_since(&runtime, &mut shared, rev(2), &count),
        MaybeChangedSinceState::Read(r) if r == rev(4)
    ));
    assert_eq!(*asked.borrow(), 0);
}

#[test]
fn maybe_changed_since_with_untracked_or_no_inputs() {
    let (mut shared, mut runtime) = clock();
    let mut unknown = memoized(&mut shared, &mut runtime, 5, Durability::LOW, rev(3), None, true);
    let mut none = memoized(&mut shared, &mut runtime, 5, Durability::LOW, rev(1), Some(vec![]), true);
    runtime.synthetic_write(&mut shared, Durability::LOW);
    assert!(matches!(changed_since(&mut unknown, &mut shared, &runtime, 3), MaybeChangedSinceState::Done(true)));
    assert_eq!(memo_of(&unknown).revisions.verified_at, rev(3));
    assert!(matches!(changed_since(&mut none, &mut shared, &runtime, 3), MaybeChangedSinceState::Done(false)));
    assert_eq!(memo_of(&none).revisions.verified_at, rev(4));
}

#[test]
fn maybe_changed_since_of_a_query_in_progress() {
    let mut shared = SharedState::new();
    let mut owner = Runtime::new();
    let reader = owner.snapshot(&mut shared);
    let mut slot: Slot<i64> = Slot::new(k(0));
    assert!(matches!(slot.read(&mut owner, &mut shared), ReadStep::Begun(_)));
    // The owner itself: a cycle counts as changed.
    assert!(matches!(changed_since(&mut slot, &mut shared, &owner, 1), MaybeChangedSinceState::Done(true)));
    assert!(matches!(
        changed_since(&mut slot, &mut shared, &reader, 1),
        MaybeChangedSinceState::Wait(id) if id == owner.id()
    ));
    match slot.query_state() {
        QueryState::InProgress { .. } => assert_eq!(slot.waiters(), vec![reader.id()]),
        _ => panic!("the slot is in progress"),
    }
}

#[test]
fn the_end_of_a_check_looks_at_the_slot_again() {
    let (mut shared, mut runtime) = clock();
    let mut slot = memoized(&mut shared, &mut runtime, 5, Durability::LOW, rev(3), Some(vec![k(1)]), true);
    // Verified in the meantime: left alone even if the check says changed.
    slot.maybe_changed_since_update(true, rev(3));
    assert_eq!(memo_of(&slot).revisions.verified_at, rev(3));
    slot.maybe_changed_since_update(false, rev(4));
    assert_eq!(memo_of(&slot).revisions.verified_at, rev(4));
    slot.maybe_changed_since_update(true, rev(5));
    assert!(matches!(slot.query_state(), QueryState::NotComputed));
    slot.maybe_changed_since_update(false, rev(5));
    assert!(matches!(slot.query_state(), QueryState::NotComputed));
}

#[test]
fn verification_never_moves_back() {
    let (mut shared, mut runtime) = clock();
    let mut slot = memoized(&mut shared, &mut runtime, 5, Durability::HIGH, rev(1), Some(vec![k(1)]), true);
    let mut last = memo_of(&slot).revisions.verified_at;
    for step in 0..6 {
        runtime.synthetic_write(&mut shared, Durability::LOW);
        match step % 3 {
            0 => {
                slot.maybe_changed_since_inner(&runtime, &mut shared, rev(1));
            }
            1 => slot.sweep(shared.current_revision(), SweepStrategy::default().discard_values().sweep_outdated()),
            _ => slot.evict(),
        }
        let now = memo_of(&slot).revisions.verified_at;
        assert!(now >= last);
        assert!(now <= shared.current_revision());
        last = now;
    }
}
