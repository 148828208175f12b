use salsa::interned::InternedStorage;
use salsa::interned::LookupInternedStorage;
use salsa::runtime::SharedState;
use salsa::DatabaseKeyIndex;
use salsa::Durability;
use salsa::InternId;
use salsa::InternKey;
use salsa::Revision;
use salsa::Runtime;
use salsa::SweepStrategy;

fn id(i: u32) -> InternId {
    InternId::from_u32(i)
}

#[test]
fn intern_ids() {
    assert_eq!(InternId::MAX, 0xFFFF_FF00);
    assert_eq!(id(5).as_u32(), 5);
    assert_eq!(id(5).as_usize(), 5);
    assert_eq!(InternId::from_usize(6), id(6));
    assert_eq!(InternId::from_intern_id(id(3)), id(3));
    assert_eq!(id(3).as_intern_id(), id(3));
    assert!(id(3) < id(4));
}

#[test]
fn the_same_value_gets_the_same_id() {
    let mut storage: InternedStorage<String> = InternedStorage::new(2, 3);
    let now = Revision::start();
    let a = storage.intern_index(&"a".to_string(), now);
    let b = storage.intern_index(&"b".to_string(), now);
    let a2 = storage.intern_index(&"a".to_string(), now);
    assert_eq!(a.index, id(0));
    assert_eq!(b.index, id(1));
    assert_eq!(a2, a);
    assert_eq!(a.database_key_index, DatabaseKeyIndex::new(2, 3, 0));
    assert_eq!(b.database_key_index, DatabaseKeyIndex::new(2, 3, 1));
    assert_eq!(a.interned_at, now);
    assert_eq!(storage.peek(&"b".to_string(), now), Some(id(1)));
    assert_eq!(storage.peek(&"c".to_string(), now), None);
    assert_eq!(storage.intern_check(&"c".to_string(), now), None);
    assert_eq!(storage.durability(), Durability::HIGH);
}

#[test]
fn round_trip() {
    let mut storage: InternedStorage<u64> = InternedStorage::new(0, 0);
    let now = Revision::from(4);
    for value in [30u64, 10, 20] {
        let found = storage.intern_index(&value, now);
        assert_eq!(*storage.value(found.index), value);
        assert_eq!(storage.lookup_value(found.index, now), found);
        let value_back = *storage.value(found.index);
        assert_eq!(storage.intern_index(&value_back, now), found);
    }
    assert_eq!(storage.entries(), vec![(30, id(0)), (10, id(1)), (20, id(2))]);
    let lookup = LookupInternedStorage::new();
    assert_eq!(lookup.peek(&mut storage, id(1), now), Some(10));
    assert_eq!(lookup.durability(), Durability::HIGH);
}

#[test]
fn values_used_in_the_current_revision_are_never_collected() {
    let mut shared = SharedState::new();
    let mut runtime = Runtime::new();
    let mut storage: InternedStorage<u64> = InternedStorage::new(0, 0);
    let old = storage.intern_index(&1, shared.current_revision());
    let stale = storage.intern_index(&2, shared.current_revision());
    runtime.synthetic_write(&mut shared, Durability::HIGH);
    let now = shared.current_revision();
    // Only the first value is used again.
    assert_eq!(storage.intern_index(&1, now), old);
    let fresh = storage.intern_index(&3, now);
    for strategy in [
        SweepStrategy::discard_outdated(),
        SweepStrategy::default().discard_everything().sweep_all_revisions(),
    ] {
        storage.sweep(&shared, strategy);
        assert_eq!(storage.peek(&1, now), Some(old.index));
        assert_eq!(storage.peek(&3, now), Some(fresh.index));
        assert_eq!(storage.peek(&2, now), None);
    }
    assert_eq!(storage.entries(), vec![(1, id(0)), (3, id(2))]);
    // The place that came free is the next to be given out.
    let again = storage.intern_index(&2, now);
    assert_eq!(again.index, stale.index);
    assert_eq!(again.interned_at, now);
    assert_eq!(storage.intern_index(&4, now).index, id(3));
}

#[test]
fn a_sweep_that_never_discards_keeps_everything() {
    let mut shared = SharedState::new();
    let mut runtime = Runtime::new();
    let mut storage: InternedStorage<u64> = InternedStorage::new(0, 0);
    storage.intern_index(&1, shared.current_revision());
    runtime.synthetic_write(&mut shared, Durability::HIGH);
    storage.sweep(&shared, SweepStrategy::default());
    assert_eq!(storage.peek(&1, shared.current_revision()), Some(id(0)));
}

#[test]
fn values_survive_while_the_interning_durability_is_unchanged() {
    let mut shared = SharedState::new();
    let mut runtime = Runtime::new();
    let mut storage: InternedStorage<u64> = InternedStorage::new(0, 0);
    storage.intern_index(&1, shared.current_revision());
    runtime.synthetic_write(&mut shared, Durability::MEDIUM);
    storage.sweep(&shared, SweepStrategy::discard_outdated());
    assert_eq!(storage.entries(), vec![(1, id(0))]);
}

#[test]
fn the_free_list_gives_out_the_place_freed_last() {
    let mut shared = SharedState::new();
    let mut runtime = Runtime::new();
    let mut storage: InternedStorage<u64> = InternedStorage::new(0, 0);
    for value in 0..4u64 {
        storage.intern_index(&value, shared.current_revision());
    }
    runtime.synthetic_write(&mut shared, Durability::HIGH);
    let now = shared.current_revision();
    storage.lookup_value(id(1), now);
    storage.sweep(&shared, SweepStrategy::discard_outdated());
    assert_eq!(storage.entries(), vec![(1, id(1))]);
    assert_eq!(storage.intern_index(&10, now).index, id(3));
    assert_eq!(storage.intern_index(&11, now).index, id(2));
    assert_eq!(storage.intern_index(&12, now).index, id(0));
    assert_eq!(storage.intern_index(&13, now).index, id(4));
}

#[test]
fn interned_values_change_when_they_are_interned() {
    let mut storage: InternedStorage<u64> = InternedStorage::new(1, 2);
    let found = storage.intern_index(&7, Revision::from(3));
    let now = Revision::from(5);
    assert!(storage.maybe_changed_since(found.database_key_index, Revision::from(2), now));
    assert!(!storage.maybe_changed_since(found.database_key_index, Revision::from(3), now));
    let lookup = LookupInternedStorage::new();
    assert!(!lookup.maybe_changed_since(&mut storage, found.database_key_index, Revision::from(4), now));
}

#[test]
fn fetching_reports_the_read() {
    let mut runtime = Runtime::new();
    let mut storage: InternedStorage<u64> = InternedStorage::new(1, 2);
    let key = DatabaseKeyIndex::new(9, 9, 9);
    runtime.prepare_query_implementation(key);
    let index = storage.try_fetch(&mut runtime, &7, Revision::from(3));
    assert_eq!(index, id(0));
    let lookup = LookupInternedStorage::new();
    assert_eq!(lookup.try_fetch(&mut storage, &mut runtime, index, Revision::from(4)), 7);
    let result = runtime.complete_query(());
    assert_eq!(result.dependencies, Some(vec![DatabaseKeyIndex::new(1, 2, 0)]));
    assert_eq!(result.durability, Durability::HIGH);
    assert_eq!(result.changed_at, Revision::from(3));
}

#[test]
fn peeking_and_fetching_leave_the_other_values_alone() {
    let mut runtime = Runtime::new();
    let mut storage: InternedStorage<u64> = InternedStorage::new(0, 0);
    let first = Revision::start();
    let later = Revision::from(2);
    storage.intern_index(&1, first);
    storage.intern_index(&2, first);
    assert_eq!(storage.peek(&1, later), Some(id(0)));
    assert_eq!(storage.try_fetch(&mut runtime, &1, later), id(0));
    let lookup = LookupInternedStorage::new();
    assert_eq!(lookup.peek(&mut storage, id(0), later), Some(1));
    assert_eq!(storage.entries(), vec![(1, id(0)), (2, id(1))]);
    // Both values are still where they were, interned when they were.
    assert_eq!(storage.lookup_value(id(0), later).interned_at, first);
    assert_eq!(storage.lookup_value(id(1), later).interned_at, first);
    assert_eq!(storage.intern_index(&3, later).index, id(2));
}

#[test]
fn places_in_use() {
    let mut shared = SharedState::new();
    let mut runtime = Runtime::new();
    let mut storage: InternedStorage<u64> = InternedStorage::new(0, 0);
    assert!(storage.has_room());
    assert!(!storage.is_in_use(id(0)));
    storage.intern_index(&1, shared.current_revision());
    assert!(storage.is_in_use(id(0)));
    assert!(!storage.is_in_use(id(1)));
    runtime.synthetic_write(&mut shared, Durability::HIGH);
    storage.sweep(&shared, SweepStrategy::discard_outdated());
    assert!(!storage.is_in_use(id(0)));
    assert!(storage.has_room());
}

#[test]
fn purge_forgets_everything() {
    let mut storage: InternedStorage<u64> = InternedStorage::new(0, 0);
    storage.intern_index(&1, Revision::start());
    storage.intern_index(&2, Revision::start());
    storage.purge();
    assert!(storage.entries().is_empty());
    assert_eq!(storage.intern_index(&2, Revision::start()).index, id(0));
}
