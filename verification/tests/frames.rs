use salsa::cycle::CycleDetected;
use salsa::forker;
use salsa::runtime::SharedState;
use salsa::DatabaseKeyIndex;
use salsa::Durability;
use salsa::EventKind;
use salsa::Revision;
use salsa::Runtime;
use salsa::RuntimeId;

fn k(i: u32) -> DatabaseKeyIndex {
    DatabaseKeyIndex::new(0, 1, i)
}

#[test]
fn a_frame_gathers_what_the_query_reads() {
    let mut runtime = Runtime::new();
    let event = runtime.prepare_query_implementation(k(0));
    assert_eq!(event.runtime_id, runtime.id());
    assert_eq!(event.kind, EventKind::WillExecute { database_key: k(0) });
    assert_eq!(runtime.active_query(), Some(k(0)));
    runtime.report_query_read(k(1), Durability::HIGH, Revision::from(3));
    runtime.report_query_read(k(2), Durability::MEDIUM, Revision::from(5));
    runtime.report_query_read(k(1), Durability::HIGH, Revision::from(4));
    runtime.report_query_read(k(3), Durability::HIGH, Revision::from(2));
    let result = runtime.complete_query("value");
    assert_eq!(result.value, "value");
    assert_eq!(result.durability, Durability::MEDIUM);
    assert_eq!(result.changed_at, Revision::from(5));
    assert_eq!(result.dependencies, Some(vec![k(1), k(2), k(3)]));
    assert!(result.cycle.is_empty());
    assert_eq!(runtime.active_query(), None);
}

#[test]
fn a_fresh_frame_has_read_nothing() {
    let mut runtime = Runtime::new();
    runtime.prepare_query_implementation(k(0));
    let result = runtime.complete_query(());
    assert_eq!(result.durability, Durability::MAX);
    assert_eq!(result.changed_at, Revision::start());
    assert_eq!(result.dependencies, Some(vec![]));
}

#[test]
fn reads_go_to_the_innermost_frame_only() {
    let mut runtime = Runtime::new();
    runtime.prepare_query_implementation(k(0));
    runtime.prepare_query_implementation(k(1));
    assert_eq!(runtime.stack_path(), vec![k(0), k(1)]);
    runtime.report_query_read(k(9), Durability::LOW, Revision::from(9));
    let inner = runtime.complete_query(());
    let outer = runtime.complete_query(());
    assert_eq!(inner.dependencies, Some(vec![k(9)]));
    assert_eq!(inner.durability, Durability::LOW);
    assert_eq!(outer.dependencies, Some(vec![]));
    assert_eq!(outer.durability, Durability::HIGH);
    // Without a running query a read is recorded nowhere.
    runtime.report_query_read(k(9), Durability::LOW, Revision::from(9));
    assert_eq!(runtime.active_query(), None);
}

#[test]
fn an_untracked_read_forgets_the_dependencies() {
    let shared = SharedState::new();
    let mut runtime = Runtime::new();
    runtime.prepare_query_implementation(k(0));
    runtime.report_query_read(k(1), Durability::HIGH, Revision::from(1));
    runtime.report_untracked_read(&shared);
    runtime.report_query_read(k(2), Durability::HIGH, Revision::from(1));
    let result = runtime.complete_query(());
    assert_eq!(result.dependencies, None);
    assert_eq!(result.durability, Durability::LOW);
    assert_eq!(result.changed_at, Revision::start());
}

#[test]
fn synthetic_and_anonymous_reads() {
    let mut runtime = Runtime::new();
    runtime.prepare_query_implementation(k(0));
    runtime.report_synthetic_read(Durability::MEDIUM);
    runtime.report_anon_read(Revision::from(6));
    runtime.report_anon_read(Revision::from(4));
    let result = runtime.complete_query(());
    assert_eq!(result.durability, Durability::MEDIUM);
    assert_eq!(result.changed_at, Revision::from(6));
    assert_eq!(result.dependencies, Some(vec![]));
}

#[test]
fn cancellation_is_seen_while_a_write_is_pending() {
    let mut shared = SharedState::new();
    let mut runtime = Runtime::new();
    runtime.synthetic_write(&mut shared, Durability::LOW);
    runtime.prepare_query_implementation(k(0));
    runtime.report_query_read(k(1), Durability::HIGH, Revision::from(1));
    assert!(!runtime.is_current_revision_canceled(&shared));
    let calm = runtime.complete_query(());
    assert_eq!(calm.dependencies, Some(vec![k(1)]));
    assert_eq!(calm.changed_at, Revision::from(2));
    assert_eq!(calm.durability, Durability::HIGH);

    shared.begin_increment();
    runtime.prepare_query_implementation(k(0));
    runtime.report_query_read(k(1), Durability::HIGH, Revision::from(1));
    assert!(runtime.is_current_revision_canceled(&shared));
    let canceled = runtime.complete_query(());
    assert_eq!(canceled.dependencies, None);
    assert_eq!(canceled.changed_at, Revision::from(2));
    assert_eq!(canceled.durability, Durability::LOW);
}

#[test]
fn a_self_cycle_is_the_stack_from_the_query_up() {
    let shared = SharedState::new();
    let mut runtime = Runtime::new();
    runtime.prepare_query_implementation(k(0));
    runtime.prepare_query_implementation(k(1));
    runtime.prepare_query_implementation(k(2));
    runtime.prepare_query_implementation(k(1));
    runtime.prepare_query_implementation(k(3));
    let me = runtime.id();
    let err = runtime.report_unexpected_cycle(
        &shared,
        k(1),
        CycleDetected { from: me, to: me },
        Revision::from(4),
    );
    assert_eq!(err.cycle, vec![k(1), k(3)]);
    assert_eq!(err.changed_at, Revision::from(4));
    assert_eq!(err.durability, Durability::MAX);
    assert_eq!(runtime.complete_query(()).cycle, vec![k(1), k(3)]);
    assert_eq!(runtime.complete_query(()).cycle, vec![k(1), k(3)]);
    assert!(runtime.complete_query(()).cycle.is_empty());
    assert!(runtime.complete_query(()).cycle.is_empty());
    assert!(runtime.complete_query(()).cycle.is_empty());
}

#[test]
fn cycle_participants_are_marked_from_the_top_down() {
    let mut runtime = Runtime::new();
    runtime.prepare_query_implementation(k(0));
    runtime.prepare_query_implementation(k(1));
    runtime.prepare_query_implementation(k(2));
    runtime.prepare_query_implementation(k(3));
    // k(0) is in the cycle too, but k(1) above it is not.
    runtime.mark_cycle_participants(&[k(3), k(2), k(0)]);
    assert_eq!(runtime.complete_query(()).cycle, vec![k(3), k(2), k(0)]);
    assert_eq!(runtime.complete_query(()).cycle, vec![k(3), k(2), k(0)]);
    assert!(runtime.complete_query(()).cycle.is_empty());
    assert!(runtime.complete_query(()).cycle.is_empty());
}

#[test]
fn blocking_registers_an_edge_and_unblocking_removes_it() {
    let mut shared = SharedState::new();
    let first = Runtime::new();
    let second = first.snapshot(&mut shared);
    assert!(first.try_block_on(&mut shared, k(5), second.id()));
    assert!(!second.try_block_on(&mut shared, k(6), first.id()));
    assert!(!shared.dependency_graph().can_add_edge(second.id(), first.id()));
    second.unblock_queries_blocked_on_self(&mut shared, Some(k(5)));
    assert!(shared.dependency_graph().can_add_edge(second.id(), first.id()));
    assert!(second.try_block_on(&mut shared, k(6), first.id()));
}

#[test]
fn a_fork_works_for_its_parents_and_is_waited_for() {
    let mut shared = SharedState::new();
    let mut parent = Runtime::new();
    parent.prepare_query_implementation(k(0));
    let forker = forker(&parent);
    assert_eq!(forker.state.parents, vec![parent.id()]);
    let child = forker.fork(&parent, &mut shared);
    assert_eq!(child.id(), RuntimeId { counter: 1 });
    assert_eq!(child.ids(), vec![parent.id(), child.id()]);
    assert!(!child.permits_increment());
    // The parent waits for the child, so the child cannot wait for the parent.
    assert!(!child.try_block_on(&mut shared, k(0), parent.id()));
    assert!(!child.try_block_on_fork(&mut shared, parent.id()));
    let grandchild = salsa::forker(&child).fork(&child, &mut shared);
    assert_eq!(grandchild.ids(), vec![parent.id(), child.id(), grandchild.id()]);
    child.unblock_queries_blocked_on_self(&mut shared, None);
    assert!(shared.dependency_graph().can_add_edge(child.id(), parent.id()));
    forker.join(&mut parent, &[k(0)]);
    assert_eq!(parent.complete_query(()).cycle, vec![k(0)]);
}
