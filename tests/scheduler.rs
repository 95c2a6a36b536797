use agent::dependency_manager::DependencyScheduler;
use agent::objects::{
    AddCondition, DeleteCondition, DeletedWorkload, ExecutionState, FulfilledBy, WorkloadSpec,
};
use agent::parameter_storage::ParameterStorage;

fn spec(name: &str, deps: &[(&str, AddCondition)]) -> WorkloadSpec {
    WorkloadSpec {
        name: name.to_string(),
        dependencies: deps.iter().map(|(n, c)| (n.to_string(), *c)).collect(),
        runtime: "podman".to_string(),
        runtime_config: String::new(),
    }
}

fn deleted(name: &str, deps: &[(&str, DeleteCondition)]) -> DeletedWorkload {
    DeletedWorkload {
        name: name.to_string(),
        dependencies: deps.iter().map(|(n, c)| (n.to_string(), *c)).collect(),
    }
}

fn names(specs: &[WorkloadSpec]) -> Vec<String> {
    specs.iter().map(|w| w.name.clone()).collect()
}

#[test]
fn split_partitions_and_keeps_order() {
    let input = vec![
        spec("a", &[]),
        spec("b", &[("a", AddCondition::AddCondRunning)]),
        spec("c", &[]),
        spec("d", &[("c", AddCondition::AddCondSucceeded)]),
        spec("e", &[]),
    ];
    let (ready, waiting) = DependencyScheduler::split_workloads_to_ready_and_waiting(input);
    assert_eq!(ready.len() + waiting.len(), 5);
    assert_eq!(names(&ready), vec!["a", "c", "e"]);
    assert_eq!(names(&waiting), vec!["b", "d"]);
}

#[test]
fn split_empty_input() {
    let (ready, waiting) = DependencyScheduler::split_workloads_to_ready_and_waiting(vec![]);
    assert!(ready.is_empty());
    assert!(waiting.is_empty());
}

#[test]
fn split_deleted_partitions() {
    let input = vec![
        deleted("x", &[("y", DeleteCondition::DelCondNotPendingNorRunning)]),
        deleted("y", &[]),
    ];
    let (ready, waiting) = DependencyScheduler::split_deleted_workloads_to_ready_and_waiting(input);
    assert_eq!(ready.len(), 1);
    assert_eq!(ready[0].name, "y");
    assert_eq!(waiting.len(), 1);
    assert_eq!(waiting[0].name, "x");
}

#[test]
fn second_promotion_returns_nothing_again() {
    let mut scheduler = DependencyScheduler::new();
    scheduler.put_on_waiting_queue(vec![
        spec("a", &[("db", AddCondition::AddCondRunning)]),
        spec("b", &[("db", AddCondition::AddCondRunning)]),
        spec("c", &[("db", AddCondition::AddCondFailed)]),
    ]);
    let mut store = ParameterStorage::new();
    store.update_workload_state("db".to_string(), ExecutionState::Running);
    let first = scheduler.next_workloads_to_start(&store);
    assert_eq!(names(&first), vec!["a", "b"]);
    let second = scheduler.next_workloads_to_start(&store);
    assert!(second.is_empty());
}

#[test]
fn promotion_waits_for_missing_state() {
    let mut scheduler = DependencyScheduler::new();
    scheduler.put_on_waiting_queue(vec![spec("a", &[("b", AddCondition::AddCondRunning)])]);
    let mut store = ParameterStorage::new();
    assert!(scheduler.next_workloads_to_start(&store).is_empty());
    assert!(scheduler.next_workloads_to_delete(&store).is_empty());
    store.update_workload_state("b".to_string(), ExecutionState::Running);
    let ready = scheduler.next_workloads_to_start(&store);
    assert_eq!(names(&ready), vec!["a"]);
    assert!(scheduler.next_workloads_to_start(&store).is_empty());
}

#[test]
fn promotion_waits_for_accepted_state() {
    let mut scheduler = DependencyScheduler::new();
    scheduler.put_on_waiting_queue(vec![spec("a", &[("b", AddCondition::AddCondSucceeded)])]);
    let mut store = ParameterStorage::new();
    store.update_workload_state("b".to_string(), ExecutionState::Running);
    assert!(scheduler.next_workloads_to_start(&store).is_empty());
    store.update_workload_state("b".to_string(), ExecutionState::Succeeded);
    assert_eq!(names(&scheduler.next_workloads_to_start(&store)), vec!["a"]);
}

#[test]
fn partial_satisfaction_blocks_promotion() {
    let mut scheduler = DependencyScheduler::new();
    scheduler.put_on_waiting_queue(vec![spec(
        "a",
        &[("b", AddCondition::AddCondRunning), ("c", AddCondition::AddCondRunning)],
    )]);
    let mut store = ParameterStorage::new();
    store.update_workload_state("b".to_string(), ExecutionState::Running);
    assert!(scheduler.next_workloads_to_start(&store).is_empty());
    store.update_workload_state("c".to_string(), ExecutionState::Failed);
    assert!(scheduler.next_workloads_to_start(&store).is_empty());
    store.update_workload_state("c".to_string(), ExecutionState::Running);
    assert_eq!(names(&scheduler.next_workloads_to_start(&store)), vec!["a"]);
}

#[test]
fn end_to_end_db_and_app() {
    let input = vec![
        spec("db", &[]),
        spec("app", &[("db", AddCondition::AddCondRunning)]),
    ];
    let (ready, waiting) = DependencyScheduler::split_workloads_to_ready_and_waiting(input);
    assert_eq!(names(&ready), vec!["db"]);
    let mut scheduler = DependencyScheduler::new();
    scheduler.put_on_waiting_queue(waiting);
    let mut store = ParameterStorage::new();
    let first = scheduler.next_workloads_to_start(&store);
    assert!(first.is_empty());
    store.update_workload_state("db".to_string(), ExecutionState::Running);
    let second = scheduler.next_workloads_to_start(&store);
    assert_eq!(names(&second), vec!["app"]);
    assert!(scheduler.next_workloads_to_start(&store).is_empty());
}

#[test]
fn requeue_replaces_earlier_entry() {
    let mut scheduler = DependencyScheduler::new();
    scheduler.put_on_waiting_queue(vec![spec("a", &[("b", AddCondition::AddCondRunning)])]);
    scheduler.put_on_waiting_queue(vec![spec("a", &[("b", AddCondition::AddCondFailed)])]);
    let mut store = ParameterStorage::new();
    store.update_workload_state("b".to_string(), ExecutionState::Running);
    assert!(scheduler.next_workloads_to_start(&store).is_empty());
    store.update_workload_state("b".to_string(), ExecutionState::Failed);
    let ready = scheduler.next_workloads_to_start(&store);
    assert_eq!(ready.len(), 1);
    assert_eq!(ready[0].dependencies[0].1, AddCondition::AddCondFailed);
}

#[test]
fn same_name_twice_in_one_batch_keeps_last() {
    let mut scheduler = DependencyScheduler::new();
    let mut last = spec("a", &[("b", AddCondition::AddCondRunning)]);
    last.runtime_config = "second".to_string();
    scheduler.put_on_waiting_queue(vec![spec("a", &[("b", AddCondition::AddCondRunning)]), last]);
    let mut store = ParameterStorage::new();
    store.update_workload_state("b".to_string(), ExecutionState::Running);
    let ready = scheduler.next_workloads_to_start(&store);
    assert_eq!(ready.len(), 1);
    assert_eq!(ready[0].runtime_config, "second");
}

#[test]
fn delete_queue_promotion() {
    let mut scheduler = DependencyScheduler::new();
    scheduler.put_on_delete_waiting_queue(vec![
        deleted("x", &[("y", DeleteCondition::DelCondNotPendingNorRunning)]),
        deleted("z", &[("y", DeleteCondition::DelCondRunning)]),
    ]);
    let mut store = ParameterStorage::new();
    store.update_workload_state("y".to_string(), ExecutionState::Pending);
    assert!(scheduler.next_workloads_to_delete(&store).is_empty());
    store.update_workload_state("y".to_string(), ExecutionState::Succeeded);
    let ready = scheduler.next_workloads_to_delete(&store);
    assert_eq!(ready.len(), 1);
    assert_eq!(ready[0].name, "x");
    assert!(scheduler.next_workloads_to_start(&store).is_empty());
    store.update_workload_state("y".to_string(), ExecutionState::Running);
    let ready = scheduler.next_workloads_to_delete(&store);
    assert_eq!(ready.len(), 1);
    assert_eq!(ready[0].name, "z");
}

#[test]
fn queues_are_independent() {
    let mut scheduler = DependencyScheduler::new();
    scheduler.put_on_waiting_queue(vec![spec("a", &[("b", AddCondition::AddCondRunning)])]);
    scheduler.put_on_delete_waiting_queue(vec![deleted("a", &[("b", DeleteCondition::DelCondRunning)])]);
    let mut store = ParameterStorage::new();
    store.update_workload_state("b".to_string(), ExecutionState::Running);
    assert_eq!(scheduler.next_workloads_to_delete(&store).len(), 1);
    assert_eq!(scheduler.next_workloads_to_start(&store).len(), 1);
}

#[test]
fn conditions_accept_their_states() {
    assert!(AddCondition::AddCondRunning.fulfilled_by(&ExecutionState::Running));
    assert!(!AddCondition::AddCondRunning.fulfilled_by(&ExecutionState::Pending));
    assert!(AddCondition::AddCondSucceeded.fulfilled_by(&ExecutionState::Succeeded));
    assert!(!AddCondition::AddCondSucceeded.fulfilled_by(&ExecutionState::Failed));
    assert!(AddCondition::AddCondFailed.fulfilled_by(&ExecutionState::Failed));
    assert!(DeleteCondition::DelCondRunning.fulfilled_by(&ExecutionState::Running));
    assert!(!DeleteCondition::DelCondRunning.fulfilled_by(&ExecutionState::Removed));
    assert!(DeleteCondition::DelCondNotPendingNorRunning.fulfilled_by(&ExecutionState::Removed));
    assert!(!DeleteCondition::DelCondNotPendingNorRunning.fulfilled_by(&ExecutionState::Pending));
    assert!(!DeleteCondition::DelCondNotPendingNorRunning.fulfilled_by(&ExecutionState::Running));
}

#[test]
fn storage_records_and_replaces_states() {
    let mut store = ParameterStorage::new();
    assert_eq!(store.get_workload_state(&"a".to_string()), None);
    store.update_workload_state("a".to_string(), ExecutionState::Pending);
    store.update_workload_state("b".to_string(), ExecutionState::Running);
    assert_eq!(store.get_workload_state(&"a".to_string()), Some(ExecutionState::Pending));
    store.update_workload_state("a".to_string(), ExecutionState::Removed);
    assert_eq!(store.get_workload_state(&"a".to_string()), Some(ExecutionState::Removed));
    assert_eq!(store.get_workload_state(&"b".to_string()), Some(ExecutionState::Running));
    assert_eq!(store.get_workload_state(&"c".to_string()), None);
}
