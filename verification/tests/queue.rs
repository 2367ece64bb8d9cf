use subconscious_core::task::{CoreError, Task, TaskStatus};
use subconscious_core::task_manager::TaskManager;

fn task(description: &str, action: &str, permanent: bool) -> Task {
    Task::new(description.to_string(), action.to_string(), permanent)
}

#[test]
fn drain_processes_in_fifo_order_and_empties_queue() {
    let mut m = TaskManager::new();
    m.add_task(task("A", "x", false)).unwrap();
    m.add_task(task("B", "y", false)).unwrap();
    m.add_task(task("C", "z", false)).unwrap();
    let done = m.execute_tasks(&vec![true, true, true]).unwrap();
    let names: Vec<String> = done.iter().map(|t| t.description.clone()).collect();
    assert_eq!(names, vec!["A".to_string(), "B".to_string(), "C".to_string()]);
    for t in &done {
        assert_eq!(t.status, TaskStatus::Completed);
    }
    assert!(m.get_tasks().is_empty());
    assert!(m.get_completed_tasks().is_empty());
}

#[test]
fn drain_two_non_permanent_tasks_leaves_no_trace() {
    let mut m = TaskManager::new();
    m.add_task(task("A", "x", false)).unwrap();
    m.add_task(task("B", "y", false)).unwrap();
    let done = m.execute_tasks(&vec![true, true]).unwrap();
    assert_eq!(done.len(), 2);
    assert!(m.get_tasks().is_empty());
    assert!(m.get_completed_tasks().is_empty());
}

#[test]
fn set_status_updates_only_first_match() {
    let mut m = TaskManager::new();
    m.add_task(task("dup", "act", false)).unwrap();
    m.add_task(task("other", "act", false)).unwrap();
    m.add_task(task("dup", "act", false)).unwrap();
    m.update_task_status(&task("dup", "act", false), TaskStatus::Completed).unwrap();
    let tasks = m.get_tasks();
    assert_eq!(tasks.len(), 3);
    assert_eq!(tasks[0].status, TaskStatus::Completed);
    assert_eq!(tasks[1].status, TaskStatus::Pending);
    assert_eq!(tasks[2].status, TaskStatus::Pending);
}

#[test]
fn set_status_reports_missing_task() {
    let mut m = TaskManager::new();
    m.add_task(task("A", "x", false)).unwrap();
    let r = m.update_task_status(&task("A", "other", false), TaskStatus::Completed);
    assert_eq!(r, Err(CoreError::TaskNotFound));
}

#[test]
fn writes_fail_while_store_is_unavailable() {
    let mut m = TaskManager::new();
    m.add_task(task("A", "x", false)).unwrap();
    m.set_store_available(false);
    assert_eq!(m.add_task(task("B", "y", false)), Err(CoreError::StoreUnavailable));
    assert_eq!(
        m.update_task_status(&task("A", "x", false), TaskStatus::Completed),
        Err(CoreError::StoreUnavailable)
    );
    assert_eq!(m.execute_tasks(&vec![true]).unwrap_err(), CoreError::StoreUnavailable);
    assert!(m.get_tasks().is_empty());
    m.set_store_available(true);
    let tasks = m.get_tasks();
    assert_eq!(tasks.len(), 1);
    assert_eq!(tasks[0].description, "A");
}

#[test]
fn permanent_task_archived_exactly_once_on_drain() {
    let mut m = TaskManager::new();
    m.add_task(task("C", "z", true)).unwrap();
    let done = m.execute_tasks(&vec![true]).unwrap();
    assert_eq!(done.len(), 1);
    assert!(m.get_tasks().is_empty());
    let archived = m.get_completed_tasks();
    assert_eq!(archived.len(), 1);
    assert_eq!(archived[0].description, "C");
    assert_eq!(archived[0].action, "z");
    assert_eq!(archived[0].status, TaskStatus::Completed);
    let replay = m.get_persistent_tasks();
    assert_eq!(replay.len(), 1);
    assert_eq!(replay[0].description, "C");
}

#[test]
fn non_permanent_task_never_reaches_archive() {
    let mut m = TaskManager::new();
    m.add_task(task("A", "x", false)).unwrap();
    m.execute_tasks(&vec![true]).unwrap();
    assert!(m.get_completed_tasks().is_empty());
    assert!(m.get_persistent_tasks().is_empty());
}

#[test]
fn failed_capability_call_loses_the_task() {
    let mut m = TaskManager::new();
    m.add_task(task("doomed", "x", true)).unwrap();
    let done = m.execute_tasks(&vec![false]).unwrap();
    assert!(done.is_empty());
    assert!(m.get_tasks().is_empty());
    assert!(m.get_completed_tasks().is_empty());
}

#[test]
fn mixed_outcomes_keep_only_successes() {
    let mut m = TaskManager::new();
    m.add_task(task("A", "x", true)).unwrap();
    m.add_task(task("B", "y", true)).unwrap();
    m.add_task(task("C", "z", true)).unwrap();
    let done = m.execute_tasks(&vec![true, false, true]).unwrap();
    assert_eq!(done.len(), 2);
    assert_eq!(done[0].description, "A");
    assert_eq!(done[1].description, "C");
    let archived = m.get_completed_tasks();
    assert_eq!(archived.len(), 2);
    assert_eq!(archived[0].description, "A");
    assert_eq!(archived[1].description, "C");
}

#[test]
fn set_status_into_completed_archives_permanent_entry() {
    let mut m = TaskManager::new();
    m.add_task(task("keep", "safe", true)).unwrap();
    m.update_task_status(&task("keep", "safe", true), TaskStatus::Completed).unwrap();
    let tasks = m.get_tasks();
    assert_eq!(tasks.len(), 1);
    assert_eq!(tasks[0].status, TaskStatus::Completed);
    let archived = m.get_completed_tasks();
    assert_eq!(archived.len(), 1);
    assert_eq!(archived[0].description, "keep");
    assert_eq!(archived[0].status, TaskStatus::Completed);
}

#[test]
fn non_pending_popped_tasks_are_discarded_silently() {
    let mut m = TaskManager::new();
    m.add_task(task("done-already", "x", false)).unwrap();
    m.update_task_status(&task("done-already", "x", false), TaskStatus::Completed).unwrap();
    let done = m.execute_tasks(&vec![true]).unwrap();
    assert!(done.is_empty());
    assert!(m.get_tasks().is_empty());
    assert!(m.get_completed_tasks().is_empty());
}

#[test]
fn stepwise_pop_and_commit_match_the_drain() {
    let mut m = TaskManager::new();
    m.add_task(task("A", "x", true)).unwrap();
    m.add_task(task("B", "y", false)).unwrap();
    let first = m.pop_next_task().unwrap().unwrap();
    assert_eq!(first.description, "A");
    let committed = m.commit_task_outcome(first, true).unwrap().unwrap();
    assert_eq!(committed.status, TaskStatus::Completed);
    let second = m.pop_next_task().unwrap().unwrap();
    assert_eq!(second.description, "B");
    assert!(m.commit_task_outcome(second, false).unwrap().is_none());
    assert!(m.pop_next_task().unwrap().is_none());
    let archived = m.get_completed_tasks();
    assert_eq!(archived.len(), 1);
    assert_eq!(archived[0].description, "A");
}

#[test]
fn restored_state_carries_all_three_lists() {
    let stored_queue = vec![task("queued", "q", false)];
    let stored_persistent = vec![task("perm", "p", true)];
    let mut done = task("old", "o", true);
    done.status = TaskStatus::Completed;
    let m = TaskManager::from_store(stored_queue, stored_persistent, vec![done]);
    assert_eq!(m.get_tasks().len(), 1);
    assert_eq!(m.get_tasks()[0].description, "queued");
    assert_eq!(m.get_persistent_tasks().len(), 1);
    let archived = m.get_completed_tasks();
    assert_eq!(archived.len(), 1);
    assert_eq!(archived[0].description, "old");
    assert_eq!(archived[0].status, TaskStatus::Completed);
}

#[test]
fn replay_re_enqueues_permanent_tasks_as_pending() {
    let mut m = TaskManager::new();
    let mut finished = task("perm", "p", true);
    finished.status = TaskStatus::Completed;
    m.add_task(finished).unwrap();
    m.add_task(task("perm-two", "p2", true)).unwrap();
    let stored = TaskManager::from_store(
        Vec::new(),
        m.get_persistent_tasks(),
        m.get_completed_tasks(),
    );
    let mut restored = stored;
    restored.reseed_permanent_tasks().unwrap();
    let queued = restored.get_tasks();
    assert_eq!(queued.len(), 2);
    assert_eq!(queued[0].description, "perm");
    assert_eq!(queued[0].status, TaskStatus::Pending);
    assert!(queued[0].is_permanent);
    assert_eq!(queued[1].description, "perm-two");
    assert_eq!(queued[1].status, TaskStatus::Pending);
    assert_eq!(restored.get_persistent_tasks().len(), 2);
}

#[test]
fn replay_fails_while_store_is_unavailable() {
    let mut m = TaskManager::new();
    m.add_task(task("perm", "p", true)).unwrap();
    m.set_store_available(false);
    assert_eq!(m.reseed_permanent_tasks(), Err(CoreError::StoreUnavailable));
}

#[test]
fn liveness_probe_follows_store_availability() {
    let mut m = TaskManager::new();
    assert!(m.check_redis_connection().is_ok());
    m.set_store_available(false);
    assert_eq!(m.check_redis_connection(), Err(CoreError::StoreUnavailable));
}
