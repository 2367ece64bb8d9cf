use subconscious_core::core_loop::status_check;
use subconscious_core::task::{Task, TaskStatus};
use subconscious_core::task_manager::TaskManager;

#[test]
fn store_down_does_not_mask_capability_health() {
    let mut m = TaskManager::new();
    m.set_store_available(false);
    let report = status_check(&m, true, 42);
    assert!(!report.store_ok);
    assert!(report.capability_ok);
    assert_eq!(report.uptime_secs, 42);
    assert!(report.pending_tasks.is_empty());
}

#[test]
fn capability_down_does_not_mask_store_health() {
    let m = TaskManager::new();
    let report = status_check(&m, false, 7);
    assert!(report.store_ok);
    assert!(!report.capability_ok);
}

#[test]
fn report_lists_pending_descriptions_in_order() {
    let mut m = TaskManager::new();
    m.add_task(Task::new("first".to_string(), "a".to_string(), false)).unwrap();
    m.add_task(Task::new("second".to_string(), "b".to_string(), false)).unwrap();
    m.add_task(Task::new("done".to_string(), "c".to_string(), false)).unwrap();
    m.update_task_status(
        &Task::new("done".to_string(), "c".to_string(), false),
        TaskStatus::Completed,
    )
    .unwrap();
    let report = status_check(&m, true, 0);
    assert_eq!(
        report.pending_tasks,
        vec!["first".to_string(), "second".to_string()]
    );
}
