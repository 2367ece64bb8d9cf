use subconscious_core::llm_client::LLMClient;
use subconscious_core::subconscious::Subconscious;
use subconscious_core::task::{CoreError, Task, TaskStatus};
use subconscious_core::task_manager::TaskManager;

fn fresh() -> Subconscious {
    Subconscious::new(TaskManager::new(), LLMClient::new("http://localhost/api/generate", "m"))
}

#[test]
fn eleven_entries_evict_exactly_the_first() {
    let mut s = fresh();
    for i in 0..11 {
        s.add_to_short_term_memory(format!("entry-{}", i));
    }
    let long = s.recall_long_term_memory();
    assert_eq!(long, vec!["entry-0".to_string()]);
    let short = s.recall_short_term_memory();
    let expected: Vec<String> = (1..11).map(|i| format!("entry-{}", i)).collect();
    assert_eq!(short, expected);
}

#[test]
fn journal_below_capacity_evicts_nothing() {
    let mut s = fresh();
    for i in 0..3 {
        s.add_to_short_term_memory(format!("e{}", i));
    }
    assert!(s.recall_long_term_memory().is_empty());
    assert_eq!(
        s.recall_short_term_memory(),
        vec!["e0".to_string(), "e1".to_string(), "e2".to_string()]
    );
}

#[test]
fn journal_keeps_every_entry_exactly_once() {
    let mut s = fresh();
    for i in 0..25 {
        s.add_to_short_term_memory(format!("n{}", i));
    }
    let mut all = s.recall_long_term_memory();
    all.extend(s.recall_short_term_memory());
    let expected: Vec<String> = (0..25).map(|i| format!("n{}", i)).collect();
    assert_eq!(all, expected);
    assert_eq!(s.recall_short_term_memory().len(), 10);
}

#[test]
fn long_term_appends_directly() {
    let mut s = fresh();
    s.add_to_long_term_memory("kept".to_string());
    assert_eq!(s.recall_long_term_memory(), vec!["kept".to_string()]);
    assert!(s.recall_short_term_memory().is_empty());
}

#[test]
fn learning_from_a_task_records_its_description() {
    let mut s = fresh();
    let t = Task::new("observe".to_string(), "look".to_string(), false);
    s.learn_from_task(&t);
    assert_eq!(
        s.recall_short_term_memory(),
        vec!["Learned from task: observe".to_string()]
    );
}

#[test]
fn routine_task_is_enqueued_pending_and_non_permanent() {
    let mut s = fresh();
    s.add_routine_task().unwrap();
    let tasks = s.task_manager.get_tasks();
    assert_eq!(tasks.len(), 1);
    assert_eq!(tasks[0].description, "Routine check");
    assert_eq!(tasks[0].action, "Perform routine check");
    assert_eq!(tasks[0].status, TaskStatus::Pending);
    assert!(!tasks[0].is_permanent);
    assert!(s.task_manager.get_persistent_tasks().is_empty());
}

#[test]
fn routine_task_reports_enqueue_failure() {
    let mut s = fresh();
    s.task_manager.set_store_available(false);
    assert_eq!(s.add_routine_task(), Err(CoreError::StoreUnavailable));
}

#[test]
fn processing_pass_drains_and_archives_without_journal_growth() {
    let mut s = fresh();
    s.task_manager
        .add_task(Task::new("C".to_string(), "z".to_string(), true))
        .unwrap();
    s.process_tasks(&vec![true]).unwrap();
    assert!(s.task_manager.get_tasks().is_empty());
    let archived = s.task_manager.get_completed_tasks();
    assert_eq!(archived.len(), 1);
    assert_eq!(archived[0].description, "C");
    assert!(s.recall_short_term_memory().is_empty());
    assert!(s.recall_long_term_memory().is_empty());
}

#[test]
fn processing_pass_surfaces_store_outage() {
    let mut s = fresh();
    s.task_manager.set_store_available(false);
    assert_eq!(s.process_tasks(&Vec::new()), Err(CoreError::StoreUnavailable));
}
