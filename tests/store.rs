use std::path::PathBuf;

use taskrs::{
    answer_is_yes, as_checkbox, is_yes, pluralize, to_decimal, ResetStep, StoreError, TaskCounts,
    TaskItem, TaskStore,
};

fn store() -> TaskStore {
    TaskStore::new(PathBuf::from("tasks.json"))
}

fn ids(tasks: &[TaskItem]) -> Vec<u32> {
    tasks.iter().map(|t| t.id).collect()
}

fn item(id: u32, task: &str, done: bool) -> TaskItem {
    TaskItem { id, task: task.to_string(), done }
}

#[test]
fn add_then_mark_then_list() {
    let mut s = store();
    assert_eq!(s.add_task("buy milk".to_string()), Ok(1));
    assert_eq!(s.add_task("walk dog".to_string()), Ok(2));
    assert_eq!(s.mark_task(1, true), Ok(()));
    let open = s.listed(false);
    assert_eq!(open.len(), 1);
    assert_eq!(open[0].id, 2);
    assert_eq!(open[0].task, "walk dog");
    assert!(!open[0].done);
    let every = s.listed(true);
    assert_eq!(ids(&every), vec![1, 2]);
    assert!(every[0].done);
    assert_eq!(every[0].line(), "1 \u{1F5F9} buy milk");
    assert_eq!(every[1].line(), "2 \u{2610} walk dog");
}

#[test]
fn delete_then_add_does_not_reuse_a_lower_id() {
    let mut s = store();
    assert_eq!(s.add_task("a".to_string()), Ok(1));
    assert_eq!(s.add_task("b".to_string()), Ok(2));
    assert_eq!(s.delete_task(1), Ok(()));
    assert_eq!(s.add_task("new".to_string()), Ok(3));
    assert_eq!(ids(s.tasks()), vec![2, 3]);
}

#[test]
fn adds_number_from_one_without_gaps() {
    let mut s = store();
    for k in 1..=5u32 {
        assert_eq!(s.add_task(format!("task {k}")), Ok(k));
    }
    assert_eq!(ids(s.tasks()), vec![1, 2, 3, 4, 5]);
    assert!(s.tasks().iter().all(|t| !t.done));
    assert_eq!(s.max_id(), 5);
}

#[test]
fn deleting_the_largest_id_lets_it_come_back() {
    let mut s = store();
    for k in 1..=3u32 {
        assert_eq!(s.add_task(format!("t{k}")), Ok(k));
    }
    assert_eq!(s.delete_task(3), Ok(()));
    assert_eq!(s.add_task("again".to_string()), Ok(3));
    assert_eq!(s.delete_task(2), Ok(()));
    assert_eq!(s.add_task("later".to_string()), Ok(4));
}

#[test]
fn add_fails_when_no_id_is_left() {
    let mut s = TaskStore::load(PathBuf::from("t.json"), Some(vec![item(u32::MAX, "last", false)]));
    assert_eq!(s.add_task("more".to_string()), Err(StoreError::NoIdLeft));
    assert_eq!(s.tasks().len(), 1);
}

#[test]
fn swap_twice_restores() {
    let mut s = TaskStore::load(
        PathBuf::from("t.json"),
        Some(vec![item(3, "c", false), item(1, "a", true), item(2, "b", false)]),
    );
    assert_eq!(s.swap_tasks(1, 3), Ok(()));
    assert_eq!(ids(s.tasks()), vec![1, 3, 2]);
    assert_eq!(s.tasks()[0].task, "c");
    assert!(s.tasks()[1].done);
    assert_eq!(s.swap_tasks(1, 3), Ok(()));
    assert_eq!(ids(s.tasks()), vec![3, 1, 2]);
    assert_eq!(s.tasks()[0].task, "c");
    assert_eq!(s.tasks()[1].task, "a");
    assert!(s.tasks()[1].done);
}

#[test]
fn swap_reports_the_missing_id() {
    let mut s = TaskStore::load(PathBuf::from("t.json"), Some(vec![item(1, "a", false)]));
    assert_eq!(s.swap_tasks(7, 1), Err(StoreError::FirstNotFound));
    assert_eq!(s.swap_tasks(1, 7), Err(StoreError::SecondNotFound));
    assert_eq!(s.swap_tasks(7, 8), Err(StoreError::FirstNotFound));
    assert_eq!(ids(s.tasks()), vec![1]);
    assert_eq!(s.swap_tasks(1, 1), Ok(()));
    assert_eq!(ids(s.tasks()), vec![1]);
}

#[test]
fn missing_id_changes_nothing() {
    let mut s = TaskStore::load(
        PathBuf::from("t.json"),
        Some(vec![item(2, "b", false), item(1, "a", true)]),
    );
    assert_eq!(s.update_task(9, "x".to_string()), Err(StoreError::TaskNotFound));
    assert_eq!(s.mark_task(9, true), Err(StoreError::TaskNotFound));
    assert_eq!(s.delete_task(9), Err(StoreError::TaskNotFound));
    assert_eq!(ids(s.tasks()), vec![2, 1]);
    assert_eq!(s.tasks()[0].task, "b");
    assert!(!s.tasks()[0].done);
    assert!(s.tasks()[1].done);
}

#[test]
fn update_keeps_done_flag() {
    let mut s = TaskStore::load(PathBuf::from("t.json"), Some(vec![item(4, "old", true)]));
    assert_eq!(s.update_task(4, "new".to_string()), Ok(()));
    assert_eq!(s.tasks()[0].task, "new");
    assert!(s.tasks()[0].done);
    assert_eq!(s.mark_task(4, false), Ok(()));
    assert!(!s.tasks()[0].done);
    assert_eq!(s.tasks()[0].task, "new");
}

#[test]
fn listing_sorts_and_filters() {
    let s = TaskStore::load(
        PathBuf::from("t.json"),
        Some(vec![
            item(5, "e", false),
            item(2, "b", true),
            item(9, "i", false),
            item(1, "a", false),
        ]),
    );
    assert_eq!(ids(&s.listed(true)), vec![1, 2, 5, 9]);
    assert_eq!(ids(&s.listed(false)), vec![1, 5, 9]);
    assert!(s.listed(false).iter().all(|t| !t.done));
    assert_eq!(ids(s.tasks()), vec![5, 2, 9, 1]);
}

#[test]
fn table_rows_have_an_empty_header() {
    let s = TaskStore::load(
        PathBuf::from("t.json"),
        Some(vec![item(2, "walk dog", false), item(1, "buy milk", true)]),
    );
    let rows = s.table_rows(true);
    assert_eq!(rows.len(), 3);
    assert_eq!(rows[0], vec![String::new(), String::new(), String::new()]);
    assert_eq!(rows[1], vec!["1".to_string(), "\u{1F5F9}".to_string(), "buy milk".to_string()]);
    assert_eq!(rows[2], vec!["2".to_string(), "\u{2610}".to_string(), "walk dog".to_string()]);
}

#[test]
fn list_tasks_draws_one_line_per_row() {
    let mut s = store();
    assert_eq!(s.add_task("buy milk".to_string()), Ok(1));
    assert_eq!(s.add_task("walk dog".to_string()), Ok(2));
    assert_eq!(s.mark_task(1, true), Ok(()));
    let open = s.list_tasks(false);
    let lines: Vec<&str> = open.lines().collect();
    assert_eq!(lines.len(), 2);
    assert!(lines[0].trim().is_empty());
    assert!(lines[1].contains("2"));
    assert!(lines[1].contains("\u{2610}"));
    assert!(lines[1].contains("walk dog"));
    assert!(!open.contains("buy milk"));
    let every = s.list_tasks(true);
    let lines: Vec<&str> = every.lines().collect();
    assert_eq!(lines.len(), 3);
    assert!(lines[1].contains("\u{1F5F9}") && lines[1].contains("buy milk"));
    assert!(lines[2].contains("\u{2610}") && lines[2].contains("walk dog"));
}

#[test]
fn forced_reset_empties() {
    let mut s = TaskStore::load(PathBuf::from("t.json"), Some(vec![item(1, "a", false)]));
    assert!(matches!(s.reset_tasks(true), ResetStep::Cleared));
    assert!(s.tasks().is_empty());
}

#[test]
fn reset_of_empty_collection_does_nothing() {
    let mut s = store();
    assert!(matches!(s.reset_tasks(true), ResetStep::Nothing));
    assert!(matches!(s.reset_tasks(false), ResetStep::Nothing));
}

#[test]
fn declined_reset_keeps_tasks() {
    let mut s = TaskStore::load(
        PathBuf::from("t.json"),
        Some(vec![item(1, "a", false), item(2, "b", true)]),
    );
    match s.reset_tasks(false) {
        ResetStep::Confirm(q) => {
            assert_eq!(q, "Are you sure you want to permanently delete 2 tasks (y/N)?")
        }
        _ => panic!("a question was expected"),
    }
    assert_eq!(s.tasks().len(), 2);
    assert!(!s.confirm_reset("n\n"));
    assert_eq!(ids(s.tasks()), vec![1, 2]);
    assert!(!s.confirm_reset("yes\n"));
    assert_eq!(s.tasks().len(), 2);
    assert!(s.confirm_reset(" Y\n"));
    assert!(s.tasks().is_empty());
}

#[test]
fn reset_question_counts_one_task() {
    let mut s = TaskStore::load(PathBuf::from("t.json"), Some(vec![item(1, "a", false)]));
    match s.reset_tasks(false) {
        ResetStep::Confirm(q) => {
            assert_eq!(q, "Are you sure you want to permanently delete 1 task (y/N)?")
        }
        _ => panic!("a question was expected"),
    }
}

#[test]
fn answers() {
    assert!(answer_is_yes("y"));
    assert!(answer_is_yes("Y"));
    assert!(answer_is_yes("y\n"));
    assert!(answer_is_yes("  Y \r\n"));
    assert!(!answer_is_yes("n"));
    assert!(!answer_is_yes(""));
    assert!(!answer_is_yes("yy"));
    assert!(is_yes("y"));
    assert!(!is_yes("Y"));
    assert!(!is_yes(" y"));
}

#[test]
fn infos_counts() {
    let s = TaskStore::load(
        PathBuf::from("t.json"),
        Some(vec![item(1, "a", true), item(2, "b", false), item(3, "c", true)]),
    );
    assert_eq!(s.infos(), TaskCounts { done: 2, remaining: 1, total: 3 });
    assert_eq!(store().infos(), TaskCounts { done: 0, remaining: 0, total: 0 });
}

#[test]
fn load_without_file_is_empty() {
    let s = TaskStore::load(PathBuf::from("x/tasks.json"), None);
    assert!(s.tasks().is_empty());
    assert_eq!(s.path(), &PathBuf::from("x/tasks.json"));
    assert_eq!(s.max_id(), 0);
    assert_eq!(s.position(1), None);
}

#[test]
fn position_finds_first() {
    let s = TaskStore::load(
        PathBuf::from("t.json"),
        Some(vec![item(4, "a", false), item(7, "b", false), item(7, "c", false)]),
    );
    assert_eq!(s.position(7), Some(1));
    assert_eq!(s.position(4), Some(0));
    assert_eq!(s.position(5), None);
}

#[test]
fn pluralize_counts() {
    assert_eq!(pluralize(0, "task", "tasks"), "0 task");
    assert_eq!(pluralize(1, "task", "tasks"), "1 task");
    assert_eq!(pluralize(2, "task", "tasks"), "2 tasks");
    assert_eq!(pluralize(31, "task", "tasks"), "31 tasks");
}

#[test]
fn decimal_forms() {
    assert_eq!(to_decimal(0), "0");
    assert_eq!(to_decimal(10), "10");
    assert_eq!(to_decimal(12345), "12345");
    assert_eq!(to_decimal(u64::MAX), u64::MAX.to_string());
}

#[test]
fn checkboxes() {
    assert_eq!(as_checkbox(&true), "\u{1F5F9}");
    assert_eq!(as_checkbox(&false), "\u{2610}");
    let t = TaskItem::new(3, "x".to_string());
    assert!(!t.done);
    assert_eq!(t.row(), vec!["3".to_string(), "\u{2610}".to_string(), "x".to_string()]);
}

#[test]
fn error_messages() {
    assert_eq!(StoreError::TaskNotFound.message(), "Task not found");
    assert_eq!(StoreError::FirstNotFound.message(), "Task 1 not found");
    assert_eq!(StoreError::SecondNotFound.message(), "Task 2 not found");
    assert_eq!(StoreError::NoIdLeft.message(), "No task id left");
}
