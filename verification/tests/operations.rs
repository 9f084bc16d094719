use todo_list::ops::{
    add_task, list_tasks, mark_done, parse_status, remove_task, StatusFilter,
};
use todo_list::task::{Priority, Task};

fn sample(n: usize) -> Vec<Task> {
    let mut tasks: Vec<Task> = Vec::new();
    for i in 0..n {
        add_task(
            &mut tasks,
            format!("task number {}", i + 1),
            if i % 2 == 0 { Priority::Low } else { Priority::High },
            "2026-01-01".to_string(),
        );
    }
    tasks
}

#[test]
fn add_assigns_sequential_ids() {
    let tasks = sample(7);
    assert_eq!(tasks.len(), 7);
    for (i, t) in tasks.iter().enumerate() {
        assert_eq!(t.id, i + 1);
        assert!(!t.done);
    }
}

#[test]
fn add_keeps_fields() {
    let mut tasks: Vec<Task> = Vec::new();
    add_task(
        &mut tasks,
        "water the plants".to_string(),
        Priority::High,
        "2030-12-31".to_string(),
    );
    assert_eq!(tasks[0].id, 1);
    assert_eq!(tasks[0].description, "water the plants");
    assert_eq!(tasks[0].priority, Priority::High);
    assert_eq!(tasks[0].due_date, "2030-12-31");
    assert!(!tasks[0].done);
}

#[test]
fn done_marks_only_that_task() {
    let mut tasks = sample(4);
    let before = tasks.clone();
    let found = mark_done(&mut tasks, 3);
    assert!(found);
    for i in 0..4 {
        if i == 2 {
            assert!(tasks[i].done);
            assert_eq!(tasks[i].id, before[i].id);
            assert_eq!(tasks[i].description, before[i].description);
            assert_eq!(tasks[i].priority, before[i].priority);
            assert_eq!(tasks[i].due_date, before[i].due_date);
        } else {
            assert_eq!(tasks[i], before[i]);
        }
    }
}

#[test]
fn done_twice_is_idempotent() {
    let mut tasks = sample(3);
    assert!(mark_done(&mut tasks, 2));
    let after_once = tasks.clone();
    assert!(mark_done(&mut tasks, 2));
    assert_eq!(tasks, after_once);
}

#[test]
fn done_unknown_id_changes_nothing() {
    let mut tasks = sample(3);
    let before = tasks.clone();
    let found = mark_done(&mut tasks, 99);
    assert!(!found);
    assert_eq!(tasks, before);
}

#[test]
fn remove_takes_out_exactly_one_and_keeps_order() {
    let mut tasks = sample(5);
    let before = tasks.clone();
    let found = remove_task(&mut tasks, 2);
    assert!(found);
    assert_eq!(tasks.len(), 4);
    assert_eq!(tasks[0], before[0]);
    assert_eq!(tasks[1], before[2]);
    assert_eq!(tasks[2], before[3]);
    assert_eq!(tasks[3], before[4]);
}

#[test]
fn remove_unknown_id_changes_nothing() {
    let mut tasks = sample(3);
    let before = tasks.clone();
    let found = remove_task(&mut tasks, 42);
    assert!(!found);
    assert_eq!(tasks, before);
}

#[test]
fn list_filters_by_status() {
    let mut tasks = sample(4);
    mark_done(&mut tasks, 1);
    mark_done(&mut tasks, 3);
    let done = list_tasks(&tasks, StatusFilter::Done);
    assert_eq!(done.len(), 2);
    assert_eq!(done[0].id, 1);
    assert_eq!(done[1].id, 3);
    assert!(done.iter().all(|t| t.done));
    let pending = list_tasks(&tasks, StatusFilter::Pending);
    assert_eq!(pending.len(), 2);
    assert_eq!(pending[0].id, 2);
    assert_eq!(pending[1].id, 4);
    assert!(pending.iter().all(|t| !t.done));
    let all = list_tasks(&tasks, StatusFilter::All);
    assert_eq!(all, tasks);
}

#[test]
fn status_argument_parsing() {
    assert_eq!(parse_status(&Some("done".to_string())), StatusFilter::Done);
    assert_eq!(parse_status(&Some("pending".to_string())), StatusFilter::Pending);
    assert_eq!(parse_status(&Some("anything".to_string())), StatusFilter::All);
    assert_eq!(parse_status(&Some("Done".to_string())), StatusFilter::All);
    assert_eq!(parse_status(&None), StatusFilter::All);
}

#[test]
fn duplicate_copies_every_field() {
    let tasks = sample(2);
    let copy = tasks[1].duplicate();
    assert_eq!(copy, tasks[1]);
}
