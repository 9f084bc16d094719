use todo_list::codec::{load_from_text, save_to_text};
use todo_list::ops::{
    add_task, add_task_with_default_date, list_tasks, mark_done, parse_status, remove_task,
};
use todo_list::task::{parse_priority, Priority, Task};

fn today() -> String {
    chrono::Local::now().format("%Y-%m-%d").to_string()
}

#[test]
fn full_command_sequence() {
    // No store file yet: the collection starts empty.
    let mut store_text = String::new();
    let mut tasks: Vec<Task> = load_from_text(&store_text);
    assert!(tasks.is_empty());

    // add "Buy milk" high
    let before = today();
    let (prio, warned) = parse_priority("high");
    assert!(!warned);
    add_task_with_default_date(&mut tasks, "Buy milk".to_string(), prio, None);
    let after = today();
    store_text = save_to_text(&tasks);
    let loaded = load_from_text(&store_text);
    assert_eq!(loaded.len(), 1);
    assert_eq!(loaded[0].id, 1);
    assert_eq!(loaded[0].description, "Buy milk");
    assert!(!loaded[0].done);
    assert_eq!(loaded[0].priority, Priority::High);
    assert!(loaded[0].due_date == before || loaded[0].due_date == after);

    // add "Call Bob" bogus 2030-01-01
    let mut tasks = load_from_text(&store_text);
    let (prio, warned) = parse_priority("bogus");
    assert!(warned);
    add_task_with_default_date(
        &mut tasks,
        "Call Bob".to_string(),
        prio,
        Some("2030-01-01".to_string()),
    );
    store_text = save_to_text(&tasks);
    let loaded = load_from_text(&store_text);
    assert_eq!(loaded.len(), 2);
    assert_eq!(loaded[1].id, 2);
    assert_eq!(loaded[1].priority, Priority::Medium);
    assert_eq!(loaded[1].due_date, "2030-01-01");

    // done 1
    let mut tasks = load_from_text(&store_text);
    assert!(mark_done(&mut tasks, 1));
    store_text = save_to_text(&tasks);
    let loaded = load_from_text(&store_text);
    assert!(loaded[0].done);
    assert!(!loaded[1].done);

    // list --status pending
    let tasks = load_from_text(&store_text);
    let shown = list_tasks(&tasks, parse_status(&Some("pending".to_string())));
    assert_eq!(shown.len(), 1);
    assert_eq!(shown[0].id, 2);

    // remove 1
    let mut tasks = load_from_text(&store_text);
    assert!(remove_task(&mut tasks, 1));
    store_text = save_to_text(&tasks);
    let loaded = load_from_text(&store_text);
    assert_eq!(loaded.len(), 1);
    assert_eq!(loaded[0].id, 2);
    assert_eq!(loaded[0].description, "Call Bob");
}

#[test]
fn explicit_date_bypasses_the_clock() {
    let mut tasks: Vec<Task> = Vec::new();
    add_task(&mut tasks, "fixed".to_string(), Priority::Low, "1999-12-31".to_string());
    assert_eq!(tasks[0].due_date, "1999-12-31");
}
