use todo_list::codec::{load_from_text, save_to_text};
use todo_list::ops::add_task;
use todo_list::task::{Priority, Task};

#[test]
fn empty_collection_round_trip() {
    let tasks: Vec<Task> = Vec::new();
    let text = save_to_text(&tasks);
    assert_eq!(text, "[]");
    assert_eq!(load_from_text(&text), tasks);
}

#[test]
fn one_task_exact_encoding() {
    let mut tasks: Vec<Task> = Vec::new();
    add_task(
        &mut tasks,
        "Buy milk".to_string(),
        Priority::High,
        "2030-01-01".to_string(),
    );
    let text = save_to_text(&tasks);
    assert_eq!(
        text,
        "[{\"id\":1,\"description\":\"Buy milk\",\"done\":false,\"priority\":\"High\",\"due_date\":\"2030-01-01\"}]"
    );
    assert_eq!(load_from_text(&text), tasks);
}

#[test]
fn several_tasks_round_trip() {
    let mut tasks: Vec<Task> = Vec::new();
    add_task(&mut tasks, "alpha".to_string(), Priority::Low, "2026-02-03".to_string());
    add_task(&mut tasks, "beta".to_string(), Priority::Medium, "2026-03-04".to_string());
    add_task(&mut tasks, "gamma".to_string(), Priority::High, "2026-04-05".to_string());
    tasks[1].done = true;
    let text = save_to_text(&tasks);
    let back = load_from_text(&text);
    assert_eq!(back, tasks);
}

#[test]
fn special_characters_round_trip() {
    let mut tasks: Vec<Task> = Vec::new();
    add_task(
        &mut tasks,
        "say \"hi\" and C:\\path\\to\\file".to_string(),
        Priority::Medium,
        "2026-01-01".to_string(),
    );
    add_task(&mut tasks, "comma, bracket ] and { brace".to_string(), Priority::Low, "2026-01-02".to_string());
    add_task(&mut tasks, "unicode snowman ☃ and check ✓".to_string(), Priority::High, "2026-01-03".to_string());
    let text = save_to_text(&tasks);
    let back = load_from_text(&text);
    assert_eq!(back, tasks);
}

#[test]
fn unreadable_text_loads_as_empty() {
    assert!(load_from_text("").is_empty());
    assert!(load_from_text("not a store").is_empty());
    assert!(load_from_text("[").is_empty());
    assert!(load_from_text("{}").is_empty());
    assert!(load_from_text("[{\"id\":1}]").is_empty());
    assert!(load_from_text("[]garbage").is_empty());
    assert!(load_from_text("[] ").is_empty());
}

#[test]
fn truncated_record_loads_as_empty() {
    let mut tasks: Vec<Task> = Vec::new();
    add_task(&mut tasks, "alpha".to_string(), Priority::Low, "2026-02-03".to_string());
    let text = save_to_text(&tasks);
    let cut: String = text.chars().take(text.chars().count() - 2).collect();
    assert!(load_from_text(&cut).is_empty());
}

#[test]
fn huge_id_in_text_is_rejected() {
    let text = "[{\"id\":99999999999999999999999999,\"description\":\"x\",\"done\":false,\"priority\":\"Low\",\"due_date\":\"d\"}]";
    assert!(load_from_text(text).is_empty());
}
