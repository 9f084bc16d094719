use todo_list::ops::{add_task, mark_done, StatusFilter};
use todo_list::present::{format_task_line, render_list};
use todo_list::task::{Priority, Task};

#[test]
fn line_for_pending_task() {
    let mut tasks: Vec<Task> = Vec::new();
    add_task(&mut tasks, "Buy milk".to_string(), Priority::High, "2030-01-01".to_string());
    let line = format_task_line(&tasks[0]);
    assert_eq!(line, "[✗] 1 - Buy milk (Due: 2030-01-01) - Priority: High");
}

#[test]
fn line_for_done_task() {
    let mut tasks: Vec<Task> = Vec::new();
    add_task(&mut tasks, "rest".to_string(), Priority::Low, "2026-06-07".to_string());
    mark_done(&mut tasks, 1);
    let line = format_task_line(&tasks[0]);
    assert_eq!(line, "[✓] 1 - rest (Due: 2026-06-07) - Priority: Low");
}

#[test]
fn rendered_listing_follows_the_filter() {
    let mut tasks: Vec<Task> = Vec::new();
    add_task(&mut tasks, "one".to_string(), Priority::Low, "2026-01-01".to_string());
    add_task(&mut tasks, "two".to_string(), Priority::Medium, "2026-01-02".to_string());
    add_task(&mut tasks, "three".to_string(), Priority::High, "2026-01-03".to_string());
    mark_done(&mut tasks, 2);
    let all = render_list(&tasks, StatusFilter::All);
    assert_eq!(
        all,
        vec![
            "[✗] 1 - one (Due: 2026-01-01) - Priority: Low".to_string(),
            "[✓] 2 - two (Due: 2026-01-02) - Priority: Medium".to_string(),
            "[✗] 3 - three (Due: 2026-01-03) - Priority: High".to_string(),
        ]
    );
    let done = render_list(&tasks, StatusFilter::Done);
    assert_eq!(done, vec!["[✓] 2 - two (Due: 2026-01-02) - Priority: Medium".to_string()]);
    let pending = render_list(&tasks, StatusFilter::Pending);
    assert_eq!(pending.len(), 2);
}
