use todo_list::process::{apply_command, Command, Outcome};
use todo_list::task::{Priority, Task};

#[test]
fn add_command_appends_and_persists() {
    let mut tasks: Vec<Task> = Vec::new();
    let (outcome, persist) = apply_command(
        &mut tasks,
        Command::Add {
            description: "pay rent".to_string(),
            priority_text: "HIGH".to_string(),
            due_date: Some("2026-05-01".to_string()),
        },
    );
    assert_eq!(outcome, Outcome::Added { substituted_priority: false });
    assert!(persist);
    assert_eq!(tasks.len(), 1);
    assert_eq!(tasks[0].id, 1);
    assert_eq!(tasks[0].description, "pay rent");
    assert_eq!(tasks[0].priority, Priority::High);
    assert_eq!(tasks[0].due_date, "2026-05-01");
}

#[test]
fn add_command_flags_substituted_priority() {
    let mut tasks: Vec<Task> = Vec::new();
    let (outcome, _) = apply_command(
        &mut tasks,
        Command::Add {
            description: "x".to_string(),
            priority_text: "urgent".to_string(),
            due_date: Some("2026-05-01".to_string()),
        },
    );
    assert_eq!(outcome, Outcome::Added { substituted_priority: true });
    assert_eq!(tasks[0].priority, Priority::Medium);
}

#[test]
fn list_command_reports_lines_and_never_persists() {
    let mut tasks: Vec<Task> = Vec::new();
    for (d, p) in [("one", "low"), ("two", "high")] {
        apply_command(
            &mut tasks,
            Command::Add {
                description: d.to_string(),
                priority_text: p.to_string(),
                due_date: Some("2026-01-01".to_string()),
            },
        );
    }
    apply_command(&mut tasks, Command::Done { id: 1 });
    let before = tasks.clone();
    let (outcome, persist) = apply_command(
        &mut tasks,
        Command::List { status: Some("done".to_string()) },
    );
    assert!(!persist);
    assert_eq!(tasks, before);
    match outcome {
        Outcome::Listed { lines } => {
            assert_eq!(lines, vec!["[✓] 1 - one (Due: 2026-01-01) - Priority: Low".to_string()]);
        }
        other => panic!("unexpected outcome {:?}", other),
    }
}

#[test]
fn done_and_remove_commands_report_found() {
    let mut tasks: Vec<Task> = Vec::new();
    apply_command(
        &mut tasks,
        Command::Add {
            description: "only".to_string(),
            priority_text: "low".to_string(),
            due_date: Some("2026-01-01".to_string()),
        },
    );
    let (outcome, persist) = apply_command(&mut tasks, Command::Done { id: 5 });
    assert_eq!(outcome, Outcome::MarkedDone { found: false });
    assert!(!persist);
    let (outcome, persist) = apply_command(&mut tasks, Command::Done { id: 1 });
    assert_eq!(outcome, Outcome::MarkedDone { found: true });
    assert!(persist);
    assert!(tasks[0].done);
    let (outcome, persist) = apply_command(&mut tasks, Command::Remove { id: 5 });
    assert_eq!(outcome, Outcome::Removed { found: false });
    assert!(!persist);
    assert_eq!(tasks.len(), 1);
    let (outcome, persist) = apply_command(&mut tasks, Command::Remove { id: 1 });
    assert_eq!(outcome, Outcome::Removed { found: true });
    assert!(persist);
    assert!(tasks.is_empty());
}
