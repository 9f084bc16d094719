use todo_list::task::{parse_priority, priority_label, Priority};

#[test]
fn parse_low_any_case() {
    assert_eq!(parse_priority("low"), (Priority::Low, false));
    assert_eq!(parse_priority("Low"), (Priority::Low, false));
    assert_eq!(parse_priority("LOW"), (Priority::Low, false));
    assert_eq!(parse_priority("lOw"), (Priority::Low, false));
}

#[test]
fn parse_medium_any_case() {
    assert_eq!(parse_priority("medium"), (Priority::Medium, false));
    assert_eq!(parse_priority("Medium"), (Priority::Medium, false));
    assert_eq!(parse_priority("MEDIUM"), (Priority::Medium, false));
    assert_eq!(parse_priority("mEdIuM"), (Priority::Medium, false));
}

#[test]
fn parse_high_any_case() {
    assert_eq!(parse_priority("high"), (Priority::High, false));
    assert_eq!(parse_priority("High"), (Priority::High, false));
    assert_eq!(parse_priority("HIGH"), (Priority::High, false));
}

#[test]
fn parse_unrecognized_defaults_to_medium_with_warning() {
    assert_eq!(parse_priority("bogus"), (Priority::Medium, true));
    assert_eq!(parse_priority(""), (Priority::Medium, true));
    assert_eq!(parse_priority("lows"), (Priority::Medium, true));
    assert_eq!(parse_priority("hi"), (Priority::Medium, true));
    assert_eq!(parse_priority("low "), (Priority::Medium, true));
    assert_eq!(parse_priority("médium"), (Priority::Medium, true));
}

#[test]
fn labels() {
    assert_eq!(priority_label(Priority::Low), "Low");
    assert_eq!(priority_label(Priority::Medium), "Medium");
    assert_eq!(priority_label(Priority::High), "High");
}
