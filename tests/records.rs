use task_manager::{Priority, Serializable, Status, Task, TaskError};

fn task(id: u32, title: &str, priority: Priority) -> Task {
    Task::new(id, title.to_string(), priority).unwrap()
}

#[test]
fn priority_parse_ignores_case() {
    assert_eq!(Priority::parse("HIGH").unwrap(), Priority::High);
    assert_eq!(Priority::parse("high").unwrap(), Priority::High);
    assert_eq!(Priority::parse("High").unwrap(), Priority::High);
    assert_eq!(Priority::parse("low").unwrap(), Priority::Low);
    assert_eq!(Priority::parse("Medium").unwrap(), Priority::Medium);
    assert_eq!(Priority::parse("cRiTiCaL").unwrap(), Priority::Critical);
}

#[test]
fn priority_parse_rejects_unknown() {
    match Priority::parse("urgent") {
        Err(TaskError::InvalidPriority(s)) => assert_eq!(s, "urgent"),
        other => panic!("unexpected {:?}", other),
    }
    assert!(matches!(Priority::parse(""), Err(TaskError::InvalidPriority(_))));
    assert!(matches!(Priority::parse(" high"), Err(TaskError::InvalidPriority(_))));
}

#[test]
fn priority_canonical_text() {
    assert_eq!(Priority::Low.as_str(), "LOW");
    assert_eq!(Priority::Medium.as_str(), "MEDIUM");
    assert_eq!(Priority::High.as_str(), "HIGH");
    assert_eq!(Priority::Critical.as_str(), "CRITICAL");
}

#[test]
fn status_parse_accepts_synonyms() {
    assert_eq!(Status::parse("pending").unwrap(), Status::Pending);
    assert_eq!(Status::parse("IN_PROGRESS").unwrap(), Status::InProgress);
    assert_eq!(Status::parse("InProgress").unwrap(), Status::InProgress);
    assert_eq!(Status::parse("complete").unwrap(), Status::Completed);
    assert_eq!(Status::parse("Completed").unwrap(), Status::Completed);
    match Status::parse("done") {
        Err(TaskError::InvalidStatus(s)) => assert_eq!(s, "done"),
        other => panic!("unexpected {:?}", other),
    }
}

#[test]
fn status_canonical_text() {
    assert_eq!(Status::Pending.as_str(), "PENDING");
    assert_eq!(Status::InProgress.as_str(), "IN_PROGRESS");
    assert_eq!(Status::Completed.as_str(), "COMPLETED");
}

#[test]
fn new_rejects_blank_titles() {
    for title in ["", "   ", "\t\n"] {
        match Task::new(1, title.to_string(), Priority::Low) {
            Err(TaskError::ValidationError(m)) => assert_eq!(m, "Title cannot be empty"),
            other => panic!("unexpected {:?}", other),
        }
    }
}

#[test]
fn new_builds_pending_task() {
    let t = task(3, "Buy milk", Priority::Medium);
    assert_eq!(t.id, 3);
    assert_eq!(t.title, "Buy milk");
    assert_eq!(t.status, Status::Pending);
    assert_eq!(t.priority, Priority::Medium);
    assert_eq!(t.description, None);
    assert_eq!(t.category, None);
    assert_eq!(t.created_at, "2024-01-15 10:00:00");
    assert!(!t.is_completed());
}

#[test]
fn builders_and_setters() {
    let mut t = task(1, "Plan", Priority::Low)
        .with_description("the details".to_string())
        .with_category("work".to_string());
    assert_eq!(t.description.as_deref(), Some("the details"));
    assert_eq!(t.category.as_deref(), Some("work"));
    t.set_status(Status::Completed);
    t.set_priority(Priority::Critical);
    assert!(t.is_completed());
    assert_eq!(t.priority, Priority::Critical);
    t.set_status(Status::InProgress);
    assert!(!t.is_completed());
}

#[test]
fn render_with_and_without_category() {
    let t = task(12, "Write report", Priority::High);
    assert_eq!(t.render(), "[12] [PENDING] [HIGH] Write report");
    let t = t.with_category("work".to_string());
    assert_eq!(t.render(), "[12] [PENDING] [HIGH] Write report (work)");
}

#[test]
fn serialize_writes_seven_fields() {
    let t = task(1, "Write report", Priority::High);
    assert_eq!(t.serialize(), "1|Write report|None|HIGH|PENDING|None|2024-01-15 10:00:00");
    let mut t = t.with_description("Q3 numbers".to_string()).with_category("work".to_string());
    t.set_status(Status::InProgress);
    assert_eq!(
        t.serialize(),
        "1|Write report|Q3 numbers|HIGH|IN_PROGRESS|work|2024-01-15 10:00:00"
    );
}

#[test]
fn decode_of_encode_gives_the_task_back() {
    let mut t = task(4294967295, "Review PR", Priority::Medium)
        .with_description("".to_string())
        .with_category("code".to_string());
    t.set_status(Status::Completed);
    let back = Task::deserialize(&t.serialize()).unwrap();
    assert_eq!(back.id, t.id);
    assert_eq!(back.title, t.title);
    assert_eq!(back.description, t.description);
    assert_eq!(back.priority, t.priority);
    assert_eq!(back.status, t.status);
    assert_eq!(back.category, t.category);
    assert_eq!(back.created_at, t.created_at);
}

#[test]
fn deserialize_reads_none_as_absent() {
    let t = Task::deserialize("+7|Title|None|low|complete|None|later").unwrap();
    assert_eq!(t.id, 7);
    assert_eq!(t.description, None);
    assert_eq!(t.category, None);
    assert_eq!(t.priority, Priority::Low);
    assert_eq!(t.status, Status::Completed);
    assert_eq!(t.created_at, "later");
}

#[test]
fn deserialize_rejects_wrong_field_count() {
    match Task::deserialize("1|a|b") {
        Err(TaskError::SerializationError(m)) => assert_eq!(m, "Expected 7 fields, got 3"),
        other => panic!("unexpected {:?}", other),
    }
    match Task::deserialize("1|a|b|c|d|e|f|g") {
        Err(TaskError::SerializationError(m)) => assert_eq!(m, "Expected 7 fields, got 8"),
        other => panic!("unexpected {:?}", other),
    }
    match Task::deserialize("") {
        Err(TaskError::SerializationError(m)) => assert_eq!(m, "Expected 7 fields, got 1"),
        other => panic!("unexpected {:?}", other),
    }
}

#[test]
fn deserialize_rejects_bad_id() {
    for id in ["x", "", "-1", "4294967296", "+"] {
        let line = format!("{}|t|None|LOW|PENDING|None|now", id);
        match Task::deserialize(&line) {
            Err(TaskError::ParseError(m)) => assert_eq!(m, "Invalid ID"),
            other => panic!("unexpected {:?} for {}", other, id),
        }
    }
}

#[test]
fn deserialize_rejects_bad_priority_then_status() {
    match Task::deserialize("1|t|None|urgent|nope|None|now") {
        Err(TaskError::InvalidPriority(p)) => assert_eq!(p, "urgent"),
        other => panic!("unexpected {:?}", other),
    }
    match Task::deserialize("1|t|None|LOW|nope|None|now") {
        Err(TaskError::InvalidStatus(s)) => assert_eq!(s, "nope"),
        other => panic!("unexpected {:?}", other),
    }
}

#[test]
fn error_messages() {
    assert_eq!(TaskError::NotFound(42).message(), "Task #42 not found");
    assert_eq!(TaskError::ParseError("Invalid ID".to_string()).message(), "Parse error: Invalid ID");
    assert_eq!(
        TaskError::ValidationError("x".to_string()).message(),
        "Validation error: x"
    );
    assert_eq!(TaskError::InvalidPriority("u".to_string()).message(), "Invalid priority: u");
    assert_eq!(TaskError::InvalidStatus("s".to_string()).message(), "Invalid status: s");
    assert_eq!(
        TaskError::SerializationError("bad".to_string()).message(),
        "Serialization error: bad"
    );
    let io = TaskError::from(std::io::Error::new(std::io::ErrorKind::Other, "disk full"));
    assert!(matches!(io, TaskError::IoError(_)));
    assert_eq!(io.message(), "IO error: disk full");
}
