use task_manager::{decode_records, encode_records, FileStorage, Priority, Task, TaskError, TaskManager};

fn task(title: &str, priority: Priority) -> Task {
    Task::new(0, title.to_string(), priority).unwrap()
}

#[test]
fn file_storage_keeps_its_path() {
    let s = FileStorage::new("tasks.txt".to_string());
    assert_eq!(s.path(), "tasks.txt");
}

#[test]
fn missing_file_holds_no_records() {
    let r = decode_records(None).unwrap();
    assert!(r.is_empty());
}

#[test]
fn empty_file_holds_no_records() {
    assert!(decode_records(Some("")).unwrap().is_empty());
    assert!(decode_records(Some("\n  \n\t\n")).unwrap().is_empty());
}

#[test]
fn encode_joins_lines_with_newlines() {
    let a = Task::new(1, "A".to_string(), Priority::Low).unwrap();
    let b = Task::new(2, "B".to_string(), Priority::High).unwrap().with_category("c".to_string());
    assert_eq!(
        encode_records(&[a, b]),
        "1|A|None|LOW|PENDING|None|2024-01-15 10:00:00\n2|B|None|HIGH|PENDING|c|2024-01-15 10:00:00"
    );
    assert_eq!(encode_records(&[]), "");
}

#[test]
fn decode_skips_blank_lines_and_line_ends() {
    let text = "\n1|A|None|LOW|PENDING|None|t1\r\n   \n2|B|d|HIGH|COMPLETED|c|t2\n";
    let r = decode_records(Some(text)).unwrap();
    assert_eq!(r.len(), 2);
    assert_eq!(r[0].id, 1);
    assert_eq!(r[0].created_at, "t1");
    assert_eq!(r[1].id, 2);
    assert_eq!(r[1].description.as_deref(), Some("d"));
    assert_eq!(r[1].created_at, "t2");
}

#[test]
fn decode_stops_at_first_bad_line() {
    let text = "1|A|None|LOW|PENDING|None|t1\nbroken\n2|B|None|urgent|PENDING|None|t2";
    match decode_records(Some(text)) {
        Err(TaskError::SerializationError(m)) => assert_eq!(m, "Expected 7 fields, got 1"),
        other => panic!("unexpected {:?}", other),
    }
    let text = "1|A|None|LOW|PENDING|None|t1\n2|B|None|urgent|PENDING|None|t2\nbroken";
    assert!(matches!(decode_records(Some(text)), Err(TaskError::InvalidPriority(_))));
}

#[test]
fn save_then_load_round_trip() {
    let mut m = TaskManager::new();
    assert_eq!(m.add_task(task("Write report", Priority::High)), 1);
    assert_eq!(m.add_task(task("Review PR", Priority::Medium)), 2);
    let text = encode_records(m.list_tasks());

    let mut fresh: TaskManager<Task> = TaskManager::new();
    fresh.load_tasks_with_id_update(decode_records(Some(&text)).unwrap());
    assert_eq!(fresh.count(), 2);
    assert_eq!(fresh.next_id(), 3);
    for (a, b) in m.list_tasks().iter().zip(fresh.list_tasks()) {
        assert_eq!(a.id, b.id);
        assert_eq!(a.title, b.title);
        assert_eq!(a.description, b.description);
        assert_eq!(a.priority, b.priority);
        assert_eq!(a.status, b.status);
        assert_eq!(a.category, b.category);
        assert_eq!(a.created_at, b.created_at);
    }
}
