use task_manager::commands::{
    add_command, complete_command, delete_command, filter_tasks, show_command, task_stats,
    update_command, Command, Filter,
};
use task_manager::text::split_words;
use task_manager::{Priority, Status, Task, TaskError, TaskManager};

fn store() -> TaskManager<Task> {
    let mut m = TaskManager::new();
    add_command(&mut m, &["alpha", "high", "work"]).unwrap();
    add_command(&mut m, &["beta", "low"]).unwrap();
    add_command(&mut m, &["gamma", "HIGH", "home"]).unwrap();
    m
}

#[test]
fn command_words() {
    assert_eq!(Command::named("add"), Command::Add);
    assert_eq!(Command::named("list"), Command::List);
    assert_eq!(Command::named("show"), Command::Show);
    assert_eq!(Command::named("update"), Command::Update);
    assert_eq!(Command::named("complete"), Command::Complete);
    assert_eq!(Command::named("delete"), Command::Delete);
    assert_eq!(Command::named("stats"), Command::Stats);
    assert_eq!(Command::named("help"), Command::Help);
    assert_eq!(Command::named("quit"), Command::Quit);
    assert_eq!(Command::named("exit"), Command::Quit);
    assert_eq!(Command::named("Add"), Command::Unknown);
    assert!(Command::Add.saves() && Command::Delete.saves());
    assert!(!Command::List.saves() && !Command::Quit.saves());
}

#[test]
fn line_words() {
    assert_eq!(split_words("  add  Buy\tmilk \n"), vec!["add", "Buy", "milk"]);
    assert!(split_words("   ").is_empty());
    assert_eq!(split_words("x"), vec!["x"]);
}

#[test]
fn add_command_checks_its_arguments() {
    let mut m = TaskManager::new();
    match add_command(&mut m, &["only"]) {
        Err(TaskError::ValidationError(s)) => {
            assert_eq!(s, "Usage: add <title> <priority> [category]")
        }
        other => panic!("unexpected {:?}", other),
    }
    assert!(matches!(add_command(&mut m, &["t", "urgent"]), Err(TaskError::InvalidPriority(_))));
    assert!(matches!(add_command(&mut m, &[" ", "low"]), Err(TaskError::ValidationError(_))));
    assert_eq!(m.count(), 0);
    assert_eq!(m.next_id(), 1);
}

#[test]
fn add_command_adds_under_the_next_identifier() {
    let m = store();
    let tasks = m.list_tasks();
    assert_eq!(tasks.len(), 3);
    assert_eq!(tasks[0].id, 1);
    assert_eq!(tasks[0].category.as_deref(), Some("work"));
    assert_eq!(tasks[1].id, 2);
    assert_eq!(tasks[1].category, None);
    assert_eq!(tasks[1].priority, Priority::Low);
    assert_eq!(tasks[2].priority, Priority::High);
}

#[test]
fn show_command_finds_by_identifier() {
    let m = store();
    assert_eq!(show_command(&m, &["2"]).unwrap().title, "beta");
    assert!(matches!(show_command(&m, &[]), Err(TaskError::ValidationError(_))));
    match show_command(&m, &["two"]) {
        Err(TaskError::ParseError(s)) => assert_eq!(s, "Invalid task ID"),
        other => panic!("unexpected {:?}", other),
    }
    assert!(matches!(show_command(&m, &["9"]), Err(TaskError::NotFound(9))));
}

#[test]
fn update_command_changes_one_field() {
    let mut m = store();
    assert_eq!(update_command(&mut m, &["1", "status", "in_progress"]).unwrap(), 1);
    update_command(&mut m, &["2", "priority", "critical"]).unwrap();
    update_command(&mut m, &["3", "title", "new", "long", "title"]).unwrap();
    assert_eq!(m.get_task_by_id(1).unwrap().status, Status::InProgress);
    assert_eq!(m.get_task_by_id(2).unwrap().priority, Priority::Critical);
    assert_eq!(m.get_task_by_id(3).unwrap().title, "new long title");
    assert_eq!(m.get_task_by_id(3).unwrap().category.as_deref(), Some("home"));
}

#[test]
fn update_command_errors() {
    let mut m = store();
    assert!(matches!(update_command(&mut m, &["1", "status"]), Err(TaskError::ValidationError(_))));
    assert!(matches!(update_command(&mut m, &["x", "status", "done"]), Err(TaskError::ParseError(_))));
    assert!(matches!(update_command(&mut m, &["7", "colour", "red"]), Err(TaskError::NotFound(7))));
    match update_command(&mut m, &["1", "colour", "red"]) {
        Err(TaskError::ValidationError(s)) => {
            assert_eq!(s, "Unknown field: colour. Valid fields: status, priority, title")
        }
        other => panic!("unexpected {:?}", other),
    }
    assert!(matches!(update_command(&mut m, &["1", "status", "done"]), Err(TaskError::InvalidStatus(_))));
    assert_eq!(m.get_task_by_id(1).unwrap().status, Status::Pending);
}

#[test]
fn complete_and_delete_commands() {
    let mut m = store();
    assert_eq!(complete_command(&mut m, &["2"]).unwrap(), 2);
    assert!(m.get_task_by_id(2).unwrap().is_completed());
    assert!(matches!(complete_command(&mut m, &["8"]), Err(TaskError::NotFound(8))));
    assert!(matches!(complete_command(&mut m, &[]), Err(TaskError::ValidationError(_))));
    let gone = delete_command(&mut m, &["1"]).unwrap();
    assert_eq!(gone.title, "alpha");
    assert_eq!(m.count(), 2);
    assert!(matches!(delete_command(&mut m, &["1"]), Err(TaskError::NotFound(1))));
    assert!(matches!(delete_command(&mut m, &["-1"]), Err(TaskError::ParseError(_))));
}

#[test]
fn list_filters() {
    let mut m = store();
    complete_command(&mut m, &["3"]).unwrap();
    let all = filter_tasks(m.list_tasks(), &Filter::parse(&[]));
    assert_eq!(all.len(), 3);
    let high = filter_tasks(m.list_tasks(), &Filter::parse(&["priority=High"]));
    let ids: Vec<u32> = high.iter().map(|t| t.id).collect();
    assert_eq!(ids, vec![1, 3]);
    let done_high = filter_tasks(m.list_tasks(), &Filter::parse(&["priority=high", "status=completed"]));
    assert_eq!(done_high.len(), 1);
    assert_eq!(done_high[0].id, 3);
    let work = filter_tasks(m.list_tasks(), &Filter::parse(&["category=work", "verbose"]));
    assert_eq!(work.len(), 1);
    assert_eq!(work[0].title, "alpha");
    let f = Filter::parse(&["status=pending", "status=bogus"]);
    assert_eq!(f.status, None);
    assert_eq!(filter_tasks(m.list_tasks(), &f).len(), 3);
}

#[test]
fn stats_count_statuses_and_priorities() {
    let mut m = store();
    complete_command(&mut m, &["1"]).unwrap();
    update_command(&mut m, &["2", "status", "inprogress"]).unwrap();
    let s = task_stats(m.list_tasks());
    assert_eq!(s.total, 3);
    assert_eq!((s.pending, s.in_progress, s.completed), (1, 1, 1));
    assert_eq!((s.critical, s.high, s.medium, s.low), (0, 2, 0, 1));
    let e = task_stats(&[]);
    assert_eq!(e.total, 0);
}
