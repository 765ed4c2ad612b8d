use minitools::tasks::{add_task, mark_done, remove_task, Task};

fn task(id: usize, description: &str, done: bool) -> Task {
    Task { id, description: description.to_string(), done }
}

#[test]
fn added_tasks_are_numbered_by_the_length() {
    let mut tasks: Vec<Task> = Vec::new();
    add_task(&mut tasks, "write".to_string());
    add_task(&mut tasks, "test".to_string());
    assert_eq!(tasks, vec![task(1, "write", false), task(2, "test", false)]);
}

#[test]
fn numbers_may_repeat_after_a_removal() {
    let mut tasks = vec![task(1, "a", false), task(2, "b", false), task(3, "c", false)];
    assert!(remove_task(&mut tasks, 1));
    add_task(&mut tasks, "d".to_string());
    assert_eq!(tasks, vec![task(2, "b", false), task(3, "c", false), task(3, "d", false)]);
}

#[test]
fn mark_done_marks_the_first_of_that_number() {
    let mut tasks = vec![task(2, "b", false), task(3, "c", false), task(3, "d", false)];
    assert!(mark_done(&mut tasks, 3));
    assert_eq!(tasks, vec![task(2, "b", false), task(3, "c", true), task(3, "d", false)]);
    assert!(mark_done(&mut tasks, 3));
    assert_eq!(tasks, vec![task(2, "b", false), task(3, "c", true), task(3, "d", false)]);
}

#[test]
fn mark_done_of_an_unknown_number() {
    let mut tasks = vec![task(1, "a", false)];
    assert!(!mark_done(&mut tasks, 7));
    assert_eq!(tasks, vec![task(1, "a", false)]);
    let mut none: Vec<Task> = Vec::new();
    assert!(!mark_done(&mut none, 1));
}

#[test]
fn remove_takes_every_task_of_that_number() {
    let mut tasks = vec![
        task(3, "x", false),
        task(2, "b", true),
        task(3, "c", false),
        task(4, "e", false),
        task(3, "d", true),
    ];
    assert!(remove_task(&mut tasks, 3));
    assert_eq!(tasks, vec![task(2, "b", true), task(4, "e", false)]);
}

#[test]
fn remove_of_an_unknown_number() {
    let mut tasks = vec![task(1, "a", false), task(2, "b", false)];
    assert!(!remove_task(&mut tasks, 3));
    assert_eq!(tasks, vec![task(1, "a", false), task(2, "b", false)]);
    let mut none: Vec<Task> = Vec::new();
    assert!(!remove_task(&mut none, 1));
}

#[test]
fn status_of_a_task() {
    assert_eq!(task(1, "a", false).status(), "[Pending]");
    assert_eq!(task(1, "a", true).status(), "[Done]");
}
