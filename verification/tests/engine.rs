use taskflow::domain::{
    is_valid_transition, NotificationKind, Priority, Project, Task, TaskFilter, TaskFlowError,
    TaskStatus, Timestamp, User,
};
use taskflow::engine::TaskFlowEngine;
use taskflow::table::Table;

fn test_engine() -> TaskFlowEngine {
    TaskFlowEngine::new("/tmp/taskflow-test".to_string())
}

fn ts(secs: i64) -> Timestamp {
    Timestamp { secs, nanos: 0 }
}

fn task(id: u128, title: &str, project: &str, priority: Priority, created: i64) -> Task {
    Task {
        id,
        title: title.to_string(),
        description: None,
        status: TaskStatus::Backlog,
        priority,
        assignee: None,
        project_id: project.to_string(),
        labels: Vec::new(),
        created_at: ts(created),
        updated_at: ts(created),
        due_date: None,
        parent_id: None,
        subtask_ids: Vec::new(),
    }
}

fn project(id: &str, owner: &str, members: &[&str]) -> Project {
    Project {
        id: id.to_string(),
        name: format!("Project {}", id),
        description: None,
        owner: owner.to_string(),
        members: members.iter().map(|m| m.to_string()).collect(),
        created_at: ts(0),
    }
}

fn empty_filter() -> TaskFilter {
    TaskFilter {
        status: None,
        priority: None,
        assignee: None,
        project_id: None,
        labels: None,
        due_before: None,
        due_after: None,
        search_text: None,
    }
}

#[test]
fn test_create_task_requires_project_membership() {
    let owner = "user-1".to_string();
    let mut users = Table::new();
    users.insert(
        owner.clone(),
        User {
            id: owner.clone(),
            name: "Alice".to_string(),
            email: "alice@example.com".to_string(),
            avatar_url: None,
        },
    );
    let mut engine = TaskFlowEngine::from_parts("/tmp/taskflow-test".to_string(), Table::new(), Table::new(), users);
    let project_id = engine.create_project("Test".to_string(), owner.clone()).unwrap();
    let result = engine.create_task("My Task".to_string(), project_id.clone(), &owner);
    assert!(result.is_ok());

    let outsider = "user-2".to_string();
    let result = engine.create_task("Sneaky Task".to_string(), project_id, &outsider);
    assert!(matches!(result, Err(TaskFlowError::PermissionDenied { .. })));
}

#[test]
fn test_status_transitions() {
    let mut engine = test_engine();
    let owner = "user-1".to_string();
    let project_id = engine.create_project("Test".to_string(), owner.clone()).unwrap();
    let task_id = engine.create_task("Task".to_string(), project_id, &owner).unwrap();

    // Valid: Backlog -> Todo
    assert!(engine.update_task_status(task_id, TaskStatus::Todo, &owner).is_ok());
    // Invalid: Todo -> Done (must go through InProgress and InReview)
    assert!(matches!(
        engine.update_task_status(task_id, TaskStatus::Done, &owner),
        Err(TaskFlowError::InvalidTransition { .. })
    ));
    // Valid: any -> Cancelled
    assert!(engine.update_task_status(task_id, TaskStatus::Cancelled, &owner).is_ok());
}

#[test]
fn test_duplicate_email_rejected() {
    let mut engine = test_engine();
    engine.register_user("Alice".to_string(), "alice@example.com".to_string()).unwrap();
    let result = engine.register_user("Bob".to_string(), "alice@example.com".to_string());
    assert!(matches!(result, Err(TaskFlowError::ValidationError(_))));
}

#[test]
fn transition_table() {
    let all = [
        TaskStatus::Backlog,
        TaskStatus::Todo,
        TaskStatus::InProgress,
        TaskStatus::InReview,
        TaskStatus::Done,
        TaskStatus::Cancelled,
    ];
    let allowed = [
        (TaskStatus::Backlog, TaskStatus::Todo),
        (TaskStatus::Todo, TaskStatus::InProgress),
        (TaskStatus::InProgress, TaskStatus::InReview),
        (TaskStatus::InReview, TaskStatus::Done),
        (TaskStatus::InReview, TaskStatus::InProgress),
    ];
    for from in all {
        for to in all {
            let expected = to == TaskStatus::Cancelled || allowed.contains(&(from, to));
            assert_eq!(is_valid_transition(from, to), expected, "{:?} -> {:?}", from, to);
        }
    }
}

#[test]
fn created_task_is_found_in_backlog() {
    let mut engine = test_engine();
    let owner = "owner".to_string();
    let pid = engine.create_project_with("P".to_string(), owner.clone(), "p1".to_string(), ts(5)).unwrap();
    assert_eq!(pid, "p1");
    let id = engine.create_task_with("Write docs".to_string(), pid.clone(), &owner, 42, ts(7)).unwrap();
    assert_eq!(id, 42);
    let t = engine.get_task(42).unwrap();
    assert_eq!(t.title, "Write docs");
    assert_eq!(t.status, TaskStatus::Backlog);
    assert_eq!(t.priority, Priority::NoPriority);
    assert_eq!(t.created_at, ts(7));
    assert_eq!(t.updated_at, ts(7));
    assert!(t.assignee.is_none());
    assert_eq!(t.project_id, "p1");
}

#[test]
fn create_task_in_missing_project() {
    let mut engine = test_engine();
    let r = engine.create_task("T".to_string(), "nope".to_string(), &"u".to_string());
    match r {
        Err(TaskFlowError::NotFound(m)) => assert_eq!(m, "project: nope"),
        other => panic!("unexpected {:?}", other),
    }
}

#[test]
fn missing_task_and_user_are_not_found() {
    let engine = test_engine();
    match engine.get_task(0x67e5504410b1426f9247bb680e5fe0c8) {
        Err(TaskFlowError::NotFound(m)) => assert_eq!(m, "task: 67e55044-10b1-426f-9247-bb680e5fe0c8"),
        other => panic!("unexpected {:?}", other),
    }
    match engine.get_user(&"ghost".to_string()) {
        Err(TaskFlowError::NotFound(m)) => assert_eq!(m, "user: ghost"),
        other => panic!("unexpected {:?}", other),
    }
}

#[test]
fn status_change_notifies_assignee_not_actor() {
    let mut engine = test_engine();
    let owner = "owner".to_string();
    let bob = "bob".to_string();
    let pid = engine.create_project_with("P".to_string(), owner.clone(), "p".to_string(), ts(0)).unwrap();
    engine.add_project_member_at(&pid, bob.clone(), &owner, ts(1)).unwrap();
    let id = engine.create_task_with("T".to_string(), pid.clone(), &owner, 1, ts(2)).unwrap();
    engine.assign_task_at(id, bob.clone(), &owner, ts(3)).unwrap();
    let sent = engine.take_notifications();
    assert_eq!(sent.len(), 2);
    assert_eq!(sent[0].kind, NotificationKind::ProjectInvite);
    assert_eq!(sent[0].user_id, "bob");
    assert_eq!(sent[0].message, "You were added to project: P");
    assert_eq!(sent[1].kind, NotificationKind::TaskAssigned);
    assert_eq!(sent[1].message, "You were assigned to task: T");
    assert_eq!(sent[1].timestamp, ts(3));

    // The owner moves the task: bob is told.
    engine.update_task_status_at(id, TaskStatus::Todo, &owner, ts(4)).unwrap();
    let sent = engine.take_notifications();
    assert_eq!(sent.len(), 1);
    assert_eq!(sent[0].kind, NotificationKind::TaskStatusChanged);
    assert_eq!(sent[0].user_id, "bob");
    assert_eq!(sent[0].message, "Task status changed to Todo");
    assert_eq!(engine.get_task(id).unwrap().updated_at, ts(4));

    // Bob moves it himself: nobody is told.
    engine.update_task_status_at(id, TaskStatus::InProgress, &bob, ts(5)).unwrap();
    assert!(engine.take_notifications().is_empty());
    assert_eq!(engine.get_task(id).unwrap().status, TaskStatus::InProgress);
}

#[test]
fn refused_operations_change_nothing() {
    let mut engine = test_engine();
    let owner = "owner".to_string();
    let pid = engine.create_project_with("P".to_string(), owner.clone(), "p".to_string(), ts(0)).unwrap();
    let id = engine.create_task_with("T".to_string(), pid.clone(), &owner, 9, ts(1)).unwrap();
    let stranger = "eve".to_string();
    match engine.update_task_status(id, TaskStatus::Todo, &stranger) {
        Err(TaskFlowError::PermissionDenied { user, action }) => {
            assert_eq!(user, "eve");
            assert_eq!(action, "update task status");
        }
        other => panic!("unexpected {:?}", other),
    }
    match engine.assign_task(id, owner.clone(), &stranger) {
        Err(TaskFlowError::PermissionDenied { action, .. }) => assert_eq!(action, "assign task"),
        other => panic!("unexpected {:?}", other),
    }
    match engine.assign_task(id, stranger.clone(), &owner) {
        Err(TaskFlowError::ValidationError(m)) => assert_eq!(m, "eve is not a member of project p"),
        other => panic!("unexpected {:?}", other),
    }
    match engine.delete_task(id, &stranger) {
        Err(TaskFlowError::PermissionDenied { action, .. }) => assert_eq!(action, "delete task"),
        other => panic!("unexpected {:?}", other),
    }
    match engine.add_project_member(&pid, stranger.clone(), &stranger) {
        Err(TaskFlowError::PermissionDenied { action, .. }) => assert_eq!(action, "add member"),
        other => panic!("unexpected {:?}", other),
    }
    match engine.add_project_member(&"q".to_string(), stranger.clone(), &owner) {
        Err(TaskFlowError::NotFound(m)) => assert_eq!(m, "project: q"),
        other => panic!("unexpected {:?}", other),
    }
    let t = engine.get_task(id).unwrap();
    assert_eq!(t.status, TaskStatus::Backlog);
    assert!(t.assignee.is_none());
    assert!(engine.take_notifications().is_empty());
}

#[test]
fn adding_a_member_twice_changes_nothing() {
    let mut engine = test_engine();
    let owner = "owner".to_string();
    let pid = engine.create_project_with("P".to_string(), owner.clone(), "p".to_string(), ts(0)).unwrap();
    engine.add_project_member_at(&pid, "bob".to_string(), &owner, ts(1)).unwrap();
    engine.add_project_member_at(&pid, "bob".to_string(), &owner, ts(2)).unwrap();
    engine.add_project_member_at(&pid, "owner".to_string(), &owner, ts(2)).unwrap();
    assert_eq!(engine.take_notifications().len(), 1);
    // bob may now create tasks in the project
    assert!(engine.create_task("B".to_string(), pid.clone(), &"bob".to_string()).is_ok());
}

#[test]
fn delete_removes_subtasks_and_parent_link() {
    let mut tasks = Table::new();
    let mut parent = task(1, "parent", "p", Priority::Low, 1);
    parent.subtask_ids = vec![2];
    let mut child = task(2, "child", "p", Priority::Low, 2);
    child.parent_id = Some(1);
    child.subtask_ids = vec![3, 4];
    let mut grandchild = task(3, "grandchild", "p", Priority::Low, 3);
    grandchild.parent_id = Some(2);
    let mut foreign = task(4, "foreign", "other", Priority::Low, 4);
    foreign.parent_id = Some(2);
    for t in [parent, child, grandchild, foreign] {
        tasks.insert(t.id, t);
    }
    let mut projects = Table::new();
    projects.insert("p".to_string(), project("p", "owner", &["owner"]));
    projects.insert("other".to_string(), project("other", "someone", &["someone"]));
    let mut engine = TaskFlowEngine::from_parts("/tmp/x".to_string(), tasks, projects, Table::new());

    assert!(engine.delete_task(2, &"owner".to_string()).is_ok());
    assert!(engine.get_task(2).is_err());
    assert!(engine.get_task(3).is_err());
    // a subtask in a project the actor does not own stays
    assert!(engine.get_task(4).is_ok());
    let p = engine.get_task(1).unwrap();
    assert!(p.subtask_ids.is_empty());
    // deleting again: not found
    assert!(matches!(engine.delete_task(2, &"owner".to_string()), Err(TaskFlowError::NotFound(_))));
}

#[test]
fn filter_orders_by_priority_then_age() {
    let mut tasks = Table::new();
    let mut a = task(1, "Alpha report", "p", Priority::Low, 10);
    a.labels = vec!["docs".to_string()];
    let mut b = task(2, "Beta", "p", Priority::Urgent, 30);
    b.description = Some("contains the REPORT".to_string());
    let c = task(3, "Gamma", "p", Priority::Urgent, 20);
    let d = task(4, "Delta report", "q", Priority::High, 5);
    for t in [a, b, c, d] {
        tasks.insert(t.id, t);
    }
    let mut engine = TaskFlowEngine::from_parts("/tmp/x".to_string(), tasks, Table::new(), Table::new());

    let all: Vec<u128> = engine.filter_tasks(&empty_filter()).iter().map(|t| t.id).collect();
    assert_eq!(all, vec![3, 2, 4, 1]);

    let mut f = empty_filter();
    f.search_text = Some("Report".to_string());
    let found: Vec<u128> = engine.filter_tasks(&f).iter().map(|t| t.id).collect();
    assert_eq!(found, vec![2, 4, 1]);

    let mut f = empty_filter();
    f.project_id = Some("p".to_string());
    f.priority = Some(vec![Priority::Urgent, Priority::Low]);
    let found: Vec<u128> = engine.filter_tasks(&f).iter().map(|t| t.id).collect();
    assert_eq!(found, vec![3, 2, 1]);

    let mut f = empty_filter();
    f.labels = Some(vec!["x".to_string(), "docs".to_string()]);
    let found: Vec<u128> = engine.filter_tasks(&f).iter().map(|t| t.id).collect();
    assert_eq!(found, vec![1]);

    let mut f = empty_filter();
    f.status = Some(vec![TaskStatus::Done]);
    assert!(engine.filter_tasks(&f).is_empty());
}

#[test]
fn filter_by_due_date_and_assignee() {
    let mut tasks = Table::new();
    let mut a = task(1, "A", "p", Priority::Low, 1);
    a.due_date = Some(ts(100));
    a.assignee = Some("bob".to_string());
    let mut b = task(2, "B", "p", Priority::Low, 2);
    b.due_date = Some(ts(200));
    let c = task(3, "C", "p", Priority::Low, 3);
    for t in [a, b, c] {
        tasks.insert(t.id, t);
    }
    let mut engine = TaskFlowEngine::from_parts("/tmp/x".to_string(), tasks, Table::new(), Table::new());
    let mut f = empty_filter();
    f.due_before = Some(ts(100));
    let ids: Vec<u128> = engine.filter_tasks(&f).iter().map(|t| t.id).collect();
    assert_eq!(ids, vec![1]);
    let mut f = empty_filter();
    f.due_after = Some(ts(150));
    let ids: Vec<u128> = engine.filter_tasks(&f).iter().map(|t| t.id).collect();
    assert_eq!(ids, vec![2]);
    let mut f = empty_filter();
    f.assignee = Some("bob".to_string());
    let ids: Vec<u128> = engine.filter_tasks(&f).iter().map(|t| t.id).collect();
    assert_eq!(ids, vec![1]);
}

#[test]
fn repeated_filter_gives_same_list_until_tasks_change() {
    let mut engine = test_engine();
    let owner = "o".to_string();
    let pid = engine.create_project_with("P".to_string(), owner.clone(), "p".to_string(), ts(0)).unwrap();
    engine.create_task_with("one".to_string(), pid.clone(), &owner, 1, ts(1)).unwrap();
    engine.create_task_with("two".to_string(), pid.clone(), &owner, 2, ts(1)).unwrap();
    let first: Vec<u128> = engine.filter_tasks(&empty_filter()).iter().map(|t| t.id).collect();
    let second: Vec<u128> = engine.filter_tasks(&empty_filter()).iter().map(|t| t.id).collect();
    assert_eq!(first, second);
    engine.create_task_with("three".to_string(), pid.clone(), &owner, 3, ts(0)).unwrap();
    let third: Vec<u128> = engine.filter_tasks(&empty_filter()).iter().map(|t| t.id).collect();
    assert_eq!(third.len(), 3);
    assert_eq!(third[0], 3);
}

#[test]
fn project_stats_count_done_and_overdue() {
    let mut tasks = Table::new();
    let mut a = task(1, "A", "p", Priority::Low, 1);
    a.status = TaskStatus::Done;
    a.due_date = Some(ts(5));
    let mut b = task(2, "B", "p", Priority::Low, 1);
    b.due_date = Some(ts(5));
    let mut c = task(3, "C", "p", Priority::Low, 1);
    c.due_date = Some(ts(50));
    let d = task(4, "D", "q", Priority::Low, 1);
    for t in [a, b, c, d] {
        tasks.insert(t.id, t);
    }
    let mut projects = Table::new();
    projects.insert("p".to_string(), project("p", "o", &["o"]));
    let engine = TaskFlowEngine::from_parts("/tmp/x".to_string(), tasks, projects, Table::new());
    let s = engine.project_stats_at(&"p".to_string(), ts(10)).unwrap();
    assert_eq!((s.total_tasks, s.completed_tasks, s.overdue_tasks), (3, 1, 1));
    let s = engine.get_project_stats(&"p".to_string()).unwrap();
    assert_eq!((s.total_tasks, s.completed_tasks, s.overdue_tasks), (3, 1, 2));
    match engine.get_project_stats(&"q".to_string()) {
        Err(TaskFlowError::NotFound(m)) => assert_eq!(m, "project: q"),
        other => panic!("unexpected {:?}", other),
    }
}

#[test]
fn analytics_records_each_operation() {
    let mut engine = test_engine();
    let owner = "o".to_string();
    let bob = "bob".to_string();
    let pid = engine.create_project_with("P".to_string(), owner.clone(), "p".to_string(), ts(0)).unwrap();
    engine.add_project_member_at(&pid, bob.clone(), &owner, ts(1)).unwrap();
    let id = engine.create_task_with("T".to_string(), pid.clone(), &owner, 1, ts(2)).unwrap();
    engine.assign_task_at(id, bob.clone(), &owner, ts(3)).unwrap();
    engine.update_task_status_at(id, TaskStatus::Todo, &owner, ts(4)).unwrap();
    assert!(engine.update_task_status_at(id, TaskStatus::Done, &owner, ts(5)).is_err());
    let uid = engine.register_user_with("U".to_string(), "u@x".to_string(), "u".to_string()).unwrap();
    engine.record_saved();
    let events = engine.flush_analytics();
    let kinds: Vec<&str> = events.iter().map(|e| e.event_type.as_str()).collect();
    assert_eq!(
        kinds,
        vec![
            "project_created",
            "notification_ProjectInvite",
            "member_added",
            "task_created",
            "notification_TaskAssigned",
            "task_assigned",
            "notification_TaskStatusChanged",
            "task_status_changed",
            "user_registered",
            "data_saved",
        ]
    );
    assert_eq!(events[0].user_id.as_deref(), Some("o"));
    assert_eq!(events[0].project_id.as_deref(), Some("p"));
    assert_eq!(events[1].user_id.as_deref(), Some("bob"));
    assert!(events[1].project_id.is_none());
    assert_eq!(events[1].timestamp, ts(1));
    assert_eq!(events[8].user_id.as_deref(), Some(uid.as_str()));
    assert!(engine.flush_analytics().is_empty());
}

#[test]
fn delete_unlinks_only_the_deleted_task() {
    let mut tasks = Table::new();
    let mut parent = task(1, "parent", "p", Priority::Low, 1);
    parent.subtask_ids = vec![2, 5];
    let mut a = task(2, "a", "p", Priority::Low, 2);
    a.parent_id = Some(1);
    a.subtask_ids = vec![3];
    let mut b = task(3, "b", "p", Priority::Low, 3);
    b.parent_id = Some(2);
    let mut sibling = task(5, "sibling", "p", Priority::High, 5);
    sibling.parent_id = Some(1);
    sibling.labels = vec!["keep".to_string()];
    let unrelated = task(6, "unrelated", "p", Priority::Low, 6);
    for t in [parent, a, b, sibling, unrelated] {
        tasks.insert(t.id, t);
    }
    let mut projects = Table::new();
    projects.insert("p".to_string(), project("p", "owner", &["owner"]));
    let mut engine = TaskFlowEngine::from_parts("/tmp/x".to_string(), tasks, projects, Table::new());
    engine.delete_task(2, &"owner".to_string()).unwrap();
    assert_eq!(engine.get_task(1).unwrap().subtask_ids, vec![5]);
    let s = engine.get_task(5).unwrap();
    assert_eq!(s.labels, vec!["keep".to_string()]);
    assert_eq!(s.parent_id, Some(1));
    assert!(engine.get_task(6).is_ok());
    assert!(engine.get_task(3).is_err());
    assert_eq!(engine.tasks().len(), 3);
    let deleted: Vec<String> = engine.flush_analytics().into_iter().map(|e| e.event_type).collect();
    assert_eq!(deleted, vec!["task_deleted".to_string(), "task_deleted".to_string()]);
}

#[test]
fn random_ids_are_fresh_uuids() {
    let mut engine = test_engine();
    let a = engine.register_user("A".to_string(), "a@x".to_string()).unwrap();
    let b = engine.register_user("B".to_string(), "b@x".to_string()).unwrap();
    assert_ne!(a, b);
    assert_eq!(a.len(), 36);
    assert_eq!(&a[14..15], "4");
    assert_eq!(engine.get_user(&a).unwrap().email, "a@x");
    let p = engine.create_project("P".to_string(), a.clone()).unwrap();
    assert_eq!(p.len(), 36);
    let t = engine.create_task("T".to_string(), p, &a).unwrap();
    assert_eq!((t >> 76) & 0xf, 4);
    let task = engine.get_task(t).unwrap();
    assert!(task.created_at.secs > 1_600_000_000);
}
