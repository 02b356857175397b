use taskflow::analytics::{AnalyticsCollector, BufferedCollector, NullCollector};
use taskflow::domain::{
    NotificationKind, Priority, Project, Task, TaskFilter, TaskFlowError, TaskStatus, Timestamp,
    User,
};
use taskflow::notifications::{NotificationSink, NullSink};
use taskflow::services::facade::TaskFlowEngine;
use taskflow::services::project_service::ProjectService;
use taskflow::services::task_service::TaskService;
use taskflow::services::user_service::UserService;
use taskflow::table::Table;

fn ts(secs: i64) -> Timestamp {
    Timestamp { secs, nanos: 0 }
}

fn empty_filter() -> TaskFilter {
    TaskFilter {
        status: None,
        priority: None,
        assignee: None,
        project_id: None,
        labels: None,
        due_before: None,
        due_after: None,
        search_text: None,
    }
}

fn stored_task(id: u128, project: &str, priority: Priority, created: i64) -> Task {
    Task {
        id,
        title: format!("task {}", id),
        description: None,
        status: TaskStatus::Backlog,
        priority,
        assignee: None,
        project_id: project.to_string(),
        labels: Vec::new(),
        created_at: ts(created),
        updated_at: ts(created),
        due_date: None,
        parent_id: None,
        subtask_ids: Vec::new(),
    }
}

#[test]
fn task_service_creates_and_moves_tasks() {
    let mut svc = TaskService::new(Table::new());
    let id = svc.create_task_with("Write".to_string(), "p".to_string(), &"u".to_string(), 7, ts(3));
    assert_eq!(id, 7);
    let t = svc.get(7).unwrap();
    assert_eq!(t.status, TaskStatus::Backlog);
    assert_eq!(t.created_at, ts(3));
    assert!(svc.update_status_at(7, TaskStatus::Todo, &"u".to_string(), ts(4)).is_ok());
    match svc.update_status_at(7, TaskStatus::Done, &"u".to_string(), ts(5)) {
        Err(TaskFlowError::InvalidTransition { from, to }) => {
            assert_eq!(from, TaskStatus::Todo);
            assert_eq!(to, TaskStatus::Done);
        }
        other => panic!("unexpected {:?}", other),
    }
    assert_eq!(svc.get(7).unwrap().updated_at, ts(4));
    // nobody assigned: nobody told
    assert!(svc.take_notifications().is_empty());
    let events = svc.take_events();
    let kinds: Vec<&str> = events.iter().map(|e| e.event_type.as_str()).collect();
    assert_eq!(kinds, vec!["task_created", "task_status_changed"]);
    assert_eq!(events[0].user_id.as_deref(), Some("u"));
    assert_eq!(events[0].project_id.as_deref(), Some("p"));
    assert!(svc.take_events().is_empty());
}

#[test]
fn task_service_assign_tells_assignee() {
    let mut svc = TaskService::new(Table::new());
    svc.create_task_with("Fix".to_string(), "p".to_string(), &"u".to_string(), 1, ts(0));
    svc.assign_at(1, "bob".to_string(), &"u".to_string(), ts(9)).unwrap();
    let n = svc.take_notifications();
    assert_eq!(n.len(), 1);
    assert_eq!(n[0].kind, NotificationKind::TaskAssigned);
    assert_eq!(n[0].user_id, "bob");
    assert_eq!(n[0].message, "You were assigned to task: Fix");
    assert_eq!(n[0].timestamp, ts(9));
    assert_eq!(svc.get(1).unwrap().assignee.as_deref(), Some("bob"));
    match svc.assign(2, "bob".to_string(), &"u".to_string()) {
        Err(TaskFlowError::NotFound(m)) => assert_eq!(m, "task: 00000000-0000-0000-0000-000000000002"),
        other => panic!("unexpected {:?}", other),
    }
}

#[test]
fn task_service_delete_is_recursive() {
    let mut tasks = Table::new();
    let mut a = stored_task(1, "p", Priority::Low, 1);
    a.subtask_ids = vec![2];
    let mut b = stored_task(2, "p", Priority::Low, 2);
    b.parent_id = Some(1);
    b.subtask_ids = vec![3];
    let mut c = stored_task(3, "p", Priority::Low, 3);
    c.parent_id = Some(2);
    for t in [a, b, c] {
        tasks.insert(t.id, t);
    }
    let mut svc = TaskService::new(tasks);
    svc.delete(2, &"u".to_string()).unwrap();
    assert!(svc.get(2).is_err());
    assert!(svc.get(3).is_err());
    assert!(svc.get(1).unwrap().subtask_ids.is_empty());
    assert_eq!(svc.tasks().len(), 1);
    let deleted = svc.take_events().iter().filter(|e| e.event_type == "task_deleted").count();
    assert_eq!(deleted, 2);
    assert!(svc.delete(2, &"u".to_string()).is_err());
}

#[test]
fn task_service_filter_lists_by_priority() {
    let mut tasks = Table::new();
    for t in [
        stored_task(1, "p", Priority::Medium, 5),
        stored_task(2, "p", Priority::High, 9),
        stored_task(3, "p", Priority::Medium, 1),
    ] {
        tasks.insert(t.id, t);
    }
    let mut svc = TaskService::new(tasks);
    let ids: Vec<u128> = svc.filter(&empty_filter()).iter().map(|t| t.id).collect();
    assert_eq!(ids, vec![2, 3, 1]);
    let again: Vec<u128> = svc.filter(&empty_filter()).iter().map(|t| t.id).collect();
    assert_eq!(again, ids);
    svc.create_task_with("new".to_string(), "p".to_string(), &"u".to_string(), 4, ts(0));
    let after: Vec<u128> = svc.filter(&empty_filter()).iter().map(|t| t.id).collect();
    assert_eq!(after, vec![2, 3, 1, 4]);
}

#[test]
fn project_service_membership_and_stats() {
    let mut svc = ProjectService::new(Table::new());
    let pid = svc.create_with("Apollo".to_string(), "ann".to_string(), "p1".to_string(), ts(0)).unwrap();
    assert_eq!(pid, "p1");
    assert!(svc.is_member(&"ann".to_string(), &pid));
    assert!(svc.is_owner(&"ann".to_string(), &pid));
    assert!(!svc.is_member(&"bob".to_string(), &pid));
    match svc.add_member_at(&pid, "bob".to_string(), &"bob".to_string(), ts(1)) {
        Err(TaskFlowError::PermissionDenied { user, action }) => {
            assert_eq!(user, "bob");
            assert_eq!(action, "add member");
        }
        other => panic!("unexpected {:?}", other),
    }
    svc.add_member_at(&pid, "bob".to_string(), &"ann".to_string(), ts(2)).unwrap();
    assert!(svc.is_member(&"bob".to_string(), &pid));
    assert!(!svc.is_owner(&"bob".to_string(), &pid));
    let members = &svc.projects().get(&pid).unwrap().members;
    assert_eq!(members, &vec!["ann".to_string(), "bob".to_string()]);
    let n = svc.take_notifications();
    assert_eq!(n.len(), 1);
    assert_eq!(n[0].message, "You were added to project: Apollo");
    assert_eq!(n[0].timestamp, ts(2));

    let mut tasks = Table::new();
    let mut done = stored_task(1, "p1", Priority::Low, 0);
    done.status = TaskStatus::Done;
    let mut late = stored_task(2, "p1", Priority::Low, 0);
    late.due_date = Some(ts(10));
    let other = stored_task(3, "p2", Priority::Low, 0);
    for t in [done, late, other] {
        tasks.insert(t.id, t);
    }
    let s = svc.stats_at(&pid, &tasks, ts(20)).unwrap();
    assert_eq!((s.total_tasks, s.completed_tasks, s.overdue_tasks), (2, 1, 1));
    let s = svc.stats_at(&pid, &tasks, ts(10)).unwrap();
    assert_eq!(s.overdue_tasks, 0);
    assert!(matches!(svc.stats(&"p2".to_string(), &tasks), Err(TaskFlowError::NotFound(_))));
    let events: Vec<String> = svc.take_events().into_iter().map(|e| e.event_type).collect();
    assert_eq!(events, vec!["project_created".to_string(), "member_added".to_string()]);
}

#[test]
fn project_service_create_uses_fresh_ids() {
    let mut svc = ProjectService::new(Table::new());
    let a = svc.create("A".to_string(), "ann".to_string()).unwrap();
    let b = svc.create("B".to_string(), "ann".to_string()).unwrap();
    assert_ne!(a, b);
    assert_eq!(svc.projects().len(), 2);
    assert!(svc.add_member(&"missing".to_string(), "x".to_string(), &"ann".to_string()).is_err());
}

#[test]
fn user_service_rejects_duplicate_email() {
    let mut svc = UserService::new(Table::new());
    let id = svc.register_with("Ann".to_string(), "ann@x".to_string(), "u1".to_string()).unwrap();
    assert_eq!(id, "u1");
    let u = svc.get(&id).unwrap();
    assert_eq!(u.name, "Ann");
    assert!(u.avatar_url.is_none());
    match svc.register("Other".to_string(), "ann@x".to_string()) {
        Err(TaskFlowError::ValidationError(m)) => assert_eq!(m, "email already registered: ann@x"),
        other => panic!("unexpected {:?}", other),
    }
    assert_eq!(svc.users().len(), 1);
    match svc.get(&"u2".to_string()) {
        Err(TaskFlowError::NotFound(m)) => assert_eq!(m, "user: u2"),
        other => panic!("unexpected {:?}", other),
    }
    let events = svc.take_events();
    assert_eq!(events.len(), 1);
    assert_eq!(events[0].event_type, "user_registered");
    assert_eq!(events[0].user_id.as_deref(), Some("u1"));
    assert!(events[0].project_id.is_none());
}

#[test]
fn facade_flushes_events_of_every_service() {
    let mut users = Table::new();
    users.insert(
        "u".to_string(),
        User { id: "u".to_string(), name: "U".to_string(), email: "u@x".to_string(), avatar_url: None },
    );
    let mut engine = TaskFlowEngine::new("/data".to_string(), Table::new(), Table::new(), users);
    assert_eq!(engine.storage().storage_path, "/data");
    engine.user_service.register_with("V".to_string(), "v@x".to_string(), "v".to_string()).unwrap();
    engine.project_service.create_with("P".to_string(), "u".to_string(), "p".to_string(), ts(0)).unwrap();
    engine.task_service.create_task_with("T".to_string(), "p".to_string(), &"u".to_string(), 5, ts(0));
    engine.project_service.add_member_at(&"p".to_string(), "v".to_string(), &"u".to_string(), ts(1)).unwrap();
    engine.task_service.assign_at(5, "v".to_string(), &"u".to_string(), ts(2)).unwrap();
    engine.record_saved();
    let kinds: Vec<String> = engine.flush_analytics().into_iter().map(|e| e.event_type).collect();
    assert_eq!(
        kinds,
        vec!["task_created", "task_assigned", "project_created", "member_added", "user_registered", "data_saved"]
    );
    assert!(engine.flush_analytics().is_empty());
    let told: Vec<NotificationKind> = engine.take_notifications().into_iter().map(|n| n.kind).collect();
    assert_eq!(told, vec![NotificationKind::TaskAssigned, NotificationKind::ProjectInvite]);
    assert!(engine.take_notifications().is_empty());
}

#[test]
fn facade_starts_from_loaded_tables() {
    let mut projects = Table::new();
    projects.insert(
        "p".to_string(),
        Project {
            id: "p".to_string(),
            name: "P".to_string(),
            description: None,
            owner: "o".to_string(),
            members: vec!["o".to_string()],
            created_at: ts(0),
        },
    );
    let mut tasks = Table::new();
    tasks.insert(1, stored_task(1, "p", Priority::Low, 0));
    let engine = TaskFlowEngine::new("d".to_string(), tasks, projects, Table::new());
    assert!(engine.project_service.is_owner(&"o".to_string(), &"p".to_string()));
    assert_eq!(engine.task_service.get(1).unwrap().project_id, "p");
    assert_eq!(engine.user_service.users().len(), 0);
}

#[test]
fn buffered_collector_keeps_events_until_flushed() {
    let mut c = BufferedCollector::new();
    c.track_at("opened", Some(&"u".to_string()), None, ts(4));
    c.track("closed", None, Some(&"p".to_string()));
    let events = c.flush();
    assert_eq!(events.len(), 2);
    assert_eq!(events[0].event_type, "opened");
    assert_eq!(events[0].timestamp, ts(4));
    assert_eq!(events[0].user_id.as_deref(), Some("u"));
    assert!(events[0].metadata.is_empty());
    assert_eq!(events[1].project_id.as_deref(), Some("p"));
    assert!(c.flush().is_empty());
}

#[test]
fn null_collector_and_sink_discard() {
    let mut c = NullCollector;
    c.track("x", None, None);
    assert!(c.flush().is_empty());
    let sink = NullSink;
    let mut svc = TaskService::new(Table::new());
    svc.create_task_with("T".to_string(), "p".to_string(), &"u".to_string(), 1, ts(0));
    svc.assign_at(1, "b".to_string(), &"u".to_string(), ts(0)).unwrap();
    for n in svc.take_notifications() {
        sink.send(&n);
    }
}

#[test]
fn facade_flush_after_one_creation() {
    let mut engine = TaskFlowEngine::new("d".to_string(), Table::new(), Table::new(), Table::new());
    let id = engine.project_service.create("P".to_string(), "o".to_string()).unwrap();
    let events = engine.flush_analytics();
    assert_eq!(events.len(), 1);
    assert_eq!(events[0].event_type, "project_created");
    assert_eq!(events[0].user_id.as_deref(), Some("o"));
    assert_eq!(events[0].project_id.as_deref(), Some(id.as_str()));
    assert!(engine.flush_analytics().is_empty());
}

#[test]
fn task_service_delete_keeps_siblings() {
    let mut tasks = Table::new();
    let mut a = stored_task(1, "p", Priority::Low, 1);
    a.subtask_ids = vec![2, 4];
    let mut b = stored_task(2, "p", Priority::Low, 2);
    b.parent_id = Some(1);
    let mut d = stored_task(4, "q", Priority::High, 4);
    d.parent_id = Some(1);
    for t in [a, b, d] {
        tasks.insert(t.id, t);
    }
    let mut svc = TaskService::new(tasks);
    svc.delete(2, &"u".to_string()).unwrap();
    assert_eq!(svc.get(1).unwrap().subtask_ids, vec![4]);
    assert_eq!(svc.get(4).unwrap().priority, Priority::High);
    let events = svc.take_events();
    assert_eq!(events.len(), 1);
    assert_eq!(events[0].project_id.as_deref(), Some("p"));
}

#[test]
fn listing_after_creation_is_fresh() {
    let mut svc = TaskService::new(Table::new());
    svc.create_task_with("a".to_string(), "p".to_string(), &"u".to_string(), 1, ts(1));
    let mut f = empty_filter();
    f.project_id = Some("p".to_string());
    let before: Vec<u128> = svc.filter(&f).iter().map(|t| t.id).collect();
    let id = svc.create_task("b".to_string(), "p".to_string(), &"u".to_string());
    let after: Vec<u128> = svc.filter(&f).iter().map(|t| t.id).collect();
    assert_eq!(after.len(), before.len() + 1);
    assert!(after.contains(&id));
}
