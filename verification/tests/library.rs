use taskflow::domain::{
    Notification, NotificationKind, Priority, Project, Task, TaskFilter, TaskFlowError, TaskStatus,
    Timestamp,
};
use taskflow::clock::{now, timestamp_from_offset};
use taskflow::ids::{random_id, random_text_id, uuid_string};
use taskflow::query::{matches_filter, ranks_before_exec, select, FilterCache};
use taskflow::scaffold::{
    AuthPolicy, BufferedAnalyticsCollector, CachedTaskQuery, DefaultAuthPolicy, InMemoryTaskQuery,
    NotificationService, ProjectServiceError, ProjectServiceImpl, TaskServiceError, TaskServiceImpl,
    UserServiceError, UserServiceImpl,
};
use taskflow::stats::count_project_tasks;
use taskflow::storage::{JsonFileStorage, StorageError};
use taskflow::table::Table;
use taskflow::text::{chars_of, contains_ignoring_case, occurs, vec_has_text};

fn ts(secs: i64) -> Timestamp {
    Timestamp { secs, nanos: 0 }
}

fn task(id: u128, project: &str) -> Task {
    Task {
        id,
        title: "Quarterly Report".to_string(),
        description: Some("Numbers for Q3".to_string()),
        status: TaskStatus::InProgress,
        priority: Priority::Medium,
        assignee: Some("ann".to_string()),
        project_id: project.to_string(),
        labels: vec!["finance".to_string(), "q3".to_string()],
        created_at: ts(1),
        updated_at: ts(1),
        due_date: Some(ts(50)),
        parent_id: None,
        subtask_ids: Vec::new(),
    }
}

fn no_filter() -> TaskFilter {
    TaskFilter {
        status: None,
        priority: None,
        assignee: None,
        project_id: None,
        labels: None,
        due_before: None,
        due_after: None,
        search_text: None,
    }
}

struct OwnerOnly;

impl AuthPolicy for OwnerOnly {
    fn can_create_task(&self, user: &String, project: &Project) -> bool {
        project.owner == *user
    }
    fn can_update_task(&self, user: &String, project: &Project) -> bool {
        project.owner == *user
    }
    fn can_delete_task(&self, user: &String, project: &Project) -> bool {
        project.owner == *user
    }
    fn can_assign_task(&self, user: &String, project: &Project) -> bool {
        project.owner == *user
    }
    fn can_add_member(&self, user: &String, project: &Project) -> bool {
        project.owner == *user
    }
}

struct Quiet;

impl NotificationService for Quiet {
    fn notify(&self, _notification: &Notification) {}
}

#[test]
fn uuid_text_is_hyphenated_lowercase() {
    assert_eq!(uuid_string(0x67e5504410b1426f9247bb680e5fe0c8), "67e55044-10b1-426f-9247-bb680e5fe0c8");
    assert_eq!(uuid_string(0), "00000000-0000-0000-0000-000000000000");
    assert_eq!(uuid_string(u128::MAX), "ffffffff-ffff-ffff-ffff-ffffffffffff");
}

#[test]
fn random_ids_are_version_four() {
    let a = random_id();
    let b = random_id();
    assert_ne!(a, b);
    assert_eq!((a >> 76) & 0xf, 4);
    assert_eq!((a >> 62) & 0x3, 2);
    let t = random_text_id();
    assert_eq!(t.len(), 36);
    assert_eq!(t.chars().nth(14), Some('4'));
}

#[test]
fn search_ignores_case() {
    assert!(contains_ignoring_case("Quarterly REPORT", "report"));
    assert!(contains_ignoring_case("abc", ""));
    assert!(!contains_ignoring_case("abc", "abcd"));
    assert!(contains_ignoring_case("ÉCOLE", "école"));
    assert!(!contains_ignoring_case("report", "Reports"));
    let hay = chars_of("banana");
    assert!(occurs(&hay, &chars_of("nan")));
    assert!(!occurs(&hay, &chars_of("nab")));
}

#[test]
fn membership_lookup() {
    let v = vec!["a".to_string(), "b".to_string()];
    assert!(vec_has_text(&v, &"b".to_string()));
    assert!(!vec_has_text(&v, &"c".to_string()));
}

#[test]
fn filter_criteria() {
    let t = task(1, "p");
    assert!(matches_filter(&t, &no_filter()));
    let mut f = no_filter();
    f.search_text = Some("q3".to_string());
    assert!(matches_filter(&t, &f));
    f.search_text = Some("nothing".to_string());
    assert!(!matches_filter(&t, &f));
    let mut f = no_filter();
    f.status = Some(vec![TaskStatus::Todo, TaskStatus::InProgress]);
    f.priority = Some(vec![Priority::Medium]);
    f.assignee = Some("ann".to_string());
    f.project_id = Some("p".to_string());
    f.labels = Some(vec!["q3".to_string()]);
    f.due_before = Some(ts(50));
    f.due_after = Some(ts(50));
    assert!(matches_filter(&t, &f));
    f.assignee = Some("bob".to_string());
    assert!(!matches_filter(&t, &f));
    let mut f = no_filter();
    f.due_after = Some(ts(51));
    assert!(!matches_filter(&t, &f));
    let mut f = no_filter();
    f.labels = Some(Vec::new());
    assert!(!matches_filter(&t, &f));
    let mut undated = task(2, "p");
    undated.due_date = None;
    let mut f = no_filter();
    f.due_before = Some(ts(100));
    assert!(!matches_filter(&undated, &f));
}

#[test]
fn listing_order_and_cache() {
    let mut a = task(1, "p");
    a.priority = Priority::Low;
    let mut b = task(2, "p");
    b.priority = Priority::Urgent;
    b.created_at = ts(9);
    let mut c = task(3, "p");
    c.priority = Priority::Urgent;
    c.created_at = ts(3);
    assert!(ranks_before_exec(&b, &a));
    assert!(ranks_before_exec(&c, &b));
    assert!(!ranks_before_exec(&a, &a));
    let mut tasks = Table::new();
    for t in [a, b, c] {
        tasks.insert(t.id, t);
    }
    let ids: Vec<u128> = select(&tasks, &no_filter()).iter().map(|t| t.id).collect();
    assert_eq!(ids, vec![3, 2, 1]);
    let mut cache = FilterCache::new();
    assert!(cache.lookup(&no_filter()).is_none());
    cache.store(no_filter(), vec![3, 2, 1]);
    assert_eq!(cache.lookup(&no_filter()), Some(&vec![3, 2, 1]));
    cache.clear();
    assert!(cache.lookup(&no_filter()).is_none());
}

#[test]
fn table_keeps_one_value_per_key() {
    let mut t: Table<String, u32> = Table::new();
    assert_eq!(t.insert("a".to_string(), 1), None);
    assert_eq!(t.insert("b".to_string(), 2), None);
    assert_eq!(t.insert("a".to_string(), 3), Some(1));
    assert_eq!(t.len(), 2);
    assert_eq!(t.get(&"a".to_string()), Some(&3));
    assert_eq!(t.position(&"b".to_string()), Some(1));
    assert_eq!(t.entry(0), (&"a".to_string(), &3));
    assert_eq!(t.remove(&"a".to_string()), Some(3));
    assert!(!t.contains_key(&"a".to_string()));
    assert_eq!(t.remove(&"a".to_string()), None);
    t.clear();
    assert_eq!(t.len(), 0);
}

#[test]
fn stats_count_by_project() {
    let mut tasks = Table::new();
    let mut done = task(1, "p");
    done.status = TaskStatus::Done;
    done.due_date = Some(ts(1));
    tasks.insert(1, done);
    tasks.insert(2, task(2, "p"));
    tasks.insert(3, task(3, "q"));
    let s = count_project_tasks(&tasks, &"p".to_string(), ts(60));
    assert_eq!((s.total_tasks, s.completed_tasks, s.overdue_tasks), (2, 1, 1));
    let s = count_project_tasks(&tasks, &"p".to_string(), Timestamp { secs: 50, nanos: 1 });
    assert_eq!(s.overdue_tasks, 1);
    let s = count_project_tasks(&tasks, &"z".to_string(), ts(60));
    assert_eq!((s.total_tasks, s.completed_tasks, s.overdue_tasks), (0, 0, 0));
}

#[test]
fn error_messages() {
    assert_eq!(TaskFlowError::NotFound("task: x".to_string()).message(), "not found: task: x");
    assert_eq!(
        TaskFlowError::InvalidTransition { from: TaskStatus::Todo, to: TaskStatus::Done }.message(),
        "invalid transition: Todo -> Done"
    );
    assert_eq!(
        TaskFlowError::PermissionDenied { user: "eve".to_string(), action: "delete task".to_string() }.message(),
        "permission denied: eve cannot delete task"
    );
    assert_eq!(TaskFlowError::StorageError("disk".to_string()).message(), "storage error: disk");
    assert_eq!(TaskFlowError::ValidationError("bad".to_string()).message(), "validation error: bad");
    assert_eq!(TaskFlowError::DuplicateId(1).message(), "duplicate id: 00000000-0000-0000-0000-000000000001");
    assert_eq!(TaskServiceError::DuplicateId(2).message(), "duplicate id: 00000000-0000-0000-0000-000000000002");
    assert_eq!(
        TaskServiceError::InvalidTransition { from: TaskStatus::Backlog, to: TaskStatus::InReview }.message(),
        "invalid transition: Backlog -> InReview"
    );
    assert_eq!(TaskServiceError::NotFound("t".to_string()).message(), "not found: t");
    assert_eq!(ProjectServiceError::ValidationError("v".to_string()).message(), "validation error: v");
    assert_eq!(
        ProjectServiceError::PermissionDenied { user: "u".to_string(), action: "a".to_string() }.message(),
        "permission denied: u cannot a"
    );
    assert_eq!(ProjectServiceError::NotFound("p".to_string()).message(), "not found: p");
    assert_eq!(UserServiceError::DuplicateEmail("a@x".to_string()).message(), "duplicate email: a@x");
    assert_eq!(UserServiceError::NotFound("u".to_string()).message(), "not found: u");
    assert_eq!(StorageError { message: "gone".to_string() }.to_message(), "storage error: gone");
}

#[test]
fn status_and_priority_names() {
    assert_eq!(TaskStatus::InReview.name(), "InReview");
    assert_eq!(Priority::NoPriority.rank(), 0);
    assert_eq!(Priority::Urgent.rank(), 4);
    assert!(Priority::Low < Priority::High);
    assert!(ts(1).is_before(&Timestamp { secs: 1, nanos: 5 }));
    assert!(!ts(2).is_before(&ts(2)));
}

#[test]
fn scaffold_constructors() {
    let storage = JsonFileStorage::new("/var/data".to_string());
    assert_eq!(storage.storage_path, "/var/data");
    let _p = ProjectServiceImpl::new(OwnerOnly, Quiet);
    let _t = TaskServiceImpl::new(OwnerOnly, Quiet);
    let mut q = CachedTaskQuery::new();
    q.invalidate();
    let _c = BufferedAnalyticsCollector::new();
    let _d = DefaultAuthPolicy;
    let _m = InMemoryTaskQuery;
    let _u = UserServiceImpl;
    let project = Project {
        id: "p".to_string(),
        name: "P".to_string(),
        description: None,
        owner: "o".to_string(),
        members: vec!["o".to_string()],
        created_at: ts(0),
    };
    assert!(OwnerOnly.can_add_member(&"o".to_string(), &project));
    Quiet.notify(&Notification {
        kind: NotificationKind::MentionedInComment,
        user_id: "o".to_string(),
        message: "hi".to_string(),
        timestamp: ts(0),
    });
}

#[test]
fn clock_offsets_before_and_after_the_epoch() {
    assert_eq!(timestamp_from_offset(true, 7, 3), Timestamp { secs: 7, nanos: 3 });
    assert_eq!(timestamp_from_offset(false, 5, 0), Timestamp { secs: -5, nanos: 0 });
    assert_eq!(timestamp_from_offset(false, 1, 500), Timestamp { secs: -2, nanos: 999_999_500 });
    assert_eq!(timestamp_from_offset(true, u64::MAX, 0).secs, i64::MAX);
    assert_eq!(timestamp_from_offset(false, u64::MAX, 1).secs, i64::MIN);
    let t = now();
    assert!(t.nanos < 1_000_000_000);
    assert!(t.secs > 1_600_000_000);
}

#[test]
fn random_text_ids_are_uuid_v4_text() {
    let t = random_text_id();
    let chars: Vec<char> = t.chars().collect();
    assert_eq!(chars.len(), 36);
    for (i, c) in chars.iter().enumerate() {
        if i == 8 || i == 13 || i == 18 || i == 23 {
            assert_eq!(*c, '-');
        } else {
            assert!(c.is_ascii_hexdigit() && !c.is_ascii_uppercase());
        }
    }
    assert_eq!(chars[14], '4');
    assert!(matches!(chars[19], '8' | '9' | 'a' | 'b'));
}
