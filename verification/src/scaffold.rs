//! Service skeletons: permission and notification contracts, the error
//! types of each service, and constructors that wire services to them.

use vstd::prelude::*;
use crate::domain::{
    status_name, AnalyticsEvent, Notification, Project, ProjectId, ProjectStats, Task, TaskFilter,
    TaskFlowError, TaskId, TaskStatus, User, UserId,
};
use crate::ids::{uuid_string, uuid_text};
use crate::query::FilterCache;
use crate::storage::StorageError;
use crate::table::Table;
use crate::text::{join2, join4};

verus! {

/// Who may do what in a project.
pub trait AuthPolicy {
    fn can_create_task(&self, user: &UserId, project: &Project) -> bool;

    fn can_update_task(&self, user: &UserId, project: &Project) -> bool;

    fn can_delete_task(&self, user: &UserId, project: &Project) -> bool;

    fn can_assign_task(&self, user: &UserId, project: &Project) -> bool;

    fn can_add_member(&self, user: &UserId, project: &Project) -> bool;
}

/// The default permission policy.
pub struct DefaultAuthPolicy;

/// Dispatching notifications. (Registering callback hooks, which take boxed
/// closures, is left to the application around this library.)
pub trait NotificationService {
    fn notify(&self, notification: &Notification);
}

/// Task use cases, for a service to implement.
pub trait TaskService {
    fn create_task(&mut self, title: String, project_id: ProjectId, creator: &UserId) -> Result<TaskId, TaskServiceError>;

    fn update_status(&mut self, task_id: TaskId, new_status: TaskStatus, actor: &UserId) -> Result<(), TaskServiceError>;

    fn assign(&mut self, task_id: TaskId, assignee: UserId, actor: &UserId) -> Result<(), TaskServiceError>;

    fn delete(&mut self, task_id: TaskId, actor: &UserId) -> Result<(), TaskServiceError>;

    fn get(&self, task_id: TaskId) -> Result<Task, TaskServiceError>;
}

/// Project use cases, for a service to implement.
pub trait ProjectService {
    fn create_project(&mut self, name: String, owner: UserId) -> Result<ProjectId, ProjectServiceError>;

    fn add_member(&mut self, project_id: &ProjectId, user_id: UserId, actor: &UserId) -> Result<(), ProjectServiceError>;
}

/// User use cases, for a service to implement.
pub trait UserService {
    fn register(&mut self, name: String, email: String) -> Result<UserId, UserServiceError>;

    fn get(&self, user_id: &UserId) -> Result<User, UserServiceError>;
}

/// Read-only queries over tasks, for a query service to implement.
pub trait TaskQuery {
    fn filter_tasks(&self, filter: &TaskFilter) -> Vec<Task>;

    fn filter_by_project(&self, project_id: &ProjectId) -> Vec<Task>;

    fn get_project_stats(&self, project_id: &ProjectId) -> Result<ProjectStats, TaskFlowError>;
}

/// Saving and loading the three tables, for a persistence adapter to
/// implement.
pub trait StorageBackend {
    fn save_tasks(&self, tasks: &Table<TaskId, Task>) -> Result<(), StorageError>;

    fn load_tasks(&self) -> Result<Table<TaskId, Task>, StorageError>;

    fn save_projects(&self, projects: &Table<ProjectId, Project>) -> Result<(), StorageError>;

    fn load_projects(&self) -> Result<Table<ProjectId, Project>, StorageError>;

    fn save_users(&self, users: &Table<UserId, User>) -> Result<(), StorageError>;

    fn load_users(&self) -> Result<Table<UserId, User>, StorageError>;
}

/// Recording usage events and counting a project's tasks, for a collector
/// to implement.
pub trait AnalyticsCollector {
    fn track_event(&mut self, event_type: &str, user_id: Option<&UserId>, project_id: Option<&ProjectId>);

    fn flush(&mut self) -> Vec<AnalyticsEvent>;

    fn get_project_stats(&self, tasks: &Table<TaskId, Task>, project_id: &ProjectId) -> ProjectStats;
}

/// A project service built on a permission policy and a notification
/// service.
pub struct ProjectServiceImpl<A: AuthPolicy, N: NotificationService> {
    auth: A,
    notifications: N,
}

impl<A: AuthPolicy, N: NotificationService> ProjectServiceImpl<A, N> {
    pub closed spec fn policy(self) -> A {
        self.auth
    }

    pub closed spec fn notifier(self) -> N {
        self.notifications
    }

    /// A service using `auth` and `notifications`.
    pub fn new(auth: A, notifications: N) -> (r: Self)
        ensures
            r.policy() == auth,
            r.notifier() == notifications,
    {
        ProjectServiceImpl { auth, notifications }
    }
}

/// A task service built on a permission policy and a notification service.
pub struct TaskServiceImpl<A: AuthPolicy, N: NotificationService> {
    auth: A,
    notifications: N,
}

impl<A: AuthPolicy, N: NotificationService> TaskServiceImpl<A, N> {
    pub closed spec fn policy(self) -> A {
        self.auth
    }

    pub closed spec fn notifier(self) -> N {
        self.notifications
    }

    /// A service using `auth` and `notifications`.
    pub fn new(auth: A, notifications: N) -> (r: Self)
        ensures
            r.policy() == auth,
            r.notifier() == notifications,
    {
        TaskServiceImpl { auth, notifications }
    }
}

/// The user service skeleton.
pub struct UserServiceImpl;

/// A task query over tasks held in memory.
pub struct InMemoryTaskQuery;

/// A task query that remembers its listings.
pub struct CachedTaskQuery {
    cache: FilterCache,
}

impl CachedTaskQuery {
    /// No listing is remembered.
    pub closed spec fn is_empty(self) -> bool {
        self.cache.wf() && self.cache.cached() == Map::<crate::query::FilterView, Vec<TaskId>>::empty()
    }

    /// A query that remembers nothing yet.
    pub fn new() -> (r: Self)
        ensures
            r.is_empty(),
    {
        CachedTaskQuery { cache: FilterCache::new() }
    }

    /// Forgets every remembered listing.
    pub fn invalidate(&mut self)
        ensures
            final(self).is_empty(),
    {
        self.cache.clear();
    }
}

/// An analytics collector that keeps its events in a buffer.
pub struct BufferedAnalyticsCollector {
    buffer: Vec<AnalyticsEvent>,
}

impl BufferedAnalyticsCollector {
    /// The buffered events.
    pub closed spec fn events(self) -> Seq<AnalyticsEvent> {
        self.buffer@
    }

    /// A collector with an empty buffer.
    pub fn new() -> (r: Self)
        ensures
            r.events().len() == 0,
    {
        BufferedAnalyticsCollector { buffer: Vec::new() }
    }
}

/// Why a project operation was refused.
#[derive(Debug)]
pub enum ProjectServiceError {
    NotFound(String),
    PermissionDenied { user: UserId, action: String },
    ValidationError(String),
}

/// The text of a project service error as it is printed.
pub open spec fn project_error_text(e: ProjectServiceError) -> Seq<char> {
    match e {
        ProjectServiceError::NotFound(msg) => "not found: "@ + msg@,
        ProjectServiceError::PermissionDenied { user, action } => "permission denied: "@ + user@ + " cannot "@ + action@,
        ProjectServiceError::ValidationError(msg) => "validation error: "@ + msg@,
    }
}

impl ProjectServiceError {
    /// The text of the error as it is printed.
    pub fn message(&self) -> (r: String)
        ensures
            r@ == project_error_text(*self),
    {
        match self {
            ProjectServiceError::NotFound(msg) => join2("not found: ", msg.as_str()),
            ProjectServiceError::PermissionDenied { user, action } => join4("permission denied: ", user.as_str(), " cannot ", action.as_str()),
            ProjectServiceError::ValidationError(msg) => join2("validation error: ", msg.as_str()),
        }
    }
}

/// Why a task operation was refused.
#[derive(Debug)]
pub enum TaskServiceError {
    NotFound(String),
    DuplicateId(TaskId),
    InvalidTransition { from: TaskStatus, to: TaskStatus },
    PermissionDenied { user: UserId, action: String },
    ValidationError(String),
}

/// The text of a task service error as it is printed.
pub open spec fn task_error_text(e: TaskServiceError) -> Seq<char> {
    match e {
        TaskServiceError::NotFound(msg) => "not found: "@ + msg@,
        TaskServiceError::DuplicateId(id) => "duplicate id: "@ + uuid_text(id),
        TaskServiceError::InvalidTransition { from, to } => "invalid transition: "@ + status_name(from) + " -> "@ + status_name(to),
        TaskServiceError::PermissionDenied { user, action } => "permission denied: "@ + user@ + " cannot "@ + action@,
        TaskServiceError::ValidationError(msg) => "validation error: "@ + msg@,
    }
}

impl TaskServiceError {
    /// The text of the error as it is printed.
    pub fn message(&self) -> (r: String)
        ensures
            r@ == task_error_text(*self),
    {
        match self {
            TaskServiceError::NotFound(msg) => join2("not found: ", msg.as_str()),
            TaskServiceError::DuplicateId(id) => {
                let t = uuid_string(*id);
                join2("duplicate id: ", t.as_str())
            },
            TaskServiceError::InvalidTransition { from, to } => join4("invalid transition: ", from.name(), " -> ", to.name()),
            TaskServiceError::PermissionDenied { user, action } => join4("permission denied: ", user.as_str(), " cannot ", action.as_str()),
            TaskServiceError::ValidationError(msg) => join2("validation error: ", msg.as_str()),
        }
    }
}

/// Why a user operation was refused.
#[derive(Debug)]
pub enum UserServiceError {
    NotFound(String),
    DuplicateEmail(String),
}

/// The text of a user service error as it is printed.
pub open spec fn user_error_text(e: UserServiceError) -> Seq<char> {
    match e {
        UserServiceError::NotFound(msg) => "not found: "@ + msg@,
        UserServiceError::DuplicateEmail(email) => "duplicate email: "@ + email@,
    }
}

impl UserServiceError {
    /// The text of the error as it is printed.
    pub fn message(&self) -> (r: String)
        ensures
            r@ == user_error_text(*self),
    {
        match self {
            UserServiceError::NotFound(msg) => join2("not found: ", msg.as_str()),
            UserServiceError::DuplicateEmail(email) => join2("duplicate email: ", email.as_str()),
        }
    }
}

} // verus!
