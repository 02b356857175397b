//! Domain types and the status workflow.

use vstd::prelude::*;
use crate::text::{join2, join4};
use crate::ids::uuid_string;

verus! {

/// Identifier of a task: the 128-bit value of its UUID.
pub type TaskId = u128;

/// Identifier of a user (the text of a UUID for registered users).
pub type UserId = String;

/// Identifier of a project (the text of a UUID).
pub type ProjectId = String;

/// Workflow state of a task.
#[derive(Clone, Copy, Debug, PartialEq, Eq, Structural)]
pub enum TaskStatus {
    Backlog,
    Todo,
    InProgress,
    InReview,
    Done,
    Cancelled,
}


/// The name of a status as it is printed (`Debug`).
pub open spec fn status_name(s: TaskStatus) -> Seq<char> {
    match s {
        TaskStatus::Backlog => "Backlog"@,
        TaskStatus::Todo => "Todo"@,
        TaskStatus::InProgress => "InProgress"@,
        TaskStatus::InReview => "InReview"@,
        TaskStatus::Done => "Done"@,
        TaskStatus::Cancelled => "Cancelled"@,
    }
}

impl TaskStatus {
    /// The name of the status as it is printed.
    pub fn name(&self) -> (r: &'static str)
        ensures
            r@ == status_name(*self),
    {
        match self {
            TaskStatus::Backlog => "Backlog",
            TaskStatus::Todo => "Todo",
            TaskStatus::InProgress => "InProgress",
            TaskStatus::InReview => "InReview",
            TaskStatus::Done => "Done",
            TaskStatus::Cancelled => "Cancelled",
        }
    }
}

/// Priority of a task, from lowest to highest (`NoPriority`: none set).
#[derive(Clone, Copy, Debug, PartialEq, Eq, Structural, PartialOrd, Ord)]
pub enum Priority {
    NoPriority,
    Low,
    Medium,
    High,
    Urgent,
}

/// Position of a priority on the scale NoPriority < Low < Medium < High < Urgent.
pub open spec fn priority_rank(p: Priority) -> int {
    match p {
        Priority::NoPriority => 0,
        Priority::Low => 1,
        Priority::Medium => 2,
        Priority::High => 3,
        Priority::Urgent => 4,
    }
}

/// The priorities from lowest to highest, in the order they are declared.
pub open spec fn priority_scale() -> Seq<Priority> {
    seq![Priority::NoPriority, Priority::Low, Priority::Medium, Priority::High, Priority::Urgent]
}

/// A priority higher on the scale ranks strictly higher: the rank grows
/// along NoPriority, Low, Medium, High, Urgent.
pub proof fn law_priority_scale(i: int, j: int)
    requires
        0 <= i < j < priority_scale().len(),
    ensures
        priority_rank(priority_scale()[i]) < priority_rank(priority_scale()[j]),
{
}

impl Priority {
    /// Position of the priority on its scale.
    pub fn rank(&self) -> (r: u8)
        ensures
            r == priority_rank(*self),
    {
        match self {
            Priority::NoPriority => 0,
            Priority::Low => 1,
            Priority::Medium => 2,
            Priority::High => 3,
            Priority::Urgent => 4,
        }
    }
}

/// A point in time (UTC): whole seconds since the Unix epoch and the
/// nanoseconds within that second.
#[derive(Clone, Copy, Debug, PartialEq, Eq, Structural)]
pub struct Timestamp {
    pub secs: i64,
    pub nanos: u32,
}

impl Timestamp {
    /// `self` lies strictly before `other`.
    pub open spec fn before(self, other: Timestamp) -> bool {
        self.secs < other.secs || (self.secs == other.secs && self.nanos < other.nanos)
    }

    /// Whether `self` lies strictly before `other`.
    pub fn is_before(&self, other: &Timestamp) -> (r: bool)
        ensures
            r == self.before(*other),
    {
        self.secs < other.secs || (self.secs == other.secs && self.nanos < other.nanos)
    }
}

/// A unit of work inside a project.
#[derive(Debug, Clone)]
pub struct Task {
    pub id: TaskId,
    pub title: String,
    pub description: Option<String>,
    pub status: TaskStatus,
    pub priority: Priority,
    pub assignee: Option<UserId>,
    pub project_id: ProjectId,
    pub labels: Vec<String>,
    pub created_at: Timestamp,
    pub updated_at: Timestamp,
    pub due_date: Option<Timestamp>,
    pub parent_id: Option<TaskId>,
    pub subtask_ids: Vec<TaskId>,
}

/// A project: an owner, its members and the tasks that name it.
#[derive(Debug, Clone)]
pub struct Project {
    pub id: ProjectId,
    pub name: String,
    pub description: Option<String>,
    pub owner: UserId,
    pub members: Vec<UserId>,
    pub created_at: Timestamp,
}

impl Project {
    /// `user` is listed among the project's members.
    pub open spec fn has_member(self, user: Seq<char>) -> bool {
        crate::text::has_text(self.members@, user)
    }
}

/// A registered user.
#[derive(Debug, Clone)]
pub struct User {
    pub id: UserId,
    pub name: String,
    pub email: String,
    pub avatar_url: Option<String>,
}

/// What a notification is about.
#[derive(Clone, Copy, Debug, PartialEq, Eq, Structural)]
pub enum NotificationKind {
    TaskAssigned,
    TaskStatusChanged,
    TaskDueSoon,
    MentionedInComment,
    ProjectInvite,
}

/// The name of a notification kind as it is printed (`Debug`).
pub open spec fn kind_name(k: NotificationKind) -> Seq<char> {
    match k {
        NotificationKind::TaskAssigned => "TaskAssigned"@,
        NotificationKind::TaskStatusChanged => "TaskStatusChanged"@,
        NotificationKind::TaskDueSoon => "TaskDueSoon"@,
        NotificationKind::MentionedInComment => "MentionedInComment"@,
        NotificationKind::ProjectInvite => "ProjectInvite"@,
    }
}

impl NotificationKind {
    /// The name of the kind as it is printed.
    pub fn name(&self) -> (r: &'static str)
        ensures
            r@ == kind_name(*self),
    {
        match self {
            NotificationKind::TaskAssigned => "TaskAssigned",
            NotificationKind::TaskStatusChanged => "TaskStatusChanged",
            NotificationKind::TaskDueSoon => "TaskDueSoon",
            NotificationKind::MentionedInComment => "MentionedInComment",
            NotificationKind::ProjectInvite => "ProjectInvite",
        }
    }
}

/// A message for one user.
#[derive(Debug, Clone)]
pub struct Notification {
    pub kind: NotificationKind,
    pub user_id: UserId,
    pub message: String,
    pub timestamp: Timestamp,
}

/// A recorded usage event.
#[derive(Debug, Clone)]
pub struct AnalyticsEvent {
    pub event_type: String,
    pub user_id: Option<UserId>,
    pub project_id: Option<ProjectId>,
    pub metadata: Vec<(String, String)>,
    pub timestamp: Timestamp,
}

/// Criteria that a task must meet to be listed; each criterion that is
/// `None` is not checked.
#[derive(Debug, Clone)]
pub struct TaskFilter {
    pub status: Option<Vec<TaskStatus>>,
    pub priority: Option<Vec<Priority>>,
    pub assignee: Option<UserId>,
    pub project_id: Option<ProjectId>,
    pub labels: Option<Vec<String>>,
    pub due_before: Option<Timestamp>,
    pub due_after: Option<Timestamp>,
    pub search_text: Option<String>,
}

/// Counts of a project's tasks. The completion rate, a fraction, is
/// `completed_tasks / total_tasks` (0 for a project without tasks).
#[derive(Debug, Clone, Copy, PartialEq, Eq, Structural)]
pub struct ProjectStats {
    pub total_tasks: usize,
    pub completed_tasks: usize,
    pub overdue_tasks: usize,
}

/// Why an operation was refused.
#[derive(Debug, Clone)]
pub enum TaskFlowError {
    NotFound(String),
    DuplicateId(TaskId),
    InvalidTransition { from: TaskStatus, to: TaskStatus },
    PermissionDenied { user: UserId, action: String },
    StorageError(String),
    ValidationError(String),
}


/// `user` is a member of project `p`.
pub open spec fn member_of(projects: Map<Seq<char>, Project>, user: Seq<char>, p: Seq<char>) -> bool {
    projects.contains_key(p) && projects[p].has_member(user)
}

/// `user` owns project `p`.
pub open spec fn owner_of(projects: Map<Seq<char>, Project>, user: Seq<char>, p: Seq<char>) -> bool {
    projects.contains_key(p) && projects[p].owner@ == user
}

/// `e` reports that `what` was not found.
pub open spec fn is_not_found(e: TaskFlowError, what: Seq<char>) -> bool {
    e matches TaskFlowError::NotFound(m) && m@ == what
}

/// `e` reports that `user` may not perform `action`.
pub open spec fn is_denied(e: TaskFlowError, user: Seq<char>, action: Seq<char>) -> bool {
    e matches TaskFlowError::PermissionDenied { user: u, action: a } && u@ == user && a@ == action
}

/// `e` reports invalid input described by `what`.
pub open spec fn is_invalid(e: TaskFlowError, what: Seq<char>) -> bool {
    e matches TaskFlowError::ValidationError(m) && m@ == what
}

/// The error for a missing entry: the message is `prefix` then `key`.
pub fn not_found(prefix: &str, key: &str) -> (e: TaskFlowError)
    ensures
        is_not_found(e, prefix@ + key@),
{
    TaskFlowError::NotFound(join2(prefix, key))
}

/// The error for a task that is not there: `task: ` and the id's text.
pub fn task_not_found(id: TaskId) -> (e: TaskFlowError)
    ensures
        is_not_found(e, "task: "@ + crate::ids::uuid_text(id)),
{
    let t = uuid_string(id);
    not_found("task: ", t.as_str())
}

/// The error for an action that `user` may not perform.
pub fn denied(user: &String, action: &str) -> (e: TaskFlowError)
    ensures
        is_denied(e, user@, action@),
{
    TaskFlowError::PermissionDenied { user: user.clone(), action: crate::text::text_of(action) }
}

/// The text of an error as it is printed.
pub open spec fn error_text(e: TaskFlowError) -> Seq<char> {
    match e {
        TaskFlowError::NotFound(msg) => "not found: "@ + msg@,
        TaskFlowError::DuplicateId(id) => "duplicate id: "@ + crate::ids::uuid_text(id),
        TaskFlowError::InvalidTransition { from, to } => "invalid transition: "@ + status_name(from) + " -> "@ + status_name(to),
        TaskFlowError::PermissionDenied { user, action } => "permission denied: "@ + user@ + " cannot "@ + action@,
        TaskFlowError::StorageError(msg) => "storage error: "@ + msg@,
        TaskFlowError::ValidationError(msg) => "validation error: "@ + msg@,
    }
}

impl TaskFlowError {
    /// The text of the error as it is printed.
    pub fn message(&self) -> (r: String)
        ensures
            r@ == error_text(*self),
    {
        match self {
            TaskFlowError::NotFound(msg) => join2("not found: ", msg.as_str()),
            TaskFlowError::DuplicateId(id) => {
                let t = uuid_string(*id);
                join2("duplicate id: ", t.as_str())
            },
            TaskFlowError::InvalidTransition { from, to } => join4("invalid transition: ", from.name(), " -> ", to.name()),
            TaskFlowError::PermissionDenied { user, action } => join4("permission denied: ", user.as_str(), " cannot ", action.as_str()),
            TaskFlowError::StorageError(msg) => join2("storage error: ", msg.as_str()),
            TaskFlowError::ValidationError(msg) => join2("validation error: ", msg.as_str()),
        }
    }
}

/// The moves of the status workflow: forward one step along
/// Backlog, Todo, InProgress, InReview, Done; back from InReview to
/// InProgress; and from any state to Cancelled.
pub open spec fn valid_transition(from: TaskStatus, to: TaskStatus) -> bool {
    ||| (from == TaskStatus::Backlog && to == TaskStatus::Todo)
    ||| (from == TaskStatus::Todo && to == TaskStatus::InProgress)
    ||| (from == TaskStatus::InProgress && to == TaskStatus::InReview)
    ||| (from == TaskStatus::InReview && to == TaskStatus::Done)
    ||| (from == TaskStatus::InReview && to == TaskStatus::InProgress)
    ||| to == TaskStatus::Cancelled
}


/// The workflow's shape: any task may be cancelled; a task becomes done only
/// from review; once done or cancelled, the only move left is to
/// cancellation; and no status moves to itself except a cancelled task
/// being cancelled again.
pub proof fn law_workflow(from: TaskStatus, to: TaskStatus)
    ensures
        valid_transition(from, TaskStatus::Cancelled),
        valid_transition(from, TaskStatus::Done) ==> from == TaskStatus::InReview,
        (from == TaskStatus::Done || from == TaskStatus::Cancelled) && valid_transition(from, to) ==> to == TaskStatus::Cancelled,
        valid_transition(from, from) ==> from == TaskStatus::Cancelled,
        !valid_transition(from, TaskStatus::Backlog),
{
}

/// Whether a task may move from `from` to `to`.
pub fn is_valid_transition(from: TaskStatus, to: TaskStatus) -> (r: bool)
    ensures
        r == valid_transition(from, to),
{
    match (from, to) {
        (TaskStatus::Backlog, TaskStatus::Todo) => true,
        (TaskStatus::Todo, TaskStatus::InProgress) => true,
        (TaskStatus::InProgress, TaskStatus::InReview) => true,
        (TaskStatus::InReview, TaskStatus::Done) => true,
        (TaskStatus::InReview, TaskStatus::InProgress) => true,
        (_, TaskStatus::Cancelled) => true,
        _ => false,
    }
}

} // verus!
