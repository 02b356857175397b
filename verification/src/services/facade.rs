//! The engine assembled from the three services.

use vstd::prelude::*;
use crate::analytics::{event_is, AnalyticsCollector, BufferedCollector};
use crate::domain::{AnalyticsEvent, Notification, Project, ProjectId, Task, TaskId, User, UserId};
use crate::services::project_service::ProjectService;
use crate::services::task_service::TaskService;
use crate::services::user_service::UserService;
use crate::storage::JsonFileStorage;
use crate::table::Table;
use crate::query::FilterView;

verus! {

/// The task, project and user services side by side, with the storage they
/// are saved to and the events of the engine itself.
pub struct TaskFlowEngine {
    pub task_service: TaskService,
    pub project_service: ProjectService,
    pub user_service: UserService,
    pub storage: JsonFileStorage,
    pub analytics: BufferedCollector,
}

impl TaskFlowEngine {
    /// The directory the data is saved to.
    pub open spec fn path(self) -> Seq<char> {
        self.storage.storage_path@
    }

    /// Events the engine itself recorded and not yet flushed.
    pub open spec fn own_events(self) -> Seq<AnalyticsEvent> {
        self.analytics.events()
    }

    /// The services are well formed.
    pub open spec fn wf(self) -> bool {
        self.task_service.wf() && self.project_service.wf() && self.user_service.wf()
    }

    /// The task service.
    pub open spec fn task_svc(self) -> TaskService {
        self.task_service
    }

    /// The project service.
    pub open spec fn project_svc(self) -> ProjectService {
        self.project_service
    }

    /// The user service.
    pub open spec fn user_svc(self) -> UserService {
        self.user_service
    }

    /// An engine over data read from `storage_path` (empty tables where
    /// nothing could be read).
    pub fn new(
        storage_path: String,
        tasks: Table<TaskId, Task>,
        projects: Table<ProjectId, Project>,
        users: Table<UserId, User>,
    ) -> (r: Self)
        requires
            tasks.wf(),
            projects.wf(),
            users.wf(),
        ensures
            r.wf(),
            r.path() == storage_path@,
            r.task_svc().task_map() == tasks.map(),
            r.project_svc().project_map() == projects.map(),
            r.user_svc().user_map() == users.map(),
            r.own_events().len() == 0,
            r.task_svc().events().len() == 0,
            r.project_svc().events().len() == 0,
            r.user_svc().events().len() == 0,
            r.task_svc().pending().len() == 0,
            r.project_svc().pending().len() == 0,
            forall|f: FilterView| #[trigger] r.task_svc().cached_ids(f) is None,
    {
        TaskFlowEngine {
            task_service: TaskService::new(tasks),
            project_service: ProjectService::new(projects),
            user_service: UserService::new(users),
            storage: JsonFileStorage::new(storage_path),
            analytics: BufferedCollector::new(),
        }
    }

    /// Where the data is saved.
    pub fn storage(&self) -> (r: &JsonFileStorage)
        ensures
            r.storage_path@ == self.path(),
    {
        &self.storage
    }

    /// Records that the data was saved (`data_saved`).
    pub fn record_saved(&mut self)
        ensures
            final(self).own_events().len() == old(self).own_events().len() + 1,
            final(self).own_events().drop_last() == old(self).own_events(),
            event_is(final(self).own_events().last(), "data_saved"@, None, None),
            final(self).task_svc() == old(self).task_svc(),
            final(self).project_svc() == old(self).project_svc(),
            final(self).user_svc() == old(self).user_svc(),
            final(self).path() == old(self).path(),
    {
        self.analytics.track("data_saved", None, None);
    }

    /// Hands over every event recorded so far: those of the task, project
    /// and user services, then the engine's own, each oldest first.
    pub fn flush_analytics(&mut self) -> (r: Vec<AnalyticsEvent>)
        requires
            old(self).wf(),
        ensures
            final(self).wf(),
            r@ == old(self).task_svc().events() + old(self).project_svc().events() + old(self).user_svc().events()
                + old(self).own_events(),
            final(self).task_svc().events().len() == 0,
            final(self).project_svc().events().len() == 0,
            final(self).user_svc().events().len() == 0,
            final(self).own_events().len() == 0,
            final(self).task_svc().task_map() == old(self).task_svc().task_map(),
            final(self).project_svc().project_map() == old(self).project_svc().project_map(),
            final(self).user_svc().user_map() == old(self).user_svc().user_map(),
            final(self).task_svc().pending() == old(self).task_svc().pending(),
            final(self).project_svc().pending() == old(self).project_svc().pending(),
            final(self).path() == old(self).path(),
    {
        let mut all = self.task_service.take_events();
        let mut p = self.project_service.take_events();
        let mut u = self.user_service.take_events();
        let mut own = self.analytics.flush();
        all.append(&mut p);
        all.append(&mut u);
        all.append(&mut own);
        all
    }

    /// Hands over the notifications the task and project services sent,
    /// in that order, each oldest first.
    pub fn take_notifications(&mut self) -> (r: Vec<Notification>)
        requires
            old(self).wf(),
        ensures
            final(self).wf(),
            r@ == old(self).task_svc().pending() + old(self).project_svc().pending(),
            final(self).task_svc().pending().len() == 0,
            final(self).project_svc().pending().len() == 0,
            final(self).task_svc().task_map() == old(self).task_svc().task_map(),
            final(self).project_svc().project_map() == old(self).project_svc().project_map(),
            final(self).user_svc() == old(self).user_svc(),
            final(self).task_svc().events() == old(self).task_svc().events(),
            final(self).project_svc().events() == old(self).project_svc().events(),
            final(self).own_events() == old(self).own_events(),
            final(self).path() == old(self).path(),
    {
        let mut all = self.task_service.take_notifications();
        let mut p = self.project_service.take_notifications();
        all.append(&mut p);
        all
    }
}

/// Flushing an engine whose only event is the creation of project `id` by
/// `owner` hands over exactly that event.
pub proof fn law_flush_after_creation(
    e0: TaskFlowEngine,
    e1: TaskFlowEngine,
    owner: Seq<char>,
    id: Seq<char>,
    r: Seq<AnalyticsEvent>,
)
    requires
        e0.task_svc().events().len() == 0,
        e0.project_svc().events().len() == 0,
        e0.user_svc().events().len() == 0,
        e0.own_events().len() == 0,
        e0.project_svc().recorded(e1.project_svc(), "project_created"@, owner, id),
        e1.task_svc().events() == e0.task_svc().events(),
        e1.user_svc().events() == e0.user_svc().events(),
        e1.own_events() == e0.own_events(),
        r == e1.task_svc().events() + e1.project_svc().events() + e1.user_svc().events() + e1.own_events(),
    ensures
        r.len() == 1,
        event_is(r[0], "project_created"@, Some(owner), Some(id)),
{
    assert(r =~= e1.project_svc().events());
}

} // verus!
