//! Tasks: creation, status workflow, assignment, deletion and filtering.
//! Callers check projects and permissions before calling.

use vstd::prelude::*;
use crate::analytics::{event_is, AnalyticsCollector, BufferedCollector};
use crate::clock::now;
use crate::domain::{
    is_not_found, is_valid_transition, task_not_found, valid_transition, Notification,
    NotificationKind, Priority, ProjectId, Task, TaskFilter, TaskFlowError, TaskId, TaskStatus,
    Timestamp, UserId,
};
use crate::engine::{copy_ids, fresh_task, is_stored, lemma_table_pool, notice, status_change_told, without};
use crate::ids::{fresh_id, is_v4, uuid_text};
use crate::query::{task_matches, answers_hold, derefs, filter_with_cache, ids_of, is_listing, resolve, FilterCache, FilterView};
use crate::table::{adds_new, Table};
use crate::deletion::{
    any_project, deletion_events, deletion_order, frontier, lemma_finish, lemma_order_join, lemma_order_last, lemma_reach_empty, lemma_reach_stored, lemma_removed_nothing, lemma_start,
    lemma_step, reach_set, reaches, removed,
};
use crate::domain::AnalyticsEvent;
use crate::text::{copy_opt, join2};

verus! {

broadcast use {vstd::seq_lib::group_to_multiset_ensures, vstd::seq_lib::group_filter_ensures};

/// What one call of `TaskService::filter` with filter `f` answers, going
/// from `before` to `after` and returning `r`: a cached id list for `f` is
/// resolved against the tasks; otherwise `r` is a fresh listing, whose ids
/// are cached. When every task is stored under its own id, `r` is always a
/// listing of the tasks.
pub open spec fn service_filter_answer(before: TaskService, after: TaskService, f: FilterView, r: Seq<Task>) -> bool {
    &&& (before.cached_ids(f) matches Some(ids) ==> r == resolve(ids, before.task_map()))
    &&& (before.cached_ids(f) is None ==> is_listing(r, before.task_pool(), f) && after.cached_ids(f) == Some(ids_of(r)))
    &&& (before.ids_consistent() ==> is_listing(r, before.task_pool(), f) && after.cached_ids(f) == Some(ids_of(r)))
}

/// After a change that dropped every cached listing (every successful
/// creation, status change, assignment or deletion does), the next listing
/// of the service is computed afresh: it lists exactly the stored tasks that
/// meet the filter.
pub proof fn law_service_listing_fresh(s1: TaskService, s2: TaskService, f: FilterView, r: Seq<Task>)
    requires
        s1.wf(),
        forall|g: FilterView| #[trigger] s1.cached_ids(g) is None,
        service_filter_answer(s1, s2, f, r),
    ensures
        is_listing(r, s1.task_pool(), f),
        forall|k: TaskId| #[trigger] s1.task_map().contains_key(k) && task_matches(s1.task_map()[k], f)
            ==> r.contains(s1.task_map()[k]),
        forall|i: int| 0 <= i < r.len() ==> is_stored(s1.task_map(), #[trigger] r[i]) && task_matches(r[i], f),
{
    assert(s1.cached_ids(f) is None);
    s1.lemma_pool_is_stored();
    crate::engine::lemma_listing_exact_in(s1.task_map(), s1.task_pool(), r, f);
}

/// Keeps tasks; notifications it sends and events it records are kept for
/// whoever delivers them.
pub struct TaskService {
    tasks: Table<TaskId, Task>,
    notifications: Vec<Notification>,
    analytics: BufferedCollector,
    filter_cache: FilterCache,
}

impl TaskService {
    pub closed spec fn wf(self) -> bool {
        &&& self.tasks.wf()
        &&& self.filter_cache.wf()
        &&& answers_hold(self.filter_cache.cached(), self.tasks.vals())
    }

    /// The tasks, by the id they are stored under.
    pub closed spec fn task_map(self) -> Map<TaskId, Task> {
        self.tasks.map()
    }

    /// The tasks in the order the service keeps them.
    pub closed spec fn task_pool(self) -> Seq<Task> {
        self.tasks.vals()
    }

    /// Notifications sent and not yet taken, oldest first.
    pub closed spec fn pending(self) -> Seq<Notification> {
        self.notifications@
    }

    /// Events recorded and not yet flushed, oldest first.
    pub closed spec fn events(self) -> Seq<crate::domain::AnalyticsEvent> {
        self.analytics.events()
    }

    /// The id list cached for filter `f`, if any.
    pub closed spec fn cached_ids(self, f: FilterView) -> Option<Seq<TaskId>> {
        if self.filter_cache.cached().contains_key(f) {
            Some(self.filter_cache.cached()[f]@)
        } else {
            None
        }
    }

    /// Every task is stored under its own id.
    pub open spec fn ids_consistent(self) -> bool {
        forall|k: TaskId| #[trigger] self.task_map().contains_key(k) ==> self.task_map()[k].id == k
    }

    /// `after` holds one more event than `self`: `event_type` for `user` in
    /// `project`.
    pub open spec fn recorded(self, after: TaskService, event_type: Seq<char>, user: Seq<char>, project: Seq<char>) -> bool {
        &&& after.events().len() == self.events().len() + 1
        &&& after.events().drop_last() == self.events()
        &&& event_is(after.events().last(), event_type, Some(user), Some(project))
    }

    /// The task sequence holds exactly the stored tasks, one entry per key;
    /// when every task is stored under its own id, each entry is the task
    /// stored under its id.
    pub proof fn lemma_pool_is_stored(self)
        requires
            self.wf(),
        ensures
            self.task_pool().len() == self.task_map().dom().len(),
            forall|i: int| 0 <= i < self.task_pool().len() ==> is_stored(self.task_map(), #[trigger] self.task_pool()[i]),
            forall|k: TaskId| #[trigger] self.task_map().contains_key(k) ==> self.task_pool().contains(self.task_map()[k]),
            self.ids_consistent() ==> forall|i: int| 0 <= i < self.task_pool().len() ==>
                self.task_map().contains_key(#[trigger] self.task_pool()[i].id) && self.task_map()[self.task_pool()[i].id] == self.task_pool()[i],
    {
        lemma_table_pool(self.tasks);
    }

    /// A service holding `tasks`.
    pub fn new(tasks: Table<TaskId, Task>) -> (r: Self)
        requires
            tasks.wf(),
        ensures
            r.wf(),
            r.task_map() == tasks.map(),
            r.task_pool() == tasks.vals(),
            r.pending().len() == 0,
            r.events().len() == 0,
            forall|f: FilterView| #[trigger] r.cached_ids(f) is None,
    {
        TaskService {
            tasks,
            notifications: Vec::new(),
            analytics: BufferedCollector::new(),
            filter_cache: FilterCache::new(),
        }
    }

    /// The tasks kept.
    pub fn tasks(&self) -> (r: &Table<TaskId, Task>)
        ensures
            r.map() == self.task_map(),
            r.vals() == self.task_pool(),
            self.wf() ==> r.wf(),
    {
        &self.tasks
    }

    /// Hands over the notifications sent so far, oldest first.
    pub fn take_notifications(&mut self) -> (r: Vec<Notification>)
        requires
            old(self).wf(),
        ensures
            final(self).wf(),
            r@ == old(self).pending(),
            final(self).pending().len() == 0,
            final(self).task_map() == old(self).task_map(),
            final(self).task_pool() == old(self).task_pool(),
            final(self).events() == old(self).events(),
    {
        let mut taken: Vec<Notification> = Vec::new();
        std::mem::swap(&mut taken, &mut self.notifications);
        taken
    }

    /// Hands over the events recorded so far, oldest first.
    pub fn take_events(&mut self) -> (r: Vec<crate::domain::AnalyticsEvent>)
        requires
            old(self).wf(),
        ensures
            final(self).wf(),
            r@ == old(self).events(),
            final(self).events().len() == 0,
            final(self).task_map() == old(self).task_map(),
            final(self).task_pool() == old(self).task_pool(),
            final(self).pending() == old(self).pending(),
    {
        self.analytics.flush()
    }

    /// Forgets every cached listing.
    fn invalidate_cache(&mut self)
        requires
            old(self).tasks.wf(),
        ensures
            final(self).wf(),
            final(self).tasks == old(self).tasks,
            final(self).notifications == old(self).notifications,
            final(self).analytics == old(self).analytics,
            forall|f: FilterView| #[trigger] final(self).cached_ids(f) is None,
            final(self).filter_cache.cached() == Map::<FilterView, Vec<TaskId>>::empty(),
    {
        self.filter_cache.clear();
    }

    /// Creates task `title` in `project_id` for `creator`, stored under `id`
    /// and created at `at`, and records `task_created`.
    pub fn create_task_with(&mut self, title: String, project_id: ProjectId, creator: &UserId, id: TaskId, at: Timestamp) -> (r: TaskId)
        requires
            old(self).wf(),
        ensures
            final(self).wf(),
            r == id,
            final(self).task_map().contains_key(id),
            fresh_task(final(self).task_map()[id], id, title@, project_id@, at),
            final(self).task_map() == old(self).task_map().insert(id, final(self).task_map()[id]),
            !old(self).task_map().contains_key(id) ==> final(self).task_pool() == old(self).task_pool().push(final(self).task_map()[id]),
            old(self).ids_consistent() ==> final(self).ids_consistent(),
            forall|f: FilterView| #[trigger] final(self).cached_ids(f) is None,
            old(self).recorded(*final(self), "task_created"@, creator@, project_id@),
            final(self).pending() == old(self).pending(),
    {
        let task = Task {
            id,
            title,
            description: None,
            status: TaskStatus::Backlog,
            priority: Priority::NoPriority,
            assignee: None,
            project_id: project_id.clone(),
            labels: Vec::new(),
            created_at: at,
            updated_at: at,
            due_date: None,
            parent_id: None,
            subtask_ids: Vec::new(),
        };
        let ghost t = task;
        self.tasks.insert(id, task);
        self.invalidate_cache();
        self.analytics.track("task_created", Some(creator), Some(&project_id));
        assert(self.tasks.map()[id] == t);
        id
    }

    /// Creates task `title` in `project_id` for `creator` under a fresh
    /// random id and records `task_created`.
    pub fn create_task(&mut self, title: String, project_id: ProjectId, creator: &UserId) -> (r: TaskId)
        requires
            old(self).wf(),
        ensures
            final(self).wf(),
            is_v4(r),
            adds_new(old(self).task_map(), final(self).task_map(), r),
            final(self).task_map().contains_key(r),
            fresh_task(final(self).task_map()[r], r, title@, project_id@, final(self).task_map()[r].created_at),
            final(self).task_map() == old(self).task_map().insert(r, final(self).task_map()[r]),
            !old(self).task_map().contains_key(r) ==> final(self).task_pool() == old(self).task_pool().push(final(self).task_map()[r]),
            old(self).ids_consistent() ==> final(self).ids_consistent(),
            forall|f: FilterView| #[trigger] final(self).cached_ids(f) is None,
            old(self).recorded(*final(self), "task_created"@, creator@, project_id@),
            final(self).pending() == old(self).pending(),
    {
        let id = fresh_id(&self.tasks);
        let at = now();
        self.create_task_with(title, project_id, creator, id, at)
    }

    /// Moves task `task_id` to `new_status` at time `at` when the workflow
    /// allows it; the assignee, when someone other than `actor`, is told.
    /// Records `task_status_changed`.
    pub fn update_status_at(&mut self, task_id: TaskId, new_status: TaskStatus, actor: &UserId, at: Timestamp) -> (r: Result<(), TaskFlowError>)
        requires
            old(self).wf(),
        ensures
            final(self).wf(),
            !old(self).task_map().contains_key(task_id) ==> (r matches Err(e) && is_not_found(e, "task: "@ + uuid_text(task_id))),
            old(self).task_map().contains_key(task_id) && !valid_transition(old(self).task_map()[task_id].status, new_status)
                ==> r == Err::<(), TaskFlowError>(TaskFlowError::InvalidTransition { from: old(self).task_map()[task_id].status, to: new_status }),
            r is Err ==> *final(self) == *old(self),
            old(self).task_map().contains_key(task_id) && valid_transition(old(self).task_map()[task_id].status, new_status) <==> r is Ok,
            r is Ok ==> {
                let t = old(self).task_map()[task_id];
                &&& final(self).task_map() == old(self).task_map().insert(task_id, Task { status: new_status, updated_at: at, ..t })
                &&& status_change_told(old(self).pending(), final(self).pending(), t.assignee, actor@, new_status, at)
                &&& old(self).recorded(*final(self), "task_status_changed"@, actor@, t.project_id@)
            },
            old(self).ids_consistent() ==> final(self).ids_consistent(),
            r is Ok ==> forall|f: FilterView| #[trigger] final(self).cached_ids(f) is None,
    {
        let (status, project_id, assignee) = match self.tasks.get(&task_id) {
            Some(t) => (t.status, t.project_id.clone(), copy_opt(&t.assignee)),
            None => {
                return Err(task_not_found(task_id));
            },
        };
        if !is_valid_transition(status, new_status) {
            return Err(TaskFlowError::InvalidTransition { from: status, to: new_status });
        }
        let ghost tm = self.tasks.map();
        let mut task = self.tasks.remove(&task_id).unwrap();
        task.status = new_status;
        task.updated_at = at;
        let ghost nt = task;
        self.tasks.insert(task_id, task);
        assert(self.tasks.map() =~= tm.insert(task_id, nt));
        if let Some(a) = assignee {
            if a != *actor {
                let message = join2("Task status changed to ", new_status.name());
                self.notifications.push(
                    Notification { kind: NotificationKind::TaskStatusChanged, user_id: a, message, timestamp: at },
                );
                assert(self.notifications@.drop_last() =~= old(self).notifications@);
            }
        }
        self.invalidate_cache();
        self.analytics.track("task_status_changed", Some(actor), Some(&project_id));
        Ok(())
    }

    /// Moves task `task_id` to `new_status`, stamped with the current time,
    /// when the workflow allows it; the assignee, when someone other than
    /// `actor`, is told. Records `task_status_changed`.
    pub fn update_status(&mut self, task_id: TaskId, new_status: TaskStatus, actor: &UserId) -> (r: Result<(), TaskFlowError>)
        requires
            old(self).wf(),
        ensures
            final(self).wf(),
            !old(self).task_map().contains_key(task_id) ==> (r matches Err(e) && is_not_found(e, "task: "@ + uuid_text(task_id))),
            old(self).task_map().contains_key(task_id) && !valid_transition(old(self).task_map()[task_id].status, new_status)
                ==> r == Err::<(), TaskFlowError>(TaskFlowError::InvalidTransition { from: old(self).task_map()[task_id].status, to: new_status }),
            r is Err ==> *final(self) == *old(self),
            old(self).task_map().contains_key(task_id) && valid_transition(old(self).task_map()[task_id].status, new_status) <==> r is Ok,
            r is Ok ==> {
                let t = old(self).task_map()[task_id];
                let at = final(self).task_map()[task_id].updated_at;
                &&& final(self).task_map() == old(self).task_map().insert(task_id, Task { status: new_status, updated_at: at, ..t })
                &&& status_change_told(old(self).pending(), final(self).pending(), t.assignee, actor@, new_status, at)
                &&& old(self).recorded(*final(self), "task_status_changed"@, actor@, t.project_id@)
            },
            old(self).ids_consistent() ==> final(self).ids_consistent(),
            r is Ok ==> forall|f: FilterView| #[trigger] final(self).cached_ids(f) is None,
    {
        let at = now();
        self.update_status_at(task_id, new_status, actor, at)
    }

    /// Assigns task `task_id` to `assignee` at time `at` and tells the
    /// assignee. Records `task_assigned`.
    pub fn assign_at(&mut self, task_id: TaskId, assignee: UserId, actor: &UserId, at: Timestamp) -> (r: Result<(), TaskFlowError>)
        requires
            old(self).wf(),
        ensures
            final(self).wf(),
            old(self).task_map().contains_key(task_id) <==> r is Ok,
            r matches Err(e) ==> is_not_found(e, "task: "@ + uuid_text(task_id)) && *final(self) == *old(self),
            r is Ok ==> {
                let t = old(self).task_map()[task_id];
                &&& final(self).task_map() == old(self).task_map().insert(task_id, Task { assignee: Some(assignee), updated_at: at, ..t })
                &&& final(self).pending().len() == old(self).pending().len() + 1
                &&& final(self).pending().drop_last() == old(self).pending()
                &&& notice(final(self).pending().last(), NotificationKind::TaskAssigned, assignee@, "You were assigned to task: "@ + t.title@, at)
                &&& old(self).recorded(*final(self), "task_assigned"@, actor@, t.project_id@)
            },
            old(self).ids_consistent() ==> final(self).ids_consistent(),
            r is Ok ==> forall|f: FilterView| #[trigger] final(self).cached_ids(f) is None,
    {
        let (project_id, title) = match self.tasks.get(&task_id) {
            Some(t) => (t.project_id.clone(), t.title.clone()),
            None => {
                return Err(task_not_found(task_id));
            },
        };
        let ghost tm = self.tasks.map();
        let told = assignee.clone();
        let mut task = self.tasks.remove(&task_id).unwrap();
        task.assignee = Some(assignee);
        task.updated_at = at;
        let ghost nt = task;
        self.tasks.insert(task_id, task);
        assert(self.tasks.map() =~= tm.insert(task_id, nt));
        let message = join2("You were assigned to task: ", title.as_str());
        self.notifications.push(Notification { kind: NotificationKind::TaskAssigned, user_id: told, message, timestamp: at });
        assert(self.notifications@.drop_last() =~= old(self).notifications@);
        self.invalidate_cache();
        self.analytics.track("task_assigned", Some(actor), Some(&project_id));
        Ok(())
    }

    /// Assigns task `task_id` to `assignee`, stamped with the current time,
    /// and tells the assignee. Records `task_assigned`.
    pub fn assign(&mut self, task_id: TaskId, assignee: UserId, actor: &UserId) -> (r: Result<(), TaskFlowError>)
        requires
            old(self).wf(),
        ensures
            final(self).wf(),
            old(self).task_map().contains_key(task_id) <==> r is Ok,
            r matches Err(e) ==> is_not_found(e, "task: "@ + uuid_text(task_id)) && *final(self) == *old(self),
            r is Ok ==> {
                let t = old(self).task_map()[task_id];
                let at = final(self).task_map()[task_id].updated_at;
                &&& final(self).task_map() == old(self).task_map().insert(task_id, Task { assignee: Some(assignee), updated_at: at, ..t })
                &&& final(self).pending().len() == old(self).pending().len() + 1
                &&& final(self).pending().drop_last() == old(self).pending()
                &&& notice(final(self).pending().last(), NotificationKind::TaskAssigned, assignee@, "You were assigned to task: "@ + t.title@, at)
                &&& old(self).recorded(*final(self), "task_assigned"@, actor@, t.project_id@)
            },
            old(self).ids_consistent() ==> final(self).ids_consistent(),
            r is Ok ==> forall|f: FilterView| #[trigger] final(self).cached_ids(f) is None,
    {
        let at = now();
        self.assign_at(task_id, assignee, actor, at)
    }

    /// The task stored under `task_id`.
    pub fn get(&self, task_id: TaskId) -> (r: Result<&Task, TaskFlowError>)
        requires
            self.wf(),
        ensures
            self.task_map().contains_key(task_id) <==> r is Ok,
            r matches Ok(t) ==> *t == self.task_map()[task_id],
            r matches Err(e) ==> is_not_found(e, "task: "@ + uuid_text(task_id)),
    {
        match self.tasks.get(&task_id) {
            Some(t) => Ok(t),
            None => Err(task_not_found(task_id)),
        }
    }

    /// Deletes task `task_id`: it leaves its parent's list of subtasks and
    /// each of its subtasks is deleted in turn. What is deleted is exactly
    /// the task and what it reaches through subtask lists; every other task
    /// stays as it was, but that each deleted task leaves the subtask list of
    /// its parent. Records one `task_deleted` for every task deleted.
    pub fn delete(&mut self, task_id: TaskId, actor: &UserId) -> (r: Result<(), TaskFlowError>)
        requires
            old(self).wf(),
        ensures
            final(self).wf(),
            old(self).task_map().contains_key(task_id) <==> r is Ok,
            r matches Err(e) ==> is_not_found(e, "task: "@ + uuid_text(task_id)) && *final(self) == *old(self),
            removed(old(self).task_map(), final(self).task_map(), reach_set(old(self).task_map(), any_project(), task_id)),
            final(self).events().len() >= old(self).events().len(),
            final(self).events().subrange(0, old(self).events().len() as int) == old(self).events(),
            deletion_events(
                old(self).task_map(),
                reach_set(old(self).task_map(), any_project(), task_id),
                actor@,
                final(self).events().subrange(old(self).events().len() as int, final(self).events().len() as int),
            ),
            final(self).task_pool().len() <= old(self).task_pool().len(),
            old(self).ids_consistent() ==> final(self).ids_consistent(),
            r is Ok ==> forall|f: FilterView| #[trigger] final(self).cached_ids(f) is None,
            final(self).pending() == old(self).pending(),
        decreases old(self).task_pool().len(),
    {
        let ghost may = any_project();
        let ghost tm0 = self.tasks.map();
        let ghost k0 = self.analytics.events().len() as int;
        let (project_id, parent_id, subtask_ids) = match self.tasks.get(&task_id) {
            Some(t) => (t.project_id.clone(), t.parent_id, copy_ids(&t.subtask_ids)),
            None => {
                proof {
                    lemma_reach_empty(tm0, may, task_id);
                    lemma_removed_nothing(tm0, reach_set(tm0, may, task_id));
                    let order = Seq::<TaskId>::empty();
                    assert(order.to_set() =~= reach_set(tm0, may, task_id));
                    let evs = self.analytics.events().subrange(k0, k0);
                    assert(evs.len() == 0);
                    assert(deletion_order(tm0, reach_set(tm0, may, task_id), actor@, evs, order));
                }
                return Err(task_not_found(task_id));
            },
        };
        let ghost t0 = tm0[task_id];
        if let Some(pid) = parent_id {
            let ghost before_parent = self.tasks.map();
            if let Some(mut parent) = self.tasks.remove(&pid) {
                parent.subtask_ids = without(&parent.subtask_ids, task_id);
                let ghost np = parent;
                self.tasks.insert(pid, parent);
                assert(self.tasks.map() =~= before_parent.insert(pid, np));
            } else {
                assert(self.tasks.map() =~= before_parent);
            }
        }
        let ghost m1 = self.tasks.map();
        self.tasks.remove(&task_id);
        self.invalidate_cache();
        proof {
            lemma_start(tm0, m1, self.tasks.map(), may, task_id);
        }
        let ghost mut g: Set<TaskId> = set![task_id];
        let ghost mut order: Seq<TaskId> = Seq::empty();
        proof {
            assert(order.to_set() =~= g.remove(task_id));
        }
        let n = subtask_ids.len();
        let mut i: usize = 0;
        while i < n
            invariant
                self.wf(),
                n == subtask_ids@.len(),
                subtask_ids@ == t0.subtask_ids@,
                i <= n,
                tm0 == old(self).tasks.map(),
                may == any_project(),
                k0 == old(self).analytics.events().len(),
                t0 == tm0[task_id],
                tm0.contains_key(task_id),
                self.notifications@ == old(self).notifications@,
                self.analytics.events().len() >= k0,
                self.analytics.events().subrange(0, k0) == old(self).analytics.events(),
                self.tasks.vals().len() < old(self).tasks.vals().len(),
                self.filter_cache.cached() == Map::<FilterView, Vec<TaskId>>::empty(),
                g.contains(task_id),
                forall|x: TaskId| g.contains(x) ==> reaches(tm0, may, task_id, x),
                removed(tm0, self.tasks.map(), g),
                frontier(tm0, may, task_id, g, subtask_ids@, i as int),
                order.no_duplicates(),
                order.to_set() == g.remove(task_id),
                deletion_order(tm0, g.remove(task_id), actor@,
                    self.analytics.events().subrange(k0, self.analytics.events().len() as int), order),
                old(self).ids_consistent() ==> self.ids_consistent(),
            decreases n - i,
        {
            let ghost cur = self.tasks.map();
            let ghost ev = self.analytics.events();
            let s = subtask_ids[i];
            let _ = self.delete(s, actor);
            proof {
                assert forall|x: FilterView| !self.filter_cache.cached().contains_key(x) by {
                    assert(self.cached_ids(x) is None);
                }
                assert(self.filter_cache.cached() =~= Map::<FilterView, Vec<TaskId>>::empty());
                let rc = reach_set(cur, may, s);
                lemma_step(tm0, may, task_id, subtask_ids@, i as int, g, cur, self.tasks.map());
                let evs = self.analytics.events();
                assert(evs.subrange(0, ev.len() as int) == ev);
                assert(evs.subrange(0, k0) =~= ev.subrange(0, k0));
                let os = choose|os: Seq<TaskId>| #[trigger] deletion_order(cur, rc, actor@,
                    evs.subrange(ev.len() as int, evs.len() as int), os);
                assert(evs.subrange(k0, ev.len() as int) =~= ev.subrange(k0, ev.len() as int));
                lemma_reach_stored(cur, may, s);
                lemma_order_join(tm0, cur, g, task_id, rc, actor@, evs, k0, ev.len() as int, order, os);
                order = order + os;
                g = g.union(rc);
            }
            i = i + 1;
        }
        let ghost ev = self.analytics.events();
        self.analytics.track("task_deleted", Some(actor), Some(&project_id));
        proof {
            lemma_finish(tm0, may, task_id, subtask_ids@, g, self.tasks.map());
            let evs = self.analytics.events();
            assert(evs.subrange(0, k0) =~= ev.subrange(0, k0));
            lemma_order_last(tm0, g, task_id, actor@, ev, evs, k0, order);
        }
        Ok(())
    }

    /// The tasks that meet `filter`, highest priority first and, for equal
    /// priority, earliest created first. A listing already made for the same
    /// filter since the tasks last changed is answered again from the ids it
    /// held.
    pub fn filter(&mut self, filter: &TaskFilter) -> (r: Vec<&Task>)
        requires
            old(self).wf(),
        ensures
            final(self).wf(),
            final(self).task_map() == old(self).task_map(),
            final(self).task_pool() == old(self).task_pool(),
            final(self).pending() == old(self).pending(),
            final(self).events() == old(self).events(),
            service_filter_answer(*old(self), *final(self), filter@, derefs(r@)),
    {
        let ghost before = *self;
        let ghost f = filter@;
        let r = filter_with_cache(&self.tasks, &mut self.filter_cache, filter);
        proof {
            let listing = derefs(r@);
            if !before.filter_cache.cached().contains_key(f) {
                assert forall|g: FilterView| #[trigger] self.filter_cache.cached().contains_key(g) implies exists|q: Seq<Task>|
                    is_listing(q, self.tasks.vals(), g) && self.filter_cache.cached()[g]@ == #[trigger] ids_of(q) by {
                    if g == f {
                        assert(is_listing(listing, self.tasks.vals(), g) && self.filter_cache.cached()[g]@ == ids_of(listing));
                    } else {
                        assert(before.filter_cache.cached().contains_key(g));
                    }
                }
            } else if before.ids_consistent() {
                let q = choose|q: Seq<Task>| is_listing(q, before.tasks.vals(), f) && before.filter_cache.cached()[f]@ == #[trigger] ids_of(q);
                crate::engine::lemma_listing_resolves_in(before.tasks, q, f);
            }
        }
        r
    }
}

} // verus!
