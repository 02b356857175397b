//! The task-flow engine: tasks, projects and users in one place, with the
//! permission rules, the status workflow, filtering and statistics.

use vstd::prelude::*;
use crate::domain::{
    kind_name, denied, is_denied, is_invalid, is_not_found, member_of, not_found, owner_of, status_name,
    task_not_found, valid_transition, is_valid_transition, AnalyticsEvent, Notification,
    NotificationKind, Priority, Project, ProjectId, ProjectStats, Task, TaskFilter, TaskFlowError,
    TaskId, TaskStatus, Timestamp, User, UserId,
};
use crate::query::{
    answers_hold, derefs, filter_with_cache, ids_of, is_listing, matcher, resolve, task_matches, FilterCache,
    FilterView,
};
use crate::stats::{count_project_tasks, stats_spec};
use crate::table::{adds_new, Table};
use crate::text::{copy_opt, join2, join3, vec_has_text};
use crate::ids::{fresh_id, fresh_text_id, is_v4, is_v4_text, uuid_text};
use crate::clock::now;
use crate::analytics::{event_is, AnalyticsCollector, BufferedCollector};
use crate::deletion::{
    deletion_events, deletion_order, frontier, lemma_finish, lemma_order_join, lemma_order_last, lemma_reach_empty,
    lemma_reach_stored, lemma_removed_nothing, lemma_start, lemma_step, owned_by, reach_set, reaches, removed,
};

verus! {

broadcast use {vstd::seq_lib::group_to_multiset_ensures, vstd::seq_lib::group_filter_ensures};

/// `t` is a task just created: it carries `id`, `title` and `project`, is
/// in the backlog without priority, assignee, labels, due date, parent or
/// subtasks, and was created and last updated at `at`.
pub open spec fn fresh_task(t: Task, id: TaskId, title: Seq<char>, project: Seq<char>, at: Timestamp) -> bool {
    &&& t.id == id
    &&& t.title@ == title
    &&& t.description is None
    &&& t.status == TaskStatus::Backlog
    &&& t.priority == Priority::NoPriority
    &&& t.assignee is None
    &&& t.project_id@ == project
    &&& t.labels@.len() == 0
    &&& t.created_at == at
    &&& t.updated_at == at
    &&& t.due_date is None
    &&& t.parent_id is None
    &&& t.subtask_ids@.len() == 0
}

/// `p` is a project just created by `owner` under `id`: named `name`,
/// without description, with the owner as its only member.
pub open spec fn fresh_project(p: Project, id: Seq<char>, name: Seq<char>, owner: Seq<char>, at: Timestamp) -> bool {
    &&& p.id@ == id
    &&& p.name@ == name
    &&& p.description is None
    &&& p.owner@ == owner
    &&& p.members@.len() == 1
    &&& p.members@[0]@ == owner
    &&& p.created_at == at
}

/// `n` tells `user` about `kind` with `message` at `at`.
pub open spec fn notice(n: Notification, kind: NotificationKind, user: Seq<char>, message: Seq<char>, at: Timestamp) -> bool {
    n.kind == kind && n.user_id@ == user && n.message@ == message && n.timestamp == at
}


/// From `before` to `after`, the notifications tell `assignee` that the
/// task moved to `s`, unless there is no assignee or the assignee is the
/// actor, in which case nothing is sent.
pub open spec fn status_change_told(
    before: Seq<Notification>,
    after: Seq<Notification>,
    assignee: Option<String>,
    actor: Seq<char>,
    s: TaskStatus,
    at: Timestamp,
) -> bool {
    if assignee matches Some(a) && a@ != actor {
        &&& after.len() == before.len() + 1
        &&& after.drop_last() == before
        &&& notice(after.last(), NotificationKind::TaskStatusChanged, assignee.unwrap()@, "Task status changed to "@ + status_name(s), at)
    } else {
        after == before
    }
}


/// What one call of `filter_tasks` with filter `f` does, going from `before`
/// to `after` and returning `r`: nothing but the cache changes; a cached id
/// list for `f` is resolved against the tasks; otherwise `r` is a fresh
/// listing. When every task is stored under its own id, `r` is always a
/// listing of the tasks and its ids are what is cached for `f` afterwards.
pub open spec fn filter_answer(before: TaskFlowEngine, after: TaskFlowEngine, f: FilterView, r: Seq<Task>) -> bool {
    &&& after.task_map() == before.task_map()
    &&& after.task_pool() == before.task_pool()
    &&& after.project_map() == before.project_map()
    &&& after.user_map() == before.user_map()
    &&& after.pending() == before.pending()
    &&& after.events() == before.events()
    &&& after.path() == before.path()
    &&& (before.cached_ids(f) matches Some(ids) ==> r == resolve(ids, before.task_map()))
    &&& (before.cached_ids(f) is None ==> is_listing(r, before.task_pool(), f) && after.cached_ids(f) == Some(ids_of(r)))
    &&& (before.ids_consistent() ==> is_listing(r, before.task_pool(), f) && after.cached_ids(f) == Some(ids_of(r)))
}

/// No two users share an email.
pub open spec fn emails_distinct(users: Map<Seq<char>, User>) -> bool {
    forall|a: Seq<char>, b: Seq<char>|
        #[trigger] users.contains_key(a) && #[trigger] users.contains_key(b) && a != b ==> users[a].email@ != users[b].email@
}

/// Every project lists its owner among its members.
pub open spec fn owners_are_members(projects: Map<Seq<char>, Project>) -> bool {
    forall|p: Seq<char>| #[trigger] projects.contains_key(p) ==> projects[p].has_member(projects[p].owner@)
}

/// No project lists a member twice.
pub open spec fn members_distinct(projects: Map<Seq<char>, Project>) -> bool {
    forall|p: Seq<char>| #[trigger] projects.contains_key(p) ==> texts_distinct(projects[p].members@)
}

/// No text occurs twice in `v`.
pub open spec fn texts_distinct(v: Seq<String>) -> bool {
    forall|i: int, j: int| 0 <= i < j < v.len() ==> #[trigger] v[i]@ != #[trigger] v[j]@
}

/// `e` records that notification `n` was sent: `notification_` and the
/// kind, for the recipient, without a project.
pub open spec fn notice_event(e: AnalyticsEvent, n: Notification) -> bool {
    event_is(e, "notification_"@ + kind_name(n.kind), Some(n.user_id@), None)
}

/// `t` is stored in `m` under some id.
pub open spec fn is_stored(m: Map<TaskId, Task>, t: Task) -> bool {
    exists|k: TaskId| m.contains_key(k) && m[k] == t
}

/// A table of tasks holds exactly the stored tasks in its sequence, one
/// entry per key; when every task is stored under its own id, each entry is
/// the task stored under its id.
pub proof fn lemma_table_pool(tasks: Table<TaskId, Task>)
    requires
        tasks.wf(),
    ensures
        tasks.vals().len() == tasks.map().dom().len(),
        forall|i: int| 0 <= i < tasks.vals().len() ==> is_stored(tasks.map(), #[trigger] tasks.vals()[i]),
        forall|k: TaskId| #[trigger] tasks.map().contains_key(k) ==> tasks.vals().contains(tasks.map()[k]),
        (forall|k: TaskId| #[trigger] tasks.map().contains_key(k) ==> tasks.map()[k].id == k) ==> forall|i: int|
            0 <= i < tasks.vals().len() ==> tasks.map().contains_key(#[trigger] tasks.vals()[i].id)
                && tasks.map()[tasks.vals()[i].id] == tasks.vals()[i],
{
    tasks.lemma_table_len();
    assert forall|i: int| 0 <= i < tasks.vals().len() implies is_stored(tasks.map(), #[trigger] tasks.vals()[i]) by {
        tasks.lemma_index_of(i);
        let k = tasks.keys()[i];
        assert(tasks.map().contains_key(k) && tasks.map()[k] == tasks.vals()[i]);
    }
    assert forall|k: TaskId| #[trigger] tasks.map().contains_key(k) implies tasks.vals().contains(tasks.map()[k]) by {
        let i = tasks.lemma_value_at(k);
        assert(tasks.vals()[i] == tasks.map()[k]);
    }
    if forall|k: TaskId| #[trigger] tasks.map().contains_key(k) ==> tasks.map()[k].id == k {
        assert forall|i: int| 0 <= i < tasks.vals().len() implies tasks.map().contains_key(#[trigger] tasks.vals()[i].id)
            && tasks.map()[tasks.vals()[i].id] == tasks.vals()[i] by {
            tasks.lemma_index_of(i);
            let k = tasks.keys()[i];
            assert(tasks.map()[k].id == k);
        }
    }
}

/// Creating a task keeps every task the engine held, unchanged, and adds
/// exactly one under an id it did not hold; two creations in a row give two
/// different ids. (Projects and users are created the same way; see
/// `law_adds_new` and `law_successive_keys_differ`.)
pub proof fn law_creation_is_fresh(e0: TaskFlowEngine, e1: TaskFlowEngine, e2: TaskFlowEngine, id1: TaskId, id2: TaskId)
    requires
        e0.wf(),
        adds_new(e0.task_map(), e1.task_map(), id1),
        adds_new(e1.task_map(), e2.task_map(), id2),
    ensures
        e1.task_map().dom().len() == e0.task_map().dom().len() + 1,
        forall|k: TaskId| #[trigger] e0.task_map().contains_key(k) ==> e1.task_map().contains_key(k)
            && e1.task_map()[k] == e0.task_map()[k],
        id1 != id2,
        e2.task_map().contains_key(id1) && e2.task_map()[id1] == e1.task_map()[id1],
{
    e0.lemma_maps_finite();
    crate::table::law_adds_new(e0.task_map(), e1.task_map(), id1);
    crate::table::law_successive_keys_differ(e0.task_map(), e1.task_map(), e2.task_map(), id1, id2);
}

/// The filter with no criteria.
pub open spec fn no_criteria() -> FilterView {
    FilterView {
        status: None,
        priority: None,
        assignee: None,
        project_id: None,
        labels: None,
        due_before: None,
        due_after: None,
        search_text: None,
    }
}

/// A listing of an engine's tasks holds exactly the stored tasks that meet
/// the filter: every stored task that meets it is listed, every entry is a
/// stored task that meets it, and a listing with no criteria has one entry
/// per stored task.
pub proof fn law_listing_is_exact(e: TaskFlowEngine, r: Seq<Task>, f: FilterView)
    requires
        e.wf(),
        is_listing(r, e.task_pool(), f),
    ensures
        forall|k: TaskId| #[trigger] e.task_map().contains_key(k) && task_matches(e.task_map()[k], f)
            ==> r.contains(e.task_map()[k]),
        forall|i: int| 0 <= i < r.len() ==> is_stored(e.task_map(), #[trigger] r[i]) && task_matches(r[i], f),
        f == no_criteria() ==> r.len() == e.task_map().dom().len(),
{
    e.lemma_pool_is_stored();
    lemma_listing_exact_in(e.task_map(), e.task_pool(), r, f);
}

/// A listing of a sequence that holds exactly the tasks of `m` lists
/// exactly the tasks of `m` that meet the filter.
pub proof fn lemma_listing_exact_in(m: Map<TaskId, Task>, pool: Seq<Task>, r: Seq<Task>, f: FilterView)
    requires
        pool.len() == m.dom().len(),
        forall|i: int| 0 <= i < pool.len() ==> is_stored(m, #[trigger] pool[i]),
        forall|k: TaskId| #[trigger] m.contains_key(k) ==> pool.contains(m[k]),
        is_listing(r, pool, f),
    ensures
        forall|k: TaskId| #[trigger] m.contains_key(k) && task_matches(m[k], f) ==> r.contains(m[k]),
        forall|i: int| 0 <= i < r.len() ==> is_stored(m, #[trigger] r[i]) && task_matches(r[i], f),
        f == no_criteria() ==> r.len() == m.dom().len(),
{
    let sel = pool.filter(matcher(f));
    assert forall|k: TaskId| #[trigger] m.contains_key(k) && task_matches(m[k], f) implies r.contains(m[k]) by {
        let t = m[k];
        let j = choose|j: int| 0 <= j < pool.len() && pool[j] == t;
        pool.lemma_filter_contains(matcher(f), j);
        assert(sel.to_multiset().count(t) > 0);
        assert(r.to_multiset().count(t) > 0);
    }
    assert forall|i: int| 0 <= i < r.len() implies is_stored(m, #[trigger] r[i]) && task_matches(r[i], f) by {
        assert(r.to_multiset().count(r[i]) > 0);
        assert(sel.to_multiset().count(r[i]) > 0);
        assert(sel.contains(r[i]));
        pool.lemma_filter_contains_rev(matcher(f), r[i]);
        let j = choose|j: int| 0 <= j < sel.len() && sel[j] == r[i];
        assert(matcher(f)(sel[j]));
        let q = choose|q: int| 0 <= q < pool.len() && pool[q] == r[i];
        assert(is_stored(m, pool[q]));
    }
    if f == no_criteria() {
        assert forall|i: int| 0 <= i < pool.len() implies #[trigger] matcher(f)(pool[i]) by {}
        crate::deletion::lemma_filter_all(pool, matcher(f));
        assert(r.len() == r.to_multiset().len());
        assert(sel.len() == sel.to_multiset().len());
    }
}

/// After a change that dropped every cached listing (every successful
/// creation, status change, assignment or deletion does), the next listing
/// is computed afresh: it lists exactly the stored tasks that meet the
/// filter.
pub proof fn law_listing_fresh_after_change(e1: TaskFlowEngine, e2: TaskFlowEngine, f: FilterView, r: Seq<Task>)
    requires
        e1.wf(),
        forall|g: FilterView| #[trigger] e1.cached_ids(g) is None,
        filter_answer(e1, e2, f, r),
    ensures
        is_listing(r, e1.task_pool(), f),
        forall|k: TaskId| #[trigger] e1.task_map().contains_key(k) && task_matches(e1.task_map()[k], f)
            ==> r.contains(e1.task_map()[k]),
        forall|i: int| 0 <= i < r.len() ==> is_stored(e1.task_map(), #[trigger] r[i]) && task_matches(r[i], f),
{
    assert(e1.cached_ids(f) is None);
    law_listing_is_exact(e1, r, f);
}

/// A task added to the task sequence that meets a filter is in the next
/// listing for it, which is one entry longer than a listing before.
pub proof fn law_added_task_listed(pool: Seq<Task>, t: Task, f: FilterView, r0: Seq<Task>, r1: Seq<Task>)
    requires
        is_listing(r0, pool, f),
        is_listing(r1, pool.push(t), f),
        task_matches(t, f),
    ensures
        r1.contains(t),
        r1.len() == r0.len() + 1,
{
    pool.lemma_filter_push(t, matcher(f));
    let s0 = pool.filter(matcher(f));
    assert(pool.push(t).filter(matcher(f)) == s0.push(t));
    assert(s0.push(t).to_multiset() =~= s0.to_multiset().insert(t));
    assert(r1.to_multiset().count(t) > 0);
    assert(r1.len() == r1.to_multiset().len());
    assert(r0.len() == r0.to_multiset().len());
}

/// Filtering twice with no change in between gives the same list, for an
/// engine whose tasks are stored under their own ids.
pub proof fn law_filter_repeats(
    e0: TaskFlowEngine,
    e1: TaskFlowEngine,
    e2: TaskFlowEngine,
    f: FilterView,
    r1: Seq<Task>,
    r2: Seq<Task>,
)
    requires
        e0.wf(),
        e0.ids_consistent(),
        filter_answer(e0, e1, f, r1),
        filter_answer(e1, e2, f, r2),
    ensures
        r2 == r1,
{
    assert(e1.ids_consistent());
    e0.lemma_listing_resolves(r1, f);
}


/// In a table that stores every task under its own id, the ids of a listing
/// name exactly that listing again.
pub proof fn lemma_listing_resolves_in(tasks: Table<TaskId, Task>, r: Seq<Task>, f: FilterView)
    requires
        tasks.wf(),
        forall|k: TaskId| #[trigger] tasks.map().contains_key(k) ==> tasks.map()[k].id == k,
        is_listing(r, tasks.vals(), f),
    ensures
        resolve(ids_of(r), tasks.map()) == r,
{
    let m = tasks.map();
    assert forall|i: int| 0 <= i < r.len() implies m.contains_key(#[trigger] r[i].id) && m[r[i].id] == r[i] by {
        let pool = tasks.vals();
        let sel = pool.filter(crate::query::matcher(f));
        assert(r.to_multiset().count(r[i]) > 0);
        assert(sel.to_multiset().count(r[i]) > 0);
        assert(sel.contains(r[i]));
        pool.lemma_filter_contains_rev(crate::query::matcher(f), r[i]);
        let k = choose|k: int| 0 <= k < pool.len() && pool[k] == r[i];
        tasks.lemma_index_of(k);
    }
    lemma_resolve_own(r, m);
}

/// Resolving the ids of tasks that a map holds under their own ids gives
/// the tasks back.
proof fn lemma_resolve_own(r: Seq<Task>, m: Map<TaskId, Task>)
    requires
        forall|i: int| 0 <= i < r.len() ==> m.contains_key(#[trigger] r[i].id) && m[r[i].id] == r[i],
    ensures
        resolve(ids_of(r), m) == r,
    decreases r.len(),
{
    if r.len() > 0 {
        let init = r.drop_last();
        assert forall|i: int| 0 <= i < init.len() implies m.contains_key(#[trigger] init[i].id) && m[init[i].id] == init[i] by {
            assert(init[i] == r[i]);
        }
        lemma_resolve_own(init, m);
        assert(ids_of(r).drop_last() =~= ids_of(init));
        assert(r =~= init.push(r.last()));
        assert(ids_of(r).last() == r.last().id);
        assert(m.contains_key(r[r.len() - 1].id));
    } else {
        assert(ids_of(r) =~= Seq::<TaskId>::empty());
    }
}


/// Whether some user in `users` already has `email`.
pub(crate) fn email_in(users: &Table<UserId, User>, email: &String) -> (r: bool)
    requires
        users.wf(),
    ensures
        r == email_taken(users.map(), email@),
{
    let n = users.len();
    let mut i: usize = 0;
    while i < n
        invariant
            users.wf(),
            n == users.vals().len(),
            i <= n,
            forall|j: int| 0 <= j < i ==> #[trigger] users.vals()[j].email@ != email@,
        decreases n - i,
    {
        let (_, u) = users.entry(i);
        if u.email == *email {
            proof {
                users.lemma_index_of(i as int);
                let k = users.keys()[i as int];
                assert(users.map().contains_key(k));
            }
            return true;
        }
        i = i + 1;
    }
    proof {
        assert forall|k: Seq<char>| #[trigger] users.map().contains_key(k) implies users.map()[k].email@ != email@ by {
            let j = users.lemma_value_at(k);
        }
    }
    false
}


/// A copy of a list of ids.
pub(crate) fn copy_ids(v: &Vec<TaskId>) -> (r: Vec<TaskId>)
    ensures
        r@ == v@,
{
    let mut r: Vec<TaskId> = Vec::new();
    let n = v.len();
    let mut i: usize = 0;
    while i < n
        invariant
            n == v@.len(),
            i <= n,
            r@ == v@.subrange(0, i as int),
        decreases n - i,
    {
        r.push(v[i]);
        i = i + 1;
        assert(r@ =~= v@.subrange(0, i as int));
    }
    assert(r@ =~= v@);
    r
}

/// The ids of `v` other than `x`, in order.
pub(crate) fn without(v: &Vec<TaskId>, x: TaskId) -> (r: Vec<TaskId>)
    ensures
        forall|y: TaskId| #[trigger] r@.contains(y) <==> v@.contains(y) && y != x,
        r@ == v@.filter(|y: TaskId| y != x),
{
    let ghost keep = |y: TaskId| y != x;
    let mut r: Vec<TaskId> = Vec::new();
    let n = v.len();
    let mut i: usize = 0;
    assert(v@.take(0) =~= Seq::<TaskId>::empty());
    while i < n
        invariant
            n == v@.len(),
            i <= n,
            keep == (|y: TaskId| y != x),
            r@ == v@.take(i as int).filter(keep),
        decreases n - i,
    {
        let ghost prev = v@.take(i as int);
        assert(v@.take(i + 1) =~= prev.push(v@[i as int]));
        proof {
            prev.lemma_filter_push(v@[i as int], keep);
        }
        if v[i] != x {
            r.push(v[i]);
        }
        i = i + 1;
    }
    assert(v@.take(n as int) =~= v@);
    assert forall|y: TaskId| #[trigger] r@.contains(y) <==> v@.contains(y) && y != x by {
        if r@.contains(y) {
            v@.lemma_filter_contains_rev(keep, y);
        }
        if v@.contains(y) && y != x {
            let j = choose|j: int| 0 <= j < v@.len() && v@[j] == y;
            assert(keep(v@[j]));
        }
    }
    r
}

/// The number `n` of a project's tasks, done tasks and overdue tasks.
pub open spec fn stats_are(s: ProjectStats, n: (int, int, int)) -> bool {
    s.total_tasks == n.0 && s.completed_tasks == n.1 && s.overdue_tasks == n.2
}

/// Some user in `users` has `email`.
pub open spec fn email_taken(users: Map<Seq<char>, User>, email: Seq<char>) -> bool {
    exists|k: Seq<char>| #[trigger] users.contains_key(k) && users[k].email@ == email
}

/// One store for tasks, projects and users. Notifications that operations
/// send are queued for delivery (see `take_notifications`), and usage events
/// are recorded until flushed.
pub struct TaskFlowEngine {
    tasks: Table<TaskId, Task>,
    projects: Table<ProjectId, Project>,
    users: Table<UserId, User>,
    storage_path: String,
    outbox: Vec<Notification>,
    analytics: BufferedCollector,
    filter_cache: FilterCache,
}

impl TaskFlowEngine {
    /// The engine's tables are well formed and every cached listing is
    /// still a listing of the current tasks.
    pub closed spec fn wf(self) -> bool {
        &&& self.tasks.wf()
        &&& self.projects.wf()
        &&& self.users.wf()
        &&& self.filter_cache.wf()
        &&& answers_hold(self.filter_cache.cached(), self.tasks.vals())
    }

    /// Usage events recorded and not yet flushed, oldest first.
    pub closed spec fn events(self) -> Seq<AnalyticsEvent> {
        self.analytics.events()
    }

    /// `after` holds one more event than `self`: `event_type` for `user`
    /// in `project`.
    pub open spec fn recorded(self, after: TaskFlowEngine, event_type: Seq<char>, user: Option<Seq<char>>, project: Option<Seq<char>>) -> bool {
        &&& after.events().len() == self.events().len() + 1
        &&& after.events().drop_last() == self.events()
        &&& event_is(after.events().last(), event_type, user, project)
    }

    /// From `self` to `after`, one event was recorded for each notification
    /// sent, then `event_type` for `user` in `project`.
    pub open spec fn recorded_after_notices(self, after: TaskFlowEngine, event_type: Seq<char>, user: Option<Seq<char>>, project: Option<Seq<char>>) -> bool {
        let told = after.pending().subrange(self.pending().len() as int, after.pending().len() as int);
        &&& after.pending().len() >= self.pending().len()
        &&& after.events().len() == self.events().len() + told.len() + 1
        &&& after.events().subrange(0, self.events().len() as int) == self.events()
        &&& forall|i: int| 0 <= i < told.len() ==> notice_event(#[trigger] after.events()[self.events().len() + i], told[i])
        &&& event_is(after.events().last(), event_type, user, project)
    }

    /// The tasks, by the id they are stored under.
    pub closed spec fn task_map(self) -> Map<TaskId, Task> {
        self.tasks.map()
    }

    /// The tasks in the order the engine keeps them.
    pub closed spec fn task_pool(self) -> Seq<Task> {
        self.tasks.vals()
    }

    /// The projects, by the id they are stored under.
    pub closed spec fn project_map(self) -> Map<Seq<char>, Project> {
        self.projects.map()
    }

    /// The users, by the id they are stored under.
    pub closed spec fn user_map(self) -> Map<Seq<char>, User> {
        self.users.map()
    }

    /// Every task is stored under its own id.
    pub open spec fn ids_consistent(self) -> bool {
        forall|k: TaskId| #[trigger] self.task_map().contains_key(k) ==> self.task_map()[k].id == k
    }

    /// Notifications sent and not yet taken, oldest first.
    pub closed spec fn pending(self) -> Seq<Notification> {
        self.outbox@
    }

    /// The directory the engine's data belongs to.
    pub closed spec fn path(self) -> Seq<char> {
        self.storage_path@
    }

    /// The id list cached for filter `f`, if any.
    pub closed spec fn cached_ids(self, f: FilterView) -> Option<Seq<TaskId>> {
        if self.filter_cache.cached().contains_key(f) {
            Some(self.filter_cache.cached()[f]@)
        } else {
            None
        }
    }

    /// An engine without data for the directory `storage_path`.
    pub fn new(storage_path: String) -> (r: Self)
        ensures
            r.wf(),
            r.ids_consistent(),
            r.path() == storage_path@,
            r.task_map() == Map::<TaskId, Task>::empty(),
            r.project_map() == Map::<Seq<char>, Project>::empty(),
            r.user_map() == Map::<Seq<char>, User>::empty(),
            r.pending().len() == 0,
            r.events().len() == 0,
            forall|f: FilterView| #[trigger] r.cached_ids(f) is None,
    {
        TaskFlowEngine {
            tasks: Table::new(),
            projects: Table::new(),
            users: Table::new(),
            storage_path,
            outbox: Vec::new(),
            analytics: BufferedCollector::new(),
            filter_cache: FilterCache::new(),
        }
    }

    /// An engine holding data read from `storage_path`.
    pub fn from_parts(
        storage_path: String,
        tasks: Table<TaskId, Task>,
        projects: Table<ProjectId, Project>,
        users: Table<UserId, User>,
    ) -> (r: Self)
        requires
            tasks.wf(),
            projects.wf(),
            users.wf(),
        ensures
            r.wf(),
            r.path() == storage_path@,
            r.task_map() == tasks.map(),
            r.task_pool() == tasks.vals(),
            r.project_map() == projects.map(),
            r.user_map() == users.map(),
            r.pending().len() == 0,
            r.events().len() == 0,
            forall|f: FilterView| #[trigger] r.cached_ids(f) is None,
    {
        TaskFlowEngine {
            tasks,
            projects,
            users,
            storage_path,
            outbox: Vec::new(),
            analytics: BufferedCollector::new(),
            filter_cache: FilterCache::new(),
        }
    }

    /// Hands over the notifications sent so far, oldest first, and forgets
    /// them.
    pub fn take_notifications(&mut self) -> (r: Vec<Notification>)
        requires
            old(self).wf(),
        ensures
            final(self).wf(),
            r@ == old(self).pending(),
            final(self).pending().len() == 0,
            final(self).task_map() == old(self).task_map(),
            final(self).task_pool() == old(self).task_pool(),
            final(self).project_map() == old(self).project_map(),
            final(self).user_map() == old(self).user_map(),
            final(self).path() == old(self).path(),
            final(self).events() == old(self).events(),
    {
        let mut taken: Vec<Notification> = Vec::new();
        std::mem::swap(&mut taken, &mut self.outbox);
        taken
    }

    /// The tasks, to be saved.
    pub fn tasks(&self) -> (r: &Table<TaskId, Task>)
        ensures
            self.wf() ==> r.wf(),
            r.map() == self.task_map(),
            r.vals() == self.task_pool(),
    {
        &self.tasks
    }

    /// The projects, to be saved.
    pub fn projects(&self) -> (r: &Table<ProjectId, Project>)
        ensures
            self.wf() ==> r.wf(),
            r.map() == self.project_map(),
    {
        &self.projects
    }

    /// The users, to be saved.
    pub fn users(&self) -> (r: &Table<UserId, User>)
        ensures
            self.wf() ==> r.wf(),
            r.map() == self.user_map(),
    {
        &self.users
    }

    /// The directory the engine's data belongs to.
    pub fn storage_path(&self) -> (r: &String)
        ensures
            r@ == self.path(),
    {
        &self.storage_path
    }

    /// Whether `user_id` is a member of project `project_id`.
    fn is_member(&self, user_id: &String, project_id: &String) -> (r: bool)
        requires
            self.projects.wf(),
        ensures
            r == member_of(self.projects.map(), user_id@, project_id@),
    {
        match self.projects.get(project_id) {
            Some(p) => vec_has_text(&p.members, user_id),
            None => false,
        }
    }

    /// Whether `user_id` owns project `project_id`.
    fn is_project_owner(&self, user_id: &String, project_id: &String) -> (r: bool)
        requires
            self.projects.wf(),
        ensures
            r == owner_of(self.projects.map(), user_id@, project_id@),
    {
        match self.projects.get(project_id) {
            Some(p) => p.owner == *user_id,
            None => false,
        }
    }

    /// Queues a notification for delivery and records that it was sent
    /// (`notification_` and its kind, for its recipient).
    fn send_notification(&mut self, notification: Notification)
        ensures
            final(self).outbox@ == old(self).outbox@.push(notification),
            final(self).events().len() == old(self).events().len() + 1,
            final(self).events().drop_last() == old(self).events(),
            notice_event(final(self).events().last(), notification),
            final(self).tasks == old(self).tasks,
            final(self).projects == old(self).projects,
            final(self).users == old(self).users,
            final(self).storage_path == old(self).storage_path,
            final(self).filter_cache == old(self).filter_cache,
    {
        let event_type = join2("notification_", notification.kind.name());
        let user = notification.user_id.clone();
        let at = notification.timestamp;
        self.outbox.push(notification);
        self.analytics.track_at(event_type.as_str(), Some(&user), None, at);
    }

    /// Forgets every cached listing.
    fn invalidate_filter_cache(&mut self)
        requires
            old(self).tasks.wf(),
            old(self).projects.wf(),
            old(self).users.wf(),
        ensures
            final(self).wf(),
            final(self).tasks == old(self).tasks,
            final(self).projects == old(self).projects,
            final(self).users == old(self).users,
            final(self).storage_path == old(self).storage_path,
            final(self).outbox == old(self).outbox,
            final(self).analytics == old(self).analytics,
            forall|f: FilterView| #[trigger] final(self).cached_ids(f) is None,
            final(self).filter_cache.cached() == Map::<FilterView, Vec<TaskId>>::empty(),
    {
        self.filter_cache.clear();
    }


    /// Creates project `name` owned by `owner`, stored under `id` and
    /// created at `at`; the owner is its only member.
    pub fn create_project_with(&mut self, name: String, owner: UserId, id: String, at: Timestamp) -> (r: Result<ProjectId, TaskFlowError>)
        requires
            old(self).wf(),
        ensures
            final(self).wf(),
            r matches Ok(pid) && pid@ == id@,
            final(self).project_map().contains_key(id@),
            fresh_project(final(self).project_map()[id@], id@, name@, owner@, at),
            final(self).project_map() == old(self).project_map().insert(id@, final(self).project_map()[id@]),
            owners_are_members(old(self).project_map()) ==> owners_are_members(final(self).project_map()),
            members_distinct(old(self).project_map()) ==> members_distinct(final(self).project_map()),
            final(self).task_map() == old(self).task_map(),
            final(self).task_pool() == old(self).task_pool(),
            final(self).user_map() == old(self).user_map(),
            final(self).pending() == old(self).pending(),
            final(self).path() == old(self).path(),
            old(self).recorded(*final(self), "project_created"@, Some(owner@), Some(id@)),
    {
        let mut members: Vec<UserId> = Vec::new();
        members.push(owner.clone());
        let project = Project {
            id: id.clone(),
            name,
            description: None,
            owner: owner.clone(),
            members,
            created_at: at,
        };
        let ghost p = project;
        self.projects.insert(id.clone(), project);
        assert(self.projects.map()[id@] == p);
        self.analytics.track_at("project_created", Some(&owner), Some(&id), at);
        assert(self.projects.map()[id@] == p);
        Ok(id)
    }

    /// Creates project `name` owned by `owner` under a fresh random id; the
    /// owner is its only member.
    pub fn create_project(&mut self, name: String, owner: UserId) -> (r: Result<ProjectId, TaskFlowError>)
        requires
            old(self).wf(),
        ensures
            final(self).wf(),
            r is Ok,
            r matches Ok(pid) && is_v4_text(pid@) && pid@.len() == 36
                && adds_new(old(self).project_map(), final(self).project_map(), pid@) && final(self).project_map().contains_key(pid@)
                && fresh_project(final(self).project_map()[pid@], pid@, name@, owner@, final(self).project_map()[pid@].created_at)
                && final(self).project_map() == old(self).project_map().insert(pid@, final(self).project_map()[pid@])
                && old(self).recorded(*final(self), "project_created"@, Some(owner@), Some(pid@)),
            owners_are_members(old(self).project_map()) ==> owners_are_members(final(self).project_map()),
            members_distinct(old(self).project_map()) ==> members_distinct(final(self).project_map()),
            final(self).task_map() == old(self).task_map(),
            final(self).task_pool() == old(self).task_pool(),
            final(self).user_map() == old(self).user_map(),
            final(self).pending() == old(self).pending(),
            final(self).path() == old(self).path(),
    {
        let id = fresh_text_id(&self.projects);
        let at = now();
        self.create_project_with(name, owner, id, at)
    }

    /// Registers user `name` with `email` under `id`, unless a user already
    /// has that email.
    pub fn register_user_with(&mut self, name: String, email: String, id: String) -> (r: Result<UserId, TaskFlowError>)
        requires
            old(self).wf(),
        ensures
            final(self).wf(),
            email_taken(old(self).user_map(), email@) <==> r is Err,
            r matches Err(e) ==> is_invalid(e, "email already registered: "@ + email@) && *final(self) == *old(self),
            r matches Ok(uid) ==> {
                &&& uid@ == id@
                &&& final(self).user_map().contains_key(id@)
                &&& final(self).user_map() == old(self).user_map().insert(id@, final(self).user_map()[id@])
                &&& final(self).user_map()[id@].id@ == id@
                &&& final(self).user_map()[id@].name@ == name@
                &&& final(self).user_map()[id@].email@ == email@
                &&& final(self).user_map()[id@].avatar_url is None
                &&& old(self).recorded(*final(self), "user_registered"@, Some(id@), None)
            },
            emails_distinct(old(self).user_map()) ==> emails_distinct(final(self).user_map()),
            final(self).task_map() == old(self).task_map(),
            final(self).task_pool() == old(self).task_pool(),
            final(self).project_map() == old(self).project_map(),
            final(self).pending() == old(self).pending(),
            final(self).path() == old(self).path(),
    {
        if email_in(&self.users, &email) {
            let msg = join2("email already registered: ", email.as_str());
            return Err(TaskFlowError::ValidationError(msg));
        }
        let user = User { id: id.clone(), name, email, avatar_url: None };
        let ghost u = user;
        self.users.insert(id.clone(), user);
        assert(self.users.map()[id@] == u);
        self.analytics.track("user_registered", Some(&id), None);
        assert(self.users.map()[id@] == u);
        Ok(id)
    }

    /// Registers user `name` with `email` under a fresh random id, unless a
    /// user already has that email.
    pub fn register_user(&mut self, name: String, email: String) -> (r: Result<UserId, TaskFlowError>)
        requires
            old(self).wf(),
        ensures
            final(self).wf(),
            email_taken(old(self).user_map(), email@) <==> r is Err,
            r matches Err(e) ==> is_invalid(e, "email already registered: "@ + email@) && *final(self) == *old(self),
            r matches Ok(uid) ==> {
                &&& is_v4_text(uid@)
                &&& adds_new(old(self).user_map(), final(self).user_map(), uid@)
                &&& uid@.len() == 36
                &&& final(self).user_map().contains_key(uid@)
                &&& final(self).user_map() == old(self).user_map().insert(uid@, final(self).user_map()[uid@])
                &&& final(self).user_map()[uid@].id@ == uid@
                &&& final(self).user_map()[uid@].name@ == name@
                &&& final(self).user_map()[uid@].email@ == email@
                &&& final(self).user_map()[uid@].avatar_url is None
                &&& old(self).recorded(*final(self), "user_registered"@, Some(uid@), None)
            },
            emails_distinct(old(self).user_map()) ==> emails_distinct(final(self).user_map()),
            final(self).task_map() == old(self).task_map(),
            final(self).task_pool() == old(self).task_pool(),
            final(self).project_map() == old(self).project_map(),
            final(self).pending() == old(self).pending(),
            final(self).path() == old(self).path(),
    {
        let id = fresh_text_id(&self.users);
        self.register_user_with(name, email, id)
    }

    /// The user stored under `user_id`.
    pub fn get_user(&self, user_id: &UserId) -> (r: Result<&User, TaskFlowError>)
        requires
            self.wf(),
        ensures
            self.user_map().contains_key(user_id@) <==> r is Ok,
            r matches Ok(u) ==> *u == self.user_map()[user_id@],
            r matches Err(e) ==> is_not_found(e, "user: "@ + user_id@),
    {
        match self.users.get(user_id) {
            Some(u) => Ok(u),
            None => Err(not_found("user: ", user_id.as_str())),
        }
    }

    /// The task stored under `task_id`.
    pub fn get_task(&self, task_id: TaskId) -> (r: Result<&Task, TaskFlowError>)
        requires
            self.wf(),
        ensures
            self.task_map().contains_key(task_id) <==> r is Ok,
            r matches Ok(t) ==> *t == self.task_map()[task_id],
            r matches Err(e) ==> is_not_found(e, "task: "@ + uuid_text(task_id)),
    {
        match self.tasks.get(&task_id) {
            Some(t) => Ok(t),
            None => Err(task_not_found(task_id)),
        }
    }

    /// Creates task `title` in project `project_id` on behalf of `creator`,
    /// stored under `id` and created at `at`. The project must exist and the
    /// creator must be one of its members.
    pub fn create_task_with(
        &mut self,
        title: String,
        project_id: ProjectId,
        creator: &UserId,
        id: TaskId,
        at: Timestamp,
    ) -> (r: Result<TaskId, TaskFlowError>)
        requires
            old(self).wf(),
        ensures
            final(self).wf(),
            !old(self).project_map().contains_key(project_id@) ==> (r matches Err(e) && is_not_found(e, "project: "@ + project_id@)),
            old(self).project_map().contains_key(project_id@) && !member_of(old(self).project_map(), creator@, project_id@)
                ==> (r matches Err(e) && is_denied(e, creator@, "create task"@)),
            r is Err ==> *final(self) == *old(self),
            member_of(old(self).project_map(), creator@, project_id@) ==> {
                &&& r == Ok::<TaskId, TaskFlowError>(id)
                &&& final(self).task_map().contains_key(id)
                &&& fresh_task(final(self).task_map()[id], id, title@, project_id@, at)
                &&& final(self).task_map() == old(self).task_map().insert(id, final(self).task_map()[id])
                &&& !old(self).task_map().contains_key(id) ==> final(self).task_pool() == old(self).task_pool().push(final(self).task_map()[id])
                &&& old(self).recorded(*final(self), "task_created"@, Some(creator@), Some(project_id@))
            },
            old(self).ids_consistent() ==> final(self).ids_consistent(),
            r is Ok ==> forall|f: FilterView| #[trigger] final(self).cached_ids(f) is None,
            final(self).project_map() == old(self).project_map(),
            final(self).user_map() == old(self).user_map(),
            final(self).pending() == old(self).pending(),
            final(self).path() == old(self).path(),
    {
        if !self.projects.contains_key(&project_id) {
            return Err(not_found("project: ", project_id.as_str()));
        }
        if !self.is_member(creator, &project_id) {
            return Err(denied(creator, "create task"));
        }
        let task = Task {
            id,
            title,
            description: None,
            status: TaskStatus::Backlog,
            priority: Priority::NoPriority,
            assignee: None,
            project_id: project_id.clone(),
            labels: Vec::new(),
            created_at: at,
            updated_at: at,
            due_date: None,
            parent_id: None,
            subtask_ids: Vec::new(),
        };
        let ghost t = task;
        self.tasks.insert(id, task);
        self.invalidate_filter_cache();
        self.analytics.track_at("task_created", Some(creator), Some(&project_id), at);
        assert(self.tasks.map()[id] == t);
        Ok(id)
    }

    /// Creates task `title` in project `project_id` on behalf of `creator`
    /// under a fresh random id. The project must exist and the creator must
    /// be one of its members.
    pub fn create_task(&mut self, title: String, project_id: ProjectId, creator: &UserId) -> (r: Result<TaskId, TaskFlowError>)
        requires
            old(self).wf(),
        ensures
            final(self).wf(),
            !old(self).project_map().contains_key(project_id@) ==> (r matches Err(e) && is_not_found(e, "project: "@ + project_id@)),
            old(self).project_map().contains_key(project_id@) && !member_of(old(self).project_map(), creator@, project_id@)
                ==> (r matches Err(e) && is_denied(e, creator@, "create task"@)),
            r is Err ==> *final(self) == *old(self),
            member_of(old(self).project_map(), creator@, project_id@) ==> r is Ok,
            r matches Ok(id) ==> {
                &&& is_v4(id)
                &&& adds_new(old(self).task_map(), final(self).task_map(), id)
                &&& final(self).task_map().contains_key(id)
                &&& fresh_task(final(self).task_map()[id], id, title@, project_id@, final(self).task_map()[id].created_at)
                &&& final(self).task_map() == old(self).task_map().insert(id, final(self).task_map()[id])
                &&& !old(self).task_map().contains_key(id) ==> final(self).task_pool() == old(self).task_pool().push(final(self).task_map()[id])
                &&& old(self).recorded(*final(self), "task_created"@, Some(creator@), Some(project_id@))
            },
            old(self).ids_consistent() ==> final(self).ids_consistent(),
            r is Ok ==> forall|f: FilterView| #[trigger] final(self).cached_ids(f) is None,
            final(self).project_map() == old(self).project_map(),
            final(self).user_map() == old(self).user_map(),
            final(self).pending() == old(self).pending(),
            final(self).path() == old(self).path(),
    {
        let id = fresh_id(&self.tasks);
        let at = now();
        self.create_task_with(title, project_id, creator, id, at)
    }


    /// Moves task `task_id` to `new_status` on behalf of `actor` at time
    /// `at`. The task must exist, the move must be one the workflow allows
    /// and the actor must be a member of the task's project. Its assignee,
    /// when someone other than the actor, is told of the change.
    pub fn update_task_status_at(&mut self, task_id: TaskId, new_status: TaskStatus, actor: &UserId, at: Timestamp) -> (r: Result<(), TaskFlowError>)
        requires
            old(self).wf(),
        ensures
            final(self).wf(),
            !old(self).task_map().contains_key(task_id) ==> (r matches Err(e) && is_not_found(e, "task: "@ + uuid_text(task_id))),
            old(self).task_map().contains_key(task_id) && !valid_transition(old(self).task_map()[task_id].status, new_status)
                ==> r == Err::<(), TaskFlowError>(TaskFlowError::InvalidTransition { from: old(self).task_map()[task_id].status, to: new_status }),
            old(self).task_map().contains_key(task_id) && valid_transition(old(self).task_map()[task_id].status, new_status)
                && !member_of(old(self).project_map(), actor@, old(self).task_map()[task_id].project_id@)
                ==> (r matches Err(e) && is_denied(e, actor@, "update task status"@)),
            r is Err ==> *final(self) == *old(self),
            r is Ok ==> {
                let t = old(self).task_map()[task_id];
                &&& old(self).task_map().contains_key(task_id)
                &&& valid_transition(t.status, new_status)
                &&& member_of(old(self).project_map(), actor@, t.project_id@)
                &&& final(self).task_map() == old(self).task_map().insert(task_id, Task { status: new_status, updated_at: at, ..t })
                &&& status_change_told(old(self).pending(), final(self).pending(), t.assignee, actor@, new_status, at)
                &&& old(self).recorded_after_notices(*final(self), "task_status_changed"@, Some(actor@), Some(t.project_id@))
            },
            old(self).task_map().contains_key(task_id) && valid_transition(old(self).task_map()[task_id].status, new_status)
                && member_of(old(self).project_map(), actor@, old(self).task_map()[task_id].project_id@) ==> r is Ok,
            old(self).ids_consistent() ==> final(self).ids_consistent(),
            r is Ok ==> forall|f: FilterView| #[trigger] final(self).cached_ids(f) is None,
            final(self).project_map() == old(self).project_map(),
            final(self).user_map() == old(self).user_map(),
            final(self).path() == old(self).path(),
    {
        let (status, project_id, assignee) = match self.tasks.get(&task_id) {
            Some(t) => (t.status, t.project_id.clone(), copy_opt(&t.assignee)),
            None => {
                return Err(task_not_found(task_id));
            },
        };
        if !is_valid_transition(status, new_status) {
            return Err(TaskFlowError::InvalidTransition { from: status, to: new_status });
        }
        if !self.is_member(actor, &project_id) {
            return Err(denied(actor, "update task status"));
        }
        let ghost tm = self.tasks.map();
        let mut task = self.tasks.remove(&task_id).unwrap();
        task.status = new_status;
        task.updated_at = at;
        let ghost nt = task;
        self.tasks.insert(task_id, task);
        assert(self.tasks.map() =~= tm.insert(task_id, nt));
        if let Some(a) = assignee {
            if a != *actor {
                let message = join2("Task status changed to ", new_status.name());
                self.send_notification(
                    Notification { kind: NotificationKind::TaskStatusChanged, user_id: a, message, timestamp: at },
                );
                assert(self.outbox@.drop_last() =~= old(self).outbox@);
            }
        }
        self.invalidate_filter_cache();
        let ghost ev1 = self.events();
        self.analytics.track_at("task_status_changed", Some(actor), Some(&project_id), at);
        proof {
            let e0 = old(self).events();
            let e = self.events();
            let told = self.outbox@.subrange(old(self).outbox@.len() as int, self.outbox@.len() as int);
            assert(e.drop_last() == ev1);
            assert(e.subrange(0, e0.len() as int) =~= ev1.subrange(0, e0.len() as int));
            if self.outbox@.len() > old(self).outbox@.len() {
                assert(e[e0.len() as int] == ev1.last());
                assert(told[0] == self.outbox@.last());
            }
            assert(told.len() == self.outbox@.len() - old(self).outbox@.len());
        }
        Ok(())
    }

    /// Moves task `task_id` to `new_status` on behalf of `actor`, stamped
    /// with the current time. The task must exist, the move must be one the
    /// workflow allows and the actor must be a member of the task's project.
    /// Its assignee, when someone other than the actor, is told of the
    /// change.
    pub fn update_task_status(&mut self, task_id: TaskId, new_status: TaskStatus, actor: &UserId) -> (r: Result<(), TaskFlowError>)
        requires
            old(self).wf(),
        ensures
            final(self).wf(),
            !old(self).task_map().contains_key(task_id) ==> (r matches Err(e) && is_not_found(e, "task: "@ + uuid_text(task_id))),
            old(self).task_map().contains_key(task_id) && !valid_transition(old(self).task_map()[task_id].status, new_status)
                ==> r == Err::<(), TaskFlowError>(TaskFlowError::InvalidTransition { from: old(self).task_map()[task_id].status, to: new_status }),
            old(self).task_map().contains_key(task_id) && valid_transition(old(self).task_map()[task_id].status, new_status)
                && !member_of(old(self).project_map(), actor@, old(self).task_map()[task_id].project_id@)
                ==> (r matches Err(e) && is_denied(e, actor@, "update task status"@)),
            r is Err ==> *final(self) == *old(self),
            r is Ok ==> {
                let t = old(self).task_map()[task_id];
                let at = final(self).task_map()[task_id].updated_at;
                &&& old(self).task_map().contains_key(task_id)
                &&& valid_transition(t.status, new_status)
                &&& member_of(old(self).project_map(), actor@, t.project_id@)
                &&& final(self).task_map() == old(self).task_map().insert(task_id, Task { status: new_status, updated_at: at, ..t })
                &&& status_change_told(old(self).pending(), final(self).pending(), t.assignee, actor@, new_status, at)
                &&& old(self).recorded_after_notices(*final(self), "task_status_changed"@, Some(actor@), Some(t.project_id@))
            },
            old(self).task_map().contains_key(task_id) && valid_transition(old(self).task_map()[task_id].status, new_status)
                && member_of(old(self).project_map(), actor@, old(self).task_map()[task_id].project_id@) ==> r is Ok,
            old(self).ids_consistent() ==> final(self).ids_consistent(),
            r is Ok ==> forall|f: FilterView| #[trigger] final(self).cached_ids(f) is None,
            final(self).project_map() == old(self).project_map(),
            final(self).user_map() == old(self).user_map(),
            final(self).path() == old(self).path(),
    {
        let at = now();
        self.update_task_status_at(task_id, new_status, actor, at)
    }

    /// Assigns task `task_id` to `assignee` on behalf of `actor` at time
    /// `at`. The task must exist and both the actor and the assignee must be
    /// members of its project. The assignee is told.
    pub fn assign_task_at(&mut self, task_id: TaskId, assignee: UserId, actor: &UserId, at: Timestamp) -> (r: Result<(), TaskFlowError>)
        requires
            old(self).wf(),
        ensures
            final(self).wf(),
            !old(self).task_map().contains_key(task_id) ==> (r matches Err(e) && is_not_found(e, "task: "@ + uuid_text(task_id))),
            old(self).task_map().contains_key(task_id) && !member_of(old(self).project_map(), actor@, old(self).task_map()[task_id].project_id@)
                ==> (r matches Err(e) && is_denied(e, actor@, "assign task"@)),
            old(self).task_map().contains_key(task_id) && member_of(old(self).project_map(), actor@, old(self).task_map()[task_id].project_id@)
                && !member_of(old(self).project_map(), assignee@, old(self).task_map()[task_id].project_id@)
                ==> (r matches Err(e) && is_invalid(e, assignee@ + " is not a member of project "@ + old(self).task_map()[task_id].project_id@)),
            r is Err ==> *final(self) == *old(self),
            r is Ok ==> {
                let t = old(self).task_map()[task_id];
                &&& old(self).task_map().contains_key(task_id)
                &&& member_of(old(self).project_map(), actor@, t.project_id@)
                &&& member_of(old(self).project_map(), assignee@, t.project_id@)
                &&& final(self).task_map() == old(self).task_map().insert(task_id, Task { assignee: Some(assignee), updated_at: at, ..t })
                &&& final(self).pending().len() == old(self).pending().len() + 1
                &&& final(self).pending().drop_last() == old(self).pending()
                &&& notice(final(self).pending().last(), NotificationKind::TaskAssigned, assignee@, "You were assigned to task: "@ + t.title@, at)
                &&& old(self).recorded_after_notices(*final(self), "task_assigned"@, Some(actor@), Some(t.project_id@))
            },
            old(self).task_map().contains_key(task_id) && member_of(old(self).project_map(), actor@, old(self).task_map()[task_id].project_id@)
                && member_of(old(self).project_map(), assignee@, old(self).task_map()[task_id].project_id@) ==> r is Ok,
            old(self).ids_consistent() ==> final(self).ids_consistent(),
            r is Ok ==> forall|f: FilterView| #[trigger] final(self).cached_ids(f) is None,
            final(self).project_map() == old(self).project_map(),
            final(self).user_map() == old(self).user_map(),
            final(self).path() == old(self).path(),
    {
        let (project_id, title) = match self.tasks.get(&task_id) {
            Some(t) => (t.project_id.clone(), t.title.clone()),
            None => {
                return Err(task_not_found(task_id));
            },
        };
        if !self.is_member(actor, &project_id) {
            return Err(denied(actor, "assign task"));
        }
        if !self.is_member(&assignee, &project_id) {
            let msg = join3(assignee.as_str(), " is not a member of project ", project_id.as_str());
            return Err(TaskFlowError::ValidationError(msg));
        }
        let ghost tm = self.tasks.map();
        let told = assignee.clone();
        let mut task = self.tasks.remove(&task_id).unwrap();
        task.assignee = Some(assignee);
        task.updated_at = at;
        let ghost nt = task;
        self.tasks.insert(task_id, task);
        assert(self.tasks.map() =~= tm.insert(task_id, nt));
        let message = join2("You were assigned to task: ", title.as_str());
        self.send_notification(
            Notification { kind: NotificationKind::TaskAssigned, user_id: told, message, timestamp: at },
        );
        assert(self.outbox@.drop_last() =~= old(self).outbox@);
        self.invalidate_filter_cache();
        let ghost ev1 = self.events();
        self.analytics.track_at("task_assigned", Some(actor), Some(&project_id), at);
        proof {
            let e0 = old(self).events();
            let e = self.events();
            let told = self.outbox@.subrange(old(self).outbox@.len() as int, self.outbox@.len() as int);
            assert(e.drop_last() == ev1);
            assert(e.subrange(0, e0.len() as int) =~= ev1.subrange(0, e0.len() as int));
            if self.outbox@.len() > old(self).outbox@.len() {
                assert(e[e0.len() as int] == ev1.last());
                assert(told[0] == self.outbox@.last());
            }
            assert(told.len() == self.outbox@.len() - old(self).outbox@.len());
        }
        Ok(())
    }

    /// Assigns task `task_id` to `assignee` on behalf of `actor`, stamped
    /// with the current time. The task must exist and both the actor and the
    /// assignee must be members of its project. The assignee is told.
    pub fn assign_task(&mut self, task_id: TaskId, assignee: UserId, actor: &UserId) -> (r: Result<(), TaskFlowError>)
        requires
            old(self).wf(),
        ensures
            final(self).wf(),
            !old(self).task_map().contains_key(task_id) ==> (r matches Err(e) && is_not_found(e, "task: "@ + uuid_text(task_id))),
            old(self).task_map().contains_key(task_id) && !member_of(old(self).project_map(), actor@, old(self).task_map()[task_id].project_id@)
                ==> (r matches Err(e) && is_denied(e, actor@, "assign task"@)),
            old(self).task_map().contains_key(task_id) && member_of(old(self).project_map(), actor@, old(self).task_map()[task_id].project_id@)
                && !member_of(old(self).project_map(), assignee@, old(self).task_map()[task_id].project_id@)
                ==> (r matches Err(e) && is_invalid(e, assignee@ + " is not a member of project "@ + old(self).task_map()[task_id].project_id@)),
            r is Err ==> *final(self) == *old(self),
            r is Ok ==> {
                let t = old(self).task_map()[task_id];
                let at = final(self).task_map()[task_id].updated_at;
                &&& old(self).task_map().contains_key(task_id)
                &&& member_of(old(self).project_map(), actor@, t.project_id@)
                &&& member_of(old(self).project_map(), assignee@, t.project_id@)
                &&& final(self).task_map() == old(self).task_map().insert(task_id, Task { assignee: Some(assignee), updated_at: at, ..t })
                &&& final(self).pending().len() == old(self).pending().len() + 1
                &&& final(self).pending().drop_last() == old(self).pending()
                &&& notice(final(self).pending().last(), NotificationKind::TaskAssigned, assignee@, "You were assigned to task: "@ + t.title@, at)
                &&& old(self).recorded_after_notices(*final(self), "task_assigned"@, Some(actor@), Some(t.project_id@))
            },
            old(self).task_map().contains_key(task_id) && member_of(old(self).project_map(), actor@, old(self).task_map()[task_id].project_id@)
                && member_of(old(self).project_map(), assignee@, old(self).task_map()[task_id].project_id@) ==> r is Ok,
            old(self).ids_consistent() ==> final(self).ids_consistent(),
            r is Ok ==> forall|f: FilterView| #[trigger] final(self).cached_ids(f) is None,
            final(self).project_map() == old(self).project_map(),
            final(self).user_map() == old(self).user_map(),
            final(self).path() == old(self).path(),
    {
        let at = now();
        self.assign_task_at(task_id, assignee, actor, at)
    }


    /// Adds `user_id` to the members of project `project_id` on behalf of
    /// `actor` at time `at`. The project must exist and the actor must own
    /// it. A user who is not yet a member is added last and told; adding a
    /// member again changes nothing.
    pub fn add_project_member_at(&mut self, project_id: &ProjectId, user_id: UserId, actor: &UserId, at: Timestamp) -> (r: Result<(), TaskFlowError>)
        requires
            old(self).wf(),
        ensures
            final(self).wf(),
            !old(self).project_map().contains_key(project_id@) ==> (r matches Err(e) && is_not_found(e, "project: "@ + project_id@)),
            old(self).project_map().contains_key(project_id@) && !owner_of(old(self).project_map(), actor@, project_id@)
                ==> (r matches Err(e) && is_denied(e, actor@, "add member"@)),
            r is Err ==> *final(self) == *old(self),
            owner_of(old(self).project_map(), actor@, project_id@) <==> r is Ok,
            r is Ok ==> old(self).recorded_after_notices(*final(self), "member_added"@, Some(actor@), Some(project_id@)),
            r is Ok && old(self).project_map()[project_id@].has_member(user_id@) ==> {
                &&& final(self).project_map() == old(self).project_map()
                &&& final(self).pending() == old(self).pending()
            },
            r is Ok && !old(self).project_map()[project_id@].has_member(user_id@) ==> {
                let p = old(self).project_map()[project_id@];
                let q = final(self).project_map()[project_id@];
                &&& final(self).project_map() == old(self).project_map().insert(project_id@, Project { members: q.members, ..p })
                &&& q.members@ == p.members@.push(user_id)
                &&& final(self).pending().len() == old(self).pending().len() + 1
                &&& final(self).pending().drop_last() == old(self).pending()
                &&& notice(final(self).pending().last(), NotificationKind::ProjectInvite, user_id@, "You were added to project: "@ + p.name@, at)
            },
            owners_are_members(old(self).project_map()) ==> owners_are_members(final(self).project_map()),
            members_distinct(old(self).project_map()) ==> members_distinct(final(self).project_map()),
            final(self).task_map() == old(self).task_map(),
            final(self).task_pool() == old(self).task_pool(),
            final(self).user_map() == old(self).user_map(),
            final(self).path() == old(self).path(),
    {
        let (is_owner, already) = match self.projects.get(project_id) {
            Some(p) => (p.owner == *actor, vec_has_text(&p.members, &user_id)),
            None => {
                return Err(not_found("project: ", project_id.as_str()));
            },
        };
        if !is_owner {
            return Err(denied(actor, "add member"));
        }
        if !already {
            let ghost pm = self.projects.map();
            let told = user_id.clone();
            let mut project = self.projects.remove(project_id).unwrap();
            project.members.push(user_id);
            let name = project.name.clone();
            let ghost np = project;
            self.projects.insert(project_id.clone(), project);
            assert(self.projects.map() =~= pm.insert(project_id@, np));
            proof {
                if owners_are_members(pm) {
                    let op = pm[project_id@];
                    let i = choose|i: int| 0 <= i < op.members@.len() && #[trigger] op.members@[i]@ == op.owner@;
                    assert(np.members@[i] == op.members@[i]);
                    assert(np.has_member(np.owner@));
                }
            }
            let message = join2("You were added to project: ", name.as_str());
            self.send_notification(
                Notification { kind: NotificationKind::ProjectInvite, user_id: told, message, timestamp: at },
            );
            assert(self.outbox@.drop_last() =~= old(self).outbox@);
        }
        let ghost ev1 = self.events();
        self.analytics.track_at("member_added", Some(actor), Some(project_id), at);
        proof {
            let e0 = old(self).events();
            let e = self.events();
            let told = self.outbox@.subrange(old(self).outbox@.len() as int, self.outbox@.len() as int);
            assert(e.drop_last() == ev1);
            assert(e.subrange(0, e0.len() as int) =~= ev1.subrange(0, e0.len() as int));
            if self.outbox@.len() > old(self).outbox@.len() {
                assert(e[e0.len() as int] == ev1.last());
                assert(told[0] == self.outbox@.last());
            }
            assert(told.len() == self.outbox@.len() - old(self).outbox@.len());
        }
        Ok(())
    }

    /// Adds `user_id` to the members of project `project_id` on behalf of
    /// `actor`, stamped with the current time. The project must exist and the
    /// actor must own it. A user who is not yet a member is added last and
    /// told; adding a member again changes nothing.
    pub fn add_project_member(&mut self, project_id: &ProjectId, user_id: UserId, actor: &UserId) -> (r: Result<(), TaskFlowError>)
        requires
            old(self).wf(),
        ensures
            final(self).wf(),
            !old(self).project_map().contains_key(project_id@) ==> (r matches Err(e) && is_not_found(e, "project: "@ + project_id@)),
            old(self).project_map().contains_key(project_id@) && !owner_of(old(self).project_map(), actor@, project_id@)
                ==> (r matches Err(e) && is_denied(e, actor@, "add member"@)),
            r is Err ==> *final(self) == *old(self),
            owner_of(old(self).project_map(), actor@, project_id@) <==> r is Ok,
            r is Ok ==> old(self).recorded_after_notices(*final(self), "member_added"@, Some(actor@), Some(project_id@)),
            r is Ok && old(self).project_map()[project_id@].has_member(user_id@) ==> {
                &&& final(self).project_map() == old(self).project_map()
                &&& final(self).pending() == old(self).pending()
            },
            r is Ok && !old(self).project_map()[project_id@].has_member(user_id@) ==> {
                let p = old(self).project_map()[project_id@];
                let q = final(self).project_map()[project_id@];
                &&& final(self).project_map() == old(self).project_map().insert(project_id@, Project { members: q.members, ..p })
                &&& q.members@ == p.members@.push(user_id)
                &&& final(self).pending().len() == old(self).pending().len() + 1
                &&& final(self).pending().drop_last() == old(self).pending()
                &&& notice(final(self).pending().last(), NotificationKind::ProjectInvite, user_id@, "You were added to project: "@ + p.name@, final(self).pending().last().timestamp)
            },
            owners_are_members(old(self).project_map()) ==> owners_are_members(final(self).project_map()),
            members_distinct(old(self).project_map()) ==> members_distinct(final(self).project_map()),
            final(self).task_map() == old(self).task_map(),
            final(self).task_pool() == old(self).task_pool(),
            final(self).user_map() == old(self).user_map(),
            final(self).path() == old(self).path(),
    {
        let at = now();
        self.add_project_member_at(project_id, user_id, actor, at)
    }

    /// The counts of project `project_id` at time `at`: its tasks, those
    /// done, and those not done whose due date lies before `at`.
    pub fn project_stats_at(&self, project_id: &ProjectId, at: Timestamp) -> (r: Result<ProjectStats, TaskFlowError>)
        requires
            self.wf(),
        ensures
            self.project_map().contains_key(project_id@) <==> r is Ok,
            r matches Err(e) ==> is_not_found(e, "project: "@ + project_id@),
            r matches Ok(s) ==> stats_are(s, stats_spec(self.task_pool(), project_id@, at)),
            r matches Ok(s) ==> s.completed_tasks + s.overdue_tasks <= s.total_tasks,
    {
        if !self.projects.contains_key(project_id) {
            return Err(not_found("project: ", project_id.as_str()));
        }
        let s = count_project_tasks(&self.tasks, project_id, at);
        proof {
            crate::stats::lemma_stats_bounded(self.tasks.vals(), project_id@, at);
        }
        Ok(s)
    }

    /// The counts of project `project_id` now: its tasks, those done, and
    /// those not done whose due date has passed.
    pub fn get_project_stats(&self, project_id: &ProjectId) -> (r: Result<ProjectStats, TaskFlowError>)
        requires
            self.wf(),
        ensures
            self.project_map().contains_key(project_id@) <==> r is Ok,
            r matches Err(e) ==> is_not_found(e, "project: "@ + project_id@),
            r matches Ok(s) ==> exists|at: Timestamp| stats_are(s, #[trigger] stats_spec(self.task_pool(), project_id@, at)),
            r matches Ok(s) ==> s.completed_tasks + s.overdue_tasks <= s.total_tasks,
    {
        let at = now();
        self.project_stats_at(project_id, at)
    }

    /// The task sequence holds exactly the stored tasks, one entry per key;
    /// when every task is stored under its own id, each entry is the task
    /// stored under its id.
    pub proof fn lemma_pool_is_stored(self)
        requires
            self.wf(),
        ensures
            self.task_pool().len() == self.task_map().dom().len(),
            forall|i: int| 0 <= i < self.task_pool().len() ==> is_stored(self.task_map(), #[trigger] self.task_pool()[i]),
            forall|k: TaskId| #[trigger] self.task_map().contains_key(k) ==> self.task_pool().contains(self.task_map()[k]),
            self.ids_consistent() ==> forall|i: int| 0 <= i < self.task_pool().len() ==>
                self.task_map().contains_key(#[trigger] self.task_pool()[i].id) && self.task_map()[self.task_pool()[i].id] == self.task_pool()[i],
    {
        lemma_table_pool(self.tasks);
    }

    /// The engine holds finitely many tasks, projects and users.
    pub proof fn lemma_maps_finite(self)
        requires
            self.wf(),
        ensures
            self.task_map().dom().finite(),
            self.project_map().dom().finite(),
            self.user_map().dom().finite(),
    {
        self.tasks.lemma_table_len();
        self.projects.lemma_table_len();
        self.users.lemma_table_len();
    }

    /// Every task of a listing is held in the engine under its own id, so
    /// its ids name exactly that listing again.
    pub proof fn lemma_listing_resolves(self, r: Seq<Task>, f: FilterView)
        requires
            self.wf(),
            self.ids_consistent(),
            is_listing(r, self.task_pool(), f),
        ensures
            resolve(ids_of(r), self.task_map()) == r,
    {
        lemma_listing_resolves_in(self.tasks, r, f);
    }

    /// The tasks that meet `filter`, highest priority first and, for equal
    /// priority, earliest created first. A listing already made for the same
    /// filter since the tasks last changed is answered again from the ids it
    /// held.
    pub fn filter_tasks(&mut self, filter: &TaskFilter) -> (r: Vec<&Task>)
        requires
            old(self).wf(),
        ensures
            final(self).wf(),
            filter_answer(*old(self), *final(self), filter@, derefs(r@)),
    {
        let ghost before = *self;
        let ghost f = filter@;
        let r = filter_with_cache(&self.tasks, &mut self.filter_cache, filter);
        proof {
            let listing = derefs(r@);
            if !before.filter_cache.cached().contains_key(f) {
                assert forall|g: FilterView| #[trigger] self.filter_cache.cached().contains_key(g) implies exists|q: Seq<Task>|
                    is_listing(q, self.tasks.vals(), g) && self.filter_cache.cached()[g]@ == #[trigger] ids_of(q) by {
                    if g == f {
                        assert(is_listing(listing, self.tasks.vals(), g) && self.filter_cache.cached()[g]@ == ids_of(listing));
                    } else {
                        assert(before.filter_cache.cached().contains_key(g));
                    }
                }
            } else if before.ids_consistent() {
                let q = choose|q: Seq<Task>| is_listing(q, before.tasks.vals(), f) && before.filter_cache.cached()[f]@ == #[trigger] ids_of(q);
                before.lemma_listing_resolves(q, f);
            }
        }
        r
    }


    /// Deletes task `task_id` on behalf of `actor`, who must own the task's
    /// project. The task leaves its parent's list of subtasks, and each of
    /// its subtasks is deleted in turn the same way (a subtask that cannot
    /// be deleted stays). What is deleted is exactly the task and what it
    /// reaches through subtask lists over tasks of projects the actor owns;
    /// every other task stays as it was, but that each deleted task leaves
    /// the subtask list of its parent.
    pub fn delete_task(&mut self, task_id: TaskId, actor: &UserId) -> (r: Result<(), TaskFlowError>)
        requires
            old(self).wf(),
        ensures
            final(self).wf(),
            !old(self).task_map().contains_key(task_id) ==> (r matches Err(e) && is_not_found(e, "task: "@ + uuid_text(task_id))),
            old(self).task_map().contains_key(task_id) && !owner_of(old(self).project_map(), actor@, old(self).task_map()[task_id].project_id@)
                ==> (r matches Err(e) && is_denied(e, actor@, "delete task"@)),
            r is Err ==> *final(self) == *old(self),
            old(self).task_map().contains_key(task_id) && owner_of(old(self).project_map(), actor@, old(self).task_map()[task_id].project_id@)
                ==> r is Ok,
            removed(old(self).task_map(), final(self).task_map(),
                reach_set(old(self).task_map(), owned_by(old(self).project_map(), actor@), task_id)),
            final(self).events().len() >= old(self).events().len(),
            final(self).events().subrange(0, old(self).events().len() as int) == old(self).events(),
            deletion_events(
                old(self).task_map(),
                reach_set(old(self).task_map(), owned_by(old(self).project_map(), actor@), task_id),
                actor@,
                final(self).events().subrange(old(self).events().len() as int, final(self).events().len() as int),
            ),
            final(self).task_pool().len() <= old(self).task_pool().len(),
            old(self).ids_consistent() ==> final(self).ids_consistent(),
            r is Ok ==> forall|f: FilterView| #[trigger] final(self).cached_ids(f) is None,
            final(self).project_map() == old(self).project_map(),
            final(self).user_map() == old(self).user_map(),
            final(self).pending() == old(self).pending(),
            final(self).path() == old(self).path(),
        decreases old(self).task_pool().len(),
    {
        let ghost may = owned_by(self.projects.map(), actor@);
        let ghost tm0 = self.tasks.map();
        let ghost k0 = self.analytics.events().len() as int;
        let (project_id, parent_id, subtask_ids) = match self.tasks.get(&task_id) {
            Some(t) => (t.project_id.clone(), t.parent_id, copy_ids(&t.subtask_ids)),
            None => {
                proof {
                    lemma_reach_empty(tm0, may, task_id);
                    lemma_removed_nothing(tm0, reach_set(tm0, may, task_id));
                    let order = Seq::<TaskId>::empty();
                    assert(order.to_set() =~= reach_set(tm0, may, task_id));
                    let evs = self.analytics.events().subrange(k0, k0);
                    assert(deletion_order(tm0, reach_set(tm0, may, task_id), actor@, evs, order));
                }
                return Err(task_not_found(task_id));
            },
        };
        if !self.is_project_owner(actor, &project_id) {
            proof {
                lemma_reach_empty(tm0, may, task_id);
                lemma_removed_nothing(tm0, reach_set(tm0, may, task_id));
                let order = Seq::<TaskId>::empty();
                assert(order.to_set() =~= reach_set(tm0, may, task_id));
                let evs = self.analytics.events().subrange(k0, k0);
                assert(deletion_order(tm0, reach_set(tm0, may, task_id), actor@, evs, order));
            }
            return Err(denied(actor, "delete task"));
        }
        let ghost pm = self.projects.map();
        let ghost t0 = tm0[task_id];
        if let Some(pid) = parent_id {
            let ghost before_parent = self.tasks.map();
            if let Some(mut parent) = self.tasks.remove(&pid) {
                parent.subtask_ids = without(&parent.subtask_ids, task_id);
                let ghost np = parent;
                self.tasks.insert(pid, parent);
                assert(self.tasks.map() =~= before_parent.insert(pid, np));
            } else {
                assert(self.tasks.map() =~= before_parent);
            }
        }
        let ghost m1 = self.tasks.map();
        self.tasks.remove(&task_id);
        self.invalidate_filter_cache();
        proof {
            lemma_start(tm0, m1, self.tasks.map(), may, task_id);
        }
        let ghost mut g: Set<TaskId> = set![task_id];
        let ghost mut order: Seq<TaskId> = Seq::empty();
        proof {
            assert(order.to_set() =~= g.remove(task_id));
        }
        let n = subtask_ids.len();
        let mut i: usize = 0;
        while i < n
            invariant
                self.wf(),
                n == subtask_ids@.len(),
                subtask_ids@ == t0.subtask_ids@,
                i <= n,
                tm0 == old(self).tasks.map(),
                pm == old(self).projects.map(),
                may == owned_by(pm, actor@),
                t0 == tm0[task_id],
                tm0.contains_key(task_id),
                may(t0.project_id@),
                self.projects.map() == pm,
                self.users.map() == old(self).users.map(),
                self.outbox@ == old(self).outbox@,
                self.storage_path@ == old(self).storage_path@,
                self.tasks.vals().len() < old(self).tasks.vals().len(),
                self.filter_cache.cached() == Map::<FilterView, Vec<TaskId>>::empty(),
                g.contains(task_id),
                forall|x: TaskId| g.contains(x) ==> reaches(tm0, may, task_id, x),
                removed(tm0, self.tasks.map(), g),
                frontier(tm0, may, task_id, g, subtask_ids@, i as int),
                old(self).ids_consistent() ==> self.ids_consistent(),
                k0 == old(self).analytics.events().len(),
                self.analytics.events().len() >= k0,
                self.analytics.events().subrange(0, k0) == old(self).analytics.events(),
                deletion_order(tm0, g.remove(task_id), actor@,
                    self.analytics.events().subrange(k0, self.analytics.events().len() as int), order),
            decreases n - i,
        {
            let ghost cur = self.tasks.map();
            let ghost ev = self.analytics.events();
            let s = subtask_ids[i];
            let _ = self.delete_task(s, actor);
            proof {
                assert forall|x: FilterView| !self.filter_cache.cached().contains_key(x) by {
                    assert(self.cached_ids(x) is None);
                }
                assert(self.filter_cache.cached() =~= Map::<FilterView, Vec<TaskId>>::empty());
                let rc = reach_set(cur, may, s);
                lemma_step(tm0, may, task_id, subtask_ids@, i as int, g, cur, self.tasks.map());
                let evs = self.analytics.events();
                assert(evs.subrange(0, ev.len() as int) == ev);
                assert(evs.subrange(0, k0) =~= ev.subrange(0, k0));
                assert(evs.subrange(k0, ev.len() as int) =~= ev.subrange(k0, ev.len() as int));
                let os = choose|os: Seq<TaskId>| #[trigger] deletion_order(cur, rc, actor@,
                    evs.subrange(ev.len() as int, evs.len() as int), os);
                lemma_reach_stored(cur, may, s);
                lemma_order_join(tm0, cur, g, task_id, rc, actor@, evs, k0, ev.len() as int, order, os);
                order = order + os;
                g = g.union(rc);
            }
            i = i + 1;
        }
        let ghost ev = self.analytics.events();
        self.analytics.track("task_deleted", Some(actor), Some(&project_id));
        proof {
            lemma_finish(tm0, may, task_id, subtask_ids@, g, self.tasks.map());
            let evs = self.analytics.events();
            assert(evs.subrange(0, k0) =~= ev.subrange(0, k0));
            lemma_order_last(tm0, g, task_id, actor@, ev, evs, k0, order);
        }
        Ok(())
    }

    /// Hands over the events recorded so far, oldest first, and forgets
    /// them.
    pub fn flush_analytics(&mut self) -> (r: Vec<AnalyticsEvent>)
        requires
            old(self).wf(),
        ensures
            final(self).wf(),
            r@ == old(self).events(),
            final(self).events().len() == 0,
            final(self).task_map() == old(self).task_map(),
            final(self).task_pool() == old(self).task_pool(),
            final(self).project_map() == old(self).project_map(),
            final(self).user_map() == old(self).user_map(),
            final(self).pending() == old(self).pending(),
            final(self).path() == old(self).path(),
    {
        self.analytics.flush()
    }

    /// Records that the data was saved (`data_saved`).
    pub fn record_saved(&mut self)
        requires
            old(self).wf(),
        ensures
            final(self).wf(),
            old(self).recorded(*final(self), "data_saved"@, None, None),
            final(self).task_map() == old(self).task_map(),
            final(self).task_pool() == old(self).task_pool(),
            final(self).project_map() == old(self).project_map(),
            final(self).user_map() == old(self).user_map(),
            final(self).pending() == old(self).pending(),
            final(self).path() == old(self).path(),
    {
        self.analytics.track("data_saved", None, None);
    }
}

} // verus!
