//! Projects: creation, membership and statistics.

use vstd::prelude::*;
use crate::analytics::{event_is, AnalyticsCollector, BufferedCollector};
use crate::clock::now;
use crate::domain::{
    denied, is_denied, is_not_found, member_of, not_found, owner_of, AnalyticsEvent, Notification,
    NotificationKind, Project, ProjectId, ProjectStats, Task, TaskFlowError, TaskId, Timestamp,
    UserId,
};
use crate::engine::{fresh_project, members_distinct, notice, owners_are_members, stats_are};
use crate::ids::{fresh_text_id, is_v4_text};
use crate::stats::{count_project_tasks, lemma_stats_bounded, stats_spec};
use crate::table::{adds_new, Table};
use crate::text::{join2, vec_has_text};

verus! {

/// Keeps projects; notifications it sends and events it records are kept
/// for whoever delivers them.
pub struct ProjectService {
    projects: Table<ProjectId, Project>,
    notifications: Vec<Notification>,
    analytics: BufferedCollector,
}

impl ProjectService {
    pub closed spec fn wf(self) -> bool {
        self.projects.wf()
    }

    /// The projects, by the id they are stored under.
    pub closed spec fn project_map(self) -> Map<Seq<char>, Project> {
        self.projects.map()
    }

    /// Notifications sent and not yet taken, oldest first.
    pub closed spec fn pending(self) -> Seq<Notification> {
        self.notifications@
    }

    /// Events recorded and not yet flushed, oldest first.
    pub closed spec fn events(self) -> Seq<AnalyticsEvent> {
        self.analytics.events()
    }

    /// `after` holds one more event than `self`: `event_type` for `user` in
    /// `project`.
    pub open spec fn recorded(self, after: ProjectService, event_type: Seq<char>, user: Seq<char>, project: Seq<char>) -> bool {
        &&& after.events().len() == self.events().len() + 1
        &&& after.events().drop_last() == self.events()
        &&& event_is(after.events().last(), event_type, Some(user), Some(project))
    }

    /// A service holding `projects`.
    pub fn new(projects: Table<ProjectId, Project>) -> (r: Self)
        requires
            projects.wf(),
        ensures
            r.wf(),
            r.project_map() == projects.map(),
            r.pending().len() == 0,
            r.events().len() == 0,
    {
        ProjectService { projects, notifications: Vec::new(), analytics: BufferedCollector::new() }
    }

    /// The projects kept.
    pub fn projects(&self) -> (r: &Table<ProjectId, Project>)
        ensures
            r.map() == self.project_map(),
            self.wf() ==> r.wf(),
    {
        &self.projects
    }

    /// Hands over the notifications sent so far, oldest first.
    pub fn take_notifications(&mut self) -> (r: Vec<Notification>)
        ensures
            r@ == old(self).pending(),
            final(self).pending().len() == 0,
            final(self).project_map() == old(self).project_map(),
            final(self).events() == old(self).events(),
            old(self).wf() ==> final(self).wf(),
    {
        let mut taken: Vec<Notification> = Vec::new();
        std::mem::swap(&mut taken, &mut self.notifications);
        taken
    }

    /// Hands over the events recorded so far, oldest first.
    pub fn take_events(&mut self) -> (r: Vec<AnalyticsEvent>)
        ensures
            r@ == old(self).events(),
            final(self).events().len() == 0,
            final(self).project_map() == old(self).project_map(),
            final(self).pending() == old(self).pending(),
            old(self).wf() ==> final(self).wf(),
    {
        self.analytics.flush()
    }

    /// Creates project `name` owned by `owner`, stored under `id` and
    /// created at `at`, with the owner as its only member. Records
    /// `project_created`.
    pub fn create_with(&mut self, name: String, owner: UserId, id: String, at: Timestamp) -> (r: Result<ProjectId, TaskFlowError>)
        requires
            old(self).wf(),
        ensures
            final(self).wf(),
            r matches Ok(pid) && pid@ == id@,
            final(self).project_map().contains_key(id@),
            fresh_project(final(self).project_map()[id@], id@, name@, owner@, at),
            final(self).project_map() == old(self).project_map().insert(id@, final(self).project_map()[id@]),
            owners_are_members(old(self).project_map()) ==> owners_are_members(final(self).project_map()),
            members_distinct(old(self).project_map()) ==> members_distinct(final(self).project_map()),
            old(self).recorded(*final(self), "project_created"@, owner@, id@),
            final(self).pending() == old(self).pending(),
    {
        let mut members: Vec<UserId> = Vec::new();
        members.push(owner.clone());
        let project = Project {
            id: id.clone(),
            name,
            description: None,
            owner: owner.clone(),
            members,
            created_at: at,
        };
        let ghost p = project;
        self.projects.insert(id.clone(), project);
        assert(self.projects.map()[id@] == p);
        self.analytics.track("project_created", Some(&owner), Some(&id));
        Ok(id)
    }

    /// Creates project `name` owned by `owner` under a fresh random id, with
    /// the owner as its only member. Records `project_created`.
    pub fn create(&mut self, name: String, owner: UserId) -> (r: Result<ProjectId, TaskFlowError>)
        requires
            old(self).wf(),
        ensures
            final(self).wf(),
            r is Ok,
            r matches Ok(pid) && is_v4_text(pid@) && pid@.len() == 36
                && adds_new(old(self).project_map(), final(self).project_map(), pid@) && final(self).project_map().contains_key(pid@)
                && fresh_project(final(self).project_map()[pid@], pid@, name@, owner@, final(self).project_map()[pid@].created_at)
                && final(self).project_map() == old(self).project_map().insert(pid@, final(self).project_map()[pid@])
                && old(self).recorded(*final(self), "project_created"@, owner@, pid@),
            owners_are_members(old(self).project_map()) ==> owners_are_members(final(self).project_map()),
            members_distinct(old(self).project_map()) ==> members_distinct(final(self).project_map()),
            final(self).pending() == old(self).pending(),
    {
        let id = fresh_text_id(&self.projects);
        let at = now();
        self.create_with(name, owner, id, at)
    }

    /// Adds `user_id` to the members of project `project_id` on behalf of
    /// `actor`, who must own it, at time `at`. A user who is not yet a
    /// member is added last and told; adding a member again changes nothing.
    /// Records `member_added` on success.
    pub fn add_member_at(&mut self, project_id: &ProjectId, user_id: UserId, actor: &UserId, at: Timestamp) -> (r: Result<(), TaskFlowError>)
        requires
            old(self).wf(),
        ensures
            final(self).wf(),
            !old(self).project_map().contains_key(project_id@) ==> (r matches Err(e) && is_not_found(e, "project: "@ + project_id@)),
            old(self).project_map().contains_key(project_id@) && !owner_of(old(self).project_map(), actor@, project_id@)
                ==> (r matches Err(e) && is_denied(e, actor@, "add member"@)),
            r is Err ==> *final(self) == *old(self),
            owner_of(old(self).project_map(), actor@, project_id@) <==> r is Ok,
            r is Ok ==> old(self).recorded(*final(self), "member_added"@, actor@, project_id@),
            r is Ok && old(self).project_map()[project_id@].has_member(user_id@) ==> {
                &&& final(self).project_map() == old(self).project_map()
                &&& final(self).pending() == old(self).pending()
            },
            r is Ok && !old(self).project_map()[project_id@].has_member(user_id@) ==> {
                let p = old(self).project_map()[project_id@];
                let q = final(self).project_map()[project_id@];
                &&& final(self).project_map() == old(self).project_map().insert(project_id@, Project { members: q.members, ..p })
                &&& q.members@ == p.members@.push(user_id)
                &&& final(self).pending().len() == old(self).pending().len() + 1
                &&& final(self).pending().drop_last() == old(self).pending()
                &&& notice(final(self).pending().last(), NotificationKind::ProjectInvite, user_id@, "You were added to project: "@ + p.name@, at)
            },
            owners_are_members(old(self).project_map()) ==> owners_are_members(final(self).project_map()),
            members_distinct(old(self).project_map()) ==> members_distinct(final(self).project_map()),
    {
        let (is_owner, already) = match self.projects.get(project_id) {
            Some(p) => (p.owner == *actor, vec_has_text(&p.members, &user_id)),
            None => {
                return Err(not_found("project: ", project_id.as_str()));
            },
        };
        if !is_owner {
            return Err(denied(actor, "add member"));
        }
        if !already {
            let ghost pm = self.projects.map();
            let told = user_id.clone();
            let mut project = self.projects.remove(project_id).unwrap();
            project.members.push(user_id);
            let name = project.name.clone();
            let ghost np = project;
            self.projects.insert(project_id.clone(), project);
            assert(self.projects.map() =~= pm.insert(project_id@, np));
            proof {
                if owners_are_members(pm) {
                    let op = pm[project_id@];
                    let i = choose|i: int| 0 <= i < op.members@.len() && #[trigger] op.members@[i]@ == op.owner@;
                    assert(np.members@[i] == op.members@[i]);
                    assert(np.has_member(np.owner@));
                }
            }
            let message = join2("You were added to project: ", name.as_str());
            self.notifications.push(Notification { kind: NotificationKind::ProjectInvite, user_id: told, message, timestamp: at });
            assert(self.notifications@.drop_last() =~= old(self).notifications@);
        }
        self.analytics.track("member_added", Some(actor), Some(project_id));
        Ok(())
    }

    /// Adds `user_id` to the members of project `project_id` on behalf of
    /// `actor`, who must own it, stamped with the current time. A user who
    /// is not yet a member is added last and told; adding a member again
    /// changes nothing. Records `member_added` on success.
    pub fn add_member(&mut self, project_id: &ProjectId, user_id: UserId, actor: &UserId) -> (r: Result<(), TaskFlowError>)
        requires
            old(self).wf(),
        ensures
            final(self).wf(),
            !old(self).project_map().contains_key(project_id@) ==> (r matches Err(e) && is_not_found(e, "project: "@ + project_id@)),
            old(self).project_map().contains_key(project_id@) && !owner_of(old(self).project_map(), actor@, project_id@)
                ==> (r matches Err(e) && is_denied(e, actor@, "add member"@)),
            r is Err ==> *final(self) == *old(self),
            owner_of(old(self).project_map(), actor@, project_id@) <==> r is Ok,
            r is Ok ==> old(self).recorded(*final(self), "member_added"@, actor@, project_id@),
            r is Ok && old(self).project_map()[project_id@].has_member(user_id@) ==> {
                &&& final(self).project_map() == old(self).project_map()
                &&& final(self).pending() == old(self).pending()
            },
            r is Ok && !old(self).project_map()[project_id@].has_member(user_id@) ==> {
                let p = old(self).project_map()[project_id@];
                let q = final(self).project_map()[project_id@];
                &&& final(self).project_map() == old(self).project_map().insert(project_id@, Project { members: q.members, ..p })
                &&& q.members@ == p.members@.push(user_id)
                &&& final(self).pending().len() == old(self).pending().len() + 1
                &&& final(self).pending().drop_last() == old(self).pending()
                &&& notice(final(self).pending().last(), NotificationKind::ProjectInvite, user_id@, "You were added to project: "@ + p.name@, final(self).pending().last().timestamp)
            },
            owners_are_members(old(self).project_map()) ==> owners_are_members(final(self).project_map()),
            members_distinct(old(self).project_map()) ==> members_distinct(final(self).project_map()),
    {
        let at = now();
        self.add_member_at(project_id, user_id, actor, at)
    }

    /// Whether `user_id` is a member of project `project_id`.
    pub fn is_member(&self, user_id: &UserId, project_id: &ProjectId) -> (r: bool)
        requires
            self.wf(),
        ensures
            r == member_of(self.project_map(), user_id@, project_id@),
    {
        match self.projects.get(project_id) {
            Some(p) => vec_has_text(&p.members, user_id),
            None => false,
        }
    }

    /// Whether `user_id` owns project `project_id`.
    pub fn is_owner(&self, user_id: &UserId, project_id: &ProjectId) -> (r: bool)
        requires
            self.wf(),
        ensures
            r == owner_of(self.project_map(), user_id@, project_id@),
    {
        match self.projects.get(project_id) {
            Some(p) => p.owner == *user_id,
            None => false,
        }
    }

    /// The counts of project `project_id` over `all_tasks` at time `at`:
    /// its tasks, those done, and those not done whose due date lies before
    /// `at`.
    pub fn stats_at(&self, project_id: &ProjectId, all_tasks: &Table<TaskId, Task>, at: Timestamp) -> (r: Result<ProjectStats, TaskFlowError>)
        requires
            self.wf(),
        ensures
            self.project_map().contains_key(project_id@) <==> r is Ok,
            r matches Err(e) ==> is_not_found(e, "project: "@ + project_id@),
            r matches Ok(s) ==> stats_are(s, stats_spec(all_tasks.vals(), project_id@, at)),
            r matches Ok(s) ==> s.completed_tasks + s.overdue_tasks <= s.total_tasks,
    {
        if !self.projects.contains_key(project_id) {
            return Err(not_found("project: ", project_id.as_str()));
        }
        let s = count_project_tasks(all_tasks, project_id, at);
        proof {
            lemma_stats_bounded(all_tasks.vals(), project_id@, at);
        }
        Ok(s)
    }

    /// The counts of project `project_id` over `all_tasks` now: its tasks,
    /// those done, and those not done whose due date has passed.
    pub fn stats(&self, project_id: &ProjectId, all_tasks: &Table<TaskId, Task>) -> (r: Result<ProjectStats, TaskFlowError>)
        requires
            self.wf(),
        ensures
            self.project_map().contains_key(project_id@) <==> r is Ok,
            r matches Err(e) ==> is_not_found(e, "project: "@ + project_id@),
            r matches Ok(s) ==> exists|at: Timestamp| stats_are(s, #[trigger] stats_spec(all_tasks.vals(), project_id@, at)),
            r matches Ok(s) ==> s.completed_tasks + s.overdue_tasks <= s.total_tasks,
    {
        let at = now();
        self.stats_at(project_id, all_tasks, at)
    }
}

} // verus!
