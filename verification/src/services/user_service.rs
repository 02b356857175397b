//! Users: registration and lookup.

use vstd::prelude::*;
use crate::analytics::{event_is, AnalyticsCollector, BufferedCollector};
use crate::domain::{is_invalid, is_not_found, not_found, AnalyticsEvent, TaskFlowError, User, UserId};
use crate::engine::{email_in, email_taken, emails_distinct};
use crate::ids::{fresh_text_id, is_v4_text};
use crate::table::{adds_new, Table};
use crate::text::join2;

verus! {

/// Keeps users; events it records are kept for whoever flushes them.
pub struct UserService {
    users: Table<UserId, User>,
    analytics: BufferedCollector,
}

impl UserService {
    pub closed spec fn wf(self) -> bool {
        self.users.wf()
    }

    /// The users, by the id they are stored under.
    pub closed spec fn user_map(self) -> Map<Seq<char>, User> {
        self.users.map()
    }

    /// Events recorded and not yet flushed, oldest first.
    pub closed spec fn events(self) -> Seq<AnalyticsEvent> {
        self.analytics.events()
    }

    /// A service holding `users`.
    pub fn new(users: Table<UserId, User>) -> (r: Self)
        requires
            users.wf(),
        ensures
            r.wf(),
            r.user_map() == users.map(),
            r.events().len() == 0,
    {
        UserService { users, analytics: BufferedCollector::new() }
    }

    /// The users kept.
    pub fn users(&self) -> (r: &Table<UserId, User>)
        ensures
            r.map() == self.user_map(),
            self.wf() ==> r.wf(),
    {
        &self.users
    }

    /// Hands over the events recorded so far, oldest first.
    pub fn take_events(&mut self) -> (r: Vec<AnalyticsEvent>)
        ensures
            r@ == old(self).events(),
            final(self).events().len() == 0,
            final(self).user_map() == old(self).user_map(),
            old(self).wf() ==> final(self).wf(),
    {
        self.analytics.flush()
    }

    /// Registers user `name` with `email` under `id`, unless a user already
    /// has that email. Records `user_registered`.
    pub fn register_with(&mut self, name: String, email: String, id: String) -> (r: Result<UserId, TaskFlowError>)
        requires
            old(self).wf(),
        ensures
            final(self).wf(),
            email_taken(old(self).user_map(), email@) <==> r is Err,
            r matches Err(e) ==> is_invalid(e, "email already registered: "@ + email@) && *final(self) == *old(self),
            r matches Ok(uid) ==> {
                &&& uid@ == id@
                &&& final(self).user_map().contains_key(id@)
                &&& final(self).user_map() == old(self).user_map().insert(id@, final(self).user_map()[id@])
                &&& final(self).user_map()[id@].id@ == id@
                &&& final(self).user_map()[id@].name@ == name@
                &&& final(self).user_map()[id@].email@ == email@
                &&& final(self).user_map()[id@].avatar_url is None
                &&& final(self).events().len() == old(self).events().len() + 1
                &&& final(self).events().drop_last() == old(self).events()
                &&& event_is(final(self).events().last(), "user_registered"@, Some(id@), None)
            },
            emails_distinct(old(self).user_map()) ==> emails_distinct(final(self).user_map()),
    {
        if email_in(&self.users, &email) {
            let msg = join2("email already registered: ", email.as_str());
            return Err(TaskFlowError::ValidationError(msg));
        }
        let user = User { id: id.clone(), name, email, avatar_url: None };
        let ghost u = user;
        self.users.insert(id.clone(), user);
        assert(self.users.map()[id@] == u);
        self.analytics.track("user_registered", Some(&id), None);
        Ok(id)
    }

    /// Registers user `name` with `email` under a fresh random id, unless a
    /// user already has that email. Records `user_registered`.
    pub fn register(&mut self, name: String, email: String) -> (r: Result<UserId, TaskFlowError>)
        requires
            old(self).wf(),
        ensures
            final(self).wf(),
            email_taken(old(self).user_map(), email@) <==> r is Err,
            r matches Err(e) ==> is_invalid(e, "email already registered: "@ + email@) && *final(self) == *old(self),
            r matches Ok(uid) ==> {
                &&& is_v4_text(uid@)
                &&& adds_new(old(self).user_map(), final(self).user_map(), uid@)
                &&& uid@.len() == 36
                &&& final(self).user_map().contains_key(uid@)
                &&& final(self).user_map() == old(self).user_map().insert(uid@, final(self).user_map()[uid@])
                &&& final(self).user_map()[uid@].id@ == uid@
                &&& final(self).user_map()[uid@].name@ == name@
                &&& final(self).user_map()[uid@].email@ == email@
                &&& final(self).user_map()[uid@].avatar_url is None
                &&& final(self).events().len() == old(self).events().len() + 1
                &&& final(self).events().drop_last() == old(self).events()
                &&& event_is(final(self).events().last(), "user_registered"@, Some(uid@), None)
            },
            emails_distinct(old(self).user_map()) ==> emails_distinct(final(self).user_map()),
    {
        let id = fresh_text_id(&self.users);
        self.register_with(name, email, id)
    }

    /// The user stored under `user_id`.
    pub fn get(&self, user_id: &UserId) -> (r: Result<&User, TaskFlowError>)
        requires
            self.wf(),
        ensures
            self.user_map().contains_key(user_id@) <==> r is Ok,
            r matches Ok(u) ==> *u == self.user_map()[user_id@],
            r matches Err(e) ==> is_not_found(e, "user: "@ + user_id@),
    {
        match self.users.get(user_id) {
            Some(u) => Ok(u),
            None => Err(not_found("user: ", user_id.as_str())),
        }
    }
}

} // verus!
