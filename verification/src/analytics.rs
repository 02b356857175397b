//! Collecting usage events.

use vstd::prelude::*;
use crate::domain::{AnalyticsEvent, ProjectId, Timestamp, UserId};
use crate::text::text_of;
use crate::clock::now;

verus! {

/// The optional text behind an optional reference.
pub open spec fn opt_ref_text(o: Option<&String>) -> Option<Seq<char>> {
    match o {
        Some(s) => Some(s@),
        None => None,
    }
}

/// The view of an optional text.
pub open spec fn opt_view(o: Option<String>) -> Option<Seq<char>> {
    match o {
        Some(s) => Some(s@),
        None => None,
    }
}

/// `e` records `event_type` for `user_id` and `project_id`, without
/// metadata.
pub open spec fn event_is(e: AnalyticsEvent, event_type: Seq<char>, user_id: Option<Seq<char>>, project_id: Option<Seq<char>>) -> bool {
    &&& e.event_type@ == event_type
    &&& opt_view(e.user_id) == user_id
    &&& opt_view(e.project_id) == project_id
    &&& e.metadata@.len() == 0
}

/// Recording events one after another keeps them all, in the order they
/// were recorded: after `n` recordings into an empty collector it holds
/// exactly `n` events, the `i`-th the one recorded `i`-th (flushing then
/// hands them over in that order and leaves none).
pub proof fn law_buffer_keeps_order(
    cs: Seq<BufferedCollector>,
    kinds: Seq<(Seq<char>, Option<Seq<char>>, Option<Seq<char>>)>,
)
    requires
        cs.len() == kinds.len() + 1,
        cs[0].events().len() == 0,
        forall|i: int| 0 <= i < kinds.len() ==> {
            &&& #[trigger] cs[i + 1].events().len() == cs[i].events().len() + 1
            &&& cs[i + 1].events().drop_last() == cs[i].events()
            &&& event_is(cs[i + 1].events().last(), kinds[i].0, kinds[i].1, kinds[i].2)
        },
    ensures
        cs.last().events().len() == kinds.len(),
        forall|i: int| 0 <= i < kinds.len() ==> event_is(#[trigger] cs.last().events()[i], kinds[i].0, kinds[i].1, kinds[i].2),
    decreases kinds.len(),
{
    if kinds.len() > 0 {
        let n = kinds.len() - 1;
        law_buffer_keeps_order(cs.drop_last(), kinds.drop_last());
        assert(cs.drop_last().last() == cs[n]);
        let prev = cs[n].events();
        let last = cs[n + 1].events();
        assert(last.len() == prev.len() + 1);
        assert forall|i: int| 0 <= i < kinds.len() implies event_is(#[trigger] cs.last().events()[i], kinds[i].0, kinds[i].1, kinds[i].2) by {
            if i < n {
                assert(last[i] == last.drop_last()[i]);
                assert(kinds.drop_last()[i] == kinds[i]);
            }
        }
    }
}

/// A sink for usage events.
pub trait AnalyticsCollector {
    /// Records that `event_type` happened for `user_id` in `project_id`.
    fn track(&mut self, event_type: &str, user_id: Option<&UserId>, project_id: Option<&ProjectId>);

    /// Hands over the events recorded so far.
    fn flush(&mut self) -> Vec<AnalyticsEvent>;
}

/// Keeps recorded events in memory until they are flushed.
pub struct BufferedCollector {
    buffer: Vec<AnalyticsEvent>,
}

fn copy_opt_ref(o: Option<&String>) -> (r: Option<String>)
    ensures
        opt_view(r) == opt_ref_text(o),
{
    match o {
        Some(s) => Some(s.clone()),
        None => None,
    }
}

impl BufferedCollector {
    /// The events recorded and not yet flushed, oldest first.
    pub closed spec fn events(self) -> Seq<AnalyticsEvent> {
        self.buffer@
    }

    /// A collector with no events.
    pub fn new() -> (r: Self)
        ensures
            r.events().len() == 0,
    {
        BufferedCollector { buffer: Vec::new() }
    }

    /// Records `event_type` for `user_id` in `project_id`, stamped `at`.
    pub fn track_at(&mut self, event_type: &str, user_id: Option<&UserId>, project_id: Option<&ProjectId>, at: Timestamp)
        ensures
            final(self).events().len() == old(self).events().len() + 1,
            final(self).events().drop_last() == old(self).events(),
            event_is(final(self).events().last(), event_type@, opt_ref_text(user_id), opt_ref_text(project_id)),
            final(self).events().last().timestamp == at,
    {
        let event = AnalyticsEvent {
            event_type: text_of(event_type),
            user_id: copy_opt_ref(user_id),
            project_id: copy_opt_ref(project_id),
            metadata: Vec::new(),
            timestamp: at,
        };
        self.buffer.push(event);
        assert(self.buffer@.drop_last() =~= old(self).buffer@);
    }
}

impl AnalyticsCollector for BufferedCollector {
    /// Records `event_type` for `user_id` in `project_id`, stamped with the
    /// current time.
    fn track(&mut self, event_type: &str, user_id: Option<&UserId>, project_id: Option<&ProjectId>)
        ensures
            final(self).events().len() == old(self).events().len() + 1,
            final(self).events().drop_last() == old(self).events(),
            event_is(final(self).events().last(), event_type@, opt_ref_text(user_id), opt_ref_text(project_id)),
    {
        let at = now();
        self.track_at(event_type, user_id, project_id, at);
    }

    /// Hands over the recorded events, oldest first, and forgets them.
    fn flush(&mut self) -> (r: Vec<AnalyticsEvent>)
        ensures
            r@ == old(self).events(),
            final(self).events().len() == 0,
    {
        let mut taken: Vec<AnalyticsEvent> = Vec::new();
        std::mem::swap(&mut taken, &mut self.buffer);
        taken
    }
}

/// Discards every event.
pub struct NullCollector;

impl AnalyticsCollector for NullCollector {
    fn track(&mut self, _event_type: &str, _user_id: Option<&UserId>, _project_id: Option<&ProjectId>) {
    }

    /// Always empty.
    fn flush(&mut self) -> (r: Vec<AnalyticsEvent>)
        ensures
            r@.len() == 0,
    {
        Vec::new()
    }
}

} // verus!
