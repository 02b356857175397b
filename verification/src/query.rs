//! Selecting tasks by a filter, in priority order, with a cache of answers.

use vstd::prelude::*;
use vstd::seq_lib::*;
use crate::domain::{law_priority_scale, priority_scale, priority_rank, Priority, Task, TaskFilter, TaskId, TaskStatus, Timestamp};
use crate::table::{Table, TableKey};
use crate::text::{contains_ignoring_case, has_text, lowercase, occurs_in, vec_has_text};

verus! {

broadcast use {vstd::seq_lib::group_to_multiset_ensures, vstd::seq_lib::group_filter_ensures};

/// A filter as plain values.
pub struct FilterView {
    pub status: Option<Seq<TaskStatus>>,
    pub priority: Option<Seq<Priority>>,
    pub assignee: Option<Seq<char>>,
    pub project_id: Option<Seq<char>>,
    pub labels: Option<Seq<Seq<char>>>,
    pub due_before: Option<Timestamp>,
    pub due_after: Option<Timestamp>,
    pub search_text: Option<Seq<char>>,
}

/// The view of an optional text.
pub open spec fn opt_text(o: Option<String>) -> Option<Seq<char>> {
    match o {
        Some(s) => Some(s@),
        None => None,
    }
}

/// The views of a sequence of texts.
pub open spec fn texts(v: Seq<String>) -> Seq<Seq<char>> {
    v.map_values(|s: String| s@)
}

impl View for TaskFilter {
    type V = FilterView;

    open spec fn view(&self) -> FilterView {
        FilterView {
            status: match self.status {
                Some(v) => Some(v@),
                None => None,
            },
            priority: match self.priority {
                Some(v) => Some(v@),
                None => None,
            },
            assignee: opt_text(self.assignee),
            project_id: opt_text(self.project_id),
            labels: match self.labels {
                Some(v) => Some(texts(v@)),
                None => None,
            },
            due_before: self.due_before,
            due_after: self.due_after,
            search_text: opt_text(self.search_text),
        }
    }
}

/// Whether two statuses sequences are equal.
fn same_statuses(a: &Vec<TaskStatus>, b: &Vec<TaskStatus>) -> (r: bool)
    ensures
        r == (a@ == b@),
{
    if a.len() != b.len() {
        return false;
    }
    let n = a.len();
    let mut i: usize = 0;
    while i < n
        invariant
            n == a@.len(),
            n == b@.len(),
            i <= n,
            forall|k: int| 0 <= k < i ==> a@[k] == b@[k],
        decreases n - i,
    {
        if a[i] != b[i] {
            return false;
        }
        i = i + 1;
    }
    assert(a@ =~= b@);
    true
}

/// Whether two priority sequences are equal.
fn same_priorities(a: &Vec<Priority>, b: &Vec<Priority>) -> (r: bool)
    ensures
        r == (a@ == b@),
{
    if a.len() != b.len() {
        return false;
    }
    let n = a.len();
    let mut i: usize = 0;
    while i < n
        invariant
            n == a@.len(),
            n == b@.len(),
            i <= n,
            forall|k: int| 0 <= k < i ==> a@[k] == b@[k],
        decreases n - i,
    {
        if a[i] != b[i] {
            return false;
        }
        i = i + 1;
    }
    assert(a@ =~= b@);
    true
}

/// Whether two text sequences hold the same texts.
fn same_texts(a: &Vec<String>, b: &Vec<String>) -> (r: bool)
    ensures
        r == (texts(a@) == texts(b@)),
{
    if a.len() != b.len() {
        assert(texts(a@).len() != texts(b@).len());
        return false;
    }
    let n = a.len();
    let mut i: usize = 0;
    while i < n
        invariant
            n == a@.len(),
            n == b@.len(),
            i <= n,
            forall|k: int| 0 <= k < i ==> a@[k]@ == b@[k]@,
        decreases n - i,
    {
        if a[i] != b[i] {
            assert(texts(a@)[i as int] != texts(b@)[i as int]);
            return false;
        }
        i = i + 1;
    }
    assert(texts(a@) =~= texts(b@));
    true
}

/// Whether two optional texts are equal.
fn same_opt_text(a: &Option<String>, b: &Option<String>) -> (r: bool)
    ensures
        r == (opt_text(*a) == opt_text(*b)),
{
    match (a, b) {
        (Some(x), Some(y)) => *x == *y,
        (None, None) => true,
        _ => false,
    }
}

impl TableKey for TaskFilter {
    fn same_key(&self, other: &TaskFilter) -> (r: bool) {
        let s = match (&self.status, &other.status) {
            (Some(x), Some(y)) => same_statuses(x, y),
            (None, None) => true,
            _ => false,
        };
        let p = match (&self.priority, &other.priority) {
            (Some(x), Some(y)) => same_priorities(x, y),
            (None, None) => true,
            _ => false,
        };
        let l = match (&self.labels, &other.labels) {
            (Some(x), Some(y)) => same_texts(x, y),
            (None, None) => true,
            _ => false,
        };
        let a = same_opt_text(&self.assignee, &other.assignee);
        let pr = same_opt_text(&self.project_id, &other.project_id);
        let q = same_opt_text(&self.search_text, &other.search_text);
        s && p && l && a && pr && q && self.due_before == other.due_before
            && self.due_after == other.due_after
    }
}

/// A copy of a text.
fn copy_text(s: &String) -> (r: String)
    ensures
        r@ == s@,
{
    s.clone()
}

/// A copy of an optional text.
fn copy_opt_text(o: &Option<String>) -> (r: Option<String>)
    ensures
        opt_text(r) == opt_text(*o),
{
    match o {
        Some(s) => Some(copy_text(s)),
        None => None,
    }
}

/// A copy of a filter.
pub fn copy_filter(f: &TaskFilter) -> (r: TaskFilter)
    ensures
        r@ == f@,
{
    let status = match &f.status {
        Some(v) => {
            let mut c: Vec<TaskStatus> = Vec::new();
            let n = v.len();
            let mut i: usize = 0;
            while i < n
                invariant
                    n == v@.len(),
                    i <= n,
                    c@ == v@.subrange(0, i as int),
                decreases n - i,
            {
                c.push(v[i]);
                i = i + 1;
                assert(c@ =~= v@.subrange(0, i as int));
            }
            assert(c@ =~= v@);
            Some(c)
        },
        None => None,
    };
    let priority = match &f.priority {
        Some(v) => {
            let mut c: Vec<Priority> = Vec::new();
            let n = v.len();
            let mut i: usize = 0;
            while i < n
                invariant
                    n == v@.len(),
                    i <= n,
                    c@ == v@.subrange(0, i as int),
                decreases n - i,
            {
                c.push(v[i]);
                i = i + 1;
                assert(c@ =~= v@.subrange(0, i as int));
            }
            assert(c@ =~= v@);
            Some(c)
        },
        None => None,
    };
    let labels = match &f.labels {
        Some(v) => {
            let mut c: Vec<String> = Vec::new();
            let n = v.len();
            let mut i: usize = 0;
            while i < n
                invariant
                    n == v@.len(),
                    i <= n,
                    c@.len() == i,
                    forall|k: int| 0 <= k < i ==> #[trigger] c@[k]@ == v@[k]@,
                decreases n - i,
            {
                c.push(copy_text(&v[i]));
                i = i + 1;
            }
            assert(texts(c@) =~= texts(v@));
            Some(c)
        },
        None => None,
    };
    TaskFilter {
        status,
        priority,
        assignee: copy_opt_text(&f.assignee),
        project_id: copy_opt_text(&f.project_id),
        labels,
        due_before: f.due_before,
        due_after: f.due_after,
        search_text: copy_opt_text(&f.search_text),
    }
}

/// `t` meets every criterion of `f` that is set: its status and priority
/// are among those listed; its assignee and project are the ones named; it
/// carries at least one of the labels; it has a due date no later than
/// `due_before` and no earlier than `due_after`; the lowercase search text
/// occurs in its lowercase title or lowercase description.
pub open spec fn task_matches(t: Task, f: FilterView) -> bool {
    &&& (f.status matches Some(ss) ==> ss.contains(t.status))
    &&& (f.priority matches Some(ps) ==> ps.contains(t.priority))
    &&& (f.assignee matches Some(a) ==> (t.assignee matches Some(ta) && ta@ == a))
    &&& (f.project_id matches Some(p) ==> t.project_id@ == p)
    &&& (f.labels matches Some(ls) ==> exists|i: int|
        0 <= i < ls.len() && #[trigger] has_text(t.labels@, ls[i]))
    &&& (f.due_before matches Some(b) ==> (t.due_date matches Some(d) && !b.before(d)))
    &&& (f.due_after matches Some(a) ==> (t.due_date matches Some(d) && !d.before(a)))
    &&& (f.search_text matches Some(q) ==> (occurs_in(lowercase(q), lowercase(t.title@)) || (
    t.description matches Some(d) && occurs_in(lowercase(q), lowercase(d@)))))
}

fn status_listed(v: &Vec<TaskStatus>, s: TaskStatus) -> (r: bool)
    ensures
        r == v@.contains(s),
{
    let n = v.len();
    let mut i: usize = 0;
    while i < n
        invariant
            n == v@.len(),
            i <= n,
            forall|k: int| 0 <= k < i ==> v@[k] != s,
        decreases n - i,
    {
        if v[i] == s {
            assert(v@[i as int] == s);
            return true;
        }
        i = i + 1;
    }
    false
}

fn priority_listed(v: &Vec<Priority>, p: Priority) -> (r: bool)
    ensures
        r == v@.contains(p),
{
    let n = v.len();
    let mut i: usize = 0;
    while i < n
        invariant
            n == v@.len(),
            i <= n,
            forall|k: int| 0 <= k < i ==> v@[k] != p,
        decreases n - i,
    {
        if v[i] == p {
            assert(v@[i as int] == p);
            return true;
        }
        i = i + 1;
    }
    false
}

/// Whether some label of `wanted` is among `labels`.
fn shares_label(wanted: &Vec<String>, labels: &Vec<String>) -> (r: bool)
    ensures
        r == exists|i: int| 0 <= i < texts(wanted@).len() && #[trigger] has_text(labels@, texts(wanted@)[i]),
{
    let n = wanted.len();
    let mut i: usize = 0;
    while i < n
        invariant
            n == wanted@.len(),
            i <= n,
            forall|k: int| 0 <= k < i ==> !#[trigger] has_text(labels@, texts(wanted@)[k]),
        decreases n - i,
    {
        if vec_has_text(labels, &wanted[i]) {
            assert(has_text(labels@, texts(wanted@)[i as int]));
            return true;
        }
        i = i + 1;
    }
    false
}

/// Whether `task` meets the criteria of `filter`.
pub fn matches_filter(task: &Task, filter: &TaskFilter) -> (r: bool)
    ensures
        r == task_matches(*task, filter@),
{
    if let Some(statuses) = &filter.status {
        if !status_listed(statuses, task.status) {
            return false;
        }
    }
    if let Some(priorities) = &filter.priority {
        if !priority_listed(priorities, task.priority) {
            return false;
        }
    }
    if let Some(assignee) = &filter.assignee {
        match &task.assignee {
            Some(a) => {
                if *a != *assignee {
                    return false;
                }
            },
            None => {
                return false;
            },
        }
    }
    if let Some(project_id) = &filter.project_id {
        if task.project_id != *project_id {
            return false;
        }
    }
    if let Some(labels) = &filter.labels {
        if !shares_label(labels, &task.labels) {
            return false;
        }
    }
    if let Some(due_before) = &filter.due_before {
        match &task.due_date {
            Some(d) => {
                if due_before.is_before(d) {
                    return false;
                }
            },
            None => {
                return false;
            },
        }
    }
    if let Some(due_after) = &filter.due_after {
        match &task.due_date {
            Some(d) => {
                if d.is_before(due_after) {
                    return false;
                }
            },
            None => {
                return false;
            },
        }
    }
    if let Some(text) = &filter.search_text {
        let title_match = contains_ignoring_case(task.title.as_str(), text.as_str());
        let desc_match = match &task.description {
            Some(d) => contains_ignoring_case(d.as_str(), text.as_str()),
            None => false,
        };
        if !title_match && !desc_match {
            return false;
        }
    }
    true
}


/// The criteria of `f` as a predicate on tasks.
pub open spec fn matcher(f: FilterView) -> spec_fn(Task) -> bool {
    |t: Task| task_matches(t, f)
}

/// `a` is listed strictly before `b`: a higher priority first, and among
/// equal priorities the one created earlier.
pub open spec fn ranks_before(a: Task, b: Task) -> bool {
    priority_rank(a.priority) > priority_rank(b.priority) || (priority_rank(a.priority)
        == priority_rank(b.priority) && a.created_at.before(b.created_at))
}

/// No task of `s` should come before one listed earlier.
pub open spec fn in_listing_order(s: Seq<Task>) -> bool {
    forall|i: int, j: int| 0 <= i < j < s.len() ==> !ranks_before(#[trigger] s[j], #[trigger] s[i])
}

/// The tasks behind a sequence of references.
pub open spec fn derefs(s: Seq<&Task>) -> Seq<Task> {
    s.map_values(|t: &Task| *t)
}

/// The ids of a sequence of tasks.
pub open spec fn ids_of(s: Seq<Task>) -> Seq<TaskId> {
    s.map_values(|t: Task| t.id)
}

/// `r` lists exactly the tasks of `pool` that meet `f` (each as often as it
/// occurs in `pool`), in listing order. Tasks that rank equal may come in
/// any order.
pub open spec fn is_listing(r: Seq<Task>, pool: Seq<Task>, f: FilterView) -> bool {
    &&& r.to_multiset() == pool.filter(matcher(f)).to_multiset()
    &&& in_listing_order(r)
}

/// In every listing, a task of higher priority (on the scale NoPriority,
/// Low, Medium, High, Urgent) comes before one of lower priority: the task
/// at position `i` stands at scale position `a`, the later one at `j` at
/// `b`, and `b` is never above `a`.
pub proof fn law_listing_priority_first(r: Seq<Task>, pool: Seq<Task>, f: FilterView, i: int, j: int, a: int, b: int)
    requires
        is_listing(r, pool, f),
        0 <= i < j < r.len(),
        0 <= a < priority_scale().len(),
        0 <= b < priority_scale().len(),
        r[i].priority == priority_scale()[a],
        r[j].priority == priority_scale()[b],
    ensures
        b <= a,
{
    assert(!ranks_before(r[j], r[i]));
    if b > a {
        law_priority_scale(a, b);
    }
}

/// Among tasks of equal priority, one created earlier comes before one
/// created later in every listing.
pub proof fn law_listing_older_first(r: Seq<Task>, pool: Seq<Task>, f: FilterView, i: int, j: int)
    requires
        is_listing(r, pool, f),
        0 <= i < j < r.len(),
        r[i].priority == r[j].priority,
    ensures
        !r[j].created_at.before(r[i].created_at),
{
    assert(!ranks_before(r[j], r[i]));
}

/// Whether `a` is listed strictly before `b`.
pub fn ranks_before_exec(a: &Task, b: &Task) -> (r: bool)
    ensures
        r == ranks_before(*a, *b),
{
    let ra = a.priority.rank();
    let rb = b.priority.rank();
    ra > rb || (ra == rb && a.created_at.is_before(&b.created_at))
}

/// Inserts `t` after every task that does not rank after it, keeping the
/// listing order.
fn insert_in_order<'a>(v: &mut Vec<&'a Task>, t: &'a Task)
    requires
        in_listing_order(derefs(old(v)@)),
    ensures
        in_listing_order(derefs(final(v)@)),
        derefs(final(v)@).to_multiset() == derefs(old(v)@).to_multiset().insert(*t),
{
    let n = v.len();
    let mut p: usize = 0;
    while p < n && !ranks_before_exec(t, v[p])
        invariant
            n == v@.len(),
            p <= n,
            forall|k: int| 0 <= k < p ==> !ranks_before(*t, *v@[k]),
        decreases n - p,
    {
        p = p + 1;
    }
    let ghost before = derefs(v@);
    v.insert(p, t);
    proof {
        assert(derefs(v@) =~= before.insert(p as int, *t));
        let s = derefs(v@);
        assert forall|i: int, j: int| 0 <= i < j < s.len() implies !ranks_before(#[trigger] s[j], #[trigger] s[i]) by {
            if j < p {
                assert(s[i] == before[i] && s[j] == before[j]);
            } else if j == p {
                assert(s[i] == before[i]);
            } else if i < p {
                assert(s[i] == before[i] && s[j] == before[j - 1]);
            } else if i == p {
                assert(s[j] == before[j - 1]);
                assert(ranks_before(*t, before[p as int]));
                if j - 1 > p {
                    assert(!ranks_before(before[j - 1], before[p as int]));
                }
            } else {
                assert(s[i] == before[i - 1] && s[j] == before[j - 1]);
            }
        }
    }
}

/// The tasks of `tasks` that meet `filter`, highest priority first and, for
/// equal priority, earliest created first.
pub fn select<'a>(tasks: &'a Table<TaskId, Task>, filter: &TaskFilter) -> (r: Vec<&'a Task>)
    ensures
        is_listing(derefs(r@), tasks.vals(), filter@),
{
    let mut r: Vec<&'a Task> = Vec::new();
    let n = tasks.len();
    let ghost pred = matcher(filter@);
    let mut i: usize = 0;
    assert(derefs(r@) =~= Seq::<Task>::empty());
    assert(tasks.vals().take(0) =~= Seq::<Task>::empty());
    while i < n
        invariant
            n == tasks.vals().len(),
            i <= n,
            pred == matcher(filter@),
            in_listing_order(derefs(r@)),
            derefs(r@).to_multiset() == tasks.vals().take(i as int).filter(pred).to_multiset(),
        decreases n - i,
    {
        let (_, t) = tasks.entry(i);
        let ghost prev = tasks.vals().take(i as int);
        assert(tasks.vals().take(i + 1) =~= prev.push(*t));
        proof {
            prev.lemma_filter_push(*t, pred);
        }
        if matches_filter(t, filter) {
            insert_in_order(&mut r, t);
        }
        i = i + 1;
    }
    assert(tasks.vals().take(n as int) =~= tasks.vals());
    r
}

/// The tasks that `ids` name in `m`, in the order of `ids`; ids that `m`
/// does not hold are passed over.
pub open spec fn resolve(ids: Seq<TaskId>, m: Map<TaskId, Task>) -> Seq<Task>
    decreases ids.len(),
{
    if ids.len() == 0 {
        Seq::empty()
    } else {
        let rest = resolve(ids.drop_last(), m);
        if m.contains_key(ids.last()) {
            rest.push(m[ids.last()])
        } else {
            rest
        }
    }
}

/// The tasks that `ids` name in `tasks`, in the order of `ids`, passing over
/// ids that are not there.
pub fn resolve_ids<'a>(tasks: &'a Table<TaskId, Task>, ids: &Vec<TaskId>) -> (r: Vec<&'a Task>)
    requires
        tasks.wf(),
    ensures
        derefs(r@) == resolve(ids@, tasks.map()),
{
    let mut r: Vec<&'a Task> = Vec::new();
    let n = ids.len();
    let mut i: usize = 0;
    assert(ids@.take(0) =~= Seq::<TaskId>::empty());
    assert(derefs(r@) =~= Seq::<Task>::empty());
    while i < n
        invariant
            tasks.wf(),
            n == ids@.len(),
            i <= n,
            derefs(r@) == resolve(ids@.take(i as int), tasks.map()),
        decreases n - i,
    {
        assert(ids@.take(i + 1).drop_last() =~= ids@.take(i as int));
        match tasks.get(&ids[i]) {
            Some(t) => {
                r.push(t);
                assert(derefs(r@) =~= resolve(ids@.take(i as int), tasks.map()).push(*t));
            },
            None => {},
        }
        i = i + 1;
    }
    assert(ids@.take(n as int) =~= ids@);
    r
}

/// The ids of listed tasks.
fn collect_ids(r: &Vec<&Task>) -> (ids: Vec<TaskId>)
    ensures
        ids@ == ids_of(derefs(r@)),
{
    let mut ids: Vec<TaskId> = Vec::new();
    let n = r.len();
    let mut i: usize = 0;
    while i < n
        invariant
            n == r@.len(),
            i <= n,
            ids@ == ids_of(derefs(r@)).take(i as int),
        decreases n - i,
    {
        ids.push(r[i].id);
        i = i + 1;
        assert(ids@ =~= ids_of(derefs(r@)).take(i as int));
    }
    assert(ids_of(derefs(r@)).take(n as int) =~= ids_of(derefs(r@)));
    ids
}

/// Listings already computed, by filter.
pub struct FilterCache {
    answers: Table<TaskFilter, Vec<TaskId>>,
}

impl FilterCache {
    /// The cached id lists, by filter.
    pub closed spec fn cached(self) -> Map<FilterView, Vec<TaskId>> {
        self.answers.map()
    }

    pub closed spec fn wf(self) -> bool {
        self.answers.wf()
    }

    /// An empty cache.
    pub fn new() -> (r: Self)
        ensures
            r.wf(),
            r.cached() == Map::<FilterView, Vec<TaskId>>::empty(),
    {
        FilterCache { answers: Table::new() }
    }

    /// Forgets every cached listing.
    pub fn clear(&mut self)
        ensures
            final(self).wf(),
            final(self).cached() == Map::<FilterView, Vec<TaskId>>::empty(),
    {
        self.answers.clear();
    }

    /// The cached id list for `f`, if any.
    pub fn lookup(&self, f: &TaskFilter) -> (r: Option<&Vec<TaskId>>)
        requires
            self.wf(),
        ensures
            r is Some <==> self.cached().contains_key(f@),
            r matches Some(ids) ==> *ids == self.cached()[f@],
    {
        self.answers.get(f)
    }

    /// Caches `ids` for `f`.
    pub fn store(&mut self, f: TaskFilter, ids: Vec<TaskId>)
        requires
            old(self).wf(),
        ensures
            final(self).wf(),
            final(self).cached() == old(self).cached().insert(f@, ids),
    {
        self.answers.insert(f, ids);
    }
}

/// Every listing cached for a filter lists the ids of a listing of `pool`
/// for that filter.
pub open spec fn answers_hold(cache: Map<FilterView, Vec<TaskId>>, pool: Seq<Task>) -> bool {
    forall|f: FilterView| #[trigger] cache.contains_key(f) ==> exists|r: Seq<Task>|
        is_listing(r, pool, f) && cache[f]@ == #[trigger] ids_of(r)
}

/// The tasks of `tasks` that meet `filter`, in listing order. A listing
/// already cached for `filter` is answered from the cache (the tasks its ids
/// name, passing over those no longer present); otherwise the listing is
/// computed and its ids are cached.
pub fn filter_with_cache<'a>(
    tasks: &'a Table<TaskId, Task>,
    cache: &mut FilterCache,
    filter: &TaskFilter,
) -> (r: Vec<&'a Task>)
    requires
        tasks.wf(),
        old(cache).wf(),
    ensures
        final(cache).wf(),
        old(cache).cached().contains_key(filter@) ==> {
            &&& derefs(r@) == resolve(old(cache).cached()[filter@]@, tasks.map())
            &&& final(cache).cached() == old(cache).cached()
        },
        !old(cache).cached().contains_key(filter@) ==> {
            &&& is_listing(derefs(r@), tasks.vals(), filter@)
            &&& final(cache).cached().dom() == old(cache).cached().dom().insert(filter@)
            &&& final(cache).cached()[filter@]@ == ids_of(derefs(r@))
            &&& forall|g: FilterView| g != filter@ && #[trigger] old(cache).cached().contains_key(g)
                ==> final(cache).cached()[g] == old(cache).cached()[g]
        },
{
    if let Some(ids) = cache.lookup(filter) {
        return resolve_ids(tasks, ids);
    }
    let r = select(tasks, filter);
    let ids = collect_ids(&r);
    let key = copy_filter(filter);
    cache.store(key, ids);
    r
}

} // verus!
