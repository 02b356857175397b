//! What a recursive deletion of a task removes: the task and every task
//! that can be reached from it through subtask lists, each of them stored
//! and in a project whose tasks may be deleted; and how the subtask lists of the
//! tasks that stay change.

use vstd::prelude::*;
use crate::analytics::event_is;
use crate::domain::{owner_of, AnalyticsEvent, Project, Task, TaskId};

verus! {

/// Projects (by id) whose tasks `actor` may delete: those they own.
pub open spec fn owned_by(projects: Map<Seq<char>, Project>, actor: Seq<char>) -> spec_fn(Seq<char>) -> bool {
    |p: Seq<char>| owner_of(projects, actor, p)
}

/// Every project.
pub open spec fn any_project() -> spec_fn(Seq<char>) -> bool {
    |p: Seq<char>| true
}

/// The id at position `i` of `p` is stored in `m`, in a project that `may`
/// admits.
pub open spec fn node_ok(m: Map<TaskId, Task>, may: spec_fn(Seq<char>) -> bool, p: Seq<TaskId>, i: int) -> bool {
    m.contains_key(p[i]) && may(m[p[i]].project_id@)
}

/// The id at position `i` of `p` is in the subtask list of the one before.
pub open spec fn edge_ok(m: Map<TaskId, Task>, p: Seq<TaskId>, i: int) -> bool {
    m[p[i - 1]].subtask_ids@.contains(p[i])
}

/// `p` is a path through subtask lists of `m`: each id on it is stored,
/// in a project that `may` admits, and each id after the first is in the
/// subtask list of the one before.
#[verifier::opaque]
pub open spec fn is_chain(m: Map<TaskId, Task>, may: spec_fn(Seq<char>) -> bool, p: Seq<TaskId>) -> bool {
    &&& p.len() > 0
    &&& forall|i: int| 0 <= i < p.len() ==> #[trigger] node_ok(m, may, p, i)
    &&& forall|i: int| 0 < i < p.len() ==> #[trigger] edge_ok(m, p, i)
}

/// `x` is reached from `root` by such a path.
pub open spec fn reaches(m: Map<TaskId, Task>, may: spec_fn(Seq<char>) -> bool, root: TaskId, x: TaskId) -> bool {
    exists|p: Seq<TaskId>| #[trigger] is_chain(m, may, p) && p[0] == root && p.last() == x
}

/// The ids reached from `root`.
pub open spec fn reach_set(m: Map<TaskId, Task>, may: spec_fn(Seq<char>) -> bool, root: TaskId) -> Set<TaskId> {
    Set::new(|x: TaskId| reaches(m, may, root, x))
}

/// What a path is made of.
pub proof fn lemma_chain_facts(m: Map<TaskId, Task>, may: spec_fn(Seq<char>) -> bool, p: Seq<TaskId>)
    requires
        is_chain(m, may, p),
    ensures
        p.len() > 0,
        forall|i: int| 0 <= i < p.len() ==> #[trigger] node_ok(m, may, p, i),
        forall|i: int| 0 < i < p.len() ==> #[trigger] edge_ok(m, p, i),
{
    reveal(is_chain);
}

/// A single stored, deletable id is a path.
pub proof fn lemma_chain_single(m: Map<TaskId, Task>, may: spec_fn(Seq<char>) -> bool, x: TaskId)
    requires
        m.contains_key(x),
        may(m[x].project_id@),
    ensures
        is_chain(m, may, seq![x]),
        reaches(m, may, x, x),
{
    reveal(is_chain);
    let c = seq![x];
    assert(node_ok(m, may, c, 0));
    assert(is_chain(m, may, c));
}

/// A path extended by a deletable subtask of its last id.
pub proof fn lemma_chain_push(m: Map<TaskId, Task>, may: spec_fn(Seq<char>) -> bool, p: Seq<TaskId>, b: TaskId)
    requires
        is_chain(m, may, p),
        m.contains_key(b),
        may(m[b].project_id@),
        m[p.last()].subtask_ids@.contains(b),
    ensures
        is_chain(m, may, p.push(b)),
        p.push(b)[0] == p[0],
        p.push(b).last() == b,
{
    reveal(is_chain);
    let q = p.push(b);
    assert forall|j: int| 0 <= j < q.len() implies #[trigger] node_ok(m, may, q, j) by {
        if j < p.len() {
            assert(q[j] == p[j]);
            assert(node_ok(m, may, p, j));
        }
    }
    assert forall|j: int| 0 < j < q.len() implies #[trigger] edge_ok(m, q, j) by {
        if j < p.len() {
            assert(q[j] == p[j]);
            assert(q[j - 1] == p[j - 1]);
            assert(edge_ok(m, p, j));
        } else {
            assert(q[j - 1] == p[p.len() - 1]);
        }
    }
}

/// A path with a deletable parent of its first id put in front.
pub proof fn lemma_chain_prepend(m: Map<TaskId, Task>, may: spec_fn(Seq<char>) -> bool, r: TaskId, p: Seq<TaskId>)
    requires
        is_chain(m, may, p),
        m.contains_key(r),
        may(m[r].project_id@),
        m[r].subtask_ids@.contains(p[0]),
    ensures
        is_chain(m, may, seq![r] + p),
        (seq![r] + p)[0] == r,
        (seq![r] + p).last() == p.last(),
{
    reveal(is_chain);
    let q = seq![r] + p;
    assert forall|j: int| 0 <= j < q.len() implies #[trigger] node_ok(m, may, q, j) by {
        if j > 0 {
            assert(q[j] == p[j - 1]);
            assert(node_ok(m, may, p, j - 1));
        }
    }
    assert forall|j: int| 0 < j < q.len() implies #[trigger] edge_ok(m, q, j) by {
        if j == 1 {
            assert(q[1] == p[0]);
        } else {
            assert(q[j] == p[j - 1]);
            assert(q[j - 1] == p[j - 2]);
            assert(edge_ok(m, p, j - 1));
        }
    }
}

/// The subtask list of `k` once the tasks in `gone` are deleted: each
/// deleted task whose parent is `k` leaves it.
pub open spec fn kept_subtasks(old: Map<TaskId, Task>, gone: Set<TaskId>, k: TaskId) -> Seq<TaskId> {
    old[k].subtask_ids@.filter(|x: TaskId| !(gone.contains(x) && old[x].parent_id == Some(k)))
}

/// `new` is `old` with the tasks in `gone` deleted: the other tasks stay,
/// unchanged but for their subtask lists, which lose exactly the deleted
/// tasks they are the parent of.
#[verifier::opaque]
pub open spec fn removed(old: Map<TaskId, Task>, new: Map<TaskId, Task>, gone: Set<TaskId>) -> bool {
    &&& forall|k: TaskId| #[trigger] new.contains_key(k) <==> old.contains_key(k) && !gone.contains(k)
    &&& forall|k: TaskId| #[trigger] new.contains_key(k) ==> new[k] == Task { subtask_ids: new[k].subtask_ids, ..old[k] }
        && new[k].subtask_ids@ == kept_subtasks(old, gone, k)
}

/// Every task in `g` other than `root` has all its deletable subtasks in
/// `g`; those of `root` not in `g` are among `subs` from position `i` on.
#[verifier::opaque]
pub open spec fn frontier(
    m0: Map<TaskId, Task>,
    may: spec_fn(Seq<char>) -> bool,
    root: TaskId,
    g: Set<TaskId>,
    subs: Seq<TaskId>,
    i: int,
) -> bool {
    forall|a: TaskId, b: TaskId|
        #![trigger g.contains(a), m0[a].subtask_ids@.contains(b)]
        g.contains(a) && m0.contains_key(b) && may(m0[b].project_id@) && m0[a].subtask_ids@.contains(b) && !g.contains(b)
            ==> a == root && exists|j: int| i <= j < subs.len() && subs[j] == b
}

/// `order` lists each task of `gone` once, and `evs` records their
/// deletion, by `actor`, in that order.
pub open spec fn deletion_order(
    tasks: Map<TaskId, Task>,
    gone: Set<TaskId>,
    actor: Seq<char>,
    evs: Seq<AnalyticsEvent>,
    order: Seq<TaskId>,
) -> bool {
    &&& order.no_duplicates()
    &&& order.to_set() == gone
    &&& evs.len() == order.len()
    &&& forall|i: int| 0 <= i < evs.len() ==> event_is(#[trigger] evs[i], "task_deleted"@, Some(actor), Some(tasks[order[i]].project_id@))
}

/// `evs` records the deletion of each task of `gone` exactly once.
pub open spec fn deletion_events(tasks: Map<TaskId, Task>, gone: Set<TaskId>, actor: Seq<char>, evs: Seq<AnalyticsEvent>) -> bool {
    exists|order: Seq<TaskId>| #[trigger] deletion_order(tasks, gone, actor, evs, order)
}

/// The events of one more recursive deletion follow those recorded so far.
pub proof fn lemma_order_join(
    tm0: Map<TaskId, Task>,
    cur: Map<TaskId, Task>,
    g: Set<TaskId>,
    root: TaskId,
    rc: Set<TaskId>,
    actor: Seq<char>,
    evs: Seq<AnalyticsEvent>,
    k0: int,
    k1: int,
    order: Seq<TaskId>,
    os: Seq<TaskId>,
)
    requires
        0 <= k0 <= k1 <= evs.len(),
        g.contains(root),
        removed(tm0, cur, g),
        forall|x: TaskId| rc.contains(x) ==> cur.contains_key(x),
        deletion_order(tm0, g.remove(root), actor, evs.subrange(k0, k1), order),
        deletion_order(cur, rc, actor, evs.subrange(k1, evs.len() as int), os),
    ensures
        deletion_order(tm0, g.union(rc).remove(root), actor, evs.subrange(k0, evs.len() as int), order + os),
{
    reveal(removed);
    let o = order + os;
    let e = evs.subrange(k0, evs.len() as int);
    assert forall|x: TaskId| rc.contains(x) implies !g.contains(x) && cur[x].project_id == tm0[x].project_id by {
        assert(cur.contains_key(x));
    }
    assert forall|a: int, b: int| 0 <= a < o.len() && 0 <= b < o.len() && a != b implies o[a] != o[b] by {
        if a < order.len() && b >= order.len() {
            assert(order.to_set().contains(order[a]));
            assert(os.to_set().contains(os[b - order.len()]));
        } else if b < order.len() && a >= order.len() {
            assert(order.to_set().contains(order[b]));
            assert(os.to_set().contains(os[a - order.len()]));
        }
    }
    assert(o.to_set() =~= g.union(rc).remove(root)) by {
        assert forall|x: TaskId| o.to_set().contains(x) implies g.union(rc).remove(root).contains(x) by {
            let j = choose|j: int| 0 <= j < o.len() && o[j] == x;
            if j < order.len() {
                assert(order.to_set().contains(order[j]));
            } else {
                assert(os.to_set().contains(os[j - order.len()]));
                assert(!g.contains(x));
            }
        }
        assert forall|x: TaskId| g.union(rc).remove(root).contains(x) implies o.to_set().contains(x) by {
            if g.remove(root).contains(x) {
                assert(order.to_set().contains(x));
                let j = choose|j: int| 0 <= j < order.len() && order[j] == x;
                assert(o[j] == x);
            } else {
                assert(os.to_set().contains(x));
                let j = choose|j: int| 0 <= j < os.len() && os[j] == x;
                assert(o[order.len() + j] == x);
            }
        }
    }
    assert forall|i: int| 0 <= i < e.len() implies event_is(#[trigger] e[i], "task_deleted"@, Some(actor), Some(tm0[o[i]].project_id@)) by {
        if i < order.len() {
            assert(e[i] == evs.subrange(k0, k1)[i]);
        } else {
            let j = i - order.len();
            assert(e[i] == evs.subrange(k1, evs.len() as int)[j]);
            assert(os.to_set().contains(os[j]));
        }
    }
}

/// The deletion of the task itself, recorded last.
pub proof fn lemma_order_last(
    tm0: Map<TaskId, Task>,
    g: Set<TaskId>,
    root: TaskId,
    actor: Seq<char>,
    ev: Seq<AnalyticsEvent>,
    evs: Seq<AnalyticsEvent>,
    k0: int,
    order: Seq<TaskId>,
)
    requires
        0 <= k0 <= ev.len(),
        g.contains(root),
        deletion_order(tm0, g.remove(root), actor, ev.subrange(k0, ev.len() as int), order),
        evs.len() == ev.len() + 1,
        evs.drop_last() == ev,
        event_is(evs.last(), "task_deleted"@, Some(actor), Some(tm0[root].project_id@)),
    ensures
        deletion_events(tm0, g, actor, evs.subrange(k0, evs.len() as int)),
{
    let o = order.push(root);
    let e = evs.subrange(k0, evs.len() as int);
    assert(!order.to_set().contains(root));
    assert forall|a: int, b: int| 0 <= a < o.len() && 0 <= b < o.len() && a != b implies o[a] != o[b] by {
        if a == order.len() {
            assert(order.to_set().contains(order[b]));
        } else if b == order.len() {
            assert(order.to_set().contains(order[a]));
        }
    }
    assert(o.to_set() =~= g) by {
        assert forall|x: TaskId| g.contains(x) implies o.to_set().contains(x) by {
            if x != root {
                assert(order.to_set().contains(x));
                let j = choose|j: int| 0 <= j < order.len() && order[j] == x;
                assert(o[j] == x);
            } else {
                assert(o[order.len() as int] == root);
            }
        }
        assert forall|x: TaskId| o.to_set().contains(x) implies g.contains(x) by {
            let j = choose|j: int| 0 <= j < o.len() && o[j] == x;
            if j < order.len() {
                assert(order.to_set().contains(order[j]));
            }
        }
    }
    assert forall|i: int| 0 <= i < e.len() implies event_is(#[trigger] e[i], "task_deleted"@, Some(actor), Some(tm0[o[i]].project_id@)) by {
        if i < order.len() {
            assert(e[i] == ev.subrange(k0, ev.len() as int)[i]);
            assert(evs[k0 + i] == ev[k0 + i]);
        } else {
            assert(e[i] == evs.last());
        }
    }
    assert(deletion_order(tm0, g, actor, e, o));
}

/// Parent links agree with subtask lists: a stored task names `q` as its
/// parent exactly when it is in the subtask list of the stored task `q`.
pub open spec fn links_consistent(m: Map<TaskId, Task>) -> bool {
    forall|k: TaskId, q: TaskId| #![trigger m[k].parent_id, m[q].subtask_ids]
        m.contains_key(k) && m.contains_key(q) ==> (m[k].parent_id == Some(q) <==> m[q].subtask_ids@.contains(k))
}

/// Every id reached from `root`, other than `root`, is in the subtask list
/// of another id reached from `root`.
proof fn lemma_reached_parent(m: Map<TaskId, Task>, may: spec_fn(Seq<char>) -> bool, root: TaskId, x: TaskId) -> (y: TaskId)
    requires
        reaches(m, may, root, x),
        x != root,
    ensures
        reaches(m, may, root, y),
        m.contains_key(y),
        m[y].subtask_ids@.contains(x),
{
    let p = choose|p: Seq<TaskId>| #[trigger] is_chain(m, may, p) && p[0] == root && p.last() == x;
    lemma_chain_facts(m, may, p);
    let n = p.len() - 1;
    assert(n > 0);
    let q = p.subrange(0, n);
    reveal(is_chain);
    assert forall|i: int| 0 <= i < q.len() implies #[trigger] node_ok(m, may, q, i) by {
        assert(q[i] == p[i]);
        assert(node_ok(m, may, p, i));
    }
    assert forall|i: int| 0 < i < q.len() implies #[trigger] edge_ok(m, q, i) by {
        assert(q[i] == p[i]);
        assert(q[i - 1] == p[i - 1]);
        assert(edge_ok(m, p, i));
    }
    assert(is_chain(m, may, q));
    assert(q[0] == root && q.last() == p[n - 1]);
    assert(edge_ok(m, p, n));
    assert(node_ok(m, may, p, n - 1));
    p[n - 1]
}

/// Where parent links agree with subtask lists, deleting `root` changes
/// only its parent's subtask list, which loses `root` and nothing else;
/// every other task that stays is as it was.
pub proof fn law_delete_touches_only_parent(
    old: Map<TaskId, Task>,
    new: Map<TaskId, Task>,
    may: spec_fn(Seq<char>) -> bool,
    root: TaskId,
)
    requires
        links_consistent(old),
        old.contains_key(root),
        may(old[root].project_id@),
        removed(old, new, reach_set(old, may, root)),
    ensures
        forall|k: TaskId| #[trigger] new.contains_key(k) && old[root].parent_id != Some(k) ==>
            new[k] == (Task { subtask_ids: new[k].subtask_ids, ..old[k] }) && new[k].subtask_ids@ == old[k].subtask_ids@,
        forall|k: TaskId| #[trigger] new.contains_key(k) && old[root].parent_id == Some(k) ==>
            new[k] == (Task { subtask_ids: new[k].subtask_ids, ..old[k] })
                && new[k].subtask_ids@ == old[k].subtask_ids@.filter(|x: TaskId| x != root),
{
    reveal(removed);
    let r = reach_set(old, may, root);
    assert forall|k: TaskId| #[trigger] new.contains_key(k) implies new[k] == Task { subtask_ids: new[k].subtask_ids, ..old[k] }
        && new[k].subtask_ids@ == old[k].subtask_ids@.filter(|x: TaskId| !(r.contains(x) && old[x].parent_id == Some(k))) by {}
    assert forall|k: TaskId| #[trigger] new.contains_key(k) implies new[k].subtask_ids@ == (if old[root].parent_id == Some(k) {
        old[k].subtask_ids@.filter(|x: TaskId| x != root)
    } else {
        old[k].subtask_ids@
    }) by {
        let pk = |x: TaskId| !(r.contains(x) && old[x].parent_id == Some(k));
        assert(old.contains_key(k) && !r.contains(k));
        lemma_reach_stored(old, may, root);
        // an id of `r` other than `root` has its parent in `r`, so not `k`
        assert forall|x: TaskId| r.contains(x) && x != root implies old[x].parent_id != Some(k) by {
            let y = lemma_reached_parent(old, may, root, x);
            assert(old.contains_key(x));
            assert(old[x].parent_id == Some(y));
            assert(r.contains(y));
        }
        if old[root].parent_id == Some(k) {
            lemma_chain_single(old, may, root);
            assert(r.contains(root));
            assert(pk =~= (|x: TaskId| x != root));
        } else {
            assert forall|i: int| 0 <= i < old[k].subtask_ids@.len() implies #[trigger] pk(old[k].subtask_ids@[i]) by {}
            lemma_filter_all(old[k].subtask_ids@, pk);
        }
    }
}

/// Keeping every element keeps the sequence.
pub proof fn lemma_filter_all<A>(s: Seq<A>, p: spec_fn(A) -> bool)
    requires
        forall|i: int| 0 <= i < s.len() ==> #[trigger] p(s[i]),
    ensures
        s.filter(p) == s,
    decreases s.len(),
{
    reveal(Seq::filter);
    if s.len() > 0 {
        lemma_filter_all(s.drop_last(), p);
        assert(p(s[s.len() - 1]));
        assert(s.drop_last().push(s.last()) =~= s);
    }
}

/// Filtering twice is filtering once by both conditions.
pub proof fn lemma_filter_filter<A>(s: Seq<A>, p: spec_fn(A) -> bool, q: spec_fn(A) -> bool)
    ensures
        s.filter(p).filter(q) == s.filter(|x: A| p(x) && q(x)),
    decreases s.len(),
{
    let pq = |x: A| p(x) && q(x);
    if s.len() == 0 {
        reveal(Seq::filter);
        assert(s.filter(p).len() == 0);
    } else {
        let t = s.drop_last();
        let a = s.last();
        lemma_filter_filter(t, p, q);
        assert(t.push(a) =~= s);
        t.lemma_filter_push(a, p);
        t.lemma_filter_push(a, pq);
        t.filter(p).lemma_filter_push(a, q);
    }
}

/// Removing nothing leaves the tasks as they are.
pub proof fn lemma_removed_nothing(m: Map<TaskId, Task>, gone: Set<TaskId>)
    requires
        forall|x: TaskId| !gone.contains(x),
    ensures
        removed(m, m, gone),
{
    reveal(removed);
    assert forall|k: TaskId| #[trigger] m.contains_key(k) implies m[k].subtask_ids@ == kept_subtasks(m, gone, k) by {
        let p = |x: TaskId| !(gone.contains(x) && m[x].parent_id == Some(k));
        lemma_filter_all(m[k].subtask_ids@, p);
    }
}

/// Nothing is reached from a root that is not stored or not deletable.
pub proof fn lemma_reach_empty(m: Map<TaskId, Task>, may: spec_fn(Seq<char>) -> bool, root: TaskId)
    requires
        !(m.contains_key(root) && may(m[root].project_id@)),
    ensures
        forall|x: TaskId| !reach_set(m, may, root).contains(x),
{
    assert forall|x: TaskId| !reach_set(m, may, root).contains(x) by {
        if reaches(m, may, root, x) {
            let p = choose|p: Seq<TaskId>| #[trigger] is_chain(m, may, p) && p[0] == root && p.last() == x;
            lemma_chain_facts(m, may, p);
            assert(node_ok(m, may, p, 0));
        }
    }
}

/// The state right after `root` left its parent's list and the table:
/// `root` alone is deleted, and its own subtasks are the whole frontier.
pub proof fn lemma_start(
    m0: Map<TaskId, Task>,
    m1: Map<TaskId, Task>,
    m2: Map<TaskId, Task>,
    may: spec_fn(Seq<char>) -> bool,
    root: TaskId,
)
    requires
        m0.contains_key(root),
        may(m0[root].project_id@),
        m0[root].parent_id is Some && m0.contains_key(m0[root].parent_id.unwrap()) ==> ({
            let p = m0[root].parent_id.unwrap();
            &&& m1 == m0.insert(p, Task { subtask_ids: m1[p].subtask_ids, ..m0[p] })
            &&& m1[p].subtask_ids@ == m0[p].subtask_ids@.filter(|y: TaskId| y != root)
        }),
        !(m0[root].parent_id is Some && m0.contains_key(m0[root].parent_id.unwrap())) ==> m1 == m0,
        m2 == m1.remove(root),
    ensures
        removed(m0, m2, set![root]),
        frontier(m0, may, root, set![root], m0[root].subtask_ids@, 0),
        forall|x: TaskId| set![root].contains(x) ==> reaches(m0, may, root, x),
{
    lemma_start_removed(m0, m1, m2, root);
    lemma_start_frontier(m0, may, root);
    lemma_chain_single(m0, may, root);
}

proof fn lemma_start_removed(m0: Map<TaskId, Task>, m1: Map<TaskId, Task>, m2: Map<TaskId, Task>, root: TaskId)
    requires
        m0.contains_key(root),
        m0[root].parent_id is Some && m0.contains_key(m0[root].parent_id.unwrap()) ==> ({
            let p = m0[root].parent_id.unwrap();
            &&& m1 == m0.insert(p, Task { subtask_ids: m1[p].subtask_ids, ..m0[p] })
            &&& m1[p].subtask_ids@ == m0[p].subtask_ids@.filter(|y: TaskId| y != root)
        }),
        !(m0[root].parent_id is Some && m0.contains_key(m0[root].parent_id.unwrap())) ==> m1 == m0,
        m2 == m1.remove(root),
    ensures
        removed(m0, m2, set![root]),
{
    reveal(removed);
    let g = set![root];
    assert forall|k: TaskId| #[trigger] m2.contains_key(k) <==> m0.contains_key(k) && !g.contains(k) by {}
    assert forall|k: TaskId| #[trigger] m2.contains_key(k) implies m2[k] == Task { subtask_ids: m2[k].subtask_ids, ..m0[k] }
        && m2[k].subtask_ids@ == kept_subtasks(m0, g, k) by {
        let pk = |x: TaskId| !(g.contains(x) && m0[x].parent_id == Some(k));
        assert(m2[k] == m1[k]);
        if m0[root].parent_id == Some(k) {
            assert(pk =~= (|y: TaskId| y != root));
        } else {
            assert(m1[k] == m0[k]);
            assert forall|i: int| 0 <= i < m0[k].subtask_ids@.len() implies #[trigger] pk(m0[k].subtask_ids@[i]) by {}
            lemma_filter_all(m0[k].subtask_ids@, pk);
        }
    }
}

proof fn lemma_start_frontier(m0: Map<TaskId, Task>, may: spec_fn(Seq<char>) -> bool, root: TaskId)
    ensures
        frontier(m0, may, root, set![root], m0[root].subtask_ids@, 0),
{
    reveal(frontier);
    let g = set![root];
    let subs = m0[root].subtask_ids@;
    assert forall|a: TaskId, b: TaskId|
        #![trigger g.contains(a), m0[a].subtask_ids@.contains(b)]
        g.contains(a) && m0.contains_key(b) && may(m0[b].project_id@) && m0[a].subtask_ids@.contains(b) && !g.contains(b)
            implies a == root && exists|j: int| 0 <= j < subs.len() && subs[j] == b by {
        let j = subs.index_of(b);
        assert(0 <= j < subs.len() && subs[j] == b);
    }
}

/// A path of `cur`, where `cur` is `m0` with `g` deleted, is a path of
/// `m0`.
proof fn lemma_chain_back(m0: Map<TaskId, Task>, cur: Map<TaskId, Task>, g: Set<TaskId>, may: spec_fn(Seq<char>) -> bool, p: Seq<TaskId>)
    requires
        removed(m0, cur, g),
        is_chain(cur, may, p),
    ensures
        is_chain(m0, may, p),
        forall|i: int| 0 <= i < p.len() ==> !g.contains(#[trigger] p[i]),
{
    reveal(removed);
    lemma_chain_facts(cur, may, p);
    reveal(is_chain);
    assert forall|i: int| 0 <= i < p.len() implies #[trigger] node_ok(m0, may, p, i) by {
        assert(node_ok(cur, may, p, i));
        assert(cur[p[i]].project_id == m0[p[i]].project_id);
    }
    assert forall|i: int| 0 < i < p.len() implies #[trigger] edge_ok(m0, p, i) by {
        assert(edge_ok(cur, p, i));
        assert(node_ok(cur, may, p, i - 1));
        let a = p[i - 1];
        let pk = |x: TaskId| !(g.contains(x) && m0[x].parent_id == Some(a));
        assert(cur[a].subtask_ids@ == m0[a].subtask_ids@.filter(pk));
        m0[a].subtask_ids@.lemma_filter_contains_rev(pk, p[i]);
    }
    assert forall|i: int| 0 <= i < p.len() implies !g.contains(#[trigger] p[i]) by {
        assert(node_ok(cur, may, p, i));
    }
}

/// One subtask of `root` deleted, with everything reached from it in the
/// current state: the deleted set grows by that reach, which `root` reaches
/// too, and the frontier moves on by one.
pub proof fn lemma_step(
    m0: Map<TaskId, Task>,
    may: spec_fn(Seq<char>) -> bool,
    root: TaskId,
    subs: Seq<TaskId>,
    i: int,
    g: Set<TaskId>,
    cur: Map<TaskId, Task>,
    next: Map<TaskId, Task>,
)
    requires
        m0.contains_key(root),
        may(m0[root].project_id@),
        subs == m0[root].subtask_ids@,
        0 <= i < subs.len(),
        g.contains(root),
        forall|x: TaskId| g.contains(x) ==> reaches(m0, may, root, x),
        removed(m0, cur, g),
        frontier(m0, may, root, g, subs, i),
        removed(cur, next, reach_set(cur, may, subs[i])),
    ensures
        removed(m0, next, g.union(reach_set(cur, may, subs[i]))),
        frontier(m0, may, root, g.union(reach_set(cur, may, subs[i])), subs, i + 1),
        g.union(reach_set(cur, may, subs[i])).contains(root),
        forall|x: TaskId| g.union(reach_set(cur, may, subs[i])).contains(x) ==> reaches(m0, may, root, x),
{
    lemma_step_reach(m0, may, root, subs, i, g, cur);
    lemma_step_removed(m0, may, subs[i], g, cur, next);
    lemma_step_frontier(m0, may, root, subs, i, g, cur);
}

/// What `cur` reaches from a subtask of `root` is reached from `root` in
/// `m0` and was not deleted before.
proof fn lemma_step_reach(
    m0: Map<TaskId, Task>,
    may: spec_fn(Seq<char>) -> bool,
    root: TaskId,
    subs: Seq<TaskId>,
    i: int,
    g: Set<TaskId>,
    cur: Map<TaskId, Task>,
)
    requires
        m0.contains_key(root),
        may(m0[root].project_id@),
        subs == m0[root].subtask_ids@,
        0 <= i < subs.len(),
        removed(m0, cur, g),
    ensures
        forall|x: TaskId| reach_set(cur, may, subs[i]).contains(x) ==> reaches(m0, may, root, x) && !g.contains(x),
{
    let s = subs[i];
    let rc = reach_set(cur, may, s);
    assert forall|x: TaskId| rc.contains(x) implies reaches(m0, may, root, x) && !g.contains(x) by {
        let p = choose|p: Seq<TaskId>| #[trigger] is_chain(cur, may, p) && p[0] == s && p.last() == x;
        lemma_chain_back(m0, cur, g, may, p);
        lemma_chain_facts(cur, may, p);
        assert(subs.contains(s));
        lemma_chain_prepend(m0, may, root, p);
        let q = seq![root] + p;
        assert(is_chain(m0, may, q) && q[0] == root && q.last() == x);
        assert(!g.contains(p[p.len() - 1]));
    }
}

/// Deleting what `cur` reaches from `s` after `g`: `g` and that reach are
/// deleted from `m0`.
proof fn lemma_step_removed(
    m0: Map<TaskId, Task>,
    may: spec_fn(Seq<char>) -> bool,
    s: TaskId,
    g: Set<TaskId>,
    cur: Map<TaskId, Task>,
    next: Map<TaskId, Task>,
)
    requires
        removed(m0, cur, g),
        removed(cur, next, reach_set(cur, may, s)),
    ensures
        removed(m0, next, g.union(reach_set(cur, may, s))),
{
    reveal(removed);
    let rc = reach_set(cur, may, s);
    let g2 = g.union(rc);
    assert forall|k: TaskId| #[trigger] next.contains_key(k) <==> m0.contains_key(k) && !g2.contains(k) by {
        if rc.contains(k) {
            let p = choose|p: Seq<TaskId>| #[trigger] is_chain(cur, may, p) && p[0] == s && p.last() == k;
            lemma_chain_facts(cur, may, p);
            assert(node_ok(cur, may, p, p.len() - 1));
        }
    }
    assert forall|k: TaskId| #[trigger] next.contains_key(k) implies next[k] == Task { subtask_ids: next[k].subtask_ids, ..m0[k] }
        && next[k].subtask_ids@ == kept_subtasks(m0, g2, k) by {
        assert(cur.contains_key(k));
        let p1 = |x: TaskId| !(g.contains(x) && m0[x].parent_id == Some(k));
        let p2 = |x: TaskId| !(rc.contains(x) && cur[x].parent_id == Some(k));
        let p12 = |x: TaskId| !(g2.contains(x) && m0[x].parent_id == Some(k));
        lemma_filter_filter(m0[k].subtask_ids@, p1, p2);
        assert forall|x: TaskId| (p1(x) && p2(x)) == #[trigger] p12(x) by {
            if rc.contains(x) {
                let p = choose|p: Seq<TaskId>| #[trigger] is_chain(cur, may, p) && p[0] == s && p.last() == x;
                lemma_chain_facts(cur, may, p);
                assert(node_ok(cur, may, p, p.len() - 1));
                assert(cur[x].parent_id == m0[x].parent_id);
            }
        }
        assert((|x: TaskId| p1(x) && p2(x)) =~= p12);
    }
}

/// The frontier moves on by one once the subtask at `i` was handled.
proof fn lemma_step_frontier(
    m0: Map<TaskId, Task>,
    may: spec_fn(Seq<char>) -> bool,
    root: TaskId,
    subs: Seq<TaskId>,
    i: int,
    g: Set<TaskId>,
    cur: Map<TaskId, Task>,
)
    requires
        0 <= i < subs.len(),
        removed(m0, cur, g),
        frontier(m0, may, root, g, subs, i),
    ensures
        frontier(m0, may, root, g.union(reach_set(cur, may, subs[i])), subs, i + 1),
{
    reveal(removed);
    reveal(frontier);
    let s = subs[i];
    let rc = reach_set(cur, may, s);
    let g2 = g.union(rc);
    assert forall|a: TaskId, b: TaskId|
        #![trigger g2.contains(a), m0[a].subtask_ids@.contains(b)]
        g2.contains(a) && m0.contains_key(b) && may(m0[b].project_id@) && m0[a].subtask_ids@.contains(b) && !g2.contains(b)
            implies a == root && exists|j: int| i + 1 <= j < subs.len() && subs[j] == b by {
        assert(!g.contains(b));
        assert(cur.contains_key(b));
        assert(cur[b].project_id == m0[b].project_id);
        if g.contains(a) {
            assert(g.contains(a) && m0[a].subtask_ids@.contains(b));
            let j = choose|j: int| i <= j < subs.len() && subs[j] == b;
            if j == i {
                lemma_chain_single(cur, may, s);
                assert(rc.contains(s));
            }
            assert(i + 1 <= j < subs.len() && subs[j] == b);
        } else {
            let p = choose|p: Seq<TaskId>| #[trigger] is_chain(cur, may, p) && p[0] == s && p.last() == a;
            lemma_chain_facts(cur, may, p);
            assert(node_ok(cur, may, p, p.len() - 1));
            let pa = |x: TaskId| !(g.contains(x) && m0[x].parent_id == Some(a));
            assert(cur[a].subtask_ids@ == m0[a].subtask_ids@.filter(pa));
            let ib = m0[a].subtask_ids@.index_of(b);
            m0[a].subtask_ids@.lemma_filter_contains(pa, ib);
            lemma_chain_push(cur, may, p, b);
            let q = p.push(b);
            assert(is_chain(cur, may, q) && q[0] == s && q.last() == b);
            assert(rc.contains(b));
        }
    }
}

/// What is reached is stored.
pub proof fn lemma_reach_stored(m: Map<TaskId, Task>, may: spec_fn(Seq<char>) -> bool, root: TaskId)
    ensures
        forall|x: TaskId| reach_set(m, may, root).contains(x) ==> m.contains_key(x),
{
    assert forall|x: TaskId| reach_set(m, may, root).contains(x) implies m.contains_key(x) by {
        let p = choose|p: Seq<TaskId>| #[trigger] is_chain(m, may, p) && p[0] == root && p.last() == x;
        lemma_chain_facts(m, may, p);
        assert(node_ok(m, may, p, p.len() - 1));
    }
}

/// Once every subtask of `root` was handled, the deleted set is exactly
/// what `root` reaches.
pub proof fn lemma_finish(
    m0: Map<TaskId, Task>,
    may: spec_fn(Seq<char>) -> bool,
    root: TaskId,
    subs: Seq<TaskId>,
    g: Set<TaskId>,
    cur: Map<TaskId, Task>,
)
    requires
        g.contains(root),
        forall|x: TaskId| g.contains(x) ==> reaches(m0, may, root, x),
        removed(m0, cur, g),
        frontier(m0, may, root, g, subs, subs.len() as int),
    ensures
        removed(m0, cur, reach_set(m0, may, root)),
        g == reach_set(m0, may, root),
{
    assert forall|x: TaskId| reaches(m0, may, root, x) implies g.contains(x) by {
        let p = choose|p: Seq<TaskId>| #[trigger] is_chain(m0, may, p) && p[0] == root && p.last() == x;
        lemma_chain_facts(m0, may, p);
        lemma_chain_in(m0, may, root, subs, g, p, p.len() - 1);
    }
    assert(g =~= reach_set(m0, may, root));
}

/// Every id on a path from `root` lies in a set that holds `root` and is
/// closed under deletable subtasks.
proof fn lemma_chain_in(
    m0: Map<TaskId, Task>,
    may: spec_fn(Seq<char>) -> bool,
    root: TaskId,
    subs: Seq<TaskId>,
    g: Set<TaskId>,
    p: Seq<TaskId>,
    n: int,
)
    requires
        g.contains(root),
        frontier(m0, may, root, g, subs, subs.len() as int),
        is_chain(m0, may, p),
        p[0] == root,
        0 <= n < p.len(),
    ensures
        g.contains(p[n]),
    decreases n,
{
    reveal(frontier);
    lemma_chain_facts(m0, may, p);
    if n > 0 {
        lemma_chain_in(m0, may, root, subs, g, p, n - 1);
        let a = p[n - 1];
        let b = p[n];
        assert(edge_ok(m0, p, n));
        assert(node_ok(m0, may, p, n));
        if !g.contains(b) {
            assert(g.contains(a) && m0[a].subtask_ids@.contains(b));
        }
    }
}

} // verus!
