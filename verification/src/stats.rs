//! Counting a project's tasks.

use vstd::prelude::*;
use crate::domain::{ProjectStats, Task, TaskId, TaskStatus, Timestamp};
use crate::table::Table;

verus! {

broadcast use vstd::seq_lib::group_filter_ensures;

/// The task belongs to project `p`.
pub open spec fn in_project(p: Seq<char>) -> spec_fn(Task) -> bool {
    |t: Task| t.project_id@ == p
}

/// The task belongs to project `p` and is done.
pub open spec fn done_in(p: Seq<char>) -> spec_fn(Task) -> bool {
    |t: Task| t.project_id@ == p && t.status == TaskStatus::Done
}

/// The task belongs to project `p`, is not done, and its due date lies
/// strictly before `now`.
pub open spec fn overdue_in(p: Seq<char>, now: Timestamp) -> spec_fn(Task) -> bool {
    |t: Task|
        t.project_id@ == p && (t.due_date matches Some(d) && d.before(now)) && t.status
            != TaskStatus::Done
}

/// The counts of project `p` over the tasks `pool` at time `now`.
pub open spec fn stats_spec(pool: Seq<Task>, p: Seq<char>, now: Timestamp) -> (int, int, int) {
    (
        pool.filter(in_project(p)).len() as int,
        pool.filter(done_in(p)).len() as int,
        pool.filter(overdue_in(p, now)).len() as int,
    )
}

/// A project's done and overdue tasks together are never more than its
/// tasks: an overdue task is one that is not done.
pub proof fn lemma_stats_bounded(pool: Seq<Task>, p: Seq<char>, now: Timestamp)
    ensures
        stats_spec(pool, p, now).1 + stats_spec(pool, p, now).2 <= stats_spec(pool, p, now).0,
    decreases pool.len(),
{
    if pool.len() > 0 {
        let init = pool.drop_last();
        let x = pool.last();
        lemma_stats_bounded(init, p, now);
        assert(pool =~= init.push(x));
        init.lemma_filter_push(x, in_project(p));
        init.lemma_filter_push(x, done_in(p));
        init.lemma_filter_push(x, overdue_in(p, now));
    }
}

/// Counts the tasks of project `project_id` in `tasks`: all of them, those
/// done, and those overdue at `now`.
pub fn count_project_tasks(tasks: &Table<TaskId, Task>, project_id: &String, now: Timestamp) -> (r:
    ProjectStats)
    ensures
        r.total_tasks == stats_spec(tasks.vals(), project_id@, now).0,
        r.completed_tasks == stats_spec(tasks.vals(), project_id@, now).1,
        r.overdue_tasks == stats_spec(tasks.vals(), project_id@, now).2,
{
    let n = tasks.len();
    let ghost pool = tasks.vals();
    let mut total: usize = 0;
    let mut done: usize = 0;
    let mut overdue: usize = 0;
    let mut i: usize = 0;
    assert(pool.take(0) =~= Seq::<Task>::empty());
    while i < n
        invariant
            n == pool.len(),
            pool == tasks.vals(),
            i <= n,
            total == pool.take(i as int).filter(in_project(project_id@)).len(),
            done == pool.take(i as int).filter(done_in(project_id@)).len(),
            overdue == pool.take(i as int).filter(overdue_in(project_id@, now)).len(),
            total <= i,
            done <= i,
            overdue <= i,
        decreases n - i,
    {
        let (_, t) = tasks.entry(i);
        let ghost prev = pool.take(i as int);
        assert(pool.take(i + 1) =~= prev.push(*t));
        proof {
            prev.lemma_filter_push(*t, in_project(project_id@));
            prev.lemma_filter_push(*t, done_in(project_id@));
            prev.lemma_filter_push(*t, overdue_in(project_id@, now));
        }
        if t.project_id == *project_id {
            total = total + 1;
            if t.status == TaskStatus::Done {
                done = done + 1;
            } else {
                let late = match &t.due_date {
                    Some(d) => d.is_before(&now),
                    None => false,
                };
                if late {
                    overdue = overdue + 1;
                }
            }
        }
        i = i + 1;
    }
    assert(pool.take(n as int) =~= pool);
    ProjectStats { total_tasks: total, completed_tasks: done, overdue_tasks: overdue }
}

} // verus!
