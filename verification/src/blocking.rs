//! Blocking-time calculation: the worst-case delay a task can suffer from a
//! single critical section of a lower-priority task whose resource ceiling
//! is at least the task's own priority.

use vstd::prelude::*;

use crate::maps::IdPrio;
use crate::maps::TaskResources;
use crate::model::SrpError;
use crate::model::Task;
use crate::model::Trace;
use crate::model::tasks_valid;
use crate::model::valid_trace;

verus! {

/// The longest single segment for resource `r` in the tree `t`: the extent
/// of `t` itself if its id matches (the search does not descend below a
/// match), else the maximum over the subtrees, 0 where nothing matches.
pub open spec fn spec_fetch_block(t: Trace, r: Seq<char>) -> int
    decreases t, t.inner@.len() + 1,
{
    if t.id@ == r {
        t.end - t.start
    } else {
        spec_fetch_block_upto(t, r, t.inner@.len() as int)
    }
}

/// The maximum segment for `r` over the first `n` subtrees of `t`.
pub open spec fn spec_fetch_block_upto(t: Trace, r: Seq<char>, n: int) -> int
    decreases t, n,
{
    if 0 < n <= t.inner@.len() {
        let prev = spec_fetch_block_upto(t, r, n - 1);
        let cur = spec_fetch_block(t.inner@[n - 1], r);
        if cur > prev {
            cur
        } else {
            prev
        }
    } else {
        0
    }
}

/// Whether the lower-priority task `t` can block `task` through resource
/// `r`: it has strictly lower priority and the ceiling recorded for `r` is
/// at least `task`'s priority.
pub open spec fn qualifies(task: Task, t: Task, ip: Map<Seq<char>, u8>, r: Seq<char>) -> bool {
    t.prio < task.prio && ip.contains_key(r) && ip[r] >= task.prio
}

/// The worst single blocking segment for resource `r` over the first `n`
/// tasks of the set.
pub open spec fn spec_block_over_tasks(
    task: Task,
    tasks: Seq<Task>,
    ip: Map<Seq<char>, u8>,
    r: Seq<char>,
    n: int,
) -> int
    decreases n,
{
    if n <= 0 {
        0
    } else {
        let prev = spec_block_over_tasks(task, tasks, ip, r, n - 1);
        let cur = if qualifies(task, tasks[n - 1], ip, r) {
            spec_fetch_block(tasks[n - 1].trace, r)
        } else {
            0
        };
        if cur > prev {
            cur
        } else {
            prev
        }
    }
}

/// The worst single blocking segment over the first `m` resources of the
/// task's resource set.
pub open spec fn spec_block_over_resources(
    task: Task,
    tasks: Seq<Task>,
    ip: Map<Seq<char>, u8>,
    rs: Seq<Seq<char>>,
    m: int,
) -> int
    decreases m,
{
    if m <= 0 {
        0
    } else {
        let prev = spec_block_over_resources(task, tasks, ip, rs, m - 1);
        let cur = spec_block_over_tasks(task, tasks, ip, rs[m - 1], tasks.len() as int);
        if cur > prev {
            cur
        } else {
            prev
        }
    }
}

/// The blocking time of `task` under the SRP single-blocking bound: the
/// maximum, over the resources `task` uses and the tasks of lower priority,
/// of the longest matching critical section; 0 where no pair qualifies.
pub open spec fn spec_blocking_time(
    task: Task,
    tasks: Seq<Task>,
    ip: Map<Seq<char>, u8>,
    tr: Map<Seq<char>, Seq<Seq<char>>>,
) -> int {
    if tr.contains_key(task.id@) {
        spec_block_over_resources(task, tasks, ip, tr[task.id@], tr[task.id@].len() as int)
    } else {
        0
    }
}

/// Whether the set holds some task of strictly lower priority than `task`.
pub open spec fn has_lower_priority_task(task: Task, tasks: Seq<Task>) -> bool {
    exists|i: int| 0 <= i < tasks.len() && tasks[i].prio < task.prio
}

/// Whether every ceiling that the blocking-time search of `task` looks up
/// is present in the ceiling map. A lookup happens only when some
/// lower-priority task exists.
pub open spec fn blocking_defined(
    task: Task,
    tasks: Seq<Task>,
    ip: Map<Seq<char>, u8>,
    tr: Map<Seq<char>, Seq<Seq<char>>>,
) -> bool {
    has_lower_priority_task(task, tasks) && tr.contains_key(task.id@) ==> forall|k: int|
        0 <= k < tr[task.id@].len() ==> ip.contains_key(#[trigger] tr[task.id@][k])
}

/// The longest single segment for `resource` anywhere in the trace tree,
/// not descending below a matching node.
pub fn fetch_block(trace: &Trace, resource: &String) -> (r: u32)
    requires
        valid_trace(*trace),
    ensures
        r == spec_fetch_block(*trace, resource@),
    decreases *trace,
{
    if trace.id == *resource {
        trace.end - trace.start
    } else {
        let mut block: u32 = 0;
        for i in 0..trace.inner.len()
            invariant
                valid_trace(*trace),
                trace.id@ != resource@,
                block == spec_fetch_block_upto(*trace, resource@, i as int),
            decreases trace.inner.len() - i,
        {
            let calculated = fetch_block(&trace.inner[i], resource);
            if calculated > block {
                block = calculated;
            }
        }
        block
    }
}

/// The worst-case blocking time of `task` within the set, using the derived
/// ceiling and usage maps; fails with the offending resource id where a
/// needed ceiling was never registered.
pub fn blocking_time(task: &Task, tasks: &Vec<Task>, ip: &IdPrio, tr: &TaskResources) -> (r:
    Result<u32, SrpError>)
    requires
        tasks_valid(tasks@),
        ip.wf(),
        tr.wf(),
    ensures
        r is Ok <==> blocking_defined(*task, tasks@, ip@, tr@),
        r matches Ok(b) ==> b == spec_blocking_time(*task, tasks@, ip@, tr@),
        r matches Err(e) ==> (e matches SrpError::MissingCeiling { resource }
            && tr@.contains_key(task.id@) && tr@[task.id@].contains(resource@)
            && !ip@.contains_key(resource@) && has_lower_priority_task(*task, tasks@)),
{
    let resources = match tr.get(&task.id) {
        Some(rs) => rs,
        None => {
            return Ok(0);
        },
    };
    let ghost rs_view = tr@[task.id@];
    let mut block: u32 = 0;
    proof {
        lemma_block_over_resources_nonneg(*task, tasks@, ip@, rs_view, rs_view.len() as int);
    }
    for ri in 0..resources.len()
        invariant
            tasks_valid(tasks@),
            ip.wf(),
            tr.wf(),
            tr@.contains_key(task.id@),
            resources.deep_view() == rs_view,
            rs_view == tr@[task.id@],
            block == spec_block_over_resources(*task, tasks@, ip@, rs_view, ri as int),
            has_lower_priority_task(*task, tasks@) ==> forall|k: int|
                0 <= k < ri ==> ip@.contains_key(#[trigger] rs_view[k]),
    {
        let r = &resources[ri];
        proof {
            assert(r@ == rs_view[ri as int]);
            lemma_block_over_resources_nonneg(*task, tasks@, ip@, rs_view, ri as int);
        }
        for ti in 0..tasks.len()
            invariant
                tasks_valid(tasks@),
                ip.wf(),
                tr@.contains_key(task.id@),
                rs_view == tr@[task.id@],
                0 <= ri < rs_view.len(),
                r@ == rs_view[ri as int],
                block == (if spec_block_over_tasks(*task, tasks@, ip@, r@, ti as int)
                    > spec_block_over_resources(*task, tasks@, ip@, rs_view, ri as int) {
                    spec_block_over_tasks(*task, tasks@, ip@, r@, ti as int)
                } else {
                    spec_block_over_resources(*task, tasks@, ip@, rs_view, ri as int)
                }),
                (exists|j: int| 0 <= j < ti && tasks@[j].prio < task.prio)
                    ==> ip@.contains_key(r@),
        {
            proof {
                lemma_block_over_tasks_nonneg(*task, tasks@, ip@, r@, ti as int);
                lemma_block_over_resources_nonneg(*task, tasks@, ip@, rs_view, ri as int);
            }
            let t = &tasks[ti];
            if t.prio < task.prio {
                let ceil = match ip.get(r) {
                    Some(c) => c,
                    None => {
                        proof {
                            assert(rs_view.contains(r@));
                            assert(tasks@[ti as int].prio < task.prio);
                            assert(has_lower_priority_task(*task, tasks@));
                            assert(!ip@.contains_key(tr@[task.id@][ri as int]));
                            assert(!blocking_defined(*task, tasks@, ip@, tr@));
                        }
                        return Err(SrpError::MissingCeiling { resource: r.clone() });
                    },
                };
                if ceil >= task.prio {
                    let calculated = fetch_block(&t.trace, r);
                    if calculated > block {
                        block = calculated;
                    }
                }
            }
        }
        proof {
            assert(block == spec_block_over_resources(*task, tasks@, ip@, rs_view, ri + 1));
        }
    }
    proof {
        if has_lower_priority_task(*task, tasks@) {
            assert(forall|k: int|
                0 <= k < tr@[task.id@].len() ==> ip@.contains_key(#[trigger] tr@[task.id@][k]));
        }
    }
    Ok(block)
}

/// The blocking time is never negative: it is a maximum over a set of
/// candidates that always includes 0.
pub proof fn lemma_blocking_time_nonneg(
    task: Task,
    tasks: Seq<Task>,
    ip: Map<Seq<char>, u8>,
    tr: Map<Seq<char>, Seq<Seq<char>>>,
)
    ensures
        spec_blocking_time(task, tasks, ip, tr) >= 0,
{
    if tr.contains_key(task.id@) {
        lemma_block_over_resources_nonneg(
            task,
            tasks,
            ip,
            tr[task.id@],
            tr[task.id@].len() as int,
        );
    }
}

/// The per-resource blocking fold never goes negative.
proof fn lemma_block_over_tasks_nonneg(
    task: Task,
    tasks: Seq<Task>,
    ip: Map<Seq<char>, u8>,
    r: Seq<char>,
    n: int,
)
    ensures
        spec_block_over_tasks(task, tasks, ip, r, n) >= 0,
    decreases n,
{
    if n > 0 {
        lemma_block_over_tasks_nonneg(task, tasks, ip, r, n - 1);
    }
}

/// The blocking fold over the resource set never goes negative.
proof fn lemma_block_over_resources_nonneg(
    task: Task,
    tasks: Seq<Task>,
    ip: Map<Seq<char>, u8>,
    rs: Seq<Seq<char>>,
    m: int,
)
    ensures
        spec_block_over_resources(task, tasks, ip, rs, m) >= 0,
    decreases m,
{
    if m > 0 {
        lemma_block_over_resources_nonneg(task, tasks, ip, rs, m - 1);
    }
}

} // verus!
