//! The task model: tasks, nested execution traces, their validity, and the
//! error type with which a malformed task set is rejected.

use vstd::prelude::*;

verus! {

/// One node of a task's execution trace: the whole job at the root (where
/// `id` is the owning task's id) or a critical section on the resource named
/// `id` below it. `start` and `end` are offsets in time units from job
/// release; `inner` holds the nested critical sections, in order. The same
/// resource id may recur at different nodes: that represents re-entering the
/// resource at another point of the job.
#[derive(Debug)]
pub struct Trace {
    pub id: String,
    pub start: u32,
    pub end: u32,
    pub inner: Vec<Trace>,
}

/// A periodic or sporadic task. Larger `prio` means more urgent; priorities
/// are compared strictly, ids are unique across a task set. `deadline` is
/// relative to release, `inter_arrival` is the minimum period and must be
/// positive. The trace describes one representative job instance.
#[derive(Debug)]
pub struct Task {
    pub id: String,
    pub prio: u8,
    pub deadline: u32,
    pub inter_arrival: u32,
    pub trace: Trace,
}

/// A task set.
pub type Tasks = Vec<Task>;

/// Why a task set was rejected, with enough context to locate the offence.
#[derive(Debug)]
pub enum SrpError {
    /// A trace node whose end offset lies before its start offset.
    DegenerateTime { id: String, start: u32, end: u32 },
    /// A task whose minimum inter-arrival period is zero.
    ZeroPeriod { id: String },
    /// A blocking-time lookup asked for the ceiling of a resource that was
    /// never registered in the ceiling map.
    MissingCeiling { resource: String },
}

/// Whether `id` names some node of the trace tree `t`, at any depth, the
/// root included.
pub open spec fn trace_contains(t: Trace, id: Seq<char>) -> bool
    decreases t,
{
    t.id@ == id || exists|i: int|
        0 <= i < t.inner@.len() && trace_contains(#[trigger] t.inner@[i], id)
}

/// Whether `id` names some node strictly below the root of `t`.
pub open spec fn inner_contains(t: Trace, id: Seq<char>) -> bool {
    exists|i: int| 0 <= i < t.inner@.len() && trace_contains(#[trigger] t.inner@[i], id)
}

/// Every node of the trace has `start <= end`.
pub open spec fn valid_trace(t: Trace) -> bool
    decreases t,
{
    t.start <= t.end && forall|i: int|
        0 <= i < t.inner@.len() ==> valid_trace(#[trigger] t.inner@[i])
}

/// The task's trace is well-formed and its period is positive.
pub open spec fn valid_task(t: Task) -> bool {
    valid_trace(t.trace) && t.inter_arrival > 0
}

/// Every task of the set is valid.
pub open spec fn tasks_valid(s: Seq<Task>) -> bool {
    forall|i: int| 0 <= i < s.len() ==> valid_task(#[trigger] s[i])
}

/// No two tasks of the set share an id.
pub open spec fn distinct_ids(s: Seq<Task>) -> bool {
    forall|i: int, j: int| 0 <= i < j < s.len() ==> s[i].id@ != s[j].id@
}

/// A task's own execution time: the extent of its root trace.
pub open spec fn spec_execution_time(t: Task) -> int {
    t.trace.end - t.trace.start
}

/// Whether some node of `t` carries exactly this id, start and end, with the
/// end offset before the start offset.
pub open spec fn trace_has_degenerate_node(t: Trace, id: Seq<char>, start: u32, end: u32) -> bool
    decreases t,
{
    (t.id@ == id && t.start == start && t.end == end && end < start) || exists|i: int|
        0 <= i < t.inner@.len() && trace_has_degenerate_node(#[trigger] t.inner@[i], id, start, end)
}

/// Checks that every node of the trace has `start <= end`; on failure reports
/// the first offending node in pre-order.
fn check_trace(t: &Trace) -> (r: Result<(), SrpError>)
    ensures
        r is Ok <==> valid_trace(*t),
        r matches Err(e) ==> (e matches SrpError::DegenerateTime { id, start, end }
            && trace_has_degenerate_node(*t, id@, start, end)),
    decreases *t,
{
    if t.end < t.start {
        return Err(SrpError::DegenerateTime { id: t.id.clone(), start: t.start, end: t.end });
    }
    for i in 0..t.inner.len()
        invariant
            t.start <= t.end,
            forall|j: int| 0 <= j < i ==> valid_trace(#[trigger] t.inner@[j]),
        decreases t.inner.len() - i,
    {
        let r = check_trace(&t.inner[i]);
        if let Err(e) = r {
            proof {
                assert(!valid_trace(t.inner@[i as int]));
            }
            return Err(e);
        }
    }
    Ok(())
}

/// Rejects a task set that holds a degenerate time interval (a trace node
/// with `end < start`) or a zero period; accepts exactly the valid sets.
pub fn validate_tasks(tasks: &Tasks) -> (r: Result<(), SrpError>)
    ensures
        r is Ok <==> tasks_valid(tasks@),
        r matches Err(e) ==> match e {
            SrpError::DegenerateTime { id, start, end } => exists|i: int|
                0 <= i < tasks@.len() && trace_has_degenerate_node(
                    #[trigger] tasks@[i].trace,
                    id@,
                    start,
                    end,
                ),
            SrpError::ZeroPeriod { id } => exists|i: int|
                0 <= i < tasks@.len() && #[trigger] tasks@[i].id@ == id@
                    && tasks@[i].inter_arrival == 0,
            SrpError::MissingCeiling { .. } => false,
        },
{
    for i in 0..tasks.len()
        invariant
            forall|j: int| 0 <= j < i ==> valid_task(#[trigger] tasks@[j]),
    {
        let t = &tasks[i];
        if let Err(e) = check_trace(&t.trace) {
            return Err(e);
        }
        if t.inter_arrival == 0 {
            let id = t.id.clone();
            proof {
                assert(tasks@[i as int].id@ == id@ && tasks@[i as int].inter_arrival == 0);
            }
            return Err(SrpError::ZeroPeriod { id });
        }
    }
    Ok(())
}

} // verus!
