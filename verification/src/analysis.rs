//! Response-time composition: blocking time plus own execution time plus
//! preemption time, evaluated for every task of the set to produce the
//! analysis result rows.

use vstd::prelude::*;

use crate::blocking::blocking_defined;
use crate::blocking::blocking_time;
use crate::blocking::has_lower_priority_task;
use crate::blocking::spec_blocking_time;
use crate::maps::IdPrio;
use crate::maps::TaskResources;
use crate::model::SrpError;
use crate::model::Task;
use crate::model::spec_execution_time;
use crate::model::tasks_valid;
use crate::model::trace_has_degenerate_node;
use crate::model::valid_task;
use crate::model::validate_tasks;
use crate::preemption::PreemptionMode;
use crate::preemption::preemption_time;
use crate::preemption::spec_preemption_time;

verus! {

/// One analysis result row, as the reporting boundary consumes it.
pub struct ResultHolder {
    pub id: String,
    pub response_time: u32,
    pub execution_time: u32,
    pub blocking_time: u32,
    pub preemption_time: u32,
}

impl ResultHolder {
    /// Repackages one result tuple of `srp_analysis` as a named record.
    pub fn of_row(row: &(String, u32, u32, u32, u32)) -> (r: ResultHolder)
        ensures
            r.id@ == row.0@,
            r.response_time == row.1,
            r.execution_time == row.2,
            r.blocking_time == row.3,
            r.preemption_time == row.4,
    {
        ResultHolder {
            id: row.0.clone(),
            response_time: row.1,
            execution_time: row.2,
            blocking_time: row.3,
            preemption_time: row.4,
        }
    }
}

/// The preemption model selected by the external boolean flag.
pub open spec fn mode_of(exact: bool) -> PreemptionMode {
    if exact {
        PreemptionMode::Revisited
    } else {
        PreemptionMode::Approximation
    }
}

/// The worst-case response time of `task`: blocking plus own execution plus
/// preemption in the selected mode.
pub open spec fn spec_response_time(
    task: Task,
    tasks: Seq<Task>,
    ip: Map<Seq<char>, u8>,
    tr: Map<Seq<char>, Seq<Seq<char>>>,
    mode: PreemptionMode,
) -> int {
    spec_blocking_time(task, tasks, ip, tr) + spec_execution_time(task) + spec_preemption_time(
        task,
        tasks,
        ip,
        tr,
        mode,
    )
}

/// One result row of the analysis, over the mathematical views.
pub open spec fn spec_result_row(
    task: Task,
    tasks: Seq<Task>,
    ip: Map<Seq<char>, u8>,
    tr: Map<Seq<char>, Seq<Seq<char>>>,
    mode: PreemptionMode,
) -> (Seq<char>, int, int, int, int) {
    (
        task.id@,
        spec_response_time(task, tasks, ip, tr, mode),
        spec_execution_time(task),
        spec_blocking_time(task, tasks, ip, tr),
        spec_preemption_time(task, tasks, ip, tr, mode),
    )
}

/// The full analysis result, one row per task, in task-set order.
pub open spec fn spec_srp_rows(
    tasks: Seq<Task>,
    ip: Map<Seq<char>, u8>,
    tr: Map<Seq<char>, Seq<Seq<char>>>,
    mode: PreemptionMode,
) -> Seq<(Seq<char>, int, int, int, int)> {
    Seq::new(tasks.len(), |i: int| spec_result_row(tasks[i], tasks, ip, tr, mode))
}

/// The mathematical view of a vector of result tuples.
pub open spec fn rows_of(v: Seq<(String, u32, u32, u32, u32)>) -> Seq<
    (Seq<char>, int, int, int, int),
> {
    Seq::new(v.len(), |i: int| (v[i].0@, v[i].1 as int, v[i].2 as int, v[i].3 as int, v[i].4 as int))
}

/// Every blocking-time lookup of every task finds its ceiling.
pub open spec fn all_ceilings_found(
    tasks: Seq<Task>,
    ip: Map<Seq<char>, u8>,
    tr: Map<Seq<char>, Seq<Seq<char>>>,
) -> bool {
    forall|i: int| 0 <= i < tasks.len() ==> blocking_defined(#[trigger] tasks[i], tasks, ip, tr)
}

/// Whether every per-task result of the analysis fits the result width.
pub open spec fn results_fit(
    tasks: Seq<Task>,
    ip: Map<Seq<char>, u8>,
    tr: Map<Seq<char>, Seq<Seq<char>>>,
    mode: PreemptionMode,
) -> bool {
    forall|i: int|
        0 <= i < tasks.len() ==> spec_response_time(#[trigger] tasks[i], tasks, ip, tr, mode)
            <= u32::MAX
}

/// A task's own execution time: the extent of its root trace.
pub fn execution_time(task: &Task) -> (r: u32)
    requires
        valid_task(*task),
    ensures
        r == spec_execution_time(*task),
{
    task.trace.end - task.trace.start
}

/// The worst-case response time of one task, in the selected mode; fails
/// exactly where the blocking-time lookup does.
pub fn response_time(
    task: &Task,
    tasks: &Vec<Task>,
    ip: &IdPrio,
    tr: &TaskResources,
    mode: PreemptionMode,
) -> (r: Result<u32, SrpError>)
    requires
        tasks_valid(tasks@),
        valid_task(*task),
        ip.wf(),
        tr.wf(),
        spec_response_time(*task, tasks@, ip@, tr@, mode) <= u32::MAX,
    ensures
        r is Ok <==> blocking_defined(*task, tasks@, ip@, tr@),
        r matches Ok(t) ==> t == spec_response_time(*task, tasks@, ip@, tr@, mode),
        r matches Err(e) ==> (e matches SrpError::MissingCeiling { resource }
            && tr@.contains_key(task.id@) && tr@[task.id@].contains(resource@)
            && !ip@.contains_key(resource@) && has_lower_priority_task(*task, tasks@)),
{
    proof {
        lemma_response_parts_nonneg(*task, tasks@, ip@, tr@, mode);
    }
    let blocking = match blocking_time(task, tasks, ip, tr) {
        Ok(b) => b,
        Err(e) => {
            return Err(e);
        },
    };
    let execution = execution_time(task);
    let preemption = match preemption_time(task, tasks, ip, tr, mode) {
        Ok(p) => p,
        Err(e) => {
            return Err(e);
        },
    };
    let total: u64 = blocking as u64 + execution as u64 + preemption as u64;
    Ok(total as u32)
}

/// Blocking, execution and preemption times are each nonnegative, so each
/// is bounded by the composed response time.
pub proof fn lemma_response_parts_nonneg(
    task: Task,
    tasks: Seq<Task>,
    ip: Map<Seq<char>, u8>,
    tr: Map<Seq<char>, Seq<Seq<char>>>,
    mode: PreemptionMode,
)
    requires
        tasks_valid(tasks),
        valid_task(task),
    ensures
        spec_blocking_time(task, tasks, ip, tr) >= 0,
        spec_execution_time(task) >= 0,
        spec_preemption_time(task, tasks, ip, tr, mode) >= 0,
{
    crate::blocking::lemma_blocking_time_nonneg(task, tasks, ip, tr);
    match mode {
        PreemptionMode::Approximation => {
            crate::preemption::lemma_approx_upto_ordered(task, tasks, 0, tasks.len() as int);
        },
        PreemptionMode::Revisited => {
            let base = spec_blocking_time(task, tasks, ip, tr) + spec_execution_time(task);
            crate::preemption::lemma_rev_upto_ordered(task, tasks, base, 0, tasks.len() as int);
        },
    }
}

/// Runs the full SRP analysis: rejects a malformed task set, then emits one
/// result row per task, in task-set order — (id, response time, execution
/// time, blocking time, preemption time) — with the revisited preemption
/// model selected by `exact`.
pub fn srp_analysis(tasks: &Vec<Task>, ip: &IdPrio, tr: &TaskResources, exact: bool) -> (r: Result<
    Vec<(String, u32, u32, u32, u32)>,
    SrpError,
>)
    requires
        ip.wf(),
        tr.wf(),
        tasks_valid(tasks@) ==> results_fit(tasks@, ip@, tr@, mode_of(exact)),
    ensures
        r is Ok <==> tasks_valid(tasks@) && all_ceilings_found(tasks@, ip@, tr@),
        r matches Ok(v) ==> rows_of(v@) == spec_srp_rows(tasks@, ip@, tr@, mode_of(exact)),
        r matches Err(e) ==> match e {
            SrpError::DegenerateTime { id, start, end } => exists|i: int|
                0 <= i < tasks@.len() && trace_has_degenerate_node(
                    #[trigger] tasks@[i].trace,
                    id@,
                    start,
                    end,
                ),
            SrpError::ZeroPeriod { id } => exists|i: int|
                0 <= i < tasks@.len() && #[trigger] tasks@[i].id@ == id@
                    && tasks@[i].inter_arrival == 0,
            SrpError::MissingCeiling { resource } => !ip@.contains_key(resource@) && exists|i: int|
                0 <= i < tasks@.len() && tr@.contains_key(#[trigger] tasks@[i].id@)
                    && tr@[tasks@[i].id@].contains(resource@),
        },
{
    if let Err(e) = validate_tasks(tasks) {
        return Err(e);
    }
    let mode = if exact {
        PreemptionMode::Revisited
    } else {
        PreemptionMode::Approximation
    };
    let mut results: Vec<(String, u32, u32, u32, u32)> = Vec::new();
    for n in 0..tasks.len()
        invariant
            tasks_valid(tasks@),
            ip.wf(),
            tr.wf(),
            mode == mode_of(exact),
            results_fit(tasks@, ip@, tr@, mode),
            results@.len() == n,
            forall|j: int| 0 <= j < n ==> rows_of(results@)[j] == spec_srp_rows(
                tasks@,
                ip@,
                tr@,
                mode,
            )[j],
            forall|j: int|
                0 <= j < n ==> blocking_defined(#[trigger] tasks@[j], tasks@, ip@, tr@),
    {
        let t = &tasks[n];
        proof {
            lemma_response_parts_nonneg(tasks@[n as int], tasks@, ip@, tr@, mode);
        }
        let response = match response_time(t, tasks, ip, tr, mode) {
            Ok(x) => x,
            Err(e) => {
                return Err(e);
            },
        };
        let execution = execution_time(t);
        let blocking = match blocking_time(t, tasks, ip, tr) {
            Ok(x) => x,
            Err(e) => {
                return Err(e);
            },
        };
        let preemption = match preemption_time(t, tasks, ip, tr, mode) {
            Ok(x) => x,
            Err(e) => {
                return Err(e);
            },
        };
        let ghost prev_results = results@;
        results.push((t.id.clone(), response, execution, blocking, preemption));
        proof {
            assert forall|j: int| 0 <= j < n + 1 implies rows_of(results@)[j] == spec_srp_rows(
                tasks@,
                ip@,
                tr@,
                mode,
            )[j] by {
                if j < n {
                    assert(results@[j] == prev_results[j]);
                    assert(rows_of(prev_results)[j] == spec_srp_rows(tasks@, ip@, tr@, mode)[j]);
                }
            }
        }
    }
    proof {
        assert(all_ceilings_found(tasks@, ip@, tr@));
        assert(rows_of(results@) =~= spec_srp_rows(tasks@, ip@, tr@, mode));
    }
    Ok(results)
}

} // verus!
