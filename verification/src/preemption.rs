//! Preemption-time calculation: the interference a task suffers from
//! higher-priority task activations, in two selectable models — a
//! closed-form approximation over the deadline window, and a "revisited"
//! variant that evaluates the response-time recurrence once from a base
//! case of blocking plus own execution.

use vstd::prelude::*;

use crate::blocking::blocking_defined;
use crate::blocking::blocking_time;
use crate::blocking::has_lower_priority_task;
use crate::blocking::spec_blocking_time;
use crate::maps::IdPrio;
use crate::maps::TaskResources;
use crate::model::SrpError;
use crate::model::Task;
use crate::model::spec_execution_time;
use crate::model::tasks_valid;
use crate::model::valid_task;

verus! {

/// Which preemption model the analysis uses.
#[derive(Clone, Copy, Debug)]
pub enum PreemptionMode {
    /// Bound the activations of each higher-priority task within the
    /// analyzed task's deadline window.
    Approximation,
    /// Evaluate the response-time recurrence once from the base case of
    /// blocking time plus own execution time.
    Revisited,
}

/// How many activations of a task with period `period` fit in a window of
/// length `window`, by the ceiling of the division.
pub open spec fn spec_activations(window: int, period: int) -> int {
    (window + period - 1) / period
}

/// The approximation-mode interference from the first `n` tasks: each
/// higher-priority task contributes its execution time once per activation
/// within `task`'s deadline window.
pub open spec fn spec_preemption_approx_upto(task: Task, tasks: Seq<Task>, n: int) -> int
    decreases n,
{
    if n <= 0 {
        0
    } else {
        spec_preemption_approx_upto(task, tasks, n - 1) + (if tasks[n - 1].prio > task.prio {
            spec_execution_time(tasks[n - 1]) * spec_activations(
                task.deadline as int,
                tasks[n - 1].inter_arrival as int,
            )
        } else {
            0
        })
    }
}

/// The approximation-mode preemption time of `task` within the set.
pub open spec fn spec_preemption_approx(task: Task, tasks: Seq<Task>) -> int {
    spec_preemption_approx_upto(task, tasks, tasks.len() as int)
}

/// The revisited-mode interference sum from the first `n` tasks, for a
/// given base case: each higher-priority task contributes its execution
/// time once per activation within a window of length `base`.
pub open spec fn spec_preemption_rev_upto(task: Task, tasks: Seq<Task>, base: int, n: int) -> int
    decreases n,
{
    if n <= 0 {
        0
    } else {
        spec_preemption_rev_upto(task, tasks, base, n - 1) + (if tasks[n - 1].prio > task.prio {
            spec_activations(base, tasks[n - 1].inter_arrival as int) * spec_execution_time(
                tasks[n - 1],
            )
        } else {
            0
        })
    }
}

/// The revisited-mode preemption time: the interference sum over a window
/// of blocking time plus own execution time; the base case is folded into
/// the result exactly when the sum is nonzero.
pub open spec fn spec_preemption_revisited(
    task: Task,
    tasks: Seq<Task>,
    ip: Map<Seq<char>, u8>,
    tr: Map<Seq<char>, Seq<Seq<char>>>,
) -> int {
    let base = spec_blocking_time(task, tasks, ip, tr) + spec_execution_time(task);
    let s = spec_preemption_rev_upto(task, tasks, base, tasks.len() as int);
    if s == 0 {
        0
    } else {
        s + base
    }
}

/// The preemption time of `task` in the selected mode.
pub open spec fn spec_preemption_time(
    task: Task,
    tasks: Seq<Task>,
    ip: Map<Seq<char>, u8>,
    tr: Map<Seq<char>, Seq<Seq<char>>>,
    mode: PreemptionMode,
) -> int {
    match mode {
        PreemptionMode::Approximation => spec_preemption_approx(task, tasks),
        PreemptionMode::Revisited => spec_preemption_revisited(task, tasks, ip, tr),
    }
}

/// Every term of the approximation fold is nonnegative, so prefixes are
/// ordered.
pub proof fn lemma_approx_upto_ordered(task: Task, tasks: Seq<Task>, a: int, b: int)
    requires
        tasks_valid(tasks),
        0 <= a <= b <= tasks.len(),
    ensures
        0 <= spec_preemption_approx_upto(task, tasks, a) <= spec_preemption_approx_upto(
            task,
            tasks,
            b,
        ),
    decreases b,
{
    if b > 0 {
        if a == b {
            lemma_approx_upto_ordered(task, tasks, 0, b - 1);
        } else {
            lemma_approx_upto_ordered(task, tasks, a, b - 1);
        }
        let t = tasks[b - 1];
        if t.prio > task.prio {
            assert(valid_task(t));
            vstd::arithmetic::div_mod::lemma_div_pos_is_pos(
                task.deadline + t.inter_arrival - 1,
                t.inter_arrival as int,
            );
            vstd::arithmetic::mul::lemma_mul_nonnegative(
                spec_execution_time(t),
                spec_activations(task.deadline as int, t.inter_arrival as int),
            );
        }
    }
}

/// Every term of the revisited fold is nonnegative when the base window is,
/// so prefixes are ordered.
pub proof fn lemma_rev_upto_ordered(task: Task, tasks: Seq<Task>, base: int, a: int, b: int)
    requires
        tasks_valid(tasks),
        base >= 0,
        0 <= a <= b <= tasks.len(),
    ensures
        0 <= spec_preemption_rev_upto(task, tasks, base, a) <= spec_preemption_rev_upto(
            task,
            tasks,
            base,
            b,
        ),
    decreases b,
{
    if b > 0 {
        if a == b {
            lemma_rev_upto_ordered(task, tasks, base, 0, b - 1);
        } else {
            lemma_rev_upto_ordered(task, tasks, base, a, b - 1);
        }
        let t = tasks[b - 1];
        if t.prio > task.prio {
            assert(valid_task(t));
            vstd::arithmetic::div_mod::lemma_div_pos_is_pos(
                base + t.inter_arrival - 1,
                t.inter_arrival as int,
            );
            vstd::arithmetic::mul::lemma_mul_nonnegative(
                spec_activations(base, t.inter_arrival as int),
                spec_execution_time(t),
            );
        }
    }
}

/// Approximation-mode preemption time: for each higher-priority task,
/// execution time times the activation bound within `task`'s deadline.
pub fn preemption_approximation(task: &Task, tasks: &Vec<Task>) -> (r: u32)
    requires
        tasks_valid(tasks@),
        spec_preemption_approx(*task, tasks@) <= u32::MAX,
    ensures
        r == spec_preemption_approx(*task, tasks@),
{
    let mut preemption: u64 = 0;
    for i in 0..tasks.len()
        invariant
            tasks_valid(tasks@),
            spec_preemption_approx(*task, tasks@) <= u32::MAX,
            preemption == spec_preemption_approx_upto(*task, tasks@, i as int),
    {
        let t = &tasks[i];
        if t.prio > task.prio {
            proof {
                lemma_approx_upto_ordered(*task, tasks@, i + 1, tasks@.len() as int);
                lemma_approx_upto_ordered(*task, tasks@, i as int, i + 1);
            }
            let e = (t.trace.end - t.trace.start) as u64;
            let q = ((task.deadline as u64) + (t.inter_arrival as u64) - 1) / (t.inter_arrival
                as u64);
            preemption = preemption + e * q;
        }
    }
    preemption as u32
}

/// Revisited-mode preemption time: one evaluation of the response-time
/// recurrence from the base case of blocking plus own execution; fails
/// exactly where the blocking-time lookup does.
pub fn preemption_revisited(task: &Task, tasks: &Vec<Task>, ip: &IdPrio, tr: &TaskResources) -> (r:
    Result<u32, SrpError>)
    requires
        tasks_valid(tasks@),
        valid_task(*task),
        ip.wf(),
        tr.wf(),
        spec_preemption_revisited(*task, tasks@, ip@, tr@) <= u32::MAX,
    ensures
        r is Ok <==> blocking_defined(*task, tasks@, ip@, tr@),
        r matches Ok(p) ==> p == spec_preemption_revisited(*task, tasks@, ip@, tr@),
        r matches Err(e) ==> (e matches SrpError::MissingCeiling { resource }
            && tr@.contains_key(task.id@) && tr@[task.id@].contains(resource@)
            && !ip@.contains_key(resource@) && has_lower_priority_task(*task, tasks@)),
{
    let blocking = match blocking_time(task, tasks, ip, tr) {
        Ok(b) => b,
        Err(e) => {
            return Err(e);
        },
    };
    let base: u64 = blocking as u64 + (task.trace.end - task.trace.start) as u64;
    let ghost base_spec = spec_blocking_time(*task, tasks@, ip@, tr@) + spec_execution_time(*task);
    let mut preemption: u64 = 0;
    for i in 0..tasks.len()
        invariant
            tasks_valid(tasks@),
            base == base_spec,
            base_spec == spec_blocking_time(*task, tasks@, ip@, tr@) + spec_execution_time(*task),
            base_spec >= 0,
            base <= u64::MAX - u32::MAX,
            spec_preemption_revisited(*task, tasks@, ip@, tr@) <= u32::MAX,
            preemption == spec_preemption_rev_upto(*task, tasks@, base_spec, i as int),
    {
        let t = &tasks[i];
        if t.prio > task.prio {
            proof {
                lemma_rev_upto_ordered(*task, tasks@, base_spec, i + 1, tasks@.len() as int);
                lemma_rev_upto_ordered(*task, tasks@, base_spec, i as int, i + 1);
                let s = spec_preemption_rev_upto(*task, tasks@, base_spec, tasks@.len() as int);
                if s != 0 {
                    assert(spec_preemption_revisited(*task, tasks@, ip@, tr@) == s + base_spec);
                }
            }
            let q = (base + (t.inter_arrival as u64) - 1) / (t.inter_arrival as u64);
            let e = (t.trace.end - t.trace.start) as u64;
            preemption = preemption + q * e;
        }
    }
    if preemption == 0 {
        Ok(0)
    } else {
        proof {
            assert(spec_preemption_revisited(*task, tasks@, ip@, tr@) == preemption + base_spec);
        }
        Ok((preemption + base) as u32)
    }
}

/// The preemption time of `task` in the selected mode; only the revisited
/// mode can fail, exactly where the blocking-time lookup does.
pub fn preemption_time(
    task: &Task,
    tasks: &Vec<Task>,
    ip: &IdPrio,
    tr: &TaskResources,
    mode: PreemptionMode,
) -> (r: Result<u32, SrpError>)
    requires
        tasks_valid(tasks@),
        valid_task(*task),
        ip.wf(),
        tr.wf(),
        spec_preemption_time(*task, tasks@, ip@, tr@, mode) <= u32::MAX,
    ensures
        r is Ok <==> (mode is Approximation || blocking_defined(*task, tasks@, ip@, tr@)),
        r matches Ok(p) ==> p == spec_preemption_time(*task, tasks@, ip@, tr@, mode),
        r matches Err(e) ==> (e matches SrpError::MissingCeiling { resource }
            && tr@.contains_key(task.id@) && tr@[task.id@].contains(resource@)
            && !ip@.contains_key(resource@) && has_lower_priority_task(*task, tasks@)),
{
    match mode {
        PreemptionMode::Approximation => Ok(preemption_approximation(task, tasks)),
        PreemptionMode::Revisited => preemption_revisited(task, tasks, ip, tr),
    }
}

} // verus!
