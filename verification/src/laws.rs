//! General laws of the analysis, stated over the same spec functions that
//! the executable functions' contracts use, and proved once and for all.

use vstd::prelude::*;

use crate::analysis::all_ceilings_found;
use crate::analysis::rows_of;
use crate::analysis::spec_srp_rows;
use crate::blocking::blocking_defined;
use crate::blocking::spec_block_over_resources;
use crate::blocking::spec_block_over_tasks;
use crate::blocking::spec_blocking_time;
use crate::load::spec_load_den;
use crate::load::spec_load_num;
use crate::model::Task;
use crate::model::spec_execution_time;
use crate::model::tasks_valid;
use crate::model::valid_task;
use crate::model::inner_contains;
use crate::model::trace_contains;
use crate::pre_analysis::ceiling_map_ok;
use crate::pre_analysis::usage_map_ok;
use crate::preemption::PreemptionMode;
use crate::preemption::spec_activations;
use crate::preemption::spec_preemption_approx;
use crate::preemption::spec_preemption_approx_upto;

verus! {

/// A task with no inner trace segments uses no resources, so its blocking
/// time is zero under any usage map derived from the set it belongs to.
pub proof fn lemma_no_inner_no_blocking(
    task: Task,
    tasks: Seq<Task>,
    ip: Map<Seq<char>, u8>,
    tr: Map<Seq<char>, Seq<Seq<char>>>,
    i: int,
)
    requires
        0 <= i < tasks.len(),
        tasks[i] == task,
        usage_map_ok(tasks, tr),
        task.trace.inner@.len() == 0,
    ensures
        spec_blocking_time(task, tasks, ip, tr) == 0,
{
    assert(!tr.contains_key(task.id@));
}

/// Without a strictly lower-priority task no pair qualifies in the blocking
/// search for any single resource.
proof fn lemma_block_over_tasks_zero(
    task: Task,
    tasks: Seq<Task>,
    ip: Map<Seq<char>, u8>,
    r: Seq<char>,
    n: int,
)
    requires
        forall|j: int| 0 <= j < tasks.len() ==> (#[trigger] tasks[j].prio) >= task.prio,
        n <= tasks.len(),
    ensures
        spec_block_over_tasks(task, tasks, ip, r, n) == 0,
    decreases n,
{
    if n > 0 {
        lemma_block_over_tasks_zero(task, tasks, ip, r, n - 1);
    }
}

/// Without a strictly lower-priority task the blocking fold stays zero over
/// every resource.
proof fn lemma_block_over_resources_zero(
    task: Task,
    tasks: Seq<Task>,
    ip: Map<Seq<char>, u8>,
    rs: Seq<Seq<char>>,
    m: int,
)
    requires
        forall|j: int| 0 <= j < tasks.len() ==> (#[trigger] tasks[j].prio) >= task.prio,
    ensures
        spec_block_over_resources(task, tasks, ip, rs, m) == 0,
    decreases m,
{
    if m > 0 {
        lemma_block_over_resources_zero(task, tasks, ip, rs, m - 1);
        lemma_block_over_tasks_zero(task, tasks, ip, rs[m - 1], tasks.len() as int);
    }
}

/// Where no task of the set has priority lower than `task`'s, the blocking
/// time of `task` is zero, whatever maps are supplied.
pub proof fn lemma_no_lower_priority_no_blocking(
    task: Task,
    tasks: Seq<Task>,
    ip: Map<Seq<char>, u8>,
    tr: Map<Seq<char>, Seq<Seq<char>>>,
)
    requires
        forall|j: int| 0 <= j < tasks.len() ==> (#[trigger] tasks[j].prio) >= task.prio,
    ensures
        spec_blocking_time(task, tasks, ip, tr) == 0,
{
    if tr.contains_key(task.id@) {
        lemma_block_over_resources_zero(
            task,
            tasks,
            ip,
            tr[task.id@],
            tr[task.id@].len() as int,
        );
    }
}

/// Utilization is additive: joining two task sets multiplies the
/// denominators and cross-multiplies the numerators, which is exactly the
/// sum of the two loads as fractions.
pub proof fn lemma_cpu_load_additive(a: Seq<Task>, b: Seq<Task>)
    ensures
        spec_load_den(a + b) == spec_load_den(a) * spec_load_den(b),
        spec_load_num(a + b) == spec_load_num(a) * spec_load_den(b) + spec_load_num(b)
            * spec_load_den(a),
    decreases b.len(),
{
    if b.len() == 0 {
        assert(a + b =~= a);
        assert(spec_load_den(a) * 1 == spec_load_den(a)) by (nonlinear_arith);
        assert(spec_load_num(a) * 1 + 0 * spec_load_den(a) == spec_load_num(a))
            by (nonlinear_arith);
    } else {
        let b0 = b.drop_last();
        let t = b.last();
        lemma_cpu_load_additive(a, b0);
        assert((a + b).drop_last() =~= a + b0);
        assert((a + b).last() == t);
        let na = spec_load_num(a);
        let da = spec_load_den(a);
        let n0 = spec_load_num(b0);
        let d0 = spec_load_den(b0);
        let nab0 = spec_load_num(a + b0);
        let dab0 = spec_load_den(a + b0);
        let e = t.trace.end - t.trace.start;
        let p = t.inter_arrival as int;
        assert(spec_load_den(a + b) == dab0 * p);
        assert(spec_load_num(a + b) == nab0 * p + e * dab0);
        assert(spec_load_den(b) == d0 * p);
        assert(spec_load_num(b) == n0 * p + e * d0);
        assert(dab0 * p == da * (d0 * p)) by (nonlinear_arith)
            requires
                dab0 == da * d0,
        ;
        assert(nab0 * p == na * d0 * p + n0 * da * p) by (nonlinear_arith)
            requires
                nab0 == na * d0 + n0 * da,
        ;
        assert(e * dab0 == e * da * d0) by (nonlinear_arith)
            requires
                dab0 == da * d0,
        ;
        assert(na * (d0 * p) == na * d0 * p) by (nonlinear_arith);
        assert((n0 * p + e * d0) * da == n0 * da * p + e * da * d0) by (nonlinear_arith);
    }
}

/// Raising the execution time of one higher-priority task, all else fixed,
/// never lowers a prefix of the approximation-mode interference sum.
proof fn lemma_approx_upto_pointwise(task: Task, s1: Seq<Task>, s2: Seq<Task>, k: int, n: int)
    requires
        tasks_valid(s1),
        tasks_valid(s2),
        s1.len() == s2.len(),
        0 <= k < s1.len(),
        forall|i: int| 0 <= i < s1.len() && i != k ==> s1[i] == s2[i],
        s2[k].prio == s1[k].prio,
        s2[k].inter_arrival == s1[k].inter_arrival,
        spec_execution_time(s1[k]) <= spec_execution_time(s2[k]),
        0 <= n <= s1.len(),
    ensures
        spec_preemption_approx_upto(task, s1, n) <= spec_preemption_approx_upto(task, s2, n),
    decreases n,
{
    if n > 0 {
        lemma_approx_upto_pointwise(task, s1, s2, k, n - 1);
        if n - 1 == k && s1[k].prio > task.prio {
            let q = spec_activations(task.deadline as int, s1[k].inter_arrival as int);
            assert(valid_task(s1[k]));
            vstd::arithmetic::div_mod::lemma_div_pos_is_pos(
                task.deadline + s1[k].inter_arrival - 1,
                s1[k].inter_arrival as int,
            );
            vstd::arithmetic::mul::lemma_mul_inequality(
                spec_execution_time(s1[k]),
                spec_execution_time(s2[k]),
                q,
            );
        }
    }
}

/// Approximation-mode preemption time is monotonically non-decreasing as a
/// higher-priority task's execution time increases, all else fixed.
pub proof fn lemma_preemption_approx_monotonic(task: Task, s1: Seq<Task>, s2: Seq<Task>, k: int)
    requires
        tasks_valid(s1),
        tasks_valid(s2),
        s1.len() == s2.len(),
        0 <= k < s1.len(),
        forall|i: int| 0 <= i < s1.len() && i != k ==> s1[i] == s2[i],
        s2[k].prio == s1[k].prio,
        s2[k].inter_arrival == s1[k].inter_arrival,
        s1[k].prio > task.prio,
        spec_execution_time(s1[k]) <= spec_execution_time(s2[k]),
    ensures
        spec_preemption_approx(task, s1) <= spec_preemption_approx(task, s2),
{
    lemma_approx_upto_pointwise(task, s1, s2, k, s1.len() as int);
}

/// Response-time composition is idempotent: the result rows are a function
/// of the task set, the maps and the mode alone, so two runs on identical
/// inputs agree row for row.
pub proof fn lemma_srp_analysis_idempotent(
    tasks: Seq<Task>,
    ip: Map<Seq<char>, u8>,
    tr: Map<Seq<char>, Seq<Seq<char>>>,
    mode: PreemptionMode,
    v1: Seq<(String, u32, u32, u32, u32)>,
    v2: Seq<(String, u32, u32, u32, u32)>,
)
    requires
        rows_of(v1) == spec_srp_rows(tasks, ip, tr, mode),
        rows_of(v2) == spec_srp_rows(tasks, ip, tr, mode),
    ensures
        rows_of(v1) == rows_of(v2),
{
}

/// A task whose priority is highest among all tasks sees no qualifying
/// higher-priority task in a prefix of the approximation sum.
proof fn lemma_approx_upto_zero(task: Task, tasks: Seq<Task>, n: int)
    requires
        forall|j: int| 0 <= j < tasks.len() ==> (#[trigger] tasks[j].prio) <= task.prio,
        n <= tasks.len(),
    ensures
        spec_preemption_approx_upto(task, tasks, n) == 0,
    decreases n,
{
    if n > 0 {
        lemma_approx_upto_zero(task, tasks, n - 1);
    }
}

/// A task whose priority is highest among all tasks has approximation-mode
/// preemption time zero: no task qualifies as higher-priority.
pub proof fn lemma_highest_priority_no_preemption(task: Task, tasks: Seq<Task>)
    requires
        forall|j: int| 0 <= j < tasks.len() ==> (#[trigger] tasks[j].prio) <= task.prio,
    ensures
        spec_preemption_approx(task, tasks) == 0,
{
    lemma_approx_upto_zero(task, tasks, tasks.len() as int);
}

/// With the two maps that pre-analysis derives from the task set itself, a
/// blocking-time lookup can never miss a ceiling: every resource a task
/// uses appears in its trace, so pre-analysis registered a ceiling for it.
pub proof fn lemma_derived_maps_have_all_ceilings(
    tasks: Seq<Task>,
    ip: Map<Seq<char>, u8>,
    tr: Map<Seq<char>, Seq<Seq<char>>>,
)
    requires
        ceiling_map_ok(tasks, ip),
        usage_map_ok(tasks, tr),
    ensures
        all_ceilings_found(tasks, ip, tr),
{
    assert forall|i: int| 0 <= i < tasks.len() implies blocking_defined(
        #[trigger] tasks[i],
        tasks,
        ip,
        tr,
    ) by {
        let task = tasks[i];
        if tr.contains_key(task.id@) {
            assert forall|k: int| 0 <= k < tr[task.id@].len() implies ip.contains_key(
                #[trigger] tr[task.id@][k],
            ) by {
                let rid = tr[task.id@][k];
                assert(tr[task.id@].contains(rid));
                assert(inner_contains(task.trace, rid));
                let j = choose|j: int|
                    0 <= j < task.trace.inner@.len() && trace_contains(
                        #[trigger] task.trace.inner@[j],
                        rid,
                    );
                assert(trace_contains(task.trace, rid));
            }
        }
    }
}

} // verus!

