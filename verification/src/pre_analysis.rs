//! Pre-analysis: one pass over the task set that derives the resource
//! priority-ceiling map and the task-to-resources usage map. Both maps are
//! read-only artifacts consumed by the blocking- and preemption-time
//! calculators.

use vstd::prelude::*;

use crate::maps::IdPrio;
use crate::maps::TaskResources;
use crate::model::Task;
use crate::model::Tasks;
use crate::model::Trace;
use crate::model::distinct_ids;
use crate::model::inner_contains;
use crate::model::trace_contains;

verus! {

/// Whether `id` names a node of one of the first `n` subtrees of `t`.
pub open spec fn contains_prefix(t: Trace, n: int, id: Seq<char>) -> bool {
    exists|j: int| 0 <= j < n && trace_contains(#[trigger] t.inner@[j], id)
}

/// The ceiling an id gets when a task of priority `prio` mentions it: the
/// recorded ceiling if that is at least `prio`, else `prio`.
pub open spec fn ceil_join(m: Map<Seq<char>, u8>, prio: u8, id: Seq<char>) -> u8 {
    if m.contains_key(id) && m[id] >= prio {
        m[id]
    } else {
        prio
    }
}

/// The ceiling map derived from the first `n` tasks: an id is present iff
/// some of those tasks' traces contains it, its value is achieved by one of
/// them and bounds the priority of all of them.
pub open spec fn ceiling_map_ok_upto(tasks: Seq<Task>, n: int, ip: Map<Seq<char>, u8>) -> bool {
    &&& (forall|id: Seq<char>| #[trigger] ip.contains_key(id) ==> exists|i: int|
        0 <= i < n && trace_contains(#[trigger] tasks[i].trace, id) && tasks[i].prio == ip[id])
    &&& (forall|id: Seq<char>, i: int|
        0 <= i < n && #[trigger] trace_contains(tasks[i].trace, id) ==> ip.contains_key(id)
            && tasks[i].prio <= ip[id])
}

/// The Resource-Ceiling Map invariant over the whole task set: the ceiling
/// of any id equals the maximum priority among the tasks whose trace
/// contains that id anywhere, ids equal to task ids included.
pub open spec fn ceiling_map_ok(tasks: Seq<Task>, ip: Map<Seq<char>, u8>) -> bool {
    ceiling_map_ok_upto(tasks, tasks.len() as int, ip)
}

/// The usage map derived from the first `n` tasks: a task's id is present
/// iff its root trace has inner segments, and then maps to exactly the ids
/// appearing anywhere in those inner subtrees.
/// Every key of the usage map names one of the first `n` tasks.
pub open spec fn usage_keys_ok_upto(
    tasks: Seq<Task>,
    n: int,
    tr: Map<Seq<char>, Seq<Seq<char>>>,
) -> bool {
    forall|k: Seq<char>| #[trigger] tr.contains_key(k) ==> exists|i: int|
        0 <= i < n && (#[trigger] tasks[i].id@) == k
}

/// The usage-map entries of the first `n` tasks are complete and exact.
pub open spec fn usage_entries_ok_upto(
    tasks: Seq<Task>,
    n: int,
    tr: Map<Seq<char>, Seq<Seq<char>>>,
) -> bool {
    &&& (forall|i: int|
        0 <= i < n ==> (tr.contains_key(#[trigger] tasks[i].id@) <==> tasks[i].trace.inner@.len()
            > 0))
    &&& (forall|i: int, rid: Seq<char>|
        #![trigger tr[tasks[i].id@].contains(rid)]
        #![trigger inner_contains(tasks[i].trace, rid)]
        0 <= i < n && tr.contains_key(tasks[i].id@) ==> (tr[tasks[i].id@].contains(rid)
            <==> inner_contains(tasks[i].trace, rid)))
}

pub open spec fn usage_map_ok_upto(
    tasks: Seq<Task>,
    n: int,
    tr: Map<Seq<char>, Seq<Seq<char>>>,
) -> bool {
    usage_keys_ok_upto(tasks, n, tr) && usage_entries_ok_upto(tasks, n, tr)
}

/// The Task-Resource Map invariant over the whole task set.
pub open spec fn usage_map_ok(tasks: Seq<Task>, tr: Map<Seq<char>, Seq<Seq<char>>>) -> bool {
    usage_map_ok_upto(tasks, tasks.len() as int, tr)
}

/// Raises the recorded ceiling of every id in the trace tree to at least
/// `prio`, first-seen ids entering at `prio` itself.
fn update_prio(prio: u8, trace: &Trace, hm: &mut IdPrio)
    requires
        old(hm).wf(),
    ensures
        final(hm).wf(),
        forall|id: Seq<char>| #[trigger] final(hm)@.contains_key(id) <==> old(hm)@.contains_key(id)
            || trace_contains(*trace, id),
        forall|id: Seq<char>| #[trigger] final(hm)@.contains_key(id) ==> final(hm)@[id] == (
        if trace_contains(*trace, id) {
            ceil_join(old(hm)@, prio, id)
        } else {
            old(hm)@[id]
        }),
    decreases *trace,
{
    match hm.get(&trace.id) {
        Some(old_prio) => {
            if prio > old_prio {
                hm.set(&trace.id, prio);
            }
        },
        None => {
            hm.set(&trace.id, prio);
        },
    }
    for i in 0..trace.inner.len()
        invariant
            hm.wf(),
            forall|id: Seq<char>| #[trigger] hm@.contains_key(id) <==> old(hm)@.contains_key(id)
                || trace.id@ == id || contains_prefix(*trace, i as int, id),
            forall|id: Seq<char>| #[trigger] hm@.contains_key(id) ==> hm@[id] == (
            if trace.id@ == id || contains_prefix(*trace, i as int, id) {
                ceil_join(old(hm)@, prio, id)
            } else {
                old(hm)@[id]
            }),
        decreases trace.inner.len() - i,
    {
        let ghost prev = hm@;
        update_prio(prio, &trace.inner[i], hm);
        proof {
            let c = trace.inner@[i as int];
            assert forall|id: Seq<char>| #[trigger] hm@.contains_key(id) implies hm@[id] == (
            if trace.id@ == id || contains_prefix(*trace, i + 1, id) {
                ceil_join(old(hm)@, prio, id)
            } else {
                old(hm)@[id]
            }) by {
                if trace_contains(c, id) {
                    assert(contains_prefix(*trace, i + 1, id));
                    assert(hm@[id] == ceil_join(prev, prio, id));
                } else {
                    assert(contains_prefix(*trace, i + 1, id) <==> contains_prefix(
                        *trace,
                        i as int,
                        id,
                    )) by {
                        assert(forall|j: int| 0 <= j < i + 1 && trace_contains(
                            #[trigger] trace.inner@[j],
                            id,
                        ) ==> j < i);
                    }
                }
            }
            assert forall|id: Seq<char>| #[trigger] hm@.contains_key(id) <==> old(
                hm,
            )@.contains_key(id) || trace.id@ == id || contains_prefix(*trace, i + 1, id) by {
                if contains_prefix(*trace, i + 1, id) && !trace_contains(c, id) {
                    assert(forall|j: int| 0 <= j < i + 1 && trace_contains(
                        #[trigger] trace.inner@[j],
                        id,
                    ) ==> j < i);
                }
            }
        }
    }
    proof {
        assert(forall|id: Seq<char>|
            trace_contains(*trace, id) <==> trace.id@ == id || contains_prefix(
                *trace,
                trace.inner@.len() as int,
                id,
            ));
    }
}

/// Inserts every id of the trace tree into the resource set of the task
/// named `s`, creating the set on first insertion.
fn update_tr(s: &String, trace: &Trace, trmap: &mut TaskResources)
    requires
        old(trmap).wf(),
    ensures
        final(trmap).wf(),
        forall|k: Seq<char>| #[trigger] final(trmap)@.contains_key(k) <==> old(
            trmap,
        )@.contains_key(k) || k == s@,
        forall|k: Seq<char>| #[trigger] old(trmap)@.contains_key(k) && k != s@ ==> final(trmap)@[k]
            == old(trmap)@[k],
        forall|rid: Seq<char>| #[trigger] final(trmap)@[s@].contains(rid) <==> (old(
            trmap,
        )@.contains_key(s@) && old(trmap)@[s@].contains(rid)) || trace_contains(*trace, rid),
    decreases *trace,
{
    trmap.add(s, &trace.id);
    for i in 0..trace.inner.len()
        invariant
            trmap.wf(),
            forall|k: Seq<char>| #[trigger] trmap@.contains_key(k) <==> old(
                trmap,
            )@.contains_key(k) || k == s@,
            forall|k: Seq<char>| #[trigger] old(trmap)@.contains_key(k) && k != s@ ==> trmap@[k]
                == old(trmap)@[k],
            forall|rid: Seq<char>| #[trigger] trmap@[s@].contains(rid) <==> (old(
                trmap,
            )@.contains_key(s@) && old(trmap)@[s@].contains(rid)) || trace.id@ == rid
                || contains_prefix(*trace, i as int, rid),
        decreases trace.inner.len() - i,
    {
        let ghost prev = trmap@;
        update_tr(s, &trace.inner[i], trmap);
        proof {
            let c = trace.inner@[i as int];
            assert forall|k: Seq<char>| #[trigger] old(trmap)@.contains_key(k) && k
                != s@ implies trmap@[k] == old(trmap)@[k] by {
                assert(prev.contains_key(k));
                assert(trmap@[k] == prev[k]);
            }
            assert forall|rid: Seq<char>| #[trigger] trmap@[s@].contains(rid) <==> (old(
                trmap,
            )@.contains_key(s@) && old(trmap)@[s@].contains(rid)) || trace.id@ == rid
                || contains_prefix(*trace, i + 1, rid) by {
                if !trace_contains(c, rid) {
                    assert(forall|j: int| 0 <= j < i + 1 && trace_contains(
                        #[trigger] trace.inner@[j],
                        rid,
                    ) ==> j < i);
                } else {
                    assert(contains_prefix(*trace, i + 1, rid));
                }
            }
        }
    }
    proof {
        assert(forall|rid: Seq<char>|
            trace_contains(*trace, rid) <==> trace.id@ == rid || contains_prefix(
                *trace,
                trace.inner@.len() as int,
                rid,
            ));
    }
}

/// Derives the Resource-Ceiling Map and the Task-Resource Map from the task
/// set in one pass. The ceiling of any id is the maximum priority among the
/// tasks whose trace contains it; a task's resource set holds exactly the
/// ids of its inner trace segments, flattened across nesting depth.
pub fn pre_analysis(tasks: &Tasks) -> (r: (IdPrio, TaskResources))
    requires
        distinct_ids(tasks@),
    ensures
        r.0.wf(),
        r.1.wf(),
        ceiling_map_ok(tasks@, r.0@),
        usage_map_ok(tasks@, r.1@),
{
    let mut ip = IdPrio::new();
    let mut tr = TaskResources::new();
    for n in 0..tasks.len()
        invariant
            ip.wf(),
            tr.wf(),
            distinct_ids(tasks@),
            ceiling_map_ok_upto(tasks@, n as int, ip@),
            usage_map_ok_upto(tasks@, n as int, tr@),
    {
        let t = &tasks[n];
        let ghost prev_ip = ip@;
        update_prio(t.prio, &t.trace, &mut ip);
        proof {
            lemma_ceiling_step(tasks@, n as int, prev_ip, ip@, t.prio);
        }
        for c in 0..t.trace.inner.len()
            invariant
                tr.wf(),
                distinct_ids(tasks@),
                0 <= n < tasks@.len(),
                *t == tasks@[n as int],
                usage_entries_ok_upto(tasks@, n as int, tr@),
                forall|k: Seq<char>| #[trigger] tr@.contains_key(k) ==> (exists|i: int|
                    0 <= i < n && (#[trigger] tasks@[i].id@) == k) || k == t.id@,
                tr@.contains_key(t.id@) <==> c > 0,
                forall|rid: Seq<char>| tr@.contains_key(t.id@) ==> (#[trigger] tr@[t.id@].contains(
                    rid,
                ) <==> contains_prefix(t.trace, c as int, rid)),
            decreases t.trace.inner.len() - c,
        {
            let ghost prev_tr = tr@;
            update_tr(&t.id, &t.trace.inner[c], &mut tr);
            proof {
                assert forall|i: int| 0 <= i < n implies tasks@[i].id@ != t.id@ by {
                    assert(distinct_ids(tasks@));
                }
                assert forall|i: int| 0 <= i < n implies (tr@.contains_key(
                    #[trigger] tasks@[i].id@,
                ) <==> tasks@[i].trace.inner@.len() > 0) by {
                    assert(tasks@[i].id@ != t.id@);
                    assert(tr@.contains_key(tasks@[i].id@) <==> prev_tr.contains_key(
                        tasks@[i].id@,
                    ));
                }
                assert forall|i: int, rid: Seq<char>|
                    #![trigger tr@[tasks@[i].id@].contains(rid)]
                    #![trigger inner_contains(tasks@[i].trace, rid)]
                    0 <= i < n && tr@.contains_key(tasks@[i].id@) implies (
                tr@[tasks@[i].id@].contains(rid) <==> inner_contains(
                    tasks@[i].trace,
                    rid,
                )) by {
                    assert(tasks@[i].id@ != t.id@);
                    assert(prev_tr.contains_key(tasks@[i].id@));
                    assert(tr@[tasks@[i].id@] == prev_tr[tasks@[i].id@]);
                    assert(prev_tr[tasks@[i].id@].contains(rid) <==> inner_contains(
                        tasks@[i].trace,
                        rid,
                    ));
                }
                assert forall|rid: Seq<char>| tr@.contains_key(t.id@) implies (
                #[trigger] tr@[t.id@].contains(rid) <==> contains_prefix(
                    t.trace,
                    c + 1,
                    rid,
                )) by {
                    let ch = t.trace.inner@[c as int];
                    if !trace_contains(ch, rid) {
                        assert(forall|j: int| 0 <= j < c + 1 && trace_contains(
                            #[trigger] t.trace.inner@[j],
                            rid,
                        ) ==> j < c);
                    } else {
                        assert(contains_prefix(t.trace, c + 1, rid));
                    }
                }
            }
        }
        proof {
            lemma_usage_step(tasks@, n as int, tr@);
        }
    }
    (ip, tr)
}

proof fn lemma_ceiling_step(
    tasks: Seq<Task>,
    n: int,
    prev: Map<Seq<char>, u8>,
    cur: Map<Seq<char>, u8>,
    prio: u8,
)
    requires
        0 <= n < tasks.len(),
        tasks[n].prio == prio,
        ceiling_map_ok_upto(tasks, n, prev),
        forall|id: Seq<char>| #[trigger] cur.contains_key(id) <==> prev.contains_key(id)
            || trace_contains(tasks[n].trace, id),
        forall|id: Seq<char>| #[trigger] cur.contains_key(id) ==> cur[id] == (
        if trace_contains(tasks[n].trace, id) {
            ceil_join(prev, prio, id)
        } else {
            prev[id]
        }),
    ensures
        ceiling_map_ok_upto(tasks, n + 1, cur),
{
    assert forall|id: Seq<char>| #[trigger] cur.contains_key(id) implies exists|i: int|
        0 <= i < n + 1 && trace_contains(#[trigger] tasks[i].trace, id) && tasks[i].prio
            == cur[id] by {
        if trace_contains(tasks[n].trace, id) {
            if prev.contains_key(id) && prev[id] >= prio {
                let i = choose|i: int|
                    0 <= i < n && trace_contains(#[trigger] tasks[i].trace, id) && tasks[i].prio
                        == prev[id];
                assert(trace_contains(tasks[i].trace, id) && tasks[i].prio == cur[id]);
            } else {
                assert(trace_contains(tasks[n].trace, id) && tasks[n].prio == cur[id]);
            }
        } else {
            let i = choose|i: int|
                0 <= i < n && trace_contains(#[trigger] tasks[i].trace, id) && tasks[i].prio
                    == prev[id];
            assert(trace_contains(tasks[i].trace, id) && tasks[i].prio == cur[id]);
        }
    }
    assert forall|id: Seq<char>, i: int|
        0 <= i < n + 1 && #[trigger] trace_contains(tasks[i].trace, id) implies cur.contains_key(
        id,
    ) && tasks[i].prio <= cur[id] by {
        if i < n {
            assert(prev.contains_key(id) && tasks[i].prio <= prev[id]);
            assert(cur.contains_key(id));
            if trace_contains(tasks[n].trace, id) {
                assert(cur[id] == ceil_join(prev, prio, id));
            } else {
                assert(cur[id] == prev[id]);
            }
        } else {
            assert(trace_contains(tasks[n].trace, id));
            assert(cur.contains_key(id));
            assert(cur[id] == ceil_join(prev, prio, id));
        }
    }
}

proof fn lemma_usage_step(tasks: Seq<Task>, n: int, tr: Map<Seq<char>, Seq<Seq<char>>>)
    requires
        0 <= n < tasks.len(),
        distinct_ids(tasks),
        usage_entries_ok_upto(tasks, n, tr),
        forall|k: Seq<char>| #[trigger] tr.contains_key(k) ==> (exists|i: int|
            0 <= i < n && (#[trigger] tasks[i].id@) == k) || k == tasks[n].id@,
        tr.contains_key(tasks[n].id@) <==> tasks[n].trace.inner@.len() > 0,
        forall|rid: Seq<char>| tr.contains_key(tasks[n].id@) ==> (
        #[trigger] tr[tasks[n].id@].contains(rid) <==> contains_prefix(
            tasks[n].trace,
            tasks[n].trace.inner@.len() as int,
            rid,
        )),
    ensures
        usage_map_ok_upto(tasks, n + 1, tr),
{
    assert forall|k: Seq<char>| #[trigger] tr.contains_key(k) implies exists|i: int|
        0 <= i < n + 1 && (#[trigger] tasks[i].id@) == k by {
        if !(exists|i: int| 0 <= i < n && (#[trigger] tasks[i].id@) == k) {
            assert(tasks[n].id@ == k);
        }
    }
    assert(forall|rid: Seq<char>|
        contains_prefix(tasks[n].trace, tasks[n].trace.inner@.len() as int, rid)
            <==> inner_contains(tasks[n].trace, rid));
}

} // verus!
