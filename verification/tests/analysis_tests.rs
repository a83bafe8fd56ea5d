use srp_analysis::blocking_time;
use srp_analysis::cpu_load_fraction;
use srp_analysis::execution_time;
use srp_analysis::fetch_block;
use srp_analysis::pre_analysis;
use srp_analysis::preemption_approximation;
use srp_analysis::srp_analysis;
use srp_analysis::validate_tasks;
use srp_analysis::IdPrio;
use srp_analysis::SrpError;
use srp_analysis::Task;
use srp_analysis::TaskResources;
use srp_analysis::Trace;

fn trace(id: &str, start: u32, end: u32, inner: Vec<Trace>) -> Trace {
    Trace { id: id.to_string(), start, end, inner }
}

fn task(id: &str, prio: u8, deadline: u32, inter_arrival: u32, tr: Trace) -> Task {
    Task { id: id.to_string(), prio, deadline, inter_arrival, trace: tr }
}

fn three_tasks() -> Vec<Task> {
    let t1 = task("T1", 1, 100, 100, trace("T1", 0, 10, vec![]));
    let t2 = task(
        "T2",
        2,
        200,
        200,
        trace(
            "T2",
            0,
            30,
            vec![
                trace("R1", 10, 20, vec![trace("R2", 12, 16, vec![])]),
                trace("R1", 22, 28, vec![]),
            ],
        ),
    );
    let t3 = task("T3", 3, 50, 50, trace("T3", 0, 30, vec![trace("R2", 10, 20, vec![])]));
    vec![t1, t2, t3]
}

#[test]
fn scenario_ceilings_and_usage() {
    let tasks = three_tasks();
    let (ip, tr) = pre_analysis(&tasks);
    assert_eq!(ip.get(&"T1".to_string()), Some(1));
    assert_eq!(ip.get(&"T2".to_string()), Some(2));
    assert_eq!(ip.get(&"T3".to_string()), Some(3));
    assert_eq!(ip.get(&"R1".to_string()), Some(2));
    assert_eq!(ip.get(&"R2".to_string()), Some(3));
    assert_eq!(ip.get(&"R7".to_string()), None);

    let t2_res = tr.get(&"T2".to_string()).unwrap();
    assert!(t2_res.iter().any(|r| r == "R1"));
    assert!(t2_res.iter().any(|r| r == "R2"));
    assert_eq!(t2_res.len(), 2);
    let t3_res = tr.get(&"T3".to_string()).unwrap();
    assert!(t3_res.iter().any(|r| r == "R2"));
    assert_eq!(t3_res.len(), 1);
    assert!(tr.get(&"T1".to_string()).is_none());
}

#[test]
fn scenario_execution_and_load() {
    let tasks = three_tasks();
    assert_eq!(execution_time(&tasks[0]), 10);
    assert_eq!(execution_time(&tasks[1]), 30);
    assert_eq!(execution_time(&tasks[2]), 30);
    // 10/100 + 30/200 + 30/50 = 0.85
    let (num, den) = cpu_load_fraction(&tasks).unwrap();
    assert_eq!(num, 850_000);
    assert_eq!(den, 1_000_000);
    assert!((num as f64 / den as f64 - 0.85).abs() < 1e-12);
}

#[test]
fn scenario_blocking_times() {
    let tasks = three_tasks();
    let (ip, tr) = pre_analysis(&tasks);
    // T1 and T2 have no lower-priority holder of a qualifying resource.
    assert_eq!(blocking_time(&tasks[0], &tasks, &ip, &tr).unwrap(), 0);
    assert_eq!(blocking_time(&tasks[1], &tasks, &ip, &tr).unwrap(), 0);
    // T3 (prio 3) can be blocked by T2 (prio 2 < 3) on R2, whose ceiling 3
    // >= 3; the longest R2 segment in T2's trace is [12,16].
    assert_eq!(blocking_time(&tasks[2], &tasks, &ip, &tr).unwrap(), 4);
}

#[test]
fn scenario_full_analysis_approximation() {
    let tasks = three_tasks();
    let (ip, tr) = pre_analysis(&tasks);
    let rows = srp_analysis(&tasks, &ip, &tr, false).unwrap();
    assert_eq!(rows.len(), 3);
    assert_eq!(rows[0], ("T1".to_string(), 100, 10, 0, 90));
    assert_eq!(rows[1], ("T2".to_string(), 150, 30, 0, 120));
    assert_eq!(rows[2], ("T3".to_string(), 34, 30, 4, 0));
}

#[test]
fn scenario_full_analysis_revisited() {
    let tasks = three_tasks();
    let (ip, tr) = pre_analysis(&tasks);
    let rows = srp_analysis(&tasks, &ip, &tr, true).unwrap();
    assert_eq!(rows[0], ("T1".to_string(), 80, 10, 0, 70));
    assert_eq!(rows[1], ("T2".to_string(), 90, 30, 0, 60));
    assert_eq!(rows[2], ("T3".to_string(), 34, 30, 4, 0));
}

#[test]
fn fetch_block_takes_longest_segment() {
    let tasks = three_tasks();
    assert_eq!(fetch_block(&tasks[1].trace, &"R1".to_string()), 10);
    assert_eq!(fetch_block(&tasks[1].trace, &"R2".to_string()), 4);
    assert_eq!(fetch_block(&tasks[1].trace, &"R9".to_string()), 0);
}

#[test]
fn fetch_block_does_not_descend_below_match() {
    let t = trace("R1", 0, 5, vec![trace("R1", 0, 100, vec![])]);
    assert_eq!(fetch_block(&t, &"R1".to_string()), 5);
}

#[test]
fn blocking_zero_without_inner_segments() {
    // A task with no inner trace segments has blocking time 0.
    let tasks = vec![
        task("A", 2, 10, 10, trace("A", 0, 5, vec![])),
        task("B", 1, 20, 20, trace("B", 0, 8, vec![trace("R", 1, 7, vec![])])),
    ];
    let (ip, tr) = pre_analysis(&tasks);
    assert_eq!(blocking_time(&tasks[0], &tasks, &ip, &tr).unwrap(), 0);
}

#[test]
fn blocking_zero_without_lower_priority_task() {
    // No task has priority lower than A's, so nothing can block A.
    let tasks = vec![
        task("A", 1, 10, 10, trace("A", 0, 5, vec![trace("R", 1, 4, vec![])])),
        task("B", 2, 20, 20, trace("B", 0, 8, vec![trace("R", 1, 7, vec![])])),
        task("C", 3, 30, 30, trace("C", 0, 3, vec![trace("R", 1, 2, vec![])])),
    ];
    let (ip, tr) = pre_analysis(&tasks);
    assert_eq!(blocking_time(&tasks[0], &tasks, &ip, &tr).unwrap(), 0);
}

#[test]
fn load_is_additive_on_disjoint_sets() {
    let a = vec![
        task("A1", 1, 10, 10, trace("A1", 0, 2, vec![])),
        task("A2", 2, 40, 40, trace("A2", 0, 6, vec![])),
    ];
    let b = vec![task("B1", 3, 25, 25, trace("B1", 0, 5, vec![]))];
    let mut ab = vec![
        task("A1", 1, 10, 10, trace("A1", 0, 2, vec![])),
        task("A2", 2, 40, 40, trace("A2", 0, 6, vec![])),
    ];
    ab.push(task("B1", 3, 25, 25, trace("B1", 0, 5, vec![])));
    let (na, da) = cpu_load_fraction(&a).unwrap();
    let (nb, db) = cpu_load_fraction(&b).unwrap();
    let (nab, dab) = cpu_load_fraction(&ab).unwrap();
    assert_eq!(dab, da * db);
    assert_eq!(nab, na * db + nb * da);
}

#[test]
fn approximation_preemption_monotonic_in_execution_time() {
    let low = task("L", 1, 100, 100, trace("L", 0, 10, vec![]));
    let mut prev: u32 = 0;
    for end in [10u32, 15, 20, 30] {
        let tasks = vec![
            task("L", 1, 100, 100, trace("L", 0, 10, vec![])),
            task("H", 2, 50, 50, trace("H", 0, end, vec![])),
        ];
        let p = preemption_approximation(&low, &tasks);
        assert!(p >= prev);
        prev = p;
    }
    assert!(prev > 0);
}

#[test]
fn repeated_analysis_is_identical() {
    let tasks = three_tasks();
    let (ip, tr) = pre_analysis(&tasks);
    let first = srp_analysis(&tasks, &ip, &tr, true).unwrap();
    let second = srp_analysis(&tasks, &ip, &tr, true).unwrap();
    assert_eq!(first, second);
    let third = srp_analysis(&tasks, &ip, &tr, false).unwrap();
    let fourth = srp_analysis(&tasks, &ip, &tr, false).unwrap();
    assert_eq!(third, fourth);
}

#[test]
fn highest_priority_task_sees_no_preemption() {
    let tasks = three_tasks();
    // T3 carries the numerically highest priority, so no task qualifies as
    // higher-priority in approximation mode.
    assert_eq!(preemption_approximation(&tasks[2], &tasks), 0);
}

#[test]
fn degenerate_time_is_rejected() {
    let tasks = vec![task("A", 1, 10, 10, trace("A", 9, 3, vec![]))];
    let err = validate_tasks(&tasks).unwrap_err();
    match err {
        SrpError::DegenerateTime { id, start, end } => {
            assert_eq!(id, "A");
            assert_eq!(start, 9);
            assert_eq!(end, 3);
        },
        _ => panic!("wrong error variant"),
    }
    let (ip, tr) = pre_analysis(&tasks);
    assert!(matches!(
        srp_analysis(&tasks, &ip, &tr, false),
        Err(SrpError::DegenerateTime { .. })
    ));
}

#[test]
fn nested_degenerate_time_is_rejected() {
    let tasks = vec![task(
        "A",
        1,
        10,
        10,
        trace("A", 0, 9, vec![trace("R", 5, 2, vec![])]),
    )];
    assert!(matches!(
        validate_tasks(&tasks),
        Err(SrpError::DegenerateTime { .. })
    ));
}

#[test]
fn zero_period_is_rejected() {
    let tasks = vec![task("A", 1, 10, 0, trace("A", 0, 5, vec![]))];
    match validate_tasks(&tasks).unwrap_err() {
        SrpError::ZeroPeriod { id } => assert_eq!(id, "A"),
        _ => panic!("wrong error variant"),
    }
    let (ip, tr) = pre_analysis(&tasks);
    assert!(matches!(
        srp_analysis(&tasks, &ip, &tr, true),
        Err(SrpError::ZeroPeriod { .. })
    ));
}

#[test]
fn missing_ceiling_is_reported() {
    let tasks = vec![
        task("A", 5, 10, 10, trace("A", 0, 5, vec![trace("R9", 1, 4, vec![])])),
        task("B", 1, 20, 20, trace("B", 0, 3, vec![])),
    ];
    // A usage map that records R9 for A, beside a ceiling map that never
    // registered R9.
    let ip = IdPrio::new();
    let mut tr = TaskResources::new();
    tr.add(&"A".to_string(), &"R9".to_string());
    match blocking_time(&tasks[0], &tasks, &ip, &tr).unwrap_err() {
        SrpError::MissingCeiling { resource } => assert_eq!(resource, "R9"),
        _ => panic!("wrong error variant"),
    }
    assert!(matches!(
        srp_analysis(&tasks, &ip, &tr, false),
        Err(SrpError::MissingCeiling { .. })
    ));
}

#[test]
fn empty_task_set_is_trivial() {
    let tasks: Vec<Task> = vec![];
    let (ip, tr) = pre_analysis(&tasks);
    assert_eq!(ip.get(&"X".to_string()), None);
    assert!(tr.get(&"X".to_string()).is_none());
    assert_eq!(cpu_load_fraction(&tasks).unwrap(), (0, 1));
    assert_eq!(srp_analysis(&tasks, &ip, &tr, false).unwrap(), vec![]);
}

#[test]
fn load_fraction_overflow_is_detected() {
    let p = u32::MAX;
    let tasks = vec![
        task("A", 1, p, p, trace("A", 0, 1, vec![])),
        task("B", 2, p, p, trace("B", 0, 1, vec![])),
        task("C", 3, p, p, trace("C", 0, 1, vec![])),
    ];
    assert_eq!(cpu_load_fraction(&tasks), None);
}

#[test]
fn result_holder_carries_row_fields() {
    let row = ("T9".to_string(), 41u32, 7u32, 3u32, 31u32);
    let holder = srp_analysis::ResultHolder::of_row(&row);
    assert_eq!(holder.id, "T9");
    assert_eq!(holder.response_time, 41);
    assert_eq!(holder.execution_time, 7);
    assert_eq!(holder.blocking_time, 3);
    assert_eq!(holder.preemption_time, 31);
}
