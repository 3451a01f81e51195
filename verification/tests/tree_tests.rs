use std::collections::HashMap;

use proc_lens::process::model::{LimitedEnvironment, ProcessIdentity, ProcessSnapshot};
use proc_lens::process::tree::{parent_chain, tree_order};

fn process(pid: i32, ppid: i32) -> ProcessSnapshot {
    ProcessSnapshot {
        identity: ProcessIdentity {
            pid,
            start_time_ticks: pid as u64 * 10,
        },
        pid,
        ppid,
        name: format!("p{pid}"),
        executable: None,
        cwd: None,
        command: vec![format!("p{pid}")],
        cgroup: Vec::new(),
        environment: LimitedEnvironment::new(),
        cpu_percent_bits: 0,
        memory_bytes: 0,
        gpu: None,
    }
}

fn map(edges: &[(i32, i32)]) -> HashMap<i32, ProcessSnapshot> {
    edges
        .iter()
        .map(|(pid, ppid)| (*pid, process(*pid, *ppid)))
        .collect()
}

#[test]
fn parent_chain_stops_on_missing_parent() {
    let processes = map(&[(30, 20), (20, 10)]);
    assert_eq!(parent_chain(30, &processes, 16), vec![20, 10]);
}

#[test]
fn parent_chain_stops_on_cycle() {
    let processes = map(&[(10, 20), (20, 10)]);
    assert_eq!(parent_chain(10, &processes, 16), vec![20]);
}

#[test]
fn tree_order_places_parent_before_children() {
    let processes = map(&[(1, 0), (10, 1), (12, 10), (11, 10), (30, 1)]);
    let order = tree_order(&processes);

    assert_eq!(order, vec![(1, 0), (10, 1), (11, 2), (12, 2), (30, 1)]);
}

#[test]
fn parent_chain_stops_at_init_and_at_the_depth_limit() {
    let processes = map(&[(40, 30), (30, 1), (1, 0)]);
    assert_eq!(parent_chain(40, &processes, 16), vec![30, 1]);
    assert_eq!(parent_chain(40, &processes, 1), vec![30]);
    assert_eq!(parent_chain(40, &processes, 0), Vec::<i32>::new());
}

#[test]
fn tree_order_keeps_processes_of_a_cycle_visible_once() {
    let processes = map(&[(5, 6), (6, 5), (7, 0), (8, 7)]);
    let order = tree_order(&processes);
    assert_eq!(order, vec![(7, 0), (8, 1), (5, 0), (6, 1)]);
}

#[test]
fn tree_order_lists_every_process_exactly_once() {
    let processes = map(&[(1, 0), (2, 1), (3, 2), (4, 9), (5, 4), (6, 6), (7, 8), (8, 7)]);
    let order = tree_order(&processes);
    let mut pids: Vec<i32> = order.iter().map(|(pid, _)| *pid).collect();
    pids.sort();
    assert_eq!(pids, vec![1, 2, 3, 4, 5, 6, 7, 8]);
}
