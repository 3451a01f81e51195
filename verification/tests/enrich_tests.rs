use proc_lens::classifier::ProcessType;
use proc_lens::enrich::enrich;
use proc_lens::process::model::{LimitedEnvironment, ProcessIdentity, ProcessSnapshot};

fn process(pid: i32, ppid: i32, name: &str, command: &[&str]) -> ProcessSnapshot {
    ProcessSnapshot {
        identity: ProcessIdentity { pid, start_time_ticks: pid as u64 * 10 },
        pid,
        ppid,
        name: name.into(),
        executable: None,
        cwd: None,
        command: command.iter().map(|part| part.to_string()).collect(),
        cgroup: Vec::new(),
        environment: LimitedEnvironment::new(),
        cpu_percent_bits: 0,
        memory_bytes: pid as u64,
        gpu: None,
    }
}

#[test]
fn enrich_gives_chain_tree_place_and_classification_in_input_order() {
    let processes = vec![
        process(101, 100, "talker", &["talker", "--ros-args"]),
        process(1, 0, "systemd", &["/sbin/init"]),
        process(100, 1, "ros2", &["ros2", "launch", "demo", "talker.launch.py"]),
    ];

    let enriched = enrich(processes);

    assert_eq!(enriched.len(), 3);
    assert_eq!(enriched[0].snapshot.pid, 101);
    assert_eq!(enriched[0].snapshot.memory_bytes, 101);
    assert_eq!(enriched[0].parent_chain, vec![100, 1]);
    assert_eq!(enriched[1].parent_chain, Vec::<i32>::new());
    assert_eq!(enriched[2].parent_chain, vec![1]);
    assert_eq!((enriched[1].tree_order, enriched[1].tree_depth), (0, 0));
    assert_eq!((enriched[2].tree_order, enriched[2].tree_depth), (1, 1));
    assert_eq!((enriched[0].tree_order, enriched[0].tree_depth), (2, 2));
    assert_eq!(enriched[0].classification.process_type, ProcessType::Ros2);
    assert_eq!(enriched[1].classification.process_type, ProcessType::Generic);
}

#[test]
fn enrich_of_nothing_is_nothing() {
    assert!(enrich(Vec::new()).is_empty());
}

#[test]
fn a_repeated_pid_reads_its_last_snapshot_as_ancestor() {
    let processes = vec![
        process(5, 0, "first", &["first"]),
        process(5, 0, "ros2", &["ros2", "run", "demo", "node"]),
        process(6, 5, "node", &["node", "--ros-args"]),
    ];

    let enriched = enrich(processes);

    assert_eq!(enriched.len(), 3);
    assert_eq!(enriched[0].snapshot.name, "first");
    assert_eq!(enriched[2].parent_chain, vec![5]);
    assert_eq!(enriched[2].classification.process_type, ProcessType::Ros2);
}
