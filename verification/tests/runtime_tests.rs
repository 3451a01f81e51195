use proc_lens::app::EnrichedProcess;
use proc_lens::classifier::{Classification, Confidence, ProcessType};
use proc_lens::collector::thread::ThreadIdentity;
use proc_lens::process::{LimitedEnvironment, ProcessIdentity, ProcessSnapshot};
use proc_lens::provenance::ProcessProvenance;
use proc_lens::runtime::{
    metric_for_topic, report_process_indices, report_project, report_thread_indices, select_report, thread_count,
    RUNTIME_SCHEMA_VERSION,
};

fn process(pid: i32, start: u64) -> EnrichedProcess {
    EnrichedProcess {
        snapshot: ProcessSnapshot {
            identity: ProcessIdentity { pid, start_time_ticks: start },
            pid,
            ppid: 1,
            name: format!("p{pid}"),
            executable: None,
            cwd: None,
            command: Vec::new(),
            cgroup: Vec::new(),
            environment: LimitedEnvironment::new(),
            cpu_percent_bits: 0,
            memory_bytes: 0,
            gpu: None,
        },
        classification: Classification {
            process_type: ProcessType::Generic,
            confidence: Confidence::Low,
            score: 0,
            evidence: Vec::new(),
        },
        project: None,
        parent_chain: Vec::new(),
        tree_depth: 0,
        tree_order: 0,
    }
}

fn derived(process_type: ProcessType) -> ProcessProvenance {
    ProcessProvenance { process_type, owner_pid: None, owner_name: None, project_label: "-".into() }
}

fn thread(pid: i32, process_start: u64, tid: i32) -> ThreadIdentity {
    ThreadIdentity { pid, process_start_time_ticks: process_start, tid, start_time_ticks: 0 }
}

#[test]
fn report_keeps_processes_of_the_wanted_type_in_order() {
    let processes = vec![process(10, 100), process(11, 110), process(12, 120)];
    let provenance = vec![derived(ProcessType::Ros2), derived(ProcessType::Browser), derived(ProcessType::Ros2)];

    assert_eq!(report_process_indices(&processes, &provenance, Some(ProcessType::Ros2)), vec![0, 2]);
    assert_eq!(report_process_indices(&processes, &provenance, None), vec![0, 1, 2]);
    assert!(report_process_indices(&processes, &provenance, Some(ProcessType::Systemd)).is_empty());
}

#[test]
fn threads_are_counted_and_kept_by_pid_and_process_start() {
    let threads = vec![thread(10, 100, 10), thread(10, 100, 11), thread(10, 999, 12), thread(11, 110, 11)];
    let selected = ProcessIdentity { pid: 10, start_time_ticks: 100 };

    assert_eq!(thread_count(selected, &threads), 2);
    assert_eq!(report_thread_indices(&[selected], &threads), vec![0, 1]);
    assert!(report_thread_indices(&[], &threads).is_empty());
}

#[test]
fn placeholder_project_is_left_out_of_reports() {
    assert_eq!(report_project("-"), None);
    assert_eq!(report_project("demo_ws"), Some("demo_ws".to_string()));
}

#[test]
fn the_last_metric_of_a_topic_is_attached() {
    let topics = vec!["/a".to_string(), "/b".to_string(), "/a".to_string()];
    assert_eq!(metric_for_topic(&topics, "/a"), Some(2));
    assert_eq!(metric_for_topic(&topics, "/b"), Some(1));
    assert_eq!(metric_for_topic(&topics, "/c"), None);
    assert_eq!(RUNTIME_SCHEMA_VERSION, 1);
}

#[test]
fn report_selection_lists_wanted_processes_with_their_threads() {
    let processes = vec![process(10, 100), process(11, 110), process(12, 120)];
    let mut ros = derived(ProcessType::Ros2);
    ros.project_label = "demo_ws".into();
    let provenance = vec![ros, derived(ProcessType::Browser), derived(ProcessType::Ros2)];
    let threads = vec![thread(12, 120, 12), thread(11, 110, 11), thread(10, 100, 10), thread(10, 100, 13), thread(10, 5, 14)];

    let selection = select_report(&processes, &provenance, &threads, Some(ProcessType::Ros2));
    let rows: Vec<(usize, i32, Option<String>, usize)> = selection
        .processes
        .iter()
        .map(|row| (row.index, row.identity.pid, row.project.clone(), row.thread_count))
        .collect();
    assert_eq!(rows, vec![(0, 10, Some("demo_ws".to_string()), 2), (2, 12, None, 1)]);
    assert!(selection.processes.iter().all(|row| row.process_type == ProcessType::Ros2));
    assert_eq!(selection.threads, vec![0, 2, 3]);

    let everything = select_report(&processes, &provenance, &threads, None);
    assert_eq!(everything.processes.len(), 3);
    assert_eq!(everything.threads, vec![0, 1, 2, 3]);
}
