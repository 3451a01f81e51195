use proc_lens::app::EnrichedProcess;
use proc_lens::classifier::{Classification, Confidence, Evidence, ProcessType};
use proc_lens::listing::format_snapshot;
use proc_lens::process::resolver::ProjectIdentity;
use proc_lens::inspect::format_inspect;
use proc_lens::process::{LimitedEnvironment, ProcessGpuUsage, ProcessIdentity, ProcessSnapshot};

fn listing(processes: &[EnrichedProcess], filter: Option<ProcessType>) -> String {
    let cpu: Vec<String> = processes
        .iter()
        .map(|process| format!("{:.1}", f32::from_bits(process.snapshot.cpu_percent_bits)))
        .collect();
    format_snapshot(processes, filter, &cpu, "CPU  52.0%")
}

fn enriched() -> EnrichedProcess {
    EnrichedProcess {
        snapshot: ProcessSnapshot {
            identity: ProcessIdentity { pid: 18452, start_time_ticks: 99 },
            pid: 18452,
            ppid: 100,
            name: "fast_livo".into(),
            executable: Some("/home/u/agt_navigation_runtime/install/fast_livo/lib/fast_livo/fast_livo".into()),
            cwd: Some("/home/u/agt_navigation_runtime".into()),
            command: vec!["fast_livo".into(), "--ros-args".into()],
            cgroup: vec!["/user.slice/user-1000.slice/session-2.scope".into()],
            environment: LimitedEnvironment::new(),
            cpu_percent_bits: 83.4f32.to_bits(),
            memory_bytes: 1_299_226_624,
            gpu: None,
        },
        classification: Classification {
            process_type: ProcessType::Ros2,
            confidence: Confidence::High,
            score: 150,
            evidence: vec![Evidence {
                process_type: ProcessType::Ros2,
                score: 70,
                message: "command contains --ros-args".into(),
            }],
        },
        project: Some(ProjectIdentity {
            workspace: Some("/home/u/agt_navigation_runtime".into()),
            package: Some("fast_livo".into()),
            executable: Some("fast_livo".into()),
        }),
        parent_chain: vec![100, 1],
        tree_depth: 2,
        tree_order: 0,
    }
}

fn browser_child_processes() -> Vec<EnrichedProcess> {
    let mut parent = enriched();
    parent.snapshot.identity = ProcessIdentity { pid: 100, start_time_ticks: 1000 };
    parent.snapshot.pid = 100;
    parent.snapshot.ppid = 1;
    parent.snapshot.name = "firefox".into();
    parent.snapshot.executable = Some("/usr/bin/firefox".into());
    parent.snapshot.command = vec!["firefox".into()];
    parent.snapshot.cpu_percent_bits = 5.0f32.to_bits();
    parent.classification =
        Classification { process_type: ProcessType::Browser, confidence: Confidence::Medium, score: 80, evidence: Vec::new() };
    parent.project = None;
    parent.parent_chain = vec![1];
    parent.tree_depth = 1;

    let mut child = enriched();
    child.snapshot.identity = ProcessIdentity { pid: 101, start_time_ticks: 1001 };
    child.snapshot.pid = 101;
    child.snapshot.ppid = 100;
    child.snapshot.name = "Isolated Web Co".into();
    child.snapshot.executable = Some("/usr/lib/firefox/firefox".into());
    child.snapshot.command = vec!["Isolated Web Co".into()];
    child.snapshot.cpu_percent_bits = 12.0f32.to_bits();
    child.classification =
        Classification { process_type: ProcessType::Generic, confidence: Confidence::Low, score: 0, evidence: Vec::new() };
    child.project = None;
    child.parent_chain = vec![100, 1];
    child.tree_depth = 2;
    child.tree_order = 1;

    vec![parent, child]
}

#[test]
fn cli_snapshot_contains_process_identity_and_resources() {
    let output = listing(&[enriched()], None);

    assert!(output.contains("PID"));
    assert!(output.contains("TYPE"));
    assert!(output.contains("18452"));
    assert!(output.contains("ROS2"));
    assert!(output.contains("agt_navigation_runtime"));
    assert!(output.contains("83.4"));
    assert!(output.contains("fast_livo"));
}

#[test]
fn cli_snapshot_filters_by_process_type() {
    let output = listing(&[enriched()], Some(ProcessType::Browser));
    assert!(!output.contains("18452"));
}

#[test]
fn cli_snapshot_uses_inherited_browser_provenance() {
    let output = listing(&browser_child_processes(), Some(ProcessType::Browser));

    assert!(output.contains("101"));
    assert!(output.contains("BROWSER"));
    assert!(output.contains("Firefox"));
    assert!(output.contains("Isolated Web Co"));
}

#[test]
fn rows_come_busiest_first_then_largest_then_lowest_pid() {
    let mut a = enriched();
    a.snapshot.pid = 30;
    a.snapshot.identity.pid = 30;
    a.snapshot.cpu_percent_bits = 1.0f32.to_bits();
    let mut b = enriched();
    b.snapshot.pid = 20;
    b.snapshot.identity.pid = 20;
    b.snapshot.cpu_percent_bits = 9.5f32.to_bits();
    let mut c = enriched();
    c.snapshot.pid = 10;
    c.snapshot.identity.pid = 10;
    c.snapshot.cpu_percent_bits = 1.0f32.to_bits();
    let mut d = enriched();
    d.snapshot.pid = 40;
    d.snapshot.identity.pid = 40;
    d.snapshot.cpu_percent_bits = 1.0f32.to_bits();
    d.snapshot.memory_bytes = 2_000_000_000;

    let output = listing(&[a, b, c, d], None);
    let pids: Vec<&str> = output.lines().skip(3).map(|line| line.split_whitespace().next().unwrap()).collect();
    assert_eq!(pids, vec!["20", "40", "10", "30"]);
}

#[test]
fn listing_reads_exactly() {
    let mut process = enriched();
    process.snapshot.memory_bytes = 2048;
    process.snapshot.command = vec!["fast_livo".into()];
    let output = format_snapshot(&[process], None, &["83.4".to_string()], "SUMMARY");
    let expected = "SUMMARY\n\n\
PID     TYPE       PROJECT                     CPU%        RAM    GPU%       VRAM  COMMAND\n\
18452   ROS2       agt_navigation_runtime      83.4       2.0K       -          -  fast_livo\n";
    assert_eq!(output, expected);
}

#[test]
fn textual_snapshot_reports_global_gpu_and_process_vram_without_fake_gpu_percent() {
    let mut process = enriched();
    process.snapshot.pid = 42;
    process.snapshot.identity = ProcessIdentity { pid: 42, start_time_ticks: 99 };
    process.snapshot.gpu = Some(ProcessGpuUsage {
        gpu_index: Some(0),
        vram_bytes: Some(512 * 1024 * 1024),
        utilization_percent: None,
    });
    let processes = vec![process];
    let summary = listing(&processes, None);
    let detail = format_inspect(&processes, 42, "83.4", None).unwrap();

    assert!(summary.contains("512.0M"));
    assert!(detail.contains("GPU        : -"));
    assert!(detail.contains("VRAM       : 512.00 MiB"));
}
