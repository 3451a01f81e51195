use proc_lens::app::{project_label, EnrichedProcess};
use proc_lens::classifier::{Classification, Confidence, Evidence, ProcessType};
use proc_lens::collector::process::ProcessIoSnapshot;
use proc_lens::inspect::format_inspect;
use proc_lens::process::resolver::ProjectIdentity;
use proc_lens::process::{LimitedEnvironment, ProcessIdentity, ProcessSnapshot};

fn cpu_text(process: &EnrichedProcess) -> String {
    format!("{:.1}", f32::from_bits(process.snapshot.cpu_percent_bits))
}

fn inspect(processes: &[EnrichedProcess], pid: i32, io: Option<ProcessIoSnapshot>) -> Option<String> {
    let cpu = processes
        .iter()
        .find(|process| process.snapshot.pid == pid)
        .map(cpu_text)
        .unwrap_or_default();
    format_inspect(processes, pid, &cpu, io)
}

fn enriched() -> EnrichedProcess {
    let process = ProcessSnapshot {
        identity: ProcessIdentity { pid: 18452, start_time_ticks: 99 },
        pid: 18452,
        ppid: 100,
        name: "fast_livo".into(),
        executable: Some("/home/u/agt_navigation_runtime/install/fast_livo/lib/fast_livo/fast_livo".into()),
        cwd: Some("/home/u/agt_navigation_runtime".into()),
        command: vec!["fast_livo".into(), "--ros-args".into()],
        cgroup: vec!["/user.slice/user-1000.slice/session-2.scope".into()],
        environment: LimitedEnvironment::new(),
        cpu_percent_bits: 83.4f32.to_bits(),
        memory_bytes: 1_299_226_624,
        gpu: None,
    };

    EnrichedProcess {
        snapshot: process,
        classification: Classification {
            process_type: ProcessType::Ros2,
            confidence: Confidence::High,
            score: 150,
            evidence: vec![Evidence {
                process_type: ProcessType::Ros2,
                score: 70,
                message: "command contains --ros-args".into(),
            }],
        },
        project: Some(ProjectIdentity {
            workspace: Some("/home/u/agt_navigation_runtime".into()),
            package: Some("fast_livo".into()),
            executable: Some("fast_livo".into()),
        }),
        parent_chain: vec![100, 1],
        tree_depth: 2,
        tree_order: 0,
    }
}

fn browser_child_processes() -> Vec<EnrichedProcess> {
    let mut parent = enriched();
    parent.snapshot.identity = ProcessIdentity { pid: 100, start_time_ticks: 1000 };
    parent.snapshot.pid = 100;
    parent.snapshot.ppid = 1;
    parent.snapshot.name = "firefox".into();
    parent.snapshot.executable = Some("/usr/bin/firefox".into());
    parent.snapshot.command = vec!["firefox".into()];
    parent.snapshot.cpu_percent_bits = 5.0f32.to_bits();
    parent.classification =
        Classification { process_type: ProcessType::Browser, confidence: Confidence::Medium, score: 80, evidence: Vec::new() };
    parent.project = None;
    parent.parent_chain = vec![1];
    parent.tree_depth = 1;

    let mut child = enriched();
    child.snapshot.identity = ProcessIdentity { pid: 101, start_time_ticks: 1001 };
    child.snapshot.pid = 101;
    child.snapshot.ppid = 100;
    child.snapshot.name = "Isolated Web Co".into();
    child.snapshot.executable = Some("/usr/lib/firefox/firefox".into());
    child.snapshot.command = vec!["Isolated Web Co".into()];
    child.snapshot.cpu_percent_bits = 12.0f32.to_bits();
    child.classification =
        Classification { process_type: ProcessType::Generic, confidence: Confidence::Low, score: 0, evidence: Vec::new() };
    child.project = None;
    child.parent_chain = vec![100, 1];
    child.tree_depth = 2;
    child.tree_order = 1;

    vec![parent, child]
}

#[test]
fn cli_inspect_explains_provenance_and_evidence() {
    let output = inspect(&[enriched()], 18452, None).expect("pid exists");

    assert!(output.contains("/home/u/agt_navigation_runtime/install/fast_livo"));
    assert!(output.contains("/home/u/agt_navigation_runtime"));
    assert!(output.contains("fast_livo --ros-args"));
    assert!(output.contains("Parent chain"));
    assert!(output.contains("100 -> 1"));
    assert!(output.contains("command contains --ros-args"));
}

#[test]
fn cli_inspect_reports_process_disk_io_and_rates() {
    let io = ProcessIoSnapshot {
        read_bytes: 8 * 1024 * 1024,
        write_bytes: 32 * 1024 * 1024,
        read_bytes_per_second: Some(512 * 1024),
        write_bytes_per_second: Some(2 * 1024 * 1024),
    };

    let output = inspect(&[enriched()], 18452, Some(io)).expect("pid exists");

    assert!(output.contains("Disk read"));
    assert!(output.contains("8.0M"));
    assert!(output.contains("Disk write"));
    assert!(output.contains("32.0M"));
    assert!(output.contains("Read rate"));
    assert!(output.contains("512.0K/s"));
    assert!(output.contains("Write rate"));
    assert!(output.contains("2.0M/s"));
}

#[test]
fn cli_inspect_separates_direct_type_from_inherited_provenance() {
    let output = inspect(&browser_child_processes(), 101, None).expect("pid exists");

    assert!(output.contains("Type       : PROCESS"));
    assert!(output.contains("Provenance"));
    assert!(output.contains("Owner PID   : 100"));
    assert!(output.contains("Owner       : firefox"));
    assert!(output.contains("Display type: BROWSER"));
    assert!(output.contains("Project     : Firefox"));
}

#[test]
fn cli_inspect_names_parent_processes_when_they_are_still_visible() {
    let mut parent = enriched();
    parent.snapshot.pid = 100;
    parent.snapshot.identity.pid = 100;
    parent.snapshot.name = "ros2".into();
    parent.snapshot.command =
        vec!["ros2".into(), "launch".into(), "agt_bringup".into(), "navigation.launch.py".into()];
    parent.parent_chain = vec![1];
    parent.tree_order = 1;
    let processes = vec![enriched(), parent];

    let output = inspect(&processes, 18452, None).expect("pid exists");

    assert!(output.contains("PID 100: ros2 launch agt_bringup navigation.launch.py"));
    assert!(output.contains("PID 1: <exited or inaccessible>"));
}

#[test]
fn inspect_of_an_unknown_pid_is_none() {
    assert!(format_inspect(&[enriched()], 7, "0.0", None).is_none());
}

#[test]
fn inspect_report_reads_exactly() {
    let mut process = enriched();
    process.parent_chain = Vec::new();
    process.project = None;
    process.snapshot.cgroup = Vec::new();
    process.snapshot.cwd = None;
    process.snapshot.memory_bytes = 1024;
    process.snapshot.gpu = Some(proc_lens::process::ProcessGpuUsage {
        gpu_index: Some(0),
        vram_bytes: Some(512 * 1024 * 1024),
        utilization_percent: Some(40),
    });
    process.classification.evidence = Vec::new();

    let output = format_inspect(&[process], 18452, "83.4", None).expect("pid exists");

    let expected = "Process Analysis\n\
────────────────────────────────────────────────────────\n\
PID        : 18452\n\
Name       : fast_livo\n\
Type       : ROS2\n\
Confidence : high\n\
Project    : -\n\
CPU        : 83.4%\n\
RAM        : 1.0K\n\
Disk read  : -\n\
Disk write : -\n\
Read rate  : -\n\
Write rate : -\n\
GPU        : 40%\n\
VRAM       : 512.00 MiB\n\
\n\
Executable\n\
/home/u/agt_navigation_runtime/install/fast_livo/lib/fast_livo/fast_livo\n\
\n\
Working directory\n\
-\n\
\n\
Command\n\
fast_livo --ros-args\n\
\n\
CGroup\n\
-\n\
\n\
Parent chain\n\
-\n\
\n\
Classification evidence\n\
- no category-specific evidence";
    assert_eq!(output, expected);
}

#[test]
fn browser_project_label_is_not_the_executable_name() {
    let mut process = enriched();
    process.snapshot.name = "firefox".into();
    process.project = None;
    process.classification.process_type = ProcessType::Browser;

    assert_eq!(project_label(&process), "-");
}
