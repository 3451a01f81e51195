use proc_lens::app::EnrichedProcess;
use proc_lens::classifier::{Classification, Confidence, ProcessType};
use proc_lens::collector::process::ProcessIoSnapshot;
use proc_lens::process::{LimitedEnvironment, ProcessIdentity, ProcessSnapshot};
use proc_lens::provenance::resolve_all_provenance;
use proc_lens::task::format::{format_task, format_tasks, task_totals};
use proc_lens::task::group::{group_tasks, TaskGroup};

fn process(pid: i32, start: u64, name: &str, cpu: f32, rss: u64) -> EnrichedProcess {
    EnrichedProcess {
        snapshot: ProcessSnapshot {
            identity: ProcessIdentity { pid, start_time_ticks: start },
            pid,
            ppid: 1,
            name: name.into(),
            executable: None,
            cwd: None,
            command: vec![name.into()],
            cgroup: Vec::new(),
            environment: LimitedEnvironment::new(),
            cpu_percent_bits: cpu.to_bits(),
            memory_bytes: rss,
            gpu: None,
        },
        classification: Classification {
            process_type: ProcessType::Generic,
            confidence: Confidence::Low,
            score: 0,
            evidence: Vec::new(),
        },
        project: None,
        parent_chain: vec![1],
        tree_depth: 1,
        tree_order: pid as usize,
    }
}

fn processes() -> Vec<EnrichedProcess> {
    vec![process(20, 200, "slow", 5.0, 400), process(10, 100, "fast", 15.0, 200)]
}

struct Tables {
    groups: Vec<TaskGroup>,
    cpu_bits: Vec<u32>,
    cpu_texts: Vec<String>,
    process_cpu_texts: Vec<String>,
}

fn tables(processes: &[EnrichedProcess]) -> Tables {
    let provenance = resolve_all_provenance(processes);
    let groups = group_tasks(processes, &provenance);
    let sums: Vec<f32> = groups
        .iter()
        .map(|group| group.members.iter().map(|m| f32::from_bits(processes[*m].snapshot.cpu_percent_bits)).sum())
        .collect();
    Tables {
        cpu_bits: sums.iter().map(|sum| sum.to_bits()).collect(),
        cpu_texts: sums.iter().map(|sum| format!("{sum:.1}")).collect(),
        process_cpu_texts: processes
            .iter()
            .map(|p| format!("{:.1}", f32::from_bits(p.snapshot.cpu_percent_bits)))
            .collect(),
        groups,
    }
}

#[test]
fn task_snapshot_has_explicit_rss_sum_header_and_cpu_order() {
    let processes = processes();
    let t = tables(&processes);
    let io = vec![None; processes.len()];
    let output = format_tasks(&t.groups, &processes, &io, &t.cpu_bits, &t.cpu_texts);

    assert!(output.contains("RSS Σ"));
    assert!(output.contains("TASK ID"));
    assert!(output.find("proc:10:100").unwrap() < output.find("proc:20:200").unwrap());
}

#[test]
fn task_detail_requires_exact_task_id() {
    let processes = processes();
    let t = tables(&processes);
    let provenance = resolve_all_provenance(&processes);
    let io = vec![None; processes.len()];
    let find = |id: &str| format_task(&t.groups, &processes, &provenance, &io, id, &t.cpu_texts, &t.process_cpu_texts);

    assert!(find("proc:10:100").is_some());
    assert!(find("proc:10").is_none());
    assert!(find("missing").is_none());
}

#[test]
fn task_detail_labels_memory_as_summed_rss_and_unknown_io_as_dash() {
    let processes = processes();
    let t = tables(&processes);
    let provenance = resolve_all_provenance(&processes);
    let io = vec![None; processes.len()];
    let output =
        format_task(&t.groups, &processes, &provenance, &io, "proc:10:100", &t.cpu_texts, &t.process_cpu_texts).unwrap();

    assert!(output.contains("RAM RSS Σ"));
    assert!(output.contains("Read rate  : -"));
    assert!(output.contains("Write rate : -"));
    assert!(output.contains("PID"));
    assert!(output.contains("fast"));
}

#[test]
fn task_totals_add_io_only_when_every_member_has_it() {
    let processes = vec![process(10, 100, "a", 1.0, 10), process(11, 110, "b", 1.0, 20)];
    let provenance = resolve_all_provenance(&processes);
    let group = TaskGroup { task: group_tasks(&processes, &provenance)[0].task.clone(), members: vec![0, 1] };
    let sample = ProcessIoSnapshot {
        read_bytes: 5,
        write_bytes: 7,
        read_bytes_per_second: Some(1),
        write_bytes_per_second: None,
    };

    let full = task_totals(&group, &processes, &[Some(sample), Some(sample)]);
    assert_eq!(full.rss_bytes, 30);
    assert_eq!(full.disk_read_bytes, Some(10));
    assert_eq!(full.disk_write_bytes, Some(14));
    assert_eq!(full.read_bytes_per_second, Some(2));
    assert_eq!(full.write_bytes_per_second, None);
    assert_eq!(full.vram_bytes, None);

    let partial = task_totals(&group, &processes, &[Some(sample), None]);
    assert_eq!(partial.disk_read_bytes, None);
}

#[test]
fn task_detail_reads_exactly() {
    let processes = vec![process(10, 100, "fast", 15.0, 2048)];
    let provenance = resolve_all_provenance(&processes);
    let groups = group_tasks(&processes, &provenance);
    let output = format_task(&groups, &processes, &provenance, &[None], "proc:10:100", &["15.0".to_string()], &["15.0".to_string()])
        .unwrap();
    let expected = "Task Analysis\n\
────────────────────────────────────────────────────────\n\
Task ID    : proc:10:100\n\
Kind       : PROCESS\n\
Label      : fast\n\
Owner PID  : 10\n\
Processes  : 1\n\
CPU        : 15.0%\n\
RAM RSS Σ  : 2.0K\n\
Disk read  : -\n\
Disk write : -\n\
Read rate  : -\n\
Write rate : -\n\
VRAM       : -\n\
\n\
Members\n\
PID     TYPE       PROJECT                     CPU%        RAM  COMMAND\n\
10      PROCESS    -                           15.0       2.0K  fast\n";
    assert_eq!(output, expected);
}
