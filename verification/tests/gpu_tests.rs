use std::collections::HashMap;

use proc_lens::app::EnrichedProcess;
use proc_lens::classifier::{Classification, Confidence, ProcessType};
use proc_lens::gpu::merge::{
    absorb_utilization_samples, attach_gpu_usage, merge_process_memory, merge_process_utilization,
};
use proc_lens::process::{LimitedEnvironment, ProcessGpuUsage, ProcessIdentity, ProcessSnapshot};

fn process(pid: i32) -> EnrichedProcess {
    EnrichedProcess {
        snapshot: ProcessSnapshot {
            identity: ProcessIdentity { pid, start_time_ticks: 10 },
            pid,
            ppid: 1,
            name: "fast_livo".into(),
            executable: None,
            cwd: None,
            command: vec!["fast_livo".into()],
            cgroup: Vec::new(),
            environment: LimitedEnvironment::new(),
            cpu_percent_bits: 50.0f32.to_bits(),
            memory_bytes: 256 * 1024 * 1024,
            gpu: None,
        },
        classification: Classification {
            process_type: ProcessType::Ros2,
            confidence: Confidence::High,
            score: 150,
            evidence: Vec::new(),
        },
        project: None,
        parent_chain: Vec::new(),
        tree_depth: 0,
        tree_order: 0,
    }
}

#[test]
fn duplicate_context_lists_do_not_double_count_vram() {
    let mut processes = HashMap::new();
    let mut seen = Vec::new();

    merge_process_memory(&mut processes, &mut seen, 42, 0, Some(512));
    merge_process_memory(&mut processes, &mut seen, 42, 0, Some(512));

    assert_eq!(processes[&42].vram_bytes, Some(512));
}

#[test]
fn multi_gpu_process_does_not_expose_ambiguous_single_gpu_utilization() {
    let mut processes = HashMap::new();
    let mut seen = Vec::new();

    merge_process_memory(&mut processes, &mut seen, 42, 0, Some(512));
    merge_process_memory(&mut processes, &mut seen, 42, 1, Some(256));
    merge_process_utilization(&mut processes, 42, 0, 80);

    assert_eq!(processes[&42].gpu_index, None);
    assert_eq!(processes[&42].vram_bytes, Some(768));
    assert_eq!(processes[&42].utilization_percent, None);
}

#[test]
fn gpu_sample_merges_vram_without_inventing_utilization() {
    let mut processes = vec![process(42)];
    let mut usage = HashMap::new();
    usage.insert(
        42,
        ProcessGpuUsage { gpu_index: Some(0), vram_bytes: Some(512 * 1024 * 1024), utilization_percent: None },
    );

    attach_gpu_usage(&mut processes, &usage);

    let attached = processes[0].snapshot.gpu.as_ref().unwrap();
    assert_eq!(attached.vram_bytes, Some(512 * 1024 * 1024));
    assert_eq!(attached.utilization_percent, None);
}

#[test]
fn gpu_sample_does_not_attach_usage_to_unrelated_pid() {
    let mut processes = vec![process(42)];
    let mut usage = HashMap::new();
    usage.insert(99, ProcessGpuUsage { gpu_index: Some(0), vram_bytes: Some(123), utilization_percent: Some(75) });

    attach_gpu_usage(&mut processes, &usage);

    assert!(processes[0].snapshot.gpu.is_none());
}

#[test]
fn unknown_memory_adds_nothing_and_keeps_the_device() {
    let mut processes = HashMap::new();
    let mut seen = Vec::new();

    merge_process_memory(&mut processes, &mut seen, 7, 2, None);
    assert_eq!(
        processes[&7],
        ProcessGpuUsage { gpu_index: Some(2), vram_bytes: None, utilization_percent: None }
    );
    merge_process_memory(&mut processes, &mut seen, 7, 2, Some(100));
    assert_eq!(processes[&7].vram_bytes, None);
    assert_eq!(seen, vec![(7, 2)]);
}

#[test]
fn utilization_keeps_the_highest_report_of_one_device() {
    let mut processes = HashMap::new();
    merge_process_utilization(&mut processes, 5, 1, 30);
    merge_process_utilization(&mut processes, 5, 1, 70);
    merge_process_utilization(&mut processes, 5, 1, 40);
    assert_eq!(
        processes[&5],
        ProcessGpuUsage { gpu_index: Some(1), vram_bytes: None, utilization_percent: Some(70) }
    );
}

#[test]
fn pid_beyond_i32_is_ignored() {
    let mut processes = HashMap::new();
    let mut seen = Vec::new();
    merge_process_memory(&mut processes, &mut seen, u32::MAX, 0, Some(1));
    merge_process_utilization(&mut processes, 2_147_483_648, 0, 50);
    assert!(processes.is_empty());
    assert!(seen.is_empty());
}

#[test]
fn vram_sum_saturates() {
    let mut processes = HashMap::new();
    let mut seen = Vec::new();
    merge_process_memory(&mut processes, &mut seen, 3, 0, Some(u64::MAX - 1));
    merge_process_memory(&mut processes, &mut seen, 3, 1, Some(10));
    assert_eq!(processes[&3].vram_bytes, Some(u64::MAX));
    assert_eq!(processes[&3].gpu_index, None);
}

#[test]
fn first_utilization_answer_only_advances_the_timestamp() {
    let mut processes = HashMap::new();
    let samples = vec![(42, 100, 30), (43, 250, 10)];
    let newest = absorb_utilization_samples(&mut processes, &samples, 0, None);
    assert_eq!(newest, 250);
    assert!(processes.is_empty());
}

#[test]
fn newest_sample_of_each_process_is_recorded() {
    let mut processes = HashMap::new();
    let samples = vec![(42, 100, 30), (42, 300, 60), (42, 200, 90), (7, 150, 5), (42, 300, 70)];
    let newest = absorb_utilization_samples(&mut processes, &samples, 1, Some(50));
    assert_eq!(newest, 300);
    assert_eq!(processes[&42], ProcessGpuUsage { gpu_index: Some(1), vram_bytes: None, utilization_percent: Some(70) });
    assert_eq!(processes[&7].utilization_percent, Some(5));
    assert_eq!(absorb_utilization_samples(&mut HashMap::new(), &Vec::new(), 0, Some(900)), 900);
}
