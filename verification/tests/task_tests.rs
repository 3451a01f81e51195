use proc_lens::app::EnrichedProcess;
use proc_lens::classifier::{Classification, Confidence, ProcessType};
use proc_lens::process::{LimitedEnvironment, ProcessGpuUsage, ProcessIdentity, ProcessSnapshot};
use proc_lens::provenance::resolve_all_provenance;
use proc_lens::task::group::{group_tasks, members_for_task, sum_io, sum_rss, sum_vram};
use proc_lens::task::model::{TaskId, TaskKind};

#[allow(clippy::too_many_arguments)]
fn process(
    pid: i32,
    ppid: i32,
    start_time_ticks: u64,
    name: &str,
    command: &[&str],
    cgroup: &[&str],
    process_type: ProcessType,
    memory_bytes: u64,
    parent_chain: &[i32],
) -> EnrichedProcess {
    EnrichedProcess {
        snapshot: ProcessSnapshot {
            identity: ProcessIdentity {
                pid,
                start_time_ticks,
            },
            pid,
            ppid,
            name: name.into(),
            executable: None,
            cwd: None,
            command: command.iter().map(|value| (*value).into()).collect(),
            cgroup: cgroup.iter().map(|value| (*value).into()).collect(),
            environment: LimitedEnvironment::new(),
            cpu_percent_bits: 0,
            memory_bytes,
            gpu: None,
        },
        classification: Classification {
            process_type,
            confidence: Confidence::Medium,
            score: 80,
            evidence: Vec::new(),
        },
        project: None,
        parent_chain: parent_chain.to_vec(),
        tree_depth: parent_chain.len(),
        tree_order: pid as usize,
    }
}

#[test]
fn ros2_launcher_and_descendants_form_one_group() {
    let processes = vec![
        process(10, 1, 100, "ros2", &["ros2", "launch", "agt_navigation", "bringup.launch.py"], &[], ProcessType::Ros2, 20, &[1]),
        process(11, 10, 101, "planner_server", &["planner_server", "--ros-args"], &[], ProcessType::Ros2, 200, &[10, 1]),
        process(12, 10, 102, "controller_server", &["controller_server", "--ros-args"], &[], ProcessType::Ros2, 300, &[10, 1]),
    ];
    let provenance = resolve_all_provenance(&processes);
    let groups = group_tasks(&processes, &provenance);
    assert_eq!(groups.len(), 1);
    assert_eq!(groups[0].task.kind, TaskKind::Ros2Launch);
    assert_eq!(groups[0].task.label, "agt_navigation/bringup.launch.py");
    assert_eq!(groups[0].task.id.as_str(), "ros2:10:100");
    assert_eq!(groups[0].task.owner_pid, Some(10));
    assert_eq!(groups[0].members, vec![0, 1, 2]);
    assert_eq!(sum_rss(&groups[0].members, &processes), 520);
}

#[test]
fn services_containers_and_lone_processes_get_their_own_tasks() {
    let processes = vec![
        process(30, 1, 300, "worker", &["worker"], &["/system.slice/inspection.service"], ProcessType::Systemd, 1, &[1]),
        process(31, 1, 301, "box", &["box"], &["/docker/abc/"], ProcessType::Container, 1, &[1]),
        process(32, 1, 302, "bash", &["bash"], &[], ProcessType::Generic, 1, &[1]),
        process(33, 1, 303, "user", &["user"], &["/user.slice/user@1000.service"], ProcessType::Generic, 1, &[1]),
    ];
    let provenance = resolve_all_provenance(&processes);
    let groups = group_tasks(&processes, &provenance);
    let ids: Vec<&str> = groups.iter().map(|g| g.task.id.as_str()).collect();
    assert_eq!(ids, vec!["container:docker/abc", "proc:32:302", "proc:33:303", "systemd:inspection.service"]);
    assert_eq!(groups[0].task.kind, TaskKind::Container);
    assert_eq!(groups[0].task.label, "docker/abc");
    assert_eq!(groups[3].task.kind, TaskKind::SystemdService);
    assert_eq!(groups[3].task.owner_pid, None);
    assert_eq!(groups[1].task.kind, TaskKind::Process);
    assert_eq!(groups[1].task.label, "bash");
}

#[test]
fn browser_owner_and_generic_child_share_application_task_owner_first() {
    let processes = vec![
        process(41, 40, 401, "Web Content", &["Web Content"], &[], ProcessType::Generic, 5, &[40, 1]),
        process(40, 1, 400, "firefox", &["firefox"], &[], ProcessType::Browser, 7, &[1]),
        process(39, 40, 399, "Socket", &["Socket"], &[], ProcessType::Generic, 9, &[40, 1]),
    ];
    let provenance = resolve_all_provenance(&processes);
    let groups = group_tasks(&processes, &provenance);
    assert_eq!(groups.len(), 1);
    assert_eq!(groups[0].task.kind, TaskKind::Application);
    assert_eq!(groups[0].task.id.as_str(), "app:40:400");
    assert_eq!(groups[0].task.label, "Firefox");
    assert_eq!(groups[0].members, vec![1, 2, 0]);
    let ids = [processes[2].snapshot.identity, processes[0].snapshot.identity, ProcessIdentity { pid: 1, start_time_ticks: 0 }];
    assert_eq!(members_for_task(&ids, &processes), vec![2, 0]);
}

#[test]
fn pid_reuse_changes_the_task_key() {
    let processes = vec![
        process(50, 1, 500, "tool", &["tool"], &[], ProcessType::Generic, 1, &[1]),
        process(50, 1, 501, "tool", &["tool"], &[], ProcessType::Generic, 1, &[1]),
    ];
    let provenance = resolve_all_provenance(&processes);
    let groups = group_tasks(&processes, &provenance);
    assert_eq!(groups.len(), 2);
    assert_eq!(groups[0].task.id.as_str(), "proc:50:500");
    assert_eq!(groups[1].task.id.as_str(), "proc:50:501");
}

#[test]
fn io_and_vram_totals_are_unknown_rather_than_zero() {
    assert_eq!(sum_io(&[Some(1), Some(2)]), Some(3));
    assert_eq!(sum_io(&[Some(1), None, Some(2)]), None);
    assert_eq!(sum_io(&[Some(u64::MAX), Some(2)]), Some(u64::MAX));
    let mut with_vram = process(60, 1, 600, "gpu", &["gpu"], &[], ProcessType::Generic, 1, &[1]);
    with_vram.snapshot.gpu = Some(ProcessGpuUsage { gpu_index: Some(0), vram_bytes: Some(64), utilization_percent: None });
    let without = process(61, 1, 601, "cpu", &["cpu"], &[], ProcessType::Generic, 1, &[1]);
    let processes = vec![without, with_vram];
    assert_eq!(sum_vram(&vec![0], &processes), None);
    assert_eq!(sum_vram(&vec![0, 1], &processes), Some(64));
}

#[test]
fn task_keys_and_kinds_have_labels() {
    assert_eq!(TaskId::new("x").as_str(), "x");
    assert_eq!(TaskKind::SystemdService.to_string(), "SYSTEMD");
    assert_eq!(TaskKind::Ros2Launch.to_string(), "ROS2");
}
