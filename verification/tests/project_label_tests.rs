use proc_lens::app::{project_label, EnrichedProcess};
use proc_lens::classifier::{Classification, Confidence, ProcessType};
use proc_lens::process::resolver::ProjectIdentity;
use proc_lens::process::{LimitedEnvironment, ProcessIdentity, ProcessSnapshot};
use proc_lens::ui::model::{compact_command_label, truncate_label};

fn enriched(name: &str, process_type: ProcessType, cgroup: Vec<String>) -> EnrichedProcess {
    EnrichedProcess {
        snapshot: ProcessSnapshot {
            identity: ProcessIdentity {
                pid: 2137,
                start_time_ticks: 42,
            },
            pid: 2137,
            ppid: 1,
            name: name.into(),
            executable: None,
            cwd: None,
            command: vec![name.into()],
            cgroup,
            environment: LimitedEnvironment::new(),
            cpu_percent_bits: 0,
            memory_bytes: 0,
            gpu: None,
        },
        classification: Classification {
            process_type,
            confidence: Confidence::Medium,
            score: 80,
            evidence: Vec::new(),
        },
        project: None,
        parent_chain: vec![1],
        tree_depth: 1,
        tree_order: 0,
    }
}

#[test]
fn systemd_project_label_ignores_user_manager_service() {
    let process = enriched(
        "ToDesk_Service",
        ProcessType::Systemd,
        vec!["/user.slice/user-1000.slice/user@1000.service/system.slice/todeskd.service".into()],
    );

    assert_eq!(project_label(&process), "todeskd.service");
}

#[test]
fn project_labels_of_other_categories() {
    assert_eq!(project_label(&enriched("dockerd", ProcessType::Container, Vec::new())), "container");
    assert_eq!(project_label(&enriched("svc", ProcessType::Systemd, Vec::new())), "systemd");
    assert_eq!(project_label(&enriched("bash", ProcessType::Generic, Vec::new())), "-");
    let mut ros = enriched("node", ProcessType::Ros2, Vec::new());
    ros.project = Some(ProjectIdentity {
        workspace: Some("/home/u/ws".into()),
        package: Some("p".into()),
        executable: Some("node".into()),
    });
    assert_eq!(project_label(&ros), "ws");
}

#[test]
fn compact_command_hides_noisy_browser_argv() {
    let mut firefox = enriched("firefox", ProcessType::Browser, Vec::new());
    firefox.snapshot.command = vec![
        "/snap/firefox/8736/usr/lib/firefox/firefox".into(),
        "-contentproc".into(),
        "-isForBrowser".into(),
        "-prefsHandle".into(),
        "0:50".into(),
        "-prefMapHandle".into(),
        "1:2345".into(),
    ];

    let label = compact_command_label(&firefox, 32);

    assert!(label.starts_with("firefox"));
    assert!(label.contains("-contentproc"));
    assert!(label.chars().count() <= 32);
    assert!(!label.contains("-prefsHandle"));
}

#[test]
fn labels_are_cut_with_an_ellipsis() {
    assert_eq!(truncate_label("abcdef", 6), "abcdef");
    assert_eq!(truncate_label("abcdef", 4), "abc…");
    assert_eq!(truncate_label("abcdef", 1), "…");
    assert_eq!(truncate_label("abcdef", 0), "");
    let mut p = enriched("x", ProcessType::Generic, Vec::new());
    p.snapshot.command = vec!["x".into(), "x".into(), "".into()];
    assert_eq!(compact_command_label(&p, 10), "x");
    assert_eq!(compact_command_label(&p, 0), "");
}
