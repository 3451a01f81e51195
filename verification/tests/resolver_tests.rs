use proc_lens::process::resolver::{resolve_ros2_install_path, resolve_ros2_process};
use proc_lens::process::{LimitedEnvironment, ProcessIdentity, ProcessSnapshot};

#[test]
fn resolves_colcon_install_layout() {
    let path = "/home/u/ws/install/fast_livo/lib/fast_livo/fast_livo";
    let identity = resolve_ros2_install_path(path).expect("ROS2 install path should resolve");

    assert_eq!(identity.workspace.as_deref(), Some("/home/u/ws"));
    assert_eq!(identity.package.as_deref(), Some("fast_livo"));
    assert_eq!(identity.executable.as_deref(), Some("fast_livo"));
}

#[test]
fn rejects_install_path_when_lib_package_does_not_match() {
    let path = "/home/u/ws/install/fast_livo/lib/other_pkg/fast_livo";
    assert!(resolve_ros2_install_path(path).is_none());
}

#[test]
fn rejects_non_ros_install_path() {
    assert!(resolve_ros2_install_path("/usr/bin/python3").is_none());
}

#[test]
fn resolves_python_ros2_node_from_command_path_when_exe_is_interpreter() {
    let process = ProcessSnapshot {
        identity: ProcessIdentity { pid: 42, start_time_ticks: 1 },
        pid: 42,
        ppid: 1,
        name: "python3".into(),
        executable: Some("/usr/bin/python3.10".to_owned()),
        cwd: Some("/home/u/ws".to_owned()),
        command: vec![
            "/home/u/ws/install/agt_mission_manager/lib/agt_mission_manager/mission_manager".into(),
            "--ros-args".into(),
        ],
        cgroup: Vec::new(),
        environment: LimitedEnvironment::new(),
        cpu_percent_bits: 0,
        memory_bytes: 0,
        gpu: None,
    };

    let identity = resolve_ros2_process(&process).expect("command path should resolve");
    assert_eq!(identity.workspace.as_deref(), Some("/home/u/ws"));
    assert_eq!(identity.package.as_deref(), Some("agt_mission_manager"));
    assert_eq!(identity.executable.as_deref(), Some("mission_manager"));
}
