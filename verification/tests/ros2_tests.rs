use std::time::Duration;

use proc_lens::process::{LimitedEnvironment, ProcessIdentity, ProcessSnapshot};
use proc_lens::ros2_probe::node_scanner::{
    command_failure, node_list_result, parse_node_list, parse_node_lines, spawn_error, CliRosGraphProvider,
    RosGraphError, RosNodeInfo, RosNodeScanner,
};
use proc_lens::ros2_probe::process_mapper::{
    explicit_node_name, normalize_node_name, MappingConfidence, MappingSource, RosProcessBinding, RosProcessMapper,
};
use proc_lens::ros2_probe::topic_metrics::{
    is_infrastructure_topic, metric_confidence, parse_bandwidth, parse_bytes, select_metric_topics,
    CliRosTopicMetricsCollector, MetricConfidence,
};
use proc_lens::ros2_probe::topic_stats::{
    absorb_inspection, aggregate_topology, parse_node_info, CliRosTopicTopologyProvider, RosNodeTopology,
    RosTopicEndpoint, RosTopicInfo,
};

#[test]
fn parses_full_names_without_treating_stderr_as_nodes() {
    let nodes = parse_node_list(b"/talker\n/listener\n\n");
    assert_eq!(nodes.len(), 2);
    assert_eq!(nodes[0].name, "talker");
    assert_eq!(nodes[1].full_name, "/listener");
}

#[test]
fn node_list_splits_namespace_from_name() {
    let nodes = parse_node_lines("  /robot/arm/driver  \nWARNING: something\n/solo\r\n");
    assert_eq!(nodes.len(), 2);
    assert_eq!(nodes[0].name, "driver");
    assert_eq!(nodes[0].namespace, "/robot/arm");
    assert_eq!(nodes[0].full_name, "/robot/arm/driver");
    assert_eq!(nodes[1].name, "solo");
    assert_eq!(nodes[1].namespace, "/");
    assert_eq!(nodes[1].package, None);
}

fn node(name: &str) -> RosNodeInfo {
    RosNodeInfo {
        name: name.trim_start_matches('/').to_owned(),
        namespace: "/".to_owned(),
        full_name: name.to_owned(),
        package: None,
        workspace: None,
    }
}

fn process(identity: ProcessIdentity, name: &str, command: &[&str]) -> ProcessSnapshot {
    ProcessSnapshot {
        identity,
        pid: identity.pid,
        ppid: 1,
        name: name.to_owned(),
        executable: None,
        cwd: None,
        command: command.iter().map(|part| (*part).to_owned()).collect(),
        cgroup: Vec::new(),
        environment: LimitedEnvironment::new(),
        cpu_percent_bits: 0,
        memory_bytes: 0,
        gpu: None,
    }
}

#[test]
fn unknown_mapping_does_not_fabricate_pid_zero() {
    let processes = [process(
        ProcessIdentity {
            pid: 42,
            start_time_ticks: 900,
        },
        "unrelated",
        &["unrelated"],
    )];
    let mapping = &RosProcessMapper::map_nodes(&[node("/mystery")], &processes)[0];
    assert_eq!(mapping.process_identity, None);
    assert_eq!(mapping.confidence, MappingConfidence::Unknown);
    assert_eq!(mapping.source, MappingSource::Unknown);
}

#[test]
fn two_nodes_can_map_to_one_process_identity() {
    let identity = ProcessIdentity {
        pid: 77,
        start_time_ticks: 1234,
    };
    let processes = [
        process(
            identity,
            "container",
            &["container", "--ros-args", "-r", "__node:=a"],
        ),
        process(
            identity,
            "container",
            &["container", "--ros-args", "-r", "__node:=b"],
        ),
    ];
    let mappings = RosProcessMapper::map_nodes(&[node("/a"), node("/b")], &processes);
    assert_eq!(mappings[0].process_identity, Some(identity));
    assert_eq!(mappings[1].process_identity, Some(identity));
}

#[test]
fn explicit_remap_beats_a_name_match_and_name_match_reports_its_source() {
    let named = ProcessIdentity { pid: 5, start_time_ticks: 1 };
    let remapped = ProcessIdentity { pid: 6, start_time_ticks: 2 };
    let processes = [
        process(named, "talker", &["ros2", "run", "demo", "talker"]),
        process(remapped, "python3", &["python3", "__node:=talker"]),
    ];
    let mapping = &RosProcessMapper::map_nodes(&[node("/talker")], &processes)[0];
    assert_eq!(mapping.process_identity, Some(remapped));
    assert_eq!(mapping.confidence, MappingConfidence::Exact);
    assert_eq!(mapping.source, MappingSource::ExplicitRosArgs);
    assert_eq!(mapping.confidence.to_string(), "exact");
    assert_eq!(mapping.source.to_string(), "explicit_ros_args");

    let only_named = &RosProcessMapper::map_nodes(&[node("/talker")], &processes[..1])[0];
    assert_eq!(only_named.process_identity, Some(named));
    assert_eq!(only_named.confidence, MappingConfidence::Strong);
    assert_eq!(only_named.source, MappingSource::ProcessCmdline);
}

#[test]
fn node_names_are_read_from_remap_arguments() {
    let command: Vec<String> = ["app", "--ros-args", "--remap", "__node:=cam", "__node:=other"]
        .iter()
        .map(|part| (*part).to_owned())
        .collect();
    assert_eq!(explicit_node_name(&command).as_deref(), Some("cam"));
    let bare: Vec<String> = vec!["-r".to_owned()];
    assert_eq!(explicit_node_name(&bare), None);
    assert_eq!(normalize_node_name("cam"), "/cam");
    assert_eq!(normalize_node_name("/cam"), "/cam");
}

#[test]
fn bindings_are_found_by_pid_and_scanner_finds_nodes_by_either_name() {
    let bindings = vec![
        RosProcessBinding { pid: 3, node_name: Some("a".to_owned()), package: None },
        RosProcessBinding { pid: 4, node_name: None, package: None },
    ];
    assert_eq!(RosProcessMapper::find_pid(&bindings, 4).map(|b| b.pid), Some(4));
    assert!(RosProcessMapper::find_pid(&bindings, 9).is_none());
    assert!(RosProcessMapper::resolve().is_empty());

    let nodes = vec![node("/talker"), node("/listener")];
    assert_eq!(RosNodeScanner::find_by_name(&nodes, "talker").len(), 1);
    assert_eq!(RosNodeScanner::find_by_name(&nodes, "/listener").len(), 1);
    assert!(RosNodeScanner::find_by_name(&nodes, "nobody").is_empty());
    assert!(RosNodeScanner::scan().is_empty());
}

#[test]
fn parses_ros2_topic_bw_output_using_decimal_units() {
    let output =
        "5.20 MB/s from 100 messages\n\tMessage size mean: 0.08 MB min: 0.08 MB max: 0.08 MB\n";
    let (bandwidth, mean, samples) = parse_bandwidth(output);
    assert_eq!(bandwidth, Some(5_200_000));
    assert_eq!(mean, Some(80_000));
    assert_eq!(samples, Some(100));
    let derived_hz = bandwidth.unwrap() as f64 / mean.unwrap() as f64;
    assert_eq!(derived_hz, 65.0);
}

#[test]
fn byte_quantities_round_half_away_from_zero() {
    assert_eq!(parse_bytes("5.20 MB/s"), Some(5_200_000));
    assert_eq!(parse_bytes("0.0125 KB"), Some(13));
    assert_eq!(parse_bytes("0.0124 KB"), Some(12));
    assert_eq!(parse_bytes("7"), Some(7));
    assert_eq!(parse_bytes("1.5 GB"), Some(1_500_000_000));
    assert_eq!(parse_bytes(".5 B"), Some(1));
    assert_eq!(parse_bytes("-3 KB"), Some(0));
    assert_eq!(parse_bytes("inf MB"), Some(u64::MAX));
    assert_eq!(parse_bytes("NaN B"), Some(0));
    assert_eq!(parse_bytes("99999999999 GB"), Some(u64::MAX));
    assert_eq!(parse_bytes("12 TB"), None);
    assert_eq!(parse_bytes("abc B"), None);
    assert_eq!(parse_bytes(""), None);
}

#[test]
fn byte_quantities_agree_with_float_rounding() {
    for value in ["0.08", "5.20", "1.23", "0.001", "12.5", "3.14159", "100", "0.5", "2.675"] {
        for (unit, scale) in [("B", 1.0f64), ("KB", 1e3), ("MB", 1e6), ("GB", 1e9)] {
            let expected = (value.parse::<f64>().unwrap() * scale).round() as u64;
            assert_eq!(parse_bytes(&format!("{value} {unit}")), Some(expected), "{value} {unit}");
        }
    }
}

#[test]
fn bandwidth_lines_without_counts_leave_them_unknown() {
    let (bandwidth, mean, samples) = parse_bandwidth("subscribed to [/x]\n1.00 KB/s from many\n");
    assert_eq!(bandwidth, Some(1000));
    assert_eq!(mean, None);
    assert_eq!(samples, None);
}

fn topic(name: &str, publishers: &[&str], subscribers: &[&str]) -> RosTopicInfo {
    RosTopicInfo {
        name: name.to_owned(),
        message_types: vec!["test_msgs/msg/Test".to_owned()],
        publishers: publishers.iter().map(|value| (*value).to_owned()).collect(),
        subscribers: subscribers
            .iter()
            .map(|value| (*value).to_owned())
            .collect(),
    }
}

#[test]
fn selects_real_data_edges_and_ignores_infrastructure_topics() {
    let topics = vec![
        topic(
            "/fastlio2/body_cloud",
            &["/fastlio2/lio_node"],
            &["/pgo/pgo_node"],
        ),
        topic(
            "/fastlio2/lio_odom",
            &["/fastlio2/lio_node"],
            &["/pgo/pgo_node"],
        ),
        topic("/parameter_events", &["/a"], &["/b"]),
        topic("/rosout", &["/a"], &["/b"]),
        topic("/output_only", &["/a"], &[]),
    ];
    let selected = select_metric_topics(&topics, 2);
    assert_eq!(selected.len(), 2);
    assert_eq!(selected[0].name, "/fastlio2/body_cloud");
    assert_eq!(selected[1].name, "/fastlio2/lio_odom");
}

#[test]
fn infrastructure_topics_and_confidence() {
    assert!(is_infrastructure_topic("/diagnostics_agg"));
    assert!(is_infrastructure_topic("/tf"));
    assert!(!is_infrastructure_topic("/tf2"));
    assert_eq!(metric_confidence(Some(10), Some(5)), MetricConfidence::Estimated);
    assert_eq!(metric_confidence(Some(10), Some(0)), MetricConfidence::Partial);
    assert_eq!(metric_confidence(None, Some(5)), MetricConfidence::Partial);
    assert_eq!(metric_confidence(None, None), MetricConfidence::Unknown);
    assert_eq!(MetricConfidence::Estimated.to_string(), "estimated");
}

#[test]
fn collector_builders_keep_their_settings() {
    let collector = CliRosTopicMetricsCollector::default()
        .with_sample_window(Duration::from_millis(500))
        .with_max_topics(1);
    assert_eq!(collector.sample_window(), Duration::from_millis(500));
    assert_eq!(collector.max_topics(), 1);
    let defaults = CliRosTopicMetricsCollector::default();
    assert_eq!(defaults.sample_window(), Duration::from_secs(2));
    assert_eq!(defaults.max_topics(), 2);
    assert_eq!(CliRosGraphProvider::default().timeout(), Duration::from_secs(3));
    assert_eq!(
        CliRosGraphProvider::with_timeout(Duration::from_secs(7)).timeout(),
        Duration::from_secs(7)
    );
    assert_eq!(CliRosTopicTopologyProvider::default().timeout_per_node(), Duration::from_secs(2));
    assert_eq!(
        CliRosTopicTopologyProvider::with_timeout_per_node(Duration::from_secs(1)).timeout_per_node(),
        Duration::from_secs(1)
    );
}

#[test]
fn parses_publishers_and_subscribers_from_node_info() {
    let topology = parse_node_info(
        "/talker",
        b"/talker
  Subscribers:
    /parameter_events: rcl_interfaces/msg/ParameterEvent
  Publishers:
    /chatter: std_msgs/msg/String
    /rosout: rcl_interfaces/msg/Log
  Service Servers:
    /talker/describe_parameters: rcl_interfaces/srv/DescribeParameters
",
    );
    assert_eq!(topology.node, "/talker");
    assert_eq!(topology.publishers.len(), 2);
    assert_eq!(topology.publishers[0].topic, "/chatter");
    assert_eq!(topology.subscribers.len(), 1);
}

#[test]
fn aggregates_topic_and_directed_node_edge() {
    let nodes = vec![
        RosNodeTopology {
            node: "/talker".to_owned(),
            publishers: vec![RosTopicEndpoint {
                topic: "/chatter".to_owned(),
                message_type: "std_msgs/msg/String".to_owned(),
            }],
            subscribers: Vec::new(),
        },
        RosNodeTopology {
            node: "/listener".to_owned(),
            publishers: Vec::new(),
            subscribers: vec![RosTopicEndpoint {
                topic: "/chatter".to_owned(),
                message_type: "std_msgs/msg/String".to_owned(),
            }],
        },
    ];

    let (topics, edges) = aggregate_topology(&nodes);
    assert_eq!(topics.len(), 1);
    assert_eq!(topics[0].name, "/chatter");
    assert_eq!(topics[0].publishers, vec!["/talker"]);
    assert_eq!(topics[0].subscribers, vec!["/listener"]);
    assert_eq!(edges.len(), 1);
    assert_eq!(edges[0].publisher_node, "/talker");
    assert_eq!(edges[0].subscriber_node, "/listener");
}

fn endpoint(topic: &str, message_type: &str) -> RosTopicEndpoint {
    RosTopicEndpoint { topic: topic.to_owned(), message_type: message_type.to_owned() }
}

#[test]
fn aggregation_sorts_topics_and_nodes_and_joins_every_pair() {
    let nodes = vec![
        RosNodeTopology {
            node: "/b".to_owned(),
            publishers: vec![endpoint("/z", "T2"), endpoint("/a", "T1")],
            subscribers: Vec::new(),
        },
        RosNodeTopology {
            node: "/a".to_owned(),
            publishers: vec![endpoint("/z", "T1"), endpoint("/z", "T2")],
            subscribers: vec![endpoint("/a", "T1")],
        },
        RosNodeTopology {
            node: "/c".to_owned(),
            publishers: Vec::new(),
            subscribers: vec![endpoint("/z", "T2")],
        },
    ];
    let (topics, edges) = aggregate_topology(&nodes);
    let names: Vec<&str> = topics.iter().map(|t| t.name.as_str()).collect();
    assert_eq!(names, vec!["/a", "/z"]);
    assert_eq!(topics[1].message_types, vec!["T1", "T2"]);
    assert_eq!(topics[1].publishers, vec!["/a", "/b"]);
    assert_eq!(topics[1].subscribers, vec!["/c"]);
    let pairs: Vec<(&str, &str, &str)> = edges
        .iter()
        .map(|e| (e.topic.as_str(), e.publisher_node.as_str(), e.subscriber_node.as_str()))
        .collect();
    assert_eq!(pairs, vec![("/a", "/b", "/a"), ("/z", "/a", "/c"), ("/z", "/b", "/c")]);
    assert_eq!(edges[1].message_types, vec!["T1", "T2"]);
}

#[test]
fn failed_cli_runs_report_their_error_output() {
    assert_eq!(spawn_error(true, "x".to_owned()), RosGraphError::CommandNotFound);
    assert_eq!(spawn_error(false, "x".to_owned()), RosGraphError::NotAvailable("x".to_owned()));
    assert_eq!(
        command_failure(b"  boom \n", "fallback".to_owned()),
        RosGraphError::Failed("boom".to_owned())
    );
    assert_eq!(
        command_failure(b"  \n", "fallback".to_owned()),
        RosGraphError::Failed("fallback".to_owned())
    );
    let ok = node_list_result(true, b"/n\n", b"", String::new()).expect("success parses");
    assert_eq!(ok[0].name, "n");
}

#[test]
fn topology_discovery_skips_vanished_nodes_and_stops_without_cli() {
    let mut found = Vec::new();
    assert_eq!(absorb_inspection(&mut found, Err(RosGraphError::TimedOut)), None);
    assert!(found.is_empty());
    assert_eq!(
        absorb_inspection(&mut found, Err(RosGraphError::CommandNotFound)),
        Some(RosGraphError::NotAvailable(
            "ROS 2 CLI is unavailable for topic topology discovery".to_owned()
        ))
    );
    let topology = RosNodeTopology { node: "/n".to_owned(), publishers: Vec::new(), subscribers: Vec::new() };
    assert_eq!(absorb_inspection(&mut found, Ok(topology)), None);
    assert_eq!(found.len(), 1);
}

#[test]
fn collector_builder_preserves_bounded_defaults() {
    let collector = proc_lens::ros2_probe::topic_metrics::CliRosTopicMetricsCollector::default()
        .with_sample_window(std::time::Duration::from_millis(500))
        .with_max_topics(1);
    assert_eq!(collector.sample_window(), std::time::Duration::from_millis(500));
    assert_eq!(collector.max_topics(), 1);
    let selected = proc_lens::ros2_probe::topic_metrics::select_metric_topics(&[], collector.max_topics());
    assert!(selected.is_empty());
    let _ = proc_lens::ros2_probe::topic_metrics::MetricConfidence::Unknown;

    let defaults = proc_lens::ros2_probe::topic_metrics::CliRosTopicMetricsCollector::default();
    assert_eq!(defaults.sample_window(), std::time::Duration::from_secs(2));
    assert_eq!(defaults.max_topics(), 2);
}
