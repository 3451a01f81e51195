//! What is observed of a running ROS 2 graph: its nodes, the processes that
//! host them, its topics and their traffic.

pub mod laws;
pub mod node_scanner;
pub mod process_mapper;
pub mod topic_stats;
pub mod topic_metrics;

pub use node_scanner::{RosNodeInfo, RosNodeScanner};
pub use process_mapper::{RosNodeMapping, RosProcessBinding, RosProcessMapper};
pub use topic_stats::{RosTopicEdge, RosTopicInfo, RosTopicStatsCollector};
