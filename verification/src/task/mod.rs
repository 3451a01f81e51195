//! Processes grouped into the tasks a user started: a ROS 2 launch, a
//! systemd service, a container, an application, or a lone process.

pub mod model;
pub mod resolver;
pub mod group;
pub mod format;
pub mod laws;
pub mod view;
