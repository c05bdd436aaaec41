//! What discovery traffic says of the ROS graph.

pub mod laws;
pub mod padding_laws;
pub mod refusal_laws;
pub mod ros_graph;
pub mod tables;
