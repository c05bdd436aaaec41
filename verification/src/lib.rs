//! Host-level observability for ROS 2 DDS traffic: the verified core.
//!
//! Every item here is plain computation on plain values. Sockets, files, clocks and
//! threads belong to the application around this library.

pub mod assoc;
pub mod base64_text;
pub mod by_name;
pub mod capture;
pub mod cli;
pub mod command;
pub mod common;
pub mod discovery;
pub mod numbers;
pub mod order_laws;
pub mod paths;
pub mod payload;
pub mod recorder;
pub mod runtime;
pub mod sorted;
pub mod text;
pub mod text_laws;
pub mod wire;
