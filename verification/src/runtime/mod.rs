//! The decisions of the running probe.

pub mod bag;
pub mod bag_laws;
pub mod command;
pub mod config;
pub mod control_laws;
pub mod delay;
pub mod echo;
pub mod echo_laws;
pub mod event_laws;
pub mod events;
pub mod filter;
pub mod observers;
pub mod samples;
pub mod sessions;
pub mod watch_laws;
