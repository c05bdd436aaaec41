//! What the runtime answers to its clients.

pub mod answer_laws;
pub mod discover;
pub mod endpoints;
pub mod form_laws;
pub mod graph;
pub mod graph_laws;
pub mod name_laws;
pub mod names;
pub mod node_laws;
pub mod protocol;
pub mod server;
pub mod server_laws;
pub mod snapshot_laws;
pub mod state;
pub mod topic;
