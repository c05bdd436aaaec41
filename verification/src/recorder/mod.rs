//! Recording messages: the cache in front of the writer, and what the writer needs to know.

pub mod actor;
pub mod laws;
pub mod plan_laws;
pub mod recorder;
pub mod schema;
pub mod schema_laws;
