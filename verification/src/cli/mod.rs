//! What the command-line tool asks, decides and prints.

pub mod discover;
pub mod topic;
