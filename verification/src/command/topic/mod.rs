//! Answers about topics.

pub mod list;
