//! The answer to a forced announcement.

pub mod run;
