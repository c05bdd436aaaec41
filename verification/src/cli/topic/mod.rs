//! The commands about topics.

pub mod delay;
pub mod delay_laws;
pub mod echo;
pub mod echo_laws;
pub mod list;
pub mod list_laws;
