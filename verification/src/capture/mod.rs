//! From captured frames to UDP payloads.

pub mod capture;
pub mod frame_laws;
pub mod ip_frag;
pub mod ipv6_laws;
pub mod laws;
pub mod ranges;
pub mod reassembly;
pub mod refusal_laws;
pub mod run_laws;
pub mod socket;
pub mod store_laws;
pub mod wire_laws;
