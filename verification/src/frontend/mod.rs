//! Readers of protocol specifications.

pub mod protocol_spec;
