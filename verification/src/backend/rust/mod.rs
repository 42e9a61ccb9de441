//! The Rust backend.

pub mod builder;
pub mod ib_to_rs;
