//! The Python backend.

pub mod builder;
