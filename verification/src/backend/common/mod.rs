//! Pieces shared by every backend.

pub mod formatter;
