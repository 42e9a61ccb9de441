//! The JavaScript backend.

pub mod builder;
pub mod ib_to_js;
