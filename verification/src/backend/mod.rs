//! Code generation backends.

pub mod common;
pub mod imperative_base;
pub mod javascript;
pub mod python;
pub mod rust;
