//! Compiler support library for protodef specification (PDS) files.

mod text;

pub mod backend;
pub mod context;
pub mod field_reference;
pub mod frontend;
