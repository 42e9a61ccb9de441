//! The compilation context: named types grouped by namespace.

pub mod compilation_unit;
