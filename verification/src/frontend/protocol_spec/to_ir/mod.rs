//! Reading type specifications and native type arguments out of the syntax tree.

pub mod compilation_unit;
pub mod native_type;
pub mod type_spec;
