//! The PDS text format: its syntax tree, parser and printer.

pub mod ast;
pub mod to_ir;

pub use self::ast::parser::parse;
