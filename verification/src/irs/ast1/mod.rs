//! The surface syntax tree: what a parser hands to the compiler.

pub mod precedence;
pub mod types;
