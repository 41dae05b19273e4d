//! The closed sets of failures: those of compilation and those of execution.

pub mod compiler;
pub mod parser;
pub mod runtime;
