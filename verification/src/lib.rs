//! A small term-oriented language: its parser, the lowering of syntax trees
//! to bytecode, and the virtual machine that runs the bytecode.
//!
//! Programs are procedures over integers, booleans, tagged compound terms,
//! vectors and sets. A text is read as a syntax tree, the tree is compiled
//! to instructions with symbolic labels, the labels are resolved to
//! addresses, and the machine executes the result one instruction at a
//! time. Structural patterns are matched by a prove-then-commit protocol,
//! so that a failed match changes nothing.

pub mod bump;
pub mod compiler;
pub mod errors;
pub mod interns;
pub mod irs;
pub mod laws;
pub mod library;
pub mod parser;
pub mod primitive;
pub mod recursion;
pub mod repl;
pub mod satc;
pub mod vm;
