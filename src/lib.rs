//! A static checker for a small stack-based language with nominal algebraic
//! data types, pattern-matched definitions and first-class quotations.
pub mod ast;
pub mod types;
pub mod semantics;
pub mod type_checker;
pub mod laws;
