//! A tree-walking evaluator for a small S-expression language: integer and
//! floating arithmetic, conditionals, short-circuit boolean operators, and
//! definitions of variables and procedures on a stack of frames.
pub mod discipline;
pub mod environment;
pub mod error;
pub mod eval;
pub mod laws;
pub mod number;
pub mod parse;
pub mod semantics;
pub mod types;
