//! Verified core of a compiler for a small C-like imperative language.
//!
//! The library covers the two passes that do the real work: the semantic
//! analyzer (scope-aware type checking, constant propagation, and
//! control-reachability analysis over the syntax tree) and the SSA code
//! generator (basic blocks, phi nodes, short-circuit boolean evaluation,
//! dead-block elimination).  Parsing and native emission are external
//! collaborators and live outside this crate.

pub mod ast;
pub mod backend;
pub mod diag;
pub mod frontend;
pub mod scoped_map;
