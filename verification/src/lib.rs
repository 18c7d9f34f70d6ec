//! An orchestration layer that drives an external incremental
//! constraint-solving engine to solve discrete combinatorial puzzles.
//!
//! The engine itself is treated as an opaque oracle: this crate owns the
//! formula syntax and its exact evaluation semantics, the incremental
//! assertion stack with its depth invariants, the run-length line encoder,
//! the solution enumerator with blocking clauses, the weighted objective
//! bookkeeping, and the depth-first backtracking search driver.  Values
//! reported by the engine are validated against the asserted constraints
//! before they are returned to callers.

pub mod ast;
pub mod engine;
pub mod context;
pub mod encoder;
pub mod enumerate;
pub mod objective;
pub mod search;
pub mod puzzles;
pub mod shidoku;
