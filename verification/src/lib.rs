//! Static type-checking core for a constraint-modelling language.
//!
//! The crate computes types for the declarations and expressions of a
//! lowered, arena-indexed model:
//!
//! - [`types`] holds the declared-type tree (types as written in
//!   source) and its traversal utilities.
//! - [`ty`] holds the computed-type representation: interned
//!   [`ty::Ty`] values and the inst/optionality subtyping lattice.
//! - [`registry`] interns the common computed types once.
//! - [`model`] holds the arena-indexed items, expressions and patterns
//!   that typing runs over; [`error`] the diagnostics it can raise.
//! - [`typer`] is the shared inference engine; [`signature`] and
//!   [`body`] drive it with the two persistence and recursion policies,
//!   through the state in [`state`].
//! - [`overload`] selects among overloaded function candidates.
//! - [`toposort`] orders interdependent signatures.
//! - [`typecheck`] aggregates per-item results and diagnostics;
//!   [`db`] owns what a computation reads and produces; [`pretty`]
//!   renders results for display.

pub mod body;
pub mod db;
pub mod error;
pub mod model;
pub mod overload;
pub mod pretty;
pub mod registry;
pub mod signature;
pub mod state;
pub mod toposort;
pub mod ty;
pub mod typecheck;
pub mod typer;
pub mod types;
