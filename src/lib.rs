//! A compiler backend core for a small functional language with curried
//! functions, closures over captured variables and structural sum types.
//!
//! The pipeline runs one way: the typed tree of [`frontend`] is lowered by
//! [`ir`] into an SSA instruction stream, which then gets the lifetimes of
//! its locals and explicit reference counting. [`canon`] flattens sum types
//! into tagged-union layouts, and [`runtime`] models the closure calling
//! convention and casts between sums. [`balance`] proves that the inserted
//! retains and releases balance.

/// Types of the source language and their views.
pub mod types;
/// Errors that stop the compilation of a unit.
pub mod error;
/// The typed expression tree handed to the backend.
pub mod frontend;
/// The SSA form: lowering, lifetimes, reference counting.
pub mod ir;
/// The reference-count ledger of the SSA streams.
pub mod balance;
/// Alias resolution, sum flattening and tag tables.
pub mod canon;
/// Run-time values, argument slots, closures and casts.
pub mod runtime;
/// Names as the emitted code spells them.
pub mod names;
