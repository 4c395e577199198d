use vstd::prelude::*;

use crate::types::Span;

verus! {

/// Why compiling a unit stopped. Every error is fatal for the unit.
#[derive(Copy, Clone, Debug, PartialEq, Eq, Structural)]
pub enum CompileError {
    /// A type expression that the front end could not convert, at this span.
    TypeConversionError(Span),
    /// An expression or type shape that is not implemented, or an alias chain
    /// that never reaches a concrete type.
    UnsupportedConstruct,
    /// A lookup failed that a well-formed typed tree always satisfies.
    InternalInvariantViolation,
}

} // verus!
