//! The closed error taxonomy of the library.
//!
//! Every failure is returned as a value and carries a kind from this
//! taxonomy plus a human-readable message. No constructor ever
//! substitutes a default for a failed precondition.

use vstd::prelude::*;

verus! {

/// The kind of a construction, dispatch or invocation failure.
#[derive(Clone, Copy, PartialEq, Eq, Structural, Debug)]
pub enum ErrorKind {
    /// A transformation constructor's precondition was violated.
    MakeTransformation,
    /// A measurement constructor's precondition was violated.
    MakeMeasurement,
    /// A (domain, metric) pairing or a chain boundary is not well-formed.
    MetricSpace,
    /// Bound arithmetic could not produce a finite sound bound.
    Overflow,
    /// A dispatch type descriptor was malformed or unsupported.
    TypeParse,
    /// Data handed to an invocation violates the declared input domain.
    InvalidData,
}

/// A failure value: a kind from the closed taxonomy and a diagnostic.
#[derive(Clone, Copy, PartialEq, Eq, Debug)]
pub struct Error {
    /// Which class of failure occurred.
    pub kind: ErrorKind,
    /// A human-readable diagnostic, not meant to be machine-parsed.
    pub message: &'static str,
}

} // verus!
