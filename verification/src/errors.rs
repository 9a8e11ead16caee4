use vstd::prelude::*;

verus! {

/// Everything that can go wrong in this crate.
///
/// `InvalidLength`, `InvalidScalarEncoding` and `PointNotOnCurve` report
/// malformed caller-supplied bytes and are recoverable.  `ParameterError`
/// reports malformed embedded curve parameters.  `RandomSourceError` reports
/// that the secure random source was unavailable during key generation; no
/// weaker source is ever substituted.
///
/// An operation can never run before its context exists, because every
/// operation takes the context by reference; an "uninitialized context" error
/// is therefore unrepresentable here by construction.
#[derive(Clone, Copy, Debug, PartialEq, Eq, Structural)]
pub enum SigError {
    /// A byte buffer does not have the fixed width of what it should encode.
    InvalidLength,
    /// A 20-byte scalar encoding holds an integer at or above the group order.
    InvalidScalarEncoding,
    /// A point encoding does not name a valid element of its group.
    PointNotOnCurve,
    /// The embedded curve parameters are malformed.
    ParameterError,
    /// The secure random source failed during key generation.
    RandomSourceError,
}

} // verus!
