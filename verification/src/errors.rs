use vstd::prelude::*;

verus! {

/// Failure of an embedding or ranking request. Every stage fails fast: the
/// first error aborts the whole request, nothing is retried, and no failure is
/// downgraded to a default value.
#[derive(Debug, PartialEq, Eq)]
pub enum Error {
    /// A dimensionality or size mismatch between stages: a non-rectangular
    /// token batch, a pooling input with an empty sequence axis, or a query
    /// vector whose width differs from the store's.
    Shape,
    /// A numeric edge case that must not be handled silently: a row of zero
    /// norm handed to normalization, or a NaN similarity score that would make
    /// the ranking order meaningless.
    Numeric,
    /// A collaborator (tokenizer, encoder, or tensor backend) signaled
    /// failure; its message is propagated unchanged.
    Upstream(String),
}

} // verus!
