//! What one fetch attempt comes to.

use vstd::prelude::*;

verus! {

/// Why a fetch yielded nothing.
#[derive(Debug, Clone, Copy, PartialEq, Eq, Structural)]
pub enum FailureReason {
    /// The request ran into its time limit.
    Timeout,
    /// The connection failed.
    Transport,
    /// The body could not be decoded.
    Decode,
}

/// The outcome of one attempt: what was fetched, or why nothing was.
#[derive(Debug, Clone, PartialEq, Eq)]
pub enum FetchOutcome<T> {
    /// The attempt succeeded and brought this.
    Fetched(T),
    /// The attempt failed; it is neither repeated nor fatal.
    Failed(FailureReason),
}

impl<T> FetchOutcome<T> {
    /// Whether the attempt brought something.
    pub fn is_fetched(&self) -> (fetched: bool)
        ensures
            fetched == (self is Fetched),
    {
        match self {
            FetchOutcome::Fetched(_) => true,
            FetchOutcome::Failed(_) => false,
        }
    }
}

} // verus!
