use vstd::prelude::*;

verus! {

/// Failures surfaced by the coordination-service client, as the harness
/// classifies them. Every variant but `NoNodeError` is fatal to a run:
/// the harness never retries, a failed operation aborts the measurement.
#[derive(Clone, Copy, Debug, PartialEq, Eq, Structural)]
pub enum HarnessError {
    /// A session could not be established, or was lost mid-call.
    ConnectionError,
    /// A non-sequential create collided with an existing path.
    NodeExistsError,
    /// A guarded delete saw a different version than the one read.
    VersionMismatchError,
    /// The addressed node does not exist.
    NoNodeError,
    /// Any other service-side failure.
    OperationError,
}

impl HarnessError {
    /// Deleting a node that is already absent is benign during cleanup:
    /// the goal (node gone) is met, so the caller treats it as success.
    pub fn is_benign_delete(&self) -> (r: bool)
        ensures
            r <==> *self == HarnessError::NoNodeError,
    {
        matches!(self, HarnessError::NoNodeError)
    }

    /// Whether this error aborts the run; exactly the complement of the
    /// benign-delete case.
    pub fn is_fatal(&self) -> (r: bool)
        ensures
            r <==> *self != HarnessError::NoNodeError,
    {
        !matches!(self, HarnessError::NoNodeError)
    }
}

} // verus!
