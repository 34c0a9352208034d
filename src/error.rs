use vstd::prelude::*;

verus! {

/// Every way a queue operation can fail. The set is closed so that callers
/// handle lease races explicitly.
#[derive(Debug, Clone, Copy, PartialEq, Eq, Structural)]
pub enum QueueError {
    /// A malformed `JobInit` or `JobUpdate`; retrying cannot help.
    ValidationError,
    /// The backing store could not be reached; callers may retry with backoff.
    StoreUnavailable,
    /// The referenced job does not exist.
    NotFound,
    /// The caller's lease has lapsed or was reclaimed.
    LeaseExpired,
    /// The caller's lease token is not the job's current lease.
    LeaseMismatch,
    /// A payload or metadata value could not be encoded or decoded.
    SerializationError,
}

impl QueueError {
    /// A short stable label for the error, for logs and metrics.
    pub fn label(&self) -> (r: &'static str)
        ensures
            r@ == match self {
                QueueError::ValidationError => "validation_error"@,
                QueueError::StoreUnavailable => "store_unavailable"@,
                QueueError::NotFound => "not_found"@,
                QueueError::LeaseExpired => "lease_expired"@,
                QueueError::LeaseMismatch => "lease_mismatch"@,
                QueueError::SerializationError => "serialization_error"@,
            },
    {
        match self {
            QueueError::ValidationError => "validation_error",
            QueueError::StoreUnavailable => "store_unavailable",
            QueueError::NotFound => "not_found",
            QueueError::LeaseExpired => "lease_expired",
            QueueError::LeaseMismatch => "lease_mismatch",
            QueueError::SerializationError => "serialization_error",
        }
    }
}

} // verus!
