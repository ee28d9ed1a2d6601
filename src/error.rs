use vstd::prelude::*;

verus! {

/// Why an operation on a queue was refused.
#[derive(Debug, Clone, Copy, PartialEq, Eq, Structural)]
pub enum ValqError {
    /// A queue name must not be empty.
    EmptyName,
    /// The visibility timeout lies outside `1..=VISIBILITY_TIMEOUT_MAX`.
    VisibilityTimeoutOutOfRange,
    /// The delivery-attempt limit lies outside `1..=DELIVERY_ATTEMPTS_MAX`.
    MaxDeliveryAttemptsOutOfRange,
    /// The retention period lies outside `RETENTION_PERIOD_MIN..=RETENTION_PERIOD_MAX`.
    RetentionPeriodOutOfRange,
    /// An extension beyond `VISIBILITY_TIMEOUT_MAX` seconds.
    ExtendTimeoutOutOfRange,
    /// A queue of that name already exists.
    QueueExists,
    /// No queue of that name exists.
    QueueNotFound,
    /// No message with this id is ready or in flight.
    MessageNotFound(u64),
    /// A write was sent directly to a read-only replica.
    ReadOnlyReplica,
}

} // verus!
