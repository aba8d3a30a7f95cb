//! The ways in which a contest operation can fail.

use vstd::prelude::*;

verus! {

/// Why an operation was refused. A refused operation leaves the ledger as it was.
#[derive(Clone, Copy, Debug, PartialEq, Eq, Structural)]
pub enum ContestError {
    /// A text field is longer than its bound.
    ConstraintViolation,
    /// The ledger has no storage left for the new record.
    ResourceExhausted,
    /// The address voted on holds no valid submission.
    SubmissionNotFound,
    /// The receipt address of this voter and submission is already occupied.
    DuplicateVote,
    /// The submission's counter is at its maximum.
    CounterOverflow,
}

} // verus!
