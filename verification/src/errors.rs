//! The error taxonomy of the public call surface.

use vstd::prelude::*;

verus! {

/// Every public operation returns a success-or-error result; these are the
/// domain errors. `InvalidInput` covers malformed or out-of-range submitted
/// fields, including a field whose serialized form would not fit in a record.
#[derive(Debug, PartialEq, Eq)]
pub enum Error {
    /// A submitted field is malformed or out of range.
    InvalidInput { msg: String },
    /// A record with the requested identifier, or matching the requested
    /// filter, does not exist.
    NotFound { msg: String },
    /// The task addressed by `complete_task` does not exist.
    TaskNotFound,
    /// The task is already completed; completion is one-way.
    TaskAlreadyDone,
    /// The task's deadline has elapsed.
    DeadlineAlreadyPassed,
    /// The caller fails the relevant access-control check.
    NotAuthorized,
    /// The submitted assignee is not a registered member.
    MemberNotFound,
}

} // verus!
