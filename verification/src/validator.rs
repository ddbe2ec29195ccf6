//! Mapping what happened to one checker invocation onto the outcome the race
//! consumes.  The checker itself is an external process run by the caller;
//! only its observable end — an exit status, or a failure to run at all — is
//! interpreted here.

use vstd::prelude::*;

verus! {

/// What the caller observed of one checker process.
#[derive(Clone, Copy, Debug, PartialEq, Eq, Structural)]
pub enum CheckerReport {
    /// The process ran to completion; the field is whether it exited with
    /// success status.
    Exited(bool),
    /// The process could not be spawned, its input could not be written, or
    /// waiting for it failed: a malfunction of the validator, not a verdict.
    Failed,
}

/// The verdict of one candidate's validation.
#[derive(Clone, Copy, Debug, PartialEq, Eq, Structural)]
pub enum ValidationOutcome {
    /// The checker accepted the buffer: the window is syntactically valid.
    Valid,
    /// The checker rejected the buffer.
    Invalid,
    /// The validation itself malfunctioned; says nothing about the syntax.
    ValidatorError,
}

/// The exit-status contract of the checker: success means valid, any other
/// exit means invalid, and a run that never produced an exit status is a
/// validator error.
pub open spec fn outcome_of_report(r: CheckerReport) -> ValidationOutcome {
    match r {
        CheckerReport::Exited(true) => ValidationOutcome::Valid,
        CheckerReport::Exited(false) => ValidationOutcome::Invalid,
        CheckerReport::Failed => ValidationOutcome::ValidatorError,
    }
}

/// Turns a checker report into the outcome the race consumes.
pub fn classify_report(r: CheckerReport) -> (o: ValidationOutcome)
    ensures
        o == outcome_of_report(r),
{
    match r {
        CheckerReport::Exited(true) => ValidationOutcome::Valid,
        CheckerReport::Exited(false) => ValidationOutcome::Invalid,
        CheckerReport::Failed => ValidationOutcome::ValidatorError,
    }
}

} // verus!
