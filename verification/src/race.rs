//! The resolution policy of one window's race: both candidates are validated
//! concurrently by the caller, and as their outcomes arrive this state
//! machine decides when the race is over and with what verdict.

use vstd::prelude::*;

use crate::candidate::CANDIDATES_PER_WINDOW;
use crate::validator::ValidationOutcome;

verus! {

/// How one window's race ended.
#[derive(Clone, Copy, Debug, PartialEq, Eq, Structural)]
pub enum RaceVerdict {
    /// Some candidate validated; the window holds a syntactically valid
    /// fragment.
    Found,
    /// Every candidate resolved without a `Valid` outcome.
    Exhausted,
    /// The window's wall-clock deadline elapsed before any `Valid` outcome.
    DeadlineExpired,
}

/// What the race tells the caller after each recorded outcome.
#[derive(Clone, Copy, Debug, PartialEq, Eq, Structural)]
pub enum RaceStatus {
    /// Candidates are still pending; keep waiting on them.
    Waiting,
    /// The race is over; stop and cancel whatever is still in flight.
    Resolved(RaceVerdict),
}

/// One window's race over its candidates.  The caller records each
/// validation outcome as it completes; `Valid` short-circuits, `Invalid` and
/// `ValidatorError` are both non-terminal, and an empty pending set without a
/// `Valid` resolves to `Exhausted`.
pub struct WindowRace {
    /// How many candidate validations have not reported yet.
    pub pending: usize,
}

impl WindowRace {
    /// A fresh race over the two candidates of one window.
    pub fn new() -> (r: WindowRace)
        ensures
            r.pending == CANDIDATES_PER_WINDOW,
    {
        WindowRace { pending: CANDIDATES_PER_WINDOW }
    }

    /// Records one completed validation.  A `Valid` outcome resolves the race
    /// to `Found` at once, whatever is still pending; any other outcome is
    /// absorbed, and the race resolves to `Exhausted` only when nothing is
    /// left to wait for.
    pub fn record(&mut self, o: ValidationOutcome) -> (st: RaceStatus)
        requires
            old(self).pending >= 1,
        ensures
            final(self).pending == old(self).pending - 1,
            st == match o {
                ValidationOutcome::Valid => RaceStatus::Resolved(RaceVerdict::Found),
                _ => if old(self).pending == 1 {
                    RaceStatus::Resolved(RaceVerdict::Exhausted)
                } else {
                    RaceStatus::Waiting
                },
            },
    {
        self.pending = self.pending - 1;
        match o {
            ValidationOutcome::Valid => RaceStatus::Resolved(RaceVerdict::Found),
            _ => {
                if self.pending == 0 {
                    RaceStatus::Resolved(RaceVerdict::Exhausted)
                } else {
                    RaceStatus::Waiting
                }
            },
        }
    }

    /// The verdict when the window's deadline elapses first: the race is
    /// over, distinct from mere exhaustion.
    pub fn expire(&self) -> (st: RaceStatus)
        ensures
            st == RaceStatus::Resolved(RaceVerdict::DeadlineExpired),
    {
        RaceStatus::Resolved(RaceVerdict::DeadlineExpired)
    }
}

} // verus!
