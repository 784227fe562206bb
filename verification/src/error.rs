//! What the runtime reports to its callers.

use vstd::prelude::*;

verus! {

/// A bounded queue was full: the request was not taken and the queue is as
/// it was.
#[derive(Clone, Copy, Debug, PartialEq, Eq, Structural)]
pub struct CapacityError;

/// The monotonic timer would wrap before the instant asked for, or a task
/// resumes later than the instant it asked for.
#[derive(Clone, Copy, Debug, PartialEq, Eq, Structural)]
pub struct TimerOverrun;

/// Why a task could not be suspended.
#[derive(Clone, Copy, Debug, PartialEq, Eq, Structural)]
pub enum DelayError {
    /// The timer queue was full.
    Capacity(CapacityError),
    /// The wake instant lies beyond what the monotonic timer can count.
    Overrun(TimerOverrun),
}

} // verus!
