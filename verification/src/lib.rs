//! A cooperative scheduler for a fixed set of periodic tasks.
//!
//! A [`Task`] is a callback with a period and a priority; it knows when it
//! last ran and tells, for a reading of the clock, whether it is due and by
//! how many periods it is late. A [`Scheduler`] holds a fixed number of tasks
//! and a [`Clock`]: at each turn it reads the clock, chooses one task among
//! those that are due, and runs it. Nothing is preempted and nothing
//! allocates.

use vstd::prelude::*;

pub mod scheduler;
pub mod selection;
pub mod task;
pub mod time;

pub use scheduler::{Halt, Scheduler};
pub use selection::Report;
pub use task::{Task, TaskView};
pub use time::{Clock, ClockError, FixedClock, Fraction, Instant, Milliseconds, TimeError};

verus! {

/// Adds two sizes whose sum fits in a `usize`.
pub fn add(left: usize, right: usize) -> (sum: usize)
    requires
        left + right <= usize::MAX,
    ensures
        sum == left + right,
{
    left + right
}

} // verus!
