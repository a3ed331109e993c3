//! Errors reported by the scheduler.

use vstd::prelude::*;
use vstd::string::*;

verus! {

/// What can go wrong when a task is submitted or a backend is used.
#[derive(Debug)]
pub enum SchedulerError {
    /// The queue of the target pool is at its maximum depth.
    QueueFull(String),
    /// The task asks for more units than the pool has in total. A resource
    /// pool does not answer with it: it parks such a task.
    CapacityExceeded,
    /// The task's deadline had passed when it was submitted.
    DeadlineExpired,
    /// A storage backend failed; the text says how.
    Backend(String),
    /// The pool was shut down and admits nothing.
    PoolShutdown,
}

impl SchedulerError {
    /// The text of this error as mathematical characters.
    pub open spec fn text(self) -> Seq<char> {
        match self {
            SchedulerError::QueueFull(what) => "queue full: "@ + what@,
            SchedulerError::CapacityExceeded => "capacity exceeded"@,
            SchedulerError::DeadlineExpired => "deadline expired"@,
            SchedulerError::Backend(what) => "backend error: "@ + what@,
            SchedulerError::PoolShutdown => "pool has been shut down"@,
        }
    }

    /// The human-readable text of this error.
    pub fn message(&self) -> (r: String)
        ensures
            r@ == self.text(),
    {
        match self {
            SchedulerError::QueueFull(what) => String::from_str("queue full: ").concat(
                what.as_str(),
            ),
            SchedulerError::CapacityExceeded => String::from_str("capacity exceeded"),
            SchedulerError::DeadlineExpired => String::from_str("deadline expired"),
            SchedulerError::Backend(what) => String::from_str("backend error: ").concat(
                what.as_str(),
            ),
            SchedulerError::PoolShutdown => String::from_str("pool has been shut down"),
        }
    }
}

} // verus!
