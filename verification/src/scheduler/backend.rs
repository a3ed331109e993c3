//! The interfaces that a pool asks of its queue and its mailbox.

use vstd::prelude::*;
use crate::infra::mailbox::memory::MailboxMessage;
use crate::scheduler::error::SchedulerError;
use crate::scheduler::task::{parked, ranked, unexpired, ScheduledTask, TaskStatus};
use crate::util::serde::{MailboxKey, MailboxKeyView};

verus! {

/// A bounded queue of parked tasks.
///
/// A backend may keep its tasks anywhere. What the pool relies on is stated
/// here over `pending`, the parked tasks in the order in which `dequeue` hands
/// them out: higher priority first, within one priority the earlier creation
/// time first, and among equals the one that arrived first.
pub trait TaskQueue<P>: Sized {
    /// The parked tasks, next to leave first. Of a backend that does not
    /// say what it holds, nothing is known.
    open spec fn pending(&self) -> Seq<ScheduledTask<P>> {
        arbitrary()
    }

    /// The largest number of tasks that the queue holds.
    open spec fn depth_limit(&self) -> nat {
        arbitrary()
    }

    /// The backend's own invariant. A backend that states none has none.
    open spec fn well_formed(&self) -> bool {
        true
    }

    /// Whether the backend never reports a failure of its own. A reliable
    /// queue refuses a task only when it is full. A backend that does not
    /// say so is taken not to be reliable.
    open spec fn reliable(&self) -> bool {
        false
    }

    /// Parks `task`, unless the queue is full.
    fn enqueue(&mut self, task: ScheduledTask<P>) -> (r: Result<(), SchedulerError>)
        requires
            old(self).well_formed(),
            ranked(old(self).pending()),
            old(self).pending().len() <= old(self).depth_limit(),
        ensures
            final(self).well_formed(),
            ranked(final(self).pending()),
            final(self).pending().len() <= final(self).depth_limit(),
            final(self).depth_limit() == old(self).depth_limit(),
            final(self).reliable() == old(self).reliable(),
            match r {
                Ok(()) => old(self).pending().len() < old(self).depth_limit()
                    && final(self).pending() == parked(old(self).pending(), task),
                Err(SchedulerError::QueueFull(_)) => old(self).pending().len()
                    >= old(self).depth_limit() && final(self).pending() == old(self).pending(),
                Err(SchedulerError::Backend(_)) => !old(self).reliable() && final(self).pending()
                    == old(self).pending(),
                Err(_) => false,
            },
    ;

    /// Takes out the task that is next to leave, if there is one.
    fn dequeue(&mut self) -> (r: Result<Option<ScheduledTask<P>>, SchedulerError>)
        requires
            old(self).well_formed(),
            ranked(old(self).pending()),
            old(self).pending().len() <= old(self).depth_limit(),
        ensures
            final(self).well_formed(),
            ranked(final(self).pending()),
            final(self).pending().len() <= final(self).depth_limit(),
            final(self).depth_limit() == old(self).depth_limit(),
            final(self).reliable() == old(self).reliable(),
            match r {
                Ok(Some(task)) => old(self).pending().len() > 0 && task == old(self).pending()[0]
                    && final(self).pending() == old(self).pending().drop_first(),
                Ok(None) => old(self).pending().len() == 0 && final(self).pending() == old(self).pending(),
                Err(SchedulerError::Backend(_)) => !old(self).reliable() && final(self).pending()
                    == old(self).pending(),
                Err(_) => false,
            },
    ;

    /// Removes every task whose deadline lies before `now_ms` and returns how
    /// many were removed. The others keep their order.
    fn prune_expired(&mut self, now_ms: u128) -> (r: Result<usize, SchedulerError>)
        requires
            old(self).well_formed(),
            ranked(old(self).pending()),
            old(self).pending().len() <= old(self).depth_limit(),
        ensures
            final(self).well_formed(),
            ranked(final(self).pending()),
            final(self).pending().len() <= final(self).depth_limit(),
            final(self).depth_limit() == old(self).depth_limit(),
            final(self).reliable() == old(self).reliable(),
            match r {
                Ok(removed) => final(self).pending() == unexpired(old(self).pending(), now_ms)
                    && removed == old(self).pending().len() - final(self).pending().len(),
                Err(SchedulerError::Backend(_)) => !old(self).reliable() && final(self).pending()
                    == old(self).pending(),
                Err(_) => false,
            },
    ;

    /// The largest number of tasks that the queue holds.
    fn max_depth(&self) -> (r: usize)
        ensures
            r == self.depth_limit(),
    ;

    /// The number of parked tasks.
    fn len(&self) -> (r: usize)
        requires
            self.well_formed(),
            ranked(self.pending()),
            self.pending().len() <= self.depth_limit(),
        ensures
            r == self.pending().len(),
    ;
}

/// Whether the log `after` is the log `before` with one more message at its
/// end, which carries `status` and `payload`.
pub open spec fn delivered<T>(
    before: Seq<MailboxMessage<T>>,
    after: Seq<MailboxMessage<T>>,
    status: TaskStatus,
    payload: Option<T>,
) -> bool {
    &&& after.len() == before.len() + 1
    &&& after.drop_last() == before
    &&& after.last().status == status
    &&& after.last().payload == payload
}

/// A store of task outcomes, one log of messages for each mailbox key.
pub trait Mailbox<T>: Sized {
    /// The messages delivered to `key`, oldest first. Of a backend that does
    /// not say what it holds, nothing is known.
    open spec fn log(&self, key: MailboxKeyView) -> Seq<MailboxMessage<T>> {
        arbitrary()
    }

    /// The backend's own invariant. A backend that states none has none.
    open spec fn well_formed(&self) -> bool {
        true
    }

    /// Whether the backend never reports a failure of its own. A backend
    /// that does not say so is taken not to be reliable.
    open spec fn reliable(&self) -> bool {
        false
    }

    /// Appends one message with `status` and `payload` to the log of `key`,
    /// stamped with the time of delivery. No other log changes.
    fn deliver(&mut self, key: &MailboxKey, status: TaskStatus, payload: Option<T>) -> (r: Result<
        (),
        SchedulerError,
    >)
        requires
            old(self).well_formed(),
        ensures
            final(self).well_formed(),
            final(self).reliable() == old(self).reliable(),
            forall|other: MailboxKeyView|
                other != key@ ==> #[trigger] final(self).log(other) == old(self).log(other),
            match r {
                Ok(()) => delivered(old(self).log(key@), final(self).log(key@), status, payload),
                Err(SchedulerError::Backend(_)) => !old(self).reliable() && final(self).log(key@)
                    == old(self).log(key@),
                Err(_) => false,
            },
    ;
}

/// Whether a queue is fit for use: its own invariant holds, its tasks are in
/// dequeue order, and they are no more than its depth limit allows. Every
/// operation of a queue asks for this and keeps it.
pub open spec fn in_order<P, Q: TaskQueue<P>>(queue: &Q) -> bool {
    &&& queue.well_formed()
    &&& ranked(queue.pending())
    &&& queue.pending().len() <= queue.depth_limit()
}

} // verus!
