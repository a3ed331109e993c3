//! Tasks, their metadata and their place in the lifecycle.

use vstd::prelude::*;
use crate::util::serde::{MailboxKey, Priority, ResourceCost, TaskId};

verus! {

/// Where a task stands in its lifecycle.
#[derive(Debug)]
pub enum TaskStatus {
    /// Parked in the queue, waiting for capacity.
    Queued,
    /// Holding capacity and executing.
    Running,
    /// Finished with a result.
    Completed,
    /// Finished without a result; the text says why.
    Failed(String),
    /// Removed from the queue because its deadline passed.
    Expired,
    /// Rejected or dropped; the text says why.
    Dropped(String),
}

impl Clone for TaskStatus {
    fn clone(&self) -> (r: Self)
        ensures
            r == *self,
    {
        match self {
            TaskStatus::Queued => TaskStatus::Queued,
            TaskStatus::Running => TaskStatus::Running,
            TaskStatus::Completed => TaskStatus::Completed,
            TaskStatus::Failed(why) => TaskStatus::Failed(why.clone()),
            TaskStatus::Expired => TaskStatus::Expired,
            TaskStatus::Dropped(why) => TaskStatus::Dropped(why.clone()),
        }
    }
}

/// What the scheduler knows about a task.
#[derive(Debug)]
pub struct TaskMetadata {
    /// Identifier chosen by the caller.
    pub id: TaskId,
    /// Where the outcome goes, if anywhere.
    pub mailbox: Option<MailboxKey>,
    /// Priority that orders the queue.
    pub priority: Priority,
    /// Units held while the task runs.
    pub cost: ResourceCost,
    /// Absolute deadline in milliseconds since the epoch, if any.
    pub deadline_ms: Option<u128>,
    /// Creation time in milliseconds since the epoch.
    pub created_at_ms: u128,
}

impl TaskMetadata {
    /// Whether the deadline lies strictly before `now_ms`. A task without a
    /// deadline never expires, and a deadline equal to `now_ms` is still met.
    pub open spec fn expired_at(self, now_ms: u128) -> bool {
        match self.deadline_ms {
            Some(deadline) => deadline < now_ms,
            None => false,
        }
    }

    /// Whether `self` must leave the queue strictly before `other`: a higher
    /// priority wins, and within one priority the earlier creation time.
    pub open spec fn outranks(self, other: TaskMetadata) -> bool {
        self.priority.rank() > other.priority.rank() || (self.priority.rank()
            == other.priority.rank() && self.created_at_ms < other.created_at_ms)
    }

    /// Whether the deadline lies strictly before `now_ms`.
    pub fn is_expired(&self, now_ms: u128) -> (r: bool)
        ensures
            r == self.expired_at(now_ms),
    {
        match self.deadline_ms {
            Some(deadline) => deadline < now_ms,
            None => false,
        }
    }
}

impl Clone for TaskMetadata {
    fn clone(&self) -> (r: Self)
        ensures
            r == *self,
    {
        let mailbox = match &self.mailbox {
            Some(key) => Some(key.clone()),
            None => None,
        };
        TaskMetadata {
            id: self.id,
            mailbox,
            priority: self.priority,
            cost: self.cost,
            deadline_ms: self.deadline_ms,
            created_at_ms: self.created_at_ms,
        }
    }
}

/// A task as submitted: metadata for the scheduler and a payload for the
/// executor. The scheduler never looks inside the payload.
#[derive(Debug)]
pub struct ScheduledTask<P> {
    /// Metadata that drives every scheduling decision.
    pub meta: TaskMetadata,
    /// Payload handed to the executor.
    pub payload: P,
}

/// Whether a sequence of tasks is in dequeue order: no task is outranked by a
/// later one.
pub open spec fn ranked<P>(tasks: Seq<ScheduledTask<P>>) -> bool {
    forall|i: int, j: int|
        0 <= i < j < tasks.len() ==> !(#[trigger] tasks[j]).meta.outranks(
            (#[trigger] tasks[i]).meta,
        )
}

/// The index at which `task` is parked in a queue `tasks`: behind every task
/// that it does not outrank, so behind its equals.
pub open spec fn park_index<P>(tasks: Seq<ScheduledTask<P>>, task: ScheduledTask<P>) -> int
    decreases tasks.len(),
{
    if tasks.len() == 0 || task.meta.outranks(tasks[0].meta) {
        0
    } else {
        1 + park_index(tasks.drop_first(), task)
    }
}

/// The queue `tasks` after `task` was parked in it.
pub open spec fn parked<P>(tasks: Seq<ScheduledTask<P>>, task: ScheduledTask<P>) -> Seq<
    ScheduledTask<P>,
> {
    tasks.insert(park_index(tasks, task), task)
}

/// The test that a task's deadline has not passed at `now_ms`.
pub open spec fn still_due<P>(now_ms: u128) -> spec_fn(ScheduledTask<P>) -> bool {
    |t: ScheduledTask<P>| !t.meta.expired_at(now_ms)
}

/// The tasks of `tasks` whose deadline has not passed at `now_ms`, in order.
pub open spec fn unexpired<P>(tasks: Seq<ScheduledTask<P>>, now_ms: u128) -> Seq<
    ScheduledTask<P>,
> {
    tasks.filter(still_due(now_ms))
}

/// `park_index` lies within the queue, every task before it is not outranked
/// by `task`, and the task at it, if any, is.
pub proof fn lemma_park_index<P>(tasks: Seq<ScheduledTask<P>>, task: ScheduledTask<P>)
    ensures
        0 <= park_index(tasks, task) <= tasks.len(),
        forall|i: int|
            0 <= i < park_index(tasks, task) ==> !task.meta.outranks((#[trigger] tasks[i]).meta),
        park_index(tasks, task) < tasks.len() ==> task.meta.outranks(
            tasks[park_index(tasks, task)].meta,
        ),
    decreases tasks.len(),
{
    if tasks.len() == 0 || task.meta.outranks(tasks[0].meta) {
    } else {
        let rest = tasks.drop_first();
        lemma_park_index(rest, task);
        assert forall|i: int| 0 <= i < park_index(tasks, task) implies !task.meta.outranks(
            (#[trigger] tasks[i]).meta,
        ) by {
            if i > 0 {
                assert(tasks[i] == rest[i - 1]);
            }
        }
        if park_index(tasks, task) < tasks.len() {
            assert(tasks[park_index(tasks, task)] == rest[park_index(rest, task)]);
        }
    }
}

/// Tasks leave a queue in non-increasing priority and, within one priority,
/// in non-decreasing creation time: of two tasks in dequeue order the earlier
/// one has the higher priority, or the same priority and a creation time that
/// is not later.
pub proof fn lemma_dequeue_order<P>(tasks: Seq<ScheduledTask<P>>, i: int, j: int)
    requires
        ranked(tasks),
        0 <= i <= j < tasks.len(),
    ensures
        tasks[i].meta.priority.rank() >= tasks[j].meta.priority.rank(),
        tasks[i].meta.priority.rank() == tasks[j].meta.priority.rank()
            ==> tasks[i].meta.created_at_ms <= tasks[j].meta.created_at_ms,
{
    if i < j {
        assert(!tasks[j].meta.outranks(tasks[i].meta));
    }
}

/// What is left of a queue in dequeue order after its head was taken out is
/// in dequeue order.
pub proof fn lemma_ranked_tail<P>(tasks: Seq<ScheduledTask<P>>)
    requires
        ranked(tasks),
        tasks.len() > 0,
    ensures
        ranked(tasks.drop_first()),
{
    let rest = tasks.drop_first();
    assert forall|i: int, j: int| 0 <= i < j < rest.len() implies !(#[trigger] rest[j]).meta.outranks(
        (#[trigger] rest[i]).meta,
    ) by {
        assert(!tasks[j + 1].meta.outranks(tasks[i + 1].meta));
    }
}

/// Parking keeps a queue in dequeue order, and puts the task behind every
/// task of its own priority and creation time: first come, first served.
pub proof fn lemma_parked_ranked<P>(tasks: Seq<ScheduledTask<P>>, task: ScheduledTask<P>)
    requires
        ranked(tasks),
    ensures
        ranked(parked(tasks, task)),
        forall|i: int|
            0 <= i < tasks.len() && !task.meta.outranks((#[trigger] tasks[i]).meta)
                && !tasks[i].meta.outranks(task.meta) ==> i < park_index(tasks, task),
{
    lemma_park_index(tasks, task);
    let at = park_index(tasks, task);
    let grown = parked(tasks, task);
    assert forall|i: int, j: int| 0 <= i < j < grown.len() implies !(#[trigger] grown[j]).meta.outranks(
        (#[trigger] grown[i]).meta,
    ) by {
        if j < at {
            assert(!tasks[j].meta.outranks(tasks[i].meta));
        } else if j == at {
        } else if i < at {
            assert(!tasks[j - 1].meta.outranks(tasks[i].meta));
        } else if i == at {
            if j - 1 > at {
                assert(!tasks[j - 1].meta.outranks(tasks[at].meta));
            }
        } else {
            assert(!tasks[j - 1].meta.outranks(tasks[i - 1].meta));
        }
    }
    assert forall|i: int|
        0 <= i < tasks.len() && !task.meta.outranks((#[trigger] tasks[i]).meta)
            && !tasks[i].meta.outranks(task.meta) implies i < at by {
        if i >= at {
            if i > at {
                assert(!tasks[i].meta.outranks(tasks[at].meta));
            }
        }
    }
}

/// A deadline equal to the time of the check is met: only a deadline strictly
/// before it has expired.
pub proof fn lemma_deadline_boundary(meta: TaskMetadata, now_ms: u128)
    requires
        meta.deadline_ms == Some(now_ms),
    ensures
        !meta.expired_at(now_ms),
{
}

} // verus!
