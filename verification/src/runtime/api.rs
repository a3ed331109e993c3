//! Requests and responses, and the functions that serve them.

use vstd::prelude::*;
use crate::config::pool::SchedulerConfig;
use crate::scheduler::backend::{Mailbox, TaskQueue};
use crate::scheduler::error::SchedulerError;
use crate::scheduler::resource_pool::{Admission, ResourcePool};
use crate::scheduler::task::{ScheduledTask, TaskMetadata, TaskStatus};
use crate::util::serde::{MailboxKey, Priority, ResourceCost, TaskId};

verus! {

/// A request to run a task.
#[derive(Debug)]
pub struct TaskSubmission<P> {
    /// Identifier of the task.
    pub task_id: TaskId,
    /// Priority of the task.
    pub priority: Priority,
    /// Units that the task holds while it runs.
    pub resource_cost: ResourceCost,
    /// Absolute deadline in milliseconds since the epoch, if any.
    pub deadline_ms: Option<u128>,
    /// Where the outcome goes, if anywhere.
    pub mailbox_key: Option<MailboxKey>,
    /// Creation time in milliseconds since the epoch.
    pub created_at_ms: u128,
    /// Payload for the executor.
    pub payload: P,
}

/// The status of a task, as reported to a client.
#[derive(Debug)]
pub struct TaskStatusResponse {
    /// Identifier of the task.
    pub task_id: TaskId,
    /// Where the task stands.
    pub status: TaskStatus,
    /// Why the task failed or was dropped, if it was.
    pub reason: Option<String>,
}

/// A pool in a listing.
#[derive(Debug)]
pub struct PoolSnapshot {
    /// The pool's name.
    pub name: String,
    /// The units that running tasks may hold together.
    pub max_units: u32,
    /// The number of tasks that may be parked.
    pub max_queue_depth: usize,
}

/// The answer to a health check.
#[derive(Debug, Clone, Copy, PartialEq, Eq, Structural)]
pub struct Health {
    /// Whether the scheduler is healthy.
    pub ok: bool,
}

impl<P> TaskSubmission<P> {
    /// The task that this request asks to run.
    pub open spec fn task(self) -> ScheduledTask<P> {
        ScheduledTask {
            meta: TaskMetadata {
                id: self.task_id,
                mailbox: self.mailbox_key,
                priority: self.priority,
                cost: self.resource_cost,
                deadline_ms: self.deadline_ms,
                created_at_ms: self.created_at_ms,
            },
            payload: self.payload,
        }
    }
}

/// Submits the task of the request `req` to `pool` at the time `now_ms`, as
/// `ResourcePool::submit` does, and turns an error into its text.
pub fn submit_task<P, T, Q, M>(
    pool: &mut ResourcePool<P, T, Q, M>,
    req: TaskSubmission<P>,
    now_ms: u128,
) -> (r: Result<Admission<P>, String>) where Q: TaskQueue<P>, M: Mailbox<T>
    requires
        old(pool).well_formed(),
    ensures
        final(pool).well_formed(),
        match r {
            Ok(admission) => ResourcePool::admitted(
                old(pool),
                final(pool),
                req.task(),
                now_ms,
                Ok(admission),
            ),
            Err(why) => exists|e: SchedulerError|
                why@ == e.text() && #[trigger] ResourcePool::admitted(
                    old(pool),
                    final(pool),
                    req.task(),
                    now_ms,
                    Err(e),
                ),
        },
{
    let meta = TaskMetadata {
        id: req.task_id,
        mailbox: req.mailbox_key,
        priority: req.priority,
        cost: req.resource_cost,
        deadline_ms: req.deadline_ms,
        created_at_ms: req.created_at_ms,
    };
    let task = ScheduledTask { meta, payload: req.payload };
    match pool.submit(task, now_ms) {
        Ok(admission) => Ok(admission),
        Err(e) => Err(e.message()),
    }
}

/// Lists the pools of `cfg` with their limits, in the order of `cfg`.
pub fn list_pools(cfg: &SchedulerConfig) -> (r: Vec<PoolSnapshot>)
    ensures
        r@.len() == cfg.entries().len(),
        forall|i: int|
            0 <= i < r@.len() ==> (#[trigger] r@[i]).name@ == cfg.entries()[i].name@
                && r@[i].max_units == cfg.entries()[i].config.max_units && r@[i].max_queue_depth
                == cfg.entries()[i].config.max_queue_depth,
{
    let mut out: Vec<PoolSnapshot> = Vec::new();
    let mut i: usize = 0;
    while i < cfg.len()
        invariant
            i <= cfg.entries().len(),
            out@.len() == i,
            forall|j: int|
                0 <= j < i ==> (#[trigger] out@[j]).name@ == cfg.entries()[j].name@
                    && out@[j].max_units == cfg.entries()[j].config.max_units
                    && out@[j].max_queue_depth == cfg.entries()[j].config.max_queue_depth,
        decreases cfg.entries().len() - i,
    {
        let pool = cfg.pool_at(i);
        out.push(
            PoolSnapshot {
                name: pool.name.clone(),
                max_units: pool.config.max_units,
                max_queue_depth: pool.config.max_queue_depth,
            },
        );
        i += 1;
    }
    out
}

/// The answer to a health check: healthy.
pub fn health() -> (r: Health)
    ensures
        r.ok,
{
    Health { ok: true }
}

} // verus!
