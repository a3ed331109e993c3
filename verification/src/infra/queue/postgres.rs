//! Queue in a relational database: the schema, and a backend that is not
//! connected.

use std::marker::PhantomData;
use vstd::prelude::*;
use vstd::string::*;
use crate::scheduler::backend::{in_order, TaskQueue};
use crate::scheduler::error::SchedulerError;
use crate::scheduler::task::{ranked, ScheduledTask};

verus! {

/// The SQL that creates the queue table and its indexes: by priority,
/// highest first, then by creation time, and by deadline.
pub const QUEUE_SCHEMA: &'static str = r#"
CREATE TABLE IF NOT EXISTS pl_queue_jobs (
    id BIGSERIAL PRIMARY KEY,
    task_id TEXT NOT NULL,
    pool TEXT NOT NULL,
    priority SMALLINT NOT NULL,
    cost_units INT NOT NULL,
    deadline_ms NUMERIC,
    payload JSONB NOT NULL,
    created_at TIMESTAMPTZ NOT NULL DEFAULT NOW()
);
CREATE INDEX IF NOT EXISTS idx_pl_queue_jobs_priority ON pl_queue_jobs (priority DESC, created_at);
CREATE INDEX IF NOT EXISTS idx_pl_queue_jobs_deadline ON pl_queue_jobs (deadline_ms);
"#;

/// Queue backend for a relational database. No database is connected: it
/// holds no task, refuses every task with a backend error, and is therefore
/// not reliable.
pub struct PostgresQueue<P> {
    max_depth: usize,
    _marker: PhantomData<P>,
}

impl<P> PostgresQueue<P> {
    /// Creates the backend with a depth limit of `max_depth`.
    pub fn new(max_depth: usize) -> (r: Self)
        ensures
            in_order::<P, Self>(&r),
            !r.reliable(),
            r.depth_limit() == max_depth,
            r.pending() == Seq::<ScheduledTask<P>>::empty(),
    {
        PostgresQueue { max_depth, _marker: PhantomData }
    }

    /// The SQL statements that create the queue table and its indexes:
    /// `QUEUE_SCHEMA`, as the one migration.
    pub fn migrations() -> (r: &'static [&'static str])
        ensures
            r@.len() == 1,
            r@[0]@ == QUEUE_SCHEMA@,
    {
        &[QUEUE_SCHEMA]
    }
}

impl<P> TaskQueue<P> for PostgresQueue<P> {
    open spec fn pending(&self) -> Seq<ScheduledTask<P>> {
        Seq::empty()
    }

    closed spec fn depth_limit(&self) -> nat {
        self.max_depth as nat
    }

    open spec fn well_formed(&self) -> bool {
        true
    }

    open spec fn reliable(&self) -> bool {
        false
    }

    fn enqueue(&mut self, task: ScheduledTask<P>) -> (r: Result<(), SchedulerError>)
        ensures
            r matches Err(SchedulerError::Backend(_)),
    {
        Err(
            SchedulerError::Backend(
                String::from_str("postgres queue not wired to database client"),
            ),
        )
    }

    fn dequeue(&mut self) -> (r: Result<Option<ScheduledTask<P>>, SchedulerError>)
        ensures
            r matches Err(SchedulerError::Backend(_)),
    {
        Err(
            SchedulerError::Backend(
                String::from_str("postgres queue not wired to database client"),
            ),
        )
    }

    fn prune_expired(&mut self, now_ms: u128) -> (r: Result<usize, SchedulerError>)
        ensures
            r == Ok::<usize, SchedulerError>(0),
    {
        proof {
            reveal(Seq::filter);
        }
        Ok(0)
    }

    fn max_depth(&self) -> (r: usize) {
        self.max_depth
    }

    fn len(&self) -> (r: usize) {
        0
    }
}

} // verus!
