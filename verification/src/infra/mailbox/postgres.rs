//! Mailbox in a relational database: the schema, and a backend that is not
//! connected.

use std::marker::PhantomData;
use vstd::prelude::*;
use vstd::string::*;
use crate::infra::mailbox::memory::MailboxMessage;
use crate::scheduler::backend::Mailbox;
use crate::scheduler::error::SchedulerError;
use crate::scheduler::task::TaskStatus;
use crate::util::serde::{MailboxKey, MailboxKeyView};

verus! {

/// The SQL that creates the mailbox table and its indexes.
pub const MAILBOX_SCHEMA: &'static str = r#"
CREATE TABLE IF NOT EXISTS pl_mailbox_messages (
    id BIGSERIAL PRIMARY KEY,
    task_id TEXT NOT NULL,
    tenant TEXT NOT NULL,
    user_id TEXT,
    session_id TEXT,
    status TEXT NOT NULL,
    payload JSONB,
    created_at TIMESTAMPTZ NOT NULL DEFAULT NOW()
);
CREATE INDEX IF NOT EXISTS idx_pl_mailbox_tenant ON pl_mailbox_messages (tenant, created_at);
CREATE INDEX IF NOT EXISTS idx_pl_mailbox_task ON pl_mailbox_messages (task_id);
"#;

/// Mailbox backend for a relational database. No database is connected: it
/// holds no message, refuses every delivery with a backend error, and is
/// therefore not reliable.
pub struct PostgresMailbox<P> {
    _marker: PhantomData<P>,
}

impl<P> PostgresMailbox<P> {
    /// Creates the backend.
    pub fn new() -> (r: Self)
        ensures
            r.well_formed(),
            !r.reliable(),
    {
        PostgresMailbox { _marker: PhantomData }
    }

    /// The SQL statements that create the mailbox table and its indexes:
    /// `MAILBOX_SCHEMA`, as the one migration.
    pub fn migrations() -> (r: &'static [&'static str])
        ensures
            r@.len() == 1,
            r@[0]@ == MAILBOX_SCHEMA@,
    {
        &[MAILBOX_SCHEMA]
    }
}

impl<P> Mailbox<P> for PostgresMailbox<P> {
    open spec fn log(&self, key: MailboxKeyView) -> Seq<MailboxMessage<P>> {
        Seq::empty()
    }

    open spec fn well_formed(&self) -> bool {
        true
    }

    open spec fn reliable(&self) -> bool {
        false
    }

    fn deliver(&mut self, key: &MailboxKey, status: TaskStatus, payload: Option<P>) -> (r: Result<
        (),
        SchedulerError,
    >)
        ensures
            r matches Err(SchedulerError::Backend(_)),
    {
        Err(
            SchedulerError::Backend(
                String::from_str("postgres mailbox not wired to database client"),
            ),
        )
    }
}

} // verus!
