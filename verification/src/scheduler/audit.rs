//! Audit trail of lifecycle events: a bounded log in memory and the schema
//! of a relational one.

use std::collections::VecDeque;
use vstd::prelude::*;
use vstd::string::*;
use crate::util::clock::now_ms;
use crate::util::serde::{clone_text, text_view};

verus! {

/// One lifecycle event.
#[derive(Debug)]
pub struct AuditEvent {
    /// Identifier of the event.
    pub event_id: String,
    /// Identifier of the task that the event is about.
    pub task_id: String,
    /// Name of the pool.
    pub pool: String,
    /// Tenant that owns the task.
    pub tenant: String,
    /// What happened: submit, enqueue, start, wake, complete, expire.
    pub action: String,
    /// When the event was recorded, in milliseconds since the epoch.
    pub created_at_ms: u128,
    /// Further context, if any.
    pub payload: Option<String>,
}

/// A lifecycle event as mathematical text.
pub struct AuditEventView {
    /// Identifier of the event.
    pub event_id: Seq<char>,
    /// Identifier of the task.
    pub task_id: Seq<char>,
    /// Name of the pool.
    pub pool: Seq<char>,
    /// Tenant that owns the task.
    pub tenant: Seq<char>,
    /// What happened.
    pub action: Seq<char>,
    /// When the event was recorded.
    pub created_at_ms: u128,
    /// Further context, if any.
    pub payload: Option<Seq<char>>,
}

impl View for AuditEvent {
    type V = AuditEventView;

    open spec fn view(&self) -> AuditEventView {
        AuditEventView {
            event_id: self.event_id@,
            task_id: self.task_id@,
            pool: self.pool@,
            tenant: self.tenant@,
            action: self.action@,
            created_at_ms: self.created_at_ms,
            payload: text_view(self.payload),
        }
    }
}

/// The events of `events` as mathematical text.
pub open spec fn event_views(events: Seq<AuditEvent>) -> Seq<AuditEventView> {
    events.map_values(|e: AuditEvent| e@)
}

impl Clone for AuditEvent {
    fn clone(&self) -> (r: Self)
        ensures
            r == *self,
    {
        AuditEvent {
            event_id: self.event_id.clone(),
            task_id: self.task_id.clone(),
            pool: self.pool.clone(),
            tenant: self.tenant.clone(),
            action: self.action.clone(),
            created_at_ms: self.created_at_ms,
            payload: clone_text(&self.payload),
        }
    }
}

/// A keeping rule: what a sink holds after an event was recorded on top of
/// what it held.
pub type KeepingRule = spec_fn(Seq<AuditEventView>, AuditEventView) -> Seq<AuditEventView>;

/// A place that lifecycle events are recorded in. It is a side channel: no
/// scheduling decision reads it.
pub trait AuditSink: Send {
    /// The events that the sink holds, oldest first. Of a sink that does
    /// not say what it holds, nothing is known.
    open spec fn trail(&self) -> Seq<AuditEventView> {
        arbitrary()
    }

    /// The sink's keeping rule. Of a sink that does not say how it keeps
    /// events, nothing is known.
    open spec fn keeps(&self) -> KeepingRule {
        arbitrary()
    }

    /// Records `event` by the keeping rule, which stays as it is.
    fn record(&mut self, event: AuditEvent)
        ensures
            final(self).trail() == (old(self).keeps())(old(self).trail(), event@),
            final(self).keeps() == old(self).keeps(),
    ;
}

/// What a sink with the rule `rule` holds after the events of `events` were
/// recorded in order on top of `trail`.
pub open spec fn replay(
    rule: KeepingRule,
    trail: Seq<AuditEventView>,
    events: Seq<AuditEventView>,
) -> Seq<AuditEventView>
    decreases events.len(),
{
    if events.len() == 0 {
        trail
    } else {
        replay(rule, rule(trail, events[0]), events.drop_first())
    }
}

/// Audit sink that keeps the most recent events in memory.
pub struct InMemoryAuditSink {
    events: VecDeque<AuditEvent>,
    max_events: usize,
}

impl InMemoryAuditSink {
    /// The number of events above which the oldest one makes room.
    pub closed spec fn capacity(&self) -> nat {
        self.max_events as nat
    }

    /// Creates an empty sink that keeps `max_events` events.
    pub fn new(max_events: usize) -> (r: Self)
        ensures
            r.trail() == Seq::<AuditEventView>::empty(),
            r.capacity() == max_events,
    {
        let reserve: usize = if max_events < 1024 {
            max_events
        } else {
            1024
        };
        let r = InMemoryAuditSink { events: VecDeque::with_capacity(reserve), max_events };
        assert(event_views(r.events@) =~= Seq::<AuditEventView>::empty());
        r
    }

    /// A copy of the events that the sink holds, oldest first.
    pub fn events(&self) -> (r: Vec<AuditEvent>)
        ensures
            event_views(r@) == self.trail(),
    {
        let mut out: Vec<AuditEvent> = Vec::new();
        let mut i: usize = 0;
        while i < self.events.len()
            invariant
                i <= self.events@.len(),
                out@ == self.events@.take(i as int),
            decreases self.events@.len() - i,
        {
            out.push(self.events[i].clone());
            assert(self.events@.take(i + 1) =~= self.events@.take(i as int).push(
                self.events@[i as int],
            ));
            i += 1;
        }
        assert(self.events@.take(i as int) =~= self.events@);
        out
    }
}

/// The events of a bounded log `trail` of capacity `capacity` once `event`
/// was recorded: where the log is full its oldest event makes room.
pub open spec fn bounded_push(
    trail: Seq<AuditEventView>,
    capacity: nat,
    event: AuditEventView,
) -> Seq<AuditEventView> {
    if trail.len() >= capacity && trail.len() > 0 {
        trail.drop_first().push(event)
    } else {
        trail.push(event)
    }
}

/// The keeping rule of a bounded log of capacity `capacity`.
pub open spec fn bounded_rule(capacity: nat) -> KeepingRule {
    |trail: Seq<AuditEventView>, event: AuditEventView| bounded_push(trail, capacity, event)
}

impl AuditSink for InMemoryAuditSink {
    closed spec fn trail(&self) -> Seq<AuditEventView> {
        event_views(self.events@)
    }

    open spec fn keeps(&self) -> KeepingRule {
        bounded_rule(self.capacity())
    }

    fn record(&mut self, event: AuditEvent)
        ensures
            final(self).capacity() == old(self).capacity(),
    {
        if self.events.len() >= self.max_events {
            let _ = self.events.pop_front();
        }
        self.events.push_back(event);
        assert(event_views(self.events@) =~= bounded_push(
            event_views(old(self).events@),
            old(self).max_events as nat,
            event@,
        ));
    }
}

/// Audit sink for a relational database. It carries the schema only: nothing
/// is written, so its trail stays empty.
pub struct PostgresAuditSink;

/// The SQL that creates the audit table and its indexes.
pub const AUDIT_SCHEMA: &'static str = r#"
CREATE TABLE IF NOT EXISTS pl_audit_events (
    event_id TEXT PRIMARY KEY,
    task_id TEXT NOT NULL,
    pool TEXT NOT NULL,
    tenant TEXT NOT NULL,
    action TEXT NOT NULL,
    payload JSONB,
    created_at TIMESTAMPTZ NOT NULL DEFAULT NOW()
);
CREATE INDEX IF NOT EXISTS idx_pl_audit_events_tenant_created ON pl_audit_events (tenant, created_at);
CREATE INDEX IF NOT EXISTS idx_pl_audit_events_task ON pl_audit_events (task_id);
CREATE INDEX IF NOT EXISTS idx_pl_audit_events_pool ON pl_audit_events (pool);
"#;

impl PostgresAuditSink {
    /// The SQL statements that create the audit table and its indexes:
    /// `AUDIT_SCHEMA`, as the one migration.
    pub fn migrations() -> (r: &'static [&'static str])
        ensures
            r@.len() == 1,
            r@[0]@ == AUDIT_SCHEMA@,
    {
        &[AUDIT_SCHEMA]
    }
}

impl AuditSink for PostgresAuditSink {
    open spec fn trail(&self) -> Seq<AuditEventView> {
        Seq::empty()
    }

    open spec fn keeps(&self) -> KeepingRule {
        |trail: Seq<AuditEventView>, event: AuditEventView| Seq::empty()
    }

    fn record(&mut self, event: AuditEvent) {
    }
}

/// Builds an audit event from its parts and the time `now_ms`.
pub fn audit_event_at(
    event_id: &str,
    task_id: &str,
    pool: &str,
    tenant: &str,
    action: &str,
    payload: Option<String>,
    now_ms: u128,
) -> (r: AuditEvent)
    ensures
        r.event_id@ == event_id@,
        r.task_id@ == task_id@,
        r.pool@ == pool@,
        r.tenant@ == tenant@,
        r.action@ == action@,
        r.payload == payload,
        r.created_at_ms == now_ms,
{
    AuditEvent {
        event_id: String::from_str(event_id),
        task_id: String::from_str(task_id),
        pool: String::from_str(pool),
        tenant: String::from_str(tenant),
        action: String::from_str(action),
        created_at_ms: now_ms,
        payload,
    }
}

/// Builds an audit event from its parts, stamped with the current time.
pub fn build_audit_event(
    event_id: &str,
    task_id: &str,
    pool: &str,
    tenant: &str,
    action: &str,
    payload: Option<String>,
) -> (r: AuditEvent)
    ensures
        r.event_id@ == event_id@,
        r.task_id@ == task_id@,
        r.pool@ == pool@,
        r.tenant@ == tenant@,
        r.action@ == action@,
        r.payload == payload,
{
    let now = now_ms();
    audit_event_at(event_id, task_id, pool, tenant, action, payload, now)
}

} // verus!


