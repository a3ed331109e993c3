//! The admission and parking engine: capacity accounting, parking on
//! overflow, waking on release and delivery of results.
//!
//! The engine is a plain value. It decides; it neither runs tasks nor waits.
//! `submit` hands back the task that is to start, `on_task_finished` and
//! `try_wake_next` hand back the parked tasks that are to start next, and the
//! caller runs them and reports each completion.
//!
//! Design choices:
//! - A task whose cost alone exceeds `max_units` is parked like any task that
//!   does not fit. It can never start and stays parked for ever, but it blocks
//!   nothing: every wake passes over it.
//! - A deadline equal to the time of submission is still met: only a deadline
//!   strictly before it is rejected or pruned.
//! - Pruning records one audit event for the batch and delivers nothing to
//!   any mailbox.
//! - After `shutdown` nothing starts: `submit` fails with `PoolShutdown`,
//!   unless the task's deadline has passed, which is found first, and parked
//!   tasks stay parked, in both wake modes. Completions are still accounted
//!   for and delivered.

pub use crate::scheduler::backend::{Mailbox, TaskQueue};
pub use crate::scheduler::task::{ScheduledTask, TaskMetadata, TaskStatus};
use std::collections::VecDeque;
use std::marker::PhantomData;
use std::time::Duration;
use vstd::prelude::*;
use vstd::string::*;
use crate::infra::mailbox::memory::MailboxMessage;
use crate::scheduler::audit::{replay, AuditEvent, AuditEventView, AuditSink};
use crate::scheduler::backend::{delivered, in_order};
use crate::scheduler::error::SchedulerError;
use crate::scheduler::task::{lemma_park_index, parked, ranked, unexpired};
use crate::util::serde::{MailboxKey, MailboxKeyView, TaskId};
use crate::util::text::{append_decimal, decimal, decimal_text};

verus! {

/// The limits that a pool enforces. They do not change after the pool was
/// created.
#[derive(Debug)]
pub struct PoolLimits {
    /// The units that running tasks may hold together.
    pub max_units: u32,
    /// The number of tasks that may be parked.
    pub max_queue_depth: usize,
    /// How long a task may take by default.
    pub default_timeout: Duration,
}

impl Clone for PoolLimits {
    fn clone(&self) -> (r: Self)
        ensures
            r == *self,
    {
        PoolLimits {
            max_units: self.max_units,
            max_queue_depth: self.max_queue_depth,
            default_timeout: self.default_timeout,
        }
    }
}

/// What a wake worker waits on.
#[derive(Debug, Clone, Copy, PartialEq, Eq, Structural)]
pub struct WakeState {
    /// Capacity was released since the worker last looked.
    pub capacity_available: bool,
    /// The pool was shut down.
    pub shutdown: bool,
}

/// What `submit` decided for an accepted task.
#[derive(Debug)]
pub enum Admission<P> {
    /// Capacity was reserved. The caller runs the task and reports its end
    /// with `on_task_finished`.
    Start(ScheduledTask<P>),
    /// Capacity is short. The task was parked.
    Parked,
}

impl<P> Admission<P> {
    /// The status of the submitted task: `Running` or `Queued`.
    pub fn status(&self) -> (r: TaskStatus)
        ensures
            r == match *self {
                Admission::Start(_) => TaskStatus::Running,
                Admission::Parked => TaskStatus::Queued,
            },
    {
        match self {
            Admission::Start(_) => TaskStatus::Running,
            Admission::Parked => TaskStatus::Queued,
        }
    }
}

/// What one turn of the wake worker found.
#[derive(Debug)]
pub enum WakeStep<P> {
    /// Nothing was released: wait for the next notification.
    Wait,
    /// The pool was shut down: the worker ends.
    Exit,
    /// Capacity was released. These parked tasks hold capacity now and are
    /// to be run, in this order.
    Woken(Vec<ScheduledTask<P>>),
}

/// The tenant that an audit event names for a task with the mailbox `key`.
pub open spec fn tenant_of(key: Option<MailboxKey>) -> Seq<char> {
    match key {
        Some(k) => k.tenant@,
        None => "unknown"@,
    }
}

/// The audit event for `action` on the task `id`. The event's identifier is
/// the task's, the action and `stamp`, joined by hyphens.
pub open spec fn lifecycle_event(
    id: TaskId,
    tenant: Seq<char>,
    action: Seq<char>,
    stamp: u128,
    now_ms: u128,
) -> AuditEventView {
    AuditEventView {
        event_id: decimal(id as nat) + "-"@ + action + "-"@ + decimal(stamp as nat),
        task_id: decimal(id as nat),
        pool: "pool"@,
        tenant,
        action,
        created_at_ms: now_ms,
        payload: None,
    }
}

/// The audit event for a batch of expired tasks pruned at `now_ms`.
pub open spec fn expiry_event(now_ms: u128) -> AuditEventView {
    AuditEventView {
        event_id: "expire-batch-"@ + decimal(now_ms as nat),
        task_id: "batch"@,
        pool: "unknown_pool"@,
        tenant: "unknown_tenant"@,
        action: "expire"@,
        created_at_ms: now_ms,
        payload: None,
    }
}

/// The audit event for a task woken at `now_ms`.
pub open spec fn wake_event<P>(task: ScheduledTask<P>, now_ms: u128) -> AuditEventView {
    lifecycle_event(task.meta.id, tenant_of(task.meta.mailbox), "wake"@, now_ms, now_ms)
}

/// The audit events for the tasks of `woken`, in order.
pub open spec fn wake_events<P>(woken: Seq<ScheduledTask<P>>, now_ms: u128) -> Seq<
    AuditEventView,
> {
    woken.map_values(|t: ScheduledTask<P>| wake_event(t, now_ms))
}

/// The units that the tasks of `tasks` cost together.
pub open spec fn total_units<P>(tasks: Seq<ScheduledTask<P>>) -> nat
    decreases tasks.len(),
{
    if tasks.len() == 0 {
        0
    } else {
        total_units(tasks.drop_last()) + tasks.last().meta.cost.units as nat
    }
}

/// What a wake takes out of a queue.
pub struct WakePlan<P> {
    /// The tasks that start, in the order in which they leave the queue.
    pub woken: Seq<ScheduledTask<P>>,
    /// The tasks that are taken out and parked again, in the order in which
    /// they leave the queue: every task that can never fit, and the task
    /// that ends the wake because it does not fit now.
    pub aside: Seq<ScheduledTask<P>>,
    /// How many tasks leave the queue: those of `woken` and of `aside`.
    pub taken: nat,
}

/// The wake on `queue` while `active` of `max_units` units are in use.
///
/// The wake takes the parked tasks one after another. A task whose cost
/// alone exceeds `max_units` can never fit: the wake passes over it. A task
/// that fits into what is left starts and holds its units. The first task
/// that could fit but does not fit now ends the wake, whatever stands behind
/// it.
pub open spec fn wake_plan<P>(queue: Seq<ScheduledTask<P>>, active: nat, max_units: nat) -> WakePlan<
    P,
>
    decreases queue.len(),
{
    if queue.len() == 0 {
        WakePlan { woken: Seq::empty(), aside: Seq::empty(), taken: 0 }
    } else {
        let head = queue[0];
        let cost = head.meta.cost.units as nat;
        if cost > max_units {
            let rest = wake_plan(queue.drop_first(), active, max_units);
            WakePlan { woken: rest.woken, aside: seq![head] + rest.aside, taken: rest.taken + 1 }
        } else if active + cost > max_units {
            WakePlan { woken: Seq::empty(), aside: seq![head], taken: 1 }
        } else {
            let rest = wake_plan(queue.drop_first(), active + cost, max_units);
            WakePlan { woken: seq![head] + rest.woken, aside: rest.aside, taken: rest.taken + 1 }
        }
    }
}

/// The queue `queue` after the tasks of `tasks` were parked in it one after
/// another.
pub open spec fn parked_all<P>(queue: Seq<ScheduledTask<P>>, tasks: Seq<ScheduledTask<P>>) -> Seq<
    ScheduledTask<P>,
>
    decreases tasks.len(),
{
    if tasks.len() == 0 {
        queue
    } else {
        parked_all(parked(queue, tasks[0]), tasks.drop_first())
    }
}

/// What a wake may do to a queue `queue` while `active` of `max_units` units
/// are in use: it starts `woken` and leaves `queue_after` and `active_after`.
///
/// The tasks started are those of `wake_plan`, in its order, and each holds
/// its units. The tasks that the wake set aside are parked again, which puts
/// each behind its equals. A queue that fails on its own account may end the
/// wake early, and may lose a task that was to be parked again.
pub open spec fn wake_outcome<P>(
    queue: Seq<ScheduledTask<P>>,
    active: nat,
    max_units: nat,
    reliable: bool,
    woken: Seq<ScheduledTask<P>>,
    queue_after: Seq<ScheduledTask<P>>,
    active_after: nat,
) -> bool {
    let plan = wake_plan(queue, active, max_units);
    &&& woken.len() <= plan.woken.len()
    &&& woken == plan.woken.take(woken.len() as int)
    &&& active_after == active + total_units(woken)
    &&& reliable ==> woken == plan.woken && queue_after == parked_all(
        queue.skip(plan.taken as int),
        plan.aside,
    )
}

/// The units of a sequence of tasks are those of its first task and of the
/// rest.
pub proof fn lemma_total_units_first<P>(tasks: Seq<ScheduledTask<P>>)
    requires
        tasks.len() > 0,
    ensures
        total_units(tasks) == tasks[0].meta.cost.units + total_units(tasks.drop_first()),
    decreases tasks.len(),
{
    if tasks.len() == 1 {
        assert(tasks.drop_last() =~= tasks.drop_first());
    } else {
        lemma_total_units_first(tasks.drop_last());
        assert(tasks.drop_last().drop_first() =~= tasks.drop_first().drop_last());
    }
}

/// Parking tasks adds them to the queue: the queue grows by their number.
pub proof fn lemma_parked_all_len<P>(queue: Seq<ScheduledTask<P>>, tasks: Seq<ScheduledTask<P>>)
    ensures
        parked_all(queue, tasks).len() == queue.len() + tasks.len(),
    decreases tasks.len(),
{
    if tasks.len() > 0 {
        lemma_park_index(queue, tasks[0]);
        lemma_parked_all_len(parked(queue, tasks[0]), tasks.drop_first());
    }
}

/// A wake keeps the units in use within `max_units`, and every task that it
/// takes out of the queue either starts or is set aside.
pub proof fn lemma_wake_plan_bounds<P>(queue: Seq<ScheduledTask<P>>, active: nat, max_units: nat)
    requires
        active <= max_units,
    ensures
        wake_plan(queue, active, max_units).taken <= queue.len(),
        wake_plan(queue, active, max_units).woken.len() + wake_plan(
            queue,
            active,
            max_units,
        ).aside.len() == wake_plan(queue, active, max_units).taken,
        active + total_units(wake_plan(queue, active, max_units).woken) <= max_units,
    decreases queue.len(),
{
    if queue.len() > 0 {
        let head = queue[0];
        let cost = head.meta.cost.units as nat;
        if cost > max_units {
            lemma_wake_plan_bounds(queue.drop_first(), active, max_units);
        } else if active + cost > max_units {
        } else {
            let rest = wake_plan(queue.drop_first(), active + cost, max_units);
            lemma_wake_plan_bounds(queue.drop_first(), active + cost, max_units);
            lemma_total_units_first(seq![head] + rest.woken);
            assert((seq![head] + rest.woken).drop_first() =~= rest.woken);
        }
    }
}

/// A wake stops only at a task that does not fit now. Every task that it
/// sets aside can never fit, but for the last one, which may be the task
/// that could fit and does not fit into what the woken tasks leave. Where
/// the wake ends before the end of the queue, it ends at such a task.
pub proof fn lemma_wake_plan_stops<P>(queue: Seq<ScheduledTask<P>>, active: nat, max_units: nat)
    ensures
        forall|i: int|
            0 <= i < wake_plan(queue, active, max_units).aside.len() - 1 ==> (#[trigger] wake_plan(
                queue,
                active,
                max_units,
            ).aside[i]).meta.cost.units > max_units,
        wake_plan(queue, active, max_units).aside.len() > 0 ==> {
            let plan = wake_plan(queue, active, max_units);
            plan.aside.last().meta.cost.units > max_units || active + total_units(plan.woken)
                + plan.aside.last().meta.cost.units > max_units
        },
        wake_plan(queue, active, max_units).taken < queue.len() ==> {
            let plan = wake_plan(queue, active, max_units);
            plan.aside.len() > 0 && plan.aside.last().meta.cost.units <= max_units
        },
    decreases queue.len(),
{
    if queue.len() > 0 {
        let head = queue[0];
        let cost = head.meta.cost.units as nat;
        let plan = wake_plan(queue, active, max_units);
        if cost > max_units {
            let rest = wake_plan(queue.drop_first(), active, max_units);
            lemma_wake_plan_stops(queue.drop_first(), active, max_units);
            assert forall|i: int| 0 <= i < plan.aside.len() - 1 implies (#[trigger] plan.aside[i]).meta.cost.units
                > max_units by {
                if i > 0 {
                    assert(plan.aside[i] == rest.aside[i - 1]);
                }
            }
            if rest.aside.len() > 0 {
                assert(plan.aside.last() == rest.aside.last());
            }
        } else if active + cost > max_units {
        } else {
            let rest = wake_plan(queue.drop_first(), active + cost, max_units);
            lemma_wake_plan_stops(queue.drop_first(), active + cost, max_units);
            lemma_total_units_first(seq![head] + rest.woken);
            assert((seq![head] + rest.woken).drop_first() =~= rest.woken);
        }
    }
}

/// A parked task that can never fit blocks nothing: a wake on a queue with
/// such a task at its head starts what it would start without that task.
pub proof fn lemma_oversize_blocks_nothing<P>(
    queue: Seq<ScheduledTask<P>>,
    active: nat,
    max_units: nat,
)
    requires
        queue.len() > 0,
        queue[0].meta.cost.units > max_units,
    ensures
        wake_plan(queue, active, max_units).woken == wake_plan(
            queue.drop_first(),
            active,
            max_units,
        ).woken,
{
}

/// No wake-up is lost: where a task is parked and the one that is next fits
/// into what is left of `max_units`, a wake on a reliable queue starts it.
pub proof fn lemma_no_lost_wakeup<P>(
    queue: Seq<ScheduledTask<P>>,
    active: nat,
    max_units: nat,
    woken: Seq<ScheduledTask<P>>,
    queue_after: Seq<ScheduledTask<P>>,
    active_after: nat,
)
    requires
        wake_outcome(queue, active, max_units, true, woken, queue_after, active_after),
        queue.len() > 0,
        active + queue[0].meta.cost.units <= max_units,
    ensures
        woken.len() >= 1,
        woken[0] == queue[0],
{
}

/// On a reliable queue a wake has one outcome: whoever wakes, a completion
/// itself or the wake worker on its turn, the same tasks start in the same
/// order and the same queue is left.
pub proof fn lemma_wake_outcome_unique<P>(
    queue: Seq<ScheduledTask<P>>,
    active: nat,
    max_units: nat,
    woken_a: Seq<ScheduledTask<P>>,
    queue_a: Seq<ScheduledTask<P>>,
    active_a: nat,
    woken_b: Seq<ScheduledTask<P>>,
    queue_b: Seq<ScheduledTask<P>>,
    active_b: nat,
)
    requires
        wake_outcome(queue, active, max_units, true, woken_a, queue_a, active_a),
        wake_outcome(queue, active, max_units, true, woken_b, queue_b, active_b),
    ensures
        woken_a == woken_b,
        queue_a == queue_b,
        active_a == active_b,
{
}

/// A wake never takes the units in use above `max_units`, and every parked
/// task either starts or stays parked.
pub proof fn lemma_wake_outcome_bounds<P>(
    queue: Seq<ScheduledTask<P>>,
    active: nat,
    max_units: nat,
    woken: Seq<ScheduledTask<P>>,
    queue_after: Seq<ScheduledTask<P>>,
    active_after: nat,
)
    requires
        active <= max_units,
        wake_outcome(queue, active, max_units, true, woken, queue_after, active_after),
    ensures
        active_after <= max_units,
        woken.len() + queue_after.len() == queue.len(),
{
    let plan = wake_plan(queue, active, max_units);
    lemma_wake_plan_bounds(queue, active, max_units);
    lemma_parked_all_len(queue.skip(plan.taken as int), plan.aside);
}

/// Builds the audit event for `action` on the task `id`.
fn lifecycle_record(id: TaskId, tenant: String, action: &str, stamp: u128, now_ms: u128) -> (r:
    AuditEvent)
    ensures
        r@ == lifecycle_event(id, tenant@, action@, stamp, now_ms),
{
    proof {
        reveal_strlit("-");
    }
    let task_id = decimal_text(id as u128);
    let mut event_id = task_id.clone();
    event_id.append("-");
    event_id.append(action);
    event_id.append("-");
    append_decimal(&mut event_id, stamp);
    AuditEvent {
        event_id,
        task_id,
        pool: String::from_str("pool"),
        tenant,
        action: String::from_str(action),
        created_at_ms: now_ms,
        payload: None,
    }
}

/// The tenant that an audit event names for a task with the mailbox `key`.
fn tenant_text(key: &Option<MailboxKey>) -> (r: String)
    ensures
        r@ == tenant_of(*key),
{
    match key {
        Some(k) => k.tenant.clone(),
        None => String::from_str("unknown"),
    }
}

/// Builds the audit event for a batch of expired tasks.
fn expiry_record(now_ms: u128) -> (r: AuditEvent)
    ensures
        r@ == expiry_event(now_ms),
{
    let mut event_id = String::from_str("expire-batch-");
    append_decimal(&mut event_id, now_ms);
    AuditEvent {
        event_id,
        task_id: String::from_str("batch"),
        pool: String::from_str("unknown_pool"),
        tenant: String::from_str("unknown_tenant"),
        action: String::from_str("expire"),
        created_at_ms: now_ms,
        payload: None,
    }
}

/// The pool: capacity in use, parked tasks, delivered results and the audit
/// trail. `P` is the payload of a task and `T` the result of running one.
pub struct ResourcePool<P, T, Q, M> where Q: TaskQueue<P>, M: Mailbox<T> {
    limits: PoolLimits,
    active_units: u32,
    queue: Q,
    mailbox: M,
    wake_state: WakeState,
    async_wake_enabled: bool,
    audit: Option<Box<dyn AuditSink>>,
    _payload_marker: PhantomData<P>,
    _result_marker: PhantomData<T>,
}

impl<P, T, Q, M> ResourcePool<P, T, Q, M> where Q: TaskQueue<P>, M: Mailbox<T> {
    /// The units that running tasks hold.
    pub closed spec fn active(&self) -> nat {
        self.active_units as nat
    }

    /// The pool's limits.
    pub closed spec fn limits(&self) -> PoolLimits {
        self.limits
    }

    /// The units that running tasks may hold together.
    pub open spec fn max_units(&self) -> nat {
        self.limits().max_units as nat
    }

    /// The parked tasks, next to wake first.
    pub closed spec fn parked_tasks(&self) -> Seq<ScheduledTask<P>> {
        self.queue.pending()
    }

    /// The depth limit of the queue itself.
    pub closed spec fn queue_limit(&self) -> nat {
        self.queue.depth_limit()
    }

    /// Whether the queue never fails on its own account.
    pub closed spec fn queue_reliable(&self) -> bool {
        self.queue.reliable()
    }

    /// The messages delivered to `key`, oldest first.
    pub closed spec fn mailbox_log(&self, key: MailboxKeyView) -> Seq<MailboxMessage<T>> {
        self.mailbox.log(key)
    }

    /// Whether the mailbox never fails on its own account.
    pub closed spec fn mailbox_reliable(&self) -> bool {
        self.mailbox.reliable()
    }

    /// The wake flags.
    pub closed spec fn wake_flags(&self) -> WakeState {
        self.wake_state
    }

    /// Whether a completion wakes parked tasks itself. Where it does not, a
    /// wake worker does.
    pub closed spec fn async_wake(&self) -> bool {
        self.async_wake_enabled
    }

    /// Whether an audit sink is attached.
    pub closed spec fn audited(&self) -> bool {
        self.audit is Some
    }

    /// What the audit sink would hold once the events of `events` were
    /// recorded in order; `None` where no sink is attached.
    pub closed spec fn audit_after(&self, events: Seq<AuditEventView>) -> Option<
        Seq<AuditEventView>,
    > {
        match self.audit {
            Some(sink) => Some(replay(sink.keeps(), sink.trail(), events)),
            None => None,
        }
    }

    /// What the audit sink holds; `None` where no sink is attached.
    pub open spec fn audit_trail(&self) -> Option<Seq<AuditEventView>> {
        self.audit_after(Seq::empty())
    }

    /// Whether the audit sink of `after` is that of `before` with the events
    /// of `events` recorded in order.
    pub open spec fn audit_recorded(before: &Self, after: &Self, events: Seq<AuditEventView>) -> bool {
        forall|more: Seq<AuditEventView>| #[trigger]
            after.audit_after(more) == before.audit_after(events + more)
    }

    /// The pool's invariant: the units in use are within the limit, the
    /// queue is fit for use and the mailbox is well-formed.
    pub closed spec fn well_formed(&self) -> bool {
        &&& self.active_units <= self.limits.max_units
        &&& in_order::<P, Q>(&self.queue)
        &&& self.mailbox.well_formed()
    }

    /// Whether `after` has the limits and the backends' characteristics of
    /// `before`. Every operation keeps them.
    pub open spec fn same_setup(before: &Self, after: &Self) -> bool {
        &&& after.limits() == before.limits()
        &&& after.queue_limit() == before.queue_limit()
        &&& after.queue_reliable() == before.queue_reliable()
        &&& after.mailbox_reliable() == before.mailbox_reliable()
        &&& after.audited() == before.audited()
    }

    /// Whether every mailbox log of `after` is that of `before`.
    pub open spec fn same_mailbox(before: &Self, after: &Self) -> bool {
        forall|key: MailboxKeyView| #[trigger] after.mailbox_log(key) == before.mailbox_log(key)
    }

    /// Whether `after` is `before` in all that a caller can observe.
    pub open spec fn untouched(before: &Self, after: &Self) -> bool {
        &&& after.active() == before.active()
        &&& after.parked_tasks() == before.parked_tasks()
        &&& after.wake_flags() == before.wake_flags()
        &&& after.async_wake() == before.async_wake()
        &&& Self::same_setup(before, after)
        &&& Self::same_mailbox(before, after)
        &&& Self::audit_recorded(before, after, Seq::empty())
    }

    /// Recording `first` between `a` and `b` and `second` between `b` and `c`
    /// is recording `first + second` between `a` and `c`.
    pub proof fn lemma_audit_chain(
        a: &Self,
        b: &Self,
        c: &Self,
        first: Seq<AuditEventView>,
        second: Seq<AuditEventView>,
    )
        requires
            Self::audit_recorded(a, b, first),
            Self::audit_recorded(b, c, second),
        ensures
            Self::audit_recorded(a, c, first + second),
    {
        assert forall|more: Seq<AuditEventView>| #[trigger]
            c.audit_after(more) == a.audit_after((first + second) + more) by {
            assert(c.audit_after(more) == b.audit_after(second + more));
            assert(b.audit_after(second + more) == a.audit_after(first + (second + more)));
            assert(first + (second + more) =~= (first + second) + more);
        }
    }

    /// Where the mailbox and the sink of `after` are those of `before`, no log
    /// differs and no event was recorded.
    proof fn lemma_side_channels_kept(before: &Self, after: &Self)
        requires
            after.mailbox == before.mailbox,
            after.audit == before.audit,
        ensures
            Self::same_mailbox(before, after),
            Self::audit_recorded(before, after, Seq::empty()),
            after.audited() == before.audited(),
            after.mailbox_reliable() == before.mailbox_reliable(),
    {
        assert forall|more: Seq<AuditEventView>| #[trigger]
            after.audit_after(more) == before.audit_after(Seq::empty() + more) by {
            assert(Seq::<AuditEventView>::empty() + more =~= more);
        }
    }

    /// In a well-formed pool the units in use are within the limit, the
    /// parked tasks are in wake order, and nothing is recorded by recording
    /// no event.
    pub proof fn lemma_well_formed(&self)
        requires
            self.well_formed(),
        ensures
            self.active() <= self.max_units(),
            ranked(self.parked_tasks()),
            self.parked_tasks().len() <= self.queue_limit(),
            Self::audit_recorded(self, self, Seq::empty()),
    {
        assert forall|more: Seq<AuditEventView>| #[trigger]
            self.audit_after(more) == self.audit_after(Seq::empty() + more) by {
            assert(Seq::<AuditEventView>::empty() + more =~= more);
        }
    }

    /// Creates a pool from its limits, a queue and a mailbox. Nothing runs,
    /// no sink is attached, and completions wake parked tasks themselves.
    pub fn new(limits: PoolLimits, queue: Q, mailbox: M) -> (r: Self)
        requires
            in_order::<P, Q>(&queue),
            mailbox.well_formed(),
        ensures
            r.well_formed(),
            r.active() == 0,
            r.limits() == limits,
            r.parked_tasks() == queue.pending(),
            r.queue_limit() == queue.depth_limit(),
            r.queue_reliable() == queue.reliable(),
            r.mailbox_reliable() == mailbox.reliable(),
            forall|key: MailboxKeyView| #[trigger] r.mailbox_log(key) == mailbox.log(key),
            r.wake_flags() == (WakeState { capacity_available: false, shutdown: false }),
            r.async_wake(),
            !r.audited(),
    {
        ResourcePool {
            limits,
            active_units: 0,
            queue,
            mailbox,
            wake_state: WakeState { capacity_available: false, shutdown: false },
            async_wake_enabled: true,
            audit: None,
            _payload_marker: PhantomData,
            _result_marker: PhantomData,
        }
    }

    /// Attaches the audit sink `audit`, in place of the one attached before,
    /// if any.
    pub fn with_audit(self, audit: Box<dyn AuditSink>) -> (r: Self)
        requires
            self.well_formed(),
        ensures
            r.well_formed(),
            r.audited(),
            forall|events: Seq<AuditEventView>| #[trigger]
                r.audit_after(events) == Some(replay(audit.keeps(), audit.trail(), events)),
            r.active() == self.active(),
            r.limits() == self.limits(),
            r.parked_tasks() == self.parked_tasks(),
            r.queue_limit() == self.queue_limit(),
            r.queue_reliable() == self.queue_reliable(),
            r.mailbox_reliable() == self.mailbox_reliable(),
            Self::same_mailbox(&self, &r),
            r.wake_flags() == self.wake_flags(),
            r.async_wake() == self.async_wake(),
    {
        let sink = Some(audit);
        assert(sink->0.keeps() == audit.keeps());
        assert(sink->0.trail() == audit.trail());
        let mut pool = self;
        pool.audit = sink;
        pool
    }

    /// Chooses who wakes parked tasks: each completion itself (`true`, the
    /// default) or a wake worker that takes turns with
    /// `sync_wake_worker_loop` (`false`).
    pub fn set_async_wake(&mut self, enabled: bool)
        requires
            old(self).well_formed(),
        ensures
            final(self).well_formed(),
            final(self).async_wake() == enabled,
            final(self).active() == old(self).active(),
            final(self).parked_tasks() == old(self).parked_tasks(),
            final(self).wake_flags() == old(self).wake_flags(),
            Self::same_setup(old(self), final(self)),
            Self::same_mailbox(old(self), final(self)),
            Self::audit_recorded(old(self), final(self), Seq::empty()),
    {
        proof {
            self.lemma_well_formed();
        }
        self.async_wake_enabled = enabled;
    }

    /// The units that running tasks hold.
    pub fn active_units(&self) -> (r: u32)
        ensures
            r == self.active(),
    {
        self.active_units
    }

    /// The pool's limits.
    pub fn pool_limits(&self) -> (r: &PoolLimits)
        ensures
            *r == self.limits(),
    {
        &self.limits
    }

    /// The number of parked tasks.
    pub fn queue_len(&self) -> (r: usize)
        requires
            self.well_formed(),
        ensures
            r == self.parked_tasks().len(),
    {
        self.queue.len()
    }

    /// The wake flags.
    pub fn wake_state(&self) -> (r: WakeState)
        ensures
            r == self.wake_flags(),
    {
        self.wake_state
    }

    /// The mailbox, to read delivered messages from.
    pub fn mailbox(&self) -> (r: &M)
        ensures
            forall|key: MailboxKeyView| #[trigger] r.log(key) == self.mailbox_log(key),
    {
        &self.mailbox
    }

    /// Whether a task of `cost` units fits into what is left of the limit.
    pub fn can_start(&self, cost: u32) -> (r: bool)
        requires
            self.well_formed(),
        ensures
            r == (self.active() + cost <= self.max_units()),
    {
        cost <= self.limits.max_units - self.active_units
    }

    /// Reserves `cost` units if they fit into what is left of the limit, and
    /// says whether it did. Nothing else changes.
    pub fn try_reserve_capacity(&mut self, cost: u32) -> (r: bool)
        requires
            old(self).well_formed(),
        ensures
            final(self).well_formed(),
            r == (old(self).active() + cost <= old(self).max_units()),
            r ==> final(self).active() == old(self).active() + cost,
            !r ==> final(self).active() == old(self).active(),
            final(self).parked_tasks() == old(self).parked_tasks(),
            final(self).wake_flags() == old(self).wake_flags(),
            final(self).async_wake() == old(self).async_wake(),
            Self::same_setup(old(self), final(self)),
            Self::same_mailbox(old(self), final(self)),
            Self::audit_recorded(old(self), final(self), Seq::empty()),
    {
        proof {
            self.lemma_well_formed();
        }
        if cost <= self.limits.max_units - self.active_units {
            self.active_units = self.active_units + cost;
            true
        } else {
            false
        }
    }

    /// Shuts the pool down: from now on nothing starts. What runs may finish.
    pub fn shutdown(&mut self)
        requires
            old(self).well_formed(),
        ensures
            final(self).well_formed(),
            final(self).wake_flags() == (WakeState {
                capacity_available: old(self).wake_flags().capacity_available,
                shutdown: true,
            }),
            final(self).active() == old(self).active(),
            final(self).parked_tasks() == old(self).parked_tasks(),
            final(self).async_wake() == old(self).async_wake(),
            Self::same_setup(old(self), final(self)),
            Self::same_mailbox(old(self), final(self)),
            Self::audit_recorded(old(self), final(self), Seq::empty()),
    {
        proof {
            self.lemma_well_formed();
        }
        self.wake_state.shutdown = true;
    }

    /// Hands `event` to the audit sink, if one is attached.
    fn record_event(&mut self, event: AuditEvent)
        requires
            old(self).well_formed(),
        ensures
            final(self).well_formed(),
            final(self).active() == old(self).active(),
            final(self).parked_tasks() == old(self).parked_tasks(),
            final(self).wake_flags() == old(self).wake_flags(),
            final(self).async_wake() == old(self).async_wake(),
            Self::same_setup(old(self), final(self)),
            Self::same_mailbox(old(self), final(self)),
            Self::audit_recorded(old(self), final(self), seq![event@]),
    {
        match &mut self.audit {
            Some(sink) => {
                sink.record(event);
            },
            None => {},
        }
        proof {
            assert forall|more: Seq<AuditEventView>| #[trigger]
                self.audit_after(more) == old(self).audit_after(seq![event@] + more) by {
                let all = seq![event@] + more;
                assert(all[0] == event@);
                assert(all.drop_first() =~= more);
            }
        }
    }

    /// Records the audit event for `action` on `task`, stamped with the
    /// task's creation time, if a sink is attached.
    fn record_audit(&mut self, task: &ScheduledTask<P>, action: &str, now_ms: u128)
        requires
            old(self).well_formed(),
        ensures
            final(self).well_formed(),
            final(self).active() == old(self).active(),
            final(self).parked_tasks() == old(self).parked_tasks(),
            final(self).wake_flags() == old(self).wake_flags(),
            final(self).async_wake() == old(self).async_wake(),
            Self::same_setup(old(self), final(self)),
            Self::same_mailbox(old(self), final(self)),
            Self::audit_recorded(
                old(self),
                final(self),
                seq![
                    lifecycle_event(
                        task.meta.id,
                        tenant_of(task.meta.mailbox),
                        action@,
                        task.meta.created_at_ms,
                        now_ms,
                    ),
                ],
            ),
    {
        if self.audit.is_some() {
            let event = lifecycle_record(
                task.meta.id,
                tenant_text(&task.meta.mailbox),
                action,
                task.meta.created_at_ms,
                now_ms,
            );
            self.record_event(event);
        }
    }

    /// What `submit` does with `task` at the time `now_ms`: the pool `after`
    /// that it leaves of the pool `before`, and its result `r`.
    ///
    /// The task is refused where its deadline lies before `now_ms`
    /// (`DeadlineExpired`), whatever state the pool is in, and else where the
    /// pool was shut down (`PoolShutdown`); nothing changes then. Otherwise,
    /// where its cost fits into what is left of `max_units`, the units are
    /// reserved, a `start` event is recorded and the task is handed back to
    /// be run. Where it does not fit, be it now or ever, the task is refused
    /// if `max_queue_depth` tasks are parked already (`QueueFull`, nothing
    /// changes); else an `enqueue` event is recorded and the task goes to the
    /// queue, which parks it or refuses it on its own account.
    pub open spec fn admitted(
        before: &Self,
        after: &Self,
        task: ScheduledTask<P>,
        now_ms: u128,
        r: Result<Admission<P>, SchedulerError>,
    ) -> bool {
        let cost = task.meta.cost.units;
        let tenant = tenant_of(task.meta.mailbox);
        let stamp = task.meta.created_at_ms;
        &&& after.wake_flags() == before.wake_flags()
        &&& after.async_wake() == before.async_wake()
        &&& Self::same_setup(before, after)
        &&& Self::same_mailbox(before, after)
        &&& if task.meta.expired_at(now_ms) {
            (r matches Err(SchedulerError::DeadlineExpired)) && Self::untouched(before, after)
        } else if before.wake_flags().shutdown {
            (r matches Err(SchedulerError::PoolShutdown)) && Self::untouched(before, after)
        } else if before.active() + cost <= before.max_units() {
            &&& r == Ok::<Admission<P>, SchedulerError>(Admission::Start(task))
            &&& after.active() == before.active() + cost
            &&& after.parked_tasks() == before.parked_tasks()
            &&& Self::audit_recorded(
                before,
                after,
                seq![lifecycle_event(task.meta.id, tenant, "start"@, stamp, now_ms)],
            )
        } else if before.parked_tasks().len() >= before.limits().max_queue_depth {
            (r matches Err(SchedulerError::QueueFull(_))) && Self::untouched(before, after)
        } else {
            &&& after.active() == before.active()
            &&& Self::audit_recorded(
                before,
                after,
                seq![lifecycle_event(task.meta.id, tenant, "enqueue"@, stamp, now_ms)],
            )
            &&& match r {
                Ok(Admission::Parked) => before.parked_tasks().len() < before.queue_limit()
                    && after.parked_tasks() == parked(before.parked_tasks(), task),
                Err(SchedulerError::QueueFull(_)) => before.parked_tasks().len()
                    >= before.queue_limit() && after.parked_tasks() == before.parked_tasks(),
                Err(SchedulerError::Backend(_)) => !before.queue_reliable()
                    && after.parked_tasks() == before.parked_tasks(),
                _ => false,
            }
            &&& before.queue_reliable() && before.parked_tasks().len() < before.queue_limit()
                ==> r is Ok
        }
    }

    /// Submits `task` at the time `now_ms`. See `admitted`.
    pub fn submit(&mut self, task: ScheduledTask<P>, now_ms: u128) -> (r: Result<
        Admission<P>,
        SchedulerError,
    >)
        requires
            old(self).well_formed(),
        ensures
            final(self).well_formed(),
            Self::admitted(old(self), final(self), task, now_ms, r),
    {
        proof {
            self.lemma_well_formed();
        }
        if task.meta.is_expired(now_ms) {
            return Err(SchedulerError::DeadlineExpired);
        }
        if self.wake_state.shutdown {
            return Err(SchedulerError::PoolShutdown);
        }
        let cost = task.meta.cost.units;
        if self.can_start(cost) && self.try_reserve_capacity(cost) {
            let ghost reserved = *self;
            self.record_audit(&task, "start", now_ms);
            proof {
                Self::lemma_audit_chain(
                    old(self),
                    &reserved,
                    self,
                    Seq::empty(),
                    seq![
                        lifecycle_event(
                            task.meta.id,
                            tenant_of(task.meta.mailbox),
                            "start"@,
                            task.meta.created_at_ms,
                            now_ms,
                        ),
                    ],
                );
                assert(Seq::<AuditEventView>::empty() + seq![
                    lifecycle_event(
                        task.meta.id,
                        tenant_of(task.meta.mailbox),
                        "start"@,
                        task.meta.created_at_ms,
                        now_ms,
                    ),
                ] =~= seq![
                    lifecycle_event(
                        task.meta.id,
                        tenant_of(task.meta.mailbox),
                        "start"@,
                        task.meta.created_at_ms,
                        now_ms,
                    ),
                ]);
            }
            return Ok(Admission::Start(task));
        }
        if self.queue.len() >= self.limits.max_queue_depth {
            return Err(SchedulerError::QueueFull(String::from_str("max queue depth reached")));
        }
        self.record_audit(&task, "enqueue", now_ms);
        let ghost recorded = *self;
        let outcome = self.queue.enqueue(task);
        proof {
            let event = lifecycle_event(
                task.meta.id,
                tenant_of(task.meta.mailbox),
                "enqueue"@,
                task.meta.created_at_ms,
                now_ms,
            );
            Self::lemma_side_channels_kept(&recorded, self);
            Self::lemma_audit_chain(old(self), &recorded, self, seq![event], Seq::empty());
            assert(seq![event] + Seq::<AuditEventView>::empty() =~= seq![event]);
        }
        match outcome {
            Ok(()) => Ok(Admission::Parked),
            Err(e) => Err(e),
        }
    }

    /// After an operation on the queue alone, what was recorded and delivered
    /// since `origin` is what it was before the operation.
    proof fn lemma_queue_step(
        origin: &Self,
        before: &Self,
        after: &Self,
        events: Seq<AuditEventView>,
    )
        requires
            Self::audit_recorded(origin, before, events),
            Self::same_mailbox(origin, before),
            after.mailbox == before.mailbox,
            after.audit == before.audit,
        ensures
            Self::audit_recorded(origin, after, events),
            Self::same_mailbox(origin, after),
            after.audited() == before.audited(),
            after.mailbox_reliable() == before.mailbox_reliable(),
    {
        Self::lemma_side_channels_kept(before, after);
        Self::lemma_audit_chain(origin, before, after, events, Seq::empty());
        assert(events + Seq::<AuditEventView>::empty() =~= events);
        assert forall|key: MailboxKeyView| #[trigger]
            after.mailbox_log(key) == origin.mailbox_log(key) by {
            assert(before.mailbox_log(key) == origin.mailbox_log(key));
        }
    }

    /// Parks the tasks of `aside` again, in their order.
    fn park_again(&mut self, aside: VecDeque<ScheduledTask<P>>)
        requires
            old(self).well_formed(),
            old(self).parked_tasks().len() + aside@.len() <= old(self).queue_limit(),
        ensures
            final(self).well_formed(),
            final(self).active() == old(self).active(),
            final(self).wake_flags() == old(self).wake_flags(),
            final(self).async_wake() == old(self).async_wake(),
            Self::same_setup(old(self), final(self)),
            Self::same_mailbox(old(self), final(self)),
            Self::audit_recorded(old(self), final(self), Seq::empty()),
            old(self).queue_reliable() ==> final(self).parked_tasks() == parked_all(
                old(self).parked_tasks(),
                aside@,
            ),
    {
        let mut aside = aside;
        let ghost all = aside@;
        proof {
            self.lemma_well_formed();
        }
        while aside.len() > 0
            invariant
                self.well_formed(),
                self.active() == old(self).active(),
                self.wake_flags() == old(self).wake_flags(),
                self.async_wake() == old(self).async_wake(),
                Self::same_setup(old(self), self),
                Self::same_mailbox(old(self), self),
                Self::audit_recorded(old(self), self, Seq::empty()),
                old(self).queue_reliable() ==> self.parked_tasks().len() + aside@.len() <= old(self).queue_limit(),
                old(self).queue_reliable() ==> parked_all(self.parked_tasks(), aside@)
                    == parked_all(old(self).parked_tasks(), all),
            decreases aside@.len(),
        {
            let ghost before = *self;
            let ghost waiting = aside@;
            match aside.pop_front() {
                Some(task) => {
                    let _ = self.queue.enqueue(task);
                    proof {
                        Self::lemma_queue_step(old(self), &before, self, Seq::empty());
                        assert(aside@ =~= waiting.drop_first());
                        lemma_park_index(before.parked_tasks(), task);
                    }
                },
                None => {},
            }
        }
    }

    /// Takes parked tasks out of the queue as `wake_plan` says, starts those
    /// that fit and parks the others again: the wake itself, for a pool that
    /// is not shut down.
    fn drain(&mut self, now_ms: u128) -> (woken: Vec<ScheduledTask<P>>)
        requires
            old(self).well_formed(),
        ensures
            final(self).well_formed(),
            final(self).wake_flags() == old(self).wake_flags(),
            final(self).async_wake() == old(self).async_wake(),
            Self::same_setup(old(self), final(self)),
            Self::same_mailbox(old(self), final(self)),
            Self::audit_recorded(old(self), final(self), wake_events(woken@, now_ms)),
            wake_outcome(
                old(self).parked_tasks(),
                old(self).active(),
                old(self).max_units(),
                old(self).queue_reliable(),
                woken@,
                final(self).parked_tasks(),
                final(self).active(),
            ),
    {
        let ghost queue = self.parked_tasks();
        let ghost active = self.active();
        let ghost max_units = self.max_units();
        let ghost plan = wake_plan(queue, active, max_units);
        let ghost reliable = self.queue_reliable();
        let ghost mut rest = plan;
        let ghost mut taken: int = 0;
        let mut woken: Vec<ScheduledTask<P>> = Vec::new();
        let mut aside: VecDeque<ScheduledTask<P>> = VecDeque::new();
        let mut more = true;
        proof {
            self.lemma_well_formed();
            assert(queue.skip(0) =~= queue);
            assert(woken@ + rest.woken =~= plan.woken);
            assert(aside@ + rest.aside =~= plan.aside);
            assert(wake_events(woken@, now_ms) =~= Seq::empty());
        }
        while more
            invariant
                self.well_formed(),
                self.wake_flags() == old(self).wake_flags(),
                self.async_wake() == old(self).async_wake(),
                Self::same_setup(old(self), self),
                Self::same_mailbox(old(self), self),
                Self::audit_recorded(old(self), self, wake_events(woken@, now_ms)),
                queue == old(self).parked_tasks(),
                active == old(self).active(),
                max_units == old(self).max_units(),
                reliable == old(self).queue_reliable(),
                plan == wake_plan(queue, active, max_units),
                queue.len() <= old(self).queue_limit(),
                0 <= taken <= queue.len(),
                woken@.len() + aside@.len() <= taken,
                self.parked_tasks().len() + taken == queue.len(),
                self.active() == active + total_units(woken@),
                plan.woken == woken@ + rest.woken,
                plan.aside == aside@ + rest.aside,
                plan.taken == taken + rest.taken,
                more ==> self.parked_tasks() == queue.skip(taken),
                more ==> rest == wake_plan(queue.skip(taken), self.active(), max_units),
                !more && reliable ==> self.parked_tasks() == queue.skip(taken)
                    && rest.woken.len() == 0 && rest.aside.len() == 0 && rest.taken == 0,
            decreases queue.len() - taken, (if more { 1int } else { 0int }),
        {
            let ghost before = *self;
            let ghost left = queue.skip(taken);
            match self.queue.dequeue() {
                Err(_) => {
                    proof {
                        Self::lemma_queue_step(
                            old(self),
                            &before,
                            self,
                            wake_events(woken@, now_ms),
                        );
                    }
                    more = false;
                },
                Ok(None) => {
                    proof {
                        Self::lemma_queue_step(
                            old(self),
                            &before,
                            self,
                            wake_events(woken@, now_ms),
                        );
                    }
                    more = false;
                },
                Ok(Some(task)) => {
                    let ghost taken_out = *self;
                    proof {
                        Self::lemma_queue_step(
                            old(self),
                            &before,
                            self,
                            wake_events(woken@, now_ms),
                        );
                        assert(left.drop_first() =~= queue.skip(taken + 1));
                        assert(task == left[0]);
                    }
                    let cost = task.meta.cost.units;
                    if cost > self.limits.max_units {
                        proof {
                            let next = wake_plan(queue.skip(taken + 1), self.active(), max_units);
                            assert(aside@.push(task) + next.aside =~= aside@ + rest.aside);
                            rest = next;
                            taken = taken + 1;
                        }
                        aside.push_back(task);
                    } else if self.can_start(cost) && self.try_reserve_capacity(cost) {
                        let ghost reserved = *self;
                        self.record_wake(&task, now_ms);
                        proof {
                            Self::lemma_audit_chain(
                                &taken_out,
                                &reserved,
                                self,
                                Seq::empty(),
                                seq![wake_event(task, now_ms)],
                            );
                            assert(Seq::<AuditEventView>::empty() + seq![wake_event(task, now_ms)]
                                =~= seq![wake_event(task, now_ms)]);
                            Self::lemma_audit_chain(
                                old(self),
                                &taken_out,
                                self,
                                wake_events(woken@, now_ms),
                                seq![wake_event(task, now_ms)],
                            );
                            assert(wake_events(woken@, now_ms) + seq![wake_event(task, now_ms)]
                                =~= wake_events(woken@.push(task), now_ms));
                            assert(woken@.push(task).drop_last() =~= woken@);
                            let next = wake_plan(queue.skip(taken + 1), self.active(), max_units);
                            assert(woken@.push(task) + next.woken =~= woken@ + rest.woken);
                            rest = next;
                            taken = taken + 1;
                        }
                        woken.push(task);
                    } else {
                        proof {
                            let done = WakePlan::<P> {
                                woken: Seq::empty(),
                                aside: Seq::empty(),
                                taken: 0,
                            };
                            assert(aside@.push(task) + done.aside =~= aside@ + rest.aside);
                            assert(woken@ + done.woken =~= woken@ + rest.woken);
                            rest = done;
                            taken = taken + 1;
                        }
                        aside.push_back(task);
                        more = false;
                    }
                },
            }
        }
        let ghost stopped = *self;
        proof {
            assert(plan.woken.take(woken@.len() as int) =~= woken@);
            if reliable {
                assert(woken@ =~= plan.woken);
                assert(aside@ =~= plan.aside);
            }
        }
        self.park_again(aside);
        proof {
            Self::lemma_audit_chain(
                old(self),
                &stopped,
                self,
                wake_events(woken@, now_ms),
                Seq::empty(),
            );
            assert(wake_events(woken@, now_ms) + Seq::<AuditEventView>::empty() =~= wake_events(
                woken@,
                now_ms,
            ));
            assert forall|key: MailboxKeyView| #[trigger]
                self.mailbox_log(key) == old(self).mailbox_log(key) by {
                assert(stopped.mailbox_log(key) == old(self).mailbox_log(key));
            }
        }
        woken
    }

    /// Records the audit event for the wake of `task`, if a sink is attached.
    fn record_wake(&mut self, task: &ScheduledTask<P>, now_ms: u128)
        requires
            old(self).well_formed(),
        ensures
            final(self).well_formed(),
            final(self).active() == old(self).active(),
            final(self).parked_tasks() == old(self).parked_tasks(),
            final(self).wake_flags() == old(self).wake_flags(),
            final(self).async_wake() == old(self).async_wake(),
            Self::same_setup(old(self), final(self)),
            Self::same_mailbox(old(self), final(self)),
            Self::audit_recorded(old(self), final(self), seq![wake_event(*task, now_ms)]),
    {
        if self.audit.is_some() {
            let event = lifecycle_record(
                task.meta.id,
                tenant_text(&task.meta.mailbox),
                "wake",
                now_ms,
                now_ms,
            );
            self.record_event(event);
        }
    }

    /// Wakes parked tasks as `wake_plan` says: takes them one after another,
    /// passes over a task that can never fit, starts a task that fits into
    /// what is left of `max_units`, and ends at the first task that could fit
    /// but does not fit now. It records a `wake` event for each task started
    /// and hands them back to be run, in this order; the tasks set aside are
    /// parked again. A pool that was shut down wakes nothing.
    pub fn try_wake_next(&mut self, now_ms: u128) -> (woken: Vec<ScheduledTask<P>>)
        requires
            old(self).well_formed(),
        ensures
            final(self).well_formed(),
            final(self).wake_flags() == old(self).wake_flags(),
            final(self).async_wake() == old(self).async_wake(),
            Self::same_setup(old(self), final(self)),
            Self::same_mailbox(old(self), final(self)),
            Self::audit_recorded(old(self), final(self), wake_events(woken@, now_ms)),
            old(self).wake_flags().shutdown ==> woken@.len() == 0 && Self::untouched(
                old(self),
                final(self),
            ),
            !old(self).wake_flags().shutdown ==> wake_outcome(
                old(self).parked_tasks(),
                old(self).active(),
                old(self).max_units(),
                old(self).queue_reliable(),
                woken@,
                final(self).parked_tasks(),
                final(self).active(),
            ),
    {
        if self.wake_state.shutdown {
            proof {
                self.lemma_well_formed();
                assert(wake_events(Seq::<ScheduledTask<P>>::empty(), now_ms) =~= Seq::empty());
            }
            return Vec::new();
        }
        self.drain(now_ms)
    }

    /// Accounts for the end of a running task: releases its `task_cost`
    /// units, raises the wake flag, delivers `result` to `mailbox_key` with
    /// the status `Completed` where a key is given, records a `complete`
    /// event, and, where completions wake parked tasks themselves, wakes
    /// them as `try_wake_next` does. The tasks woken are handed back to be
    /// run.
    ///
    /// The units released must be held: a task is reported once, with the
    /// cost that it was started with.
    pub fn on_task_finished(
        &mut self,
        task_id: TaskId,
        task_cost: u32,
        mailbox_key: Option<MailboxKey>,
        result: T,
        now_ms: u128,
    ) -> (woken: Vec<ScheduledTask<P>>)
        requires
            old(self).well_formed(),
            task_cost <= old(self).active(),
        ensures
            final(self).well_formed(),
            final(self).async_wake() == old(self).async_wake(),
            Self::same_setup(old(self), final(self)),
            final(self).wake_flags() == (WakeState {
                capacity_available: true,
                shutdown: old(self).wake_flags().shutdown,
            }),
            match mailbox_key {
                Some(key) => {
                    &&& forall|other: MailboxKeyView|
                        other != key@ ==> #[trigger] final(self).mailbox_log(other)
                            == old(self).mailbox_log(other)
                    &&& delivered(
                        old(self).mailbox_log(key@),
                        final(self).mailbox_log(key@),
                        TaskStatus::Completed,
                        Some(result),
                    ) || (!old(self).mailbox_reliable()
                        && final(self).mailbox_log(key@) == old(self).mailbox_log(key@))
                    &&& old(self).mailbox_reliable() ==> delivered(
                        old(self).mailbox_log(key@),
                        final(self).mailbox_log(key@),
                        TaskStatus::Completed,
                        Some(result),
                    )
                },
                None => Self::same_mailbox(old(self), final(self)),
            },
            Self::audit_recorded(
                old(self),
                final(self),
                seq![
                    lifecycle_event(task_id, tenant_of(mailbox_key), "complete"@, now_ms, now_ms),
                ] + wake_events(woken@, now_ms),
            ),
            !old(self).async_wake() || old(self).wake_flags().shutdown ==> {
                &&& woken@.len() == 0
                &&& final(self).parked_tasks() == old(self).parked_tasks()
                &&& final(self).active() == old(self).active() - task_cost
            },
            old(self).async_wake() && !old(self).wake_flags().shutdown ==> wake_outcome(
                old(self).parked_tasks(),
                (old(self).active() - task_cost) as nat,
                old(self).max_units(),
                old(self).queue_reliable(),
                woken@,
                final(self).parked_tasks(),
                final(self).active(),
            ),
    {
        proof {
            self.lemma_well_formed();
        }
        self.active_units = self.active_units - task_cost;
        self.wake_state.capacity_available = true;
        let ghost released = *self;
        proof {
            Self::lemma_side_channels_kept(old(self), &released);
        }
        let tenant = tenant_text(&mailbox_key);
        match mailbox_key {
            Some(key) => {
                let _ = self.mailbox.deliver(&key, TaskStatus::Completed, Some(result));
            },
            None => {},
        }
        let ghost delivered_to = *self;
        proof {
            assert forall|more: Seq<AuditEventView>| #[trigger]
                delivered_to.audit_after(more) == old(self).audit_after(
                    Seq::empty() + more,
                ) by {
                assert(Seq::<AuditEventView>::empty() + more =~= more);
            }
        }
        if self.audit.is_some() {
            let event = lifecycle_record(task_id, tenant, "complete", now_ms, now_ms);
            self.record_event(event);
        }
        let ghost completed = *self;
        let ghost complete_event = lifecycle_event(
            task_id,
            tenant_of(mailbox_key),
            "complete"@,
            now_ms,
            now_ms,
        );
        proof {
            Self::lemma_audit_chain(
                old(self),
                &delivered_to,
                &completed,
                Seq::empty(),
                seq![complete_event],
            );
            assert(Seq::<AuditEventView>::empty() + seq![complete_event] =~= seq![complete_event]);
        }
        if self.async_wake_enabled {
            let woken = self.try_wake_next(now_ms);
            proof {
                Self::lemma_audit_chain(
                    old(self),
                    &completed,
                    self,
                    seq![complete_event],
                    wake_events(woken@, now_ms),
                );
            }
            woken
        } else {
            let woken: Vec<ScheduledTask<P>> = Vec::new();
            proof {
                assert(wake_events(woken@, now_ms) =~= Seq::empty());
                assert(seq![complete_event] + wake_events(woken@, now_ms) =~= seq![complete_event]);
            }
            woken
        }
    }

    /// Removes the parked tasks whose deadline lies before `now_ms` and
    /// returns how many were removed. The others keep their order. Where any
    /// were removed, one `expire` event is recorded for the batch. No mailbox
    /// receives a message.
    pub fn prune_expired(&mut self, now_ms: u128) -> (r: Result<usize, SchedulerError>)
        requires
            old(self).well_formed(),
        ensures
            final(self).well_formed(),
            final(self).active() == old(self).active(),
            final(self).wake_flags() == old(self).wake_flags(),
            final(self).async_wake() == old(self).async_wake(),
            Self::same_setup(old(self), final(self)),
            Self::same_mailbox(old(self), final(self)),
            old(self).queue_reliable() ==> r is Ok,
            match r {
                Ok(removed) => {
                    &&& final(self).parked_tasks() == unexpired(old(self).parked_tasks(), now_ms)
                    &&& removed == old(self).parked_tasks().len() - final(self).parked_tasks().len()
                    &&& Self::audit_recorded(
                        old(self),
                        final(self),
                        if removed > 0 {
                            seq![expiry_event(now_ms)]
                        } else {
                            Seq::empty()
                        },
                    )
                },
                Err(SchedulerError::Backend(_)) => !old(self).queue_reliable() && Self::untouched(
                    old(self),
                    final(self),
                ),
                Err(_) => false,
            },
    {
        let outcome = self.queue.prune_expired(now_ms);
        let ghost pruned = *self;
        proof {
            Self::lemma_side_channels_kept(old(self), &pruned);
        }
        match outcome {
            Ok(removed) => {
                if removed > 0 && self.audit.is_some() {
                    self.record_event(expiry_record(now_ms));
                    proof {
                        Self::lemma_audit_chain(
                            old(self),
                            &pruned,
                            self,
                            Seq::empty(),
                            seq![expiry_event(now_ms)],
                        );
                        assert(Seq::<AuditEventView>::empty() + seq![expiry_event(now_ms)]
                            =~= seq![expiry_event(now_ms)]);
                    }
                }
                Ok(removed)
            },
            Err(e) => Err(e),
        }
    }
}

/// One turn of the wake worker, which wakes parked tasks where completions
/// do not do so themselves.
///
/// The worker runs these turns in a loop. On `Exit` it ends. On `Wait` it
/// waits until a completion or a shutdown is signalled. On `Woken` it runs
/// the tasks handed back and takes the next turn. A turn that finds the wake
/// flag raised lowers it and wakes as `try_wake_next` does.
pub fn sync_wake_worker_loop<P, T, Q, M>(pool: &mut ResourcePool<P, T, Q, M>, now_ms: u128) -> (r:
    WakeStep<P>) where Q: TaskQueue<P>, M: Mailbox<T>
    requires
        old(pool).well_formed(),
    ensures
        final(pool).well_formed(),
        final(pool).async_wake() == old(pool).async_wake(),
        ResourcePool::same_setup(old(pool), final(pool)),
        ResourcePool::same_mailbox(old(pool), final(pool)),
        old(pool).wake_flags().shutdown ==> r is Exit && ResourcePool::untouched(
            old(pool),
            final(pool),
        ),
        !old(pool).wake_flags().shutdown && !old(pool).wake_flags().capacity_available ==> r is Wait
            && ResourcePool::untouched(old(pool), final(pool)),
        !old(pool).wake_flags().shutdown && old(pool).wake_flags().capacity_available ==> {
            &&& r is Woken
            &&& final(pool).wake_flags() == (WakeState {
                capacity_available: false,
                shutdown: false,
            })
            &&& ResourcePool::audit_recorded(
                old(pool),
                final(pool),
                wake_events(r->Woken_0@, now_ms),
            )
            &&& wake_outcome(
                old(pool).parked_tasks(),
                old(pool).active(),
                old(pool).max_units(),
                old(pool).queue_reliable(),
                r->Woken_0@,
                final(pool).parked_tasks(),
                final(pool).active(),
            )
        },
{
    proof {
        pool.lemma_well_formed();
    }
    if pool.wake_state.shutdown {
        return WakeStep::Exit;
    }
    if !pool.wake_state.capacity_available {
        return WakeStep::Wait;
    }
    pool.wake_state.capacity_available = false;
    let ghost lowered = *pool;
    proof {
        ResourcePool::lemma_side_channels_kept(old(pool), &lowered);
    }
    let woken = pool.drain(now_ms);
    proof {
        ResourcePool::lemma_audit_chain(
            old(pool),
            &lowered,
            pool,
            Seq::empty(),
            wake_events(woken@, now_ms),
        );
        assert(Seq::<AuditEventView>::empty() + wake_events(woken@, now_ms) =~= wake_events(
            woken@,
            now_ms,
        ));
    }
    WakeStep::Woken(woken)
}

} // verus!
