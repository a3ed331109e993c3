//! The worker pool's bookkeeping: submission to a bounded channel, the store
//! of results that wait to be retrieved, and the counters.
//!
//! The pool is a plain value. Worker threads, and the wait of a retrieval for
//! its result, belong to the caller: a worker reports `task_started` and
//! `task_finished`, and a retrieval that finds its result pending waits for
//! the notification and then calls `retrieve_after_wait`.

use crossbeam_channel::{Receiver, Sender, TrySendError};
use vstd::prelude::*;
use vstd::string::*;
use crate::config::pool::WorkerPoolConfig;
use crate::scheduler::task::TaskMetadata;
use crate::util::serde::{MailboxKey, MailboxKeyView};
use crate::util::text::{append_decimal, decimal, decimal_text, lemma_decimal_injective};

verus! {

/// What can go wrong when a worker pool is used.
#[derive(Debug)]
pub enum PoolError {
    /// The task channel is full.
    QueueFull,
    /// The task asks for more units than are free.
    InsufficientCapacity {
        /// Units that the task asks for.
        requested: u32,
        /// Units that are free.
        available: u32,
    },
    /// The wait for a result took longer than allowed.
    Timeout,
    /// No result is stored under the key: there never was one, or it was
    /// retrieved already.
    ResultNotFound,
    /// The pool was shut down.
    PoolShutdown,
    /// The configuration is not valid; the text says why.
    InvalidConfig(String),
    /// The pool found itself in a state that it cannot be in.
    Internal(String),
}

impl PoolError {
    /// The text of this error as mathematical characters.
    pub open spec fn text(self) -> Seq<char> {
        match self {
            PoolError::QueueFull => "task queue is full"@,
            PoolError::InsufficientCapacity { requested, available } =>
                "insufficient capacity: requested "@ + decimal(requested as nat) + ", available "@
                    + decimal(available as nat),
            PoolError::Timeout => "operation timed out"@,
            PoolError::ResultNotFound => "result not found in mailbox"@,
            PoolError::PoolShutdown => "pool has been shut down"@,
            PoolError::InvalidConfig(why) => "invalid configuration: "@ + why@,
            PoolError::Internal(why) => "internal error: "@ + why@,
        }
    }

    /// The human-readable text of this error.
    pub fn message(&self) -> (r: String)
        ensures
            r@ == self.text(),
    {
        match self {
            PoolError::QueueFull => String::from_str("task queue is full"),
            PoolError::InsufficientCapacity { requested, available } => {
                let mut out = String::from_str("insufficient capacity: requested ");
                append_decimal(&mut out, *requested as u128);
                out.append(", available ");
                append_decimal(&mut out, *available as u128);
                out
            },
            PoolError::Timeout => String::from_str("operation timed out"),
            PoolError::ResultNotFound => String::from_str("result not found in mailbox"),
            PoolError::PoolShutdown => String::from_str("pool has been shut down"),
            PoolError::InvalidConfig(why) => String::from_str("invalid configuration: ").concat(
                why.as_str(),
            ),
            PoolError::Internal(why) => String::from_str("internal error: ").concat(why.as_str()),
        }
    }
}

/// How busy a worker pool is and what it has done.
#[derive(Debug, Clone, Copy, PartialEq, Eq, Structural)]
pub struct PoolStats {
    /// The number of workers.
    pub worker_count: usize,
    /// Tasks that a worker is running.
    pub active_tasks: u64,
    /// Tasks that wait for a worker.
    pub queued_tasks: u64,
    /// Units that running tasks hold.
    pub used_units: u32,
    /// Units that the pool has in total.
    pub total_units: u32,
    /// Tasks that ran to their end.
    pub completed_tasks: u64,
    /// Tasks that failed.
    pub failed_tasks: u64,
    /// Tasks that were accepted.
    pub submitted_tasks: u64,
}

impl Default for PoolStats {
    /// Statistics in which every number is zero.
    fn default() -> (r: Self)
        ensures
            r == (PoolStats {
                worker_count: 0,
                active_tasks: 0,
                queued_tasks: 0,
                used_units: 0,
                total_units: 0,
                completed_tasks: 0,
                failed_tasks: 0,
                submitted_tasks: 0,
            }),
    {
        PoolStats {
            worker_count: 0,
            active_tasks: 0,
            queued_tasks: 0,
            used_units: 0,
            total_units: 0,
            completed_tasks: 0,
            failed_tasks: 0,
            submitted_tasks: 0,
        }
    }
}

/// The counters of a worker pool. They count modulo 2^64, and the units
/// modulo 2^32.
#[derive(Debug, Clone, Copy, PartialEq, Eq, Structural)]
pub struct PoolCounters {
    /// Tasks that a worker is running.
    pub active_tasks: u64,
    /// Tasks that wait for a worker.
    pub queued_tasks: u64,
    /// Units that running tasks hold.
    pub used_units: u32,
    /// Tasks that ran to their end.
    pub completed_tasks: u64,
    /// Tasks that failed.
    pub failed_tasks: u64,
    /// Tasks that were accepted.
    pub submitted_tasks: u64,
}

impl Default for PoolCounters {
    /// Counters that stand at zero.
    fn default() -> (r: Self)
        ensures
            r == (PoolCounters {
                active_tasks: 0,
                queued_tasks: 0,
                used_units: 0,
                completed_tasks: 0,
                failed_tasks: 0,
                submitted_tasks: 0,
            }),
    {
        PoolCounters {
            active_tasks: 0,
            queued_tasks: 0,
            used_units: 0,
            completed_tasks: 0,
            failed_tasks: 0,
            submitted_tasks: 0,
        }
    }
}

impl PoolCounters {
    /// The counters as statistics of a pool with `worker_count` workers and
    /// `total_units` units.
    pub fn snapshot(&self, worker_count: usize, total_units: u32) -> (r: PoolStats)
        ensures
            r == (PoolStats {
                worker_count,
                active_tasks: self.active_tasks,
                queued_tasks: self.queued_tasks,
                used_units: self.used_units,
                total_units,
                completed_tasks: self.completed_tasks,
                failed_tasks: self.failed_tasks,
                submitted_tasks: self.submitted_tasks,
            }),
    {
        PoolStats {
            worker_count,
            active_tasks: self.active_tasks,
            queued_tasks: self.queued_tasks,
            used_units: self.used_units,
            total_units,
            completed_tasks: self.completed_tasks,
            failed_tasks: self.failed_tasks,
            submitted_tasks: self.submitted_tasks,
        }
    }
}

/// A task on its way to a worker.
#[derive(Debug)]
pub struct WorkerTask<P> {
    /// The payload to run.
    pub payload: P,
    /// The task's metadata.
    pub meta: TaskMetadata,
    /// The key under which the result will be stored.
    pub mailbox_key: MailboxKey,
}

/// The key of the task with the number `task_id`: tenant `worker_pool`, no
/// user, and the number in decimal as the session.
pub open spec fn worker_key(task_id: u64) -> MailboxKeyView {
    MailboxKeyView {
        tenant: "worker_pool"@,
        user_id: None,
        session_id: Some(decimal(task_id as nat)),
    }
}

/// The text under which the result for `key` is stored: the tenant, a colon,
/// and the session, or `unknown` where the key has none.
pub open spec fn key_text(key: MailboxKeyView) -> Seq<char> {
    key.tenant + ":"@ + match key.session_id {
        Some(session) => session,
        None => "unknown"@,
    }
}

/// Worker keys do not repeat: tasks with different numbers have different
/// keys, and their results are stored under different texts.
pub proof fn lemma_worker_key_injective(a: u64, b: u64)
    ensures
        worker_key(a) == worker_key(b) ==> a == b,
        key_text(worker_key(a)) == key_text(worker_key(b)) ==> a == b,
{
    if worker_key(a) == worker_key(b) {
        assert(worker_key(a).session_id == worker_key(b).session_id);
        lemma_decimal_injective(a as nat, b as nat);
    }
    if key_text(worker_key(a)) == key_text(worker_key(b)) {
        let head = "worker_pool"@ + ":"@;
        assert(key_text(worker_key(a)) =~= head + decimal(a as nat));
        assert(key_text(worker_key(b)) =~= head + decimal(b as nat));
        assert((head + decimal(a as nat)).skip(head.len() as int) =~= decimal(a as nat));
        assert((head + decimal(b as nat)).skip(head.len() as int) =~= decimal(b as nat));
        lemma_decimal_injective(a as nat, b as nat);
    }
}

/// Puts a payload, its metadata and the key of its result together as the
/// task that goes to a worker.
pub fn worker_task<P>(payload: P, meta: TaskMetadata, mailbox_key: MailboxKey) -> (t: WorkerTask<P>)
    ensures
        t.payload == payload,
        t.meta == meta,
        t.mailbox_key == mailbox_key,
{
    WorkerTask { payload, meta, mailbox_key }
}

/// Makes the key under which the result of the task `task_id` is stored.
pub fn generate_mailbox_key(task_id: u64) -> (r: MailboxKey)
    ensures
        r@ == worker_key(task_id),
{
    MailboxKey {
        tenant: String::from_str("worker_pool"),
        user_id: None,
        session_id: Some(decimal_text(task_id as u128)),
    }
}

/// The text under which the result for `key` is stored.
pub fn mailbox_key_to_string(key: &MailboxKey) -> (r: String)
    ensures
        r@ == key_text(key@),
{
    let mut out = key.tenant.clone();
    out.append(":");
    match &key.session_id {
        Some(session) => out.append(session.as_str()),
        None => out.append("unknown"),
    }
    out
}

/// Whether the result of a task has arrived.
#[derive(Debug, Clone, Copy, PartialEq, Eq, Structural)]
pub enum ResultState {
    /// The task has not finished.
    Pending,
    /// The task has finished.
    Ready,
}

/// The place of one result.
#[derive(Debug)]
pub struct ResultEntry<R> {
    /// The result, once it has arrived and until it is taken.
    pub result: Option<R>,
    /// Whether the result has arrived.
    pub state: ResultState,
}

/// What a look at the place of a result finds.
#[derive(Debug)]
pub enum ResultLookup<R> {
    /// No place is kept under the key.
    Missing,
    /// The task has not finished.
    Pending,
    /// The task has finished. The result is handed over, unless it was taken
    /// before.
    Ready(Option<R>),
}

/// A place under its key.
struct ResultSlot<R> {
    key: String,
    entry: ResultEntry<R>,
}

/// The store of results: a place for each task that was submitted and whose
/// result was not retrieved yet.
pub struct ResultStorage<R> {
    slots: Vec<ResultSlot<R>>,
}

/// The places of `slots` by the text of their keys.
spec fn slots_map<R>(slots: Seq<ResultSlot<R>>) -> Map<Seq<char>, ResultEntry<R>>
    decreases slots.len(),
{
    if slots.len() == 0 {
        Map::empty()
    } else {
        slots_map(slots.drop_last()).insert(slots.last().key@, slots.last().entry)
    }
}

/// Whether no two places of `slots` have the same key.
spec fn distinct_keys<R>(slots: Seq<ResultSlot<R>>) -> bool {
    forall|i: int, j: int|
        0 <= i < j < slots.len() ==> (#[trigger] slots[i]).key@ != (#[trigger] slots[j]).key@
}

/// Where keys are distinct, the map holds each place under its key and no
/// other key.
proof fn lemma_slots_map<R>(slots: Seq<ResultSlot<R>>)
    requires
        distinct_keys(slots),
    ensures
        forall|i: int|
            0 <= i < slots.len() ==> slots_map(slots).contains_key((#[trigger] slots[i]).key@)
                && slots_map(slots)[slots[i].key@] == slots[i].entry,
        forall|k: Seq<char>| #[trigger]
            slots_map(slots).contains_key(k) ==> exists|i: int|
                0 <= i < slots.len() && (#[trigger] slots[i]).key@ == k,
    decreases slots.len(),
{
    if slots.len() > 0 {
        let rest = slots.drop_last();
        assert forall|i: int, j: int| 0 <= i < j < rest.len() implies (#[trigger] rest[i]).key@ != (
        #[trigger] rest[j]).key@ by {
            assert(slots[i].key@ != slots[j].key@);
        }
        lemma_slots_map(rest);
        assert forall|i: int| 0 <= i < slots.len() implies slots_map(slots).contains_key(
            (#[trigger] slots[i]).key@,
        ) && slots_map(slots)[slots[i].key@] == slots[i].entry by {
            if i < slots.len() - 1 {
                assert(rest[i] == slots[i]);
                assert(slots[i].key@ != slots[slots.len() - 1].key@);
            }
        }
        assert forall|k: Seq<char>| #[trigger] slots_map(slots).contains_key(k) implies exists|
            i: int,
        |
            0 <= i < slots.len() && (#[trigger] slots[i]).key@ == k by {
            if k == slots.last().key@ {
                assert(slots[slots.len() - 1].key@ == k);
            } else {
                assert(slots_map(rest).contains_key(k));
                let i = choose|i: int| 0 <= i < rest.len() && (#[trigger] rest[i]).key@ == k;
                assert(slots[i].key@ == k);
            }
        }
    }
}

/// Replacing the entry of the place at `at`, under the key that it has,
/// keeps keys distinct and puts the entry into the map under that key.
proof fn lemma_entry_replaced<R>(
    before: Seq<ResultSlot<R>>,
    after: Seq<ResultSlot<R>>,
    at: int,
    entry: ResultEntry<R>,
)
    requires
        distinct_keys(before),
        0 <= at < before.len(),
        after.len() == before.len(),
        forall|i: int| 0 <= i < before.len() ==> (#[trigger] after[i]).key@ == before[i].key@,
        forall|i: int| 0 <= i < before.len() && i != at ==> (#[trigger] after[i]).entry == before[i].entry,
        after[at].entry == entry,
    ensures
        distinct_keys(after),
        slots_map(after) == slots_map(before).insert(before[at].key@, entry),
{
    assert forall|i: int, j: int| 0 <= i < j < after.len() implies (#[trigger] after[i]).key@ != (
    #[trigger] after[j]).key@ by {
        assert(before[i].key@ != before[j].key@);
    }
    lemma_slots_map(before);
    lemma_slots_map(after);
    let key = before[at].key@;
    let changed = slots_map(before).insert(key, entry);
    assert forall|k: Seq<char>| slots_map(after).contains_key(k) <==> changed.contains_key(k) by {
        if slots_map(after).contains_key(k) {
            let i = choose|i: int| 0 <= i < after.len() && (#[trigger] after[i]).key@ == k;
            assert(before[i].key@ == k);
        }
        if slots_map(before).contains_key(k) {
            let i = choose|i: int| 0 <= i < before.len() && (#[trigger] before[i]).key@ == k;
            assert(after[i].key@ == k);
        }
        if k == key {
            assert(after[at].key@ == k);
        }
    }
    assert forall|k: Seq<char>| slots_map(after).contains_key(k) implies slots_map(after)[k]
        == changed[k] by {
        let i = choose|i: int| 0 <= i < after.len() && (#[trigger] after[i]).key@ == k;
        assert(before[i].key@ == k);
        if i != at {
            assert(after[i].entry == before[i].entry);
        }
    }
    assert(slots_map(after) =~= changed);
}

/// Taking out the place at `at` keeps keys distinct and takes its key out of
/// the map.
proof fn lemma_slot_removed<R>(before: Seq<ResultSlot<R>>, at: int)
    requires
        distinct_keys(before),
        0 <= at < before.len(),
    ensures
        distinct_keys(before.remove(at)),
        slots_map(before.remove(at)) == slots_map(before).remove(before[at].key@),
{
    let after = before.remove(at);
    assert forall|i: int, j: int| 0 <= i < j < after.len() implies (#[trigger] after[i]).key@ != (
    #[trigger] after[j]).key@ by {
        let bi = if i < at { i } else { i + 1 };
        let bj = if j < at { j } else { j + 1 };
        assert(before[bi].key@ != before[bj].key@);
    }
    lemma_slots_map(before);
    lemma_slots_map(after);
    let k0 = before[at].key@;
    let changed = slots_map(before).remove(k0);
    assert forall|k: Seq<char>| slots_map(after).contains_key(k) <==> changed.contains_key(k) by {
        if slots_map(after).contains_key(k) {
            let i = choose|i: int| 0 <= i < after.len() && (#[trigger] after[i]).key@ == k;
            let bi = if i < at { i } else { i + 1 };
            assert(before[bi].key@ == k);
            if k == k0 {
                if bi < at {
                    assert(before[bi].key@ != before[at].key@);
                } else {
                    assert(before[at].key@ != before[bi].key@);
                }
            }
        }
        if changed.contains_key(k) {
            let i = choose|i: int| 0 <= i < before.len() && (#[trigger] before[i]).key@ == k;
            let ai = if i < at { i } else { i - 1 };
            assert(after[ai].key@ == k);
        }
    }
    assert forall|k: Seq<char>| slots_map(after).contains_key(k) implies slots_map(after)[k]
        == changed[k] by {
        let i = choose|i: int| 0 <= i < after.len() && (#[trigger] after[i]).key@ == k;
        let bi = if i < at { i } else { i + 1 };
        assert(before[bi] == after[i]);
    }
    assert(slots_map(after) =~= changed);
}

impl<R> ResultStorage<R> {
    /// The places by the text of their keys.
    pub closed spec fn view(&self) -> Map<Seq<char>, ResultEntry<R>> {
        slots_map(self.slots@)
    }

    /// The store's invariant: no two places have the same key.
    pub closed spec fn well_formed(&self) -> bool {
        distinct_keys(self.slots@)
    }

    /// Creates a store without places.
    pub fn new() -> (r: Self)
        ensures
            r.well_formed(),
            r@ == Map::<Seq<char>, ResultEntry<R>>::empty(),
    {
        ResultStorage { slots: Vec::new() }
    }

    /// The index of the place under the key `text`, if there is one.
    fn position(&self, text: &String) -> (r: Option<usize>)
        requires
            self.well_formed(),
        ensures
            match r {
                Some(i) => i < self.slots@.len() && self.slots@[i as int].key@ == text@
                    && self@.contains_key(text@) && self@[text@] == self.slots@[i as int].entry,
                None => !self@.contains_key(text@),
            },
    {
        let mut i: usize = 0;
        while i < self.slots.len()
            invariant
                self.well_formed(),
                i <= self.slots@.len(),
                forall|j: int| 0 <= j < i ==> (#[trigger] self.slots@[j]).key@ != text@,
            decreases self.slots@.len() - i,
        {
            if self.slots[i].key == *text {
                proof {
                    lemma_slots_map(self.slots@);
                }
                return Some(i);
            }
            i += 1;
        }
        proof {
            lemma_slots_map(self.slots@);
        }
        None
    }

    /// Sets the entry of the place at `at`.
    fn set_entry(&mut self, at: usize, entry: ResultEntry<R>)
        requires
            old(self).well_formed(),
            at < old(self).slots@.len(),
        ensures
            final(self).well_formed(),
            final(self)@ == old(self)@.insert(old(self).slots@[at as int].key@, entry),
    {
        self.slots[at].entry = entry;
        proof {
            lemma_entry_replaced(old(self).slots@, self.slots@, at as int, entry);
        }
    }

    /// Makes a place for the result of `key`. A place that is already kept
    /// under the key starts anew.
    pub fn create_slot(&mut self, key: &MailboxKey)
        requires
            old(self).well_formed(),
        ensures
            final(self).well_formed(),
            final(self)@ == old(self)@.insert(
                key_text(key@),
                ResultEntry { result: None, state: ResultState::Pending },
            ),
    {
        let text = mailbox_key_to_string(key);
        let entry = ResultEntry { result: None, state: ResultState::Pending };
        match self.position(&text) {
            Some(at) => {
                self.set_entry(at, entry);
            },
            None => {
                proof {
                    lemma_slots_map(self.slots@);
                }
                self.slots.push(ResultSlot { key: text, entry });
                proof {
                    let before = old(self).slots@;
                    let after = self.slots@;
                    assert(after.drop_last() =~= before);
                    assert forall|i: int, j: int| 0 <= i < j < after.len() implies (
                    #[trigger] after[i]).key@ != (#[trigger] after[j]).key@ by {
                        if j < before.len() {
                            assert(before[i].key@ != before[j].key@);
                        } else {
                            assert(before[i].key@ != text@);
                        }
                    }
                }
            },
        }
    }

    /// Stores `result` in the place of `key` and marks it ready, and says
    /// whether there was such a place. Without one the result is dropped.
    pub fn store(&mut self, key: &MailboxKey, result: R) -> (r: bool)
        requires
            old(self).well_formed(),
        ensures
            final(self).well_formed(),
            r == old(self)@.contains_key(key_text(key@)),
            r ==> final(self)@ == old(self)@.insert(
                key_text(key@),
                ResultEntry { result: Some(result), state: ResultState::Ready },
            ),
            !r ==> final(self)@ == old(self)@,
    {
        let text = mailbox_key_to_string(key);
        match self.position(&text) {
            Some(at) => {
                self.set_entry(at, ResultEntry { result: Some(result), state: ResultState::Ready });
                true
            },
            None => false,
        }
    }

    /// Looks at the place of `key`, and takes the result out of it where the
    /// task has finished. The place stays.
    pub fn take_ready(&mut self, key: &MailboxKey) -> (r: ResultLookup<R>)
        requires
            old(self).well_formed(),
        ensures
            final(self).well_formed(),
            match r {
                ResultLookup::Missing => {
                    &&& !old(self)@.contains_key(key_text(key@))
                    &&& final(self)@ == old(self)@
                },
                ResultLookup::Pending => {
                    &&& old(self)@.contains_key(key_text(key@))
                    &&& old(self)@[key_text(key@)].state == ResultState::Pending
                    &&& final(self)@ == old(self)@
                },
                ResultLookup::Ready(result) => {
                    &&& old(self)@.contains_key(key_text(key@))
                    &&& old(self)@[key_text(key@)].state == ResultState::Ready
                    &&& result == old(self)@[key_text(key@)].result
                    &&& final(self)@ == old(self)@.insert(
                        key_text(key@),
                        ResultEntry { result: None, state: ResultState::Ready },
                    )
                },
            },
    {
        let text = mailbox_key_to_string(key);
        match self.position(&text) {
            None => ResultLookup::Missing,
            Some(at) => {
                match self.slots[at].entry.state {
                    ResultState::Pending => ResultLookup::Pending,
                    ResultState::Ready => {
                        let result = self.slots[at].entry.result.take();
                        proof {
                            lemma_entry_replaced(
                                old(self).slots@,
                                self.slots@,
                                at as int,
                                ResultEntry { result: None, state: ResultState::Ready },
                            );
                        }
                        ResultLookup::Ready(result)
                    },
                }
            },
        }
    }

    /// Takes the result of `key` where the task has finished. The place
    /// stays.
    pub fn try_retrieve(&mut self, key: &MailboxKey) -> (r: Option<R>)
        requires
            old(self).well_formed(),
        ensures
            final(self).well_formed(),
            old(self)@.contains_key(key_text(key@)) && old(self)@[key_text(key@)].state
                == ResultState::Ready ==> r == old(self)@[key_text(key@)].result && final(self)@
                == old(self)@.insert(
                key_text(key@),
                ResultEntry { result: None, state: ResultState::Ready },
            ),
            !(old(self)@.contains_key(key_text(key@)) && old(self)@[key_text(key@)].state
                == ResultState::Ready) ==> r is None && final(self)@ == old(self)@,
    {
        match self.take_ready(key) {
            ResultLookup::Ready(result) => result,
            _ => None,
        }
    }

    /// Gives up the place of `key` and hands over the result that it holds,
    /// if any.
    pub fn remove(&mut self, key: &MailboxKey) -> (r: Option<R>)
        requires
            old(self).well_formed(),
        ensures
            final(self).well_formed(),
            final(self)@ == old(self)@.remove(key_text(key@)),
            r == if old(self)@.contains_key(key_text(key@)) {
                old(self)@[key_text(key@)].result
            } else {
                None
            },
    {
        let text = mailbox_key_to_string(key);
        match self.position(&text) {
            None => {
                assert(self@ =~= self@.remove(key_text(key@)));
                None
            },
            Some(at) => {
                let slot = self.slots.remove(at);
                proof {
                    lemma_slot_removed(old(self).slots@, at as int);
                }
                slot.entry.result
            },
        }
    }
}

/// The sending end of a channel of `crossbeam_channel`.
#[verifier::external_type_specification]
#[verifier::external_body]
#[verifier::reject_recursive_types(T)]
pub struct ExSender<T>(Sender<T>);

/// The receiving end of a channel of `crossbeam_channel`.
#[verifier::external_type_specification]
#[verifier::external_body]
#[verifier::reject_recursive_types(T)]
pub struct ExReceiver<T>(Receiver<T>);

/// The largest capacity that a task channel can be built with on this
/// machine: a quarter of the largest `usize`. A pool whose `max_queue_depth`
/// is larger is refused.
pub const MAX_CHANNEL_CAPACITY: usize = usize::MAX / 4;


/// How an attempt to send a task ended.
#[derive(Debug, Clone, Copy, PartialEq, Eq, Structural)]
pub enum SendOutcome {
    /// The task is in the channel.
    Sent,
    /// The channel is full.
    Full,
    /// The channel is closed: no worker will receive from it.
    Disconnected,
}

/// Opens a channel that holds up to `capacity` tasks.
///
/// Calls `crossbeam_channel::bounded`. It panics where the capacity is too
/// large for its counters: the power of two above the capacity, doubled,
/// must fit a `usize`, which it does for a capacity of a quarter of the
/// largest `usize` or less. The slots are allocated at once; that memory
/// may run out is not modelled. Nothing is claimed about the two ends.
#[verifier::external_body]
fn open_channel<T>(capacity: usize) -> (r: (Sender<T>, Receiver<T>))
    requires
        0 < capacity <= MAX_CHANNEL_CAPACITY,
{
    crossbeam_channel::bounded(capacity)
}

/// Tries to put `message` into the channel without waiting.
///
/// Calls `crossbeam_channel::Sender::try_send`, which sends at once or
/// reports that the channel is full or disconnected. Which of the three it
/// is depends on the workers at the other end, so nothing is claimed about
/// it.
#[verifier::external_body]
fn offer<T>(tx: &Sender<T>, message: T) -> (r: SendOutcome) {
    match tx.try_send(message) {
        Ok(()) => SendOutcome::Sent,
        Err(TrySendError::Full(_)) => SendOutcome::Full,
        Err(TrySendError::Disconnected(_)) => SendOutcome::Disconnected,
    }
}

/// What the first part of a retrieval found.
#[derive(Debug)]
pub enum Retrieval<R> {
    /// The retrieval is over, with the result or an error.
    Done(Result<R, PoolError>),
    /// The task has not finished: wait for the notification or the timeout,
    /// then call `retrieve_after_wait`.
    Wait,
}

/// A retrieval that does not wait, on the places `results` and the key text
/// `key`: its outcome and the places that it leaves.
///
/// Without a place the result is not found. A finished task hands over its
/// result and gives up its place; where the result was taken before, it is
/// not found. A task that has not finished keeps its place.
pub open spec fn retrieval<R>(results: Map<Seq<char>, ResultEntry<R>>, key: Seq<char>) -> (
    Retrieval<R>,
    Map<Seq<char>, ResultEntry<R>>,
) {
    if !results.contains_key(key) {
        (Retrieval::Done(Err(PoolError::ResultNotFound)), results)
    } else if results[key].state == ResultState::Pending {
        (Retrieval::Wait, results)
    } else {
        match results[key].result {
            Some(result) => (Retrieval::Done(Ok(result)), results.remove(key)),
            None => (Retrieval::Done(Err(PoolError::ResultNotFound)), results.remove(key)),
        }
    }
}

/// The end of a retrieval that waited, on the places `results` and the key
/// text `key`: its outcome and the places that it leaves.
///
/// A wait that timed out ends in `Timeout`, and so does one after which the
/// task has still not finished. Otherwise the result is handed over, or not
/// found where there is none. The place is given up in every case.
pub open spec fn retrieval_after_wait<R>(
    results: Map<Seq<char>, ResultEntry<R>>,
    key: Seq<char>,
    timed_out: bool,
) -> (Result<R, PoolError>, Map<Seq<char>, ResultEntry<R>>) {
    if timed_out {
        (Err(PoolError::Timeout), results.remove(key))
    } else if !results.contains_key(key) {
        (Err(PoolError::ResultNotFound), results.remove(key))
    } else if results[key].state == ResultState::Pending {
        (Err(PoolError::Timeout), results.remove(key))
    } else {
        match results[key].result {
            Some(result) => (Ok(result), results.remove(key)),
            None => (Err(PoolError::ResultNotFound), results.remove(key)),
        }
    }
}

/// A result is retrieved at most once: after a retrieval that ended, with
/// or without a wait, the next retrieval for the same key finds nothing.
pub proof fn lemma_retrieve_once<R>(
    results: Map<Seq<char>, ResultEntry<R>>,
    key: Seq<char>,
    timed_out: bool,
)
    ensures
        retrieval(results, key).0 is Done ==> retrieval(retrieval(results, key).1, key).0
            == Retrieval::<R>::Done(Err(PoolError::ResultNotFound)),
        retrieval(retrieval_after_wait(results, key, timed_out).1, key).0 == Retrieval::<R>::Done(
            Err(PoolError::ResultNotFound),
        ),
{
}

/// A result that arrives after its place was given up is dropped: storing
/// needs a place, and a retrieval that ended has left none.
pub proof fn lemma_late_result_dropped<R>(
    results: Map<Seq<char>, ResultEntry<R>>,
    key: Seq<char>,
    timed_out: bool,
)
    ensures
        !retrieval_after_wait(results, key, timed_out).1.contains_key(key),
        retrieval(results, key).0 is Done ==> !retrieval(results, key).1.contains_key(key),
{
}

/// The worker pool's bookkeeping. `P` is the payload of a task and `R` the
/// result of running one.
#[verifier::reject_recursive_types(P)]
pub struct WorkerPool<P, R> {
    config: WorkerPoolConfig,
    task_tx: Option<Sender<WorkerTask<P>>>,
    results: ResultStorage<R>,
    counters: PoolCounters,
    shutdown: bool,
    task_id_counter: u64,
}

impl<P, R> WorkerPool<P, R> {
    /// The pool's configuration.
    pub closed spec fn config(&self) -> WorkerPoolConfig {
        self.config
    }

    /// The pool's counters.
    pub closed spec fn counters(&self) -> PoolCounters {
        self.counters
    }

    /// Whether the pool was shut down.
    pub closed spec fn shut_down(&self) -> bool {
        self.shutdown
    }

    /// The number that the next task gets.
    pub closed spec fn next_task_id(&self) -> u64 {
        self.task_id_counter
    }

    /// The places of results by the text of their keys.
    pub closed spec fn results(&self) -> Map<Seq<char>, ResultEntry<R>> {
        self.results@
    }

    /// The pool's invariant: the store of results is well-formed, and the
    /// channel is open exactly while the pool is not shut down.
    pub closed spec fn well_formed(&self) -> bool {
        &&& self.results.well_formed()
        &&& self.shutdown <==> self.task_tx is None
    }

    /// Whether `after` is `before` in all that a caller can observe.
    pub open spec fn untouched(before: &Self, after: &Self) -> bool {
        &&& after.config() == before.config()
        &&& after.counters() == before.counters()
        &&& after.shut_down() == before.shut_down()
        &&& after.next_task_id() == before.next_task_id()
        &&& after.results() == before.results()
    }

    /// Creates a pool from `config`, with the channel that its workers
    /// receive tasks from. A configuration that is not valid is refused, and
    /// so is a queue depth above `MAX_CHANNEL_CAPACITY`.
    pub fn new(config: WorkerPoolConfig) -> (r: Result<
        (Self, Receiver<WorkerTask<P>>),
        PoolError,
    >)
        ensures
            r is Ok <==> config.valid() && config.max_queue_depth <= MAX_CHANNEL_CAPACITY,
            match r {
                Ok((pool, _)) => {
                    &&& pool.well_formed()
                    &&& pool.config() == config
                    &&& pool.counters() == (PoolCounters {
                        active_tasks: 0,
                        queued_tasks: 0,
                        used_units: 0,
                        completed_tasks: 0,
                        failed_tasks: 0,
                        submitted_tasks: 0,
                    })
                    &&& !pool.shut_down()
                    &&& pool.next_task_id() == 0
                    &&& pool.results() == Map::<Seq<char>, ResultEntry<R>>::empty()
                },
                Err(PoolError::InvalidConfig(why)) => why@ == if !config.valid() {
                    config.fault()
                } else {
                    "max_queue_depth is too large"@
                },
                Err(_) => false,
            },
    {
        match config.validate() {
            Ok(()) => {},
            Err(why) => {
                return Err(PoolError::InvalidConfig(why));
            },
        }
        if config.max_queue_depth > MAX_CHANNEL_CAPACITY {
            return Err(PoolError::InvalidConfig(String::from_str("max_queue_depth is too large")));
        }
        let (task_tx, task_rx) = open_channel::<WorkerTask<P>>(config.max_queue_depth);
        let pool = WorkerPool {
            config,
            task_tx: Some(task_tx),
            results: ResultStorage::new(),
            counters: PoolCounters::default(),
            shutdown: false,
            task_id_counter: 0,
        };
        Ok((pool, task_rx))
    }

    /// Ends a submission whose task was offered to the channel with the
    /// outcome `outcome`. A task that was sent counts as submitted and
    /// queued, and its key is handed back. For a task that was not sent, the
    /// place made for its result is given up: a full channel is `QueueFull`,
    /// a closed one `PoolShutdown`.
    pub fn finish_submit(&mut self, key: MailboxKey, outcome: SendOutcome) -> (r: Result<
        MailboxKey,
        PoolError,
    >)
        requires
            old(self).well_formed(),
        ensures
            final(self).well_formed(),
            final(self).config() == old(self).config(),
            final(self).shut_down() == old(self).shut_down(),
            final(self).next_task_id() == old(self).next_task_id(),
            match outcome {
                SendOutcome::Sent => {
                    &&& r == Ok::<MailboxKey, PoolError>(key)
                    &&& final(self).results() == old(self).results()
                    &&& final(self).counters() == (PoolCounters {
                        submitted_tasks: old(self).counters().submitted_tasks.wrapping_add(1),
                        queued_tasks: old(self).counters().queued_tasks.wrapping_add(1),
                        ..old(self).counters()
                    })
                },
                SendOutcome::Full => {
                    &&& r matches Err(PoolError::QueueFull)
                    &&& final(self).results() == old(self).results().remove(key_text(key@))
                    &&& final(self).counters() == old(self).counters()
                },
                SendOutcome::Disconnected => {
                    &&& r matches Err(PoolError::PoolShutdown)
                    &&& final(self).results() == old(self).results().remove(key_text(key@))
                    &&& final(self).counters() == old(self).counters()
                },
            },
    {
        match outcome {
            SendOutcome::Sent => {
                self.counters.submitted_tasks = self.counters.submitted_tasks.wrapping_add(1);
                self.counters.queued_tasks = self.counters.queued_tasks.wrapping_add(1);
                Ok(key)
            },
            SendOutcome::Full => {
                let _ = self.results.remove(&key);
                Err(PoolError::QueueFull)
            },
            SendOutcome::Disconnected => {
                let _ = self.results.remove(&key);
                Err(PoolError::PoolShutdown)
            },
        }
    }

    /// Submits a task without waiting. A pool that was shut down refuses it
    /// with `PoolShutdown` and nothing changes. Otherwise the task gets the
    /// next number and the key made of it, a place is made for its result,
    /// and what `worker_task` makes of the payload, the metadata and the key
    /// is offered to the channel; the submission ends as `finish_submit` says
    /// for what the channel answered.
    pub fn submit(&mut self, payload: P, meta: TaskMetadata) -> (r: Result<MailboxKey, PoolError>)
        requires
            old(self).well_formed(),
        ensures
            final(self).well_formed(),
            final(self).config() == old(self).config(),
            final(self).shut_down() == old(self).shut_down(),
            old(self).shut_down() ==> (r matches Err(PoolError::PoolShutdown)) && Self::untouched(
                old(self),
                final(self),
            ),
            !old(self).shut_down() ==> {
                let id = old(self).next_task_id();
                let text = key_text(worker_key(id));
                &&& final(self).next_task_id() == id.wrapping_add(1)
                &&& match r {
                    Ok(key) => {
                        &&& key@ == worker_key(id)
                        &&& final(self).results() == old(self).results().insert(
                            text,
                            ResultEntry { result: None, state: ResultState::Pending },
                        )
                        &&& final(self).counters() == (PoolCounters {
                            submitted_tasks: old(self).counters().submitted_tasks.wrapping_add(1),
                            queued_tasks: old(self).counters().queued_tasks.wrapping_add(1),
                            ..old(self).counters()
                        })
                    },
                    Err(PoolError::QueueFull) | Err(PoolError::PoolShutdown) => {
                        &&& final(self).results() == old(self).results().remove(text)
                        &&& final(self).counters() == old(self).counters()
                    },
                    Err(_) => false,
                }
            },
    {
        if self.shutdown {
            return Err(PoolError::PoolShutdown);
        }
        let task_id = self.task_id_counter;
        self.task_id_counter = task_id.wrapping_add(1);
        let mailbox_key = generate_mailbox_key(task_id);
        self.results.create_slot(&mailbox_key);
        let task = worker_task(payload, meta, mailbox_key.clone());
        let outcome = match &self.task_tx {
            Some(task_tx) => offer(task_tx, task),
            None => SendOutcome::Disconnected,
        };
        proof {
            let text = key_text(worker_key(task_id));
            let pending = ResultEntry::<R> { result: None, state: ResultState::Pending };
            assert(old(self).results().insert(text, pending).remove(text) =~= old(self).results().remove(text));
        }
        self.finish_submit(mailbox_key, outcome)
    }

    /// Submits a task on a cooperative runtime, where no worker thread
    /// receives from the channel: the task is handed back, and the caller
    /// starts it as one of its own tasks, limited to `worker_count` at a
    /// time.
    ///
    /// A pool that was shut down refuses the task with `PoolShutdown`, and one
    /// in which `max_queue_depth` tasks wait already with `QueueFull`;
    /// nothing changes then. Otherwise the task gets the next number and the
    /// key made of it, a place is made for its result, and it counts as
    /// submitted and queued.
    pub fn submit_async(&mut self, payload: P, meta: TaskMetadata) -> (r: Result<
        WorkerTask<P>,
        PoolError,
    >)
        requires
            old(self).well_formed(),
        ensures
            final(self).well_formed(),
            final(self).config() == old(self).config(),
            final(self).shut_down() == old(self).shut_down(),
            if old(self).shut_down() {
                (r matches Err(PoolError::PoolShutdown)) && Self::untouched(old(self), final(self))
            } else if old(self).counters().queued_tasks >= old(self).config().max_queue_depth {
                (r matches Err(PoolError::QueueFull)) && Self::untouched(old(self), final(self))
            } else {
                &&& r matches Ok(task) && task.payload == payload && task.meta == meta
                    && task.mailbox_key@ == worker_key(old(self).next_task_id())
                &&& final(self).next_task_id() == old(self).next_task_id().wrapping_add(1)
                &&& final(self).results() == old(self).results().insert(
                    key_text(worker_key(old(self).next_task_id())),
                    ResultEntry { result: None, state: ResultState::Pending },
                )
                &&& final(self).counters() == (PoolCounters {
                    submitted_tasks: old(self).counters().submitted_tasks.wrapping_add(1),
                    queued_tasks: old(self).counters().queued_tasks.wrapping_add(1),
                    ..old(self).counters()
                })
            },
    {
        if self.shutdown {
            return Err(PoolError::PoolShutdown);
        }
        if self.counters.queued_tasks >= self.config.max_queue_depth as u64 {
            return Err(PoolError::QueueFull);
        }
        let task_id = self.task_id_counter;
        self.task_id_counter = task_id.wrapping_add(1);
        let mailbox_key = generate_mailbox_key(task_id);
        self.results.create_slot(&mailbox_key);
        self.counters.submitted_tasks = self.counters.submitted_tasks.wrapping_add(1);
        self.counters.queued_tasks = self.counters.queued_tasks.wrapping_add(1);
        Ok(worker_task(payload, meta, mailbox_key))
    }

    /// A worker reports that it received a task of `cost` units, and learns
    /// whether to run it. After a shutdown it is not to: the task is dropped
    /// and the worker ends. Otherwise the task counts as running and holds
    /// its units.
    pub fn task_started(&mut self, cost: u32) -> (r: bool)
        requires
            old(self).well_formed(),
        ensures
            final(self).well_formed(),
            r == !old(self).shut_down(),
            !r ==> Self::untouched(old(self), final(self)),
            r ==> {
                &&& final(self).config() == old(self).config()
                &&& final(self).shut_down() == old(self).shut_down()
                &&& final(self).next_task_id() == old(self).next_task_id()
                &&& final(self).results() == old(self).results()
                &&& final(self).counters() == (PoolCounters {
                    queued_tasks: old(self).counters().queued_tasks.wrapping_sub(1),
                    active_tasks: old(self).counters().active_tasks.wrapping_add(1),
                    used_units: old(self).counters().used_units.wrapping_add(cost),
                    ..old(self).counters()
                })
            },
    {
        if self.shutdown {
            return false;
        }
        self.counters.queued_tasks = self.counters.queued_tasks.wrapping_sub(1);
        self.counters.active_tasks = self.counters.active_tasks.wrapping_add(1);
        self.counters.used_units = self.counters.used_units.wrapping_add(cost);
        true
    }

    /// A worker reports that the task of `key` and `cost` units ended with
    /// `result`. The result is stored in its place, where that is still
    /// kept, and the task's units are released. Tells whether there was a
    /// place, and so whether a retrieval may be waiting for the notification.
    pub fn task_finished(&mut self, key: &MailboxKey, cost: u32, result: R) -> (r: bool)
        requires
            old(self).well_formed(),
        ensures
            final(self).well_formed(),
            final(self).config() == old(self).config(),
            final(self).shut_down() == old(self).shut_down(),
            final(self).next_task_id() == old(self).next_task_id(),
            r == old(self).results().contains_key(key_text(key@)),
            r ==> final(self).results() == old(self).results().insert(
                key_text(key@),
                ResultEntry { result: Some(result), state: ResultState::Ready },
            ),
            !r ==> final(self).results() == old(self).results(),
            final(self).counters() == (PoolCounters {
                active_tasks: old(self).counters().active_tasks.wrapping_sub(1),
                used_units: old(self).counters().used_units.wrapping_sub(cost),
                completed_tasks: old(self).counters().completed_tasks.wrapping_add(1),
                ..old(self).counters()
            }),
    {
        let stored = self.results.store(key, result);
        self.counters.active_tasks = self.counters.active_tasks.wrapping_sub(1);
        self.counters.used_units = self.counters.used_units.wrapping_sub(cost);
        self.counters.completed_tasks = self.counters.completed_tasks.wrapping_add(1);
        stored
    }

    /// The first part of a retrieval, which does not wait. See `retrieval`.
    pub fn retrieve(&mut self, key: &MailboxKey) -> (r: Retrieval<R>)
        requires
            old(self).well_formed(),
        ensures
            final(self).well_formed(),
            final(self).config() == old(self).config(),
            final(self).counters() == old(self).counters(),
            final(self).shut_down() == old(self).shut_down(),
            final(self).next_task_id() == old(self).next_task_id(),
            (r, final(self).results()) == retrieval(old(self).results(), key_text(key@)),
    {
        match self.results.take_ready(key) {
            ResultLookup::Missing => Retrieval::Done(Err(PoolError::ResultNotFound)),
            ResultLookup::Pending => Retrieval::Wait,
            ResultLookup::Ready(result) => {
                let _ = self.results.remove(key);
                proof {
                    let text = key_text(key@);
                    let taken = ResultEntry::<R> { result: None, state: ResultState::Ready };
                    assert(old(self).results().insert(text, taken).remove(text) =~= old(self).results().remove(text));
                }
                match result {
                    Some(value) => Retrieval::Done(Ok(value)),
                    None => Retrieval::Done(Err(PoolError::ResultNotFound)),
                }
            },
        }
    }

    /// The end of a retrieval that waited; `timed_out` says whether the
    /// wait ended by its timeout. See `retrieval_after_wait`.
    pub fn retrieve_after_wait(&mut self, key: &MailboxKey, timed_out: bool) -> (r: Result<
        R,
        PoolError,
    >)
        requires
            old(self).well_formed(),
        ensures
            final(self).well_formed(),
            final(self).config() == old(self).config(),
            final(self).counters() == old(self).counters(),
            final(self).shut_down() == old(self).shut_down(),
            final(self).next_task_id() == old(self).next_task_id(),
            (r, final(self).results()) == retrieval_after_wait(
                old(self).results(),
                key_text(key@),
                timed_out,
            ),
    {
        if timed_out {
            let _ = self.results.remove(key);
            return Err(PoolError::Timeout);
        }
        let found = self.results.take_ready(key);
        let _ = self.results.remove(key);
        proof {
            let text = key_text(key@);
            let taken = ResultEntry::<R> { result: None, state: ResultState::Ready };
            assert(old(self).results().insert(text, taken).remove(text) =~= old(self).results().remove(text));
        }
        match found {
            ResultLookup::Missing => Err(PoolError::ResultNotFound),
            ResultLookup::Pending => Err(PoolError::Timeout),
            ResultLookup::Ready(Some(value)) => Ok(value),
            ResultLookup::Ready(None) => Err(PoolError::ResultNotFound),
        }
    }

    /// The pool's statistics: its counters, the number of its workers and
    /// its units.
    #[must_use]
    pub fn stats(&self) -> (r: PoolStats)
        ensures
            r == (PoolStats {
                worker_count: self.config().worker_count,
                active_tasks: self.counters().active_tasks,
                queued_tasks: self.counters().queued_tasks,
                used_units: self.counters().used_units,
                total_units: self.config().max_units,
                completed_tasks: self.counters().completed_tasks,
                failed_tasks: self.counters().failed_tasks,
                submitted_tasks: self.counters().submitted_tasks,
            }),
    {
        self.counters.snapshot(self.config.worker_count, self.config.max_units)
    }

    /// Shuts the pool down and closes the channel, which ends the workers
    /// that wait on it. Tells whether this call did so: a pool is shut down
    /// once. What runs may finish; results stay until they are retrieved.
    pub fn shutdown(&mut self) -> (r: bool)
        requires
            old(self).well_formed(),
        ensures
            final(self).well_formed(),
            r == !old(self).shut_down(),
            final(self).shut_down(),
            final(self).config() == old(self).config(),
            final(self).counters() == old(self).counters(),
            final(self).next_task_id() == old(self).next_task_id(),
            final(self).results() == old(self).results(),
    {
        if self.shutdown {
            return false;
        }
        self.shutdown = true;
        self.task_tx = None;
        true
    }
}

} // verus!
