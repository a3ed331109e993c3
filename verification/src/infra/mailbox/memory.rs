//! In-memory mailbox: for each key, the messages in the order of delivery.

use vstd::prelude::*;
use vstd::seq_lib::*;
use crate::scheduler::backend::Mailbox;
use crate::scheduler::error::SchedulerError;
use crate::scheduler::task::TaskStatus;
use crate::util::clock::now_ms;
use crate::util::serde::{MailboxKey, MailboxKeyView};

verus! {

/// One delivered outcome.
#[derive(Debug)]
pub struct MailboxMessage<P> {
    /// How the task ended.
    pub status: TaskStatus,
    /// The result, if the task produced one.
    pub payload: Option<P>,
    /// When the message was delivered, in milliseconds since the epoch.
    pub created_at_ms: u128,
}

/// Whether `copy` is what cloning `message` may give: the same status and
/// time, and a payload cloned from that of `message`.
pub open spec fn message_copy<P: Clone>(message: MailboxMessage<P>, copy: MailboxMessage<P>) -> bool {
    &&& copy.status == message.status
    &&& copy.created_at_ms == message.created_at_ms
    &&& match (message.payload, copy.payload) {
        (Some(a), Some(b)) => cloned(a, b),
        (None, None) => true,
        _ => false,
    }
}

impl<P: Clone> Clone for MailboxMessage<P> {
    fn clone(&self) -> (r: Self)
        ensures
            message_copy(*self, r),
    {
        let payload = match &self.payload {
            Some(p) => Some(p.clone()),
            None => None,
        };
        MailboxMessage { status: self.status.clone(), payload, created_at_ms: self.created_at_ms }
    }
}

/// The messages of one key.
struct MailboxEntry<P> {
    key: MailboxKey,
    messages: Vec<MailboxMessage<P>>,
}

/// Mailbox that keeps every message in memory.
pub struct InMemoryMailbox<P> {
    entries: Vec<MailboxEntry<P>>,
}

/// The messages that `entries` hold for `key`: those of the first entry with
/// that key, or none.
spec fn lookup<P>(entries: Seq<MailboxEntry<P>>, key: MailboxKeyView) -> Seq<MailboxMessage<P>>
    decreases entries.len(),
{
    if entries.len() == 0 {
        Seq::empty()
    } else if entries[0].key@ == key {
        entries[0].messages@
    } else {
        lookup(entries.drop_first(), key)
    }
}

/// Where no entry before `upto` has the key, the lookup is that of the rest.
proof fn lemma_lookup_skip<P>(entries: Seq<MailboxEntry<P>>, key: MailboxKeyView, upto: int)
    requires
        0 <= upto <= entries.len(),
        forall|j: int| 0 <= j < upto ==> (#[trigger] entries[j]).key@ != key,
    ensures
        lookup(entries, key) == lookup(entries.skip(upto), key),
    decreases upto,
{
    if upto == 0 {
        assert(entries.skip(0) =~= entries);
    } else {
        lemma_lookup_skip(entries.drop_first(), key, upto - 1);
        assert(entries.drop_first().skip(upto - 1) =~= entries.skip(upto));
    }
}

/// Replacing the messages of the entry at `at` changes the lookup of no other
/// key.
proof fn lemma_lookup_other<P>(
    before: Seq<MailboxEntry<P>>,
    after: Seq<MailboxEntry<P>>,
    at: int,
    key: MailboxKeyView,
)
    requires
        after.len() == before.len(),
        forall|j: int| 0 <= j < before.len() ==> (#[trigger] after[j]).key@ == before[j].key@,
        forall|j: int|
            0 <= j < before.len() && j != at ==> (#[trigger] after[j]).messages@
                == before[j].messages@,
        0 <= at < before.len() ==> before[at].key@ != key,
    ensures
        lookup(after, key) == lookup(before, key),
    decreases before.len(),
{
    if before.len() > 0 {
        assert(after[0].key@ == before[0].key@);
        if before[0].key@ == key {
            assert(after[0].messages@ == before[0].messages@);
        } else {
            let b = before.drop_first();
            let a = after.drop_first();
            assert forall|j: int| 0 <= j < b.len() implies (#[trigger] a[j]).key@ == b[j].key@ by {
                assert(after[j + 1].key@ == before[j + 1].key@);
            }
            assert forall|j: int| 0 <= j < b.len() && j != at - 1 implies (#[trigger] a[j]).messages@
                == b[j].messages@ by {
                assert(after[j + 1].messages@ == before[j + 1].messages@);
            }
            lemma_lookup_other(b, a, at - 1, key);
        }
    }
}

/// An entry pushed at the end changes the lookup of no key but its own.
proof fn lemma_lookup_push_other<P>(
    entries: Seq<MailboxEntry<P>>,
    entry: MailboxEntry<P>,
    key: MailboxKeyView,
)
    requires
        entry.key@ != key,
    ensures
        lookup(entries.push(entry), key) == lookup(entries, key),
    decreases entries.len(),
{
    let grown = entries.push(entry);
    if entries.len() == 0 {
        assert(grown.drop_first() =~= entries);
    } else if entries[0].key@ == key {
        assert(grown[0] == entries[0]);
    } else {
        assert(grown[0] == entries[0]);
        lemma_lookup_push_other(entries.drop_first(), entry, key);
        assert(grown.drop_first() =~= entries.drop_first().push(entry));
    }
}

/// The test that a message is not older than `since_ms`, where that is given.
pub open spec fn not_before<P>(since_ms: Option<u128>) -> spec_fn(MailboxMessage<P>) -> bool {
    |m: MailboxMessage<P>|
        match since_ms {
            Some(since) => m.created_at_ms >= since,
            None => true,
        }
}

/// The messages of `log` that a fetch selects: those not older than
/// `since_ms`, in order, and of these the first `limit`.
pub open spec fn selected<P>(log: Seq<MailboxMessage<P>>, since_ms: Option<u128>, limit: nat) -> Seq<
    MailboxMessage<P>,
> {
    let recent = log.filter(not_before(since_ms));
    if limit < recent.len() {
        recent.take(limit as int)
    } else {
        recent
    }
}

/// What passes a filter within the first `upto` elements is the beginning of
/// what passes within the whole sequence.
proof fn lemma_filter_prefix<A>(s: Seq<A>, pred: spec_fn(A) -> bool, upto: int, whole: int)
    requires
        0 <= upto <= whole <= s.len(),
    ensures
        s.take(upto).filter(pred).len() <= s.take(whole).filter(pred).len(),
        forall|j: int|
            0 <= j < s.take(upto).filter(pred).len() ==> s.take(upto).filter(pred)[j]
                == #[trigger] s.take(whole).filter(pred)[j],
    decreases whole - upto,
{
    if upto < whole {
        lemma_filter_prefix(s, pred, upto, whole - 1);
        assert(s.take(whole) =~= s.take(whole - 1).push(s[whole - 1]));
        s.take(whole - 1).lemma_filter_push(s[whole - 1], pred);
    }
}

impl<P> InMemoryMailbox<P> {
    /// Creates a mailbox without messages.
    pub fn new() -> (r: Self)
        ensures
            r.well_formed(),
            r.reliable(),
            forall|key: MailboxKeyView| #[trigger] r.log(key) == Seq::<MailboxMessage<P>>::empty(),
    {
        InMemoryMailbox { entries: Vec::new() }
    }

    /// The index of the entry for `key`, if there is one.
    fn position(&self, key: &MailboxKey) -> (r: Option<usize>)
        ensures
            match r {
                Some(i) => i < self.entries@.len() && self.entries@[i as int].key@ == key@
                    && forall|j: int| 0 <= j < i ==> (#[trigger] self.entries@[j]).key@ != key@,
                None => forall|j: int|
                    0 <= j < self.entries@.len() ==> (#[trigger] self.entries@[j]).key@ != key@,
            },
    {
        let mut i: usize = 0;
        while i < self.entries.len()
            invariant
                i <= self.entries@.len(),
                forall|j: int| 0 <= j < i ==> (#[trigger] self.entries@[j]).key@ != key@,
            decreases self.entries@.len() - i,
        {
            if self.entries[i].key.same_as(key) {
                return Some(i);
            }
            i += 1;
        }
        None
    }

    /// Appends one message with `status`, `payload` and the time `now_ms` to
    /// the log of `key`. No other log changes.
    pub fn deliver_at(
        &mut self,
        key: &MailboxKey,
        status: TaskStatus,
        payload: Option<P>,
        now_ms: u128,
    )
        ensures
            final(self).log(key@) == old(self).log(key@).push(
                MailboxMessage { status, payload, created_at_ms: now_ms },
            ),
            forall|other: MailboxKeyView|
                other != key@ ==> #[trigger] final(self).log(other) == old(self).log(other),
    {
        let message = MailboxMessage { status, payload, created_at_ms: now_ms };
        let ghost before = self.entries@;
        match self.position(key) {
            Some(i) => {
                self.entries[i].messages.push(message);
                proof {
                    let after = self.entries@;
                    lemma_lookup_skip(before, key@, i as int);
                    lemma_lookup_skip(after, key@, i as int);
                    assert forall|other: MailboxKeyView| other != key@ implies lookup(after, other)
                        == lookup(before, other) by {
                        lemma_lookup_other(before, after, i as int, other);
                    }
                }
            },
            None => {
                let mut messages: Vec<MailboxMessage<P>> = Vec::new();
                messages.push(message);
                let entry = MailboxEntry { key: key.clone(), messages };
                self.entries.push(entry);
                proof {
                    let after = self.entries@;
                    lemma_lookup_skip(before, key@, before.len() as int);
                    lemma_lookup_skip(after, key@, before.len() as int);
                    assert(before.skip(before.len() as int) =~= Seq::empty());
                    assert(lookup(before, key@) =~= Seq::empty());
                    assert(after.skip(before.len() as int)[0] == entry);
                    assert(lookup(after, key@) =~= Seq::empty().push(message));
                    assert forall|other: MailboxKeyView| other != key@ implies lookup(after, other)
                        == lookup(before, other) by {
                        lemma_lookup_push_other(before, entry, other);
                    }
                }
            },
        }
    }

    /// Up to `limit` messages delivered to `key`, oldest first, and only those
    /// not older than `since_ms` where that is given. The mailbox keeps them.
    pub fn fetch(&self, key: &MailboxKey, since_ms: Option<u128>, limit: usize) -> (r: Vec<
        MailboxMessage<P>,
    >) where P: Clone
        ensures
            r@.len() == selected(self.log(key@), since_ms, limit as nat).len(),
            forall|i: int|
                0 <= i < r@.len() ==> message_copy(
                    selected(self.log(key@), since_ms, limit as nat)[i],
                    #[trigger] r@[i],
                ),
    {
        let mut out: Vec<MailboxMessage<P>> = Vec::new();
        match self.position(key) {
            None => {
                proof {
                    lemma_lookup_skip(self.entries@, key@, self.entries@.len() as int);
                    assert(self.entries@.skip(self.entries@.len() as int) =~= Seq::empty());
                    reveal(Seq::filter);
                }
            },
            Some(at) => {
                proof {
                    lemma_lookup_skip(self.entries@, key@, at as int);
                }
                let ghost log = self.entries@[at as int].messages@;
                let ghost pred = not_before::<P>(since_ms);
                let n = self.entries[at].messages.len();
                let mut i: usize = 0;
                proof {
                    reveal(Seq::filter);
                    assert(log.take(0) =~= Seq::empty());
                }
                while i < n && out.len() < limit
                    invariant
                        at < self.entries@.len(),
                        log == self.entries@[at as int].messages@,
                        n == log.len(),
                        i <= n,
                        pred == not_before::<P>(since_ms),
                        out@.len() <= limit,
                        out@.len() == log.take(i as int).filter(pred).len(),
                        forall|j: int|
                            0 <= j < out@.len() ==> message_copy(
                                log.take(i as int).filter(pred)[j],
                                #[trigger] out@[j],
                            ),
                    decreases n - i,
                {
                    let message = &self.entries[at].messages[i];
                    let recent = match since_ms {
                        Some(since) => message.created_at_ms >= since,
                        None => true,
                    };
                    proof {
                        assert(log.take(i + 1) =~= log.take(i as int).push(log[i as int]));
                        log.take(i as int).lemma_filter_push(log[i as int], pred);
                    }
                    if recent {
                        out.push(message.clone());
                    }
                    i += 1;
                }
                proof {
                    lemma_filter_prefix(log, pred, i as int, n as int);
                    assert(log.take(n as int) =~= log);
                }
            },
        }
        out
    }
}

impl<P> Mailbox<P> for InMemoryMailbox<P> {
    closed spec fn log(&self, key: MailboxKeyView) -> Seq<MailboxMessage<P>> {
        lookup(self.entries@, key)
    }

    open spec fn well_formed(&self) -> bool {
        true
    }

    open spec fn reliable(&self) -> bool {
        true
    }

    fn deliver(&mut self, key: &MailboxKey, status: TaskStatus, payload: Option<P>) -> (r: Result<
        (),
        SchedulerError,
    >)
        ensures
            r is Ok,
    {
        let ghost before = self.log(key@);
        let now = now_ms();
        self.deliver_at(key, status, payload, now);
        proof {
            assert(self.log(key@).drop_last() =~= before);
        }
        Ok(())
    }
}

} // verus!
