//! In-memory queue: a binary heap ordered by priority, then creation time,
//! then arrival.

use vstd::prelude::*;
use vstd::multiset::*;
use vstd::seq_lib::*;
use vstd::string::*;
use crate::scheduler::error::SchedulerError;
use crate::scheduler::backend::{in_order, TaskQueue};
use crate::scheduler::task::{
    lemma_park_index, park_index, parked, ranked, still_due, unexpired, ScheduledTask,
    TaskMetadata,
};
use crate::util::serde::Priority;

verus! {

/// A parked task together with the ticket it drew on arrival. Tickets break
/// ties between tasks of equal priority and creation time, first come first
/// served.
pub struct PriorityTask<P> {
    task: ScheduledTask<P>,
    ticket: u64,
}

impl<P> PriorityTask<P> {
    /// The number by which a priority is ordered: 0 for `Low` up to 3 for
    /// `Critical`.
    pub fn priority_value(p: Priority) -> (r: u8)
        ensures
            r as int == p.rank(),
    {
        match p {
            Priority::Low => 0,
            Priority::Normal => 1,
            Priority::High => 2,
            Priority::Critical => 3,
        }
    }

    /// Whether `self` leaves the queue strictly before `other`.
    pub closed spec fn before(self, other: Self) -> bool {
        self.task.meta.outranks(other.task.meta) || (!other.task.meta.outranks(self.task.meta)
            && self.ticket < other.ticket)
    }

    /// Whether `self` leaves the queue strictly before `other`.
    fn comes_before(&self, other: &Self) -> (r: bool)
        ensures
            r == self.before(*other),
    {
        let mine = Self::priority_value(self.task.meta.priority);
        let theirs = Self::priority_value(other.task.meta.priority);
        if mine != theirs {
            mine > theirs
        } else if self.task.meta.created_at_ms != other.task.meta.created_at_ms {
            self.task.meta.created_at_ms < other.task.meta.created_at_ms
        } else {
            self.ticket < other.ticket
        }
    }
}

/// Whether the entry at `i` does not leave before its parent in the heap.
spec fn slot_ok<P>(h: Seq<PriorityTask<P>>, i: int) -> bool {
    0 < i < h.len() ==> !h[i].before(h[(i - 1) / 2])
}

/// Whether the entry at `c`, if it is a child of `pos`, does not leave before
/// the parent of `pos`.
spec fn skip_ok<P>(h: Seq<PriorityTask<P>>, c: int, pos: int) -> bool {
    0 < pos && 0 < c < h.len() && (c - 1) / 2 == pos ==> !h[c].before(h[(pos - 1) / 2])
}

/// The heap property: no entry leaves before its parent.
spec fn heap_ordered<P>(h: Seq<PriorityTask<P>>) -> bool {
    forall|i: int| 0 <= i < h.len() ==> #[trigger] slot_ok(h, i)
}

/// Swaps the entries at `i` and `j`.
///
/// Calls `<[T]>::swap`, which exchanges the two elements in place and leaves
/// the others alone; it panics on an index out of bounds, which the
/// precondition rules out.
#[verifier::external_body]
fn exchange<T>(v: &mut Vec<T>, i: usize, j: usize)
    requires
        i < old(v).len(),
        j < old(v).len(),
    ensures
        final(v)@ == old(v)@.update(i as int, old(v)@[j as int]).update(j as int, old(v)@[i as int]),
{
    v.swap(i, j);
}

/// Exchanging two elements of a sequence keeps its multiset.
proof fn lemma_exchange_keeps_multiset<T>(s: Seq<T>, i: int, j: int)
    requires
        0 <= i < s.len(),
        0 <= j < s.len(),
    ensures
        s.update(i, s[j]).update(j, s[i]).to_multiset() == s.to_multiset(),
{
    broadcast use group_multiset_axioms;

    let s1 = s.update(i, s[j]);
    to_multiset_update(s, i, s[j]);
    to_multiset_update(s1, j, s[i]);
    to_multiset_contains(s, s[i]);
    to_multiset_contains(s, s[j]);
    assert(s.contains(s[i]));
    assert(s.contains(s[j]));
    assert(s1.update(j, s[i]).to_multiset() =~= s.to_multiset());
}

/// Moves the entry at `start` towards the root until its parent leaves no
/// later than it does.
fn sift_up<P>(tasks: &mut Vec<PriorityTask<P>>, start: usize)
    requires
        start < old(tasks).len(),
        forall|i: int| 0 <= i < old(tasks).len() && i != start ==> #[trigger] slot_ok(old(tasks)@, i),
        forall|c: int| 0 <= c < old(tasks).len() ==> #[trigger] skip_ok(old(tasks)@, c, start as int),
    ensures
        heap_ordered(final(tasks)@),
        final(tasks)@.to_multiset() == old(tasks)@.to_multiset(),
        final(tasks)@.len() == old(tasks)@.len(),
{
    let mut pos = start;
    while pos > 0 && tasks[pos].comes_before(&tasks[(pos - 1) / 2])
        invariant
            pos < tasks.len(),
            tasks@.len() == old(tasks)@.len(),
            tasks@.to_multiset() == old(tasks)@.to_multiset(),
            forall|i: int| 0 <= i < tasks.len() && i != pos ==> #[trigger] slot_ok(tasks@, i),
            forall|c: int| 0 <= c < tasks.len() ==> #[trigger] skip_ok(tasks@, c, pos as int),
        decreases pos,
    {
        let parent = (pos - 1) / 2;
        let ghost before_swap = tasks@;
        exchange(tasks, pos, parent);
        proof {
            lemma_exchange_keeps_multiset(before_swap, pos as int, parent as int);
            let h = tasks@;
            assert forall|i: int| 0 <= i < h.len() && i != parent implies #[trigger] slot_ok(
                h,
                i,
            ) by {
                if i == pos {
                    // the old parent now sits under the entry that left before it
                } else if 0 < i && (i - 1) / 2 == pos {
                    assert(skip_ok(before_swap, i, pos as int));
                } else if 0 < i && (i - 1) / 2 == parent {
                    assert(slot_ok(before_swap, i));
                } else {
                    assert(slot_ok(before_swap, i));
                }
            }
            assert forall|c: int| 0 <= c < h.len() implies #[trigger] skip_ok(
                h,
                c,
                parent as int,
            ) by {
                if 0 < parent && 0 < c && (c - 1) / 2 == parent {
                    assert(slot_ok(before_swap, parent as int));
                    if c != pos {
                        assert(slot_ok(before_swap, c));
                    }
                }
            }
        }
        pos = parent;
    }
    proof {
        assert forall|i: int| 0 <= i < tasks@.len() implies #[trigger] slot_ok(tasks@, i) by {}
    }
}

/// Restores the heap property after the root was replaced: the entry at the
/// root moves towards the leaves until no child leaves before it.
fn sift_down<P>(tasks: &mut Vec<PriorityTask<P>>)
    requires
        forall|i: int|
            0 <= i < old(tasks).len() && (i - 1) / 2 != 0 ==> #[trigger] slot_ok(old(tasks)@, i),
    ensures
        heap_ordered(final(tasks)@),
        final(tasks)@.to_multiset() == old(tasks)@.to_multiset(),
        final(tasks)@.len() == old(tasks)@.len(),
{
    let n = tasks.len();
    let mut pos: usize = 0;
    let mut settled = false;
    while !settled
        invariant
            n == tasks.len(),
            n == old(tasks)@.len(),
            pos < n || n == 0,
            tasks@.to_multiset() == old(tasks)@.to_multiset(),
            forall|i: int|
                0 <= i < tasks.len() && (i - 1) / 2 != pos ==> #[trigger] slot_ok(tasks@, i),
            forall|c: int| 0 <= c < tasks.len() ==> #[trigger] skip_ok(tasks@, c, pos as int),
            settled ==> heap_ordered(tasks@),
        decreases n - pos, (if settled { 0int } else { 1int }),
    {
        if pos >= n / 2 {
            proof {
                assert forall|i: int| 0 <= i < tasks@.len() implies #[trigger] slot_ok(
                    tasks@,
                    i,
                ) by {}
            }
            settled = true;
        } else {
            let left = 2 * pos + 1;
            let right = left + 1;
            let mut first = left;
            if right < n && tasks[right].comes_before(&tasks[left]) {
                first = right;
            }
            if tasks[first].comes_before(&tasks[pos]) {
                let ghost before_swap = tasks@;
                exchange(tasks, pos, first);
                proof {
                    lemma_exchange_keeps_multiset(before_swap, pos as int, first as int);
                    let h = tasks@;
                    assert forall|i: int|
                        0 <= i < h.len() && (i - 1) / 2 != first implies #[trigger] slot_ok(
                        h,
                        i,
                    ) by {
                        if i == pos {
                            assert(skip_ok(before_swap, first as int, pos as int));
                        } else if i == first {
                        } else if 0 < i && (i - 1) / 2 == pos {
                        } else {
                            assert(slot_ok(before_swap, i));
                        }
                    }
                    assert forall|c: int| 0 <= c < h.len() implies #[trigger] skip_ok(
                        h,
                        c,
                        first as int,
                    ) by {
                        if 0 < c && (c - 1) / 2 == first {
                            assert(slot_ok(before_swap, c));
                        }
                    }
                }
                pos = first;
            } else {
                proof {
                    assert forall|i: int| 0 <= i < tasks@.len() implies #[trigger] slot_ok(
                        tasks@,
                        i,
                    ) by {}
                }
                settled = true;
            }
        }
    }
}

/// Whether each entry of `s` leaves strictly before every later one.
spec fn strictly_sorted<P>(s: Seq<PriorityTask<P>>) -> bool {
    forall|i: int, j: int| 0 <= i < j < s.len() ==> (#[trigger] s[i]).before(#[trigger] s[j])
}

/// The tasks of a sequence of entries.
spec fn tasks_of<P>(s: Seq<PriorityTask<P>>) -> Seq<ScheduledTask<P>> {
    s.map_values(|e: PriorityTask<P>| e.task)
}

/// In a heap no entry leaves before the root.
proof fn lemma_root_first<P>(h: Seq<PriorityTask<P>>, i: int)
    requires
        heap_ordered(h),
        0 <= i < h.len(),
    ensures
        !h[i].before(h[0]),
    decreases i,
{
    if i > 0 {
        assert(slot_ok(h, i));
        lemma_root_first(h, (i - 1) / 2);
    }
}

/// A sequence in which each entry leaves before every later one is a heap.
proof fn lemma_sorted_is_heap<P>(s: Seq<PriorityTask<P>>)
    requires
        strictly_sorted(s),
    ensures
        heap_ordered(s),
{
    assert forall|i: int| 0 <= i < s.len() implies #[trigger] slot_ok(s, i) by {
        if i > 0 {
            assert(s[(i - 1) / 2].before(s[i]));
        }
    }
}

/// The root of a heap is the first entry of the sorted sequence that holds
/// the same entries.
proof fn lemma_root_is_first<P>(h: Seq<PriorityTask<P>>, order: Seq<PriorityTask<P>>)
    requires
        heap_ordered(h),
        strictly_sorted(order),
        h.to_multiset() == order.to_multiset(),
        h.len() > 0,
    ensures
        order.len() == h.len(),
        h[0] == order[0],
{
    broadcast use group_multiset_axioms;

    to_multiset_len(h);
    to_multiset_len(order);
    to_multiset_contains(order, h[0]);
    to_multiset_contains(h, h[0]);
    to_multiset_contains(h, order[0]);
    to_multiset_contains(order, order[0]);
    assert(h.contains(h[0]));
    assert(order.contains(order[0]));
    let k = choose|k: int| 0 <= k < order.len() && order[k] == h[0];
    let j = choose|j: int| 0 <= j < h.len() && h[j] == order[0];
    lemma_root_first(h, j);
    if k > 0 {
        assert(order[0].before(order[k]));
    }
}

/// Removing the root by moving the last entry into its place removes one copy
/// of the root from the multiset.
proof fn lemma_swap_remove_multiset<T>(s: Seq<T>)
    requires
        s.len() > 0,
    ensures
        s.update(0, s.last()).drop_last().to_multiset() == s.to_multiset().remove(s[0]),
{
    broadcast use group_multiset_axioms;

    let moved = s.update(0, s.last());
    to_multiset_update(s, 0, s.last());
    to_multiset_remove(moved, s.len() - 1);
    assert(moved.remove(s.len() - 1) =~= moved.drop_last());
    to_multiset_contains(s, s[0]);
    to_multiset_contains(s, s.last());
    assert(s.contains(s[0]));
    assert(s.contains(s.last()));
    assert(moved.drop_last().to_multiset() =~= s.to_multiset().remove(s[0]));
}

/// The tasks that the references of `r` refer to.
pub open spec fn referents<P>(r: Seq<&ScheduledTask<P>>) -> Seq<ScheduledTask<P>> {
    r.map_values(|t: &ScheduledTask<P>| *t)
}

/// In-memory queue of parked tasks. A binary heap gives `enqueue` and
/// `dequeue` in logarithmic time.
pub struct InMemoryQueue<P> {
    max_depth: usize,
    tasks: Vec<PriorityTask<P>>,
    next_ticket: u64,
    order: Ghost<Seq<PriorityTask<P>>>,
}

impl<P> InMemoryQueue<P> {
    /// The queue's invariant: the entries form a heap, `order` lists them as
    /// they will leave, tickets are below the next one, and the depth is
    /// within its limit.
    pub closed spec fn inv(&self) -> bool {
        &&& heap_ordered(self.tasks@)
        &&& strictly_sorted(self.order@)
        &&& self.tasks@.to_multiset() == self.order@.to_multiset()
        &&& self.tasks@.len() == self.order@.len()
        &&& self.tasks@.len() <= self.max_depth
        &&& forall|i: int| 0 <= i < self.order@.len() ==> (#[trigger] self.order@[i]).ticket
            < self.next_ticket
    }

    /// Creates an empty queue that holds at most `max_depth` tasks.
    pub fn new(max_depth: usize) -> (r: Self)
        ensures
            in_order::<P, Self>(&r),
            r.reliable(),
            r.pending() == Seq::<ScheduledTask<P>>::empty(),
            r.depth_limit() == max_depth,
    {
        let reserve: usize = if max_depth < 1024 {
            max_depth
        } else {
            1024
        };
        let r = InMemoryQueue {
            max_depth,
            tasks: Vec::with_capacity(reserve),
            next_ticket: 0,
            order: Ghost(Seq::empty()),
        };
        proof {
            assert forall|i: int| 0 <= i < r.tasks@.len() implies #[trigger] slot_ok(
                r.tasks@,
                i,
            ) by {}
            assert(tasks_of(r.order@) =~= Seq::<ScheduledTask<P>>::empty());
        }
        r
    }

    /// The parked tasks, in no particular order: each parked task once.
    pub fn tasks(&self) -> (r: Vec<&ScheduledTask<P>>)
        requires
            in_order::<P, Self>(self),
        ensures
            r@.len() == self.pending().len(),
            forall|i: int| 0 <= i < r@.len() ==> self.pending().contains(*#[trigger] r@[i]),
            forall|j: int|
                0 <= j < self.pending().len() ==> referents(r@).contains(
                    #[trigger] self.pending()[j],
                ),
    {
        let mut out: Vec<&ScheduledTask<P>> = Vec::new();
        let mut i: usize = 0;
        while i < self.tasks.len()
            invariant
                i <= self.tasks@.len(),
                out@.len() == i,
                forall|k: int| 0 <= k < i ==> *#[trigger] out@[k] == self.tasks@[k].task,
            decreases self.tasks@.len() - i,
        {
            out.push(&self.tasks[i].task);
            i += 1;
        }
        proof {
            broadcast use group_multiset_axioms;

            let pending = self.pending();
            assert forall|k: int| 0 <= k < out@.len() implies pending.contains(
                *#[trigger] out@[k],
            ) by {
                to_multiset_contains(self.tasks@, self.tasks@[k]);
                to_multiset_contains(self.order@, self.tasks@[k]);
                assert(self.tasks@.contains(self.tasks@[k]));
                let j = choose|j: int|
                    0 <= j < self.order@.len() && self.order@[j] == self.tasks@[k];
                assert(pending[j] == self.order@[j].task);
            }
            assert forall|j: int| 0 <= j < pending.len() implies referents(out@).contains(
                #[trigger] pending[j],
            ) by {
                to_multiset_contains(self.tasks@, self.order@[j]);
                to_multiset_contains(self.order@, self.order@[j]);
                assert(self.order@.contains(self.order@[j]));
                let k = choose|k: int|
                    0 <= k < self.tasks@.len() && self.tasks@[k] == self.order@[j];
                assert(referents(out@)[k] == pending[j]);
            }
        }
        out
    }

    /// Takes out the entry that is next to leave, if there is one.
    fn pop_entry(&mut self) -> (r: Option<PriorityTask<P>>)
        requires
            old(self).inv(),
        ensures
            final(self).inv(),
            final(self).max_depth == old(self).max_depth,
            final(self).next_ticket == old(self).next_ticket,
            match r {
                Some(entry) => old(self).order@.len() > 0 && entry == old(self).order@[0]
                    && final(self).order@ == old(self).order@.drop_first(),
                None => old(self).order@.len() == 0 && final(self).order@ == old(self).order@,
            },
    {
        if self.tasks.len() == 0 {
            return None;
        }
        proof {
            lemma_root_is_first(self.tasks@, self.order@);
            lemma_swap_remove_multiset(self.tasks@);
        }
        let ghost before = self.tasks@;
        let entry = self.tasks.swap_remove(0);
        proof {
            assert forall|i: int|
                0 <= i < self.tasks@.len() && (i - 1) / 2 != 0 implies #[trigger] slot_ok(
                self.tasks@,
                i,
            ) by {
                assert(slot_ok(before, i));
            }
        }
        sift_down(&mut self.tasks);
        proof {
            to_multiset_remove(self.order@, 0);
            assert(self.order@.remove(0) =~= self.order@.drop_first());
        }
        self.order = Ghost(self.order@.drop_first());
        Some(entry)
    }

    /// Adds `entry`, which takes the place `at` in the order of leaving.
    fn push_entry(&mut self, entry: PriorityTask<P>, Ghost(at): Ghost<int>)
        requires
            old(self).inv(),
            old(self).tasks@.len() < old(self).max_depth,
            entry.ticket < old(self).next_ticket,
            0 <= at <= old(self).order@.len(),
            strictly_sorted(old(self).order@.insert(at, entry)),
        ensures
            final(self).inv(),
            final(self).max_depth == old(self).max_depth,
            final(self).next_ticket == old(self).next_ticket,
            final(self).order@ == old(self).order@.insert(at, entry),
    {
        let ghost before = self.tasks@;
        self.tasks.push(entry);
        let last = self.tasks.len() - 1;
        proof {
            assert forall|i: int|
                0 <= i < self.tasks@.len() && i != last implies #[trigger] slot_ok(
                self.tasks@,
                i,
            ) by {
                assert(slot_ok(before, i));
            }
            assert forall|c: int| 0 <= c < self.tasks@.len() implies #[trigger] skip_ok(
                self.tasks@,
                c,
                last as int,
            ) by {}
            to_multiset_build(before, entry);
            to_multiset_insert(self.order@, at, entry);
        }
        sift_up(&mut self.tasks, last);
        self.order = Ghost(self.order@.insert(at, entry));
    }
}

impl<P> InMemoryQueue<P> {
    /// A queue whose invariant holds is in dequeue order and within its depth
    /// limit.
    proof fn lemma_ranked(&self)
        requires
            self.inv(),
        ensures
            ranked(tasks_of(self.order@)),
            tasks_of(self.order@).len() <= self.max_depth,
    {
        let tasks = tasks_of(self.order@);
        assert forall|i: int, j: int| 0 <= i < j < tasks.len() implies !(#[trigger] tasks[j]).meta.outranks(
            (#[trigger] tasks[i]).meta,
        ) by {
            assert(self.order@[i].before(self.order@[j]));
        }
    }

    /// Hands out fresh tickets, 0 upwards in the order of leaving, so that the
    /// next ticket is the number of parked tasks. The order does not change.
    fn renumber(&mut self)
        requires
            old(self).inv(),
        ensures
            final(self).inv(),
            final(self).max_depth == old(self).max_depth,
            tasks_of(final(self).order@) == tasks_of(old(self).order@),
            final(self).order@.len() == old(self).order@.len(),
            final(self).next_ticket == final(self).order@.len(),
    {
        let ghost start = self.order@;
        let mut fresh: Vec<PriorityTask<P>> = Vec::new();
        let mut more = true;
        assert(start.skip(0) =~= start);
        while more
            invariant
                self.inv(),
                self.max_depth == old(self).max_depth,
                start == old(self).order@,
                strictly_sorted(start),
                start.len() <= self.max_depth,
                fresh@.len() + self.order@.len() == start.len(),
                self.order@ == start.skip(fresh@.len() as int),
                forall|i: int|
                    0 <= i < fresh@.len() ==> (#[trigger] fresh@[i]).task == start[i].task
                        && fresh@[i].ticket == i,
                !more ==> self.order@.len() == 0,
            decreases self.order@.len(), (if more { 1int } else { 0int }),
        {
            match self.pop_entry() {
                Some(entry) => {
                    let ticket = fresh.len() as u64;
                    assert(entry == start[fresh@.len() as int]);
                    assert(start.skip(fresh@.len() as int).drop_first() =~= start.skip(
                        fresh@.len() as int + 1,
                    ));
                    fresh.push(PriorityTask { task: entry.task, ticket });
                },
                None => {
                    more = false;
                },
            }
        }
        proof {
            assert forall|i: int, j: int| 0 <= i < j < fresh@.len() implies (#[trigger] fresh@[i]).before(
                #[trigger] fresh@[j],
            ) by {
                assert(start[i].before(start[j]));
            }
            lemma_sorted_is_heap(fresh@);
            assert(tasks_of(fresh@) =~= tasks_of(start));
        }
        self.next_ticket = fresh.len() as u64;
        self.order = Ghost(fresh@);
        self.tasks = fresh;
    }
}

impl<P> TaskQueue<P> for InMemoryQueue<P> {
    closed spec fn pending(&self) -> Seq<ScheduledTask<P>> {
        tasks_of(self.order@)
    }

    closed spec fn depth_limit(&self) -> nat {
        self.max_depth as nat
    }

    closed spec fn well_formed(&self) -> bool {
        self.inv()
    }

    open spec fn reliable(&self) -> bool {
        true
    }


    fn enqueue(&mut self, task: ScheduledTask<P>) -> (r: Result<(), SchedulerError>)
        ensures
            r is Ok <==> old(self).pending().len() < old(self).depth_limit(),
    {
        if self.tasks.len() >= self.max_depth {
            return Err(SchedulerError::QueueFull(String::from_str("max queue depth reached")));
        }
        if self.next_ticket == u64::MAX {
            self.renumber();
        }
        let ticket = self.next_ticket;
        self.next_ticket = ticket + 1;
        let ghost at = park_index(self.pending(), task);
        let ghost order = self.order@;
        let entry = PriorityTask { task, ticket };
        proof {
            lemma_park_index(self.pending(), task);
            let grown = order.insert(at, entry);
            assert forall|i: int, j: int| 0 <= i < j < grown.len() implies (#[trigger] grown[i]).before(
                #[trigger] grown[j],
            ) by {
                if j < at {
                    assert(order[i].before(order[j]));
                } else if j == at {
                    assert(tasks_of(order)[i] == order[i].task);
                } else if i < at {
                    assert(order[i].before(order[j - 1]));
                } else if i == at {
                    assert(tasks_of(order)[at] == order[at].task);
                    if j - 1 > at {
                        assert(order[at].before(order[j - 1]));
                    }
                } else {
                    assert(order[i - 1].before(order[j - 1]));
                }
            }
            assert(tasks_of(grown) =~= tasks_of(order).insert(at, task));
        }
        self.push_entry(entry, Ghost(at));
        proof {
            self.lemma_ranked();
        }
        Ok(())
    }

    fn dequeue(&mut self) -> (r: Result<Option<ScheduledTask<P>>, SchedulerError>)
        ensures
            r is Ok,
    {
        let ghost order = self.order@;
        let popped = self.pop_entry();
        proof {
            self.lemma_ranked();
        }
        match popped {
            Some(entry) => {
                proof {
                    assert(tasks_of(order.drop_first()) =~= tasks_of(order).drop_first());
                }
                Ok(Some(entry.task))
            },
            None => Ok(None),
        }
    }

    fn prune_expired(&mut self, now_ms: u128) -> (r: Result<usize, SchedulerError>)
        ensures
            r is Ok,
    {
        let before = self.tasks.len();
        let ghost start = self.order@;
        let ghost mut popped: int = 0;
        let mut kept: Vec<PriorityTask<P>> = Vec::new();
        let mut more = true;
        assert(start.skip(0) =~= start);
        while more
            invariant
                self.inv(),
                self.max_depth == old(self).max_depth,
                self.next_ticket == old(self).next_ticket,
                start == old(self).order@,
                before == start.len(),
                0 <= popped,
                popped + self.order@.len() == start.len(),
                self.order@ == start.skip(popped),
                kept@.len() <= popped,
                strictly_sorted(kept@),
                forall|i: int, j: int|
                    0 <= i < kept@.len() && 0 <= j < self.order@.len() ==> (#[trigger] kept@[i]).before(
                        #[trigger] self.order@[j],
                    ),
                forall|i: int|
                    0 <= i < kept@.len() ==> (#[trigger] kept@[i]).ticket < self.next_ticket,
                tasks_of(kept@) == unexpired(tasks_of(start).take(popped), now_ms),
                !more ==> self.order@.len() == 0,
            decreases self.order@.len(), (if more { 1int } else { 0int }),
        {
            let ghost left = self.order@;
            match self.pop_entry() {
                Some(entry) => {
                    proof {
                        assert(entry == start[popped]);
                        assert(left.drop_first() =~= start.skip(popped + 1));
                        assert(tasks_of(start).take(popped + 1) =~= tasks_of(start).take(
                            popped,
                        ).push(entry.task));
                        tasks_of(start).take(popped).lemma_filter_push(
                            entry.task,
                            still_due(now_ms),
                        );
                        assert forall|j: int| 0 <= j < self.order@.len() implies entry.before(
                            #[trigger] self.order@[j],
                        ) by {
                            assert(left[0].before(left[j + 1]));
                        }
                        assert forall|i: int, j: int|
                            0 <= i < kept@.len() && 0 <= j < self.order@.len() implies (#[trigger] kept@[i]).before(
                            #[trigger] self.order@[j],
                        ) by {
                            assert(kept@[i].before(left[j + 1]));
                        }
                        assert forall|i: int| 0 <= i < kept@.len() implies (#[trigger] kept@[i]).before(
                            entry,
                        ) by {
                            assert(kept@[i].before(left[0]));
                        }
                        popped = popped + 1;
                    }
                    if !entry.task.meta.is_expired(now_ms) {
                        proof {
                            assert(tasks_of(kept@.push(entry)) =~= tasks_of(kept@).push(
                                entry.task,
                            ));
                        }
                        kept.push(entry);
                    }
                },
                None => {
                    more = false;
                },
            }
        }
        let after = kept.len();
        proof {
            assert(tasks_of(start).take(popped) =~= tasks_of(start));
            lemma_sorted_is_heap(kept@);
        }
        self.order = Ghost(kept@);
        self.tasks = kept;
        proof {
            self.lemma_ranked();
        }
        Ok(before - after)
    }

    fn max_depth(&self) -> (r: usize) {
        self.max_depth
    }

    fn len(&self) -> (r: usize) {
        self.tasks.len()
    }
}

} // verus!
