//! Plain value types carried by every task: priority, cost, mailbox key.

use vstd::prelude::*;

verus! {

/// Identifier of a task, supplied by the caller and unique within a pool.
pub type TaskId = u64;

/// Scheduling priority. `Low < Normal < High < Critical`.
#[derive(Debug, Clone, Copy, PartialEq, Eq, Structural, PartialOrd, Ord, Hash)]
pub enum Priority {
    /// Background work.
    Low,
    /// The default.
    Normal,
    /// Ahead of normal work.
    High,
    /// Ahead of everything else.
    Critical,
}

impl Priority {
    /// The rank of a priority as a number: 0 for `Low` up to 3 for `Critical`.
    pub open spec fn rank(self) -> int {
        match self {
            Priority::Low => 0,
            Priority::Normal => 1,
            Priority::High => 2,
            Priority::Critical => 3,
        }
    }
}

/// What a cost is measured in. It is a label only: a pool keeps one budget.
#[derive(Debug, Clone, Copy, PartialEq, Eq, Structural, Hash)]
pub enum ResourceKind {
    /// CPU slots.
    Cpu,
    /// Megabytes of GPU memory.
    GpuVram,
}

/// The resource units that a task holds while it runs.
#[derive(Debug, Clone, Copy, PartialEq, Eq, Structural, Hash)]
pub struct ResourceCost {
    /// What the units stand for.
    pub kind: ResourceKind,
    /// How many units, counted against the pool's `max_units`.
    pub units: u32,
}

/// Where the outcome of a task is delivered: tenant, user and session.
#[derive(Debug, PartialEq, Eq, Hash)]
pub struct MailboxKey {
    /// Tenant that owns the mailbox.
    pub tenant: String,
    /// User within the tenant, if any.
    pub user_id: Option<String>,
    /// Session of the user, if any.
    pub session_id: Option<String>,
}

/// A mailbox key as mathematical text: two keys name the same mailbox exactly
/// when these values are equal.
pub struct MailboxKeyView {
    /// The tenant's characters.
    pub tenant: Seq<char>,
    /// The user's characters, if any.
    pub user_id: Option<Seq<char>>,
    /// The session's characters, if any.
    pub session_id: Option<Seq<char>>,
}

/// The characters of an optional text.
pub open spec fn text_view(s: Option<String>) -> Option<Seq<char>> {
    match s {
        Some(t) => Some(t@),
        None => None,
    }
}

impl View for MailboxKey {
    type V = MailboxKeyView;

    open spec fn view(&self) -> MailboxKeyView {
        MailboxKeyView {
            tenant: self.tenant@,
            user_id: text_view(self.user_id),
            session_id: text_view(self.session_id),
        }
    }
}

/// Copies an optional text.
pub fn clone_text(s: &Option<String>) -> (r: Option<String>)
    ensures
        r == *s,
{
    match s {
        Some(t) => Some(t.clone()),
        None => None,
    }
}

/// Whether two optional texts hold the same characters.
pub fn same_text(a: &Option<String>, b: &Option<String>) -> (r: bool)
    ensures
        r == (text_view(*a) == text_view(*b)),
{
    match a {
        Some(x) => match b {
            Some(y) => *x == *y,
            None => false,
        },
        None => b.is_none(),
    }
}

impl Clone for MailboxKey {
    fn clone(&self) -> (r: Self)
        ensures
            r == *self,
    {
        MailboxKey {
            tenant: self.tenant.clone(),
            user_id: clone_text(&self.user_id),
            session_id: clone_text(&self.session_id),
        }
    }
}

impl MailboxKey {
    /// Whether `self` and `other` name the same mailbox: all three parts agree.
    pub fn same_as(&self, other: &MailboxKey) -> (r: bool)
        ensures
            r == (self@ == other@),
    {
        self.tenant == other.tenant && same_text(&self.user_id, &other.user_id) && same_text(
            &self.session_id,
            &other.session_id,
        )
    }
}

} // verus!
