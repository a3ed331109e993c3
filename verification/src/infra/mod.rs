//! Backends for queues and mailboxes.

pub mod jsonl;
pub mod mailbox;
pub mod queue;

pub use self::mailbox::InMemoryMailbox;
pub use self::queue::InMemoryQueue;
