//! Shared value types and the wall clock.

pub mod clock;
pub mod serde;
pub mod text;

pub use self::clock::now_ms;
pub use self::serde::{MailboxKey, Priority, ResourceCost, ResourceKind, TaskId};
