//! Mailbox backends.

pub mod memory;
pub mod postgres;
pub mod yaque;

pub use self::memory::{InMemoryMailbox, MailboxMessage};
pub use self::postgres::PostgresMailbox;
