//! Queue backends.

pub mod memory;
pub mod postgres;
pub mod yaque;

pub use self::memory::InMemoryQueue;
pub use self::postgres::PostgresQueue;
