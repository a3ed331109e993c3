//! Configuration of pools, backends and timeouts.

pub mod pool;

pub use self::pool::{
    MailboxBackendConfig, PoolConfig, QueueBackendConfig, RuntimeConfig, SchedulerConfig,
    WorkerPoolConfig,
};
