//! Core scheduling abstractions and capacity accounting.

pub mod audit;
pub mod backend;
pub mod error;
pub mod resource_pool;
pub mod task;
pub mod worker_pool;

pub use self::audit::{
    build_audit_event, AuditEvent, AuditSink, InMemoryAuditSink, PostgresAuditSink,
};
pub use self::backend::{Mailbox, TaskQueue};
pub use self::error::SchedulerError;
pub use self::resource_pool::{
    sync_wake_worker_loop, Admission, PoolLimits, ResourcePool, WakeState, WakeStep,
};
pub use self::task::{ScheduledTask, TaskMetadata, TaskStatus};
pub use self::worker_pool::{PoolCounters, PoolError, PoolStats, WorkerPool};
