//! A resource-aware parking-lot scheduler: admission control, capacity
//! accounting, a bounded priority queue, wake-on-release and result delivery.
//!
//! The library is the scheduling engine as plain values: a resource pool that
//! admits, parks and wakes tasks, a worker pool's bookkeeping, and the
//! in-memory queue, mailbox and audit sink. Threads, runtimes, locks and
//! files belong to the program that uses it.

#![allow(unused_imports)]

/// Builders that make scheduler components from configuration.
pub mod builders;
/// Configuration of pools, backends and timeouts.
pub mod config;
/// Backends for queues and mailboxes.
pub mod infra;
/// The request and response models of the scheduler's interface.
pub mod runtime;
/// Core scheduling abstractions and capacity accounting.
pub mod scheduler;
/// Shared value types and the wall clock.
pub mod util;
