//! Builders that make scheduler components from configuration.

pub mod pool_builder;

pub use self::pool_builder::{build_pools, pool_limits};
