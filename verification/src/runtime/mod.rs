//! The request and response models of the scheduler's interface.

pub mod api;

pub use self::api::{
    health, list_pools, submit_task, Health, PoolSnapshot, TaskStatusResponse, TaskSubmission,
};
