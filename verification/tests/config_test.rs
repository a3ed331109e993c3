use prometheus_parking_lot::builders::pool_limits;
use prometheus_parking_lot::config::pool::{
    default_max_queue_depth, default_max_units, default_thread_stack_size, default_timeout_ms,
    worker_count_for,
};
use prometheus_parking_lot::config::{
    MailboxBackendConfig, PoolConfig, QueueBackendConfig, RuntimeConfig, SchedulerConfig,
    WorkerPoolConfig,
};
use prometheus_parking_lot::runtime::{health, list_pools};
use std::time::Duration;

fn pool(max_units: u32, max_queue_depth: usize, default_timeout_secs: u64) -> PoolConfig {
    PoolConfig {
        max_units,
        max_queue_depth,
        default_timeout_secs,
        queue: QueueBackendConfig::InMemory,
        mailbox: MailboxBackendConfig::InMemory,
        runtime: RuntimeConfig::Native,
    }
}

#[test]
fn test_pool_config_validation() {
    let valid = PoolConfig {
        max_units: 100,
        max_queue_depth: 50,
        default_timeout_secs: 60,
        queue: QueueBackendConfig::InMemory,
        mailbox: MailboxBackendConfig::InMemory,
        runtime: RuntimeConfig::Native,
    };
    assert!(valid.validate().is_ok());
}

#[test]
fn test_pool_config_invalid_max_units() {
    let invalid = PoolConfig {
        max_units: 0,
        max_queue_depth: 50,
        default_timeout_secs: 60,
        queue: QueueBackendConfig::InMemory,
        mailbox: MailboxBackendConfig::InMemory,
        runtime: RuntimeConfig::Native,
    };
    assert!(invalid.validate().is_err());
}

#[test]
fn test_pool_config_invalid_queue_depth() {
    let invalid = PoolConfig {
        max_units: 100,
        max_queue_depth: 0,
        default_timeout_secs: 60,
        queue: QueueBackendConfig::InMemory,
        mailbox: MailboxBackendConfig::InMemory,
        runtime: RuntimeConfig::Native,
    };
    assert!(invalid.validate().is_err());
}

#[test]
fn test_pool_config_invalid_timeout() {
    let invalid = PoolConfig {
        max_units: 100,
        max_queue_depth: 50,
        default_timeout_secs: 0,
        queue: QueueBackendConfig::InMemory,
        mailbox: MailboxBackendConfig::InMemory,
        runtime: RuntimeConfig::Native,
    };
    assert!(invalid.validate().is_err());
}

#[test]
fn test_scheduler_config_validation() {
    let mut config = SchedulerConfig::new();
    config.insert("pool1".to_string(), PoolConfig {
        max_units: 100,
        max_queue_depth: 50,
        default_timeout_secs: 60,
        queue: QueueBackendConfig::InMemory,
        mailbox: MailboxBackendConfig::InMemory,
        runtime: RuntimeConfig::Native,
    });

    assert!(config.validate().is_ok());
}

#[test]
fn test_scheduler_config_empty_pools() {
    let config = SchedulerConfig::new();
    assert!(config.validate().is_err());
}

#[test]
fn pool_config_names_the_first_fault() {
    assert_eq!(pool(0, 0, 0).validate().unwrap_err(), "max_units must be greater than 0");
    assert_eq!(pool(1, 0, 0).validate().unwrap_err(), "max_queue_depth must be greater than 0");
    assert_eq!(
        pool(1, 1, 0).validate().unwrap_err(),
        "default_timeout_secs must be greater than 0"
    );
    assert!(pool(1, 1, 1).validate().is_ok());
}

#[test]
fn scheduler_config_names_the_first_invalid_pool() {
    let mut config = SchedulerConfig::new();
    assert_eq!(config.validate().unwrap_err(), "at least one pool must be defined");
    config.insert("good".to_string(), pool(1, 1, 1));
    config.insert("bad".to_string(), pool(5, 0, 1));
    config.insert("worse".to_string(), pool(0, 0, 1));
    assert_eq!(
        config.validate().unwrap_err(),
        "pool `bad` invalid: max_queue_depth must be greater than 0"
    );
}

#[test]
fn insert_replaces_a_pool_of_the_same_name() {
    let mut config = SchedulerConfig::new();
    assert_eq!(config.insert("a".to_string(), pool(1, 1, 1)), None);
    assert_eq!(config.insert("b".to_string(), pool(2, 2, 2)), None);
    assert_eq!(config.insert("a".to_string(), pool(3, 3, 3)), Some(pool(1, 1, 1)));
    assert_eq!(config.len(), 2);
    assert_eq!(config.pool_at(0).name, "a");
    assert_eq!(config.pool_at(0).config, pool(3, 3, 3));
    assert_eq!(config.pool_at(1).name, "b");
    assert_eq!(config.pool_at(1).config, pool(2, 2, 2));
}

#[test]
fn list_pools_follows_the_configuration() {
    let mut config = SchedulerConfig::new();
    config.insert("gpu".to_string(), pool(1000, 50, 60));
    config.insert("cpu".to_string(), pool(8, 500, 30));
    let listed = list_pools(&config);
    assert_eq!(listed.len(), 2);
    assert_eq!(listed[0].name, "gpu");
    assert_eq!(listed[0].max_units, 1000);
    assert_eq!(listed[0].max_queue_depth, 50);
    assert_eq!(listed[1].name, "cpu");
    assert_eq!(listed[1].max_units, 8);
    assert_eq!(listed[1].max_queue_depth, 500);
    assert!(list_pools(&SchedulerConfig::new()).is_empty());
}

#[test]
fn health_is_ok() {
    assert!(health().ok);
}

#[test]
fn worker_pool_config_defaults() {
    let config = WorkerPoolConfig::new();
    assert!(config.worker_count >= 1);
    assert_eq!(config.thread_stack_size, 2 * 1024 * 1024);
    assert_eq!(config.max_units, 1000);
    assert_eq!(config.max_queue_depth, 1000);
    assert_eq!(config.default_timeout_ms, 120_000);
    assert!(config.validate().is_ok());
    assert_eq!(WorkerPoolConfig::default(), config);
    assert_eq!(default_thread_stack_size(), 2_097_152);
    assert_eq!(default_max_units(), 1000);
    assert_eq!(default_max_queue_depth(), 1000);
    assert_eq!(default_timeout_ms(), 120_000);
}

#[test]
fn worker_pool_config_builders_set_one_value_each() {
    let config = WorkerPoolConfig::new()
        .with_worker_count(4)
        .with_thread_stack_size(128 * 1024)
        .with_max_units(500)
        .with_max_queue_depth(100)
        .with_timeout_ms(60_000);
    assert_eq!(config.worker_count, 4);
    assert_eq!(config.thread_stack_size, 131_072);
    assert_eq!(config.max_units, 500);
    assert_eq!(config.max_queue_depth, 100);
    assert_eq!(config.default_timeout_ms, 60_000);
    assert!(config.validate().is_ok());
}

#[test]
fn worker_pool_config_default_timeout_is_in_milliseconds() {
    let config = WorkerPoolConfig::new().with_timeout_ms(1500);
    assert_eq!(config.default_timeout(), Duration::from_millis(1500));
    assert_eq!(WorkerPoolConfig::new().default_timeout(), Duration::from_secs(120));
}

#[test]
fn worker_pool_config_names_the_first_fault() {
    let good = WorkerPoolConfig::new().with_worker_count(2);
    assert_eq!(
        good.with_worker_count(0).with_max_units(0).validate().unwrap_err(),
        "worker_count must be greater than 0"
    );
    assert_eq!(
        good.with_max_units(0).with_max_queue_depth(0).validate().unwrap_err(),
        "max_units must be greater than 0"
    );
    assert_eq!(
        good.with_max_queue_depth(0).with_timeout_ms(0).validate().unwrap_err(),
        "max_queue_depth must be greater than 0"
    );
    assert_eq!(
        good.with_timeout_ms(0).with_thread_stack_size(0).validate().unwrap_err(),
        "default_timeout_ms must be greater than 0"
    );
    assert_eq!(
        good.with_thread_stack_size(64 * 1024 - 1).validate().unwrap_err(),
        "thread_stack_size must be at least 64KB"
    );
    assert!(good.with_thread_stack_size(64 * 1024).validate().is_ok());
}

#[test]
fn pool_limits_take_the_timeout_in_seconds() {
    let limits = pool_limits(&pool(100, 50, 60));
    assert_eq!(limits.max_units, 100);
    assert_eq!(limits.max_queue_depth, 50);
    assert_eq!(limits.default_timeout, Duration::from_secs(60));
}

#[test]
fn one_worker_for_each_processor_and_at_least_one() {
    assert_eq!(worker_count_for(0), 1);
    assert_eq!(worker_count_for(1), 1);
    assert_eq!(worker_count_for(8), 8);
    assert_eq!(worker_count_for(usize::MAX), usize::MAX);
}
