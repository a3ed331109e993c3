use prometheus_parking_lot::scheduler::SchedulerError;

#[test]
fn test_queue_full_error() {
    let err = SchedulerError::QueueFull("test_pool".to_string());
    assert_eq!(err.message(), "queue full: test_pool");
}

#[test]
fn test_capacity_exceeded_error() {
    let err = SchedulerError::CapacityExceeded;
    assert_eq!(err.message(), "capacity exceeded");
}

#[test]
fn test_deadline_expired_error() {
    let err = SchedulerError::DeadlineExpired;
    assert_eq!(err.message(), "deadline expired");
}

#[test]
fn test_backend_error() {
    let err = SchedulerError::Backend("connection failed".to_string());
    assert_eq!(err.message(), "backend error: connection failed");
}

#[test]
fn pool_shutdown_error_text() {
    let err = SchedulerError::PoolShutdown;
    assert_eq!(err.message(), "pool has been shut down");
}
