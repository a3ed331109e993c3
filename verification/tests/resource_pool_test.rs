use prometheus_parking_lot::builders::{build_pools, pool_limits};
use prometheus_parking_lot::config::{
    MailboxBackendConfig, PoolConfig, QueueBackendConfig, RuntimeConfig, SchedulerConfig,
};
use prometheus_parking_lot::infra::mailbox::memory::InMemoryMailbox;
use prometheus_parking_lot::infra::queue::memory::InMemoryQueue;
use prometheus_parking_lot::infra::queue::postgres::PostgresQueue;
use prometheus_parking_lot::runtime::{submit_task, TaskSubmission};
use prometheus_parking_lot::scheduler::{
    sync_wake_worker_loop, Admission, AuditEvent, AuditSink, PoolLimits, ResourcePool,
    ScheduledTask, SchedulerError, TaskMetadata, TaskQueue, TaskStatus, WakeStep,
};
use prometheus_parking_lot::util::serde::{MailboxKey, Priority, ResourceCost, ResourceKind};
use std::sync::{Arc, Mutex};
use std::time::Duration;

type Pool = ResourcePool<String, String, InMemoryQueue<String>, InMemoryMailbox<String>>;

fn make_pool(max_units: u32, max_queue_depth: usize) -> Pool {
    let limits = PoolLimits {
        max_units,
        max_queue_depth,
        default_timeout: Duration::from_secs(60),
    };
    ResourcePool::new(limits, InMemoryQueue::new(max_queue_depth), InMemoryMailbox::new())
}

fn task(id: u64, units: u32, priority: Priority, created_at_ms: u128) -> ScheduledTask<String> {
    ScheduledTask {
        meta: TaskMetadata {
            id,
            mailbox: None,
            priority,
            cost: ResourceCost { kind: ResourceKind::GpuVram, units },
            deadline_ms: None,
            created_at_ms,
        },
        payload: format!("job-{}", id),
    }
}

fn key(session: &str) -> MailboxKey {
    MailboxKey {
        tenant: "acme".to_string(),
        user_id: Some("u1".to_string()),
        session_id: Some(session.to_string()),
    }
}

fn ids(tasks: &[ScheduledTask<String>]) -> Vec<u64> {
    tasks.iter().map(|t| t.meta.id).collect()
}

fn started(admission: Result<Admission<String>, SchedulerError>) -> ScheduledTask<String> {
    match admission {
        Ok(Admission::Start(task)) => task,
        other => panic!("expected a task to start, got {:?}", other),
    }
}

/// A sink that shares what it records with the test.
struct SharedSink {
    events: Arc<Mutex<Vec<AuditEvent>>>,
}

impl AuditSink for SharedSink {
    fn record(&mut self, event: AuditEvent) {
        self.events.lock().unwrap().push(event);
    }
}

fn audited_pool(max_units: u32, depth: usize) -> (Pool, Arc<Mutex<Vec<AuditEvent>>>) {
    let events = Arc::new(Mutex::new(Vec::new()));
    let sink = SharedSink { events: Arc::clone(&events) };
    (make_pool(max_units, depth).with_audit(Box::new(sink)), events)
}

#[test]
fn immediate_admission() {
    let mut pool = make_pool(10, 100);
    let mut job = task(1, 5, Priority::Normal, 100);
    job.meta.mailbox = Some(key("s1"));
    let admission = pool.submit(job, 100).unwrap();
    assert!(matches!(admission.status(), TaskStatus::Running));
    let running = match admission {
        Admission::Start(task) => task,
        Admission::Parked => panic!("the task fits and must start"),
    };
    assert_eq!(running.payload, "job-1");
    assert_eq!(pool.active_units(), 5);
    assert_eq!(pool.queue_len(), 0);

    let woken = pool.on_task_finished(
        running.meta.id,
        running.meta.cost.units,
        running.meta.mailbox.clone(),
        "done".to_string(),
        150,
    );
    assert!(woken.is_empty());
    assert_eq!(pool.active_units(), 0);
    let messages = pool.mailbox().fetch(&key("s1"), None, 10);
    assert_eq!(messages.len(), 1);
    assert!(matches!(messages[0].status, TaskStatus::Completed));
    assert_eq!(messages[0].payload, Some("done".to_string()));
}

#[test]
fn park_and_wake() {
    let mut pool = make_pool(10, 100);
    let t1 = started(pool.submit(task(1, 10, Priority::Normal, 100), 100));
    for id in 2..=5u64 {
        let admission = pool.submit(task(id, 3, Priority::Normal, 100 + id as u128), 100).unwrap();
        assert!(matches!(admission, Admission::Parked));
        assert!(matches!(admission.status(), TaskStatus::Queued));
    }
    assert_eq!(pool.queue_len(), 4);
    assert_eq!(pool.active_units(), 10);

    let woken = pool.on_task_finished(t1.meta.id, 10, None, "r1".to_string(), 200);
    assert_eq!(ids(&woken), vec![2, 3, 4]);
    assert_eq!(pool.active_units(), 9);
    assert_eq!(pool.queue_len(), 1);

    let woken = pool.on_task_finished(3, 3, None, "r3".to_string(), 300);
    assert_eq!(ids(&woken), vec![5]);
    assert_eq!(pool.active_units(), 9);
    assert_eq!(pool.queue_len(), 0);

    for id in [2u64, 4, 5] {
        assert!(pool.on_task_finished(id, 3, None, "r".to_string(), 400).is_empty());
    }
    assert_eq!(pool.active_units(), 0);
}

#[test]
fn priority_ordering_across_wake() {
    let mut pool = make_pool(10, 100);
    started(pool.submit(task(1, 10, Priority::Normal, 1), 1));
    pool.submit(task(10, 3, Priority::Low, 2), 2).unwrap();
    pool.submit(task(11, 3, Priority::Critical, 3), 3).unwrap();
    pool.submit(task(12, 3, Priority::Normal, 4), 4).unwrap();
    pool.submit(task(13, 3, Priority::High, 5), 5).unwrap();

    let mut order = ids(&pool.on_task_finished(1, 10, None, "r".to_string(), 10));
    assert_eq!(order, vec![11, 13, 12]);
    order.extend(ids(&pool.on_task_finished(11, 3, None, "r".to_string(), 11)));
    assert_eq!(order, vec![11, 13, 12, 10]);
}

#[test]
fn queue_overflow() {
    let mut pool = make_pool(10, 2);
    started(pool.submit(task(1, 10, Priority::Normal, 1), 1));
    assert!(matches!(pool.submit(task(2, 1, Priority::Normal, 2), 2), Ok(Admission::Parked)));
    assert!(matches!(pool.submit(task(3, 1, Priority::Normal, 3), 3), Ok(Admission::Parked)));
    match pool.submit(task(4, 1, Priority::Critical, 4), 4) {
        Err(SchedulerError::QueueFull(why)) => assert_eq!(why, "max queue depth reached"),
        other => panic!("expected QueueFull, got {:?}", other),
    }
    assert_eq!(pool.queue_len(), 2);
    assert_eq!(pool.active_units(), 10);
}

#[test]
fn deadline_rejection() {
    let (mut pool, events) = audited_pool(10, 100);
    let now: u128 = 1_000_000;
    let mut late = task(1, 1, Priority::Normal, 0);
    late.meta.deadline_ms = Some(now - 1000);
    late.meta.mailbox = Some(key("late"));
    assert!(matches!(pool.submit(late, now), Err(SchedulerError::DeadlineExpired)));
    assert_eq!(pool.active_units(), 0);
    assert_eq!(pool.queue_len(), 0);
    assert!(pool.mailbox().fetch(&key("late"), None, 10).is_empty());
    assert!(events.lock().unwrap().is_empty());
}

#[test]
fn deadline_equal_to_now_is_met() {
    let mut pool = make_pool(10, 100);
    let mut on_time = task(1, 1, Priority::Normal, 0);
    on_time.meta.deadline_ms = Some(5000);
    assert!(matches!(pool.submit(on_time, 5000), Ok(Admission::Start(_))));
    let mut late = task(2, 1, Priority::Normal, 0);
    late.meta.deadline_ms = Some(4999);
    assert!(matches!(pool.submit(late, 5000), Err(SchedulerError::DeadlineExpired)));
    let mut early = task(3, 1, Priority::Normal, 0);
    early.meta.deadline_ms = Some(5001);
    assert!(matches!(pool.submit(early, 5000), Ok(Admission::Start(_))));
}

#[test]
fn a_task_larger_than_the_pool_is_parked_and_blocks_nobody() {
    let mut pool = make_pool(10, 100);
    // It is parked even while the pool is idle, and never starts.
    assert!(matches!(
        pool.submit(task(1, 11, Priority::Critical, 1), 1),
        Ok(Admission::Parked)
    ));
    assert_eq!(pool.queue_len(), 1);
    assert_eq!(pool.active_units(), 0);
    assert!(pool.try_wake_next(2).is_empty());
    assert_eq!(pool.queue_len(), 1);

    // Tasks that fit are admitted beside it and wake past it.
    started(pool.submit(task(2, 10, Priority::Normal, 2), 2));
    assert!(matches!(
        pool.submit(task(3, u32::MAX, Priority::Critical, 3), 3),
        Ok(Admission::Parked)
    ));
    assert!(matches!(pool.submit(task(4, 6, Priority::Low, 4), 4), Ok(Admission::Parked)));
    assert!(matches!(pool.submit(task(5, 6, Priority::Low, 5), 5), Ok(Admission::Parked)));
    assert_eq!(ids(&pool.on_task_finished(2, 10, None, "r".to_string(), 6)), vec![4]);
    assert_eq!(pool.active_units(), 6);
    assert_eq!(pool.queue_len(), 3);
    assert_eq!(ids(&pool.on_task_finished(4, 6, None, "r".to_string(), 7)), vec![5]);
    assert_eq!(ids(&pool.on_task_finished(5, 6, None, "r".to_string(), 8)), Vec::<u64>::new());
    assert_eq!(pool.active_units(), 0);
    assert_eq!(pool.queue_len(), 2);
}

#[test]
fn a_wake_passes_over_a_parked_task_that_can_never_fit() {
    let mut queue = InMemoryQueue::new(10);
    queue.enqueue(task(1, 20, Priority::Critical, 1)).unwrap();
    queue.enqueue(task(2, 3, Priority::Normal, 2)).unwrap();
    let limits = PoolLimits { max_units: 10, max_queue_depth: 10, default_timeout: Duration::from_secs(60) };
    let mut pool: Pool = ResourcePool::new(limits, queue, InMemoryMailbox::new());
    assert_eq!(ids(&pool.try_wake_next(5)), vec![2]);
    assert_eq!(pool.active_units(), 3);
    assert_eq!(pool.queue_len(), 1);
    // The task that can never fit is still parked, and nothing else is.
    assert!(pool.try_wake_next(6).is_empty());
    assert!(pool.on_task_finished(2, 3, None, "r".to_string(), 7).is_empty());
    assert_eq!(pool.queue_len(), 1);
    assert_eq!(pool.active_units(), 0);
}

#[test]
fn a_wake_keeps_the_order_of_the_tasks_that_it_sets_aside() {
    let mut pool = make_pool(10, 10);
    started(pool.submit(task(1, 10, Priority::Normal, 1), 1));
    pool.submit(task(2, 11, Priority::High, 2), 2).unwrap();
    pool.submit(task(3, 12, Priority::High, 2), 2).unwrap();
    pool.submit(task(4, 7, Priority::Normal, 3), 3).unwrap();
    pool.submit(task(5, 7, Priority::Normal, 3), 3).unwrap();
    pool.submit(task(6, 1, Priority::Low, 4), 4).unwrap();
    // 2 and 3 can never fit; 4 starts; 5 does not fit now and ends the wake.
    assert_eq!(ids(&pool.on_task_finished(1, 10, None, "r".to_string(), 5)), vec![4]);
    assert_eq!(pool.queue_len(), 4);
    assert_eq!(ids(&pool.on_task_finished(4, 7, None, "r".to_string(), 6)), vec![5, 6]);
    assert_eq!(pool.queue_len(), 2);
    assert_eq!(pool.active_units(), 8);
}

#[test]
fn a_queue_of_one_makes_progress() {
    let mut pool = make_pool(1, 1);
    let mut running = started(pool.submit(task(0, 1, Priority::Normal, 0), 0));
    for id in 1..=50u64 {
        assert!(matches!(
            pool.submit(task(id, 1, Priority::Normal, id as u128), id as u128),
            Ok(Admission::Parked)
        ));
        assert!(matches!(
            pool.submit(task(1000 + id, 1, Priority::Critical, id as u128), id as u128),
            Err(SchedulerError::QueueFull(_))
        ));
        let woken = pool.on_task_finished(running.meta.id, 1, None, "r".to_string(), id as u128);
        assert_eq!(ids(&woken), vec![id]);
        assert_eq!(pool.active_units(), 1);
        assert_eq!(pool.queue_len(), 0);
        running = woken.into_iter().next().unwrap();
    }
}

#[test]
fn units_in_use_stay_within_the_limit() {
    let mut pool = make_pool(7, 5);
    let mut running: Vec<ScheduledTask<String>> = Vec::new();
    let mut seed: u64 = 12345;
    for step in 0..400u64 {
        seed = seed.wrapping_mul(6364136223846793005).wrapping_add(1442695040888963407);
        let choice = (seed >> 33) % 3;
        if choice < 2 {
            let units = ((seed >> 40) % 9) as u32;
            let priority = match (seed >> 50) % 4 {
                0 => Priority::Low,
                1 => Priority::Normal,
                2 => Priority::High,
                _ => Priority::Critical,
            };
            if let Ok(Admission::Start(t)) = pool.submit(task(step, units, priority, step as u128), 0) {
                running.push(t);
            }
        } else if !running.is_empty() {
            let done = running.remove((seed >> 45) as usize % running.len());
            let woken = pool.on_task_finished(done.meta.id, done.meta.cost.units, None, "r".into(), 0);
            running.extend(woken);
        }
        let held: u32 = running.iter().map(|t| t.meta.cost.units).sum();
        assert_eq!(pool.active_units(), held);
        assert!(pool.active_units() <= 7);
        assert!(pool.queue_len() <= 5);
    }
}

#[test]
fn every_completion_delivers_exactly_one_message() {
    let mut pool = make_pool(4, 10);
    let mut a = task(1, 2, Priority::Normal, 1);
    a.meta.mailbox = Some(key("a"));
    let mut b = task(2, 2, Priority::Normal, 2);
    b.meta.mailbox = Some(key("b"));
    let mut c = task(3, 2, Priority::Normal, 3);
    c.meta.mailbox = Some(key("a"));
    let a = started(pool.submit(a, 1));
    let b = started(pool.submit(b, 2));
    assert!(matches!(pool.submit(c, 3), Ok(Admission::Parked)));

    let woken = pool.on_task_finished(1, 2, a.meta.mailbox.clone(), "result-a".to_string(), 10);
    assert_eq!(ids(&woken), vec![3]);
    assert_eq!(pool.mailbox().fetch(&key("a"), None, 10).len(), 1);
    assert!(pool.mailbox().fetch(&key("b"), None, 10).is_empty());

    pool.on_task_finished(2, 2, b.meta.mailbox.clone(), "result-b".to_string(), 11);
    pool.on_task_finished(3, 2, woken[0].meta.mailbox.clone(), "result-c".to_string(), 12);
    let of_a: Vec<String> = pool
        .mailbox()
        .fetch(&key("a"), None, 10)
        .into_iter()
        .map(|m| {
            assert!(matches!(m.status, TaskStatus::Completed));
            m.payload.unwrap()
        })
        .collect();
    assert_eq!(of_a, vec!["result-a".to_string(), "result-c".to_string()]);
    let of_b = pool.mailbox().fetch(&key("b"), None, 10);
    assert_eq!(of_b.len(), 1);
    assert_eq!(of_b[0].payload, Some("result-b".to_string()));
    assert_eq!(pool.active_units(), 0);
}

#[test]
fn a_wake_stops_at_the_first_task_that_does_not_fit() {
    let mut pool = make_pool(10, 10);
    started(pool.submit(task(1, 10, Priority::Normal, 1), 1));
    pool.submit(task(2, 8, Priority::High, 2), 2).unwrap();
    pool.submit(task(3, 5, Priority::Normal, 3), 3).unwrap();
    pool.submit(task(4, 1, Priority::Low, 4), 4).unwrap();
    // 8 fits, 5 does not fit beside it, and 1 would fit but stands behind.
    assert_eq!(ids(&pool.on_task_finished(1, 10, None, "r".to_string(), 5)), vec![2]);
    assert_eq!(pool.active_units(), 8);
    assert_eq!(pool.queue_len(), 2);
    assert!(pool.try_wake_next(6).is_empty());
    assert_eq!(ids(&pool.on_task_finished(2, 8, None, "r".to_string(), 7)), vec![3, 4]);
    assert_eq!(pool.active_units(), 6);
}

#[test]
fn a_task_parked_again_stands_behind_its_equals() {
    let mut pool = make_pool(10, 10);
    started(pool.submit(task(1, 4, Priority::Normal, 1), 1));
    started(pool.submit(task(2, 6, Priority::Normal, 2), 2));
    assert!(matches!(pool.submit(task(3, 7, Priority::Normal, 7), 7), Ok(Admission::Parked)));
    assert!(matches!(pool.submit(task(4, 4, Priority::Normal, 7), 7), Ok(Admission::Parked)));
    // Task 3 is next and does not fit; the wake parks it again, behind task 4.
    assert!(pool.on_task_finished(1, 4, None, "r".to_string(), 8).is_empty());
    assert_eq!(pool.queue_len(), 2);
    assert_eq!(ids(&pool.try_wake_next(9)), vec![4]);
    assert_eq!(pool.active_units(), 10);
    assert!(pool.on_task_finished(2, 6, None, "r".to_string(), 10).is_empty());
    assert_eq!(ids(&pool.on_task_finished(4, 4, None, "r".to_string(), 11)), vec![3]);
    assert_eq!(pool.active_units(), 7);
}

#[test]
fn the_wake_worker_takes_its_turns() {
    let mut pool = make_pool(4, 10);
    pool.set_async_wake(false);
    assert!(matches!(sync_wake_worker_loop(&mut pool, 0), WakeStep::Wait));
    started(pool.submit(task(1, 4, Priority::Normal, 1), 1));
    pool.submit(task(2, 2, Priority::Normal, 2), 2).unwrap();
    pool.submit(task(3, 2, Priority::High, 3), 3).unwrap();
    pool.submit(task(4, 2, Priority::Low, 4), 4).unwrap();
    assert!(matches!(sync_wake_worker_loop(&mut pool, 5), WakeStep::Wait));

    // The completion wakes nobody itself, and raises the flag.
    assert!(pool.on_task_finished(1, 4, None, "r".to_string(), 6).is_empty());
    assert!(pool.wake_state().capacity_available);
    assert_eq!(pool.active_units(), 0);
    assert_eq!(pool.queue_len(), 3);

    match sync_wake_worker_loop(&mut pool, 7) {
        WakeStep::Woken(woken) => assert_eq!(ids(&woken), vec![3, 2]),
        other => panic!("expected a wake, got {:?}", other),
    }
    assert!(!pool.wake_state().capacity_available);
    assert_eq!(pool.active_units(), 4);
    assert!(matches!(sync_wake_worker_loop(&mut pool, 8), WakeStep::Wait));

    pool.shutdown();
    assert!(pool.wake_state().shutdown);
    assert!(matches!(sync_wake_worker_loop(&mut pool, 9), WakeStep::Exit));
}

#[test]
fn both_wake_modes_start_the_same_tasks() {
    fn fill(pool: &mut Pool) {
        started(pool.submit(task(1, 9, Priority::Normal, 1), 1));
        pool.submit(task(2, 4, Priority::Low, 2), 2).unwrap();
        pool.submit(task(3, 4, Priority::Critical, 3), 3).unwrap();
        pool.submit(task(4, 4, Priority::Normal, 4), 4).unwrap();
    }
    let mut by_completion = make_pool(9, 10);
    fill(&mut by_completion);
    let woken_async = ids(&by_completion.on_task_finished(1, 9, None, "r".to_string(), 5));

    let mut by_worker = make_pool(9, 10);
    by_worker.set_async_wake(false);
    fill(&mut by_worker);
    assert!(by_worker.on_task_finished(1, 9, None, "r".to_string(), 5).is_empty());
    let woken_sync = match sync_wake_worker_loop(&mut by_worker, 5) {
        WakeStep::Woken(woken) => ids(&woken),
        other => panic!("expected a wake, got {:?}", other),
    };
    assert_eq!(woken_async, vec![3, 4]);
    assert_eq!(woken_sync, woken_async);
    assert_eq!(by_worker.active_units(), by_completion.active_units());
    assert_eq!(by_worker.queue_len(), by_completion.queue_len());
}

#[test]
fn after_shutdown_nothing_starts() {
    let mut pool = make_pool(10, 10);
    let mut running = started(pool.submit(task(1, 10, Priority::Normal, 1), 1));
    running.meta.mailbox = Some(key("s"));
    pool.submit(task(2, 1, Priority::Normal, 2), 2).unwrap();
    pool.shutdown();
    assert!(matches!(
        pool.submit(task(3, 1, Priority::Normal, 3), 3),
        Err(SchedulerError::PoolShutdown)
    ));
    // A deadline that has passed is found before the shutdown.
    let mut late = task(4, 1, Priority::Normal, 3);
    late.meta.deadline_ms = Some(2);
    assert!(matches!(pool.submit(late, 3), Err(SchedulerError::DeadlineExpired)));
    let mut on_time = task(5, 1, Priority::Normal, 3);
    on_time.meta.deadline_ms = Some(3);
    assert!(matches!(pool.submit(on_time, 3), Err(SchedulerError::PoolShutdown)));
    // What runs finishes and is delivered; the parked task stays parked.
    let woken = pool.on_task_finished(1, 10, running.meta.mailbox.clone(), "r".to_string(), 4);
    assert!(woken.is_empty());
    assert!(pool.try_wake_next(5).is_empty());
    assert_eq!(pool.active_units(), 0);
    assert_eq!(pool.queue_len(), 1);
    assert_eq!(pool.mailbox().fetch(&key("s"), None, 10).len(), 1);
}

#[test]
fn prune_removes_the_expired_and_audits_the_batch() {
    let (mut pool, events) = audited_pool(1, 10);
    started(pool.submit(task(1, 1, Priority::Normal, 1), 1));
    for (id, deadline) in [(2u64, Some(50u128)), (3, None), (4, Some(100)), (5, Some(99))] {
        let mut t = task(id, 1, Priority::Normal, id as u128);
        t.meta.deadline_ms = deadline;
        t.meta.mailbox = Some(key("p"));
        assert!(matches!(pool.submit(t, 10), Ok(Admission::Parked)));
    }
    events.lock().unwrap().clear();
    assert_eq!(pool.prune_expired(100).unwrap(), 2);
    assert_eq!(pool.queue_len(), 2);
    assert_eq!(pool.active_units(), 1);
    assert!(pool.mailbox().fetch(&key("p"), None, 10).is_empty());
    {
        let recorded = events.lock().unwrap();
        assert_eq!(recorded.len(), 1);
        assert_eq!(recorded[0].event_id, "expire-batch-100");
        assert_eq!(recorded[0].task_id, "batch");
        assert_eq!(recorded[0].pool, "unknown_pool");
        assert_eq!(recorded[0].tenant, "unknown_tenant");
        assert_eq!(recorded[0].action, "expire");
        assert_eq!(recorded[0].created_at_ms, 100);
    }
    assert_eq!(pool.prune_expired(100).unwrap(), 0);
    assert_eq!(events.lock().unwrap().len(), 1);
    assert_eq!(ids(&pool.on_task_finished(1, 1, None, "r".to_string(), 101)), vec![3]);
}

#[test]
fn audit_follows_the_lifecycle() {
    let (mut pool, events) = audited_pool(5, 10);
    let mut first = task(7, 5, Priority::Normal, 1111);
    first.meta.mailbox = Some(key("s"));
    let first = started(pool.submit(first, 2000));
    pool.submit(task(8, 5, Priority::Normal, 1112), 2001).unwrap();
    let woken = pool.on_task_finished(7, 5, first.meta.mailbox.clone(), "r".to_string(), 3000);
    assert_eq!(ids(&woken), vec![8]);

    let recorded = events.lock().unwrap();
    let summary: Vec<(String, String, String, String, u128)> = recorded
        .iter()
        .map(|e| {
            assert_eq!(e.pool, "pool");
            assert_eq!(e.payload, None);
            (e.event_id.clone(), e.task_id.clone(), e.tenant.clone(), e.action.clone(), e.created_at_ms)
        })
        .collect();
    let row = |event_id: &str, task_id: &str, tenant: &str, action: &str, at: u128| {
        (event_id.to_string(), task_id.to_string(), tenant.to_string(), action.to_string(), at)
    };
    assert_eq!(
        summary,
        vec![
            row("7-start-1111", "7", "acme", "start", 2000),
            row("8-enqueue-1112", "8", "unknown", "enqueue", 2001),
            row("7-complete-3000", "7", "acme", "complete", 3000),
            row("8-wake-3000", "8", "unknown", "wake", 3000),
        ]
    );
}

#[test]
fn a_backend_that_fails_passes_its_error_on() {
    let limits = PoolLimits { max_units: 1, max_queue_depth: 5, default_timeout: Duration::from_secs(1) };
    let mut pool: ResourcePool<String, String, PostgresQueue<String>, InMemoryMailbox<String>> =
        ResourcePool::new(limits, PostgresQueue::new(5), InMemoryMailbox::new());
    started(pool.submit(task(1, 1, Priority::Normal, 1), 1));
    assert!(matches!(
        pool.submit(task(2, 1, Priority::Normal, 2), 2),
        Err(SchedulerError::Backend(_))
    ));
    assert!(pool.on_task_finished(1, 1, None, "r".to_string(), 3).is_empty());
    assert_eq!(pool.active_units(), 0);
    assert_eq!(pool.prune_expired(4).unwrap(), 0);
}

#[test]
fn reserve_adds_the_units_only_where_they_fit() {
    let mut pool = make_pool(10, 1);
    assert!(pool.can_start(10));
    assert!(!pool.can_start(11));
    assert!(pool.try_reserve_capacity(4));
    assert_eq!(pool.active_units(), 4);
    assert!(pool.can_start(6));
    assert!(!pool.can_start(7));
    assert!(!pool.try_reserve_capacity(7));
    assert!(!pool.try_reserve_capacity(u32::MAX));
    assert_eq!(pool.active_units(), 4);
    assert!(pool.try_reserve_capacity(6));
    assert_eq!(pool.active_units(), 10);
    assert!(pool.try_reserve_capacity(0));
    assert_eq!(pool.pool_limits().max_units, 10);
    assert_eq!(pool.pool_limits().max_queue_depth, 1);
}

#[test]
fn submit_task_builds_the_task_and_reports_errors_as_text() {
    let mut pool = make_pool(4, 1);
    let request = |id: u64, units: u32, deadline_ms: Option<u128>| TaskSubmission {
        task_id: id,
        priority: Priority::High,
        resource_cost: ResourceCost { kind: ResourceKind::Cpu, units },
        deadline_ms,
        mailbox_key: Some(key("api")),
        created_at_ms: 42,
        payload: format!("payload-{}", id),
    };
    match submit_task(&mut pool, request(1, 4, None), 100) {
        Ok(Admission::Start(t)) => {
            assert_eq!(t.meta.id, 1);
            assert_eq!(t.meta.priority, Priority::High);
            assert_eq!(t.meta.cost.units, 4);
            assert_eq!(t.meta.created_at_ms, 42);
            assert_eq!(t.meta.mailbox, Some(key("api")));
            assert_eq!(t.payload, "payload-1");
        }
        other => panic!("expected a start, got {:?}", other),
    }
    assert!(matches!(submit_task(&mut pool, request(2, 1, None), 100), Ok(Admission::Parked)));
    assert_eq!(
        submit_task(&mut pool, request(3, 1, None), 100).unwrap_err(),
        "queue full: max queue depth reached"
    );
    assert_eq!(
        submit_task(&mut pool, request(4, 1, Some(99)), 100).unwrap_err(),
        "deadline expired"
    );
    assert_eq!(
        submit_task(&mut pool, request(5, 5, None), 100).unwrap_err(),
        "queue full: max queue depth reached"
    );
    pool.shutdown();
    assert_eq!(
        submit_task(&mut pool, request(6, 1, None), 100).unwrap_err(),
        "pool has been shut down"
    );
    assert_eq!(
        submit_task(&mut pool, request(7, 1, Some(99)), 100).unwrap_err(),
        "deadline expired"
    );
}

#[test]
fn build_pools_makes_one_pool_for_each_name() {
    let cfg_of = |max_units: u32, depth: usize, secs: u64| PoolConfig {
        max_units,
        max_queue_depth: depth,
        default_timeout_secs: secs,
        queue: QueueBackendConfig::InMemory,
        mailbox: MailboxBackendConfig::InMemory,
        runtime: RuntimeConfig::Native,
    };
    let mut config = SchedulerConfig::new();
    config.insert("gpu".to_string(), cfg_of(100, 3, 60));
    config.insert("cpu".to_string(), cfg_of(8, 5, 30));
    let pools = build_pools::<String, String, _, _, _, _>(
        &config,
        |_name: &str, pool: &PoolConfig| Ok(InMemoryQueue::<String>::new(pool.max_queue_depth)),
        |_name: &str, _pool: &PoolConfig| Ok(InMemoryMailbox::<String>::new()),
    )
    .unwrap();
    assert_eq!(pools.len(), 2);
    assert_eq!(pools[0].name, "gpu");
    assert_eq!(pools[0].pool.pool_limits().max_units, 100);
    assert_eq!(pools[0].pool.pool_limits().max_queue_depth, 3);
    assert_eq!(pools[0].pool.pool_limits().default_timeout, Duration::from_secs(60));
    assert_eq!(pools[1].name, "cpu");
    assert_eq!(pools[1].pool.pool_limits().max_units, 8);
    assert_eq!(pools[1].pool.active_units(), 0);
    assert_eq!(pool_limits(&cfg_of(8, 5, 30)).default_timeout, Duration::from_secs(30));
}

#[test]
fn build_pools_refuses_an_invalid_configuration_and_a_failing_factory() {
    let empty = SchedulerConfig::new();
    let outcome = build_pools::<String, String, _, _, _, _>(
        &empty,
        |_name: &str, _pool: &PoolConfig| Ok(InMemoryQueue::<String>::new(1)),
        |_name: &str, _pool: &PoolConfig| Ok(InMemoryMailbox::<String>::new()),
    );
    match outcome {
        Err(SchedulerError::Backend(why)) => {
            assert_eq!(why, "config invalid: at least one pool must be defined")
        }
        _ => panic!("expected a backend error"),
    }

    let mut config = SchedulerConfig::new();
    config.insert(
        "gpu".to_string(),
        PoolConfig {
            max_units: 1,
            max_queue_depth: 1,
            default_timeout_secs: 1,
            queue: QueueBackendConfig::Postgres,
            mailbox: MailboxBackendConfig::InMemory,
            runtime: RuntimeConfig::Native,
        },
    );
    let outcome = build_pools::<String, String, InMemoryQueue<String>, _, _, _>(
        &config,
        |name: &str, _pool: &PoolConfig| Err(SchedulerError::Backend(format!("no queue for {}", name))),
        |_name: &str, _pool: &PoolConfig| Ok(InMemoryMailbox::<String>::new()),
    );
    match outcome {
        Err(SchedulerError::Backend(why)) => assert_eq!(why, "no queue for gpu"),
        _ => panic!("expected the factory's error"),
    }
}
