use prometheus_parking_lot::infra::mailbox::memory::InMemoryMailbox;
use prometheus_parking_lot::infra::mailbox::postgres::PostgresMailbox;
use prometheus_parking_lot::infra::mailbox::yaque::mailbox_file_name;
use prometheus_parking_lot::scheduler::resource_pool::TaskStatus;
use prometheus_parking_lot::scheduler::{Mailbox, SchedulerError};
use prometheus_parking_lot::util::MailboxKey;

fn make_key(session: &str) -> MailboxKey {
    MailboxKey {
        tenant: "tenant1".to_string(),
        user_id: None,
        session_id: Some(session.to_string()),
    }
}

#[test]
fn test_in_memory_mailbox_deliver_and_fetch() {
    let mut mailbox = InMemoryMailbox::<String>::new();
    let key = make_key("session1");

    let _ = mailbox.deliver(&key, TaskStatus::Completed, Some("result".to_string()));

    let messages = mailbox.fetch(&key, None, 10);
    assert_eq!(messages.len(), 1);
    assert_eq!(messages[0].payload, Some("result".to_string()));
}

#[test]
fn test_in_memory_mailbox_prune_empty() {
    let mut mailbox = InMemoryMailbox::<String>::new();
    let key = make_key("session2");

    let _ = mailbox.deliver(&key, TaskStatus::Queued, None);
    // No prune method for in-memory mailbox; ensure fetch limit works
    let messages = mailbox.fetch(&key, None, 1);
    assert_eq!(messages.len(), 1);
}

#[test]
fn deliver_cannot_fail_and_stamps_the_message() {
    let mut mailbox = InMemoryMailbox::<u32>::new();
    let key = make_key("s");
    assert!(mailbox.deliver(&key, TaskStatus::Failed("boom".to_string()), None).is_ok());
    let messages = mailbox.fetch(&key, None, 10);
    assert_eq!(messages.len(), 1);
    assert!(matches!(&messages[0].status, TaskStatus::Failed(why) if why == "boom"));
    assert_eq!(messages[0].payload, None);
    assert!(messages[0].created_at_ms > 1_600_000_000_000);
}

#[test]
fn fetch_of_an_unknown_key_is_empty() {
    let mut mailbox = InMemoryMailbox::<u32>::new();
    assert!(mailbox.fetch(&make_key("nobody"), None, 10).is_empty());
    mailbox.deliver_at(&make_key("somebody"), TaskStatus::Completed, Some(1), 5);
    assert!(mailbox.fetch(&make_key("nobody"), None, 10).is_empty());
    assert!(mailbox.fetch(&make_key("nobody"), Some(0), 10).is_empty());
}

#[test]
fn fetch_filters_by_time_keeps_order_and_limits() {
    let mut mailbox = InMemoryMailbox::<u32>::new();
    let key = make_key("a");
    let other = make_key("b");
    for (at, value) in [(100u128, 1u32), (200, 2), (300, 3), (400, 4)] {
        mailbox.deliver_at(&key, TaskStatus::Completed, Some(value), at);
        mailbox.deliver_at(&other, TaskStatus::Completed, Some(value + 10), at);
    }

    let all: Vec<u32> = mailbox.fetch(&key, None, 10).iter().map(|m| m.payload.unwrap()).collect();
    assert_eq!(all, vec![1, 2, 3, 4]);

    let since: Vec<u32> =
        mailbox.fetch(&key, Some(200), 10).iter().map(|m| m.payload.unwrap()).collect();
    assert_eq!(since, vec![2, 3, 4]);

    let limited: Vec<u128> =
        mailbox.fetch(&key, Some(200), 2).iter().map(|m| m.created_at_ms).collect();
    assert_eq!(limited, vec![200, 300]);

    assert!(mailbox.fetch(&key, Some(401), 10).is_empty());
    assert!(mailbox.fetch(&key, None, 0).is_empty());

    let others: Vec<u32> =
        mailbox.fetch(&other, Some(400), 10).iter().map(|m| m.payload.unwrap()).collect();
    assert_eq!(others, vec![14]);
}

#[test]
fn fetch_does_not_consume() {
    let mut mailbox = InMemoryMailbox::<u32>::new();
    let key = make_key("a");
    mailbox.deliver_at(&key, TaskStatus::Completed, Some(9), 1);
    assert_eq!(mailbox.fetch(&key, None, 10).len(), 1);
    assert_eq!(mailbox.fetch(&key, None, 10).len(), 1);
}

#[test]
fn keys_differ_by_every_part() {
    let mut mailbox = InMemoryMailbox::<u32>::new();
    let plain = MailboxKey { tenant: "t".to_string(), user_id: None, session_id: None };
    let user = MailboxKey { user_id: Some("u".to_string()), ..plain.clone() };
    let session = MailboxKey { session_id: Some("u".to_string()), ..plain.clone() };
    mailbox.deliver_at(&plain, TaskStatus::Completed, Some(1), 1);
    mailbox.deliver_at(&user, TaskStatus::Completed, Some(2), 1);
    mailbox.deliver_at(&session, TaskStatus::Completed, Some(3), 1);
    mailbox.deliver_at(&user, TaskStatus::Completed, Some(4), 2);
    assert_eq!(mailbox.fetch(&plain, None, 10).len(), 1);
    assert_eq!(mailbox.fetch(&session, None, 10).len(), 1);
    let of_user: Vec<u32> =
        mailbox.fetch(&user, None, 10).iter().map(|m| m.payload.unwrap()).collect();
    assert_eq!(of_user, vec![2, 4]);
}

#[test]
fn postgres_mailbox_is_not_connected() {
    let mut mailbox = PostgresMailbox::<u32>::new();
    match mailbox.deliver(&make_key("s"), TaskStatus::Completed, Some(1)) {
        Err(SchedulerError::Backend(why)) => {
            assert_eq!(why, "postgres mailbox not wired to database client")
        }
        other => panic!("expected Backend, got {:?}", other),
    }
    let migrations = PostgresMailbox::<u32>::migrations();
    assert_eq!(migrations.len(), 1);
    assert!(migrations[0].contains("CREATE TABLE IF NOT EXISTS pl_mailbox_messages"));
}

#[test]
fn mailbox_file_is_named_after_the_stream() {
    assert_eq!(mailbox_file_name("gpu"), "gpu_mailbox.jsonl");
}
