use prometheus_parking_lot::infra::queue::memory::PriorityTask;
use prometheus_parking_lot::util::clock::now_ms;
use prometheus_parking_lot::util::text::{append_decimal, decimal_text};
use prometheus_parking_lot::util::{MailboxKey, Priority, ResourceCost, ResourceKind, TaskId};

#[test]
fn util_test_test_priority_ordering() {
    assert!(Priority::Critical > Priority::High);
    assert!(Priority::High > Priority::Normal);
    assert!(Priority::Normal > Priority::Low);
}

#[test]
fn test_resource_cost() {
    let cost = ResourceCost {
        kind: ResourceKind::GpuVram,
        units: 100,
    };
    assert_eq!(cost.kind, ResourceKind::GpuVram);
    assert_eq!(cost.units, 100);
}

#[test]
fn test_mailbox_key() {
    let key = MailboxKey {
        tenant: "tenant1".to_string(),
        user_id: Some("user1".to_string()),
        session_id: Some("session1".to_string()),
    };
    assert_eq!(key.tenant, "tenant1");
    assert_eq!(key.user_id, Some("user1".to_string()));
    assert_eq!(key.session_id, Some("session1".to_string()));
}

#[test]
fn test_task_id() {
    let id: TaskId = 12345;
    assert_eq!(id, 12345);
}

#[test]
fn priority_values_are_zero_to_three() {
    assert_eq!(PriorityTask::<String>::priority_value(Priority::Low), 0);
    assert_eq!(PriorityTask::<String>::priority_value(Priority::Normal), 1);
    assert_eq!(PriorityTask::<String>::priority_value(Priority::High), 2);
    assert_eq!(PriorityTask::<String>::priority_value(Priority::Critical), 3);
}

#[test]
fn mailbox_keys_compare_by_all_three_parts() {
    let key = MailboxKey {
        tenant: "t".to_string(),
        user_id: Some("u".to_string()),
        session_id: None,
    };
    assert!(key.same_as(&key.clone()));
    assert_eq!(key, key.clone());
    let other_user = MailboxKey { user_id: Some("v".to_string()), ..key.clone() };
    let no_user = MailboxKey { user_id: None, ..key.clone() };
    let with_session = MailboxKey { session_id: Some("s".to_string()), ..key.clone() };
    let other_tenant = MailboxKey { tenant: "x".to_string(), ..key.clone() };
    assert!(!key.same_as(&other_user));
    assert!(!key.same_as(&no_user));
    assert!(!key.same_as(&with_session));
    assert!(!key.same_as(&other_tenant));
}

#[test]
fn decimal_text_of_numbers() {
    assert_eq!(decimal_text(0), "0");
    assert_eq!(decimal_text(7), "7");
    assert_eq!(decimal_text(10), "10");
    assert_eq!(decimal_text(12345), "12345");
    assert_eq!(decimal_text(9_007_199_254_740_993), "9007199254740993");
    assert_eq!(decimal_text(u128::MAX), "340282366920938463463374607431768211455");
}

#[test]
fn append_decimal_keeps_what_was_there() {
    let mut text = String::from("id-");
    append_decimal(&mut text, 4096);
    append_decimal(&mut text, 0);
    assert_eq!(text, "id-40960");
}

#[test]
fn clock_reads_a_time_after_the_epoch() {
    let first = now_ms();
    assert!(first > 1_600_000_000_000);
}
