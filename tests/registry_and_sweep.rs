use valq::clock::now_as_seconds;
use valq::commands::create;
use valq::error::ValqError;
use valq::registry::{get_all_queues, QueueRegistry};
use valq::retention::reclaim_at;
use valq::server::{check_write_allowed, valid_server_version};
use valq::valq_msg::ValqMsg;
use valq::valq_type::ValqType;
use valq::RETENTION_PERIOD_DEFAULT;

#[test]
fn test_list() {
    let registry = QueueRegistry::new();
    assert_eq!(registry.names().len(), 0);
}

#[test]
fn test_get_all_queues() {
    let registry = QueueRegistry::new();
    assert!(get_all_queues(&registry).is_empty());
}

#[test]
fn handler_empty_dlq() {
    let mut valq = ValqType::new("q", None, None, None).unwrap();
    reclaim_at(&mut valq, now_as_seconds());
    assert!(valq.dlq_msgs().is_empty());
}

#[test]
fn handler_removes_msg_after_retention_period() {
    let mut valq = ValqType::new("q", None, None, None).unwrap();
    let now = now_as_seconds();
    let msg1 = ValqMsg::new(1, "m1".to_string(), Some(now), 1);
    let msg2 = ValqMsg::new(2, "m2".to_string(), Some(now.saturating_sub(RETENTION_PERIOD_DEFAULT)), 1);
    valq.dlq_msgs_mut().push_back(msg1);
    valq.dlq_msgs_mut().push_back(msg2);
    assert_eq!(valq.dlq_msgs().len(), 2);
    reclaim_at(&mut valq, now);
    assert_eq!(valq.dlq_msgs().len(), 1);
}

#[test]
fn sweep_keeps_order_of_survivors() {
    let mut valq = ValqType::new("q", None, None, Some(100)).unwrap();
    valq.dlq_msgs_mut().push_back(ValqMsg::new(1, "a".to_string(), Some(850), 1));
    valq.dlq_msgs_mut().push_back(ValqMsg::new(2, "b".to_string(), Some(950), 1));
    valq.dlq_msgs_mut().push_back(ValqMsg::new(3, "c".to_string(), None, 1));
    valq.dlq_msgs_mut().push_back(ValqMsg::new(4, "d".to_string(), Some(900), 1));
    reclaim_at(&mut valq, 1000);
    let ids: Vec<u64> = valq.dlq_msgs().iter().map(|m| *m.id()).collect();
    assert_eq!(ids, vec![1, 3, 4]);
}

#[test]
fn test_valid_server_version() {
    assert!(valid_server_version(7, 2, 8));
    assert!(valid_server_version(7, 2, 9));
    assert!(!valid_server_version(7, 2, 7));
}

#[test]
fn server_versions_compare_part_by_part() {
    assert!(valid_server_version(8, 0, 0));
    assert!(valid_server_version(7, 3, 0));
    assert!(!valid_server_version(6, 9, 9));
    assert!(!valid_server_version(7, 1, 99));
}

#[test]
fn writes_refused_only_on_a_direct_replica_write() {
    assert_eq!(check_write_allowed(true, false), Err(ValqError::ReadOnlyReplica));
    assert_eq!(check_write_allowed(true, true), Ok(()));
    assert_eq!(check_write_allowed(false, false), Ok(()));
}

#[test]
fn registry_register_and_deregister() {
    let mut r = QueueRegistry::new();
    r.register("a");
    r.register("b");
    r.register("a");
    assert_eq!(r.len(), 2);
    assert!(r.contains("a"));
    r.deregister("a");
    assert!(!r.contains("a"));
    assert_eq!(get_all_queues(&r), vec!["b".to_string()]);
    r.deregister("zzz");
    assert_eq!(r.len(), 1);
}

#[test]
fn create_registers_and_refuses_duplicates() {
    let mut r = QueueRegistry::new();
    let q = create(false, &mut r, "q1", Some(1), Some(2), None).unwrap();
    assert_eq!(q.name(), "q1");
    assert!(r.contains("q1"));
    assert_eq!(create(true, &mut r, "q1", None, None, None).unwrap_err(), ValqError::QueueExists);
    assert_eq!(
        create(false, &mut r, "q2", Some(0), None, None).unwrap_err(),
        ValqError::VisibilityTimeoutOutOfRange
    );
    assert!(!r.contains("q2"));
    assert_eq!(create(false, &mut r, "", None, None, None).unwrap_err(), ValqError::EmptyName);
}
