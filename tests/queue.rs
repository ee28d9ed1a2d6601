use valq::error::ValqError;
use valq::q_type::QType;
use valq::valq_msg::ValqMsg;
use valq::valq_type::ValqType;
use valq::{
    DELIVERY_ATTEMPTS_DEFAULT, DELIVERY_ATTEMPTS_MAX, RETENTION_PERIOD_DEFAULT,
    RETENTION_PERIOD_MAX, RETENTION_PERIOD_MIN, VISIBILITY_TIMEOUT_DEFAULT, VISIBILITY_TIMEOUT_MAX,
};

#[test]
fn test_from_str() {
    assert_eq!(QType::from_str("dlq"), QType::Dlq);
    assert_eq!(QType::from_str("delayed"), QType::Delayed);
    assert_eq!(QType::from_str("main"), QType::Main);
    assert_eq!(QType::from_str(""), QType::Main);
}

#[test]
fn structs_valq_type_init_empty() {
    let valq = ValqType::default();
    assert_eq!(*valq.id_sequence(), 0);
    assert!(valq.msgs().is_empty());
}

#[test]
fn valq_type_add_msg() {
    let mut valq = ValqType::default();
    let msg = ValqMsg::new(42, "test msg".to_string(), None, 0);
    valq.msgs_mut().push_back(msg);
    assert_eq!(valq.msgs().len(), 1);
    assert_eq!(valq.msgs().front().unwrap().body(), "test msg");
}

#[test]
fn valq_type_updates_id_sequence() {
    let mut valq = ValqType::default();
    valq.set_id_sequence(5);
    assert_eq!(*valq.id_sequence(), 5);
    valq.set_id_sequence(valq.id_sequence() + 1);
    assert_eq!(*valq.id_sequence(), 6);
}

#[test]
fn valq_type_valq_type_init_empty() {
    let valq = ValqType::new("q", None, None, None).unwrap();
    assert_eq!(*valq.id_sequence(), 0);
    assert_eq!(*valq.visibility_timeout(), VISIBILITY_TIMEOUT_DEFAULT);
    assert_eq!(*valq.max_delivery_attempts(), DELIVERY_ATTEMPTS_DEFAULT);
    assert!(valq.msgs().is_empty());
    assert!(valq.dlq_msgs().is_empty());
}

#[test]
fn valq_type_empty_name() {
    let test = ValqType::new("", None, None, None);
    assert!(test.is_err());
}

#[test]
fn valq_type_custom_timeout_max_delivery_attempts() {
    let valq = ValqType::new("q", Some(3600), Some(10), None).unwrap();
    assert_eq!(*valq.visibility_timeout(), 3600);
    assert_eq!(*valq.max_delivery_attempts(), 10);
}

#[test]
fn valq_type_visibility_timeout_max_delivery_attempts_retention_period_invalid() {
    let test = ValqType::new("q", Some(0), None, None);
    assert!(test.is_err());
    let test = ValqType::new("q", Some(VISIBILITY_TIMEOUT_MAX + 1), None, None);
    assert!(test.is_err());
    let test = ValqType::new("q", None, Some(0), None);
    assert!(test.is_err());
    let test = ValqType::new("q", None, Some(DELIVERY_ATTEMPTS_MAX + 1), None);
    assert!(test.is_err());
    let test = ValqType::new("q", None, None, Some(RETENTION_PERIOD_MIN - 1));
    assert!(test.is_err());
    let test = ValqType::new("q", None, None, Some(RETENTION_PERIOD_MAX + 1));
    assert!(test.is_err());
}

#[test]
fn valq_type_add_remove_msgs() {
    let mut valq = ValqType::new("q", None, None, None).unwrap();
    let msg1 = ValqMsg::new(1, "msg1".to_string(), None, 0);
    let msg2 = ValqMsg::new(2, "msg2".to_string(), None, 0);
    valq.msgs_mut().push_back(msg1);
    valq.msgs_mut().push_back(msg2);
    assert_eq!(valq.msgs().len(), 2);
    assert_eq!(valq.msgs()[0].body(), "msg1");
    assert_eq!(valq.msgs()[1].body(), "msg2");
    valq.msgs_mut().pop_front();
    valq.msgs_mut().pop_front();
    assert!(valq.msgs().is_empty());
}

#[test]
fn valq_type_update_id_sequence() {
    let mut valq = ValqType::new("q", None, None, None).unwrap();
    valq.set_id_sequence(5);
    assert_eq!(*valq.id_sequence(), 5);
    valq.set_id_sequence(valq.id_sequence() + 1);
    assert_eq!(*valq.id_sequence(), 6);
}

#[test]
fn valq_type_update_visibility_timeout_max_delivery_attempts_retention_period() {
    let mut valq = ValqType::new("q", None, None, None).unwrap();
    let _ = valq.set_visibility_timeout(7200);
    assert_eq!(*valq.visibility_timeout(), 7200);
    let _ = valq.set_max_delivery_attempts(10);
    assert_eq!(*valq.max_delivery_attempts(), 10);
    let _ = valq.set_retention_period(100);
    assert_eq!(*valq.retention_period(), 100);
}

#[test]
fn valq_type_set_visibility_timeout_invalid() {
    let mut valq = ValqType::new("q", None, None, None).unwrap();
    let test = valq.set_visibility_timeout(0);
    assert!(test.is_err());
    let test = valq.set_visibility_timeout(VISIBILITY_TIMEOUT_MAX + 1);
    assert!(test.is_err());
    assert_eq!(*valq.visibility_timeout(), VISIBILITY_TIMEOUT_DEFAULT);
}

#[test]
fn valq_type_set_max_delivery_attempts_invalid() {
    let mut valq = ValqType::new("q", None, None, None).unwrap();
    let test = valq.set_max_delivery_attempts(0);
    assert!(test.is_err());
    let test = valq.set_max_delivery_attempts(DELIVERY_ATTEMPTS_MAX + 1);
    assert!(test.is_err());
    assert_eq!(*valq.max_delivery_attempts(), DELIVERY_ATTEMPTS_DEFAULT);
}

#[test]
fn valq_type_set_retention_period_invalid() {
    let mut valq = ValqType::new("q", None, None, None).unwrap();
    let test = valq.set_retention_period(RETENTION_PERIOD_MIN - 1);
    assert!(test.is_err());
    let test = valq.set_retention_period(RETENTION_PERIOD_MAX + 1);
    assert!(test.is_err());
    assert_eq!(*valq.retention_period(), RETENTION_PERIOD_DEFAULT);
}

#[test]
fn new_reports_the_first_bad_setting() {
    assert_eq!(ValqType::new("", Some(0), None, None).unwrap_err(), ValqError::EmptyName);
    assert_eq!(
        ValqType::new("q", Some(0), Some(0), None).unwrap_err(),
        ValqError::VisibilityTimeoutOutOfRange
    );
    assert_eq!(
        ValqType::new("q", Some(1), Some(21), Some(1)).unwrap_err(),
        ValqError::MaxDeliveryAttemptsOutOfRange
    );
    assert_eq!(
        ValqType::new("q", None, None, Some(604_801)).unwrap_err(),
        ValqError::RetentionPeriodOutOfRange
    );
}

#[test]
fn bounds_themselves_are_accepted() {
    let q = ValqType::new("q", Some(1), Some(1), Some(60)).unwrap();
    assert_eq!(*q.retention_period(), 60);
    let q = ValqType::new("q", Some(43_200), Some(20), Some(604_800)).unwrap();
    assert_eq!(*q.visibility_timeout(), 43_200);
    assert_eq!(*q.max_delivery_attempts(), 20);
    assert_eq!(q.name(), "q");
}

#[test]
fn update_changes_all_settings_or_none() {
    let mut q = ValqType::new("q", None, None, None).unwrap();
    assert_eq!(q.update(10, 3, 120), Ok(()));
    assert_eq!(*q.visibility_timeout(), 10);
    assert_eq!(*q.max_delivery_attempts(), 3);
    assert_eq!(*q.retention_period(), 120);
    assert_eq!(q.update(20, 0, 120), Err(ValqError::MaxDeliveryAttemptsOutOfRange));
    assert_eq!(*q.visibility_timeout(), 10);
    assert_eq!(q.update(20, 4, 59), Err(ValqError::RetentionPeriodOutOfRange));
    assert_eq!(*q.max_delivery_attempts(), 3);
}
