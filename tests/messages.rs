use valq::clock::now_as_seconds;
use valq::valq_msg::ValqMsg;
use valq::DELIVERY_ATTEMPTS_DEFAULT;

#[test]
fn structs_valq_msg_create() {
    let msg = ValqMsg::new(42, "test msg".to_string(), None, 0);
    assert_eq!(*msg.id(), 42);
    assert_eq!(msg.body(), "test msg");
}

#[test]
fn valq_msg_valq_msg_create() {
    let msg = ValqMsg::new(42, "test msg".to_string(), None, 0);
    assert_eq!(*msg.id(), 42);
    assert_eq!(msg.body(), "test msg");
    assert_eq!(*msg.timeout_at(), None);
}

#[test]
fn no_timeout() {
    let msg = ValqMsg::new(42, "test msg".to_string(), None, 0);
    assert!(msg.check_timeout_at());
}

#[test]
fn timeout_at_current_time() {
    let msg = ValqMsg::new(42, "test msg".to_string(), Some(now_as_seconds()), 0);
    assert!(msg.check_timeout_at());
}

#[test]
fn timeout_in_past() {
    let msg = ValqMsg::new(42, "test msg".to_string(), Some(now_as_seconds() - 10), 0);
    assert!(msg.check_timeout_at());
}

#[test]
fn timeout_in_future() {
    let msg = ValqMsg::new(42, "test msg".to_string(), Some(now_as_seconds() + 10), 0);
    assert!(!msg.check_timeout_at());
}

#[test]
fn valq_msg_update_timeout_at() {
    let mut msg = ValqMsg::new(42, "test msg".to_string(), None, 0);
    let new_timeout = Some(now_as_seconds() + 100);
    msg.set_timeout_at(new_timeout);
    assert_eq!(*msg.timeout_at(), new_timeout);
    assert!(!msg.check_timeout_at());
}

#[test]
fn max_delivery_attempts() {
    let msg = ValqMsg::new(1, "msg".to_string(), None, 2);
    assert!(!msg.check_max_delivery_attempts(1));
}

#[test]
fn max_delivery_attempts_exceeded() {
    let msg = ValqMsg::new(1, "msg".to_string(), None, DELIVERY_ATTEMPTS_DEFAULT + 1);
    assert!(!msg.check_max_delivery_attempts(DELIVERY_ATTEMPTS_DEFAULT));
}

#[test]
fn valq_msg_update_delivery_attempts() {
    let mut msg = ValqMsg::new(42, "test msg".to_string(), None, 0);
    msg.set_delivery_attempts(3);
    assert_eq!(*msg.delivery_attempts(), 3);
    assert!(msg.check_max_delivery_attempts(DELIVERY_ATTEMPTS_DEFAULT));
}

#[test]
fn visibility_at_explicit_instants() {
    let msg = ValqMsg::new(7, "m".to_string(), Some(100), 0);
    assert!(!msg.is_visible_at(99));
    assert!(msg.is_visible_at(100));
    assert!(msg.is_visible_at(101));
    let fresh = ValqMsg::new(8, "m".to_string(), None, 0);
    assert!(fresh.is_visible_at(0));
}

#[test]
fn clone_keeps_every_field() {
    let msg = ValqMsg::new(9, "body".to_string(), Some(12), 3);
    let copy = msg.clone();
    assert_eq!(copy, msg);
}
