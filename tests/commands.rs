use valq::clock::now_as_seconds;
use valq::commands::{ack, extend, info, pop, purge, push};
use valq::q_type::QType;
use valq::valq_msg::ValqMsg;
use valq::valq_type::ValqType;

fn queue() -> ValqType {
    ValqType::new("q", None, None, None).unwrap()
}

#[test]
fn ack_test_with_nonexistent_queue() {
    let test = ack(None, 1);
    assert!(test.is_err());
}

#[test]
fn ack_test_with_empty_queue() {
    let mut valq = queue();
    let test = ack(Some(&mut valq), 1);
    assert!(test.is_err());
}

#[test]
fn ack_test_with_valid_queue() {
    let mut valq = queue();
    valq.msgs_mut().push_back(ValqMsg::new(1, "msg1".to_string(), None, 0));
    valq.msgs_mut().push_back(ValqMsg::new(2, "msg2".to_string(), None, 0));

    let test = ack(Some(&mut valq), 1);
    assert_eq!(test, Ok(()));
    assert_eq!(valq.msgs_mut().len(), 1);
    assert_eq!(valq.dlq_msgs_mut().len(), 0);

    let test = ack(Some(&mut valq), 3);
    assert!(test.is_err());
}

#[test]
fn ack_test_large_number_of_messages() {
    let mut valq = queue();
    for i in 1..=10_000 {
        valq.msgs_mut().push_back(ValqMsg::new(i, format!("msg{}", i), None, 0));
    }
    let test = ack(Some(&mut valq), 5_000);
    assert_eq!(test, Ok(()));
    let msg = valq.msgs_mut().iter().find(|msg| *msg.id() == 5_000);
    assert!(msg.is_none());
}

#[test]
fn info_test_with_nonexistent_queue() {
    let test = info(None);
    assert!(test.is_err());
}

#[test]
fn info_test_with_empty_queue() {
    let valq = queue();
    let test = info(Some(&valq)).unwrap();
    assert_eq!(test.delayed_msgs, 0);
    assert_eq!(test.dlq_msgs, 0);
    assert_eq!(test.id_sequence, 0);
    assert_eq!(test.max_delivery_attempts, 5);
    assert_eq!(test.msgs, 0);
    assert_eq!(test.visibility_timeout, 30);
}

#[test]
fn info_test_with_valid_queue() {
    let mut valq = queue();
    valq.msgs_mut().push_back(ValqMsg::new(1, "msg1".to_string(), None, 0));
    valq.msgs_mut().push_back(ValqMsg::new(2, "msg2".to_string(), None, 0));
    valq.dlq_msgs_mut().push_back(ValqMsg::new(3, "dlq_msg1".to_string(), None, 0));

    let test = info(Some(&valq)).unwrap();
    assert_eq!(test.delayed_msgs, 0);
    assert_eq!(test.dlq_msgs, 1);
    assert_eq!(test.id_sequence, 0);
    assert_eq!(test.max_delivery_attempts, 5);
    assert_eq!(test.msgs, 2);
    assert_eq!(test.visibility_timeout, 30);
}

#[test]
fn purge_test_with_nonexistent_queue() {
    assert!(purge(None, QType::Main).is_err());
    assert!(purge(None, QType::Dlq).is_err());
    assert!(purge(None, QType::Delayed).is_err());
}

#[test]
fn purge_test_with_empty_queue() {
    let mut valq = queue();
    assert_eq!(purge(Some(&mut valq), QType::Main), Ok(0));
    assert_eq!(purge(Some(&mut valq), QType::Dlq), Ok(0));
    assert_eq!(purge(Some(&mut valq), QType::Delayed), Ok(0));
}

#[test]
fn purge_test_with_valid_queue() {
    let mut valq = queue();
    valq.msgs_mut().push_back(ValqMsg::new(1, "msg".to_string(), None, 0));
    valq.msgs_mut().push_back(ValqMsg::new(2, "msg".to_string(), None, 0));
    valq.dlq_msgs_mut().push_back(ValqMsg::new(3, "msg".to_string(), None, 5));
    valq.delayed_msgs_mut().insert(ValqMsg::new(4, "msg".to_string(), None, 0), 1);

    assert_eq!(purge(Some(&mut valq), QType::Main), Ok(2));
    assert_eq!(purge(Some(&mut valq), QType::Dlq), Ok(1));
    assert_eq!(purge(Some(&mut valq), QType::Delayed), Ok(1));
}

#[test]
fn extend_test_with_nonexistent_queue() {
    let test = extend(None, 1, 10, now_as_seconds());
    assert!(test.is_err());
}

#[test]
fn extend_test_with_empty_queue() {
    let mut valq = queue();
    let test = extend(Some(&mut valq), 1, 10, now_as_seconds());
    assert!(test.is_err());
}

#[test]
fn extend_test_with_valid_queue() {
    let mut valq = queue();
    valq.msgs_mut().push_back(ValqMsg::new(1, "msg1".to_string(), None, 0));
    valq.msgs_mut().push_back(ValqMsg::new(2, "msg2".to_string(), None, 0));
    let test = extend(Some(&mut valq), 1, 10, now_as_seconds());
    assert_eq!(test, Ok(()));
    assert_eq!(valq.msgs_mut().len(), 2);
    assert_eq!(valq.dlq_msgs_mut().len(), 0);
    let msg = valq.msgs_mut().get(0).unwrap();
    assert!(msg.timeout_at().unwrap() > now_as_seconds());

    let test = extend(Some(&mut valq), 3, 10, now_as_seconds());
    assert!(test.is_err());
}

#[test]
fn extend_test_large_number_of_messages() {
    let mut valq = queue();
    for i in 1..=10_000 {
        valq.msgs_mut().push_back(ValqMsg::new(i, format!("msg{}", i), None, 0));
    }
    let test = extend(Some(&mut valq), 5_000, 30, now_as_seconds());
    assert_eq!(test, Ok(()));
    let msg = valq.msgs_mut().iter().find(|msg| *msg.id() == 5_000).unwrap();
    assert!(msg.timeout_at().unwrap() > now_as_seconds());
}

#[test]
fn pop_test_with_nonexistent_queue() {
    let test = pop(None, now_as_seconds());
    assert!(test.is_err());
}

#[test]
fn test_with_empty_queue_returns_nothing() {
    let mut valq = queue();
    let test = pop(Some(&mut valq), now_as_seconds());
    assert_eq!(test, Ok(None));
    assert!(valq.msgs().is_empty());
    assert!(valq.dlq_msgs().is_empty());
}

#[test]
fn test_with_no_visible_message_in_queue() {
    let mut valq = queue();
    let msg = ValqMsg::new(1, "msg".to_string(), Some(now_as_seconds() + 10), 0);
    valq.msgs_mut().push_back(msg);
    let test = pop(Some(&mut valq), now_as_seconds());
    assert_eq!(test, Ok(None));
}

#[test]
fn test_with_delivery_attempts_exceeded() {
    let mut valq = queue();
    let msg = ValqMsg::new(1, "msg".to_string(), Some(now_as_seconds()), 5);
    valq.msgs_mut().push_back(msg);
    let test = pop(Some(&mut valq), now_as_seconds());
    assert_eq!(test, Ok(None));
    assert_eq!(valq.dlq_msgs().len(), 1);
}

#[test]
fn test_with_visible_message_in_queue() {
    let mut valq = queue();
    let msg = ValqMsg::new(1, "msg".to_string(), Some(now_as_seconds()), 0);
    valq.msgs_mut().push_back(msg);
    let test = pop(Some(&mut valq), now_as_seconds());
    assert!(test.is_ok());
    assert!(valq.dlq_msgs().is_empty());
}

#[test]
fn test_move_message_to_dlq_when_delivery_attempts_exceeded() {
    let mut valq = queue();
    let msg = ValqMsg::new(1, "msg".to_string(), Some(now_as_seconds()), 5);
    valq.msgs_mut().push_back(msg);

    let test = pop(Some(&mut valq), now_as_seconds());
    assert_eq!(test, Ok(None));
    assert!(valq.msgs().is_empty());
    assert_eq!(valq.dlq_msgs().len(), 1);
    assert_eq!(valq.dlq_msgs()[0].id(), &1);
}

#[test]
fn test_move_delayed_msgs_to_main_q_moves_ready_messages() {
    let mut valq = queue();
    let msg1 = ValqMsg::new(1, "msg1".to_string(), None, 0);
    let msg2 = ValqMsg::new(2, "msg2".to_string(), None, 0);
    valq.delayed_msgs_mut().insert(msg1.clone(), now_as_seconds() - 1);
    valq.delayed_msgs_mut().insert(msg2.clone(), now_as_seconds());

    let _ = pop(Some(&mut valq), now_as_seconds());
    assert_eq!(valq.delayed_msgs().len(), 0);
    assert_eq!(valq.msgs().len(), 2);
    assert_eq!(*valq.msgs()[0].id(), 2);
    assert_eq!(*valq.msgs()[1].id(), 1);
}

#[test]
fn test_move_delayed_msgs_to_main_q_handles_empty_delayed_msgs() {
    let mut valq = queue();
    let _ = pop(Some(&mut valq), now_as_seconds());
    assert_eq!(valq.delayed_msgs().len(), 0);
    assert!(valq.msgs().is_empty());
}

#[test]
fn test_move_delayed_msgs_to_main_q_does_not_move_non_ready_messages() {
    let mut valq = queue();
    let msg = ValqMsg::new(1, "msg".to_string(), None, 0);
    valq.delayed_msgs_mut().insert(msg.clone(), now_as_seconds() + 10);

    let _ = pop(Some(&mut valq), now_as_seconds());
    assert_eq!(valq.delayed_msgs().len(), 1);
    assert!(valq.msgs().is_empty());
}

#[test]
fn push_test_with_nonexistent_queue() {
    let test = push(None, "msg1".to_string(), 0, now_as_seconds());
    assert!(test.is_err());
}

#[test]
fn push_test_with_valid_queue() {
    let mut valq = queue();
    let test = push(Some(&mut valq), "msg1".to_string(), 0, now_as_seconds());
    assert_eq!(test, Ok(1));
    let test = push(Some(&mut valq), "msg2".to_string(), 0, now_as_seconds());
    assert_eq!(test, Ok(2));
}

#[test]
fn push_test_large_number_of_messages() {
    let mut valq = queue();
    for i in 1..=10_000u64 {
        let test = push(Some(&mut valq), format!("msg{}", i), 0, now_as_seconds());
        assert!(test.is_ok());
        assert_eq!(test, Ok(i));
    }
    assert_eq!(valq.msgs_mut().len(), 10_000);
}

#[test]
fn test_with_delayed_message() {
    let mut valq = queue();
    let test = push(Some(&mut valq), "delayed_msg".to_string(), 1, now_as_seconds());
    assert_eq!(test, Ok(1));
    assert_eq!(valq.delayed_msgs().len(), 1);
    assert_eq!(valq.msgs().len(), 0);
}
