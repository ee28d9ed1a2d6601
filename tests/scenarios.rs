use valq::error::ValqError;
use valq::q_type::QType;
use valq::record::Field;
use valq::valq_msg::ValqMsg;
use valq::valq_type::ValqType;

#[test]
fn example_two_messages_then_dead_letters() {
    let mut q = ValqType::new("q1", Some(1), Some(2), None).unwrap();
    assert_eq!(q.push_at("msg1".to_string(), 0, 1000), 1);
    assert_eq!(q.push_at("msg2".to_string(), 0, 1000), 2);

    let first = q.pop_at(1000).unwrap();
    assert_eq!((*first.id(), first.body().as_str()), (1, "msg1"));
    let second = q.pop_at(1000).unwrap();
    assert_eq!((*second.id(), second.body().as_str()), (2, "msg2"));
    assert_eq!(*first.timeout_at(), Some(1001));
    assert!(q.pop_at(1000).is_none());

    let again1 = q.pop_at(1002).unwrap();
    let again2 = q.pop_at(1002).unwrap();
    assert_eq!((*again1.id(), *again1.delivery_attempts()), (1, 2));
    assert_eq!((*again2.id(), *again2.delivery_attempts()), (2, 2));

    assert!(q.pop_at(1004).is_none());
    assert!(q.msgs().is_empty());
    let dead: Vec<u64> = q.dlq_msgs().iter().map(|m| *m.id()).collect();
    assert_eq!(dead, vec![1, 2]);
    assert_eq!(q.ack(1), Err(ValqError::MessageNotFound(1)));
}

#[test]
fn create_then_info_reports_zeros() {
    let q = ValqType::new("fresh", Some(45), Some(7), Some(3600)).unwrap();
    let info = q.info();
    assert_eq!(info.id_sequence, 0);
    assert_eq!((info.msgs, info.dlq_msgs, info.delayed_msgs), (0, 0, 0));
    assert_eq!(info.visibility_timeout, 45);
    assert_eq!(info.max_delivery_attempts, 7);
    assert_eq!(info.retention_period, 3600);
}

#[test]
fn pushes_pop_in_push_order() {
    let mut q = ValqType::new("q", None, None, None).unwrap();
    for i in 1..=5u64 {
        assert_eq!(q.push_at(format!("m{}", i), 0, 50), i);
    }
    for i in 1..=5u64 {
        let m = q.pop_at(50).unwrap();
        assert_eq!(*m.id(), i);
        assert_eq!(m.body(), &format!("m{}", i));
    }
    assert!(q.pop_at(50).is_none());
}

#[test]
fn popped_message_invisible_until_timeout() {
    let mut q = ValqType::new("q", Some(10), None, None).unwrap();
    q.push_at("only".to_string(), 0, 100);
    let m = q.pop_at(100).unwrap();
    assert_eq!(*m.timeout_at(), Some(110));
    assert!(q.pop_at(100).is_none());
    assert!(q.pop_at(109).is_none());
    let again = q.pop_at(110).unwrap();
    assert_eq!(*again.id(), *m.id());
    assert_eq!(*again.delivery_attempts(), 2);
}

#[test]
fn exhausted_message_goes_to_dead_letters() {
    let mut q = ValqType::new("q", Some(1), Some(1), None).unwrap();
    q.push_at("m".to_string(), 0, 0);
    assert!(q.pop_at(10).is_some());
    assert!(q.pop_at(20).is_none());
    assert_eq!(q.dlq_msgs().len(), 1);
    assert_eq!(q.ack(1), Err(ValqError::MessageNotFound(1)));
}

#[test]
fn exhausted_messages_met_before_a_delivery_move_on_the_same_pop() {
    let mut q = ValqType::new("q", None, Some(1), None).unwrap();
    q.msgs_mut().push_back(ValqMsg::new(1, "spent".to_string(), None, 1));
    q.msgs_mut().push_back(ValqMsg::new(2, "fresh".to_string(), None, 0));
    q.msgs_mut().push_back(ValqMsg::new(3, "spent".to_string(), None, 1));
    let m = q.pop_at(5).unwrap();
    assert_eq!(*m.id(), 2);
    let ready: Vec<u64> = q.msgs().iter().map(|m| *m.id()).collect();
    assert_eq!(ready, vec![2, 3]);
    let dead: Vec<u64> = q.dlq_msgs().iter().map(|m| *m.id()).collect();
    assert_eq!(dead, vec![1]);
}

#[test]
fn ack_removes_message_for_good() {
    let mut q = ValqType::new("q", None, None, None).unwrap();
    q.push_at("a".to_string(), 0, 0);
    q.push_at("b".to_string(), 0, 0);
    assert_eq!(q.ack(1), Ok(()));
    assert_eq!(q.ack(1), Err(ValqError::MessageNotFound(1)));
    assert_eq!(q.ack(99), Err(ValqError::MessageNotFound(99)));
    assert_eq!(q.msgs().len(), 1);
}

#[test]
fn extend_replaces_previous_timeout() {
    let mut q = ValqType::new("q", Some(100), None, None).unwrap();
    q.push_at("a".to_string(), 0, 0);
    q.pop_at(0);
    assert_eq!(*q.msgs()[0].timeout_at(), Some(100));
    assert_eq!(q.extend_at(1, 5, 10), Ok(()));
    assert_eq!(*q.msgs()[0].timeout_at(), Some(15));
    assert!(q.pop_at(14).is_none());
    assert!(q.pop_at(15).is_some());
    assert_eq!(q.extend_at(1, 43_201, 10), Err(ValqError::ExtendTimeoutOutOfRange));
    assert_eq!(q.extend_at(7, 5, 10), Err(ValqError::MessageNotFound(7)));
}

#[test]
fn delayed_message_waits_for_its_delay() {
    let mut q = ValqType::new("q", None, None, None).unwrap();
    assert_eq!(q.push_at("later".to_string(), 5, 100), 1);
    assert_eq!(q.info().msgs, 0);
    assert_eq!(q.info().delayed_msgs, 1);
    assert!(q.pop_at(104).is_none());
    assert_eq!(q.info().delayed_msgs, 1);
    let m = q.pop_at(105).unwrap();
    assert_eq!(*m.id(), 1);
    assert_eq!(q.info().delayed_msgs, 0);
    assert_eq!(q.info().msgs, 1);
}

#[test]
fn promoted_batch_delivers_latest_ready_first() {
    let mut q = ValqType::new("q", None, None, None).unwrap();
    q.push_at("a".to_string(), 1, 0);
    q.push_at("b".to_string(), 2, 0);
    q.push_at("c".to_string(), 0, 0);
    let m = q.pop_at(10).unwrap();
    assert_eq!(*m.id(), 2);
    let order: Vec<u64> = q.msgs().iter().map(|m| *m.id()).collect();
    assert_eq!(order, vec![2, 1, 3]);
}

#[test]
fn purge_empties_only_the_chosen_collection() {
    let mut q = ValqType::new("q", None, None, None).unwrap();
    q.push_at("a".to_string(), 0, 0);
    q.push_at("b".to_string(), 0, 0);
    q.push_at("c".to_string(), 60, 0);
    q.dlq_msgs_mut().push_back(ValqMsg::new(9, "d".to_string(), Some(1), 5));
    assert_eq!(q.purge(QType::Delayed), 1);
    assert_eq!(q.info().msgs, 2);
    assert_eq!(q.info().dlq_msgs, 1);
    assert_eq!(q.purge(QType::Main), 2);
    assert_eq!(q.info().dlq_msgs, 1);
    assert_eq!(q.purge(QType::Dlq), 1);
    assert_eq!(q.info().id_sequence, 3);
}

#[test]
fn stored_record_reads_back_the_same_queue() {
    let mut q = ValqType::new("orders", Some(20), Some(3), Some(120)).unwrap();
    q.push_at("a".to_string(), 0, 1000);
    q.push_at("b".to_string(), 0, 1000);
    q.push_at("c".to_string(), 30, 1000);
    q.push_at("d".to_string(), 10, 1000);
    q.pop_at(1000);
    q.dlq_msgs_mut().push_back(ValqMsg::new(77, "gone".to_string(), Some(900), 3));
    let fields = q.to_fields();
    assert_eq!(fields[0], Field::Text("orders".to_string()));
    assert_eq!(fields[1], Field::Unsigned(4));
    assert_eq!(fields.len(), 6 + 4 * 2 + 1 + 4 + 1 + 5 * 2);
    let back = ValqType::from_fields(&fields).unwrap();
    assert_eq!(back.name(), "orders");
    assert_eq!(back.info(), q.info());
    assert_eq!(back.msgs(), q.msgs());
    assert_eq!(back.dlq_msgs(), q.dlq_msgs());
    assert_eq!(back.delayed_msgs().entries(), q.delayed_msgs().entries());
    assert_eq!(back.to_fields(), fields);
}

#[test]
fn malformed_records_are_refused() {
    let q = ValqType::new("q", None, None, None).unwrap();
    let mut fields = q.to_fields();
    fields.push(Field::Unsigned(1));
    assert!(ValqType::from_fields(&fields).is_none());
    let mut fields = q.to_fields();
    fields[2] = Field::Unsigned(0);
    assert!(ValqType::from_fields(&fields).is_none());
    let mut fields = q.to_fields();
    fields[0] = Field::Unsigned(3);
    assert!(ValqType::from_fields(&fields).is_none());
    assert!(ValqType::from_fields(&Vec::new()).is_none());
}

#[test]
fn stored_zero_timeout_reads_back_as_none() {
    let mut q = ValqType::new("q", None, None, None).unwrap();
    q.msgs_mut().push_back(ValqMsg::new(1, "a".to_string(), None, 0));
    let back = ValqType::from_fields(&q.to_fields()).unwrap();
    assert_eq!(*back.msgs()[0].timeout_at(), None);
}

#[test]
fn ids_stay_unique_across_collections() {
    let mut q = ValqType::new("q", Some(1), Some(1), None).unwrap();
    for i in 0..6u64 {
        q.push_at(format!("m{}", i), i % 3, 100);
    }
    q.pop_at(100);
    q.pop_at(105);
    q.pop_at(110);
    q.ack(2).ok();
    q.pop_at(120);
    let mut ids: Vec<u64> = q.msgs().iter().map(|m| *m.id()).collect();
    ids.extend(q.dlq_msgs().iter().map(|m| *m.id()));
    ids.extend(q.delayed_msgs().entries().iter().map(|(_, m)| *m.id()));
    let total = ids.len();
    ids.sort();
    ids.dedup();
    assert_eq!(ids.len(), total);
    assert!(ids.iter().all(|id| *id >= 1 && *id <= *q.id_sequence()));
}

#[test]
fn update_without_retention_keeps_the_current_one() {
    let mut q = ValqType::new("q", None, None, Some(300)).unwrap();
    assert_eq!(valq::commands::update(Some(&mut q), 9, 4, None), Ok(()));
    assert_eq!(*q.visibility_timeout(), 9);
    assert_eq!(*q.max_delivery_attempts(), 4);
    assert_eq!(*q.retention_period(), 300);
    assert_eq!(valq::commands::update(Some(&mut q), 9, 4, Some(600)), Ok(()));
    assert_eq!(*q.retention_period(), 600);
    assert_eq!(
        valq::commands::update(None, 9, 4, None),
        Err(ValqError::QueueNotFound)
    );
}

#[test]
fn scan_records_each_exhausted_message_with_its_position() {
    let mut q = ValqType::new("q", None, Some(2), None).unwrap();
    q.msgs_mut().push_back(ValqMsg::new(1, "a".to_string(), None, 2));
    q.msgs_mut().push_back(ValqMsg::new(2, "b".to_string(), Some(50), 0));
    q.msgs_mut().push_back(ValqMsg::new(3, "c".to_string(), Some(5), 3));
    let (delivered, recorded) = valq::pop::process_main_q(&mut q, 10);
    assert!(delivered.is_none());
    assert_eq!(recorded.len(), 2);
    assert_eq!(recorded[0], (0, ValqMsg::new(1, "a".to_string(), None, 2)));
    assert_eq!(recorded[1], (2, ValqMsg::new(3, "c".to_string(), Some(5), 3)));
    assert_eq!(q.msgs().len(), 3);
}

#[test]
fn pops_spread_within_the_timeout_keep_push_order() {
    let mut q = ValqType::new("q", Some(10), None, None).unwrap();
    for i in 1..=3u64 {
        q.push_at(format!("m{}", i), 0, 0);
    }
    let times = [100u64, 104, 109];
    for (i, t) in times.iter().enumerate() {
        let m = q.pop_at(*t).unwrap();
        assert_eq!(*m.id(), i as u64 + 1);
        assert_eq!(*m.delivery_attempts(), 1);
    }
    assert!(q.pop_at(109).is_none());
}
