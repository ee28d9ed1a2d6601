use valq::clock::now_as_seconds;
use valq::delayed_msgs::DelayedMsgs;
use valq::valq_msg::ValqMsg;

#[test]
fn test_insert_remove_len_clear() {
    let mut delayed_msgs = DelayedMsgs::new();
    let msg1 = ValqMsg::new(1, "message1".to_string(), None, 0);
    let msg2 = ValqMsg::new(2, "message2".to_string(), None, 0);

    delayed_msgs.insert(msg1.clone(), 100);
    assert_eq!(delayed_msgs.len(), 1);
    assert!(delayed_msgs.contains_score(100));
    assert!(delayed_msgs.contains(&msg1));

    delayed_msgs.insert(msg2.clone(), 200);
    assert_eq!(delayed_msgs.len(), 2);
    assert!(delayed_msgs.contains_score(200));
    assert!(delayed_msgs.contains(&msg2));

    delayed_msgs.remove(&msg1);
    assert_eq!(delayed_msgs.len(), 1);
    assert!(!delayed_msgs.contains(&msg1));

    delayed_msgs.clear();
    assert_eq!(delayed_msgs.len(), 0);
}

#[test]
fn test_ready_to_process() {
    let mut delayed_msgs = DelayedMsgs::new();
    let msg1 = ValqMsg::new(1, "message1".to_string(), None, 0);
    let msg2 = ValqMsg::new(2, "message2".to_string(), None, 0);

    delayed_msgs.insert(msg1.clone(), now_as_seconds());
    delayed_msgs.insert(msg2.clone(), now_as_seconds() + 10);

    let ready = delayed_msgs.ready_to_process();
    assert_eq!(ready.len(), 1);
    assert_eq!(ready[0].1, msg1);
}

#[test]
fn reinsert_moves_message_to_new_score() {
    let mut d = DelayedMsgs::new();
    let m = ValqMsg::new(5, "m".to_string(), None, 0);
    d.insert(m.clone(), 50);
    d.insert(m.clone(), 70);
    assert_eq!(d.len(), 1);
    assert!(!d.contains_score(50));
    assert!(d.contains_score(70));
}

#[test]
fn ready_entries_come_by_score_then_id() {
    let mut d = DelayedMsgs::new();
    d.insert(ValqMsg::new(3, "c".to_string(), None, 0), 20);
    d.insert(ValqMsg::new(2, "b".to_string(), None, 0), 10);
    d.insert(ValqMsg::new(1, "a".to_string(), None, 0), 20);
    d.insert(ValqMsg::new(4, "d".to_string(), None, 0), 30);
    let ready = d.ready_at(20);
    let ids: Vec<(u64, u64)> = ready.iter().map(|(s, m)| (*s, *m.id())).collect();
    assert_eq!(ids, vec![(10, 2), (20, 1), (20, 3)]);
    assert_eq!(d.len(), 4);
}

#[test]
fn removing_unknown_message_changes_nothing() {
    let mut d = DelayedMsgs::new();
    d.insert(ValqMsg::new(1, "a".to_string(), None, 0), 10);
    d.remove(&ValqMsg::new(2, "b".to_string(), None, 0));
    assert_eq!(d.len(), 1);
}
