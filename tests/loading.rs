use valq::loader::QueueLoader;
use valq::record::{Field, FieldKind};
use valq::valq_msg::ValqMsg;
use valq::valq_type::ValqType;

fn kind(f: &Field) -> FieldKind {
    match f {
        Field::Unsigned(_) => FieldKind::Unsigned,
        Field::Text(_) => FieldKind::Text,
    }
}

fn load(fields: &[Field]) -> (QueueLoader, usize) {
    let mut loader = QueueLoader::new();
    let mut used = 0;
    while let Some(k) = loader.next_kind() {
        if used == fields.len() {
            break;
        }
        assert_eq!(k, kind(&fields[used]));
        loader.feed(match &fields[used] {
            Field::Unsigned(v) => Field::Unsigned(*v),
            Field::Text(s) => Field::Text(s.clone()),
        });
        used += 1;
    }
    (loader, used)
}

#[test]
fn loader_asks_for_each_stored_value_in_turn() {
    let mut q = ValqType::new("jobs", None, None, None).unwrap();
    q.push_at("a".to_string(), 0, 10);
    q.push_at("b".to_string(), 5, 10);
    q.dlq_msgs_mut().push_back(ValqMsg::new(9, "x".to_string(), Some(3), 5));
    q.pop_at(10);
    let fields = q.to_fields();
    let (loader, used) = load(&fields);
    assert_eq!(used, fields.len());
    assert_eq!(loader.next_kind(), None);
    let back = loader.finish().unwrap();
    assert_eq!(back.to_fields(), fields);
}

#[test]
fn loader_of_empty_queue_stops_after_header_and_counts() {
    let q = ValqType::new("empty", None, None, None).unwrap();
    let fields = q.to_fields();
    assert_eq!(fields.len(), 8);
    let (loader, used) = load(&fields);
    assert_eq!(used, 8);
    assert_eq!(loader.next_kind(), None);
    assert!(loader.finish().is_some());
}

#[test]
fn loader_stops_on_a_value_of_the_wrong_kind() {
    let mut loader = QueueLoader::new();
    assert_eq!(loader.next_kind(), Some(FieldKind::Text));
    loader.feed(Field::Unsigned(1));
    assert_eq!(loader.next_kind(), None);
    assert!(loader.finish().is_none());
}
