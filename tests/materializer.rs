use aquadoggo::materializer::{
    message_and_date, Field, FieldValue, MaterializeError, Materializer, Message, MessageAction,
};

fn text(name: &str, value: &str) -> Field {
    Field { name: name.to_string(), value: FieldValue::Text(value.to_string()) }
}

fn message(action: MessageAction, id: Option<Vec<u8>>, value: &str) -> Message {
    Message {
        action,
        schema: vec![1, 2, 3],
        id,
        fields: vec![text("message", value), text("date", "2021-05-01")],
    }
}

fn message_text(m: &Materializer, id: &Vec<u8>) -> Option<String> {
    let row = m.read(&vec![1, 2, 3], id)?;
    match &row.fields[0].value {
        FieldValue::Text(t) => Some(t.clone()),
        _ => None,
    }
}

const AUTHOR: [u8; 4] = [9, 9, 9, 9];

#[test]
fn create_then_update_converges() {
    let mut m = Materializer::new(message_and_date());
    let id = vec![7u8; 34];
    m.materialize(&id, 1, &AUTHOR.to_vec(), message(MessageAction::Create, None, "hello")).unwrap();
    assert_eq!(message_text(&m, &id), Some("hello".to_string()));
    m.materialize(&vec![8u8; 34], 2, &AUTHOR.to_vec(), message(MessageAction::Update, Some(id.clone()), "updated"))
        .unwrap();
    assert_eq!(m.rows.len(), 1);
    assert_eq!(message_text(&m, &id), Some("updated".to_string()));
    assert_eq!(m.read(&vec![1, 2, 3], &id).unwrap().seq_num, 2);
}

#[test]
fn reapplied_update_changes_nothing() {
    let mut m = Materializer::new(message_and_date());
    let id = vec![7u8; 34];
    m.materialize(&id, 1, &AUTHOR.to_vec(), message(MessageAction::Create, None, "hello")).unwrap();
    m.materialize(&vec![8u8; 34], 2, &AUTHOR.to_vec(), message(MessageAction::Update, Some(id.clone()), "updated"))
        .unwrap();
    m.materialize(&vec![8u8; 34], 2, &AUTHOR.to_vec(), message(MessageAction::Update, Some(id.clone()), "again"))
        .unwrap();
    assert_eq!(m.rows.len(), 1);
    assert_eq!(message_text(&m, &id), Some("updated".to_string()));
    assert_eq!(m.rows[0].seq_num, 2);
}

#[test]
fn stale_update_is_ignored() {
    let mut m = Materializer::new(message_and_date());
    let id = vec![7u8; 34];
    m.materialize(&id, 1, &AUTHOR.to_vec(), message(MessageAction::Create, None, "hello")).unwrap();
    m.materialize(&vec![8u8; 34], 5, &AUTHOR.to_vec(), message(MessageAction::Update, Some(id.clone()), "fifth"))
        .unwrap();
    m.materialize(&vec![6u8; 34], 3, &AUTHOR.to_vec(), message(MessageAction::Update, Some(id.clone()), "third"))
        .unwrap();
    assert_eq!(message_text(&m, &id), Some("fifth".to_string()));
    assert_eq!(m.rows[0].seq_num, 5);
}

#[test]
fn delete_hides_the_row() {
    let mut m = Materializer::new(message_and_date());
    let id = vec![7u8; 34];
    m.materialize(&id, 1, &AUTHOR.to_vec(), message(MessageAction::Create, None, "hello")).unwrap();
    let delete = Message { action: MessageAction::Delete, schema: vec![1, 2, 3], id: Some(id.clone()), fields: vec![] };
    m.materialize(&vec![5u8; 34], 2, &AUTHOR.to_vec(), delete).unwrap();
    assert!(m.read(&vec![1, 2, 3], &id).is_none());
    assert_eq!(m.rows.len(), 1);
    assert!(m.rows[0].deleted);
    m.materialize(&vec![8u8; 34], 3, &AUTHOR.to_vec(), message(MessageAction::Update, Some(id.clone()), "late"))
        .unwrap();
    assert!(m.read(&vec![1, 2, 3], &id).is_none());
}

#[test]
fn schemas_are_kept_apart() {
    let mut m = Materializer::new(message_and_date());
    let id = vec![7u8; 34];
    m.materialize(&id, 1, &AUTHOR.to_vec(), message(MessageAction::Create, None, "one")).unwrap();
    let mut other = message(MessageAction::Create, None, "two");
    other.schema = vec![4, 5, 6];
    m.materialize(&id, 1, &AUTHOR.to_vec(), other).unwrap();
    assert_eq!(m.rows.len(), 2);
    assert_eq!(message_text(&m, &id), Some("one".to_string()));
}

#[test]
fn refused_events() {
    let mut m = Materializer::new(message_and_date());
    let id = vec![7u8; 34];
    assert_eq!(
        m.materialize(&id, 2, &AUTHOR.to_vec(), message(MessageAction::Update, Some(id.clone()), "x")).err(),
        Some(MaterializeError::RowMissing)
    );
    assert_eq!(
        m.materialize(&id, 1, &AUTHOR.to_vec(), message(MessageAction::Create, Some(id.clone()), "x")).err(),
        Some(MaterializeError::InvalidMessage)
    );
    assert_eq!(
        m.materialize(&id, 2, &AUTHOR.to_vec(), message(MessageAction::Delete, None, "x")).err(),
        Some(MaterializeError::InvalidMessage)
    );
    let empty = Message { action: MessageAction::Create, schema: vec![1, 2, 3], id: None, fields: vec![] };
    assert_eq!(
        m.materialize(&id, 1, &AUTHOR.to_vec(), empty).err(),
        Some(MaterializeError::SchemaValidationFailure)
    );
    assert_eq!(m.rows.len(), 0);
}

#[test]
fn missing_or_mistyped_fields_are_refused() {
    let mut m = Materializer::new(message_and_date());
    let id = vec![7u8; 34];
    let only_integer = Message {
        action: MessageAction::Create,
        schema: vec![1, 2, 3],
        id: None,
        fields: vec![Field { name: "count".to_string(), value: FieldValue::Integer(3) }],
    };
    assert_eq!(
        m.materialize(&id, 1, &AUTHOR.to_vec(), only_integer).err(),
        Some(MaterializeError::SchemaValidationFailure)
    );
    let mistyped = Message {
        action: MessageAction::Create,
        schema: vec![1, 2, 3],
        id: None,
        fields: vec![text("message", "hello"), Field { name: "date".to_string(), value: FieldValue::Boolean(true) }],
    };
    assert_eq!(
        m.materialize(&id, 1, &AUTHOR.to_vec(), mistyped).err(),
        Some(MaterializeError::SchemaValidationFailure)
    );
    assert_eq!(m.rows.len(), 0);

    m.materialize(&id, 1, &AUTHOR.to_vec(), message(MessageAction::Create, None, "hello")).unwrap();
    let without_date = Message {
        action: MessageAction::Update,
        schema: vec![1, 2, 3],
        id: Some(id.clone()),
        fields: vec![text("message", "changed")],
    };
    assert_eq!(
        m.materialize(&vec![8u8; 34], 2, &AUTHOR.to_vec(), without_date).err(),
        Some(MaterializeError::SchemaValidationFailure)
    );
    assert_eq!(message_text(&m, &id), Some("hello".to_string()));
    assert_eq!(m.rows[0].seq_num, 1);
}
