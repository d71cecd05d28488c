use aggregate_repository::document::{Document, Value};

fn text(s: &str) -> Value {
    Value::Text(s.to_string())
}

#[test]
fn new_document_is_empty() {
    let d = Document::new();
    assert_eq!(0, d.len());
    assert_eq!(None, d.get("id"));
    assert_eq!(None, d.entry(0));
}

#[test]
fn insert_adds_fields_in_order() {
    let mut d = Document::new();
    d.insert("name".to_string(), text("Sean"));
    d.insert("age".to_string(), Value::Int32(125));
    d.insert("tags".to_string(), Value::Array(vec![text("a"), Value::Null]));
    assert_eq!(3, d.len());
    assert_eq!(Some((&"name".to_string(), &text("Sean"))), d.entry(0));
    assert_eq!(Some((&"age".to_string(), &Value::Int32(125))), d.entry(1));
    assert_eq!(
        Some((
            &"tags".to_string(),
            &Value::Array(vec![text("a"), Value::Null])
        )),
        d.entry(2)
    );
    assert_eq!(None, d.entry(3));
}

#[test]
fn insert_replaces_in_place() {
    let mut d = Document::new();
    d.insert("name".to_string(), text("Sean"));
    d.insert("age".to_string(), Value::Int32(125));
    d.insert("name".to_string(), text("Shaun"));
    assert_eq!(2, d.len());
    assert_eq!(Some((&"name".to_string(), &text("Shaun"))), d.entry(0));
    assert_eq!(Some((&"age".to_string(), &Value::Int32(125))), d.entry(1));
    assert_eq!(Some(&text("Shaun")), d.get("name"));
}

#[test]
fn get_finds_a_field_by_its_name() {
    let mut d = Document::new();
    d.insert("name".to_string(), text("Sean"));
    d.insert("age".to_string(), Value::Int64(125));
    assert_eq!(Some(&text("Sean")), d.get("name"));
    assert_eq!(Some(&Value::Int64(125)), d.get("age"));
    assert_eq!(None, d.get("email"));
    assert_eq!(None, d.get("Name"));
    assert_eq!(None, d.get(""));
}

#[test]
fn get_text_finds_text_only() {
    let mut d = Document::new();
    d.insert("name".to_string(), text("Sean"));
    d.insert("age".to_string(), Value::Int32(125));
    d.insert("nothing".to_string(), Value::Null);
    assert_eq!(Some(&"Sean".to_string()), d.get_text("name"));
    assert_eq!(None, d.get_text("age"));
    assert_eq!(None, d.get_text("nothing"));
    assert_eq!(None, d.get_text("email"));
}

#[test]
fn clone_holds_the_same() {
    let mut inner = Document::new();
    inner.insert("street".to_string(), text("High Street"));
    inner.insert("number".to_string(), Value::Int32(7));
    let mut d = Document::new();
    d.insert("name".to_string(), text("Sean"));
    d.insert("address".to_string(), Value::Document(inner));
    d.insert(
        "tags".to_string(),
        Value::Array(vec![
            Value::Boolean(true),
            Value::Binary(vec![1, 2, 3]),
            Value::Array(vec![Value::Int64(-1)]),
        ]),
    );
    let copy = d.clone();
    assert_eq!(d, copy);
    assert_eq!(3, copy.len());
    let value = Value::Document(d);
    assert_eq!(value, value.clone());
}

#[test]
fn documents_differ_by_order_and_content() {
    let mut a = Document::new();
    a.insert("x".to_string(), Value::Int32(1));
    a.insert("y".to_string(), Value::Int32(2));
    let mut b = Document::new();
    b.insert("y".to_string(), Value::Int32(2));
    b.insert("x".to_string(), Value::Int32(1));
    let mut c = Document::new();
    c.insert("x".to_string(), Value::Int32(1));
    c.insert("y".to_string(), Value::Int32(3));
    assert_ne!(a, b);
    assert_ne!(a, c);
}

#[test]
fn every_kind_has_its_name() {
    assert_eq!("null", Value::Null.kind());
    assert_eq!("boolean", Value::Boolean(false).kind());
    assert_eq!("int32", Value::Int32(0).kind());
    assert_eq!("int64", Value::Int64(0).kind());
    assert_eq!("string", text("").kind());
    assert_eq!("binary", Value::Binary(vec![]).kind());
    assert_eq!("array", Value::Array(vec![]).kind());
    assert_eq!("document", Value::Document(Document::new()).kind());
}
