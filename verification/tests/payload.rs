use vevtor::{Payload, PayloadValue};

fn text(s: &str) -> PayloadValue {
    PayloadValue::Text(s.to_string())
}

#[test]
fn new_payload_has_no_fields() {
    let payload = Payload::new();
    assert!(payload.entries().is_empty());
    assert!(payload.get("name").is_none());
}

#[test]
fn insert_then_get() {
    let mut payload = Payload::new();
    payload.insert("name".to_string(), text("a.txt"));
    payload.insert("size".to_string(), PayloadValue::Integer(42));
    assert_eq!(payload.get("name"), Some(&text("a.txt")));
    assert_eq!(payload.get("size"), Some(&PayloadValue::Integer(42)));
    assert_eq!(payload.get("other"), None);
    assert_eq!(payload.entries().len(), 2);
}

#[test]
fn insert_replaces_the_value_of_a_field() {
    let mut payload = Payload::new();
    payload.insert("name".to_string(), text("old"));
    payload.insert("kind".to_string(), PayloadValue::Bool(true));
    payload.insert("name".to_string(), text("new"));
    assert_eq!(payload.get("name"), Some(&text("new")));
    assert_eq!(payload.get("kind"), Some(&PayloadValue::Bool(true)));
    assert_eq!(payload.entries().len(), 2);
    let mut names: Vec<&str> = payload.entries().iter().map(|entry| entry.0.as_str()).collect();
    names.sort();
    assert_eq!(names, vec!["kind", "name"]);
}

#[test]
fn field_names_are_matched_exactly() {
    let mut payload = Payload::new();
    payload.insert("Name".to_string(), text("x"));
    assert!(payload.get("name").is_none());
    assert!(payload.get("Name ").is_none());
    assert!(payload.get("Name").is_some());
}

#[test]
fn only_text_values_are_text() {
    assert_eq!(text("hello").as_str(), Some("hello"));
    assert_eq!(text("").as_str(), Some(""));
    assert_eq!(PayloadValue::Null.as_str(), None);
    assert_eq!(PayloadValue::Bool(false).as_str(), None);
    assert_eq!(PayloadValue::Integer(7).as_str(), None);
    assert_eq!(PayloadValue::Double(1.5f64.to_bits()).as_str(), None);
    assert_eq!(PayloadValue::List(vec![text("a")]).as_str(), None);
    assert_eq!(
        PayloadValue::Struct(vec![("k".to_string(), text("v"))]).as_str(),
        None
    );
}
