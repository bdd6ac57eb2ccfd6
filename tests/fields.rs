use wrecv::fields::{FieldName, FieldValue, HeaderFields};

fn text(s: &str) -> FieldValue {
    FieldValue::from_text(s)
}

#[test]
fn test_header_fields() {
    let mut fields = HeaderFields::new();

    assert!(fields.is_empty());
    assert_eq!(fields.len(), 0);

    fields.append("k1", text("v1"));
    fields.append("k1", text("v1-1"));
    fields.append("k2", text("v2"));

    assert!(!fields.is_empty());
    assert_eq!(fields.len(), 3);

    assert_eq!(
        fields.iter().collect::<Vec<&(FieldName, FieldValue)>>(),
        vec![
            &(FieldName::new("k1"), text("v1")),
            &(FieldName::new("k1"), text("v1-1")),
            &(FieldName::new("k2"), text("v2")),
        ]
    );

    assert!(fields.contains_key("k1"));
    assert!(fields.contains_key("K1"));
    assert!(fields.contains_key("k2"));
    assert!(fields.contains_key("K2"));
    assert!(!fields.contains_key("k3"));

    assert_eq!(fields.get("k1"), Some(&text("v1")));
    assert_eq!(fields.get_all("k1"), vec![&text("v1"), &text("v1-1")]);

    fields.insert("k1", text("v1-2"));
    assert_eq!(fields.len(), 2);
    assert_eq!(fields.get("k1"), Some(&text("v1-2")));

    fields.remove("k1");
    assert_eq!(fields.len(), 1);

    fields.clear();
    assert!(fields.is_empty());
}

#[test]
fn lookup_ignores_ascii_case() {
    let mut fields = HeaderFields::new();
    fields.append("Host", text("example.com"));
    assert_eq!(fields.get("Host"), fields.get("host"));
    assert_eq!(fields.get("HOST"), Some(&text("example.com")));
    assert_eq!(fields.get("hosts"), None);
}

#[test]
fn insert_keeps_first_position_and_one_value() {
    let mut fields = HeaderFields::new();
    fields.append("a", text("1"));
    fields.append("X-Key", text("2"));
    fields.append("b", text("3"));
    fields.append("x-key", text("4"));
    fields.insert("X-KEY", text("5"));
    assert_eq!(fields.len(), 3);
    let names: Vec<&str> = fields.as_slice().iter().map(|(n, _)| n.as_str()).collect();
    assert_eq!(names, vec!["a", "X-KEY", "b"]);
    assert_eq!(fields.get_all("x-key"), vec![&text("5")]);
}

#[test]
fn insert_without_match_appends() {
    let mut fields = HeaderFields::new();
    fields.append("a", text("1"));
    fields.insert("b", text("2"));
    assert_eq!(fields.len(), 2);
    assert_eq!(fields.as_slice()[1].0.as_str(), "b");
}

#[test]
fn append_never_lowers_count() {
    let mut fields = HeaderFields::new();
    fields.append("k", text("1"));
    fields.append("K", text("2"));
    assert_eq!(fields.get_all("k").len(), 2);
    fields.append("other", text("3"));
    assert_eq!(fields.get_all("k").len(), 2);
}

#[test]
fn field_name_keeps_case_and_normalizes() {
    let name = FieldName::new("Content-Type");
    assert_eq!(name.as_str(), "Content-Type");
    assert_eq!(name.normalized(), "content-type");
    assert_eq!(name, FieldName::new("CONTENT-type"));
    assert_eq!(name.clone().into_inner(), "Content-Type".to_string());
}

#[test]
fn field_value_prefers_text() {
    let v = FieldValue::from_bytes(b"abc");
    assert!(v.is_text());
    assert_eq!(v.as_bytes(), b"abc");
    let o = FieldValue::from_bytes(b"a\xFFc");
    assert!(o.is_opaque());
    assert_eq!(o.as_bytes(), b"a\xFFc");
    assert_eq!(o.to_string_lossy(), "a\u{FFFD}\u{E01EF}c");
    assert_eq!(FieldValue::from_vec(vec![0xC3, 0xA9]), text("\u{e9}"));
}

#[test]
fn header_fields_clone_and_default() {
    let mut fields = HeaderFields::default();
    assert!(fields.is_empty());
    fields.append("A", FieldValue::Opaque(vec![0xFF]));
    fields.append("b", text("2"));
    let copy = fields.clone();
    assert_eq!(copy.as_slice(), fields.as_slice());
    fields.clear();
    assert_eq!(copy.len(), 2);
}
