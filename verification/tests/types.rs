use drawio_parser::types::{get_attr, ObjectAttributes};

#[test]
fn object_lookup() {
    let o = ObjectAttributes {
        entries: vec![
            ("id".to_string(), "2".to_string()),
            ("type".to_string(), "sensor".to_string()),
            ("type".to_string(), "actor".to_string()),
        ],
    };
    assert_eq!(o.get("id").map(|s| s.as_str()), Some("2"));
    assert_eq!(o.get("type").map(|s| s.as_str()), Some("actor"));
    assert_eq!(o.get("label"), None);
    let some = Some(o);
    assert_eq!(get_attr(&some, "id").map(|s| s.as_str()), Some("2"));
    assert_eq!(get_attr(&None, "id"), None);
}
