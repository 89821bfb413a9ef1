use sentinel::json::{as_text, get_member, read_json, JsonValue};

#[test]
fn json_documents_are_read_variant_for_variant() {
    let doc = read_json(br#"{"a": [1, 2.5, true, null], "b": "x"}"#).expect("valid JSON");
    match &doc {
        JsonValue::Object(fields) => {
            assert_eq!(fields.len(), 2);
            assert_eq!(fields[0].0, "a");
            match &fields[0].1 {
                JsonValue::Array(items) => {
                    assert_eq!(items.len(), 4);
                    assert!(matches!(&items[0], JsonValue::Number(n) if n == "1"));
                    assert!(matches!(&items[1], JsonValue::Number(n) if n == "2.5"));
                    assert!(matches!(&items[2], JsonValue::Bool(true)));
                    assert!(matches!(&items[3], JsonValue::Null));
                }
                other => panic!("expected an array, got {:?}", other),
            }
            assert!(matches!(&fields[1].1, JsonValue::Str(s) if s == "x"));
        }
        other => panic!("expected an object, got {:?}", other),
    }
}

#[test]
fn malformed_json_is_not_read() {
    assert!(read_json(b"{").is_none());
    assert!(read_json(b"[1, 2] 3").is_none());
    assert!(read_json(b"").is_none());
}

#[test]
fn members_are_found_by_name() {
    let doc = read_json(br#"{"model": "M", "serial": 7}"#).expect("valid JSON");
    assert_eq!(as_text(get_member(&doc, "model")), Some("M".to_string()));
    assert!(get_member(&doc, "serial").is_some());
    assert_eq!(as_text(get_member(&doc, "serial")), None);
    assert!(get_member(&doc, "size").is_none());
    let list = read_json(b"[1]").expect("valid JSON");
    assert!(get_member(&list, "model").is_none());
    assert_eq!(as_text(None), None);
}
