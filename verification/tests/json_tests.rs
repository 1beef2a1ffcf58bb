use codex_manager_core::json::{clone_json, json_text_of, read_json, JsonNumber, JsonValue};

#[test]
fn compact_json_text() {
    let v = JsonValue::Object(vec![
        (
            "a".to_string(),
            JsonValue::Array(vec![
                JsonValue::Null,
                JsonValue::Bool(false),
                JsonValue::Number(JsonNumber {
                    as_u64: None,
                    as_i64: Some(-1),
                    text: "-1".to_string(),
                }),
            ]),
        ),
        ("b\n".to_string(), JsonValue::String("é\"".to_string())),
    ]);
    let text: String = json_text_of(&v).into_iter().collect();
    assert_eq!(text, "{\"a\":[null,false,-1],\"b\\n\":\"é\\\"\"}");
    let copy: String = json_text_of(&clone_json(&v)).into_iter().collect();
    assert_eq!(copy, text);
    assert_eq!(v.get("a").and_then(|x| x.as_array()).map(|a| a.len()), Some(3));
    assert!(v.get("zz").is_none());
}

#[test]
fn reads_json_text() {
    match read_json("{\"a\": [true, null, \"x\"]}") {
        Some(JsonValue::Object(members)) => {
            assert_eq!(members.len(), 1);
            assert_eq!(members[0].0, "a");
            assert!(matches!(&members[0].1, JsonValue::Array(items) if items.len() == 3));
        }
        _ => panic!("expected an object"),
    }
    assert!(read_json("{broken").is_none());
}
