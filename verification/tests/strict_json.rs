use gooir::json::{from_slice, from_str, json_equal, normalize_json, to_text, JsonMember, JsonValue, StrictJsonError};

fn member<'a>(value: &'a JsonValue, key: &str) -> &'a JsonValue {
    match value {
        JsonValue::Object(members) => &members.iter().find(|m| m.key == key).unwrap().value,
        other => panic!("not an object: {other:?}"),
    }
}

fn number(text: &str) -> JsonValue {
    JsonValue::Number(text.to_owned())
}

#[test]
fn recursively_rejects_duplicates_before_typed_decoding() {
    let error = from_str(r#"{"extensions":{"nested":{"same":1,"same":2}}}"#).unwrap_err();
    assert_eq!(error, StrictJsonError::DuplicateObjectKey("same".to_owned()));
}

#[test]
fn preserves_unknown_extension_values() {
    let decoded = from_slice(br#"{"extensions":{"unknown":{"ordered":[1,2,3]}}}"#).unwrap();
    let expected = JsonValue::Object(vec![JsonMember {
        key: "ordered".to_owned(),
        value: JsonValue::Array(vec![number("1"), number("2"), number("3")]),
    }]);
    assert_eq!(member(member(&decoded, "extensions"), "unknown"), &expected);
}

#[test]
fn a_duplicate_is_reported_before_a_later_syntax_error() {
    let error = from_str(r#"{"a":1,"a":2,"#).unwrap_err();
    assert_eq!(error, StrictJsonError::DuplicateObjectKey("a".to_owned()));
}

#[test]
fn malformed_documents_are_invalid() {
    for text in ["", "{", "[1,]", "{\"a\" 1}", "01", "1.", "-", "\"\\x\"", "[1] 2", "tru", "{\"a\":1,}"] {
        assert!(matches!(from_str(text), Err(StrictJsonError::Invalid(_))), "{text}");
    }
}

#[test]
fn bytes_that_are_not_utf8_are_invalid() {
    assert!(matches!(from_slice(&[0x22, 0xff, 0x22]), Err(StrictJsonError::Invalid(_))));
}

#[test]
fn scalars_and_escapes_decode() {
    assert_eq!(from_str(" null ").unwrap(), JsonValue::Null);
    assert_eq!(from_str("true").unwrap(), JsonValue::Bool(true));
    assert_eq!(from_str("-1.5e+3").unwrap(), number("-1.5e+3"));
    assert_eq!(
        from_str(r#""a\"\\\/\b\f\n\r\t\u0041""#).unwrap(),
        JsonValue::String("a\"\\/\u{8}\u{c}\n\r\tA".to_owned())
    );
}

#[test]
fn rendering_is_compact_and_escapes_controls() {
    let value = from_str(r#"{ "b" : [ 1 , "x\ny" ], "a" : { } }"#).unwrap();
    assert_eq!(to_text(&value), r#"{"b":[1,"x\ny"],"a":{}}"#);
    let control = JsonValue::String("\u{1}".to_owned());
    assert_eq!(to_text(&control), "\"\\u0001\"");
}

#[test]
fn normalization_sorts_keys_and_keeps_the_last_value() {
    let value = JsonValue::Object(vec![
        JsonMember { key: "b".to_owned(), value: number("1") },
        JsonMember { key: "a".to_owned(), value: number("2") },
        JsonMember { key: "b".to_owned(), value: number("3") },
    ]);
    assert_eq!(to_text(&normalize_json(&value)), r#"{"a":2,"b":3}"#);
}

#[test]
fn structural_equality_distinguishes_member_order() {
    let left = from_str(r#"{"a":1,"b":2}"#).unwrap();
    let right = from_str(r#"{"b":2,"a":1}"#).unwrap();
    assert!(json_equal(&left, &left));
    assert!(!json_equal(&left, &right));
    assert!(json_equal(&normalize_json(&left), &normalize_json(&right)));
}
