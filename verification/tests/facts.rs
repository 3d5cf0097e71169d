use gooir::capability::id_json;
use gooir::fact::{fact_json, Fact};
use gooir::identity::{ExactId, FactIdentityError};
use gooir::json::{JsonMember, JsonValue};

fn member(key: &str, value: JsonValue) -> JsonMember {
    JsonMember { key: key.to_owned(), value }
}

fn body(text: &str) -> JsonValue {
    JsonValue::Object(vec![member("body", JsonValue::String(text.to_owned()))])
}

fn field<'a>(value: &'a JsonValue, key: &str) -> Option<&'a JsonValue> {
    match value {
        JsonValue::Object(members) => members.iter().find(|m| m.key == key).map(|m| &m.value),
        _ => None,
    }
}

#[test]
fn fact_type_is_a_wire_compatible_value_kind() {
    let value_kind = ExactId::new("org.gooi.conversation", "message", "1.0.0");
    assert_eq!(value_kind.render(), "org.gooi.conversation/message@1.0.0");
    assert_eq!(
        id_json(&value_kind),
        JsonValue::Object(vec![
            member("package", JsonValue::String("org.gooi.conversation".to_owned())),
            member("name", JsonValue::String("message".to_owned())),
            member("version", JsonValue::String("1.0.0".to_owned())),
        ])
    );
}

#[test]
fn semantic_fact_identity_is_exact_and_content_sensitive() {
    let kind = ExactId::new("org.gooi.conversation", "message", "1.0.0");
    let first = Fact::new(kind.clone(), body("hello")).unwrap();
    let replay = Fact::new(kind.clone(), body("hello")).unwrap();
    let changed_payload = Fact::new(kind, body("goodbye")).unwrap();
    let changed_kind = Fact::new(ExactId::new("org.gooi.conversation", "notice", "1.0.0"), body("hello")).unwrap();

    assert_eq!(first.id, replay.id);
    assert_ne!(first.id, changed_payload.id);
    assert_ne!(first.id, changed_kind.id);
    assert!(first.id.as_str().starts_with("sha256:"));
    first.validate().unwrap();
}

#[test]
fn unknown_semantic_extensions_round_trip_and_change_fact_identity() {
    let kind = ExactId::new("org.gooi.conversation", "message", "1.0.0");
    let plain = Fact::new(kind.clone(), body("hello")).unwrap();
    let retention = JsonValue::Object(vec![member("days", JsonValue::Number("30".to_owned()))]);
    let extended = Fact::with_extensions(
        kind,
        body("hello"),
        vec![
            member("org.example.future/labels", JsonValue::Array(vec![JsonValue::String("reviewed".to_owned())])),
            member("org.example.future/retention", retention.clone()),
        ],
    )
    .unwrap();

    assert_ne!(plain.id, extended.id);
    let encoded = fact_json(&extended);
    assert_eq!(field(&encoded, "org.example.future/retention"), Some(&retention));
    extended.validate().unwrap();

    let mut tampered = extended;
    tampered.extensions[0].value = JsonValue::Array(vec![JsonValue::String("changed".to_owned())]);
    assert!(matches!(tampered.validate(), Err(FactIdentityError::IdentityMismatch { .. })));
}
