use gooir::attester::{implementation_id, AttesterError, ASSESSMENT_REQUEST_PROTOCOL};
use gooir::authority::{
    derive_assessment_outcome, expected_candidate_verdict, expected_observation_verdict, same_verdict_kind,
    validate_extensions, AdmissionDenial, AssessmentOutcome, AuthorityError, VerdictKind,
};
use gooir::digest::{canonical_form, json_content_id, sha256_identity};
use gooir::identity::{is_sha256_identity, ExactId, FactId, FactIdentityError, PortName};
use gooir::json::{JsonMember, JsonValue};
use gooir::protocol::{
    placeholder_sha256, validate_content_id, validate_exact_id, validate_named_port_sequence, validate_protocol,
    ProtocolError, Sha256Digest,
};

fn ports(names: &[&str]) -> Vec<PortName> {
    names.iter().map(|name| PortName::parse((*name).to_owned()).unwrap()).collect()
}

#[test]
fn exact_identities_render_and_parse_back() {
    let id = ExactId::new("org.gooi.conversation", "message", "1.0.0");
    assert_eq!(id.render(), "org.gooi.conversation/message@1.0.0");
    let parsed = ExactId::parse("org.gooi.conversation/message@1.0.0").unwrap();
    assert!(parsed.same_as(&id));
    assert!(ExactId::parse("no-slash@1").is_none());
    assert!(ExactId::parse("a/b").is_none());
    assert!(ExactId::parse("a/b@").is_none());
    assert!(!ExactId::new("test/nested", "output", "1").is_well_formed());
    assert!(!ExactId::new("test", "1.0.0", "1").same_as(&ExactId::new("test", "1.0.0", "2")));
}

#[test]
fn sha256_identities_are_lowercase_and_exact_length() {
    assert_eq!(
        sha256_identity(b""),
        "sha256:e3b0c44298fc1c149afbf4c8996fb92427ae41e4649b934ca495991b7852b855"
    );
    assert_eq!(
        sha256_identity(b"abc"),
        "sha256:ba7816bf8f01cfea414140de5dae2223b00361a396177a9cb410ff61f20015ad"
    );
    assert!(is_sha256_identity(&format!("sha256:{}", "a".repeat(64))));
    assert!(!is_sha256_identity(&format!("sha256:{}", "A".repeat(64))));
    assert!(!is_sha256_identity(&format!("sha256:{}", "a".repeat(63))));
    assert!(FactId::parse(format!("sha256:{}", "0".repeat(64))).is_ok());
    assert!(matches!(FactId::parse("sha256:xyz".to_owned()), Err(FactIdentityError::Malformed(v)) if v == "sha256:xyz"));
    assert_eq!(placeholder_sha256().as_str(), format!("sha256:{}", "0".repeat(64)));
    assert!(Sha256Digest::parse("sha1:abc".to_owned()).is_err());
}

#[test]
fn canonical_forms_sort_keys_and_identify_content() {
    let value = JsonValue::Object(vec![
        JsonMember { key: "z".to_owned(), value: JsonValue::Bool(false) },
        JsonMember { key: "a".to_owned(), value: JsonValue::Array(vec![JsonValue::Number("1.50".to_owned())]) },
    ]);
    assert_eq!(canonical_form(&value).unwrap(), r#"{"a":[1.5],"z":false}"#);
    assert_eq!(json_content_id(&value).unwrap(), sha256_identity(br#"{"a":[1.5],"z":false}"#));
}

#[test]
fn protocol_and_identity_mismatches_name_both_sides() {
    assert!(validate_protocol("org.gooi/v1", "org.gooi/v1").is_ok());
    assert!(matches!(
        validate_protocol("org.gooi/v1", "org.gooi/v2"),
        Err(ProtocolError::ProtocolMismatch { expected, actual }) if expected == "org.gooi/v1" && actual == "org.gooi/v2"
    ));
    assert!(matches!(
        validate_content_id("offer", "sha256:a", "sha256:b"),
        Err(ProtocolError::ContentIdentityMismatch { document, expected, actual })
            if document == "offer" && expected == "sha256:b" && actual == "sha256:a"
    ));
    assert!(matches!(
        validate_exact_id("capability", &ExactId::new("a", "b@c", "1")),
        Err(ProtocolError::InvalidIdentity { field, value }) if field == "capability" && value == "a/b@c@1"
    ));
}

#[test]
fn named_port_sequences_must_match_exactly() {
    let expected = ports(&["left", "right"]);
    assert!(validate_named_port_sequence("input", &expected, &ports(&["left", "right"])).is_ok());
    assert!(matches!(
        validate_named_port_sequence("input", &expected, &ports(&["left", "left"])),
        Err(ProtocolError::DuplicatePort { direction, port }) if direction == "input" && port.as_str() == "left"
    ));
    assert!(matches!(
        validate_named_port_sequence("input", &expected, &ports(&["left"])),
        Err(ProtocolError::PortSetMismatch { .. })
    ));
    assert!(matches!(
        validate_named_port_sequence("output", &expected, &ports(&["right", "left"])),
        Err(ProtocolError::PortOrderMismatch { .. })
    ));
}

#[test]
fn the_worst_check_decides_the_assessment() {
    let checks = |outcomes: &[(&str, AssessmentOutcome)]| -> Vec<(String, AssessmentOutcome)> {
        outcomes.iter().map(|(name, outcome)| ((*name).to_owned(), *outcome)).collect()
    };
    assert!(matches!(derive_assessment_outcome(&Vec::new()), Err(AuthorityError::EmptyAssessmentChecks)));
    assert_eq!(
        derive_assessment_outcome(&checks(&[("a", AssessmentOutcome::Passed), ("b", AssessmentOutcome::Passed)]))
            .unwrap(),
        AssessmentOutcome::Passed
    );
    assert_eq!(
        derive_assessment_outcome(&checks(&[
            ("a", AssessmentOutcome::Indeterminate),
            ("b", AssessmentOutcome::Failed),
        ]))
        .unwrap(),
        AssessmentOutcome::Failed
    );
    assert_eq!(
        derive_assessment_outcome(&checks(&[("a", AssessmentOutcome::Passed), ("b", AssessmentOutcome::Indeterminate)]))
            .unwrap(),
        AssessmentOutcome::Indeterminate
    );
    assert!(matches!(
        derive_assessment_outcome(&checks(&[("ok", AssessmentOutcome::Passed), (" padded", AssessmentOutcome::Passed)])),
        Err(AuthorityError::InvalidCheckName(name)) if name == " padded"
    ));
}

#[test]
fn verdicts_admit_only_passed_assessments_from_accepted_authorities() {
    assert_eq!(expected_candidate_verdict(AssessmentOutcome::Passed, true), VerdictKind::Admit);
    assert_eq!(
        expected_candidate_verdict(AssessmentOutcome::Passed, false),
        VerdictKind::Withhold(AdmissionDenial::AuthorityNotAccepted)
    );
    assert_eq!(
        expected_candidate_verdict(AssessmentOutcome::Failed, true),
        VerdictKind::Withhold(AdmissionDenial::AssessmentFailed)
    );
    assert_eq!(
        expected_candidate_verdict(AssessmentOutcome::Indeterminate, true),
        VerdictKind::Withhold(AdmissionDenial::AssessmentIndeterminate)
    );
    assert_eq!(expected_observation_verdict(true), VerdictKind::Admit);
    assert!(same_verdict_kind(
        VerdictKind::Withhold(AdmissionDenial::AssessmentFailed),
        VerdictKind::Withhold(AdmissionDenial::AssessmentFailed)
    ));
    assert!(!same_verdict_kind(VerdictKind::Admit, expected_observation_verdict(false)));
}

#[test]
fn extensions_may_not_shadow_known_fields() {
    let extensions = vec![
        JsonMember { key: "org.example/future".to_owned(), value: JsonValue::Null },
        JsonMember { key: "protocol".to_owned(), value: JsonValue::Null },
    ];
    assert!(matches!(
        validate_extensions("record", &extensions, &["protocol", "body"]),
        Err(AuthorityError::ReservedExtension { scope, key }) if scope == "record" && key == "protocol"
    ));
    assert!(validate_extensions("record", &extensions[..1].iter().map(|m| JsonMember {
        key: m.key.clone(),
        value: JsonValue::Null,
    }).collect(), &["protocol"]).is_ok());
}

#[test]
fn the_oracle_attester_has_its_own_identity_and_messages() {
    assert_eq!(implementation_id().render(), "org.gooi.attester/author_data_model_tasks_entities_oracle@1.1.0");
    assert_eq!(
        AttesterError::RequestProtocolMismatch { actual: "x/v0".to_owned() }.message().unwrap(),
        format!("unsupported assessment request protocol x/v0; expected {ASSESSMENT_REQUEST_PROTOCOL}")
    );
    assert!(AttesterError::Authority(AuthorityError::EmptyAssessmentChecks).message().is_none());
}
