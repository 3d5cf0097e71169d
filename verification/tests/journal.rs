use gooir::checkpoint::{
    creation, published, publication_bytes, replacement, stored_checkpoint, AttemptCheckpoint, AttemptInputs,
    AttemptResolution, UnboundAttemptInputs,
};
use gooir::digest::{canonical_bytes, sha256_identity};
use gooir::journal::{
    phase_name_exec, recovery_action_for, validate_opaque_id, validate_transition, AttemptPhase, DeploymentLock,
    ExactJson, JournalError, RecoveryAction, CHECKPOINT_PROTOCOL,
};
use gooir::json::{JsonMember, JsonValue};

fn digest(byte: u8) -> String {
    format!("sha256:{}", format!("{byte:02x}").repeat(32))
}

fn one(key: &str, value: JsonValue) -> JsonValue {
    JsonValue::Object(vec![JsonMember { key: key.to_owned(), value }])
}

fn exact(label: &str) -> ExactJson {
    ExactJson::new(one("label", JsonValue::String(label.to_owned()))).expect("exact JSON")
}

fn deployment(name: &str, byte: u8) -> DeploymentLock {
    DeploymentLock::new(
        format!("org.gooi.implementation.{name}@1.0.0"),
        format!("org.gooi.package.{name}@1.0.0"),
        digest(byte),
        format!("{name}-module"),
        digest(byte + 1),
    )
    .expect("deployment lock")
}

fn inputs() -> AttemptInputs {
    AttemptInputs::new(UnboundAttemptInputs {
        semantic_plan: exact("semantic-plan"),
        invocation: exact("invocation"),
        baseline_snapshot: exact("baseline-snapshot"),
        conformance_suite: "org.gooi.suite.example@1.0.0".to_owned(),
        provider: deployment("provider", 1),
        attester: deployment("attester", 3),
        execution_policy: exact("execution-policy"),
        admission_policy: exact("admission-policy"),
    })
    .expect("attempt inputs")
}

#[test]
fn exact_json_normalizes_harmless_numbers_and_rejects_unsafe_integers() {
    let exact = ExactJson::new(one("number", JsonValue::Number("1.0".to_owned()))).expect("normalize");
    assert_eq!(exact.value, one("number", JsonValue::Number("1".to_owned())));
    exact.validate().expect("normal form validates");

    assert!(matches!(
        ExactJson::new(one("number", JsonValue::Number("9007199254740993".to_owned()))),
        Err(JournalError::InvalidDocument(detail)) if detail.contains("I-JSON")
    ));

    let non_normal_value = one("number", JsonValue::Number("1.0".to_owned()));
    let non_normal = ExactJson {
        digest: sha256_identity(&canonical_bytes(&non_normal_value).expect("canonical")),
        value: non_normal_value,
    };
    assert!(matches!(
        non_normal.validate(),
        Err(JournalError::InvalidDocument(detail)) if detail.contains("canonical-normal")
    ));
}

#[test]
fn exact_json_refuses_non_objects_and_foreign_digests() {
    assert!(matches!(ExactJson::new(JsonValue::Null), Err(JournalError::InvalidDocument(_))));
    let mut tampered = exact("label");
    tampered.digest = digest(9);
    assert!(matches!(tampered.validate(), Err(JournalError::ContentIdentityMismatch { .. })));
    let mut malformed = exact("label");
    malformed.digest = "md5:abc".to_owned();
    assert!(matches!(
        malformed.validate(),
        Err(JournalError::InvalidDocument(detail)) if detail == "exact JSON digest must use sha256 identity syntax"
    ));
}

#[test]
fn exact_json_digest_is_the_sha256_of_the_canonical_form() {
    let value = JsonValue::Object(vec![
        JsonMember { key: "b".to_owned(), value: JsonValue::Number("2".to_owned()) },
        JsonMember { key: "a".to_owned(), value: JsonValue::Number("1".to_owned()) },
    ]);
    let bytes = canonical_bytes(&value).unwrap();
    assert_eq!(bytes, br#"{"a":1,"b":2}"#);
    let exact = ExactJson::new(value).unwrap();
    assert_eq!(exact.digest, sha256_identity(br#"{"a":1,"b":2}"#));
}

#[test]
fn deployment_locks_refuse_spaced_coordinates_and_malformed_digests() {
    assert!(DeploymentLock::new("a b".to_owned(), "p".to_owned(), digest(1), "r".to_owned(), digest(2)).is_err());
    assert!(DeploymentLock::new("a".to_owned(), "p".to_owned(), "sha256:".to_owned(), "r".to_owned(), digest(2)).is_err());
    assert!(validate_opaque_id("org.gooi@1"));
    assert!(!validate_opaque_id(""));
    assert!(!validate_opaque_id(&"x".repeat(4097)));
}

#[test]
fn only_the_documented_transitions_are_permitted() {
    assert!(validate_transition(AttemptPhase::Prepared, AttemptPhase::ProviderArmed).is_ok());
    assert!(validate_transition(AttemptPhase::AssessmentReady, AttemptPhase::Withheld).is_ok());
    assert!(matches!(
        validate_transition(AttemptPhase::Admitted, AttemptPhase::Unable),
        Err(JournalError::InvalidTransition { from: AttemptPhase::Admitted, to: AttemptPhase::Unable })
    ));
    assert!(AttemptPhase::Unable.is_terminal());
    assert!(!AttemptPhase::AttesterArmed.is_terminal());
    assert_eq!(recovery_action_for(AttemptPhase::CandidateReady), RecoveryAction::ArmAttester);
    assert_eq!(recovery_action_for(AttemptPhase::Withheld), RecoveryAction::NoAction);
    assert_eq!(phase_name_exec(AttemptPhase::AttesterCaptured), "attester_captured");
}

#[test]
fn armed_phases_park_and_cannot_be_erased_as_unable() {
    let prepared = AttemptCheckpoint::prepared(inputs()).expect("prepared");
    let provider_armed = prepared.arm_provider().expect("provider armed");
    assert_eq!(provider_armed.recovery_action(), RecoveryAction::ParkProviderUncertain);
    assert!(matches!(
        provider_armed.unable(exact("failure")),
        Err(JournalError::InvalidTransition { from: AttemptPhase::ProviderArmed, to: AttemptPhase::Unable })
    ));

    let attester_armed = provider_armed
        .capture_provider(exact("provider-receipt"))
        .expect("provider capture")
        .candidate_ready(exact("candidate"))
        .expect("candidate")
        .arm_attester(exact("assessment-request"))
        .expect("attester armed");
    assert_eq!(attester_armed.recovery_action(), RecoveryAction::ParkAttesterUncertain);
    assert!(matches!(
        attester_armed.unable(exact("failure")),
        Err(JournalError::InvalidTransition { from: AttemptPhase::AttesterArmed, to: AttemptPhase::Unable })
    ));
}

#[test]
fn captured_phases_resume_without_relaunch() {
    let prepared = AttemptCheckpoint::prepared(inputs()).expect("prepared");
    let provider_captured = prepared
        .arm_provider()
        .expect("arm")
        .capture_provider(exact("provider-receipt"))
        .expect("capture");
    assert_eq!(provider_captured.recovery_action(), RecoveryAction::BuildCandidateFromCapture);
    let attester_captured = provider_captured
        .candidate_ready(exact("candidate"))
        .expect("candidate")
        .arm_attester(exact("request"))
        .expect("arm attester")
        .capture_attester(exact("attester-receipt"))
        .expect("capture attester");
    assert_eq!(attester_captured.recovery_action(), RecoveryAction::BuildAssessmentFromCapture);
}

#[test]
fn a_complete_chain_retains_every_document_in_the_terminal_state() {
    let prepared = AttemptCheckpoint::prepared(inputs()).expect("prepared");
    assert_eq!(prepared.phase(), AttemptPhase::Prepared);
    assert_eq!(prepared.recovery_action(), RecoveryAction::RetryProvider);
    let admitted = prepared
        .arm_provider()
        .unwrap()
        .capture_provider(exact("provider-receipt"))
        .unwrap()
        .candidate_ready(exact("candidate"))
        .unwrap()
        .arm_attester(exact("assessment-request"))
        .unwrap()
        .capture_attester(exact("attester-receipt"))
        .unwrap()
        .assessment_ready(exact("assessment"))
        .unwrap()
        .admitted(exact("admission-snapshot"))
        .unwrap();
    assert_eq!(admitted.phase(), AttemptPhase::Admitted);
    assert_eq!(admitted.provider_receipt(), Some(&exact("provider-receipt")));
    assert_eq!(admitted.candidate(), Some(&exact("candidate")));
    assert_eq!(admitted.assessment_request(), Some(&exact("assessment-request")));
    assert_eq!(admitted.attester_receipt(), Some(&exact("attester-receipt")));
    assert_eq!(admitted.assessment(), Some(&exact("assessment")));
    assert!(matches!(admitted.resolution(), Some(AttemptResolution::Admitted { .. })));
    assert_eq!(admitted.recovery_action(), RecoveryAction::NoAction);
    admitted.validate().unwrap();
    assert!(matches!(
        admitted.withheld(exact("decision")),
        Err(JournalError::InvalidTransition { from: AttemptPhase::Admitted, to: AttemptPhase::Withheld })
    ));
}

#[test]
fn unable_records_the_phase_it_left() {
    let prepared = AttemptCheckpoint::prepared(inputs()).expect("prepared");
    let unable = prepared.unable(exact("failure")).unwrap();
    assert_eq!(unable.phase(), AttemptPhase::Unable);
    assert!(matches!(unable.resolution(), Some(AttemptResolution::Unable { from: AttemptPhase::Prepared, .. })));
    assert!(unable.provider_receipt().is_none());
}

#[test]
fn checkpoints_and_attempts_are_content_identified() {
    let a = AttemptCheckpoint::prepared(inputs()).unwrap();
    let b = AttemptCheckpoint::prepared(inputs()).unwrap();
    assert_eq!(a.checkpoint_id(), b.checkpoint_id());
    assert!(a.checkpoint_id().starts_with("sha256:"));
    let armed = a.arm_provider().unwrap();
    assert_ne!(armed.checkpoint_id(), a.checkpoint_id());
    assert_eq!(armed.inputs().attempt_id, a.inputs().attempt_id);
    inputs().validate().unwrap();
    let mut tampered = inputs();
    tampered.conformance_suite = "org.gooi.suite.other@1.0.0".to_owned();
    assert!(matches!(tampered.validate(), Err(JournalError::ContentIdentityMismatch { .. })));
}

#[test]
fn complete_chain_retains_both_runtime_receipts_in_terminal_state() {
    let prepared = AttemptCheckpoint::prepared(inputs()).expect("prepared");
    let provider_armed = prepared.arm_provider().expect("arm");
    let provider_receipt = exact("provider-receipt");
    let provider_captured = provider_armed.capture_provider(provider_receipt.duplicate()).expect("capture provider");
    let candidate = exact("candidate");
    let candidate_ready = provider_captured.candidate_ready(candidate.duplicate()).expect("candidate");
    let assessment_request = exact("assessment-request");
    let attester_armed = candidate_ready.arm_attester(assessment_request.duplicate()).expect("arm attester");
    let attester_receipt = exact("attester-receipt");
    let attester_captured = attester_armed.capture_attester(attester_receipt.duplicate()).expect("capture attester");
    let assessment = exact("assessment");
    let assessment_ready = attester_captured.assessment_ready(assessment.duplicate()).expect("assessment");
    let admitted = assessment_ready.admitted(exact("admission-snapshot")).expect("admit");

    assert_eq!(admitted.phase(), AttemptPhase::Admitted);
    assert_eq!(admitted.provider_receipt(), Some(&provider_receipt));
    assert_eq!(admitted.candidate(), Some(&candidate));
    assert_eq!(admitted.assessment_request(), Some(&assessment_request));
    assert_eq!(admitted.attester_receipt(), Some(&attester_receipt));
    assert_eq!(admitted.assessment(), Some(&assessment));
    assert_eq!(admitted.recovery_action(), RecoveryAction::NoAction);
}

fn stored_parts(c: &AttemptCheckpoint, bytes: &[u8]) -> Result<AttemptCheckpoint, JournalError> {
    stored_checkpoint(
        bytes,
        c.checkpoint_id().to_owned(),
        CHECKPOINT_PROTOCOL.to_owned(),
        c.inputs().duplicate(),
        c.phase(),
        c.evidence().duplicate(),
        c.resolution().map(|r| r.duplicate()),
        "journal/checkpoint.json",
    )
}

#[test]
fn creation_refuses_a_second_checkpoint() {
    let first = creation(inputs(), Err(JournalError::Missing("journal/checkpoint.json".to_owned())), "journal/checkpoint.json")
        .expect("first checkpoint");
    assert_eq!(first.phase(), AttemptPhase::Prepared);
    let existing = AttemptCheckpoint::prepared(inputs()).unwrap();
    assert!(matches!(
        creation(inputs(), Ok(existing), "journal/checkpoint.json"),
        Err(JournalError::AlreadyExists(path)) if path == "journal/checkpoint.json"
    ));
    assert!(matches!(
        creation(inputs(), Err(JournalError::NonCanonical("x".to_owned())), "journal/checkpoint.json"),
        Err(JournalError::NonCanonical(_))
    ));
}

#[test]
fn replacement_is_a_compare_and_swap_of_one_legal_step() {
    let current = AttemptCheckpoint::prepared(inputs()).unwrap();
    let next = current.arm_provider().unwrap();
    assert!(replacement(&current, current.checkpoint_id(), &next).is_ok());
    assert!(matches!(
        replacement(&current, next.checkpoint_id(), &next),
        Err(JournalError::StaleCheckpoint { expected, actual }) if expected == next.checkpoint_id() && actual == current.checkpoint_id()
    ));
    let other = UnboundAttemptInputs {
        semantic_plan: exact("other-plan"),
        invocation: exact("invocation"),
        baseline_snapshot: exact("baseline-snapshot"),
        conformance_suite: "org.gooi.suite.example@1.0.0".to_owned(),
        provider: deployment("provider", 1),
        attester: deployment("attester", 3),
        execution_policy: exact("execution-policy"),
        admission_policy: exact("admission-policy"),
    };
    let foreign = AttemptCheckpoint::prepared(AttemptInputs::new(other).unwrap()).unwrap().arm_provider().unwrap();
    assert!(matches!(
        replacement(&current, current.checkpoint_id(), &foreign),
        Err(JournalError::ImmutableInputsChanged)
    ));
    assert!(matches!(
        replacement(&next, next.checkpoint_id(), &current),
        Err(JournalError::InvalidTransition { from: AttemptPhase::ProviderArmed, to: AttemptPhase::Prepared })
    ));
}

#[test]
fn stored_checkpoints_must_be_canonical_and_valid() {
    let checkpoint = AttemptCheckpoint::prepared(inputs()).unwrap().arm_provider().unwrap();
    let bytes = publication_bytes(&checkpoint).expect("publishable");
    assert_eq!(Some(bytes.clone()), checkpoint.canonical_bytes());
    let loaded = stored_parts(&checkpoint, &bytes).expect("stored");
    assert!(published(&checkpoint, &loaded).is_ok());
    let mut spaced = bytes.clone();
    spaced.push(b' ');
    assert!(matches!(
        stored_parts(&checkpoint, &spaced),
        Err(JournalError::NonCanonical(path)) if path == "journal/checkpoint.json"
    ));
    let earlier = AttemptCheckpoint::prepared(inputs()).unwrap();
    assert!(matches!(
        published(&checkpoint, &earlier),
        Err(JournalError::PublishedCheckpointMismatch { .. })
    ));
}

