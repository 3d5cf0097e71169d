use gooir::admission::{
    AdmissionPolicy, AdmissionSnapshot, AuthorityBasis, ConformanceAssessment, ConformanceAttester,
    ConformanceAuthority, ConformanceCheck, ObservationAuthority, SourceObservation,
};
use gooir::authority::{AdmittedLink, AssessmentOutcome, AuthorityError};
use gooir::capability::{CapabilitySpec, FactAcceptance, InputPort, OutputPort};
use gooir::fact::Fact;
use gooir::identity::{ExactId, PortName};
use gooir::json::{JsonMember, JsonValue};
use gooir::ledger::{AdmissionLedger, AdmissionOutcome};
use gooir::protocol::{
    AdmittedFactRef, CapabilityCandidate, CapabilityInvocation, CapabilityOffer, CapabilityOutcome,
    CapabilityResult, EvidenceRef, ImplementationSelection, LinkedInput, NamedOutput, Sha256Digest,
};

fn sha(byte: char) -> Sha256Digest {
    Sha256Digest::parse(format!("sha256:{}", byte.to_string().repeat(64))).unwrap()
}

fn port(name: &str) -> PortName {
    PortName::parse(name.to_owned()).unwrap()
}

fn member(key: &str, value: JsonValue) -> JsonMember {
    JsonMember { key: key.to_owned(), value }
}

fn number(value: i64) -> JsonValue {
    JsonValue::Number(value.to_string())
}

fn source_kind() -> ExactId {
    ExactId::new("test.values", "source", "1.0.0")
}

fn output_kind() -> ExactId {
    ExactId::new("test.values", "output", "1.0.0")
}

fn evidence_kind() -> ExactId {
    ExactId::new("test.evidence", "source-bytes", "1.0.0")
}

fn suite() -> ExactId {
    ExactId::new("test.conformance", "transform", "1.0.0")
}

fn evidence(byte: char) -> EvidenceRef {
    EvidenceRef::new(evidence_kind(), sha(byte), format!("opaque://evidence/{byte}"), Vec::new()).unwrap()
}

fn source_fact(value: i64) -> Fact {
    Fact::new(source_kind(), JsonValue::Object(vec![member("value", number(value))])).unwrap()
}

fn output_fact(value: i64) -> Fact {
    Fact::new(output_kind(), JsonValue::Object(vec![member("value", number(value))])).unwrap()
}

fn observation_authority(name: &str, artifact: char) -> ObservationAuthority {
    ObservationAuthority::new(
        ExactId::new("test.source", name, "1.0.0"),
        ExactId::new("test.observer", name, "1.0.0"),
        sha(artifact),
        source_kind(),
        evidence_kind(),
        Vec::new(),
    )
    .unwrap()
}

fn observation(fact: Fact, name: &str, artifact: char) -> SourceObservation {
    SourceObservation::new(fact, observation_authority(name, artifact), evidence(artifact), Vec::new(), Vec::new())
        .unwrap()
}

fn admission_authority(name: &str) -> ExactId {
    ExactId::new("test.admission", name, "1.0.0")
}

fn observation_policy(observation: &SourceObservation, name: &str) -> AdmissionPolicy {
    AdmissionPolicy::new(admission_authority(name), Vec::new(), vec![observation.authority.clone()], Vec::new())
        .unwrap()
}

fn capability() -> ExactId {
    ExactId::new("test.capability", "transform", "1.0.0")
}

fn specification(output_ports: usize) -> CapabilitySpec {
    CapabilitySpec {
        id: capability(),
        input_ports: vec![InputPort {
            name: port("source"),
            value_kind: source_kind(),
            acceptance: FactAcceptance::CompleteOnly,
            extensions: Vec::new(),
        }],
        output_ports: (0..output_ports)
            .map(|index| OutputPort {
                name: port(&format!("output-{index}")),
                value_kind: output_kind(),
                extensions: Vec::new(),
            })
            .collect(),
        default_conformance_suite: suite().render(),
        extensions: Vec::new(),
    }
}

fn offer() -> CapabilityOffer {
    CapabilityOffer::new(ExactId::new("test.producer", "transform", "1.0.0"), sha('a'), capability(), Vec::new())
        .unwrap()
}

fn invocation(reference: AdmittedFactRef, fact: Fact, output_ports: usize) -> CapabilityInvocation {
    CapabilityInvocation::new(
        specification(output_ports),
        ImplementationSelection::new(offer(), Vec::new()).unwrap(),
        vec![LinkedInput::new(port("source"), reference, fact, Vec::new()).unwrap()],
        suite(),
        Vec::new(),
    )
    .unwrap()
}

fn produced_chain(invocation: &CapabilityInvocation, values: &[i64]) -> (CapabilityResult, CapabilityCandidate) {
    let outputs = values
        .iter()
        .enumerate()
        .map(|(index, value)| {
            NamedOutput::new(port(&format!("output-{index}")), output_fact(*value), Vec::new()).unwrap()
        })
        .collect();
    let result = CapabilityResult::produced(invocation, outputs, Vec::new(), vec![evidence('d')], Vec::new()).unwrap();
    let candidate = CapabilityCandidate::new(invocation, result.clone(), Vec::new()).unwrap();
    (result, candidate)
}

fn conformance_authority() -> ConformanceAuthority {
    ConformanceAuthority::new(
        suite(),
        ConformanceAttester::new(ExactId::new("test.attester", "transform", "1.0.0"), sha('b'), Vec::new()).unwrap(),
        Vec::new(),
    )
    .unwrap()
}

fn assessment(
    invocation: &CapabilityInvocation,
    result: &CapabilityResult,
    candidate: &CapabilityCandidate,
    outcome: AssessmentOutcome,
) -> ConformanceAssessment {
    ConformanceAssessment::new(
        invocation,
        result,
        candidate,
        conformance_authority(),
        vec![("exact-output".to_owned(), ConformanceCheck::new(outcome, vec![evidence('e')], Vec::new()).unwrap())],
        vec![evidence('f')],
        Vec::new(),
    )
    .unwrap()
}

fn candidate_policy(assessment: &ConformanceAssessment, name: &str) -> AdmissionPolicy {
    AdmissionPolicy::new(admission_authority(name), vec![assessment.authority.clone()], Vec::new(), Vec::new())
        .unwrap()
}

fn admitted_links(outcome: AdmissionOutcome) -> Vec<AdmittedLink> {
    let AdmissionOutcome::Admitted { links, .. } = outcome else { panic!("fixture must admit") };
    links
}

fn admit_source(ledger: &mut AdmissionLedger, observation: &SourceObservation, name: &str) -> AdmittedFactRef {
    admitted_links(ledger.admit_observation(observation_policy(observation, name), observation.clone()).unwrap())[0]
        .reference
        .clone()
}

fn counts(ledger: &AdmissionLedger) -> (usize, usize, usize) {
    (ledger.fact_count(), ledger.decision_count(), ledger.authority_count())
}

fn assert_source_substitution_rejected(
    policy: &AdmissionPolicy,
    observed: &SourceObservation,
    mutate: impl FnOnce(&mut SourceObservation),
) {
    let mut value = observed.clone();
    mutate(&mut value);
    let mut ledger = AdmissionLedger::new();
    assert!(ledger.admit_observation(policy.clone(), value.clone()).is_err());
    assert_eq!(counts(&ledger), (0, 0, 0));
}

fn produced_outputs(result: &mut CapabilityResult) -> &mut Vec<NamedOutput> {
    match &mut result.outcome {
        CapabilityOutcome::Produced { outputs, .. } => outputs,
        CapabilityOutcome::Unable { .. } => unreachable!(),
    }
}

fn substitution() -> JsonMember {
    member("x.test/substitution", JsonValue::Bool(true))
}

/// The same facts, decisions and records under a fresh snapshot identity.
fn reassembled(snapshot: AdmissionSnapshot) -> Result<AdmissionSnapshot, AuthorityError> {
    AdmissionSnapshot::assemble(snapshot.facts, snapshot.decisions, snapshot.authority_records, snapshot.extensions)
}

#[test]
fn bare_documents_never_link_and_default_deny_mutates_nothing() {
    let fact = source_fact(1);
    let fake = AdmittedFactRef::new(fact.id.clone(), sha('9'), Vec::new()).unwrap();
    let mut ledger = AdmissionLedger::new();
    assert!(matches!(ledger.resolve(&fake), Err(AuthorityError::UnknownAuthority(_))));

    let observed = observation(fact, "workspace", '1');
    let denied = AdmissionPolicy::deny_all(admission_authority("deny"), Vec::new()).unwrap();
    let outcome = ledger.admit_observation(denied.clone(), observed.clone()).unwrap();
    assert!(matches!(outcome, AdmissionOutcome::Withheld { .. }));
    assert_eq!(counts(&ledger), (0, 0, 0));
}

#[test]
fn exact_source_replay_is_idempotent_and_authority_is_explicit() {
    let fact = source_fact(1);
    let observed = observation(fact.clone(), "workspace", '1');
    let policy = observation_policy(&observed, "source");
    let mut ledger = AdmissionLedger::new();
    let first = admitted_links(ledger.admit_observation(policy.clone(), observed.clone()).unwrap());
    let replay = admitted_links(ledger.admit_observation(policy.clone(), observed.clone()).unwrap());
    assert_eq!(first, replay);
    assert_eq!(counts(&ledger), (1, 1, 1));
    assert_eq!(ledger.resolve(&first[0].reference).unwrap().fact, &fact);
}

#[test]
fn same_fact_can_have_two_source_authorities_without_implicit_selection() {
    let fact = source_fact(1);
    let first = observation(fact.clone(), "workspace", '1');
    let second = observation(fact.clone(), "operator", '2');
    let mut ledger = AdmissionLedger::new();
    let first_ref = admit_source(&mut ledger, &first, "first");
    let second_ref = admit_source(&mut ledger, &second, "second");
    assert_eq!(first_ref.fact_id, second_ref.fact_id);
    assert_ne!(first_ref.authority_record_id, second_ref.authority_record_id);
    assert_eq!(ledger.fact_count(), 1);
    assert_eq!(ledger.authorities_for(&fact.id).len(), 2);
    assert_eq!(ledger.resolve(&first_ref).unwrap().fact, ledger.resolve(&second_ref).unwrap().fact);
}

#[test]
fn source_substitutions_fail_before_mutation() {
    let observed = observation(source_fact(1), "workspace", '1');
    let policy = observation_policy(&observed, "source");
    assert_source_substitution_rejected(&policy, &observed, |value| {
        value.authority.source = ExactId::new("test.source", "other", "1.0.0");
    });
    assert_source_substitution_rejected(&policy, &observed, |value| {
        value.authority.observer = ExactId::new("test.observer", "other", "1.0.0");
    });
    assert_source_substitution_rejected(&policy, &observed, |value| {
        value.authority.observer_artifact = sha('2');
    });
    assert_source_substitution_rejected(&policy, &observed, |value| {
        value.primary_evidence = evidence('2');
    });
    assert_source_substitution_rejected(&policy, &observed, |value| {
        value.fact = source_fact(2);
    });

    let unaccepted = observation(source_fact(1), "other", '2');
    let mut ledger = AdmissionLedger::new();
    assert!(matches!(ledger.admit_observation(policy.clone(), unaccepted.clone()).unwrap(), AdmissionOutcome::Withheld { .. }));
    assert_eq!(ledger.authority_count(), 0);
}

#[test]
fn observation_scope_requires_exact_value_and_primary_evidence_kinds() {
    let wrong_value_kind = SourceObservation::new(
        source_fact(1),
        ObservationAuthority::new(
            ExactId::new("test.source", "workspace", "1.0.0"),
            ExactId::new("test.observer", "workspace", "1.0.0"),
            sha('1'),
            output_kind(),
            evidence_kind(),
            Vec::new(),
        )
        .unwrap(),
        evidence('1'),
        Vec::new(),
        Vec::new(),
    );
    assert!(matches!(wrong_value_kind, Err(AuthorityError::ObservationValueKindMismatch)));

    let wrong_evidence_kind = SourceObservation::new(
        source_fact(1),
        ObservationAuthority::new(
            ExactId::new("test.source", "workspace", "1.0.0"),
            ExactId::new("test.observer", "workspace", "1.0.0"),
            sha('1'),
            source_kind(),
            ExactId::new("test.evidence", "other", "1.0.0"),
            Vec::new(),
        )
        .unwrap(),
        evidence('1'),
        Vec::new(),
        Vec::new(),
    );
    assert!(matches!(wrong_evidence_kind, Err(AuthorityError::ObservationEvidenceKindMismatch)));
}

#[test]
fn source_reference_is_the_only_input_path_to_derived_admission() {
    let fact = source_fact(1);
    let observed = observation(fact.clone(), "workspace", '1');
    let mut ledger = AdmissionLedger::new();
    let source_ref = admit_source(&mut ledger, &observed, "source");
    let invocation = invocation(source_ref.clone(), fact, 2);
    let (result, candidate) = produced_chain(&invocation, &[10, 20]);
    let assessment = assessment(&invocation, &result, &candidate, AssessmentOutcome::Passed);
    let policy = candidate_policy(&assessment, "derived");
    let links =
        admitted_links(ledger.admit_candidate(&policy, &invocation, &result, &candidate, &assessment).unwrap());
    assert_eq!(links.len(), 2);
    assert_eq!(links[0].port, Some(port("output-0")));
    assert!(ledger.resolve(&source_ref).is_ok());
    assert!(ledger.resolve(&links[0].reference).is_ok());
    assert_eq!(counts(&ledger), (3, 2, 3));
}

#[test]
fn unknown_input_authority_and_invalid_second_output_are_atomic() {
    let fact = source_fact(1);
    let unknown = AdmittedFactRef::new(fact.id.clone(), sha('9'), Vec::new()).unwrap();
    let unknown_invocation = invocation(unknown, fact.clone(), 2);
    let (unknown_result, unknown_candidate) = produced_chain(&unknown_invocation, &[10, 20]);
    let unknown_assessment =
        assessment(&unknown_invocation, &unknown_result, &unknown_candidate, AssessmentOutcome::Passed);
    let unknown_policy = candidate_policy(&unknown_assessment, "derived");
    let mut ledger = AdmissionLedger::new();
    assert!(matches!(
        ledger.admit_candidate(
            &unknown_policy,
            &unknown_invocation,
            &unknown_result,
            &unknown_candidate,
            &unknown_assessment,
        ),
        Err(AuthorityError::UnknownAuthority(_))
    ));
    assert_eq!(ledger.authority_count(), 0);

    let observed = observation(fact.clone(), "workspace", '1');
    let source_ref = admit_source(&mut ledger, &observed, "source");
    let invocation = invocation(source_ref, fact, 2);
    let (result, candidate) = produced_chain(&invocation, &[10, 20]);
    let atomic_assessment = assessment(&invocation, &result, &candidate, AssessmentOutcome::Passed);
    let atomic_policy = candidate_policy(&atomic_assessment, "atomic");
    let mut invalid_result = result;
    produced_outputs(&mut invalid_result)[1].fact.payload =
        JsonValue::Object(vec![member("tampered", JsonValue::Bool(true))]);
    let mut invalid_candidate = candidate;
    invalid_candidate.result = invalid_result.clone();
    let before = ledger.clone();
    assert!(ledger
        .admit_candidate(&atomic_policy, &invocation, &invalid_result, &invalid_candidate, &atomic_assessment)
        .is_err());
    assert_eq!(ledger, before);
}

#[test]
fn failed_indeterminate_and_unaccepted_assessments_default_deny() {
    let fact = source_fact(1);
    let observed = observation(fact.clone(), "workspace", '1');
    let mut ledger = AdmissionLedger::new();
    let source_ref = admit_source(&mut ledger, &observed, "source");
    let baseline = ledger.clone();

    for outcome in [AssessmentOutcome::Failed, AssessmentOutcome::Indeterminate] {
        let invocation = invocation(source_ref.clone(), fact.clone(), 1);
        let (result, candidate) = produced_chain(&invocation, &[10]);
        let assessment = assessment(&invocation, &result, &candidate, outcome);
        let policy = candidate_policy(&assessment, "derived");
        assert!(matches!(
            ledger.admit_candidate(&policy, &invocation, &result, &candidate, &assessment).unwrap(),
            AdmissionOutcome::Withheld { .. }
        ));
        assert_eq!(ledger, baseline);
    }

    let invocation = invocation(source_ref, fact, 1);
    let (result, candidate) = produced_chain(&invocation, &[10]);
    let assessment = assessment(&invocation, &result, &candidate, AssessmentOutcome::Passed);
    let deny = AdmissionPolicy::deny_all(admission_authority("deny"), Vec::new()).unwrap();
    assert!(matches!(
        ledger.admit_candidate(&deny, &invocation, &result, &candidate, &assessment).unwrap(),
        AdmissionOutcome::Withheld { .. }
    ));
    assert_eq!(ledger, baseline);
}

#[test]
fn every_derived_chain_substitution_fails_without_mutation() {
    let fact = source_fact(1);
    let observed = observation(fact.clone(), "workspace", '1');
    let mut ledger = AdmissionLedger::new();
    let source_ref = admit_source(&mut ledger, &observed, "source");
    let invocation = invocation(source_ref, fact, 1);
    let (result, candidate) = produced_chain(&invocation, &[10]);
    let assessment = assessment(&invocation, &result, &candidate, AssessmentOutcome::Passed);
    let policy = candidate_policy(&assessment, "derived");
    let baseline = ledger.clone();

    let mut changed_policy = policy.clone();
    changed_policy.extensions.push(substitution());
    assert!(ledger.admit_candidate(&changed_policy, &invocation, &result, &candidate, &assessment).is_err());
    assert_eq!(ledger, baseline);

    let mut changed_invocation = invocation.clone();
    changed_invocation.extensions.push(substitution());
    assert!(ledger.admit_candidate(&policy, &changed_invocation, &result, &candidate, &assessment).is_err());
    assert_eq!(ledger, baseline);

    let mut changed_result = result.clone();
    changed_result.extensions.push(substitution());
    assert!(ledger.admit_candidate(&policy, &invocation, &changed_result, &candidate, &assessment).is_err());
    assert_eq!(ledger, baseline);

    let mut changed_candidate = candidate.clone();
    changed_candidate.extensions.push(substitution());
    assert!(ledger.admit_candidate(&policy, &invocation, &result, &changed_candidate, &assessment).is_err());
    assert_eq!(ledger, baseline);

    let mut changed_assessment = assessment.clone();
    changed_assessment.extensions.push(substitution());
    assert!(ledger.admit_candidate(&policy, &invocation, &result, &candidate, &changed_assessment).is_err());
    assert_eq!(ledger, baseline);

    let mut changed_output_result = result.clone();
    produced_outputs(&mut changed_output_result)[0].port = port("substituted");
    let mut changed_output_candidate = candidate;
    changed_output_candidate.result = changed_output_result.clone();
    assert!(ledger
        .admit_candidate(&policy, &invocation, &changed_output_result, &changed_output_candidate, &assessment)
        .is_err());
    assert_eq!(ledger, baseline);
}

#[test]
fn producer_cannot_supply_its_own_conformance_assessment() {
    let fact = source_fact(1);
    let observed = observation(fact.clone(), "workspace", '1');
    let mut ledger = AdmissionLedger::new();
    let source_ref = admit_source(&mut ledger, &observed, "source");
    let invocation = invocation(source_ref, fact, 1);
    let (result, candidate) = produced_chain(&invocation, &[10]);
    for authority in [
        ConformanceAuthority::new(
            suite(),
            ConformanceAttester::new(invocation.selection.offer.implementation.clone(), sha('b'), Vec::new()).unwrap(),
            Vec::new(),
        )
        .unwrap(),
        ConformanceAuthority::new(
            suite(),
            ConformanceAttester::new(
                ExactId::new("test.attester", "other", "1.0.0"),
                invocation.selection.offer.artifact_digest.clone(),
                Vec::new(),
            )
            .unwrap(),
            Vec::new(),
        )
        .unwrap(),
    ] {
        assert!(matches!(
            ConformanceAssessment::new(
                &invocation,
                &result,
                &candidate,
                authority,
                vec![(
                    "check".to_owned(),
                    ConformanceCheck::new(AssessmentOutcome::Passed, Vec::new(), Vec::new()).unwrap(),
                )],
                Vec::new(),
                Vec::new(),
            ),
            Err(AuthorityError::AttesterNotIndependent)
        ));
    }
    assert!(matches!(
        ConformanceAssessment::new(
            &invocation,
            &result,
            &candidate,
            conformance_authority(),
            Vec::new(),
            Vec::new(),
            Vec::new(),
        ),
        Err(AuthorityError::EmptyAssessmentChecks)
    ));
}

#[test]
fn changing_only_input_authority_changes_every_downstream_identity() {
    let fact = source_fact(1);
    let first_observation = observation(fact.clone(), "workspace", '1');
    let second_observation = observation(fact.clone(), "operator", '2');
    let mut ledger = AdmissionLedger::new();
    let first_ref = admit_source(&mut ledger, &first_observation, "first");
    let second_ref = admit_source(&mut ledger, &second_observation, "second");

    let first_invocation = invocation(first_ref, fact.clone(), 1);
    let second_invocation = invocation(second_ref, fact, 1);
    assert_ne!(first_invocation.invocation_id, second_invocation.invocation_id);

    let (first_result, first_candidate) = produced_chain(&first_invocation, &[10]);
    let first_assessment =
        assessment(&first_invocation, &first_result, &first_candidate, AssessmentOutcome::Passed);
    let first_policy = candidate_policy(&first_assessment, "derived");
    let first_link = admitted_links(
        ledger
            .admit_candidate(&first_policy, &first_invocation, &first_result, &first_candidate, &first_assessment)
            .unwrap(),
    )[0]
    .reference
    .clone();

    let (second_result, second_candidate) = produced_chain(&second_invocation, &[10]);
    let second_assessment =
        assessment(&second_invocation, &second_result, &second_candidate, AssessmentOutcome::Passed);
    let second_policy = candidate_policy(&second_assessment, "derived");
    let second_link = admitted_links(
        ledger
            .admit_candidate(
                &second_policy,
                &second_invocation,
                &second_result,
                &second_candidate,
                &second_assessment,
            )
            .unwrap(),
    )[0]
    .reference
    .clone();

    assert_eq!(first_link.fact_id, second_link.fact_id);
    assert_ne!(first_result.result_id, second_result.result_id);
    assert_ne!(first_candidate.candidate_id, second_candidate.candidate_id);
    assert_ne!(first_assessment.assessment_id, second_assessment.assessment_id);
    assert_ne!(first_link.authority_record_id, second_link.authority_record_id);
    assert_eq!(ledger.authorities_for(&first_link.fact_id).len(), 2);
}

#[test]
fn derived_replay_is_exact_and_snapshot_rebuild_preserves_linkability() {
    let fact = source_fact(1);
    let observed = observation(fact.clone(), "workspace", '1');
    let mut ledger = AdmissionLedger::new();
    let source_ref = admit_source(&mut ledger, &observed, "source");
    let invocation = invocation(source_ref.clone(), fact, 1);
    let (result, candidate) = produced_chain(&invocation, &[10]);
    let assessment = assessment(&invocation, &result, &candidate, AssessmentOutcome::Passed);
    let policy = candidate_policy(&assessment, "derived");
    let first =
        admitted_links(ledger.admit_candidate(&policy, &invocation, &result, &candidate, &assessment).unwrap());
    let before = counts(&ledger);
    let replay =
        admitted_links(ledger.admit_candidate(&policy, &invocation, &result, &candidate, &assessment).unwrap());
    assert_eq!(first, replay);
    assert_eq!(before, counts(&ledger));

    let snapshot = ledger.export().unwrap();
    snapshot.validate().unwrap();
    let rebuilt = AdmissionLedger::rebuild(snapshot.clone()).unwrap();
    assert_eq!(ledger, rebuilt);
    assert!(rebuilt.resolve(&source_ref).is_ok());
    assert!(rebuilt.resolve(&first[0].reference).is_ok());
}

#[test]
fn corrupt_source_and_derived_snapshots_are_rejected() {
    let fact = source_fact(1);
    let observed = observation(fact.clone(), "workspace", '1');
    let mut ledger = AdmissionLedger::new();
    let source_ref = admit_source(&mut ledger, &observed, "source");
    let invocation = invocation(source_ref, fact, 1);
    let (result, candidate) = produced_chain(&invocation, &[10]);
    let assessment = assessment(&invocation, &result, &candidate, AssessmentOutcome::Passed);
    let policy = candidate_policy(&assessment, "derived");
    let _ = ledger.admit_candidate(&policy, &invocation, &result, &candidate, &assessment).unwrap();

    let snapshot = ledger.export().unwrap();
    let mut corrupt_source = snapshot.clone();
    let source = corrupt_source
        .authority_records
        .iter_mut()
        .find(|record| matches!(&record.basis, AuthorityBasis::Source { .. }))
        .unwrap();
    if let AuthorityBasis::Source { observation, .. } = &mut source.basis {
        observation.primary_evidence = evidence('7');
    }
    assert!(reassembled(corrupt_source).and_then(AdmissionLedger::rebuild).is_err());

    let mut corrupt_derived = snapshot;
    let derived = corrupt_derived
        .authority_records
        .iter_mut()
        .find(|record| matches!(&record.basis, AuthorityBasis::Derived { .. }))
        .unwrap();
    derived.fact.payload = JsonValue::Object(vec![member("tampered", JsonValue::Bool(true))]);
    assert!(reassembled(corrupt_derived).and_then(AdmissionLedger::rebuild).is_err());
}

#[test]
fn extensions_round_trip_are_reserved_and_affect_enclosing_identities() {
    let fact = source_fact(1);
    let scoped = ObservationAuthority::new(
        ExactId::new("test.source", "workspace", "1.0.0"),
        ExactId::new("test.observer", "workspace", "1.0.0"),
        sha('1'),
        source_kind(),
        evidence_kind(),
        vec![member("x.test/authority", JsonValue::Object(vec![member("mode", JsonValue::String("exact".to_owned()))]))],
    )
    .unwrap();
    let primary = EvidenceRef::new(
        evidence_kind(),
        sha('1'),
        "opaque://evidence/1".to_owned(),
        vec![member("x.test/evidence", JsonValue::Bool(true))],
    )
    .unwrap();
    let observed = SourceObservation::new(
        fact,
        scoped,
        primary,
        Vec::new(),
        vec![member("x.test/observation", JsonValue::Array(vec![number(1), number(2)]))],
    )
    .unwrap();
    let plain = observation(source_fact(1), "workspace", '1');
    assert_ne!(observed.observation_id, plain.observation_id);

    let policy = AdmissionPolicy::new(
        admission_authority("source"),
        Vec::new(),
        vec![observed.authority.clone()],
        vec![member("x.test/policy", JsonValue::String("local".to_owned()))],
    )
    .unwrap();
    let mut ledger = AdmissionLedger::new();
    let link = admitted_links(ledger.admit_observation(policy.clone(), observed.clone()).unwrap());
    let snapshot = ledger
        .export_with_extensions(vec![member("x.test/snapshot", JsonValue::Object(vec![member("v", number(1))]))])
        .unwrap();
    let rebuilt = AdmissionLedger::rebuild(snapshot.clone()).unwrap();
    assert!(rebuilt.resolve(&link[0].reference).is_ok());
    assert_eq!(rebuilt, ledger);

    let mut reserved = observed.clone();
    reserved.extensions.push(member("fact", JsonValue::Object(vec![member("shadow", JsonValue::Bool(true))])));
    assert!(matches!(reserved.validate(), Err(AuthorityError::ReservedExtension { .. })));
}

#[test]
fn derived_extension_scopes_round_trip_without_weakening_exact_outputs() {
    let fact = source_fact(1);
    let observed = observation(fact.clone(), "workspace", '1');
    let mut ledger = AdmissionLedger::new();
    let source_ref = admit_source(&mut ledger, &observed, "source");
    let invocation = invocation(source_ref, fact, 1);
    let (result, candidate) = produced_chain(&invocation, &[10]);

    let attester = ConformanceAttester::new(
        ExactId::new("test.attester", "transform", "1.0.0"),
        sha('b'),
        vec![member("x.test/attester", number(1))],
    )
    .unwrap();
    let authority =
        ConformanceAuthority::new(suite(), attester, vec![member("x.test/conformance-authority", number(2))]).unwrap();
    let extended_assessment = ConformanceAssessment::new(
        &invocation,
        &result,
        &candidate,
        authority,
        vec![(
            "exact-output".to_owned(),
            ConformanceCheck::new(AssessmentOutcome::Passed, vec![evidence('e')], vec![member("x.test/check", number(3))])
                .unwrap(),
        )],
        vec![evidence('f')],
        vec![member("x.test/assessment", number(4))],
    )
    .unwrap();
    let plain_assessment = assessment(&invocation, &result, &candidate, AssessmentOutcome::Passed);
    assert_ne!(extended_assessment.assessment_id, plain_assessment.assessment_id);
    let policy = AdmissionPolicy::new(
        admission_authority("derived"),
        vec![extended_assessment.authority.clone()],
        Vec::new(),
        vec![member("x.test/policy", number(5))],
    )
    .unwrap();
    let links = admitted_links(
        ledger.admit_candidate(&policy, &invocation, &result, &candidate, &extended_assessment).unwrap(),
    );
    let snapshot = ledger.export().unwrap();
    let rebuilt = AdmissionLedger::rebuild(snapshot.clone()).unwrap();
    assert!(rebuilt.resolve(&links[0].reference).is_ok());
    assert_eq!(rebuilt, ledger);
}

#[test]
fn authority_digest_deserialization_is_strict() {
    for invalid in ["not-a-digest".to_owned(), format!("sha256:{}", "A".repeat(64)), format!("sha256:{}", "0".repeat(63))]
    {
        assert!(Sha256Digest::parse(invalid).is_err());
    }
}

#[test]
fn rebuild_refuses_valid_snapshots_that_do_not_close() {
    let fact = source_fact(1);
    let observed = observation(fact, "workspace", '1');
    let mut ledger = AdmissionLedger::new();
    let _ = admit_source(&mut ledger, &observed, "source");
    let snapshot = ledger.export().unwrap();

    let mut no_decisions = snapshot.clone();
    no_decisions.decisions.clear();
    let no_decisions = reassembled(no_decisions).expect("a snapshot without decisions still validates");
    assert!(matches!(AdmissionLedger::rebuild(no_decisions), Err(AuthorityError::MissingDecision(_))));

    let mut doubled = snapshot.clone();
    let first = doubled.facts[0].clone();
    doubled.facts.push(first);
    assert!(matches!(reassembled(doubled).and_then(AdmissionLedger::rebuild), Err(AuthorityError::FactCollision(_))));

    let mut no_records = snapshot;
    no_records.authority_records.clear();
    no_records.decisions.clear();
    let no_records = reassembled(no_records).expect("a snapshot of bare facts still validates");
    assert!(matches!(AdmissionLedger::rebuild(no_records), Err(AuthorityError::OrphanFact(_))));
}
