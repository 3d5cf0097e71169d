use gooir::capability::{
    fact_digest, validate_provider, validate_spec, verify_and_admit, AdmissionPolicy, AttemptEvidence,
    CapabilityAdmissionError, CapabilityCandidate, CapabilityCandidateError, CapabilityConformanceProvider,
    CapabilityNeed, CapabilityRequest, CapabilityRequestBody, CapabilityRequestError, CapabilitySpec,
    ConformanceCheck, ConformanceOutcome, ConformanceProviderDescriptor, FactAcceptance, FactCoverage,
    FactDerivation, FactInstance, FactsWithheld, InputPort, LegacyDeclarationExtensionScope, OutputPort,
    ProducedFact, ProviderDescriptor, RegistryError,
};
use gooir::identity::{CapabilityId, FactType, PortName, ProviderId};
use gooir::json::{JsonMember, JsonValue};
use gooir::registry::{copy_fact, copy_spec, CapabilityProvider, CapabilityRegistry};

struct NoProvider;

impl CapabilityProvider for NoProvider {
    fn descriptor(&self) -> ProviderDescriptor {
        unreachable!("no provider is registered")
    }

    fn invoke(&self, _: &CapabilitySpec, _: &[FactInstance]) -> Result<Vec<ProducedFact>, String> {
        unreachable!("no provider is registered")
    }
}

fn fact(name: &str) -> FactType {
    FactType::new("test", name, "1")
}

fn port(name: &str) -> PortName {
    PortName::parse(name.to_owned()).unwrap()
}

fn object(members: &[(&str, JsonValue)]) -> JsonValue {
    JsonValue::Object(
        members
            .iter()
            .map(|(key, value)| JsonMember { key: (*key).to_owned(), value: copy(value) })
            .collect(),
    )
}

fn copy(value: &JsonValue) -> JsonValue {
    gooir::json::copy_json(value)
}

fn text(value: &str) -> JsonValue {
    JsonValue::String(value.to_owned())
}

fn number(value: &str) -> JsonValue {
    JsonValue::Number(value.to_owned())
}

fn complete_input(name: &str, value_kind: FactType) -> InputPort {
    InputPort { name: port(name), value_kind, acceptance: FactAcceptance::CompleteOnly, extensions: Vec::new() }
}

fn output(name: &str, value_kind: FactType) -> OutputPort {
    OutputPort { name: port(name), value_kind, extensions: Vec::new() }
}

fn capability(name: &str, requires: Vec<FactType>, produces: Vec<FactType>) -> CapabilitySpec {
    CapabilitySpec {
        id: CapabilityId::new("test", name, "1"),
        input_ports: requires
            .into_iter()
            .enumerate()
            .map(|(index, value_kind)| complete_input(&format!("input_{index}"), value_kind))
            .collect(),
        output_ports: produces
            .into_iter()
            .enumerate()
            .map(|(index, value_kind)| output(&format!("output_{index}"), value_kind))
            .collect(),
        default_conformance_suite: format!("test/{name}@1"),
        extensions: Vec::new(),
    }
}

fn initial(fact_type: FactType, payload: JsonValue, origin: &str) -> FactInstance {
    FactInstance::initial(fact_type, FactCoverage::Complete, payload, origin.to_owned()).unwrap()
}

#[test]
fn port_names_preserve_exact_ecosystem_spelling_with_a_bounded_wire_size() {
    let exact = port("输入.Payload-v1");
    assert_eq!(exact.as_str(), "输入.Payload-v1");

    assert!(PortName::parse("".to_owned()).is_err());
    assert!(PortName::parse(" leading".to_owned()).is_err());
    assert!(PortName::parse("trailing ".to_owned()).is_err());
    assert!(PortName::parse("line\nbreak".to_owned()).is_err());
    assert!(PortName::parse("a".repeat(128)).is_ok());
    assert!(PortName::parse("a".repeat(129)).is_err());
    assert!(PortName::parse("输".repeat(43)).is_err());
    assert!(PortName::parse("输".repeat(42)).is_ok());
}

#[test]
fn named_ports_allow_repeated_value_kinds_but_legacy_binding_fails_closed() {
    let same = fact("same");
    let target = fact("target");
    let spec = CapabilitySpec {
        id: CapabilityId::new("test", "compare", "1"),
        input_ports: vec![complete_input("left", same.clone()), complete_input("right", same.clone())],
        output_ports: vec![output("comparison", target.clone())],
        default_conformance_suite: "test/compare@1".to_owned(),
        extensions: Vec::new(),
    };
    let mut registry: CapabilityRegistry<NoProvider> = CapabilityRegistry::new();
    registry.register_spec(spec).unwrap();

    let plan = registry.plan(vec![same.clone()], &target).unwrap();
    assert_eq!(plan.needs[0].specification.input_ports[0].name, port("left"));
    assert_eq!(plan.needs[0].specification.input_ports[1].name, port("right"));
    let input = initial(same, object(&[("value", number("1"))]), "fixture");
    match CapabilityRequest::bind(&plan.needs[0], vec![input]) {
        Err(CapabilityRequestError::RepeatedInputValueKindPortsUnsupported(kind)) => assert_eq!(kind, fact("same")),
        other => panic!("{other:?}"),
    }

    let output_need = CapabilityNeed {
        specification: CapabilitySpec {
            id: CapabilityId::new("test", "split", "1"),
            input_ports: Vec::new(),
            output_ports: vec![output("first", target.clone()), output("second", target.clone())],
            default_conformance_suite: "test/split@1".to_owned(),
            extensions: Vec::new(),
        },
        reason: "no provider".to_owned(),
    };
    match CapabilityRequest::bind(&output_need, Vec::new()) {
        Err(CapabilityRequestError::RepeatedOutputValueKindPortsUnsupported(kind)) => assert_eq!(kind, target),
        other => panic!("{other:?}"),
    }
}

#[test]
fn exact_need_retains_declaration_extensions_legacy_request_cannot_represent() {
    let source = fact("extended_source");
    let target = fact("extended_target");
    let mut spec = capability("extended", vec![source.clone()], vec![target.clone()]);
    spec.extensions.push(JsonMember {
        key: "x.capability".to_owned(),
        value: object(&[("constraint", JsonValue::Bool(true))]),
    });
    spec.input_ports[0]
        .extensions
        .push(JsonMember { key: "x.input".to_owned(), value: JsonValue::Array(vec![text("opaque")]) });
    spec.output_ports[0]
        .extensions
        .push(JsonMember { key: "x.output".to_owned(), value: object(&[("future", number("1"))]) });

    let mut registry: CapabilityRegistry<NoProvider> = CapabilityRegistry::new();
    registry.register_spec(copy_spec(&spec)).unwrap();
    let mut need = registry.plan(vec![source], &target).unwrap().needs.remove(0);
    assert_eq!(need.specification, spec, "a need carries the exact spec");

    match CapabilityRequest::bind(&need, Vec::new()) {
        Err(CapabilityRequestError::LegacyAdapterDeclarationExtensionsUnsupported {
            capability,
            scope: LegacyDeclarationExtensionScope::Capability,
        }) => assert_eq!(capability, need.specification.id),
        other => panic!("{other:?}"),
    }

    need.specification.extensions.clear();
    match CapabilityRequest::bind(&need, Vec::new()) {
        Err(CapabilityRequestError::LegacyAdapterDeclarationExtensionsUnsupported {
            capability,
            scope: LegacyDeclarationExtensionScope::InputPort(name),
        }) => {
            assert_eq!(capability, need.specification.id);
            assert_eq!(name, port("input_0"));
        }
        other => panic!("{other:?}"),
    }

    need.specification.input_ports[0].extensions.clear();
    match CapabilityRequest::bind(&need, Vec::new()) {
        Err(CapabilityRequestError::LegacyAdapterDeclarationExtensionsUnsupported {
            capability,
            scope: LegacyDeclarationExtensionScope::OutputPort(name),
        }) => {
            assert_eq!(capability, need.specification.id);
            assert_eq!(name, port("output_0"));
        }
        other => panic!("{other:?}"),
    }
}

#[test]
fn malformed_value_kinds_cannot_enter_through_a_request_document() {
    let body = CapabilityRequestBody {
        capability: CapabilityId::new("test", "generate", "1"),
        requires: Vec::new(),
        inputs: Vec::new(),
        produces: vec![FactType::new("test/nested", "output", "1")],
        conformance_suite: "test/generate@1".to_owned(),
    };
    let request = CapabilityRequest { request_id: format!("sha256:{}", "0".repeat(64)), body };
    assert!(matches!(request.validate(), Err(CapabilityRequestError::InvalidNeed(_))));
}

#[test]
fn extensions_may_not_shadow_declared_fields() {
    let mut spec = capability("shadow", Vec::new(), vec![fact("out")]);
    spec.output_ports[0].extensions.push(JsonMember { key: "value_kind".to_owned(), value: JsonValue::Null });
    match validate_spec(&spec) {
        Err(RegistryError::InvalidCapability { reason, .. }) => {
            assert_eq!(reason, "output port `output_0` extension `value_kind` shadows a known field")
        }
        other => panic!("{other:?}"),
    }
    let mut blank = capability("blank", Vec::new(), vec![fact("out")]);
    blank.default_conformance_suite = "  ".to_owned();
    assert!(matches!(
        validate_spec(&blank),
        Err(RegistryError::InvalidCapability { reason, .. }) if reason == "a capability must name an exact conformance suite"
    ));
    let none = capability("none", Vec::new(), Vec::new());
    assert!(matches!(
        validate_spec(&none),
        Err(RegistryError::InvalidCapability { reason, .. }) if reason == "a capability must declare at least one output port"
    ));
}

#[test]
fn providers_need_an_exact_identity_and_a_sha256_digest() {
    let good = ProviderDescriptor {
        id: ProviderId::new("test.provider", "p", "1"),
        capability: CapabilityId::new("test", "c", "1"),
        implementation_digest: format!("sha256:{}", "a".repeat(64)),
    };
    validate_provider(&good).unwrap();
    let bad = ProviderDescriptor { implementation_digest: "sha256:abc".to_owned(), ..good };
    assert!(matches!(
        validate_provider(&bad),
        Err(RegistryError::InvalidProvider { reason, .. }) if reason == "implementation digest must be a sha256 identity"
    ));
}

#[test]
fn fact_identity_is_content_sensitive_and_normalizes_payload_keys() {
    let kind = fact("kind");
    let derivation = FactDerivation::Initial { origin: "fixture".to_owned() };
    let a = fact_digest(&kind, FactCoverage::Complete, &object(&[("b", number("1")), ("a", number("2"))]), &derivation);
    let b = fact_digest(&kind, FactCoverage::Complete, &object(&[("a", number("2")), ("b", number("1"))]), &derivation);
    let c = fact_digest(&kind, FactCoverage::Partial, &object(&[("a", number("2")), ("b", number("1"))]), &derivation);
    assert!(a.starts_with("sha256:") && a.len() == 71);
    assert_eq!(a, b);
    assert_ne!(a, c);
    let instance = initial(kind, object(&[("a", number("2")), ("b", number("1"))]), "fixture");
    assert_eq!(instance.id, a);
}

fn generate_need() -> CapabilityNeed {
    CapabilityNeed {
        specification: CapabilitySpec {
            id: CapabilityId::new("test", "generate", "1"),
            input_ports: vec![complete_input("source", fact("source"))],
            output_ports: vec![output("result", fact("target"))],
            default_conformance_suite: "test/generate@1".to_owned(),
            extensions: Vec::new(),
        },
        reason: "no provider".to_owned(),
    }
}

#[test]
fn capability_request_binds_need_to_exact_input_fact() {
    let need = generate_need();
    let first = || initial(fact("source"), object(&[("value", number("1"))]), "fixture@1");
    let second = initial(fact("source"), object(&[("value", number("2"))]), "fixture@1");

    let first_request = CapabilityRequest::bind(&need, vec![first()]).unwrap();
    let replay = CapabilityRequest::bind(&need, vec![first()]).unwrap();
    let changed = CapabilityRequest::bind(&need, vec![second]).unwrap();

    assert_eq!(first_request.request_id, replay.request_id);
    assert_ne!(first_request.request_id, changed.request_id);
    assert!(first_request.body.capability.same_as(&need.specification.id));
    assert_eq!(first_request.body.inputs.len(), 1);
    first_request.validate().unwrap();

    let mut tampered = CapabilityRequest::bind(&need, vec![first()]).unwrap();
    tampered.request_id = changed.request_id.clone();
    assert!(matches!(tampered.validate(), Err(CapabilityRequestError::IdentityMismatch { .. })));
}

#[test]
fn binding_refuses_missing_unexpected_and_partial_inputs() {
    let need = generate_need();
    assert!(matches!(CapabilityRequest::bind(&need, Vec::new()), Err(CapabilityRequestError::MissingInput(_))));
    let stranger = initial(fact("stranger"), JsonValue::Null, "fixture");
    assert!(matches!(
        CapabilityRequest::bind(&need, vec![stranger]),
        Err(CapabilityRequestError::UnexpectedInput(_))
    ));
    let partial =
        FactInstance::initial(fact("source"), FactCoverage::Partial, JsonValue::Null, "fixture".to_owned()).unwrap();
    assert!(CapabilityRequest::bind(&need, vec![partial]).is_err());
}

#[test]
fn source_capability_request_may_have_no_inputs() {
    let need = CapabilityNeed {
        specification: CapabilitySpec {
            id: CapabilityId::new("test", "discover", "1"),
            input_ports: Vec::new(),
            output_ports: vec![output("result", fact("discovered"))],
            default_conformance_suite: "test/discover@1".to_owned(),
            extensions: Vec::new(),
        },
        reason: "no provider".to_owned(),
    };
    let request = CapabilityRequest::bind(&need, Vec::new()).unwrap();
    request.validate().unwrap();
    assert!(request.body.inputs.is_empty());
}

struct FixedVerifier {
    id: ProviderId,
    suite: String,
    implementation_digest: String,
    outcome: ConformanceOutcome,
}

impl FixedVerifier {
    fn describe(&self) -> ConformanceProviderDescriptor {
        ConformanceProviderDescriptor {
            id: self.id.clone(),
            suite: self.suite.clone(),
            implementation_digest: self.implementation_digest.clone(),
        }
    }
}

impl CapabilityConformanceProvider for FixedVerifier {
    fn descriptor(&self) -> ConformanceProviderDescriptor {
        self.describe()
    }

    fn verify(&self, _: &CapabilityRequest, _: &CapabilityCandidate) -> Result<Vec<ConformanceCheck>, String> {
        Ok(vec![ConformanceCheck {
            name: "exact-output-semantics".to_owned(),
            outcome: self.outcome,
            evidence: object(&[("fixture", JsonValue::Bool(true))]),
        }])
    }
}

fn candidate_under(suite: Option<&str>) -> (CapabilityRequest, CapabilityCandidate) {
    let source = fact("external_source");
    let target = fact("external_target");
    let need = CapabilityNeed {
        specification: CapabilitySpec {
            id: CapabilityId::new("test.capability", "external_generate", "1.0.0"),
            input_ports: vec![complete_input("source", source.clone())],
            output_ports: vec![output("result", target.clone())],
            default_conformance_suite: "test.conformance/external_generate@1.0.0".to_owned(),
            extensions: Vec::new(),
        },
        reason: "no installed provider".to_owned(),
    };
    let input = initial(source, object(&[("intent", text("exact"))]), "fixture@1");
    let request = match suite {
        Some(suite) => CapabilityRequest::bind_with_suite(&need, vec![input], suite.to_owned()).unwrap(),
        None => CapabilityRequest::bind(&need, vec![input]).unwrap(),
    };
    let candidate = CapabilityCandidate::bind(
        &request,
        provider(&need.specification.id),
        vec![produced("candidate")],
        attempt(),
    )
    .unwrap();
    (request, candidate)
}

fn provider(capability: &CapabilityId) -> ProviderDescriptor {
    ProviderDescriptor {
        id: ProviderId::new("test.provider", "external_agent", "1.0.0"),
        capability: capability.clone(),
        implementation_digest: format!("sha256:{}", "a".repeat(64)),
    }
}

fn produced(artifact: &str) -> ProducedFact {
    ProducedFact {
        fact_type: fact("external_target"),
        coverage: FactCoverage::Complete,
        payload: object(&[("artifact", text(artifact))]),
    }
}

fn attempt() -> AttemptEvidence {
    AttemptEvidence {
        authority: "test.orchestrator/fleet@1".to_owned(),
        attempt_id: "attempt-1".to_owned(),
        invocation_id: "invocation-1".to_owned(),
        evidence_digest: format!("sha256:{}", "b".repeat(64)),
    }
}

fn external_candidate() -> (CapabilityRequest, CapabilityCandidate) {
    candidate_under(None)
}

fn attester_with(outcome: ConformanceOutcome) -> FixedVerifier {
    FixedVerifier {
        id: ProviderId::new("test.conformance", "external_suite", "1.0.0"),
        suite: "test.conformance/external_generate@1.0.0".to_owned(),
        implementation_digest: format!("sha256:{}", "c".repeat(64)),
        outcome,
    }
}

fn verifier_for(suite: &str) -> FixedVerifier {
    FixedVerifier {
        id: ProviderId::new("test.conformance", "concrete_suite", "1.0.0"),
        suite: suite.to_owned(),
        implementation_digest: format!("sha256:{}", "f".repeat(64)),
        outcome: ConformanceOutcome::Passed,
    }
}

fn admitting(verifier: &FixedVerifier) -> AdmissionPolicy {
    let mut policy = AdmissionPolicy::new();
    policy.admit_attester(verifier.describe());
    policy
}

#[test]
fn candidate_identity_binds_request_provider_outputs_and_attempt() {
    let (request, candidate) = external_candidate();
    candidate.validate(&request).unwrap();
    let replay = CapabilityCandidate::bind(
        &request,
        provider(&request.body.capability),
        vec![produced("candidate")],
        attempt(),
    )
    .unwrap();
    assert_eq!(candidate.candidate_id, replay.candidate_id);

    let mut changed = replay;
    changed.body.outputs[0].payload = object(&[("artifact", text("different"))]);
    assert!(matches!(changed.validate(&request), Err(CapabilityCandidateError::IdentityMismatch { .. })));
}

#[test]
fn candidates_must_match_the_declared_outputs() {
    let (request, _) = external_candidate();
    let mut wrong = produced("candidate");
    wrong.fact_type = fact("other");
    assert!(matches!(
        CapabilityCandidate::bind(&request, provider(&request.body.capability), vec![wrong], attempt()),
        Err(CapabilityCandidateError::OutputContractViolation { .. })
    ));
    let other_capability = CapabilityId::new("test.capability", "other", "1.0.0");
    assert!(matches!(
        CapabilityCandidate::bind(&request, provider(&other_capability), vec![produced("x")], attempt()),
        Err(CapabilityCandidateError::ProviderCapabilityMismatch)
    ));
    let mut bad_attempt = attempt();
    bad_attempt.evidence_digest = "sha256:zz".to_owned();
    assert!(matches!(
        CapabilityCandidate::bind(&request, provider(&request.body.capability), vec![produced("x")], bad_attempt),
        Err(CapabilityCandidateError::InvalidAttempt(_))
    ));
}

#[test]
fn a_request_may_name_a_more_concrete_suite_than_the_capability_declares() {
    const CONCRETE: &str = "dev.product.conformance/runs_the_real_system@1.0.0";
    let (request, candidate) = candidate_under(Some(CONCRETE));
    assert_eq!(request.body.conformance_suite, CONCRETE);
    assert_ne!(request.body.conformance_suite, "test.conformance/external_generate@1.0.0");

    let attester = verifier_for(CONCRETE);
    let admission = verify_and_admit(&request, &candidate, &attester, &admitting(&attester)).unwrap();
    assert!(admission.withheld.is_none());
    assert_eq!(admission.facts.len(), 1);
}

#[test]
fn an_attester_admitted_for_a_different_suite_cannot_verify_the_request() {
    let (request, candidate) = candidate_under(Some("dev.product.conformance/real@1.0.0"));
    let attester = verifier_for("test.conformance/external_generate@1.0.0");
    match verify_and_admit(&request, &candidate, &attester, &admitting(&attester)) {
        Err(CapabilityAdmissionError::SuiteMismatch { expected, actual }) => {
            assert_eq!(expected, "dev.product.conformance/real@1.0.0");
            assert_eq!(actual, "test.conformance/external_generate@1.0.0");
        }
        other => panic!("{other:?}"),
    }
}

#[test]
fn binding_without_an_override_keeps_the_declared_default() {
    let (request, _) = external_candidate();
    assert_eq!(request.body.conformance_suite, "test.conformance/external_generate@1.0.0");
}

#[test]
fn independent_passing_conformance_admits_exact_candidate_facts() {
    let (request, candidate) = external_candidate();
    let attester = attester_with(ConformanceOutcome::Passed);
    let admission = verify_and_admit(&request, &candidate, &attester, &admitting(&attester)).unwrap();
    assert!(admission.withheld.is_none());
    assert_eq!(admission.conformance.body.outcome, ConformanceOutcome::Passed);
    assert_eq!(admission.facts.len(), 1);
    let FactDerivation::Admitted { request: bound_request, candidate: bound_candidate, conformance_result, .. } =
        &admission.facts[0].derivation
    else {
        panic!("candidate fact must carry admitted derivation")
    };
    assert_eq!(bound_request, &request.request_id);
    assert_eq!(bound_candidate, &candidate.candidate_id);
    assert_eq!(conformance_result, &admission.conformance.result_id);
    assert!(admission.facts[0].fact_type.same_as(&fact("external_target")));

    let mut registry: CapabilityRegistry<NoProvider> = CapabilityRegistry::new();
    registry
        .register_spec(CapabilitySpec {
            id: request.body.capability.clone(),
            input_ports: request
                .body
                .requires
                .iter()
                .enumerate()
                .map(|(index, requirement)| InputPort {
                    name: port(&format!("input_{index}")),
                    value_kind: requirement.fact.clone(),
                    acceptance: requirement.acceptance,
                    extensions: Vec::new(),
                })
                .collect(),
            output_ports: request
                .body
                .produces
                .iter()
                .enumerate()
                .map(|(index, value_kind)| output(&format!("output_{index}"), value_kind.clone()))
                .collect(),
            default_conformance_suite: request.body.conformance_suite.clone(),
            extensions: Vec::new(),
        })
        .unwrap();
    let admitted = copy_fact(&admission.facts[0]);
    let resumed = registry.plan(vec![admitted.fact_type.clone()], &admitted.fact_type).unwrap();
    assert!(resumed.has_provider_for_every_step());
    assert!(resumed.needs.is_empty());
    assert_eq!(registry.execute(&resumed, vec![copy_fact(&admitted)]).unwrap().target, admitted);
}

#[test]
fn failed_conformance_is_preserved_without_admitting_facts() {
    let (request, candidate) = external_candidate();
    let attester = attester_with(ConformanceOutcome::Failed);
    let admission = verify_and_admit(&request, &candidate, &attester, &admitting(&attester)).unwrap();
    assert_eq!(admission.conformance.body.outcome, ConformanceOutcome::Failed);
    assert!(admission.facts.is_empty());
    assert_eq!(admission.withheld, Some(FactsWithheld::ConformanceFailed));
}

#[test]
fn a_passing_attester_this_host_does_not_admit_yields_no_facts() {
    let (request, candidate) = external_candidate();
    let attester = attester_with(ConformanceOutcome::Passed);
    let admission = verify_and_admit(&request, &candidate, &attester, &AdmissionPolicy::new()).unwrap();
    assert_eq!(admission.conformance.body.outcome, ConformanceOutcome::Passed);
    assert!(admission.facts.is_empty());
    assert_eq!(admission.withheld, Some(FactsWithheld::AttesterNotAdmitted));
}

#[test]
fn admission_binds_the_implementation_not_just_the_identity() {
    let (request, candidate) = external_candidate();
    let attester = attester_with(ConformanceOutcome::Passed);
    let mut other = attester.describe();
    other.implementation_digest = format!("sha256:{}", "e".repeat(64));
    let mut policy = AdmissionPolicy::new();
    policy.admit_attester(other);
    let admission = verify_and_admit(&request, &candidate, &attester, &policy).unwrap();
    assert_eq!(admission.withheld, Some(FactsWithheld::AttesterNotAdmitted));
}

#[test]
fn generating_provider_cannot_attest_its_own_candidate() {
    let (request, candidate) = external_candidate();
    let self_verifier = FixedVerifier {
        id: candidate.body.provider.id.clone(),
        suite: request.body.conformance_suite.clone(),
        implementation_digest: format!("sha256:{}", "d".repeat(64)),
        outcome: ConformanceOutcome::Passed,
    };
    assert!(matches!(
        verify_and_admit(&request, &candidate, &self_verifier, &admitting(&self_verifier)),
        Err(CapabilityAdmissionError::VerifierNotIndependent)
    ));
}

#[test]
fn admitting_an_attester_twice_keeps_one_binding() {
    let attester = attester_with(ConformanceOutcome::Passed);
    let mut policy = AdmissionPolicy::new();
    assert!(!policy.admits(&attester.describe()));
    policy.admit_attester(attester.describe());
    policy.admit_attester(attester.describe());
    assert!(policy.admits(&attester.describe()));
    assert_eq!(policy.admitted().len(), 1);
}

struct SilentVerifier(FixedVerifier);

impl CapabilityConformanceProvider for SilentVerifier {
    fn descriptor(&self) -> ConformanceProviderDescriptor {
        self.0.describe()
    }

    fn verify(&self, _: &CapabilityRequest, _: &CapabilityCandidate) -> Result<Vec<ConformanceCheck>, String> {
        Ok(Vec::new())
    }
}

#[test]
fn a_verifier_that_reports_no_checks_admits_nothing() {
    let (request, candidate) = external_candidate();
    let attester = SilentVerifier(attester_with(ConformanceOutcome::Passed));
    assert!(matches!(
        verify_and_admit(&request, &candidate, &attester, &admitting(&attester.0)),
        Err(CapabilityAdmissionError::NoChecks)
    ));
}
