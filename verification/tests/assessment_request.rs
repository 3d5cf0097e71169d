use gooir::admission::{ConformanceAttester, ConformanceAuthority};
use gooir::assessment::{AssessmentRequest, AssessmentRequestError};
use gooir::capability::{CapabilitySpec, FactAcceptance, InputPort, OutputPort};
use gooir::fact::Fact;
use gooir::identity::{ExactId, PortName};
use gooir::json::{JsonMember, JsonValue};
use gooir::protocol::{
    AdmittedFactRef, CapabilityCandidate, CapabilityInvocation, CapabilityOffer, CapabilityOutcome, CapabilityResult,
    EvidenceRef, ImplementationSelection, LinkedInput, NamedOutput, Sha256Digest,
};

fn sha(byte: char) -> Sha256Digest {
    Sha256Digest::parse(format!("sha256:{}", byte.to_string().repeat(64))).unwrap()
}

fn port(name: &str) -> PortName {
    PortName::parse(name.to_owned()).unwrap()
}

fn suite() -> ExactId {
    ExactId::new("test.conformance", "transform", "1.0.0")
}

fn kind(name: &str) -> ExactId {
    ExactId::new("test.values", name, "1.0.0")
}

fn fact(kind_name: &str, value: &str) -> Fact {
    Fact::new(
        kind(kind_name),
        JsonValue::Object(vec![JsonMember { key: "value".to_owned(), value: JsonValue::String(value.to_owned()) }]),
    )
    .unwrap()
}

fn evidence(byte: char) -> EvidenceRef {
    EvidenceRef::new(
        ExactId::new("test.evidence", "log", "1.0.0"),
        sha(byte),
        format!("opaque://evidence/{byte}"),
        Vec::new(),
    )
    .unwrap()
}

fn chain(evidence_byte: char) -> (CapabilityInvocation, CapabilityResult, CapabilityCandidate) {
    let specification = CapabilitySpec {
        id: ExactId::new("test.capability", "transform", "1.0.0"),
        input_ports: vec![InputPort {
            name: port("source"),
            value_kind: kind("source"),
            acceptance: FactAcceptance::CompleteOnly,
            extensions: Vec::new(),
        }],
        output_ports: vec![OutputPort { name: port("model"), value_kind: kind("model"), extensions: Vec::new() }],
        default_conformance_suite: suite().render(),
        extensions: Vec::new(),
    };
    let offer = CapabilityOffer::new(
        ExactId::new("test.producer", "transform", "1.0.0"),
        sha('a'),
        specification.id.clone(),
        Vec::new(),
    )
    .unwrap();
    let source = fact("source", "entity Task");
    let input = LinkedInput::new(
        port("source"),
        AdmittedFactRef::new(source.id.clone(), sha('9'), Vec::new()).unwrap(),
        source,
        Vec::new(),
    )
    .unwrap();
    let invocation = CapabilityInvocation::new(
        specification,
        ImplementationSelection::new(offer, Vec::new()).unwrap(),
        vec![input],
        suite(),
        Vec::new(),
    )
    .unwrap();
    let output = NamedOutput::new(port("model"), fact("model", "Task"), Vec::new()).unwrap();
    let result =
        CapabilityResult::produced(&invocation, vec![output], Vec::new(), vec![evidence(evidence_byte)], Vec::new())
            .unwrap();
    let candidate = CapabilityCandidate::new(&invocation, result.clone(), Vec::new()).unwrap();
    (invocation, result, candidate)
}

fn authority(suite: ExactId, implementation: ExactId, artifact: Sha256Digest) -> ConformanceAuthority {
    ConformanceAuthority::new(suite, ConformanceAttester::new(implementation, artifact, Vec::new()).unwrap(), Vec::new())
        .unwrap()
}

fn independent() -> ConformanceAuthority {
    authority(suite(), ExactId::new("test.attester", "transform", "1.0.0"), sha('b'))
}

#[test]
fn a_request_holds_the_exact_chain_and_the_selected_authority() {
    let (invocation, result, candidate) = chain('e');
    let request =
        AssessmentRequest::new(invocation.clone(), result.clone(), candidate.clone(), independent()).unwrap();
    assert_eq!(request.invocation(), &invocation);
    assert_eq!(request.result(), &result);
    assert_eq!(request.candidate(), &candidate);
    assert_eq!(request.authority(), &independent());
    request.validate().unwrap();
}

#[test]
fn a_request_without_host_evidence_is_still_a_request() {
    let (invocation, mut result, _) = chain('e');
    let CapabilityOutcome::Produced { outputs, extensions } = result.outcome.clone() else { unreachable!() };
    result = CapabilityResult::produced(&invocation, outputs, extensions, Vec::new(), Vec::new()).unwrap();
    assert!(result.evidence.is_empty());
    let candidate = CapabilityCandidate::new(&invocation, result.clone(), Vec::new()).unwrap();
    assert!(AssessmentRequest::new(invocation, result, candidate, independent()).is_ok());
}

#[test]
fn a_request_refuses_chain_and_attester_substitution() {
    let (invocation, result, candidate) = chain('e');
    let (_, substituted_result, _) = chain('f');
    let substituted_candidate = CapabilityCandidate::new(&invocation, substituted_result, Vec::new()).unwrap();
    let refused =
        AssessmentRequest::new(invocation.clone(), result.clone(), substituted_candidate, independent()).unwrap_err();
    assert!(matches!(refused, AssessmentRequestError::ResultCandidateMismatch));
    assert_eq!(refused.message().unwrap(), "assessment request result and candidate disagree");

    let same_artifact = authority(suite(), ExactId::new("test.attester", "transform", "1.0.0"), sha('a'));
    let refused =
        AssessmentRequest::new(invocation.clone(), result.clone(), candidate.clone(), same_artifact).unwrap_err();
    assert!(matches!(refused, AssessmentRequestError::NotIndependent));
    assert_eq!(refused.message().unwrap(), "selected attester is not independent of the provider");

    let same_implementation = authority(suite(), ExactId::new("test.producer", "transform", "1.0.0"), sha('b'));
    assert!(matches!(
        AssessmentRequest::new(invocation.clone(), result.clone(), candidate.clone(), same_implementation),
        Err(AssessmentRequestError::NotIndependent)
    ));

    let other_suite = authority(ExactId::new("test.conformance", "other", "1.0.0"), kind("attester"), sha('b'));
    let refused = AssessmentRequest::new(invocation, result, candidate, other_suite).unwrap_err();
    assert_eq!(
        refused.message().unwrap(),
        "assessment suite `test.conformance/other@1.0.0` does not match invocation suite `test.conformance/transform@1.0.0`"
    );
}

#[test]
fn a_request_refuses_a_tampered_result() {
    let (invocation, mut result, candidate) = chain('e');
    result.extensions.push(JsonMember { key: "x.test/tamper".to_owned(), value: JsonValue::Bool(true) });
    let refused = AssessmentRequest::new(invocation, result, candidate, independent()).unwrap_err();
    assert!(matches!(refused, AssessmentRequestError::Protocol(_)));
    assert!(refused.message().is_none());
}
