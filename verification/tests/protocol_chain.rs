use gooir::capability::{CapabilitySpec, FactAcceptance, InputPort, OutputPort};
use gooir::fact::Fact;
use gooir::identity::{ExactId, PortName};
use gooir::json::{JsonMember, JsonValue};
use gooir::protocol::{
    AdmittedFactRef, CapabilityCandidate, CapabilityFailure, CapabilityInvocation, CapabilityOffer,
    CapabilityOutcome, CapabilityResult, EvidenceRef, ImplementationSelection, LinkedInput, NamedOutput,
    ProtocolError, Sha256Digest,
};
use gooir::protocol::CANDIDATE_PROTOCOL;

fn sha(byte: char) -> Sha256Digest {
    Sha256Digest::parse(format!("sha256:{}", byte.to_string().repeat(64))).unwrap()
}

fn port(name: &str) -> PortName {
    PortName::parse(name.to_owned()).unwrap()
}

fn input_kind() -> ExactId {
    ExactId::new("test.values", "input", "1.0.0")
}

fn output_kind() -> ExactId {
    ExactId::new("test.values", "output", "1.0.0")
}

fn capability_id() -> ExactId {
    ExactId::new("test.capability", "compare", "1.0.0")
}

fn suite_id() -> ExactId {
    ExactId::new("test.suite", "compare", "1.0.0")
}

fn value_object(key: &str, value: JsonValue) -> JsonValue {
    JsonValue::Object(vec![JsonMember { key: key.to_owned(), value }])
}

fn specification() -> CapabilitySpec {
    CapabilitySpec {
        id: capability_id(),
        input_ports: vec![
            InputPort {
                name: port("left"),
                value_kind: input_kind(),
                acceptance: FactAcceptance::CompleteOnly,
                extensions: Vec::new(),
            },
            InputPort {
                name: port("right"),
                value_kind: input_kind(),
                acceptance: FactAcceptance::CompleteOnly,
                extensions: Vec::new(),
            },
        ],
        output_ports: vec![
            OutputPort { name: port("primary"), value_kind: output_kind(), extensions: Vec::new() },
            OutputPort { name: port("secondary"), value_kind: output_kind(), extensions: Vec::new() },
        ],
        default_conformance_suite: "test.suite/compare@1.0.0".to_owned(),
        extensions: Vec::new(),
    }
}

fn offer(name: &str, digest_byte: char) -> CapabilityOffer {
    CapabilityOffer::new(
        ExactId::new("test.implementation", name, "1.0.0"),
        sha(digest_byte),
        capability_id(),
        Vec::new(),
    )
    .unwrap()
}

fn fact(value: i64) -> Fact {
    Fact::new(input_kind(), value_object("value", JsonValue::Number(value.to_string()))).unwrap()
}

fn output_fact(value: i64) -> Fact {
    Fact::new(output_kind(), value_object("value", JsonValue::Number(value.to_string()))).unwrap()
}

fn linked(name: &str, fact: Fact, authority_byte: char) -> LinkedInput {
    LinkedInput::new(
        port(name),
        AdmittedFactRef::new(fact.id.clone(), sha(authority_byte), Vec::new()).unwrap(),
        fact,
        Vec::new(),
    )
    .unwrap()
}

fn invocation_with(selected: CapabilityOffer) -> CapabilityInvocation {
    CapabilityInvocation::new(
        specification(),
        ImplementationSelection::new(selected, Vec::new()).unwrap(),
        vec![linked("left", fact(1), '1'), linked("right", fact(2), '2')],
        suite_id(),
        Vec::new(),
    )
    .unwrap()
}

fn invocation() -> CapabilityInvocation {
    invocation_with(offer("second", 'b'))
}

fn evidence(name: &str, byte: char) -> EvidenceRef {
    EvidenceRef::new(
        ExactId::new("test.evidence", name, "1.0.0"),
        sha(byte),
        format!("opaque://evidence/{name}"),
        Vec::new(),
    )
    .unwrap()
}

fn outputs() -> Vec<NamedOutput> {
    vec![
        NamedOutput::new(port("primary"), output_fact(10), Vec::new()).unwrap(),
        NamedOutput::new(port("secondary"), output_fact(20), Vec::new()).unwrap(),
    ]
}

fn result(invocation: &CapabilityInvocation) -> CapabilityResult {
    CapabilityResult::produced(invocation, outputs(), Vec::new(), vec![evidence("log", 'c')], Vec::new()).unwrap()
}

fn produced_outputs(result: &mut CapabilityResult) -> &mut Vec<NamedOutput> {
    match &mut result.outcome {
        CapabilityOutcome::Produced { outputs, .. } => outputs,
        CapabilityOutcome::Unable { .. } => unreachable!(),
    }
}

fn outputs_member() -> JsonMember {
    JsonMember { key: "outputs".to_owned(), value: JsonValue::Array(Vec::new()) }
}

#[test]
fn two_offers_remain_visible_and_only_the_caller_choice_enters_the_invocation() {
    let first = offer("first", 'a');
    let second = offer("second", 'b');
    let eligible = [first.clone(), second.clone()];
    assert_eq!(eligible.len(), 2);
    assert_ne!(first.offer_id, second.offer_id);

    let selected_second = invocation_with(second.clone());
    assert_eq!(selected_second.selection.offer, second);
    assert_ne!(selected_second.selection.offer, first);

    let selected_first = invocation_with(first);
    assert_ne!(selected_first.invocation_id, selected_second.invocation_id);
}

#[test]
fn repeated_same_kind_ports_bind_distinct_facts_and_outputs() {
    let invocation = invocation();
    invocation.validate().unwrap();
    assert_eq!(invocation.inputs[0].fact.value_kind, input_kind());
    assert_eq!(invocation.inputs[1].fact.value_kind, input_kind());
    assert_ne!(invocation.inputs[0].fact.id, invocation.inputs[1].fact.id);

    let result = result(&invocation);
    result.validate_against(&invocation).unwrap();
    let CapabilityOutcome::Produced { outputs, .. } = &result.outcome else { panic!("fixture is produced") };
    assert_eq!(outputs[0].fact.value_kind, output_kind());
    assert_eq!(outputs[1].fact.value_kind, output_kind());
    assert_ne!(outputs[0].port, outputs[1].port);
}

#[test]
fn input_reference_kind_port_order_offer_and_result_correlation_fail_closed() {
    let valid = invocation();

    let mut substituted = valid.clone();
    substituted.inputs[0].admitted.fact_id = substituted.inputs[1].fact.id.clone();
    assert!(matches!(substituted.validate(), Err(ProtocolError::FactReferenceMismatch { .. })));

    let mut wrong_kind = valid.clone();
    let alien = Fact::new(
        ExactId::new("test.values", "alien", "1.0.0"),
        value_object("value", JsonValue::Number("1".to_owned())),
    )
    .unwrap();
    wrong_kind.inputs[0].admitted.fact_id = alien.id.clone();
    wrong_kind.inputs[0].fact = alien;
    assert!(matches!(wrong_kind.validate(), Err(ProtocolError::ValueKindMismatch { .. })));

    let mut wrong_port = valid.clone();
    wrong_port.inputs[0].port = port("unknown");
    assert!(matches!(wrong_port.validate(), Err(ProtocolError::PortSetMismatch { .. })));

    let mut reordered = valid.clone();
    reordered.inputs.swap(0, 1);
    assert!(matches!(reordered.validate(), Err(ProtocolError::PortOrderMismatch { .. })));

    let other_offer = CapabilityOffer::new(
        ExactId::new("test.implementation", "other", "1.0.0"),
        sha('d'),
        ExactId::new("test.capability", "other", "1.0.0"),
        Vec::new(),
    )
    .unwrap();
    assert!(matches!(
        CapabilityInvocation::new(
            specification(),
            ImplementationSelection::new(other_offer, Vec::new()).unwrap(),
            valid.inputs.clone(),
            suite_id(),
            Vec::new(),
        ),
        Err(ProtocolError::OfferCapabilityMismatch { .. })
    ));

    let mut wrong_correlation = result(&valid);
    wrong_correlation.invocation_id = sha('e');
    assert!(matches!(
        wrong_correlation.validate_against(&valid),
        Err(ProtocolError::InvocationCorrelationMismatch { .. })
    ));
}

#[test]
fn produced_outputs_require_exact_ports_kinds_facts_and_order() {
    let invocation = invocation();
    let valid = result(&invocation);

    let mut wrong_port = valid.clone();
    produced_outputs(&mut wrong_port)[0].port = port("other");
    assert!(matches!(wrong_port.validate_against(&invocation), Err(ProtocolError::PortSetMismatch { .. })));

    let mut wrong_kind = valid.clone();
    produced_outputs(&mut wrong_kind)[0].fact =
        Fact::new(input_kind(), value_object("wrong", JsonValue::Bool(true))).unwrap();
    assert!(matches!(wrong_kind.validate_against(&invocation), Err(ProtocolError::ValueKindMismatch { .. })));

    let mut repeated_port = valid.clone();
    produced_outputs(&mut repeated_port)[1].port = port("primary");
    assert!(matches!(repeated_port.validate_against(&invocation), Err(ProtocolError::DuplicatePort { .. })));

    let mut reordered = valid;
    produced_outputs(&mut reordered).swap(0, 1);
    assert!(matches!(reordered.validate_against(&invocation), Err(ProtocolError::PortOrderMismatch { .. })));
}

#[test]
fn unable_results_cannot_become_candidates_or_smuggle_outputs() {
    let invocation = invocation();
    let unable = CapabilityResult::unable(
        &invocation,
        CapabilityFailure::new(
            ExactId::new("test.failure", "unavailable", "1.0.0"),
            value_object("bounded", JsonValue::Bool(true)),
            Vec::new(),
        )
        .unwrap(),
        Vec::new(),
        vec![evidence("failure", 'f')],
        Vec::new(),
    )
    .unwrap();
    assert!(!unable.is_produced());
    assert!(matches!(
        CapabilityCandidate::new(&invocation, unable.clone(), Vec::new()),
        Err(ProtocolError::UnableResultCannotBecomeCandidate)
    ));

    // An `outputs` member smuggled into an unable outcome arrives as one of
    // its extensions.
    let mut smuggled = unable;
    match &mut smuggled.outcome {
        CapabilityOutcome::Unable { extensions, .. } => extensions.push(outputs_member()),
        CapabilityOutcome::Produced { .. } => unreachable!(),
    }
    assert!(matches!(
        smuggled.validate_against(&invocation),
        Err(ProtocolError::ReservedExtension { key, .. }) if key == "outputs"
    ));
}

#[test]
fn candidate_embeds_the_exact_result_and_has_no_replaceable_output_list() {
    let invocation = invocation();
    let result = result(&invocation);
    assert!(result.is_produced());
    let candidate = CapabilityCandidate::new(&invocation, result.clone(), Vec::new()).unwrap();
    assert_eq!(candidate.result, result);
    candidate.validate_against(&invocation).unwrap();

    let mut copied = candidate.clone();
    copied.extensions.push(outputs_member());
    assert!(matches!(
        copied.validate_against(&invocation),
        Err(ProtocolError::ReservedExtension { key, .. }) if key == "outputs"
    ));

    let mut replaced = candidate;
    produced_outputs(&mut replaced.result)[0].fact = output_fact(999);
    assert!(matches!(
        replaced.validate_against(&invocation),
        Err(ProtocolError::ContentIdentityMismatch { document, .. }) if document == "result"
    ));
}

#[test]
fn exact_array_order_is_not_normalized_into_one_identity() {
    let invocation = invocation();
    let first = CapabilityResult::produced(
        &invocation,
        outputs(),
        Vec::new(),
        vec![evidence("first", '1'), evidence("second", '2')],
        Vec::new(),
    )
    .unwrap();
    let second = CapabilityResult::produced(
        &invocation,
        outputs(),
        Vec::new(),
        vec![evidence("second", '2'), evidence("first", '1')],
        Vec::new(),
    )
    .unwrap();
    first.validate_against(&invocation).unwrap();
    second.validate_against(&invocation).unwrap();
    assert_ne!(first.result_id, second.result_id);
}

fn ext(key: &str, value: JsonValue) -> Vec<JsonMember> {
    vec![JsonMember { key: key.to_owned(), value }]
}

fn numbers(values: &[i64]) -> JsonValue {
    JsonValue::Array(values.iter().map(|v| JsonValue::Number(v.to_string())).collect())
}

#[test]
fn opaque_extensions_survive_every_level_and_change_enclosing_identities() {
    let extended_offer = CapabilityOffer::new(
        ExactId::new("test.implementation", "extended", "1.0.0"),
        sha('7'),
        capability_id(),
        ext("x.offer", value_object("v", numbers(&[2, 1]))),
    )
    .unwrap();
    let plain_offer = CapabilityOffer::new(
        extended_offer.implementation.clone(),
        extended_offer.artifact_digest.clone(),
        capability_id(),
        Vec::new(),
    )
    .unwrap();
    assert_ne!(extended_offer.offer_id, plain_offer.offer_id);

    let mut spec = specification();
    spec.extensions = ext("x.spec", JsonValue::Bool(true));
    spec.input_ports[0].extensions = ext("x.input_port", value_object("role", JsonValue::String("opaque".to_owned())));
    spec.output_ports[0].extensions = ext("x.output_port", JsonValue::Array(vec![JsonValue::String("future".to_owned())]));

    let left = fact(1);
    let admitted = AdmittedFactRef::new(left.id.clone(), sha('8'), ext("x.authority_ref", numbers(&[1]))).unwrap();
    let linked_left =
        LinkedInput::new(port("left"), admitted, left, ext("x.link", value_object("exact", JsonValue::Bool(true))))
            .unwrap();
    let selection =
        ImplementationSelection::new(extended_offer, ext("x.selection", JsonValue::String("caller".to_owned()))).unwrap();
    let extended_invocation = CapabilityInvocation::new(
        spec,
        selection,
        vec![linked_left, linked("right", fact(2), '9')],
        suite_id(),
        ext("x.invocation", numbers(&[3, 2, 1])),
    )
    .unwrap();
    extended_invocation.validate().unwrap();
    assert_eq!(extended_invocation.extensions, ext("x.invocation", numbers(&[3, 2, 1])));
    let without_invocation_extension = CapabilityInvocation::new(
        extended_invocation.specification.clone(),
        extended_invocation.selection.clone(),
        extended_invocation.inputs.clone(),
        extended_invocation.conformance_suite.clone(),
        Vec::new(),
    )
    .unwrap();
    assert_ne!(extended_invocation.invocation_id, without_invocation_extension.invocation_id);
    let mut selection_without_offer_extension = extended_invocation.selection.clone();
    selection_without_offer_extension.offer = plain_offer;
    let without_offer_extension = CapabilityInvocation::new(
        extended_invocation.specification.clone(),
        selection_without_offer_extension,
        extended_invocation.inputs.clone(),
        extended_invocation.conformance_suite.clone(),
        extended_invocation.extensions.clone(),
    )
    .unwrap();
    assert_ne!(extended_invocation.invocation_id, without_offer_extension.invocation_id);

    let mut tampers = Vec::new();
    let mut tampered = extended_invocation.clone();
    tampered.specification.extensions.clear();
    tampers.push(tampered);
    let mut tampered = extended_invocation.clone();
    tampered.specification.input_ports[0].extensions.clear();
    tampers.push(tampered);
    let mut tampered = extended_invocation.clone();
    tampered.specification.output_ports[0].extensions.clear();
    tampers.push(tampered);
    let mut tampered = extended_invocation.clone();
    tampered.inputs[0].admitted.extensions.clear();
    tampers.push(tampered);
    let mut tampered = extended_invocation.clone();
    tampered.inputs[0].extensions.clear();
    tampers.push(tampered);
    let mut tampered = extended_invocation.clone();
    tampered.selection.extensions.clear();
    tampers.push(tampered);
    for tampered in tampers {
        assert!(matches!(
            tampered.validate(),
            Err(ProtocolError::ContentIdentityMismatch { document, .. }) if document == "invocation"
        ));
    }

    let extended_evidence = EvidenceRef::new(
        ExactId::new("test.evidence", "trace", "1.0.0"),
        sha('a'),
        "opaque://trace/exact".to_owned(),
        ext("x.evidence", JsonValue::Array(vec![JsonValue::String("opaque".to_owned())])),
    )
    .unwrap();
    let extended_result = CapabilityResult::produced(
        &extended_invocation,
        vec![
            NamedOutput::new(port("primary"), output_fact(10), ext("x.output", value_object("n", numbers(&[1])))).unwrap(),
            NamedOutput::new(port("secondary"), output_fact(20), Vec::new()).unwrap(),
        ],
        ext("x.outcome", JsonValue::Bool(false)),
        vec![extended_evidence],
        ext("x.result", JsonValue::Number("7".to_owned())),
    )
    .unwrap();
    let plain_result =
        CapabilityResult::produced(&extended_invocation, outputs(), Vec::new(), vec![evidence("trace", 'a')], Vec::new())
            .unwrap();
    assert_ne!(extended_result.result_id, plain_result.result_id);
    extended_result.validate_against(&extended_invocation).unwrap();
    let mut tampers = Vec::new();
    let mut tampered = extended_result.clone();
    tampered.extensions.clear();
    tampers.push(tampered);
    let mut tampered = extended_result.clone();
    match &mut tampered.outcome {
        CapabilityOutcome::Produced { extensions, .. } => extensions.clear(),
        CapabilityOutcome::Unable { .. } => unreachable!(),
    }
    tampers.push(tampered);
    let mut tampered = extended_result.clone();
    produced_outputs(&mut tampered)[0].extensions.clear();
    tampers.push(tampered);
    let mut tampered = extended_result.clone();
    tampered.evidence[0].extensions.clear();
    tampers.push(tampered);
    for tampered in tampers {
        assert!(matches!(
            tampered.validate_against(&extended_invocation),
            Err(ProtocolError::ContentIdentityMismatch { document, .. }) if document == "result"
        ));
    }

    let extended_candidate = CapabilityCandidate::new(
        &extended_invocation,
        extended_result,
        ext("x.candidate", value_object("u", JsonValue::Null)),
    )
    .unwrap();
    extended_candidate.validate_against(&extended_invocation).unwrap();
    let without_candidate_extension =
        CapabilityCandidate::new(&extended_invocation, extended_candidate.result.clone(), Vec::new()).unwrap();
    assert_ne!(extended_candidate.candidate_id, without_candidate_extension.candidate_id);
    let plain_candidate = CapabilityCandidate::new(&extended_invocation, plain_result, Vec::new()).unwrap();
    assert_ne!(extended_candidate.candidate_id, plain_candidate.candidate_id);
}

#[test]
fn inability_failure_extensions_round_trip_and_change_result_identity() {
    let invocation = invocation();
    let plain_failure = CapabilityFailure::new(
        ExactId::new("test.failure", "blocked", "1.0.0"),
        value_object("reason", JsonValue::String("opaque".to_owned())),
        Vec::new(),
    )
    .unwrap();
    let plain = CapabilityResult::unable(&invocation, plain_failure.clone(), Vec::new(), Vec::new(), Vec::new()).unwrap();
    let extended_outcome = CapabilityResult::unable(
        &invocation,
        plain_failure.clone(),
        ext("x.unable", value_object("opaque", JsonValue::Bool(true))),
        Vec::new(),
        Vec::new(),
    )
    .unwrap();
    assert_ne!(plain.result_id, extended_outcome.result_id);
    extended_outcome.validate_against(&invocation).unwrap();

    let extended = CapabilityResult::unable(
        &invocation,
        CapabilityFailure::new(plain_failure.kind, plain_failure.detail, ext("x.failure", numbers(&[1, 2]))).unwrap(),
        Vec::new(),
        Vec::new(),
        Vec::new(),
    )
    .unwrap();
    assert_ne!(plain.result_id, extended.result_id);
    extended.validate_against(&invocation).unwrap();
}

#[test]
fn hostile_deserialization_and_tampering_require_revalidation() {
    let invocation = invocation();
    let candidate = CapabilityCandidate::new(&invocation, result(&invocation), Vec::new()).unwrap();

    assert!(Sha256Digest::parse("sha256:NOT-A-DIGEST".to_owned()).is_err());

    let mut wrong_protocol = candidate.clone();
    assert_eq!(wrong_protocol.protocol, CANDIDATE_PROTOCOL);
    wrong_protocol.protocol = "org.gooi.capability.candidate/v99".to_owned();
    assert!(matches!(wrong_protocol.validate_against(&invocation), Err(ProtocolError::ProtocolMismatch { .. })));

    let mut valid_but_wrong_id = candidate.clone();
    valid_but_wrong_id.candidate_id = sha('9');
    assert!(matches!(
        valid_but_wrong_id.validate_against(&invocation),
        Err(ProtocolError::ContentIdentityMismatch { document, .. }) if document == "candidate"
    ));

    let mut shadowed = candidate;
    shadowed.extensions = ext("result", JsonValue::Null);
    assert!(matches!(
        shadowed.validate_against(&invocation),
        Err(ProtocolError::ReservedExtension { key, .. }) if key == "result"
    ));
}

#[test]
fn every_protocol_extension_scope_rejects_known_field_shadows() {
    let valid_invocation = invocation();

    let mut offer = valid_invocation.selection.offer.clone();
    offer.extensions = ext("offer_id", JsonValue::Null);
    assert!(matches!(offer.validate(), Err(ProtocolError::ReservedExtension { key, .. }) if key == "offer_id"));

    let mut selection = valid_invocation.selection.clone();
    selection.extensions = ext("offer", JsonValue::Null);
    assert!(matches!(selection.validate(), Err(ProtocolError::ReservedExtension { key, .. }) if key == "offer"));

    let mut admitted = valid_invocation.inputs[0].admitted.clone();
    admitted.extensions = ext("authority_record_id", JsonValue::Null);
    assert!(matches!(
        admitted.validate(),
        Err(ProtocolError::ReservedExtension { key, .. }) if key == "authority_record_id"
    ));

    let mut linked = valid_invocation.inputs[0].clone();
    linked.extensions = ext("fact", JsonValue::Null);
    assert!(matches!(linked.validate_envelope(), Err(ProtocolError::ReservedExtension { key, .. }) if key == "fact"));

    let mut invocation = valid_invocation.clone();
    invocation.extensions = ext("inputs", JsonValue::Null);
    assert!(matches!(invocation.validate(), Err(ProtocolError::ReservedExtension { key, .. }) if key == "inputs"));

    for field in ["id", "input_ports", "output_ports"] {
        let mut specification = valid_invocation.specification.clone();
        match field {
            "id" => specification.extensions = ext("id", JsonValue::Null),
            "input_ports" => specification.input_ports[0].extensions = ext("name", JsonValue::Null),
            "output_ports" => specification.output_ports[0].extensions = ext("value_kind", JsonValue::Null),
            _ => unreachable!(),
        }
        assert!(matches!(
            CapabilityInvocation::new(
                specification,
                valid_invocation.selection.clone(),
                valid_invocation.inputs.clone(),
                suite_id(),
                Vec::new(),
            ),
            Err(ProtocolError::InvalidCapability(_))
        ));
    }

    let mut evidence = evidence("shadow", '3');
    evidence.extensions = ext("digest", JsonValue::Null);
    assert!(matches!(evidence.validate(), Err(ProtocolError::ReservedExtension { key, .. }) if key == "digest"));

    let mut failure = CapabilityFailure::new(
        ExactId::new("test.failure", "shadow", "1.0.0"),
        JsonValue::Object(Vec::new()),
        Vec::new(),
    )
    .unwrap();
    failure.extensions = ext("kind", JsonValue::Null);
    assert!(matches!(failure.validate(), Err(ProtocolError::ReservedExtension { key, .. }) if key == "kind"));

    let mut output = outputs().remove(0);
    output.extensions = ext("port", JsonValue::Null);
    assert!(matches!(output.validate_envelope(), Err(ProtocolError::ReservedExtension { key, .. }) if key == "port"));

    let mut shadowed_result = result(&valid_invocation);
    shadowed_result.extensions = ext("evidence", JsonValue::Null);
    assert!(matches!(
        shadowed_result.validate_against(&valid_invocation),
        Err(ProtocolError::ReservedExtension { key, .. }) if key == "evidence"
    ));

    let mut outcome = result(&valid_invocation);
    match &mut outcome.outcome {
        CapabilityOutcome::Produced { extensions, .. } => *extensions = ext("outputs", JsonValue::Null),
        CapabilityOutcome::Unable { .. } => unreachable!(),
    }
    assert!(matches!(
        outcome.validate_against(&valid_invocation),
        Err(ProtocolError::ReservedExtension { key, .. }) if key == "outputs"
    ));

    let mut candidate = CapabilityCandidate::new(&valid_invocation, result(&valid_invocation), Vec::new()).unwrap();
    candidate.extensions = ext("result", JsonValue::Null);
    assert!(matches!(
        candidate.validate_against(&valid_invocation),
        Err(ProtocolError::ReservedExtension { key, .. }) if key == "result"
    ));
}
