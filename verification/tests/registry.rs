use std::collections::BTreeSet;
use std::sync::atomic::{AtomicUsize, Ordering};
use std::sync::Arc;

use gooir::capability::{
    CapabilitySpec, FactAcceptance, FactCoverage, FactDerivation, FactInstance, InputPort, OutputPort, ProducedFact,
    ProviderDescriptor, RegistryError,
};
use gooir::identity::{CapabilityId, FactType, PortName, ProviderId};
use gooir::json::{JsonMember, JsonValue};
use gooir::registry::{
    answer, Answer, CapabilityProvider, CapabilityRegistry, Candidate, DerivationPlan, DerivationRequest, ExecutionError,
    PlanError, PlanStep, RequestRefusal,
};

fn fact(name: &str) -> FactType {
    FactType::new("test", name, "1")
}

fn port(name: &str) -> PortName {
    PortName::parse(name.to_owned()).unwrap()
}

fn complete_input(name: &str, value_kind: FactType) -> InputPort {
    InputPort { name: port(name), value_kind, acceptance: FactAcceptance::CompleteOnly, extensions: Vec::new() }
}

fn output(name: &str, value_kind: FactType) -> OutputPort {
    OutputPort { name: port(name), value_kind, extensions: Vec::new() }
}

fn capability(name: &str, requires: Vec<FactType>, produces: Vec<FactType>) -> CapabilitySpec {
    CapabilitySpec {
        id: CapabilityId::new("test", name, "1"),
        input_ports: requires
            .into_iter()
            .enumerate()
            .map(|(index, value_kind)| complete_input(&format!("input_{index}"), value_kind))
            .collect(),
        output_ports: produces
            .into_iter()
            .enumerate()
            .map(|(index, value_kind)| output(&format!("output_{index}"), value_kind))
            .collect(),
        default_conformance_suite: format!("test/{name}@1"),
        extensions: Vec::new(),
    }
}

fn same_spec(spec: &CapabilitySpec) -> CapabilitySpec {
    gooir::registry::copy_spec(spec)
}

enum TestProvider {
    Copy { descriptor: ProviderDescriptor, output: FactType },
    Failing(ProviderDescriptor),
    Counting { descriptor: ProviderDescriptor, invocations: Arc<AtomicUsize>, output: FactType },
}

fn clone_descriptor(d: &ProviderDescriptor) -> ProviderDescriptor {
    ProviderDescriptor {
        id: d.id.clone(),
        capability: d.capability.clone(),
        implementation_digest: d.implementation_digest.clone(),
    }
}

impl CapabilityProvider for TestProvider {
    fn descriptor(&self) -> ProviderDescriptor {
        match self {
            TestProvider::Copy { descriptor, .. } => clone_descriptor(descriptor),
            TestProvider::Failing(descriptor) => clone_descriptor(descriptor),
            TestProvider::Counting { descriptor, .. } => clone_descriptor(descriptor),
        }
    }

    fn invoke(&self, _: &CapabilitySpec, inputs: &[FactInstance]) -> Result<Vec<ProducedFact>, String> {
        match self {
            TestProvider::Copy { output, .. } => Ok(vec![ProducedFact {
                fact_type: output.clone(),
                coverage: FactCoverage::Complete,
                payload: JsonValue::Object(vec![JsonMember {
                    key: "inputs".to_owned(),
                    value: JsonValue::Array(
                        inputs.iter().map(|input| JsonValue::String(input.id.clone())).collect(),
                    ),
                }]),
            }]),
            TestProvider::Failing(_) => Err("the upstream service was unreachable".to_owned()),
            TestProvider::Counting { invocations, output, .. } => {
                invocations.fetch_add(1, Ordering::SeqCst);
                Ok(vec![ProducedFact {
                    fact_type: output.clone(),
                    coverage: FactCoverage::Complete,
                    payload: JsonValue::Object(vec![JsonMember {
                        key: "counted".to_owned(),
                        value: JsonValue::Bool(true),
                    }]),
                }])
            }
        }
    }
}

fn register_copy(registry: &mut CapabilityRegistry<TestProvider>, spec: &CapabilitySpec, output: FactType) {
    registry
        .register_provider(TestProvider::Copy {
            descriptor: ProviderDescriptor {
                id: ProviderId::new("test.provider", &spec.id.name, "1"),
                capability: spec.id.clone(),
                implementation_digest: format!("sha256:{:064}", spec.id.name.len()),
            },
            output,
        })
        .unwrap();
}

fn held(fact_type: &FactType) -> FactInstance {
    FactInstance::initial(
        fact_type.clone(),
        FactCoverage::Complete,
        JsonValue::Object(vec![JsonMember { key: "value".to_owned(), value: JsonValue::Number("1".to_owned()) }]),
        "fixture".to_owned(),
    )
    .unwrap()
}

fn one_hop(with_provider: bool) -> (CapabilityRegistry<TestProvider>, FactType, FactType) {
    let (a, b) = (fact("a"), fact("b"));
    let spec = capability("make", vec![a.clone()], vec![b.clone()]);
    let mut registry = CapabilityRegistry::new();
    registry.register_spec(same_spec(&spec)).unwrap();
    if with_provider {
        register_copy(&mut registry, &spec, b.clone());
    }
    (registry, a, b)
}

fn request(target: &FactType, inputs: Vec<FactInstance>) -> DerivationRequest {
    DerivationRequest { target: target.clone(), inputs }
}

#[test]
fn multi_input_capabilities_are_planned_as_hyperedges() {
    let (a, b, c) = (fact("a"), fact("b"), fact("c"));
    let spec = capability("compose", vec![a.clone(), b.clone()], vec![c.clone()]);
    let mut registry = CapabilityRegistry::new();
    registry.register_spec(same_spec(&spec)).unwrap();
    register_copy(&mut registry, &spec, c.clone());

    assert!(registry.plan(vec![a.clone()], &c).is_err());
    let plan = registry.plan(vec![a, b], &c).unwrap();
    assert!(plan.has_provider_for_every_step());
    assert_eq!(plan.steps.len(), 1);
}

#[test]
fn absent_provider_becomes_a_machine_readable_capability_need() {
    let (source, target) = (fact("source"), fact("target"));
    let spec = capability("missing", vec![source.clone()], vec![target.clone()]);
    let mut registry: CapabilityRegistry<TestProvider> = CapabilityRegistry::new();
    registry.register_spec(same_spec(&spec)).unwrap();

    let plan = registry.plan(vec![source], &target).unwrap();
    assert!(!plan.has_provider_for_every_step());
    assert_eq!(plan.needs.len(), 1);
    assert_eq!(plan.needs[0].specification, spec);
    assert_eq!(plan.needs[0].reason, "no installed provider implements this exact capability");
}

#[test]
fn exact_versions_do_not_match_implicitly() {
    let source_v1 = FactType::new("test", "source", "1");
    let source_v2 = FactType::new("test", "source", "2");
    let target = fact("target");
    let spec = capability("exact", vec![source_v1], vec![target.clone()]);
    let mut registry: CapabilityRegistry<TestProvider> = CapabilityRegistry::new();
    registry.register_spec(spec).unwrap();
    assert_eq!(registry.plan(vec![source_v2], &target), Err(PlanError::Unreachable(target)));
}

#[test]
fn execution_binds_provenance_to_capability_provider_and_inputs() {
    let (source, target) = (fact("source"), fact("target"));
    let spec = capability("copy", vec![source.clone()], vec![target.clone()]);
    let mut registry = CapabilityRegistry::new();
    registry.register_spec(same_spec(&spec)).unwrap();
    register_copy(&mut registry, &spec, target.clone());
    let plan = registry.plan(vec![source.clone()], &target).unwrap();
    let input = held(&source);
    let input_id = input.id.clone();

    let report = registry.execute(&plan, vec![input]).unwrap();
    let FactDerivation::Produced { capability, provider: _, inputs } = &report.target.derivation else {
        panic!("target is produced");
    };
    assert_eq!(capability, &spec.id);
    assert_eq!(inputs, &vec![input_id]);
    assert_eq!(report.facts.len(), 2);
    assert_eq!(report.facts[0].fact_type, source);
    assert_eq!(report.facts[1], report.target);
}

#[test]
fn complete_only_requirement_rejects_partial_input() {
    let (source, target) = (fact("source"), fact("target"));
    let spec = capability("copy", vec![source.clone()], vec![target.clone()]);
    let mut registry = CapabilityRegistry::new();
    registry.register_spec(same_spec(&spec)).unwrap();
    register_copy(&mut registry, &spec, target.clone());
    let plan = registry.plan(vec![source.clone()], &target).unwrap();
    let input =
        FactInstance::initial(source.clone(), FactCoverage::Partial, JsonValue::Null, "fixture".to_owned()).unwrap();
    match registry.execute(&plan, vec![input]) {
        Err(ExecutionError::PartialInputRejected { capability, fact }) => {
            assert_eq!(*capability, spec.id);
            assert_eq!(*fact, source);
        }
        other => panic!("{other:?}"),
    }
}

#[test]
fn duplicate_registrations_are_refused() {
    let spec = capability("make", vec![fact("a")], vec![fact("b")]);
    let mut registry: CapabilityRegistry<TestProvider> = CapabilityRegistry::new();
    registry.register_spec(same_spec(&spec)).unwrap();
    assert!(matches!(
        registry.register_spec(same_spec(&spec)),
        Err(RegistryError::DuplicateCapability(id)) if id == spec.id
    ));
    let unknown = TestProvider::Failing(ProviderDescriptor {
        id: ProviderId::new("test.provider", "p", "1"),
        capability: CapabilityId::new("test", "other", "1"),
        implementation_digest: format!("sha256:{}", "a".repeat(64)),
    });
    assert!(matches!(registry.register_provider(unknown), Err(RegistryError::UnknownCapability(_))));
    register_copy(&mut registry, &spec, fact("b"));
    let again = TestProvider::Failing(ProviderDescriptor {
        id: ProviderId::new("test.provider", "make", "1"),
        capability: spec.id.clone(),
        implementation_digest: format!("sha256:{}", "b".repeat(64)),
    });
    assert!(matches!(registry.register_provider(again), Err(RegistryError::DuplicateProvider(_))));
    assert_eq!(registry.provider_descriptors().len(), 1);
    assert_eq!(registry.specs().len(), 1);
}

#[test]
fn duplicate_port_names_are_rejected_within_a_direction_only() {
    let same = fact("same");
    let mut registry: CapabilityRegistry<TestProvider> = CapabilityRegistry::new();
    registry
        .register_spec(CapabilitySpec {
            id: CapabilityId::new("test", "direction_scoped", "1"),
            input_ports: vec![complete_input("value", same.clone())],
            output_ports: vec![output("value", same.clone())],
            default_conformance_suite: "test/direction_scoped@1".to_owned(),
            extensions: Vec::new(),
        })
        .unwrap();
    let duplicate = CapabilitySpec {
        id: CapabilityId::new("test", "duplicate", "1"),
        input_ports: vec![complete_input("value", same.clone()), complete_input("value", same.clone())],
        output_ports: vec![output("result", same)],
        default_conformance_suite: "test/duplicate@1".to_owned(),
        extensions: Vec::new(),
    };
    assert!(matches!(
        registry.register_spec(duplicate),
        Err(RegistryError::InvalidCapability { reason, .. }) if reason.contains("duplicate input port")
    ));
}

#[test]
fn malformed_value_kinds_cannot_enter_the_registry() {
    let malformed = FactType::new("test/nested", "output", "1");
    let spec = capability("bad_output", Vec::new(), vec![malformed]);
    let mut registry: CapabilityRegistry<TestProvider> = CapabilityRegistry::new();
    assert!(matches!(registry.register_spec(spec), Err(RegistryError::InvalidCapability { .. })));
}

#[test]
fn planning_prefers_provided_then_shorter_routes() {
    let (a, b, c) = (fact("a"), fact("b"), fact("c"));
    let direct = capability("direct", vec![a.clone()], vec![c.clone()]);
    let first = capability("first", vec![a.clone()], vec![b.clone()]);
    let second = capability("second", vec![b.clone()], vec![c.clone()]);
    let mut registry = CapabilityRegistry::new();
    registry.register_spec(same_spec(&direct)).unwrap();
    registry.register_spec(same_spec(&first)).unwrap();
    registry.register_spec(same_spec(&second)).unwrap();
    register_copy(&mut registry, &first, b.clone());
    register_copy(&mut registry, &second, c.clone());

    let plan = registry.plan(vec![a.clone()], &c).unwrap();
    let names: Vec<&str> = plan.steps.iter().map(|step| step.capability.name.as_str()).collect();
    assert_eq!(names, ["first", "second"]);
    assert!(plan.has_provider_for_every_step());

    register_copy(&mut registry, &direct, c.clone());
    let plan = registry.plan(vec![a], &c).unwrap();
    assert_eq!(plan.steps.len(), 1);
    assert_eq!(plan.steps[0].capability, direct.id);
}

#[test]
fn candidate_scores_count_missing_providers_then_length_then_identity() {
    let with = PlanStep { capability: CapabilityId::new("test", "b", "1"), provider: Some(ProviderId::new("p", "b", "1")) };
    let without = PlanStep { capability: CapabilityId::new("test", "a", "1"), provider: None };
    let candidate = Candidate {
        steps: vec![
            PlanStep { capability: with.capability.clone(), provider: with.provider.clone() },
            PlanStep { capability: without.capability.clone(), provider: None },
        ],
    };
    let (missing, length, identity) = candidate.score();
    assert_eq!(missing, 1);
    assert_eq!(length, 2);
    assert_eq!(identity, "test/b@1|test/a@1");
    let provided = Candidate { steps: vec![with] };
    let open = Candidate { steps: vec![without] };
    assert!(provided.scores_below(&open));
    assert!(!open.scores_below(&provided));
    assert!(!provided.scores_below(&provided));
}

#[test]
fn repeated_input_and_output_ports_are_adapter_refusals_not_provider_failures() {
    let source = fact("adapter_source");
    let target = fact("adapter_target");
    let repeated_input = CapabilitySpec {
        id: CapabilityId::new("test", "repeated_input", "1"),
        input_ports: vec![complete_input("left", source.clone()), complete_input("right", source.clone())],
        output_ports: vec![output("result", target.clone())],
        default_conformance_suite: "test/repeated_input@1".to_owned(),
        extensions: Vec::new(),
    };
    let mut input_registry = CapabilityRegistry::new();
    input_registry.register_spec(same_spec(&repeated_input)).unwrap();
    register_copy(&mut input_registry, &repeated_input, target.clone());
    let input_answer = answer(&input_registry, &request(&target, vec![held(&source)]));
    assert!(matches!(
        &input_answer,
        Answer::Refused(RequestRefusal::LegacyAdapterRepeatedInputKind { capability, value_kind })
            if **capability == repeated_input.id && **value_kind == source
    ));
    assert_eq!(input_answer.remedy(), "use an invocation adapter that binds exact named ports to fact identities");

    let repeated_output = CapabilitySpec {
        id: CapabilityId::new("test", "repeated_output", "1"),
        input_ports: vec![complete_input("source", source.clone())],
        output_ports: vec![output("first", target.clone()), output("second", target.clone())],
        default_conformance_suite: "test/repeated_output@1".to_owned(),
        extensions: Vec::new(),
    };
    let mut output_registry = CapabilityRegistry::new();
    output_registry.register_spec(same_spec(&repeated_output)).unwrap();
    register_copy(&mut output_registry, &repeated_output, target.clone());
    let output_answer = answer(&output_registry, &request(&target, vec![held(&source)]));
    assert!(matches!(
        output_answer,
        Answer::Refused(RequestRefusal::LegacyAdapterRepeatedOutputKind { capability, value_kind })
            if *capability == repeated_output.id && *value_kind == fact("adapter_target")
    ));
}

#[test]
fn legacy_execution_preflights_every_step_before_any_provider_runs() {
    let (a, b, c) = (fact("preflight_a"), fact("preflight_b"), fact("preflight_c"));
    let first = capability("preflight_first", vec![a.clone()], vec![b.clone()]);
    let second = CapabilitySpec {
        id: CapabilityId::new("test", "preflight_second", "1"),
        input_ports: vec![complete_input("left", b.clone()), complete_input("right", b.clone())],
        output_ports: vec![output("result", c.clone())],
        default_conformance_suite: "test/preflight_second@1".to_owned(),
        extensions: Vec::new(),
    };
    let invocations = Arc::new(AtomicUsize::new(0));
    let mut registry = CapabilityRegistry::new();
    registry.register_spec(same_spec(&first)).unwrap();
    registry.register_spec(same_spec(&second)).unwrap();
    registry
        .register_provider(TestProvider::Counting {
            descriptor: ProviderDescriptor {
                id: ProviderId::new("test.provider", "preflight_first", "1"),
                capability: first.id.clone(),
                implementation_digest: format!("sha256:{}", "1".repeat(64)),
            },
            invocations: invocations.clone(),
            output: b,
        })
        .unwrap();
    register_copy(&mut registry, &second, c.clone());

    let plan = registry.plan(vec![a.clone()], &c).unwrap();
    assert!(matches!(
        registry.execute(&plan, vec![held(&a)]),
        Err(ExecutionError::RepeatedInputValueKindPortsUnsupported { .. })
    ));
    assert_eq!(invocations.load(Ordering::SeqCst), 0);
    assert!(matches!(
        answer(&registry, &request(&c, vec![held(&a)])),
        Answer::Refused(RequestRefusal::LegacyAdapterRepeatedInputKind { .. })
    ));
    assert_eq!(invocations.load(Ordering::SeqCst), 0);
}

#[test]
fn every_answer_variant_is_reachable() {
    let (registry, a, b) = one_hop(true);
    let produced = answer(&registry, &request(&b, vec![held(&a)]));
    assert!(matches!(produced, Answer::Produced(_)), "{produced:?}");

    let (registry, a, b) = one_hop(false);
    let blocked = answer(&registry, &request(&b, vec![held(&a)]));
    assert!(matches!(blocked, Answer::Blocked(_)), "{blocked:?}");
    assert_eq!(blocked.needs().len(), 1);

    let empty: CapabilityRegistry<TestProvider> = CapabilityRegistry::new();
    let unreachable = answer(&empty, &request(&b, vec![held(&a)]));
    assert!(matches!(unreachable, Answer::Unreachable(_)), "{unreachable:?}");

    let (registry, a, b) = one_hop(true);
    let refused = answer(&registry, &request(&b, vec![held(&a), held(&a)]));
    assert!(matches!(refused, Answer::Refused(RequestRefusal::AmbiguousInput(_))), "{refused:?}");

    let (a, b) = (fact("a"), fact("b"));
    let spec = capability("make", vec![a.clone()], vec![b.clone()]);
    let mut registry = CapabilityRegistry::new();
    registry.register_spec(same_spec(&spec)).unwrap();
    registry
        .register_provider(TestProvider::Failing(ProviderDescriptor {
            id: ProviderId::new("test.provider", "make", "1"),
            capability: spec.id.clone(),
            implementation_digest: format!("sha256:{:064}", 1),
        }))
        .unwrap();
    let failed = answer(&registry, &request(&b, vec![held(&a)]));
    assert!(matches!(
        &failed,
        Answer::Failed(ExecutionError::ProviderFailed { error, .. }) if error == "the upstream service was unreachable"
    ), "{failed:?}");
}

#[test]
fn a_fact_is_never_reported_produced_when_the_route_had_open_needs() {
    let (registry, a, b) = one_hop(false);
    let given = answer(&registry, &request(&b, vec![held(&a)]));
    assert!(matches!(given, Answer::Blocked(_)), "{given:?}");
}

#[test]
fn work_is_never_reported_assignable_when_the_fact_was_actually_derivable() {
    let (registry, a, b) = one_hop(true);
    let given = answer(&registry, &request(&b, vec![held(&a)]));
    assert!(matches!(given, Answer::Produced(_)), "{given:?}");
    assert!(given.needs().is_empty());
}

#[test]
fn outcome_categories_and_refusal_causes_have_distinct_remedies() {
    let (registry, a, b) = one_hop(true);
    let produced = answer(&registry, &request(&b, vec![held(&a)]));
    let (blocked_registry, _, _) = one_hop(false);
    let blocked = answer(&blocked_registry, &request(&b, vec![held(&a)]));
    let empty: CapabilityRegistry<TestProvider> = CapabilityRegistry::new();
    let unreachable = answer(&empty, &request(&b, vec![held(&a)]));
    let refused = answer(&registry, &request(&b, vec![held(&a), held(&a)]));
    let adapter_refused = Answer::Refused(RequestRefusal::LegacyAdapterRepeatedInputKind {
        capability: Box::new(CapabilityId::new("test", "compare", "1")),
        value_kind: Box::new(a),
    });
    let failed = Answer::Failed(ExecutionError::AmbiguousInput);
    let remedies: BTreeSet<&str> =
        [&produced, &blocked, &unreachable, &refused, &adapter_refused, &failed].iter().map(|a| a.remedy()).collect();
    assert_eq!(remedies.len(), 6);
}

#[test]
fn a_route_without_steps_reports_the_held_target_and_misses_an_absent_one() {
    let (source, target) = (fact("source"), fact("target"));
    let registry: CapabilityRegistry<TestProvider> = CapabilityRegistry::new();
    let input = held(&source);
    let plan = DerivationPlan { target: source.clone(), steps: Vec::new(), needs: Vec::new() };
    let report = registry.execute(&plan, vec![held(&source)]).unwrap();
    assert_eq!(report.target, input);
    assert_eq!(report.facts, vec![input]);
    assert!(report.steps.is_empty());

    let absent = DerivationPlan { target: target.clone(), steps: Vec::new(), needs: Vec::new() };
    match registry.execute(&absent, vec![held(&source)]) {
        Err(ExecutionError::MissingTarget(t)) => assert_eq!(t, target),
        other => panic!("{other:?}"),
    }
}
