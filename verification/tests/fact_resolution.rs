use gooir::capability::{CapabilitySpec, FactAcceptance, FactInstance, InputPort, OutputPort, ProducedFact, ProviderDescriptor};
use gooir::identity::{ExactId, PortName};
use gooir::registry::{known_facts, resolve, resolve_legacy, CapabilityProvider, CapabilityRegistry};

struct NoProvider;

impl CapabilityProvider for NoProvider {
    fn descriptor(&self) -> ProviderDescriptor {
        unreachable!("no provider is registered")
    }

    fn invoke(&self, _: &CapabilitySpec, _: &[FactInstance]) -> Result<Vec<ProducedFact>, String> {
        unreachable!("no provider is registered")
    }
}

fn fact(package: &str, name: &str) -> ExactId {
    ExactId::new(package, name, "1.0.0")
}

fn port(name: &str) -> PortName {
    PortName::parse(name.to_owned()).unwrap()
}

fn input(name: &str, value_kind: ExactId) -> InputPort {
    InputPort { name: port(name), value_kind, acceptance: FactAcceptance::CompleteOnly, extensions: Vec::new() }
}

fn output(name: &str, value_kind: ExactId) -> OutputPort {
    OutputPort { name: port(name), value_kind, extensions: Vec::new() }
}

fn registry() -> CapabilityRegistry<NoProvider> {
    let mut r = CapabilityRegistry::new();
    r.register_spec(CapabilitySpec {
        id: ExactId::new("t", "one", "1.0.0"),
        input_ports: vec![input("source", fact("t.source", "input"))],
        output_ports: vec![output("result", fact("t.artifact", "unique_name"))],
        default_conformance_suite: "t/suite@1".to_owned(),
        extensions: Vec::new(),
    })
    .unwrap();
    r.register_spec(CapabilitySpec {
        id: ExactId::new("t", "two", "1.0.0"),
        input_ports: vec![input("source", fact("t.source", "input"))],
        output_ports: vec![output("first", fact("t.a", "shared")), output("second", fact("t.b", "shared"))],
        default_conformance_suite: "t/suite@1".to_owned(),
        extensions: Vec::new(),
    })
    .unwrap();
    r
}

#[test]
fn known_facts_covers_inputs_and_outputs_without_duplicates() {
    let facts = known_facts(&registry());
    assert_eq!(facts.len(), 4, "{facts:?}");
    assert!(facts.contains(&fact("t.source", "input")));
    assert!(facts.contains(&fact("t.artifact", "unique_name")));
}

#[test]
fn a_full_identity_resolves_exactly() {
    let r = registry();
    let wanted = "t.artifact/unique_name@1.0.0";
    assert_eq!(resolve(&r, wanted).unwrap(), fact("t.artifact", "unique_name"));
}

#[test]
fn an_unambiguous_bare_name_resolves() {
    let r = registry();
    assert_eq!(resolve(&r, "unique_name").unwrap(), fact("t.artifact", "unique_name"));
}

#[test]
fn an_ambiguous_bare_name_lists_the_candidates_instead_of_choosing() {
    let r = registry();
    let error = resolve(&r, "shared").expect_err("must not choose");
    assert!(error.contains("ambiguous"), "{error}");
    assert!(error.contains("t.a/shared@1.0.0"), "{error}");
    assert!(error.contains("t.b/shared@1.0.0"), "{error}");
}

#[test]
fn an_unknown_name_points_at_the_listing_command() {
    let error = resolve(&registry(), "nope").expect_err("unknown");
    assert!(error.contains("gooir facts"), "{error}");
}

#[test]
fn the_legacy_bridge_resolves_by_the_same_rule_in_its_own_words() {
    let r = registry();
    assert_eq!(resolve_legacy(&r, "unique_name").unwrap(), fact("t.artifact", "unique_name"));
    assert_eq!(resolve_legacy(&r, "t.b/shared@1.0.0").unwrap(), fact("t.b", "shared"));
    assert_eq!(
        resolve_legacy(&r, "shared").unwrap_err(),
        "legacy fact type `shared` is ambiguous; name one exactly:\n  t.a/shared@1.0.0\n  t.b/shared@1.0.0"
    );
    assert_eq!(resolve_legacy(&r, "nope").unwrap_err(), "no legacy fact type named `nope`");
    assert_eq!(resolve(&r, "nope").unwrap_err(), "no fact type named `nope`. `gooir facts` lists them.");
}
