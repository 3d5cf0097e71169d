use gooir::capability::{FactAcceptance, RegistryError};
use gooir::identity::ExactId;
use gooir::json::{from_str, JsonMember, JsonValue};
use gooir::manifest::{
    pack_from_manifest, register_pack_specs, write_pack, CapabilityPack, ManifestCapability, ManifestInputPort,
    ManifestOutputPort, PackManifest, PackManifestError, PACK_PROTOCOL,
};
use gooir::registry::{CapabilityProvider, CapabilityRegistry};
use gooir::capability::{CapabilitySpec, FactInstance, ProducedFact, ProviderDescriptor};

struct NoProvider;

impl CapabilityProvider for NoProvider {
    fn descriptor(&self) -> ProviderDescriptor {
        unreachable!("no provider is registered")
    }

    fn invoke(&self, _: &CapabilitySpec, _: &[FactInstance]) -> Result<Vec<ProducedFact>, String> {
        unreachable!("no provider is registered")
    }
}

fn member(key: &str, value: JsonValue) -> JsonMember {
    JsonMember { key: key.to_owned(), value }
}

fn input(name: &str, value_kind: &str) -> ManifestInputPort {
    ManifestInputPort {
        name: name.to_owned(),
        value_kind: value_kind.to_owned(),
        acceptance: FactAcceptance::CompleteOnly,
        extensions: Vec::new(),
    }
}

fn output(name: &str, value_kind: &str) -> ManifestOutputPort {
    ManifestOutputPort { name: name.to_owned(), value_kind: value_kind.to_owned(), extensions: Vec::new() }
}

/// The manifest every test starts from: one capability that makes a
/// `made` fact from a `source` fact.
fn manifest() -> PackManifest {
    PackManifest {
        protocol: PACK_PROTOCOL.to_owned(),
        capabilities: vec![ManifestCapability {
            id: "test.capability/make@1.0.0".to_owned(),
            input_ports: vec![input("source", "test.fact/source@1.0.0")],
            output_ports: vec![output("result", "test.fact/made@1.0.0")],
            default_conformance_suite: "test.suite/make@1.0.0".to_owned(),
            extensions: Vec::new(),
        }],
        extensions: Vec::new(),
    }
}

fn pack() -> CapabilityPack {
    pack_from_manifest(manifest()).unwrap()
}

fn field<'a>(value: &'a JsonValue, key: &str) -> &'a JsonValue {
    match value {
        JsonValue::Object(members) => &members.iter().find(|m| m.key == key).expect(key).value,
        other => panic!("not an object: {other:?}"),
    }
}

fn item(value: &JsonValue, index: usize) -> &JsonValue {
    match value {
        JsonValue::Array(items) => &items[index],
        other => panic!("not an array: {other:?}"),
    }
}

#[test]
fn a_declared_graph_becomes_ordinary_specs() {
    let pack = pack();
    let specs = &pack.capabilities;
    assert_eq!(specs.len(), 1);
    assert_eq!(specs[0].id, ExactId::new("test.capability", "make", "1.0.0"));
    assert_eq!(specs[0].input_ports[0].acceptance, FactAcceptance::CompleteOnly);
    assert_eq!(specs[0].output_ports[0].value_kind, ExactId::new("test.fact", "made", "1.0.0"));
}

#[test]
fn a_registered_manifest_plans_like_any_other_graph() {
    let mut registry: CapabilityRegistry<NoProvider> = CapabilityRegistry::new();
    register_pack_specs(&mut registry, pack()).expect("registers");
    let plan = registry
        .plan(vec![ExactId::new("test.fact", "source", "1.0.0")], &ExactId::new("test.fact", "made", "1.0.0"))
        .expect("route exists");
    assert_eq!(plan.steps.len(), 1);
    assert!(!plan.has_provider_for_every_step(), "declared, but nobody implements it");
    assert_eq!(plan.needs.len(), 1);
}

#[test]
fn another_protocol_is_refused() {
    let mut other = manifest();
    other.protocol = "org.gooi.pack/v99".to_owned();
    assert!(matches!(pack_from_manifest(other), Err(PackManifestError::ProtocolMismatch { .. })));
}

#[test]
fn v1_anonymous_shapes_fail_as_a_protocol_mismatch_before_schema_parsing() {
    let old = PackManifest { protocol: "org.gooi.pack/v1".to_owned(), capabilities: Vec::new(), extensions: Vec::new() };
    assert!(matches!(
        pack_from_manifest(old),
        Err(PackManifestError::ProtocolMismatch { expected, actual })
            if expected == PACK_PROTOCOL && actual == "org.gooi.pack/v1"
    ));
}

#[test]
fn a_malformed_identity_names_the_capability_it_broke() {
    let mut bad = manifest();
    bad.capabilities[0].output_ports[0].value_kind = "not-an-identity".to_owned();
    let error = pack_from_manifest(bad).expect_err("must refuse");
    let text = error.message().expect("an identity refusal has a message");
    assert!(text.contains("test.capability/make@1.0.0"), "{text}");
    assert!(text.contains("not-an-identity"), "{text}");
}

#[test]
fn the_registry_still_validates_what_a_manifest_declares() {
    let mut empty = manifest();
    empty.capabilities[0].output_ports.clear();
    let mut registry: CapabilityRegistry<NoProvider> = CapabilityRegistry::new();
    assert!(matches!(
        register_pack_specs(&mut registry, pack_from_manifest(empty).unwrap()),
        Err(PackManifestError::Registry(_))
    ));
}

#[test]
fn specs_survive_a_trip_out_to_data_and_back() {
    let written = write_pack(&pack()).unwrap();
    let value = from_str(&written).unwrap();
    match field(&value, "protocol") {
        JsonValue::String(protocol) => assert_eq!(protocol, PACK_PROTOCOL),
        other => panic!("{other:?}"),
    }
    let capability = item(field(&value, "capabilities"), 0);
    assert_eq!(field(capability, "id"), &JsonValue::String("test.capability/make@1.0.0".to_owned()));
    let source = item(field(capability, "input_ports"), 0);
    assert_eq!(field(source, "name"), &JsonValue::String("source".to_owned()));
    assert_eq!(field(source, "value_kind"), &JsonValue::String("test.fact/source@1.0.0".to_owned()));
    assert_eq!(field(source, "acceptance"), &JsonValue::String("complete_only".to_owned()));
    let result = item(field(capability, "output_ports"), 0);
    assert_eq!(field(result, "value_kind"), &JsonValue::String("test.fact/made@1.0.0".to_owned()));
    assert_eq!(
        field(capability, "default_conformance_suite"),
        &JsonValue::String("test.suite/make@1.0.0".to_owned())
    );
}

#[test]
fn repeated_kinds_and_exact_port_spelling_survive_manifest_round_trip() {
    let mut repeated = manifest();
    repeated.capabilities[0].input_ports =
        vec![input("输入.Left-v1", "test.fact/source@1.0.0"), input("输入.Right-v1", "test.fact/source@1.0.0")];
    repeated.capabilities[0].output_ports =
        vec![output("Primary.Result", "test.fact/made@1.0.0"), output("Secondary.Result", "test.fact/made@1.0.0")];
    let pack = pack_from_manifest(repeated).unwrap();
    let specs = &pack.capabilities;
    let mut registry: CapabilityRegistry<NoProvider> = CapabilityRegistry::new();
    register_pack_specs(&mut registry, pack.clone()).unwrap();
    assert_eq!(specs[0].input_ports[0].name.as_str(), "输入.Left-v1");
    assert_eq!(specs[0].input_ports[0].value_kind, specs[0].input_ports[1].value_kind);
    assert_eq!(specs[0].output_ports[0].value_kind, specs[0].output_ports[1].value_kind);
    let written = from_str(&write_pack(&pack).unwrap()).unwrap();
    let capability = item(field(&written, "capabilities"), 0);
    assert_eq!(field(item(field(capability, "input_ports"), 1), "name"), &JsonValue::String("输入.Right-v1".to_owned()));
}

#[test]
fn malformed_and_duplicate_port_names_are_rejected() {
    let mut blank = manifest();
    blank.capabilities[0].input_ports[0].name = " ".to_owned();
    assert!(matches!(pack_from_manifest(blank), Err(PackManifestError::Identity { .. })));

    let mut duplicate = manifest();
    duplicate.capabilities[0].input_ports.push(input("source", "test.fact/other@1.0.0"));
    let mut registry: CapabilityRegistry<NoProvider> = CapabilityRegistry::new();
    assert!(matches!(
        register_pack_specs(&mut registry, pack_from_manifest(duplicate).unwrap()),
        Err(PackManifestError::Registry(RegistryError::InvalidCapability { .. }))
    ));
}

#[test]
fn unknown_extensions_survive_every_pack_declaration_level() {
    let mut extended = manifest();
    let root = member(
        "x.root",
        JsonValue::Object(vec![member(
            "opaque",
            JsonValue::Array(vec![
                JsonValue::Number("3".to_owned()),
                JsonValue::Number("2".to_owned()),
                JsonValue::Number("1".to_owned()),
            ]),
        )]),
    );
    let capability = member("x.capability", JsonValue::Object(vec![member("mode", JsonValue::String("future".to_owned()))]));
    let input_ext = member(
        "x.input",
        JsonValue::Array(vec![JsonValue::String("verbatim".to_owned()), JsonValue::Number("7".to_owned())]),
    );
    let output_ext = member("x.output", JsonValue::Bool(false));
    extended.extensions.push(root.clone());
    extended.capabilities[0].extensions.push(capability.clone());
    extended.capabilities[0].input_ports[0].extensions.push(input_ext.clone());
    extended.capabilities[0].output_ports[0].extensions.push(output_ext.clone());

    let pack = pack_from_manifest(extended).unwrap();
    assert_eq!(pack.extensions, vec![root.clone()]);
    assert_eq!(pack.capabilities[0].extensions, vec![capability.clone()]);
    assert_eq!(pack.capabilities[0].input_ports[0].extensions, vec![input_ext.clone()]);
    assert_eq!(pack.capabilities[0].output_ports[0].extensions, vec![output_ext.clone()]);

    let written = from_str(&write_pack(&pack).unwrap()).unwrap();
    assert_eq!(field(&written, "x.root"), &root.value);
    let declared = item(field(&written, "capabilities"), 0);
    assert_eq!(field(declared, "x.capability"), &capability.value);
    assert_eq!(field(item(field(declared, "input_ports"), 0), "x.input"), &input_ext.value);
    assert_eq!(field(item(field(declared, "output_ports"), 0), "x.output"), &output_ext.value);
}

#[test]
fn public_pack_writes_reject_reserved_extension_keys_at_every_level() {
    let mut root = pack();
    root.extensions.push(member("protocol", JsonValue::String("shadow".to_owned())));
    assert!(matches!(write_pack(&root), Err(PackManifestError::ReservedExtension { .. })));

    let mut capability = pack();
    capability.capabilities[0].extensions.push(member("id", JsonValue::Null));
    assert!(matches!(
        write_pack(&capability),
        Err(PackManifestError::Registry(RegistryError::InvalidCapability { .. }))
    ));

    let mut input = pack();
    input.capabilities[0].input_ports[0].extensions.push(member("acceptance", JsonValue::Null));
    assert!(matches!(
        write_pack(&input),
        Err(PackManifestError::Registry(RegistryError::InvalidCapability { .. }))
    ));

    let mut output = pack();
    output.capabilities[0].output_ports[0].extensions.push(member("value_kind", JsonValue::Null));
    assert!(matches!(
        write_pack(&output),
        Err(PackManifestError::Registry(RegistryError::InvalidCapability { .. }))
    ));
}
