//! Declaring a capability graph as data. A capability is a promise about
//! types: what it requires, what it produces, and which suite a provider
//! must eventually pass. Value kinds are not listed separately; they are
//! exactly the identities the capabilities mention.

use vstd::prelude::*;
use crate::capability::{
    CapabilitySpec, FactAcceptance, InputPort, OutputPort, RegistryError, acceptance_name, first_reserved,
    reserved_key, spec_rejection, validate_spec,
};
use crate::identity::{ExactId, IdView, PortName, id_well_formed, lemma_parse_render, parse_id, render_id, valid_port_name};
use crate::json::{Json, JsonMember, JsonValue, json_array, json_text, key_views, push_member, render, to_text, value_views};
use crate::protocol::{object_with, str_views, with_ext};
use crate::registry::CapabilityRegistry;
use crate::text::{owned, str_eq, debug_escaped, escape_debug};

verus! {

/// The manifest contract version.
pub const PACK_PROTOCOL: &'static str = "org.gooi.pack/v2";

/// Semantic declarations and the unknown root extensions that travel with
/// them.
#[derive(Clone, Debug, PartialEq, Eq)]
pub struct CapabilityPack {
    pub capabilities: Vec<CapabilitySpec>,
    pub extensions: Vec<JsonMember>,
}

impl CapabilityPack {
    pub fn new(capabilities: Vec<CapabilitySpec>) -> (r: Self)
        ensures
            r.capabilities == capabilities,
            r.extensions@.len() == 0,
    {
        CapabilityPack { capabilities, extensions: Vec::new() }
    }
}

/// One declared input port as a manifest spells it.
#[derive(Clone, Debug, PartialEq, Eq)]
pub struct ManifestInputPort {
    pub name: String,
    /// A value-kind identity in display form, `package/name@version`.
    pub value_kind: String,
    pub acceptance: FactAcceptance,
    pub extensions: Vec<JsonMember>,
}

/// One declared output port as a manifest spells it.
#[derive(Clone, Debug, PartialEq, Eq)]
pub struct ManifestOutputPort {
    pub name: String,
    pub value_kind: String,
    pub extensions: Vec<JsonMember>,
}

/// One declared capability as a manifest spells it.
#[derive(Clone, Debug, PartialEq, Eq)]
pub struct ManifestCapability {
    pub id: String,
    pub input_ports: Vec<ManifestInputPort>,
    pub output_ports: Vec<ManifestOutputPort>,
    pub default_conformance_suite: String,
    pub extensions: Vec<JsonMember>,
}

/// A whole manifest, read into plain fields.
#[derive(Clone, Debug, PartialEq, Eq)]
pub struct PackManifest {
    pub protocol: String,
    pub capabilities: Vec<ManifestCapability>,
    pub extensions: Vec<JsonMember>,
}

/// Why a pack manifest is refused.
#[derive(Debug)]
pub enum PackManifestError {
    Parse(String),
    ProtocolMismatch { expected: String, actual: String },
    Identity { capability: String, detail: String },
    ReservedExtension { scope: String, key: String },
    Serialization(String),
    Registry(RegistryError),
}

/// Mathematical form of a manifest refusal; a registry refusal keeps only
/// its capability and reason when it is an invalid declaration.
pub enum PackFault {
    Parse(Seq<char>),
    ProtocolMismatch(Seq<char>, Seq<char>),
    Identity(Seq<char>, Seq<char>),
    ReservedExtension(Seq<char>, Seq<char>),
    Serialization(Seq<char>),
    InvalidCapability(IdView, Seq<char>),
    OtherRegistry,
}

pub open spec fn pack_fault_of(e: PackManifestError) -> PackFault {
    match e {
        PackManifestError::Parse(m) => PackFault::Parse(m@),
        PackManifestError::ProtocolMismatch { expected, actual } => PackFault::ProtocolMismatch(expected@, actual@),
        PackManifestError::Identity { capability, detail } => PackFault::Identity(capability@, detail@),
        PackManifestError::ReservedExtension { scope, key } => PackFault::ReservedExtension(scope@, key@),
        PackManifestError::Serialization(m) => PackFault::Serialization(m@),
        PackManifestError::Registry(RegistryError::InvalidCapability { capability, reason }) => PackFault::InvalidCapability(
            capability@,
            reason@,
        ),
        PackManifestError::Registry(_) => PackFault::OtherRegistry,
    }
}

/// Refuses a manifest of another protocol.
pub fn check_pack_protocol(protocol: &str) -> (r: Result<(), PackManifestError>)
    ensures
        r is Ok <==> protocol@ == PACK_PROTOCOL@,
        r matches Err(e) ==> pack_fault_of(e) == PackFault::ProtocolMismatch(PACK_PROTOCOL@, protocol@),
{
    if str_eq(protocol, PACK_PROTOCOL) {
        Ok(())
    } else {
        Err(PackManifestError::ProtocolMismatch { expected: owned(PACK_PROTOCOL), actual: owned(protocol) })
    }
}

/// "`text` is not an exact identity".
pub open spec fn id_error_text(text: Seq<char>) -> Seq<char> {
    "`"@ + text + "` is not an exact identity"@
}

/// "`name` is not an exact port name".
pub open spec fn port_error_text(name: Seq<char>) -> Seq<char> {
    "`"@ + debug_escaped(name) + "` is not an exact port name"@
}

fn id_error(text: &str) -> (r: String)
    ensures
        r@ == id_error_text(text@),
{
    let mut m = owned("`");
    m.append(text);
    m.append("` is not an exact identity");
    m
}

fn port_error(text: &str) -> (r: String)
    ensures
        r@ == port_error_text(text@),
{
    let mut m = owned("`");
    let escaped = escape_debug(text);
    m.append(escaped.as_str());
    m.append("` is not an exact port name");
    m
}

/// The first input port, from `i` on, with an invalid name or value kind.
pub open spec fn first_input_decl_fault(ports: Seq<ManifestInputPort>, i: int) -> Option<Seq<char>>
    decreases ports.len() - i,
{
    if i < 0 || i >= ports.len() {
        None
    } else if !valid_port_name(ports[i].name@) {
        Some(port_error_text(ports[i].name@))
    } else if parse_id(ports[i].value_kind@) is None {
        Some(id_error_text(ports[i].value_kind@))
    } else {
        first_input_decl_fault(ports, i + 1)
    }
}

pub open spec fn first_output_decl_fault(ports: Seq<ManifestOutputPort>, i: int) -> Option<Seq<char>>
    decreases ports.len() - i,
{
    if i < 0 || i >= ports.len() {
        None
    } else if !valid_port_name(ports[i].name@) {
        Some(port_error_text(ports[i].name@))
    } else if parse_id(ports[i].value_kind@) is None {
        Some(id_error_text(ports[i].value_kind@))
    } else {
        first_output_decl_fault(ports, i + 1)
    }
}

/// Why a declared capability's identities do not parse: its own
/// identity, then each input port, then each output port.
pub open spec fn decl_detail(c: ManifestCapability) -> Option<Seq<char>> {
    if parse_id(c.id@) is None {
        Some(id_error_text(c.id@))
    } else if first_input_decl_fault(c.input_ports@, 0) is Some {
        first_input_decl_fault(c.input_ports@, 0)
    } else {
        first_output_decl_fault(c.output_ports@, 0)
    }
}

/// The first declared capability, from `i` on, whose identities do not
/// parse.
pub open spec fn first_decl_fault(caps: Seq<ManifestCapability>, i: int) -> Option<PackFault>
    decreases caps.len() - i,
{
    if i < 0 || i >= caps.len() {
        None
    } else if decl_detail(caps[i]) is Some {
        Some(PackFault::Identity(caps[i].id@, decl_detail(caps[i])->Some_0))
    } else {
        first_decl_fault(caps, i + 1)
    }
}

/// Why a manifest does not read into a pack: another protocol, or an
/// identity that does not parse.
pub open spec fn manifest_fault(m: PackManifest) -> Option<PackFault> {
    if m.protocol@ != PACK_PROTOCOL@ {
        Some(PackFault::ProtocolMismatch(PACK_PROTOCOL@, m.protocol@))
    } else {
        first_decl_fault(m.capabilities@, 0)
    }
}

/// A specification is the declaration read: the same identities parsed,
/// the same port names in order, and the same suite and extensions.
pub open spec fn reads_as(s: CapabilitySpec, d: ManifestCapability) -> bool {
    &&& Some(s.id@) == parse_id(d.id@)
    &&& s.default_conformance_suite == d.default_conformance_suite
    &&& s.extensions == d.extensions
    &&& s.input_ports@.len() == d.input_ports@.len()
    &&& forall|k: int|
        0 <= k < s.input_ports@.len() ==> {
            let p = #[trigger] s.input_ports@[k];
            let q = d.input_ports@[k];
            &&& p.name@ == q.name@
            &&& Some(p.value_kind@) == parse_id(q.value_kind@)
            &&& p.acceptance == q.acceptance
            &&& p.extensions == q.extensions
        }
    &&& s.output_ports@.len() == d.output_ports@.len()
    &&& forall|k: int|
        0 <= k < s.output_ports@.len() ==> {
            let p = #[trigger] s.output_ports@[k];
            let q = d.output_ports@[k];
            &&& p.name@ == q.name@
            &&& Some(p.value_kind@) == parse_id(q.value_kind@)
            &&& p.extensions == q.extensions
        }
}

#[verifier::loop_isolation(false)]
fn read_inputs(ports: Vec<ManifestInputPort>) -> (r: Result<Vec<InputPort>, String>)
    ensures
        r is Ok <==> first_input_decl_fault(ports@, 0) is None,
        r matches Err(d) ==> first_input_decl_fault(ports@, 0) == Some(d@),
        r matches Ok(v) ==> v@.len() == ports@.len() && forall|k: int|
            0 <= k < v@.len() ==> {
                let p = #[trigger] v@[k];
                let q = ports@[k];
                &&& p.name@ == q.name@
                &&& Some(p.value_kind@) == parse_id(q.value_kind@)
                &&& p.acceptance == q.acceptance
                &&& p.extensions == q.extensions
            },
{
    let ghost all = ports@;
    let mut rest = ports;
    let mut out: Vec<InputPort> = Vec::new();
    while rest.len() > 0
        invariant
            out@.len() + rest@.len() == all.len(),
            rest@ == all.subrange(out@.len() as int, all.len() as int),
            first_input_decl_fault(all, 0) == first_input_decl_fault(all, out@.len() as int),
            forall|k: int|
                0 <= k < out@.len() ==> {
                    let p = #[trigger] out@[k];
                    let q = all[k];
                    &&& p.name@ == q.name@
                    &&& Some(p.value_kind@) == parse_id(q.value_kind@)
                    &&& p.acceptance == q.acceptance
                    &&& p.extensions == q.extensions
                },
        decreases rest@.len(),
    {
        let ghost i = out@.len() as int;
        let q = rest.remove(0);
        assert(q == all[i]);
        let name = match PortName::parse(q.name) {
            Ok(n) => n,
            Err(e) => {
                return Err(port_error(e.0.as_str()));
            },
        };
        let value_kind = match ExactId::parse(q.value_kind.as_str()) {
            Some(v) => v,
            None => {
                return Err(id_error(q.value_kind.as_str()));
            },
        };
        out.push(InputPort { name, value_kind, acceptance: q.acceptance, extensions: q.extensions });
        assert(rest@ =~= all.subrange(out@.len() as int, all.len() as int));
    }
    Ok(out)
}

#[verifier::loop_isolation(false)]
fn read_outputs(ports: Vec<ManifestOutputPort>) -> (r: Result<Vec<OutputPort>, String>)
    ensures
        r is Ok <==> first_output_decl_fault(ports@, 0) is None,
        r matches Err(d) ==> first_output_decl_fault(ports@, 0) == Some(d@),
        r matches Ok(v) ==> v@.len() == ports@.len() && forall|k: int|
            0 <= k < v@.len() ==> {
                let p = #[trigger] v@[k];
                let q = ports@[k];
                &&& p.name@ == q.name@
                &&& Some(p.value_kind@) == parse_id(q.value_kind@)
                &&& p.extensions == q.extensions
            },
{
    let ghost all = ports@;
    let mut rest = ports;
    let mut out: Vec<OutputPort> = Vec::new();
    while rest.len() > 0
        invariant
            out@.len() + rest@.len() == all.len(),
            rest@ == all.subrange(out@.len() as int, all.len() as int),
            first_output_decl_fault(all, 0) == first_output_decl_fault(all, out@.len() as int),
            forall|k: int|
                0 <= k < out@.len() ==> {
                    let p = #[trigger] out@[k];
                    let q = all[k];
                    &&& p.name@ == q.name@
                    &&& Some(p.value_kind@) == parse_id(q.value_kind@)
                    &&& p.extensions == q.extensions
                },
        decreases rest@.len(),
    {
        let ghost i = out@.len() as int;
        let q = rest.remove(0);
        assert(q == all[i]);
        let name = match PortName::parse(q.name) {
            Ok(n) => n,
            Err(e) => {
                return Err(port_error(e.0.as_str()));
            },
        };
        let value_kind = match ExactId::parse(q.value_kind.as_str()) {
            Some(v) => v,
            None => {
                return Err(id_error(q.value_kind.as_str()));
            },
        };
        out.push(OutputPort { name, value_kind, extensions: q.extensions });
        assert(rest@ =~= all.subrange(out@.len() as int, all.len() as int));
    }
    Ok(out)
}

fn read_capability(c: ManifestCapability) -> (r: Result<CapabilitySpec, PackManifestError>)
    ensures
        r is Ok <==> decl_detail(c) is None,
        r matches Err(e) ==> pack_fault_of(e) == PackFault::Identity(c.id@, decl_detail(c)->Some_0),
        r matches Ok(s) ==> reads_as(s, c),
{
    let ghost cv = c;
    let id = match ExactId::parse(c.id.as_str()) {
        Some(id) => id,
        None => {
            let detail = id_error(c.id.as_str());
            return Err(PackManifestError::Identity { capability: c.id, detail });
        },
    };
    let declared = c.id;
    let input_ports = match read_inputs(c.input_ports) {
        Ok(v) => v,
        Err(detail) => {
            return Err(PackManifestError::Identity { capability: declared, detail });
        },
    };
    let output_ports = match read_outputs(c.output_ports) {
        Ok(v) => v,
        Err(detail) => {
            return Err(PackManifestError::Identity { capability: declared, detail });
        },
    };
    Ok(CapabilitySpec {
        id,
        input_ports,
        output_ports,
        default_conformance_suite: c.default_conformance_suite,
        extensions: c.extensions,
    })
}

/// Reads a manifest's declarations into a semantic pack without
/// registering them: every identity and port name must parse exactly.
#[verifier::loop_isolation(false)]
pub fn pack_from_manifest(m: PackManifest) -> (r: Result<CapabilityPack, PackManifestError>)
    ensures
        r is Ok <==> manifest_fault(m) is None,
        r matches Err(e) ==> manifest_fault(m) == Some(pack_fault_of(e)),
        r matches Ok(p) ==> p.extensions == m.extensions && p.capabilities@.len() == m.capabilities@.len() && forall|i: int|
            0 <= i < p.capabilities@.len() ==> reads_as(#[trigger] p.capabilities@[i], m.capabilities@[i]),
{
    check_pack_protocol(m.protocol.as_str())?;
    let ghost all = m.capabilities@;
    let mut rest = m.capabilities;
    let mut specs: Vec<CapabilitySpec> = Vec::new();
    while rest.len() > 0
        invariant
            specs@.len() + rest@.len() == all.len(),
            rest@ == all.subrange(specs@.len() as int, all.len() as int),
            first_decl_fault(all, 0) == first_decl_fault(all, specs@.len() as int),
            forall|i: int| 0 <= i < specs@.len() ==> reads_as(#[trigger] specs@[i], all[i]),
        decreases rest@.len(),
    {
        let ghost i = specs@.len() as int;
        let c = rest.remove(0);
        assert(c == all[i]);
        let spec = read_capability(c)?;
        specs.push(spec);
        assert(rest@ =~= all.subrange(specs@.len() as int, all.len() as int));
    }
    Ok(CapabilityPack { capabilities: specs, extensions: m.extensions })
}

pub open spec fn input_manifest_doc(p: InputPort) -> Json {
    with_ext(
        seq!["name"@, "value_kind"@, "acceptance"@],
        seq![Json::Str(p.name@), Json::Str(render_id(p.value_kind@)), Json::Str(acceptance_name(p.acceptance))],
        p.extensions@,
    )
}

pub open spec fn output_manifest_doc(p: OutputPort) -> Json {
    with_ext(seq!["name"@, "value_kind"@], seq![Json::Str(p.name@), Json::Str(render_id(p.value_kind@))], p.extensions@)
}

pub open spec fn capability_manifest_doc(s: CapabilitySpec) -> Json {
    with_ext(
        seq!["id"@, "input_ports"@, "output_ports"@, "default_conformance_suite"@],
        seq![
            Json::Str(render_id(s.id@)),
            Json::Array(Seq::new(s.input_ports@.len(), |k: int| input_manifest_doc(s.input_ports@[k]))),
            Json::Array(Seq::new(s.output_ports@.len(), |k: int| output_manifest_doc(s.output_ports@[k]))),
            Json::Str(s.default_conformance_suite@),
        ],
        s.extensions@,
    )
}

/// The manifest document of a pack: the protocol, every declaration in
/// order, and the root extensions.
pub open spec fn pack_doc(p: CapabilityPack) -> Json {
    with_ext(
        seq!["protocol"@, "capabilities"@],
        seq![
            Json::Str(PACK_PROTOCOL@),
            Json::Array(Seq::new(p.capabilities@.len(), |k: int| capability_manifest_doc(p.capabilities@[k]))),
        ],
        p.extensions@,
    )
}

/// The first declaration, from `i` on, that the registry would refuse.
pub open spec fn first_spec_rejection(specs: Seq<CapabilitySpec>, i: int) -> Option<PackFault>
    decreases specs.len() - i,
{
    if i < 0 || i >= specs.len() {
        None
    } else if spec_rejection(specs[i]) is Some {
        Some(PackFault::InvalidCapability(specs[i].id@, spec_rejection(specs[i])->Some_0))
    } else {
        first_spec_rejection(specs, i + 1)
    }
}

/// Why a pack cannot be written: a root extension shadowing a field, or a
/// declaration the registry would refuse.
pub open spec fn write_fault(p: CapabilityPack) -> Option<PackFault> {
    match first_reserved(seq!["protocol"@, "capabilities"@], key_views(p.extensions@)) {
        Some(k) => Some(PackFault::ReservedExtension("pack root"@, k)),
        None => first_spec_rejection(p.capabilities@, 0),
    }
}

fn input_manifest_json(p: &InputPort) -> (r: JsonValue)
    ensures
        r@ == input_manifest_doc(*p),
{
    let mut m: Vec<JsonMember> = Vec::new();
    assert(key_views(m@) =~= Seq::<Seq<char>>::empty());
    assert(value_views(m@) =~= Seq::<Json>::empty());
    push_member(&mut m, "name", json_text(p.name.as_str()));
    let vk = p.value_kind.render();
    push_member(&mut m, "value_kind", json_text(vk.as_str()));
    let acceptance = match p.acceptance {
        FactAcceptance::CompleteOnly => "complete_only",
        FactAcceptance::PartialAllowed => "partial_allowed",
    };
    push_member(&mut m, "acceptance", json_text(acceptance));
    assert(key_views(m@) =~= seq!["name"@, "value_kind"@, "acceptance"@]);
    assert(value_views(m@) =~= seq![
        Json::Str(p.name@),
        Json::Str(render_id(p.value_kind@)),
        Json::Str(acceptance_name(p.acceptance)),
    ]);
    object_with(m, &p.extensions)
}

fn output_manifest_json(p: &OutputPort) -> (r: JsonValue)
    ensures
        r@ == output_manifest_doc(*p),
{
    let mut m: Vec<JsonMember> = Vec::new();
    assert(key_views(m@) =~= Seq::<Seq<char>>::empty());
    assert(value_views(m@) =~= Seq::<Json>::empty());
    push_member(&mut m, "name", json_text(p.name.as_str()));
    let vk = p.value_kind.render();
    push_member(&mut m, "value_kind", json_text(vk.as_str()));
    assert(key_views(m@) =~= seq!["name"@, "value_kind"@]);
    assert(value_views(m@) =~= seq![Json::Str(p.name@), Json::Str(render_id(p.value_kind@))]);
    object_with(m, &p.extensions)
}

fn capability_manifest_json(s: &CapabilitySpec) -> (r: JsonValue)
    ensures
        r@ == capability_manifest_doc(*s),
{
    let mut ins: Vec<JsonValue> = Vec::new();
    let mut i: usize = 0;
    while i < s.input_ports.len()
        invariant
            i <= s.input_ports.len(),
            crate::json::item_views(ins@) == Seq::new(i as nat, |k: int| input_manifest_doc(s.input_ports@[k])),
        decreases s.input_ports.len() - i,
    {
        let ghost before = ins@;
        ins.push(input_manifest_json(&s.input_ports[i]));
        assert(crate::json::item_views(ins@) =~= Seq::new((i + 1) as nat, |k: int| input_manifest_doc(s.input_ports@[k]))) by {
            assert(crate::json::item_views(ins@) =~= crate::json::item_views(before).push(
                input_manifest_doc(s.input_ports@[i as int]),
            ));
        }
        i = i + 1;
    }
    let mut outs: Vec<JsonValue> = Vec::new();
    let mut i: usize = 0;
    while i < s.output_ports.len()
        invariant
            i <= s.output_ports.len(),
            crate::json::item_views(outs@) == Seq::new(i as nat, |k: int| output_manifest_doc(s.output_ports@[k])),
        decreases s.output_ports.len() - i,
    {
        let ghost before = outs@;
        outs.push(output_manifest_json(&s.output_ports[i]));
        assert(crate::json::item_views(outs@) =~= Seq::new((i + 1) as nat, |k: int| output_manifest_doc(s.output_ports@[k])))
            by {
            assert(crate::json::item_views(outs@) =~= crate::json::item_views(before).push(
                output_manifest_doc(s.output_ports@[i as int]),
            ));
        }
        i = i + 1;
    }
    let mut m: Vec<JsonMember> = Vec::new();
    assert(key_views(m@) =~= Seq::<Seq<char>>::empty());
    assert(value_views(m@) =~= Seq::<Json>::empty());
    let id = s.id.render();
    push_member(&mut m, "id", json_text(id.as_str()));
    push_member(&mut m, "input_ports", json_array(ins));
    push_member(&mut m, "output_ports", json_array(outs));
    push_member(&mut m, "default_conformance_suite", json_text(s.default_conformance_suite.as_str()));
    assert(key_views(m@) =~= seq!["id"@, "input_ports"@, "output_ports"@, "default_conformance_suite"@]);
    assert(value_views(m@) =~= seq![
        Json::Str(render_id(s.id@)),
        Json::Array(Seq::new(s.input_ports@.len(), |k: int| input_manifest_doc(s.input_ports@[k]))),
        Json::Array(Seq::new(s.output_ports@.len(), |k: int| output_manifest_doc(s.output_ports@[k]))),
        Json::Str(s.default_conformance_suite@),
    ]);
    object_with(m, &s.extensions)
}

/// Renders a pack as validated manifest JSON: refused when a root
/// extension shadows a field or a declaration is invalid.
pub fn write_pack(pack: &CapabilityPack) -> (r: Result<String, PackManifestError>)
    ensures
        r is Ok <==> write_fault(*pack) is None,
        r matches Err(e) ==> write_fault(*pack) == Some(pack_fault_of(e)),
        r matches Ok(t) ==> t@ == render(pack_doc(*pack)),
{
    let reserved: [&str; 2] = ["protocol", "capabilities"];
    assert(Seq::new(reserved@.len(), |i: int| reserved@[i]@) =~= seq!["protocol"@, "capabilities"@]);
    match reserved_key(reserved.as_slice(), &pack.extensions) {
        Some(k) => {
            return Err(PackManifestError::ReservedExtension { scope: owned("pack root"), key: owned(k) });
        },
        None => {},
    }
    let mut caps: Vec<JsonValue> = Vec::new();
    let mut i: usize = 0;
    while i < pack.capabilities.len()
        invariant
            i <= pack.capabilities.len(),
            write_fault(*pack) == first_spec_rejection(pack.capabilities@, i as int),
            crate::json::item_views(caps@) == Seq::new(i as nat, |k: int| capability_manifest_doc(pack.capabilities@[k])),
        decreases pack.capabilities.len() - i,
    {
        match validate_spec(&pack.capabilities[i]) {
            Ok(()) => {},
            Err(e) => {
                return Err(PackManifestError::Registry(e));
            },
        }
        let ghost before = caps@;
        caps.push(capability_manifest_json(&pack.capabilities[i]));
        assert(crate::json::item_views(caps@) =~= Seq::new(
            (i + 1) as nat,
            |k: int| capability_manifest_doc(pack.capabilities@[k]),
        )) by {
            assert(crate::json::item_views(caps@) =~= crate::json::item_views(before).push(
                capability_manifest_doc(pack.capabilities@[i as int]),
            ));
        }
        i = i + 1;
    }
    let mut m: Vec<JsonMember> = Vec::new();
    assert(key_views(m@) =~= Seq::<Seq<char>>::empty());
    assert(value_views(m@) =~= Seq::<Json>::empty());
    push_member(&mut m, "protocol", json_text(PACK_PROTOCOL));
    push_member(&mut m, "capabilities", json_array(caps));
    assert(key_views(m@) =~= seq!["protocol"@, "capabilities"@]);
    assert(value_views(m@) =~= seq![
        Json::Str(PACK_PROTOCOL@),
        Json::Array(Seq::new(pack.capabilities@.len(), |k: int| capability_manifest_doc(pack.capabilities@[k]))),
    ]);
    let doc = object_with(m, &pack.extensions);
    Ok(to_text(&doc))
}

proof fn lemma_insert_index_bounds(ids: Seq<IdView>, id: IdView, i: int)
    requires
        0 <= i <= ids.len(),
    ensures
        i <= crate::registry::insert_index(ids, id, i) <= ids.len(),
    decreases ids.len() - i,
{
    if i < ids.len() && crate::capability::id_less(ids[i], id) {
        lemma_insert_index_bounds(ids, id, i + 1);
    }
}

proof fn lemma_insert_keeps_ids(before: Seq<CapabilitySpec>, after: Seq<CapabilitySpec>, spec: CapabilitySpec, p: int)
    requires
        0 <= p <= before.len(),
        after == before.insert(p, spec),
    ensures
        crate::registry::spec_ids(after).contains(spec.id@),
        forall|id: IdView| crate::registry::spec_ids(before).contains(id) ==> crate::registry::spec_ids(after).contains(id),
{
    let a = crate::registry::spec_ids(after);
    let b = crate::registry::spec_ids(before);
    assert(a[p] == spec.id@);
    assert forall|id: IdView| b.contains(id) implies a.contains(id) by {
        let k = choose|k: int| 0 <= k < b.len() && b[k] == id;
        if k < p {
            assert(a[k] == id);
        } else {
            assert(a[k + 1] == id);
        }
    }
}

/// Registers every declaration of a pack, in order; the registry
/// validates each exactly as it would one written by hand.
pub fn register_pack_specs<P>(registry: &mut CapabilityRegistry<P>, pack: CapabilityPack) -> (r: Result<(), PackManifestError>)
    requires
        old(registry).wf(),
    ensures
        final(registry).wf(),
        final(registry).registered() == old(registry).registered(),
        r is Ok ==> forall|i: int|
            0 <= i < pack.capabilities@.len() ==> crate::registry::spec_ids(final(registry).declared()).contains(
                (#[trigger] pack.capabilities@[i]).id@,
            ),
        r matches Err(e) ==> e is Registry,
{
    let ghost all = pack.capabilities@;
    let mut rest = pack.capabilities;
    let total: usize = rest.len();
    let mut done: usize = 0;
    while rest.len() > 0
        invariant
            done + rest@.len() == all.len(),
            all.len() == total,
            rest@ == all.subrange(done as int, all.len() as int),
            registry.wf(),
            registry.registered() == old(registry).registered(),
            forall|i: int| 0 <= i < done ==> crate::registry::spec_ids(registry.declared()).contains(#[trigger] all[i].id@),
        decreases rest@.len(),
    {
        let spec = rest.remove(0);
        let ghost sv = spec;
        let ghost before = registry.declared();
        match registry.register_spec(spec) {
            Ok(()) => {},
            Err(e) => {
                return Err(PackManifestError::Registry(e));
            },
        }
        proof {
            let ids = crate::registry::spec_ids(before);
            let pos = crate::registry::insert_index(ids, sv.id@, 0);
            lemma_insert_index_bounds(ids, sv.id@, 0);
            lemma_insert_keeps_ids(before, registry.declared(), sv, pos);
        }
        done = done + 1;
        assert(rest@ =~= all.subrange(done as int, all.len() as int));
    }
    Ok(())
}

impl PackManifestError {
    /// The message of the refusals that carry no registry error, or
    /// `None`.
    pub fn message(&self) -> (r: Option<String>)
        ensures
            match *self {
                PackManifestError::Parse(m) => r matches Some(t) && t@ == "pack manifest is not valid: "@ + m@,
                PackManifestError::ProtocolMismatch { expected, actual } => r matches Some(t) && t@ == "pack declares protocol "@
                    + actual@ + ", expected "@ + expected@,
                PackManifestError::Identity { capability, detail } => r matches Some(t) && t@ == "in capability `"@
                    + capability@ + "`: "@ + detail@,
                PackManifestError::ReservedExtension { scope, key } => r matches Some(t) && t@ == scope@ + " extension `"@
                    + key@ + "` shadows a known field"@,
                PackManifestError::Serialization(m) => r matches Some(t) && t@ == "pack serialization failed: "@ + m@,
                PackManifestError::Registry(_) => r is None,
            },
    {
        match self {
            PackManifestError::Parse(m) => {
                let mut t = owned("pack manifest is not valid: ");
                t.append(m.as_str());
                Some(t)
            },
            PackManifestError::ProtocolMismatch { expected, actual } => {
                let mut t = owned("pack declares protocol ");
                t.append(actual.as_str());
                t.append(", expected ");
                t.append(expected.as_str());
                Some(t)
            },
            PackManifestError::Identity { capability, detail } => {
                let mut t = owned("in capability `");
                t.append(capability.as_str());
                t.append("`: ");
                t.append(detail.as_str());
                Some(t)
            },
            PackManifestError::ReservedExtension { scope, key } => {
                let mut t = owned(scope.as_str());
                t.append(" extension `");
                t.append(key.as_str());
                t.append("` shadows a known field");
                Some(t)
            },
            PackManifestError::Serialization(m) => {
                let mut t = owned("pack serialization failed: ");
                t.append(m.as_str());
                Some(t)
            },
            PackManifestError::Registry(_) => None,
        }
    }
}


// ---- the manifest a pack is written as ----

/// The document of one declared input port, as a manifest spells it.
pub open spec fn declared_input_doc(q: ManifestInputPort) -> Json {
    with_ext(
        seq!["name"@, "value_kind"@, "acceptance"@],
        seq![Json::Str(q.name@), Json::Str(q.value_kind@), Json::Str(acceptance_name(q.acceptance))],
        q.extensions@,
    )
}

pub open spec fn declared_output_doc(q: ManifestOutputPort) -> Json {
    with_ext(seq!["name"@, "value_kind"@], seq![Json::Str(q.name@), Json::Str(q.value_kind@)], q.extensions@)
}

pub open spec fn declaration_doc(d: ManifestCapability) -> Json {
    with_ext(
        seq!["id"@, "input_ports"@, "output_ports"@, "default_conformance_suite"@],
        seq![
            Json::Str(d.id@),
            Json::Array(Seq::new(d.input_ports@.len(), |k: int| declared_input_doc(d.input_ports@[k]))),
            Json::Array(Seq::new(d.output_ports@.len(), |k: int| declared_output_doc(d.output_ports@[k]))),
            Json::Str(d.default_conformance_suite@),
        ],
        d.extensions@,
    )
}

/// The JSON document of a manifest.
pub open spec fn manifest_doc(m: PackManifest) -> Json {
    with_ext(
        seq!["protocol"@, "capabilities"@],
        seq![
            Json::Str(m.protocol@),
            Json::Array(Seq::new(m.capabilities@.len(), |k: int| declaration_doc(m.capabilities@[k]))),
        ],
        m.extensions@,
    )
}

/// A declaration spells a specification: its identities in display form,
/// the same port names, acceptance, suite and extensions, in order.
pub open spec fn spells(d: ManifestCapability, s: CapabilitySpec) -> bool {
    &&& d.id@ == render_id(s.id@)
    &&& d.default_conformance_suite == s.default_conformance_suite
    &&& d.extensions == s.extensions
    &&& d.input_ports@.len() == s.input_ports@.len()
    &&& forall|k: int|
        0 <= k < d.input_ports@.len() ==> {
            let q = #[trigger] d.input_ports@[k];
            let p = s.input_ports@[k];
            &&& q.name@ == p.name@
            &&& q.value_kind@ == render_id(p.value_kind@)
            &&& q.acceptance == p.acceptance
            &&& q.extensions == p.extensions
        }
    &&& d.output_ports@.len() == s.output_ports@.len()
    &&& forall|k: int|
        0 <= k < d.output_ports@.len() ==> {
            let q = #[trigger] d.output_ports@[k];
            let p = s.output_ports@[k];
            &&& q.name@ == p.name@
            &&& q.value_kind@ == render_id(p.value_kind@)
            &&& q.extensions == p.extensions
        }
}

/// A manifest spells a pack: its protocol, every declaration spelling the
/// specification at the same place, and the pack's root extensions.
pub open spec fn spells_pack(m: PackManifest, p: CapabilityPack) -> bool {
    &&& m.protocol@ == PACK_PROTOCOL@
    &&& m.extensions == p.extensions
    &&& m.capabilities@.len() == p.capabilities@.len()
    &&& forall|k: int| 0 <= k < m.capabilities@.len() ==> spells(#[trigger] m.capabilities@[k], p.capabilities@[k])
}

/// Every identity of a specification is well formed and every port name
/// is exact.
pub open spec fn spellable(s: CapabilitySpec) -> bool {
    &&& id_well_formed(s.id@)
    &&& forall|k: int|
        0 <= k < s.input_ports@.len() ==> valid_port_name((#[trigger] s.input_ports@[k]).name@) && id_well_formed(
            s.input_ports@[k].value_kind@,
        )
    &&& forall|k: int|
        0 <= k < s.output_ports@.len() ==> valid_port_name((#[trigger] s.output_ports@[k]).name@) && id_well_formed(
            s.output_ports@[k].value_kind@,
        )
}

/// What `write_pack` renders is the document of any manifest that spells
/// the pack.
pub proof fn lemma_written_pack_is_its_manifest(p: CapabilityPack, m: PackManifest)
    requires
        spells_pack(m, p),
    ensures
        pack_doc(p) == manifest_doc(m),
{
    assert forall|k: int| 0 <= k < m.capabilities@.len() implies declaration_doc(#[trigger] m.capabilities@[k])
        == capability_manifest_doc(p.capabilities@[k]) by {
        let d = m.capabilities@[k];
        let s = p.capabilities@[k];
        assert(spells(d, s));
        assert(Seq::new(d.input_ports@.len(), |j: int| declared_input_doc(d.input_ports@[j])) =~= Seq::new(
            s.input_ports@.len(),
            |j: int| input_manifest_doc(s.input_ports@[j]),
        )) by {
            assert forall|j: int| 0 <= j < d.input_ports@.len() implies declared_input_doc(#[trigger] d.input_ports@[j])
                == input_manifest_doc(s.input_ports@[j]) by {
                let q = d.input_ports@[j];
                assert(q.extensions == s.input_ports@[j].extensions);
            }
        }
        assert(Seq::new(d.output_ports@.len(), |j: int| declared_output_doc(d.output_ports@[j])) =~= Seq::new(
            s.output_ports@.len(),
            |j: int| output_manifest_doc(s.output_ports@[j]),
        )) by {
            assert forall|j: int| 0 <= j < d.output_ports@.len() implies declared_output_doc(
                #[trigger] d.output_ports@[j],
            ) == output_manifest_doc(s.output_ports@[j]) by {
                let q = d.output_ports@[j];
                assert(q.extensions == s.output_ports@[j].extensions);
            }
        }
    }
    assert(Seq::new(m.capabilities@.len(), |k: int| declaration_doc(m.capabilities@[k])) =~= Seq::new(
        p.capabilities@.len(),
        |k: int| capability_manifest_doc(p.capabilities@[k]),
    ));
}

proof fn lemma_spelled_inputs_read(d: ManifestCapability, s: CapabilitySpec, i: int)
    requires
        spells(d, s),
        spellable(s),
        0 <= i,
    ensures
        first_input_decl_fault(d.input_ports@, i) is None,
    decreases d.input_ports@.len() - i,
{
    if i < d.input_ports@.len() {
        let q = d.input_ports@[i];
        lemma_parse_render(s.input_ports@[i].value_kind@);
        assert(q.name@ == s.input_ports@[i].name@);
        lemma_spelled_inputs_read(d, s, i + 1);
    }
}

proof fn lemma_spelled_outputs_read(d: ManifestCapability, s: CapabilitySpec, i: int)
    requires
        spells(d, s),
        spellable(s),
        0 <= i,
    ensures
        first_output_decl_fault(d.output_ports@, i) is None,
    decreases d.output_ports@.len() - i,
{
    if i < d.output_ports@.len() {
        let q = d.output_ports@[i];
        lemma_parse_render(s.output_ports@[i].value_kind@);
        assert(q.name@ == s.output_ports@[i].name@);
        lemma_spelled_outputs_read(d, s, i + 1);
    }
}

proof fn lemma_spelled_declarations_read(m: PackManifest, p: CapabilityPack, i: int)
    requires
        spells_pack(m, p),
        forall|k: int| 0 <= k < p.capabilities@.len() ==> spellable(#[trigger] p.capabilities@[k]),
        0 <= i,
    ensures
        first_decl_fault(m.capabilities@, i) is None,
    decreases m.capabilities@.len() - i,
{
    if i < m.capabilities@.len() {
        let d = m.capabilities@[i];
        let s = p.capabilities@[i];
        assert(spells(d, s));
        assert(spellable(s));
        lemma_parse_render(s.id@);
        lemma_spelled_inputs_read(d, s, 0);
        lemma_spelled_outputs_read(d, s, 0);
        assert(decl_detail(d) is None);
        lemma_spelled_declarations_read(m, p, i + 1);
    }
}

/// Reading back a manifest that spells a pack of well-formed
/// specifications succeeds, and every specification reads as its
/// declaration: the pack survives a trip out to data and back.
pub proof fn lemma_written_pack_reads_back(p: CapabilityPack, m: PackManifest)
    requires
        spells_pack(m, p),
        forall|k: int| 0 <= k < p.capabilities@.len() ==> spellable(#[trigger] p.capabilities@[k]),
    ensures
        manifest_fault(m) is None,
        forall|k: int| 0 <= k < p.capabilities@.len() ==> reads_as(#[trigger] p.capabilities@[k], m.capabilities@[k]),
{
    lemma_spelled_declarations_read(m, p, 0);
    assert forall|k: int| 0 <= k < p.capabilities@.len() implies reads_as(
        #[trigger] p.capabilities@[k],
        m.capabilities@[k],
    ) by {
        let d = m.capabilities@[k];
        let s = p.capabilities@[k];
        assert(spells(d, s));
        assert(spellable(s));
        lemma_parse_render(s.id@);
        assert forall|j: int| 0 <= j < s.input_ports@.len() implies Some(
            (#[trigger] s.input_ports@[j]).value_kind@,
        ) == parse_id(d.input_ports@[j].value_kind@) by {
            lemma_parse_render(s.input_ports@[j].value_kind@);
        }
        assert forall|j: int| 0 <= j < s.output_ports@.len() implies Some(
            (#[trigger] s.output_ports@[j]).value_kind@,
        ) == parse_id(d.output_ports@[j].value_kind@) by {
            lemma_parse_render(s.output_ports@[j].value_kind@);
        }
    }
}

} // verus!
