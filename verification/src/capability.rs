//! Capabilities as typed promises over exact value kinds: their
//! declarations, the registry's validation of them, and the exact request
//! that binds one missing capability to exact input facts.

use vstd::prelude::*;
use crate::identity::{ExactId, IdView, PortName, id_well_formed, is_sha256_identity, is_sha256_text, render_id};
use crate::json::{Json, JsonMember, JsonValue, key_views, value_views, item_views, key_less, key_less_exec, normalize, normalize_json, render, to_text, json_text, json_object, json_array, push_member, copy_json};
use crate::digest::{content_id, json_content_id, sha256_identity, sha256_text};
use crate::text::{chars_of, is_blank, is_blank_chars, owned, str_eq};

verus! {

/// Whether an input may carry unresolved defeats.
#[derive(Clone, Copy, Debug, PartialEq, Eq, Structural)]
pub enum FactAcceptance {
    CompleteOnly,
    PartialAllowed,
}

/// Coverage is not trust. `Complete` means only that no defeater fired
/// under the producing capability's named mechanism.
#[derive(Clone, Copy, Debug, PartialEq, Eq, Structural)]
pub enum FactCoverage {
    Complete,
    Partial,
}

/// One named input role of a capability.
#[derive(Clone, Debug, PartialEq, Eq)]
pub struct InputPort {
    pub name: PortName,
    pub value_kind: ExactId,
    pub acceptance: FactAcceptance,
    /// Namespaced declaration data unknown to this version, kept unchanged.
    pub extensions: Vec<JsonMember>,
}

/// One named output role of a capability.
#[derive(Clone, Debug, PartialEq, Eq)]
pub struct OutputPort {
    pub name: PortName,
    pub value_kind: ExactId,
    pub extensions: Vec<JsonMember>,
}

/// One versioned transformation contract. Input ports form a conjunction,
/// so each capability is a hyperedge; port names distinguish roles.
#[derive(Clone, Debug, PartialEq, Eq)]
pub struct CapabilitySpec {
    pub id: ExactId,
    pub input_ports: Vec<InputPort>,
    pub output_ports: Vec<OutputPort>,
    /// The suite this capability declares by default: an obligation, not a
    /// fixed requirement.
    pub default_conformance_suite: String,
    pub extensions: Vec<JsonMember>,
}

/// An implementation of a capability.
#[derive(Debug, PartialEq, Eq)]
pub struct ProviderDescriptor {
    pub id: ExactId,
    pub capability: ExactId,
    /// Digest of the installed implementation artifact or source closure.
    pub implementation_digest: String,
}

impl InputPort {
    /// An input role that accepts only complete facts.
    pub fn complete(name: PortName, value_kind: ExactId) -> (r: Self)
        ensures
            r.name == name,
            r.value_kind == value_kind,
            r.acceptance == FactAcceptance::CompleteOnly,
            r.extensions@.len() == 0,
    {
        InputPort { name, value_kind, acceptance: FactAcceptance::CompleteOnly, extensions: Vec::new() }
    }

    /// An input role that also accepts partial facts.
    pub fn partial_allowed(name: PortName, value_kind: ExactId) -> (r: Self)
        ensures
            r.name == name,
            r.value_kind == value_kind,
            r.acceptance == FactAcceptance::PartialAllowed,
            r.extensions@.len() == 0,
    {
        InputPort { name, value_kind, acceptance: FactAcceptance::PartialAllowed, extensions: Vec::new() }
    }
}

impl OutputPort {
    /// An output role with no extensions.
    pub fn new(name: PortName, value_kind: ExactId) -> (r: Self)
        ensures
            r.name == name,
            r.value_kind == value_kind,
            r.extensions@.len() == 0,
    {
        OutputPort { name, value_kind, extensions: Vec::new() }
    }
}

/// Why the registry refuses a declaration or provider.
#[derive(Debug)]
pub enum RegistryError {
    DuplicateCapability(ExactId),
    DuplicateProvider(ExactId),
    UnknownCapability(ExactId),
    InvalidCapability { capability: ExactId, reason: String },
    InvalidProvider { provider: ExactId, reason: String },
    Serialization(String),
}

/// Where a legacy request could not keep a declaration extension.
#[derive(Debug)]
pub enum LegacyDeclarationExtensionScope {
    Capability,
    InputPort(PortName),
    OutputPort(PortName),
}

/// The index of the first input port, from `i` on, whose value kind is
/// malformed.
pub open spec fn first_bad_input_kind(ports: Seq<InputPort>, i: int) -> Option<int>
    decreases ports.len() - i,
{
    if i < 0 || i >= ports.len() {
        None
    } else if !id_well_formed(ports[i].value_kind@) {
        Some(i)
    } else {
        first_bad_input_kind(ports, i + 1)
    }
}

pub open spec fn first_bad_output_kind(ports: Seq<OutputPort>, i: int) -> Option<int>
    decreases ports.len() - i,
{
    if i < 0 || i >= ports.len() {
        None
    } else if !id_well_formed(ports[i].value_kind@) {
        Some(i)
    } else {
        first_bad_output_kind(ports, i + 1)
    }
}

/// No two entries are equal.
pub open spec fn distinct<T>(s: Seq<T>) -> bool {
    forall|i: int, j: int| 0 <= i < j < s.len() ==> s[i] != s[j]
}

pub open spec fn input_names(ports: Seq<InputPort>) -> Seq<Seq<char>> {
    Seq::new(ports.len(), |i: int| ports[i].name@)
}

pub open spec fn output_names(ports: Seq<OutputPort>) -> Seq<Seq<char>> {
    Seq::new(ports.len(), |i: int| ports[i].name@)
}

/// The first reserved field name, in the given order, that an extension
/// map also uses.
pub open spec fn first_reserved(reserved: Seq<Seq<char>>, keys: Seq<Seq<char>>) -> Option<Seq<char>>
    decreases reserved.len(),
{
    if reserved.len() == 0 {
        None
    } else if keys.contains(reserved[0]) {
        Some(reserved[0])
    } else {
        first_reserved(reserved.drop_first(), keys)
    }
}

pub open spec fn shadow_msg(scope: Seq<char>, key: Seq<char>) -> Seq<char> {
    scope + " extension `"@ + key + "` shadows a known field"@
}

pub open spec fn capability_fields() -> Seq<Seq<char>> {
    seq!["id"@, "input_ports"@, "output_ports"@, "default_conformance_suite"@]
}

pub open spec fn input_port_fields() -> Seq<Seq<char>> {
    seq!["name"@, "value_kind"@, "acceptance"@]
}

pub open spec fn output_port_fields() -> Seq<Seq<char>> {
    seq!["name"@, "value_kind"@]
}

/// The first input port, from `i` on, whose extensions shadow a field,
/// with the message naming it.
pub open spec fn input_extension_violation(ports: Seq<InputPort>, i: int) -> Option<Seq<char>>
    decreases ports.len() - i,
{
    if i < 0 || i >= ports.len() {
        None
    } else {
        match first_reserved(input_port_fields(), key_views(ports[i].extensions@)) {
            Some(k) => Some(shadow_msg("input"@ + " port `"@ + ports[i].name@ + "`"@, k)),
            None => input_extension_violation(ports, i + 1),
        }
    }
}

pub open spec fn output_extension_violation(ports: Seq<OutputPort>, i: int) -> Option<Seq<char>>
    decreases ports.len() - i,
{
    if i < 0 || i >= ports.len() {
        None
    } else {
        match first_reserved(output_port_fields(), key_views(ports[i].extensions@)) {
            Some(k) => Some(shadow_msg("output"@ + " port `"@ + ports[i].name@ + "`"@, k)),
            None => output_extension_violation(ports, i + 1),
        }
    }
}

pub open spec fn malformed_msg(direction: Seq<char>, kind: IdView) -> Seq<char> {
    direction + " value kind `"@ + render_id(kind) + "` is malformed"@
}

/// Why the registry refuses a declaration, checked in this order, or
/// nothing when it is valid.
pub open spec fn spec_rejection(spec: CapabilitySpec) -> Option<Seq<char>> {
    let ins = spec.input_ports@;
    let outs = spec.output_ports@;
    if !id_well_formed(spec.id@) {
        Some("capability identity is malformed"@)
    } else if outs.len() == 0 {
        Some("a capability must declare at least one output port"@)
    } else if is_blank(spec.default_conformance_suite@) {
        Some("a capability must name an exact conformance suite"@)
    } else if first_bad_input_kind(ins, 0) is Some {
        Some(malformed_msg("input"@, ins[first_bad_input_kind(ins, 0).unwrap()].value_kind@))
    } else if first_bad_output_kind(outs, 0) is Some {
        Some(malformed_msg("output"@, outs[first_bad_output_kind(outs, 0).unwrap()].value_kind@))
    } else if !distinct(input_names(ins)) {
        Some("duplicate input port name"@)
    } else if !distinct(output_names(outs)) {
        Some("duplicate output port name"@)
    } else if first_reserved(capability_fields(), key_views(spec.extensions@)) is Some {
        Some(shadow_msg("capability"@, first_reserved(capability_fields(), key_views(spec.extensions@)).unwrap()))
    } else if input_extension_violation(ins, 0) is Some {
        input_extension_violation(ins, 0)
    } else {
        output_extension_violation(outs, 0)
    }
}

fn names_distinct(names: &Vec<String>) -> (r: bool)
    ensures
        r == distinct(Seq::new(names@.len(), |i: int| names@[i]@)),
{
    let ghost v = Seq::new(names@.len(), |i: int| names@[i]@);
    let mut j: usize = 0;
    while j < names.len()
        invariant
            j <= names.len(),
            v == Seq::new(names@.len(), |i: int| names@[i]@),
            forall|a: int, b: int| 0 <= a < b < j ==> v[a] != v[b],
        decreases names.len() - j,
    {
        let mut i: usize = 0;
        while i < j
            invariant
                i <= j < names.len(),
                v == Seq::new(names@.len(), |i: int| names@[i]@),
                forall|a: int, b: int| 0 <= a < b < j ==> v[a] != v[b],
                forall|a: int| 0 <= a < i ==> v[a] != v[j as int],
            decreases j - i,
        {
            if names[i] == names[j] {
                assert(v[i as int] == v[j as int]);
                return false;
            }
            i = i + 1;
        }
        j = j + 1;
    }
    true
}

pub(crate) fn reserved_key<'a>(reserved: &[&'a str], members: &Vec<JsonMember>) -> (r: Option<&'a str>)
    ensures
        r matches Some(k) ==> first_reserved(Seq::new(reserved@.len(), |i: int| reserved@[i]@), key_views(members@))
            == Some(k@),
        r is None ==> first_reserved(Seq::new(reserved@.len(), |i: int| reserved@[i]@), key_views(members@)) is None,
{
    let ghost rv = Seq::new(reserved@.len(), |i: int| reserved@[i]@);
    let ghost keys = key_views(members@);
    assert(rv.subrange(0, rv.len() as int) =~= rv);
    let mut i: usize = 0;
    while i < reserved.len()
        invariant
            i <= reserved.len(),
            rv == Seq::new(reserved@.len(), |i: int| reserved@[i]@),
            keys == key_views(members@),
            first_reserved(rv, keys) == first_reserved(rv.subrange(i as int, rv.len() as int), keys),
        decreases reserved.len() - i,
    {
        let key = reserved[i];
        let ghost rest = rv.subrange(i as int, rv.len() as int);
        assert(rest[0] == key@);
        assert(rest.drop_first() =~= rv.subrange(i + 1, rv.len() as int));
        let mut j: usize = 0;
        let mut found = false;
        while j < members.len()
            invariant
                j <= members.len(),
                keys == key_views(members@),
                found == exists|k: int| 0 <= k < j && keys[k] == key@,
            decreases members.len() - j,
        {
            if str_eq(members[j].key.as_str(), key) {
                assert(keys[j as int] == key@);
                found = true;
            }
            j = j + 1;
        }
        if found {
            assert(keys.contains(key@));
            return Some(key);
        }
        assert(!keys.contains(key@));
        i = i + 1;
    }
    assert(rv.subrange(i as int, rv.len() as int) =~= Seq::<Seq<char>>::empty());
    None
}

fn shadow_error(scope: &str, key: &str) -> (r: String)
    ensures
        r@ == shadow_msg(scope@, key@),
{
    let mut m = owned(scope);
    m.append(" extension `");
    m.append(key);
    m.append("` shadows a known field");
    m
}

fn port_scope(direction: &str, name: &PortName) -> (r: String)
    ensures
        r@ == direction@ + " port `"@ + name@ + "`"@,
{
    let mut m = owned(direction);
    m.append(" port `");
    m.append(name.as_str());
    m.append("`");
    m
}

fn invalid_capability(spec: &CapabilitySpec, reason: String) -> (e: RegistryError)
    ensures
        e matches RegistryError::InvalidCapability { capability, reason: r } && capability@ == spec.id@ && r@ == reason@,
{
    RegistryError::InvalidCapability { capability: spec.id.duplicate(), reason }
}

fn malformed_kind(prefix: &str, kind: &ExactId) -> (r: String)
    ensures
        r@ == prefix@ + " value kind `"@ + render_id(kind@) + "` is malformed"@,
{
    let mut m = owned(prefix);
    m.append(" value kind `");
    let text = kind.render();
    m.append(text.as_str());
    m.append("` is malformed");
    m
}

#[verifier::loop_isolation(false)]
/// Checks one declaration: an exact identity, at least one output, a named
/// suite, well-formed value kinds, distinct port names per direction, and
/// extensions that shadow no known field.
pub fn validate_spec(spec: &CapabilitySpec) -> (r: Result<(), RegistryError>)
    ensures
        r is Ok <==> spec_rejection(*spec) is None,
        r matches Err(e) ==> e matches RegistryError::InvalidCapability { capability, reason } && capability@ == spec.id@
            && spec_rejection(*spec) == Some(reason@),
{
    let ghost ins = spec.input_ports@;
    let ghost outs = spec.output_ports@;
    if !spec.id.is_well_formed() {
        return Err(invalid_capability(spec, owned("capability identity is malformed")));
    }
    if spec.output_ports.len() == 0 {
        return Err(invalid_capability(spec, owned("a capability must declare at least one output port")));
    }
    let suite = chars_of(spec.default_conformance_suite.as_str());
    if is_blank_chars(&suite) {
        return Err(invalid_capability(spec, owned("a capability must name an exact conformance suite")));
    }
    let mut i: usize = 0;
    while i < spec.input_ports.len()
        invariant
            i <= spec.input_ports.len(),
            ins == spec.input_ports@,
            first_bad_input_kind(ins, 0) == first_bad_input_kind(ins, i as int),
        decreases spec.input_ports.len() - i,
    {
        if !spec.input_ports[i].value_kind.is_well_formed() {
            return Err(invalid_capability(spec, malformed_kind("input", &spec.input_ports[i].value_kind)));
        }
        i = i + 1;
    }
    let mut i: usize = 0;
    while i < spec.output_ports.len()
        invariant
            i <= spec.output_ports.len(),
            outs == spec.output_ports@,
            first_bad_output_kind(outs, 0) == first_bad_output_kind(outs, i as int),
        decreases spec.output_ports.len() - i,
    {
        if !spec.output_ports[i].value_kind.is_well_formed() {
            return Err(invalid_capability(spec, malformed_kind("output", &spec.output_ports[i].value_kind)));
        }
        i = i + 1;
    }
    let mut names: Vec<String> = Vec::new();
    let mut i: usize = 0;
    while i < spec.input_ports.len()
        invariant
            i <= spec.input_ports.len(),
            ins == spec.input_ports@,
            names@.len() == i,
            forall|k: int| 0 <= k < i ==> names@[k]@ == ins[k].name@,
        decreases spec.input_ports.len() - i,
    {
        names.push(owned(spec.input_ports[i].name.as_str()));
        i = i + 1;
    }
    assert(Seq::new(names@.len(), |k: int| names@[k]@) =~= input_names(ins));
    if !names_distinct(&names) {
        return Err(invalid_capability(spec, owned("duplicate input port name")));
    }
    let mut names: Vec<String> = Vec::new();
    let mut i: usize = 0;
    while i < spec.output_ports.len()
        invariant
            i <= spec.output_ports.len(),
            outs == spec.output_ports@,
            names@.len() == i,
            forall|k: int| 0 <= k < i ==> names@[k]@ == outs[k].name@,
        decreases spec.output_ports.len() - i,
    {
        names.push(owned(spec.output_ports[i].name.as_str()));
        i = i + 1;
    }
    assert(Seq::new(names@.len(), |k: int| names@[k]@) =~= output_names(outs));
    if !names_distinct(&names) {
        return Err(invalid_capability(spec, owned("duplicate output port name")));
    }
    let fields: [&str; 4] = ["id", "input_ports", "output_ports", "default_conformance_suite"];
    assert(Seq::new(fields@.len(), |k: int| fields@[k]@) =~= capability_fields());
    match reserved_key(fields.as_slice(), &spec.extensions) {
        Some(k) => return Err(invalid_capability(spec, shadow_error("capability", k))),
        None => {},
    }
    let fields: [&str; 3] = ["name", "value_kind", "acceptance"];
    assert(Seq::new(fields@.len(), |k: int| fields@[k]@) =~= input_port_fields());
    let mut i: usize = 0;
    while i < spec.input_ports.len()
        invariant
            i <= spec.input_ports.len(),
            ins == spec.input_ports@,
            Seq::new(fields@.len(), |k: int| fields@[k]@) == input_port_fields(),
            input_extension_violation(ins, 0) == input_extension_violation(ins, i as int),
        decreases spec.input_ports.len() - i,
    {
        match reserved_key(fields.as_slice(), &spec.input_ports[i].extensions) {
            Some(k) => {
                let scope = port_scope("input", &spec.input_ports[i].name);
                return Err(invalid_capability(spec, shadow_error(scope.as_str(), k)));
            },
            None => {},
        }
        i = i + 1;
    }
    let fields: [&str; 2] = ["name", "value_kind"];
    assert(Seq::new(fields@.len(), |k: int| fields@[k]@) =~= output_port_fields());
    let mut i: usize = 0;
    while i < spec.output_ports.len()
        invariant
            i <= spec.output_ports.len(),
            outs == spec.output_ports@,
            Seq::new(fields@.len(), |k: int| fields@[k]@) == output_port_fields(),
            output_extension_violation(outs, 0) == output_extension_violation(outs, i as int),
        decreases spec.output_ports.len() - i,
    {
        match reserved_key(fields.as_slice(), &spec.output_ports[i].extensions) {
            Some(k) => {
                let scope = port_scope("output", &spec.output_ports[i].name);
                return Err(invalid_capability(spec, shadow_error(scope.as_str(), k)));
            },
            None => {},
        }
        i = i + 1;
    }
    Ok(())
}

/// Checks a provider: an exact identity and a SHA-256 implementation
/// digest.
pub fn validate_provider(descriptor: &ProviderDescriptor) -> (r: Result<(), RegistryError>)
    ensures
        r is Ok <==> id_well_formed(descriptor.id@) && is_sha256_text(descriptor.implementation_digest@),
        r matches Err(e) ==> e matches RegistryError::InvalidProvider { provider, reason } && provider@ == descriptor.id@
            && reason@ == (if !id_well_formed(descriptor.id@) {
                "provider identity is malformed"@
            } else {
                "implementation digest must be a sha256 identity"@
            }),
{
    if !descriptor.id.is_well_formed() {
        return Err(RegistryError::InvalidProvider {
            provider: descriptor.id.duplicate(),
            reason: owned("provider identity is malformed"),
        });
    }
    if !is_sha256_identity(descriptor.implementation_digest.as_str()) {
        return Err(RegistryError::InvalidProvider {
            provider: descriptor.id.duplicate(),
            reason: owned("implementation digest must be a sha256 identity"),
        });
    }
    Ok(())
}


/// How a fact came to be.
#[derive(Debug, PartialEq, Eq)]
pub enum FactDerivation {
    Initial { origin: String },
    Produced { capability: ExactId, provider: ExactId, inputs: Vec<String> },
    /// An out-of-process candidate admitted only after an independent exact
    /// conformance suite passed.
    Admitted {
        capability: ExactId,
        provider: ExactId,
        provider_implementation: String,
        inputs: Vec<String>,
        request: String,
        candidate: String,
        conformance_result: String,
    },
}

/// One fact held by the legacy request protocol, identified by the digest
/// of its type, coverage, payload and derivation.
#[derive(Debug, PartialEq, Eq)]
pub struct FactInstance {
    pub id: String,
    pub fact_type: ExactId,
    pub coverage: FactCoverage,
    pub payload: JsonValue,
    pub derivation: FactDerivation,
}

/// An anonymous input shape of the legacy request document.
#[derive(Debug)]
pub struct Requirement {
    pub fact: ExactId,
    pub acceptance: FactAcceptance,
}

impl Requirement {
    /// A requirement for a complete fact of this type.
    pub fn complete(fact: ExactId) -> (r: Self)
        ensures
            r.fact == fact,
            r.acceptance == FactAcceptance::CompleteOnly,
    {
        Requirement { fact, acceptance: FactAcceptance::CompleteOnly }
    }

    /// A requirement that also accepts a partial fact of this type.
    pub fn partial_allowed(fact: ExactId) -> (r: Self)
        ensures
            r.fact == fact,
            r.acceptance == FactAcceptance::PartialAllowed,
    {
        Requirement { fact, acceptance: FactAcceptance::PartialAllowed }
    }
}

/// The document form of an exact identity.
pub open spec fn id_doc(id: IdView) -> Json {
    Json::Object(seq!["package"@, "name"@, "version"@], seq![Json::Str(id.package), Json::Str(id.name), Json::Str(id.version)])
}

pub open spec fn coverage_name(c: FactCoverage) -> Seq<char> {
    match c {
        FactCoverage::Complete => "complete"@,
        FactCoverage::Partial => "partial"@,
    }
}

pub open spec fn acceptance_name(a: FactAcceptance) -> Seq<char> {
    match a {
        FactAcceptance::CompleteOnly => "complete_only"@,
        FactAcceptance::PartialAllowed => "partial_allowed"@,
    }
}

pub open spec fn strings_doc(v: Seq<String>) -> Json {
    Json::Array(Seq::new(v.len(), |i: int| Json::Str(v[i]@)))
}

pub open spec fn derivation_doc(d: FactDerivation) -> Json {
    match d {
        FactDerivation::Initial { origin } => Json::Object(seq!["kind"@, "origin"@], seq![Json::Str("initial"@), Json::Str(origin@)]),
        FactDerivation::Produced { capability, provider, inputs } => Json::Object(
            seq!["kind"@, "capability"@, "provider"@, "inputs"@],
            seq![Json::Str("produced"@), id_doc(capability@), id_doc(provider@), strings_doc(inputs@)],
        ),
        FactDerivation::Admitted {
            capability,
            provider,
            provider_implementation,
            inputs,
            request,
            candidate,
            conformance_result,
        } => Json::Object(
            seq![
                "kind"@,
                "capability"@,
                "provider"@,
                "provider_implementation"@,
                "inputs"@,
                "request"@,
                "candidate"@,
                "conformance_result"@,
            ],
            seq![
                Json::Str("admitted"@),
                id_doc(capability@),
                id_doc(provider@),
                Json::Str(provider_implementation@),
                strings_doc(inputs@),
                Json::Str(request@),
                Json::Str(candidate@),
                Json::Str(conformance_result@),
            ],
        ),
    }
}

/// The compact JSON text of the tuple (type, coverage, payload,
/// derivation), as `serde_json` writes it.
pub open spec fn fact_text(fact_type: IdView, coverage: FactCoverage, payload: Json, derivation: FactDerivation) -> Seq<char> {
    render(Json::Array(seq![id_doc(fact_type), Json::Str(coverage_name(coverage)), normalize(payload), derivation_doc(derivation)]))
}

/// The identity of a fact instance: SHA-256 over the UTF-8 bytes of its
/// compact tuple text.
pub open spec fn fact_digest_of(fact_type: IdView, coverage: FactCoverage, payload: Json, derivation: FactDerivation) -> Seq<char> {
    sha256_text(vstd::utf8::encode_utf8(fact_text(fact_type, coverage, payload, derivation)))
}

/// The document of an exact identity.
pub fn id_json(id: &ExactId) -> (r: JsonValue)
    ensures
        r@ == id_doc(id@),
{
    let mut m: Vec<JsonMember> = Vec::new();
    assert(key_views(m@) =~= Seq::<Seq<char>>::empty());
    assert(value_views(m@) =~= Seq::<Json>::empty());
    push_member(&mut m, "package", json_text(id.package.as_str()));
    push_member(&mut m, "name", json_text(id.name.as_str()));
    push_member(&mut m, "version", json_text(id.version.as_str()));
    assert(key_views(m@) =~= seq!["package"@, "name"@, "version"@]);
    assert(value_views(m@) =~= seq![Json::Str(id@.package), Json::Str(id@.name), Json::Str(id@.version)]);
    json_object(m)
}

fn coverage_text(c: FactCoverage) -> (r: &'static str)
    ensures
        r@ == coverage_name(c),
{
    match c {
        FactCoverage::Complete => "complete",
        FactCoverage::Partial => "partial",
    }
}

fn acceptance_text(a: FactAcceptance) -> (r: &'static str)
    ensures
        r@ == acceptance_name(a),
{
    match a {
        FactAcceptance::CompleteOnly => "complete_only",
        FactAcceptance::PartialAllowed => "partial_allowed",
    }
}

fn strings_json(v: &Vec<String>) -> (r: JsonValue)
    ensures
        r@ == strings_doc(v@),
{
    let mut out: Vec<JsonValue> = Vec::new();
    let mut i: usize = 0;
    while i < v.len()
        invariant
            i <= v.len(),
            item_views(out@) == Seq::new(i as nat, |k: int| Json::Str(v@[k]@)),
        decreases v.len() - i,
    {
        let ghost before = out@;
        out.push(json_text(v[i].as_str()));
        assert(item_views(out@) =~= Seq::new((i + 1) as nat, |k: int| Json::Str(v@[k]@))) by {
            assert(item_views(out@) =~= item_views(before).push(Json::Str(v@[i as int]@)));
        }
        i = i + 1;
    }
    json_array(out)
}

fn derivation_json(d: &FactDerivation) -> (r: JsonValue)
    ensures
        r@ == derivation_doc(*d),
{
    let mut m: Vec<JsonMember> = Vec::new();
    assert(key_views(m@) =~= Seq::<Seq<char>>::empty());
    assert(value_views(m@) =~= Seq::<Json>::empty());
    match d {
        FactDerivation::Initial { origin } => {
            push_member(&mut m, "kind", json_text("initial"));
            push_member(&mut m, "origin", json_text(origin.as_str()));
            assert(key_views(m@) =~= seq!["kind"@, "origin"@]);
            assert(value_views(m@) =~= seq![Json::Str("initial"@), Json::Str(origin@)]);
        },
        FactDerivation::Produced { capability, provider, inputs } => {
            push_member(&mut m, "kind", json_text("produced"));
            push_member(&mut m, "capability", id_json(capability));
            push_member(&mut m, "provider", id_json(provider));
            push_member(&mut m, "inputs", strings_json(inputs));
            assert(key_views(m@) =~= seq!["kind"@, "capability"@, "provider"@, "inputs"@]);
            assert(value_views(m@) =~= seq![Json::Str("produced"@), id_doc(capability@), id_doc(provider@), strings_doc(inputs@)]);
        },
        FactDerivation::Admitted {
            capability,
            provider,
            provider_implementation,
            inputs,
            request,
            candidate,
            conformance_result,
        } => {
            push_member(&mut m, "kind", json_text("admitted"));
            push_member(&mut m, "capability", id_json(capability));
            push_member(&mut m, "provider", id_json(provider));
            push_member(&mut m, "provider_implementation", json_text(provider_implementation.as_str()));
            push_member(&mut m, "inputs", strings_json(inputs));
            push_member(&mut m, "request", json_text(request.as_str()));
            push_member(&mut m, "candidate", json_text(candidate.as_str()));
            push_member(&mut m, "conformance_result", json_text(conformance_result.as_str()));
            assert(key_views(m@) =~= seq![
                "kind"@,
                "capability"@,
                "provider"@,
                "provider_implementation"@,
                "inputs"@,
                "request"@,
                "candidate"@,
                "conformance_result"@,
            ]);
            assert(value_views(m@) =~= seq![
                Json::Str("admitted"@),
                id_doc(capability@),
                id_doc(provider@),
                Json::Str(provider_implementation@),
                strings_doc(inputs@),
                Json::Str(request@),
                Json::Str(candidate@),
                Json::Str(conformance_result@),
            ]);
        },
    }
    json_object(m)
}

/// The identity of a fact instance with these parts.
pub fn fact_digest(fact_type: &ExactId, coverage: FactCoverage, payload: &JsonValue, derivation: &FactDerivation) -> (r: String)
    ensures
        r@ == fact_digest_of(fact_type@, coverage, payload@, *derivation),
        is_sha256_text(r@),
{
    let mut items: Vec<JsonValue> = Vec::new();
    items.push(id_json(fact_type));
    items.push(json_text(coverage_text(coverage)));
    items.push(normalize_json(payload));
    items.push(derivation_json(derivation));
    let tuple = json_array(items);
    assert(item_views(items@) =~= seq![id_doc(fact_type@), Json::Str(coverage_name(coverage)), normalize(payload@), derivation_doc(*derivation)]);
    let text = to_text(&tuple);
    let bytes = text.as_str().as_bytes();
    sha256_identity(bytes)
}

impl FactInstance {
    /// A supplied fact, identified by its parts.
    pub fn initial(fact_type: ExactId, coverage: FactCoverage, payload: JsonValue, origin: String) -> (r: Result<Self, RegistryError>)
        ensures
            r matches Ok(f) ==> f.fact_type@ == fact_type@ && f.coverage == coverage && f.payload@ == payload@
                && f.derivation == (FactDerivation::Initial { origin }) && f.id@ == fact_digest_of(
                fact_type@,
                coverage,
                payload@,
                FactDerivation::Initial { origin },
            ),
            r is Ok,
    {
        let derivation = FactDerivation::Initial { origin };
        let id = fact_digest(&fact_type, coverage, &payload, &derivation);
        Ok(FactInstance { id, fact_type, coverage, payload, derivation })
    }
}


/// The digest-bearing, provider-neutral part of one exact capability
/// invocation.
#[derive(Debug)]
pub struct CapabilityRequestBody {
    pub capability: ExactId,
    pub requires: Vec<Requirement>,
    pub inputs: Vec<FactInstance>,
    pub produces: Vec<ExactId>,
    pub conformance_suite: String,
}

/// A missing capability bound to exact input facts; identified by the
/// content identity of its body.
#[derive(Debug)]
pub struct CapabilityRequest {
    pub request_id: String,
    pub body: CapabilityRequestBody,
}

/// Why a request is refused.
#[derive(Debug)]
pub enum CapabilityRequestError {
    InvalidNeed(String),
    /// The legacy request document has nowhere to keep a declaration
    /// extension, so the adapter refuses rather than drop it.
    LegacyAdapterDeclarationExtensionsUnsupported { capability: ExactId, scope: LegacyDeclarationExtensionScope },
    /// The legacy request keys bindings by value kind and must not guess
    /// when a named signature repeats one.
    RepeatedInputValueKindPortsUnsupported(ExactId),
    RepeatedOutputValueKindPortsUnsupported(ExactId),
    DuplicateInput(ExactId),
    UnexpectedInput(ExactId),
    MissingInput(ExactId),
    PartialInputRejected(ExactId),
    InvalidFactIdentity(String),
    IdentityMismatch { expected: String, actual: String },
    Serialization(String),
}

/// Mathematical form of an extension scope.
pub enum ScopeView {
    Capability,
    InputPort(Seq<char>),
    OutputPort(Seq<char>),
}

/// Mathematical form of a request refusal.
pub enum RequestFault {
    InvalidNeed(Seq<char>),
    ExtensionsUnsupported(IdView, ScopeView),
    RepeatedInputKind(IdView),
    RepeatedOutputKind(IdView),
    DuplicateInput(IdView),
    UnexpectedInput(IdView),
    MissingInput(IdView),
    PartialInputRejected(IdView),
    InvalidFactIdentity(Seq<char>),
    IdentityMismatch(Seq<char>, Seq<char>),
    Serialization(Seq<char>),
}

pub open spec fn fault_of(e: CapabilityRequestError) -> RequestFault {
    match e {
        CapabilityRequestError::InvalidNeed(m) => RequestFault::InvalidNeed(m@),
        CapabilityRequestError::LegacyAdapterDeclarationExtensionsUnsupported { capability, scope } => RequestFault::ExtensionsUnsupported(
            capability@,
            match scope {
                LegacyDeclarationExtensionScope::Capability => ScopeView::Capability,
                LegacyDeclarationExtensionScope::InputPort(p) => ScopeView::InputPort(p@),
                LegacyDeclarationExtensionScope::OutputPort(p) => ScopeView::OutputPort(p@),
            },
        ),
        CapabilityRequestError::RepeatedInputValueKindPortsUnsupported(k) => RequestFault::RepeatedInputKind(k@),
        CapabilityRequestError::RepeatedOutputValueKindPortsUnsupported(k) => RequestFault::RepeatedOutputKind(k@),
        CapabilityRequestError::DuplicateInput(k) => RequestFault::DuplicateInput(k@),
        CapabilityRequestError::UnexpectedInput(k) => RequestFault::UnexpectedInput(k@),
        CapabilityRequestError::MissingInput(k) => RequestFault::MissingInput(k@),
        CapabilityRequestError::PartialInputRejected(k) => RequestFault::PartialInputRejected(k@),
        CapabilityRequestError::InvalidFactIdentity(m) => RequestFault::InvalidFactIdentity(m@),
        CapabilityRequestError::IdentityMismatch { expected, actual } => RequestFault::IdentityMismatch(expected@, actual@),
        CapabilityRequestError::Serialization(m) => RequestFault::Serialization(m@),
    }
}

pub open spec fn id_views(ids: Seq<ExactId>) -> Seq<IdView> {
    Seq::new(ids.len(), |i: int| ids[i]@)
}

pub open spec fn requirement_ids(reqs: Seq<Requirement>) -> Seq<IdView> {
    Seq::new(reqs.len(), |i: int| reqs[i].fact@)
}

pub open spec fn first_bad_id(ids: Seq<IdView>, i: int) -> Option<int>
    decreases ids.len() - i,
{
    if i < 0 || i >= ids.len() {
        None
    } else if !id_well_formed(ids[i]) {
        Some(i)
    } else {
        first_bad_id(ids, i + 1)
    }
}

pub open spec fn kind_msg(label: Seq<char>, id: IdView) -> Seq<char> {
    label + " `"@ + render_id(id) + "` is malformed"@
}

/// Some input before position `i` has the type of input `i`.
pub open spec fn type_seen_before(inputs: Seq<FactInstance>, i: int) -> bool {
    exists|j: int| 0 <= j < i && inputs[j].fact_type@ == inputs[i].fact_type@
}

/// The first refusal among the inputs from `i` on: a malformed type, a
/// repeated type, or an identity that is not the digest of the fact.
pub open spec fn input_fault(inputs: Seq<FactInstance>, i: int) -> Option<RequestFault>
    decreases inputs.len() - i,
{
    if i < 0 || i >= inputs.len() {
        None
    } else {
        let f = inputs[i];
        if !id_well_formed(f.fact_type@) {
            Some(RequestFault::InvalidNeed(kind_msg("input value kind"@, f.fact_type@)))
        } else if type_seen_before(inputs, i) {
            Some(RequestFault::DuplicateInput(f.fact_type@))
        } else if !is_sha256_text(f.id@) || f.id@ != fact_digest_of(f.fact_type@, f.coverage, f.payload@, f.derivation) {
            Some(RequestFault::InvalidFactIdentity(f.id@))
        } else {
            input_fault(inputs, i + 1)
        }
    }
}

/// The first input, from `j` on, of this type.
pub open spec fn input_of_type(inputs: Seq<FactInstance>, t: IdView, j: int) -> Option<int>
    decreases inputs.len() - j,
{
    if j < 0 || j >= inputs.len() {
        None
    } else if inputs[j].fact_type@ == t {
        Some(j)
    } else {
        input_of_type(inputs, t, j + 1)
    }
}

/// The first requirement, from `k` on, with no input or with a partial
/// input where only complete facts are accepted.
pub open spec fn requirement_fault(reqs: Seq<(IdView, FactAcceptance)>, inputs: Seq<FactInstance>, k: int) -> Option<RequestFault>
    decreases reqs.len() - k,
{
    if k < 0 || k >= reqs.len() {
        None
    } else {
        let r = reqs[k];
        match input_of_type(inputs, r.0, 0) {
            None => Some(RequestFault::MissingInput(r.0)),
            Some(j) => if r.1 == FactAcceptance::CompleteOnly && inputs[j].coverage == FactCoverage::Partial {
                Some(RequestFault::PartialInputRejected(r.0))
            } else {
                requirement_fault(reqs, inputs, k + 1)
            },
        }
    }
}

/// The requirements of a request, by view.
pub open spec fn req_views(reqs: Seq<Requirement>) -> Seq<(IdView, FactAcceptance)> {
    Seq::new(reqs.len(), |i: int| (reqs[i].fact@, reqs[i].acceptance))
}

pub open spec fn req_ids(reqs: Seq<(IdView, FactAcceptance)>) -> Seq<IdView> {
    Seq::new(reqs.len(), |i: int| reqs[i].0)
}

/// The order of exact identities: by package, then name, then version.
pub open spec fn id_less(a: IdView, b: IdView) -> bool {
    key_less(a.package, b.package) || (a.package == b.package && (key_less(a.name, b.name) || (a.name == b.name
        && key_less(a.version, b.version))))
}

/// The least, by identity order, of the input types from `i` on that no
/// requirement names, starting from `best`.
pub open spec fn least_unrequired(inputs: Seq<FactInstance>, required: Seq<IdView>, i: int, best: Option<IdView>) -> Option<IdView>
    decreases inputs.len() - i,
{
    if i < 0 || i >= inputs.len() {
        best
    } else {
        let t = inputs[i].fact_type@;
        let next = if required.contains(t) {
            best
        } else {
            match best {
                None => Some(t),
                Some(b) => if id_less(t, b) { Some(t) } else { Some(b) },
            }
        };
        least_unrequired(inputs, required, i + 1, next)
    }
}

/// Why a request with these parts is refused, in the order it is
/// checked, or nothing.
pub open spec fn parts_fault(
    capability: IdView,
    reqs: Seq<(IdView, FactAcceptance)>,
    inputs: Seq<FactInstance>,
    prods: Seq<IdView>,
    suite: Seq<char>,
) -> Option<RequestFault> {
    let rids = req_ids(reqs);
    if !id_well_formed(capability) {
        Some(RequestFault::InvalidNeed("capability identity is malformed"@))
    } else if is_blank(suite) {
        Some(RequestFault::InvalidNeed("conformance suite is empty"@))
    } else if prods.len() == 0 {
        Some(RequestFault::InvalidNeed("produced fact set is empty"@))
    } else if first_bad_id(rids, 0) is Some {
        Some(RequestFault::InvalidNeed(kind_msg("required value kind"@, rids[first_bad_id(rids, 0).unwrap()])))
    } else if !distinct(rids) {
        Some(RequestFault::InvalidNeed("duplicate required fact identity"@))
    } else if first_bad_id(prods, 0) is Some {
        Some(RequestFault::InvalidNeed(kind_msg("produced value kind"@, prods[first_bad_id(prods, 0).unwrap()])))
    } else if !distinct(prods) {
        Some(RequestFault::InvalidNeed("duplicate produced fact identity"@))
    } else if input_fault(inputs, 0) is Some {
        input_fault(inputs, 0)
    } else if requirement_fault(reqs, inputs, 0) is Some {
        requirement_fault(reqs, inputs, 0)
    } else {
        match least_unrequired(inputs, rids, 0, None) {
            Some(t) => Some(RequestFault::UnexpectedInput(t)),
            None => None,
        }
    }
}

/// Why a request body is refused, or nothing.
pub open spec fn body_fault(body: CapabilityRequestBody) -> Option<RequestFault> {
    parts_fault(body.capability@, req_views(body.requires@), body.inputs@, id_views(body.produces@), body.conformance_suite@)
}

pub fn id_less_exec(a: &ExactId, b: &ExactId) -> (r: bool)
    ensures
        r == id_less(a@, b@),
{
    if key_less_exec(&a.package, &b.package) {
        return true;
    }
    if a.package != b.package {
        return false;
    }
    if key_less_exec(&a.name, &b.name) {
        return true;
    }
    if a.name != b.name {
        return false;
    }
    key_less_exec(&a.version, &b.version)
}

fn kind_error(label: &str, id: &ExactId) -> (e: CapabilityRequestError)
    ensures
        fault_of(e) == RequestFault::InvalidNeed(kind_msg(label@, id@)),
{
    let mut m = owned(label);
    m.append(" `");
    let t = id.render();
    m.append(t.as_str());
    m.append("` is malformed");
    CapabilityRequestError::InvalidNeed(m)
}

pub(crate) fn ids_distinct(ids: &Vec<ExactId>) -> (r: bool)
    ensures
        r == distinct(id_views(ids@)),
{
    let ghost v = id_views(ids@);
    let mut j: usize = 0;
    while j < ids.len()
        invariant
            j <= ids.len(),
            v == id_views(ids@),
            forall|a: int, b: int| 0 <= a < b < j ==> v[a] != v[b],
        decreases ids.len() - j,
    {
        let mut i: usize = 0;
        while i < j
            invariant
                i <= j < ids.len(),
                v == id_views(ids@),
                forall|a: int, b: int| 0 <= a < b < j ==> v[a] != v[b],
                forall|a: int| 0 <= a < i ==> v[a] != v[j as int],
            decreases j - i,
        {
            if ids[i].same_as(&ids[j]) {
                assert(v[i as int] == v[j as int]);
                return false;
            }
            i = i + 1;
        }
        j = j + 1;
    }
    true
}

fn first_bad_in(ids: &Vec<ExactId>) -> (r: Option<usize>)
    ensures
        r matches Some(i) ==> first_bad_id(id_views(ids@), 0) == Some(i as int) && i < ids.len(),
        r is None ==> first_bad_id(id_views(ids@), 0) is None,
{
    let ghost v = id_views(ids@);
    let mut i: usize = 0;
    while i < ids.len()
        invariant
            i <= ids.len(),
            v == id_views(ids@),
            first_bad_id(v, 0) == first_bad_id(v, i as int),
        decreases ids.len() - i,
    {
        if !ids[i].is_well_formed() {
            return Some(i);
        }
        i = i + 1;
    }
    None
}

#[verifier::loop_isolation(false)]
fn validate_inputs(inputs: &Vec<FactInstance>) -> (r: Result<(), CapabilityRequestError>)
    ensures
        r is Ok <==> input_fault(inputs@, 0) is None,
        r matches Err(e) ==> input_fault(inputs@, 0) == Some(fault_of(e)),
{
    let mut i: usize = 0;
    while i < inputs.len()
        invariant
            i <= inputs.len(),
            input_fault(inputs@, 0) == input_fault(inputs@, i as int),
        decreases inputs.len() - i,
    {
        let f = &inputs[i];
        if !f.fact_type.is_well_formed() {
            return Err(kind_error("input value kind", &f.fact_type));
        }
        let mut j: usize = 0;
        while j < i
            invariant
                j <= i,
                forall|k: int| 0 <= k < j ==> inputs@[k].fact_type@ != inputs@[i as int].fact_type@,
            decreases i - j,
        {
            if inputs[j].fact_type.same_as(&f.fact_type) {
                return Err(CapabilityRequestError::DuplicateInput(f.fact_type.duplicate()));
            }
            j = j + 1;
        }
        assert(!type_seen_before(inputs@, i as int));
        if !is_sha256_identity(f.id.as_str()) {
            return Err(CapabilityRequestError::InvalidFactIdentity(f.id.clone()));
        }
        let expected = fact_digest(&f.fact_type, f.coverage, &f.payload, &f.derivation);
        if f.id != expected {
            return Err(CapabilityRequestError::InvalidFactIdentity(f.id.clone()));
        }
        i = i + 1;
    }
    Ok(())
}

fn find_input(inputs: &Vec<FactInstance>, t: &ExactId) -> (r: Option<usize>)
    ensures
        r matches Some(j) ==> input_of_type(inputs@, t@, 0) == Some(j as int) && j < inputs.len(),
        r is None ==> input_of_type(inputs@, t@, 0) is None,
{
    let mut j: usize = 0;
    while j < inputs.len()
        invariant
            j <= inputs.len(),
            input_of_type(inputs@, t@, 0) == input_of_type(inputs@, t@, j as int),
        decreases inputs.len() - j,
    {
        if inputs[j].fact_type.same_as(t) {
            return Some(j);
        }
        j = j + 1;
    }
    None
}

fn requirement_ids_vec(reqs: &Vec<Requirement>) -> (r: Vec<ExactId>)
    ensures
        id_views(r@) == requirement_ids(reqs@),
{
    let mut out: Vec<ExactId> = Vec::new();
    let mut i: usize = 0;
    while i < reqs.len()
        invariant
            i <= reqs.len(),
            id_views(out@) == requirement_ids(reqs@).subrange(0, i as int),
        decreases reqs.len() - i,
    {
        let ghost before = out@;
        out.push(reqs[i].fact.duplicate());
        assert(id_views(out@) =~= requirement_ids(reqs@).subrange(0, i + 1)) by {
            assert(id_views(out@) =~= id_views(before).push(reqs@[i as int].fact@));
        }
        i = i + 1;
    }
    assert(requirement_ids(reqs@).subrange(0, reqs@.len() as int) =~= requirement_ids(reqs@));
    out
}

fn contains_id(ids: &Vec<ExactId>, t: &ExactId) -> (r: bool)
    ensures
        r == id_views(ids@).contains(t@),
{
    let mut i: usize = 0;
    while i < ids.len()
        invariant
            i <= ids.len(),
            forall|k: int| 0 <= k < i ==> id_views(ids@)[k] != t@,
        decreases ids.len() - i,
    {
        if ids[i].same_as(t) {
            assert(id_views(ids@)[i as int] == t@);
            return true;
        }
        i = i + 1;
    }
    false
}

/// Checks a request body: exact identities, a named suite, distinct
/// requirements and products, exactly identified and unrepeated inputs,
/// one input for every requirement (complete where only complete facts
/// are accepted), and no input nothing requires.
#[verifier::loop_isolation(false)]
pub fn validate_request_body(body: &CapabilityRequestBody) -> (r: Result<(), CapabilityRequestError>)
    ensures
        r is Ok <==> body_fault(*body) is None,
        r matches Err(e) ==> body_fault(*body) == Some(fault_of(e)),
{
    assert(requirement_ids(body.requires@) =~= req_ids(req_views(body.requires@)));
    if !body.capability.is_well_formed() {
        return Err(CapabilityRequestError::InvalidNeed(owned("capability identity is malformed")));
    }
    let suite = chars_of(body.conformance_suite.as_str());
    if is_blank_chars(&suite) {
        return Err(CapabilityRequestError::InvalidNeed(owned("conformance suite is empty")));
    }
    if body.produces.len() == 0 {
        assert(id_views(body.produces@).len() == 0);
        return Err(CapabilityRequestError::InvalidNeed(owned("produced fact set is empty")));
    }
    let required = requirement_ids_vec(&body.requires);
    match first_bad_in(&required) {
        Some(i) => return Err(kind_error("required value kind", &required[i])),
        None => {},
    }
    if !ids_distinct(&required) {
        return Err(CapabilityRequestError::InvalidNeed(owned("duplicate required fact identity")));
    }
    match first_bad_in(&body.produces) {
        Some(i) => return Err(kind_error("produced value kind", &body.produces[i])),
        None => {},
    }
    if !ids_distinct(&body.produces) {
        return Err(CapabilityRequestError::InvalidNeed(owned("duplicate produced fact identity")));
    }
    validate_inputs(&body.inputs)?;
    let mut k: usize = 0;
    while k < body.requires.len()
        invariant
            k <= body.requires.len(),
            requirement_fault(req_views(body.requires@), body.inputs@, 0) == requirement_fault(req_views(body.requires@), body.inputs@, k as int),
        decreases body.requires.len() - k,
    {
        let r = &body.requires[k];
        match find_input(&body.inputs, &r.fact) {
            None => return Err(CapabilityRequestError::MissingInput(r.fact.duplicate())),
            Some(j) => {
                if r.acceptance == FactAcceptance::CompleteOnly && body.inputs[j].coverage == FactCoverage::Partial {
                    return Err(CapabilityRequestError::PartialInputRejected(r.fact.duplicate()));
                }
            },
        }
        k = k + 1;
    }
    let mut best: Option<usize> = None;
    let mut i: usize = 0;
    while i < body.inputs.len()
        invariant
            i <= body.inputs.len(),
            id_views(required@) == requirement_ids(body.requires@),
            requirement_ids(body.requires@) == req_ids(req_views(body.requires@)),
            best matches Some(b) ==> b < body.inputs.len(),
            least_unrequired(body.inputs@, requirement_ids(body.requires@), 0, None) == least_unrequired(
                body.inputs@,
                requirement_ids(body.requires@),
                i as int,
                match best {
                    Some(b) => Some(body.inputs@[b as int].fact_type@),
                    None => None,
                },
            ),
        decreases body.inputs.len() - i,
    {
        let t = &body.inputs[i].fact_type;
        if !contains_id(&required, t) {
            match best {
                None => {
                    best = Some(i);
                },
                Some(b) => {
                    if id_less_exec(t, &body.inputs[b].fact_type) {
                        best = Some(i);
                    }
                },
            }
        }
        i = i + 1;
    }
    match best {
        Some(b) => Err(CapabilityRequestError::UnexpectedInput(body.inputs[b].fact_type.duplicate())),
        None => Ok(()),
    }
}


pub open spec fn requirement_doc(r: (IdView, FactAcceptance)) -> Json {
    Json::Object(seq!["fact"@, "acceptance"@], seq![id_doc(r.0), Json::Str(acceptance_name(r.1))])
}

/// The document form of a fact instance.
pub open spec fn fact_doc(f: FactInstance) -> Json {
    Json::Object(
        seq!["id"@, "fact_type"@, "coverage"@, "payload"@, "derivation"@],
        seq![Json::Str(f.id@), id_doc(f.fact_type@), Json::Str(coverage_name(f.coverage)), f.payload@, derivation_doc(f.derivation)],
    )
}

/// The document form of a request body with these parts.
pub open spec fn parts_doc(
    capability: IdView,
    reqs: Seq<(IdView, FactAcceptance)>,
    inputs: Seq<FactInstance>,
    prods: Seq<IdView>,
    suite: Seq<char>,
) -> Json {
    Json::Object(
        seq!["capability"@, "requires"@, "inputs"@, "produces"@, "conformance_suite"@],
        seq![
            id_doc(capability),
            Json::Array(Seq::new(reqs.len(), |i: int| requirement_doc(reqs[i]))),
            Json::Array(Seq::new(inputs.len(), |i: int| fact_doc(inputs[i]))),
            Json::Array(Seq::new(prods.len(), |i: int| id_doc(prods[i]))),
            Json::Str(suite),
        ],
    )
}

pub open spec fn body_doc(body: CapabilityRequestBody) -> Json {
    parts_doc(body.capability@, req_views(body.requires@), body.inputs@, id_views(body.produces@), body.conformance_suite@)
}

pub open spec fn serialization_msg() -> Seq<char> {
    "canonical JSON serialization failed"@
}

/// Why a request is refused: its body, or an identity that is not the
/// content identity of the body.
pub open spec fn request_fault(req: CapabilityRequest) -> Option<RequestFault> {
    match body_fault(req.body) {
        Some(f) => Some(f),
        None => match content_id(body_doc(req.body)) {
            None => Some(RequestFault::Serialization(serialization_msg())),
            Some(id) => if id == req.request_id@ {
                None
            } else {
                Some(RequestFault::IdentityMismatch(id, req.request_id@))
            },
        },
    }
}

fn fact_json(f: &FactInstance) -> (r: JsonValue)
    ensures
        r@ == fact_doc(*f),
{
    let mut m: Vec<JsonMember> = Vec::new();
    assert(key_views(m@) =~= Seq::<Seq<char>>::empty());
    assert(value_views(m@) =~= Seq::<Json>::empty());
    push_member(&mut m, "id", json_text(f.id.as_str()));
    push_member(&mut m, "fact_type", id_json(&f.fact_type));
    push_member(&mut m, "coverage", json_text(coverage_text(f.coverage)));
    push_member(&mut m, "payload", copy_json(&f.payload));
    push_member(&mut m, "derivation", derivation_json(&f.derivation));
    assert(key_views(m@) =~= seq!["id"@, "fact_type"@, "coverage"@, "payload"@, "derivation"@]);
    assert(value_views(m@) =~= seq![
        Json::Str(f.id@),
        id_doc(f.fact_type@),
        Json::Str(coverage_name(f.coverage)),
        f.payload@,
        derivation_doc(f.derivation),
    ]);
    json_object(m)
}

fn body_json(body: &CapabilityRequestBody) -> (r: JsonValue)
    ensures
        r@ == body_doc(*body),
{
    let ghost reqs = req_views(body.requires@);
    let mut req_docs: Vec<JsonValue> = Vec::new();
    let mut i: usize = 0;
    while i < body.requires.len()
        invariant
            i <= body.requires.len(),
            reqs == req_views(body.requires@),
            item_views(req_docs@) == Seq::new(i as nat, |k: int| requirement_doc(reqs[k])),
        decreases body.requires.len() - i,
    {
        let r = &body.requires[i];
        let mut m: Vec<JsonMember> = Vec::new();
        assert(key_views(m@) =~= Seq::<Seq<char>>::empty());
        assert(value_views(m@) =~= Seq::<Json>::empty());
        push_member(&mut m, "fact", id_json(&r.fact));
        push_member(&mut m, "acceptance", json_text(acceptance_text(r.acceptance)));
        assert(key_views(m@) =~= seq!["fact"@, "acceptance"@]);
        assert(value_views(m@) =~= seq![id_doc(r.fact@), Json::Str(acceptance_name(r.acceptance))]);
        let ghost before = req_docs@;
        req_docs.push(json_object(m));
        assert(item_views(req_docs@) =~= Seq::new((i + 1) as nat, |k: int| requirement_doc(reqs[k]))) by {
            assert(item_views(req_docs@) =~= item_views(before).push(requirement_doc(reqs[i as int])));
        }
        i = i + 1;
    }
    let mut inputs: Vec<JsonValue> = Vec::new();
    let mut i: usize = 0;
    while i < body.inputs.len()
        invariant
            i <= body.inputs.len(),
            item_views(inputs@) == Seq::new(i as nat, |k: int| fact_doc(body.inputs@[k])),
        decreases body.inputs.len() - i,
    {
        let ghost before = inputs@;
        inputs.push(fact_json(&body.inputs[i]));
        assert(item_views(inputs@) =~= Seq::new((i + 1) as nat, |k: int| fact_doc(body.inputs@[k]))) by {
            assert(item_views(inputs@) =~= item_views(before).push(fact_doc(body.inputs@[i as int])));
        }
        i = i + 1;
    }
    let ghost prods = id_views(body.produces@);
    let mut produces: Vec<JsonValue> = Vec::new();
    let mut i: usize = 0;
    while i < body.produces.len()
        invariant
            i <= body.produces.len(),
            prods == id_views(body.produces@),
            item_views(produces@) == Seq::new(i as nat, |k: int| id_doc(prods[k])),
        decreases body.produces.len() - i,
    {
        let ghost before = produces@;
        produces.push(id_json(&body.produces[i]));
        assert(item_views(produces@) =~= Seq::new((i + 1) as nat, |k: int| id_doc(prods[k]))) by {
            assert(item_views(produces@) =~= item_views(before).push(id_doc(prods[i as int])));
        }
        i = i + 1;
    }
    let mut m: Vec<JsonMember> = Vec::new();
    assert(key_views(m@) =~= Seq::<Seq<char>>::empty());
    assert(value_views(m@) =~= Seq::<Json>::empty());
    push_member(&mut m, "capability", id_json(&body.capability));
    push_member(&mut m, "requires", json_array(req_docs));
    push_member(&mut m, "inputs", json_array(inputs));
    push_member(&mut m, "produces", json_array(produces));
    push_member(&mut m, "conformance_suite", json_text(body.conformance_suite.as_str()));
    assert(key_views(m@) =~= seq!["capability"@, "requires"@, "inputs"@, "produces"@, "conformance_suite"@]);
    assert(value_views(m@) =~= seq![
        id_doc(body.capability@),
        Json::Array(Seq::new(reqs.len(), |k: int| requirement_doc(reqs[k]))),
        Json::Array(Seq::new(body.inputs@.len(), |k: int| fact_doc(body.inputs@[k]))),
        Json::Array(Seq::new(prods.len(), |k: int| id_doc(prods[k]))),
        Json::Str(body.conformance_suite@),
    ]);
    json_object(m)
}

impl CapabilityRequest {
    /// Revalidates a request and its content-derived identity.
    pub fn validate(&self) -> (r: Result<(), CapabilityRequestError>)
        ensures
            r is Ok <==> request_fault(*self) is None,
            r matches Err(e) ==> request_fault(*self) == Some(fault_of(e)),
    {
        validate_request_body(&self.body)?;
        let doc = body_json(&self.body);
        let expected = match json_content_id(&doc) {
            Some(id) => id,
            None => return Err(CapabilityRequestError::Serialization(owned("canonical JSON serialization failed"))),
        };
        if self.request_id != expected {
            return Err(CapabilityRequestError::IdentityMismatch { expected, actual: self.request_id.clone() });
        }
        Ok(())
    }
}


/// A capability with no implementation offer: the complete declaration is
/// the assignable work.
#[derive(Debug, PartialEq, Eq)]
pub struct CapabilityNeed {
    pub specification: CapabilitySpec,
    pub reason: String,
}

/// The debug text of a declaration refusal, as a request reports it.
pub open spec fn invalid_capability_text(id: IdView, reason: Seq<char>) -> Seq<char> {
    "InvalidCapability { capability: CapabilityId { package: \""@ + id.package + "\", name: \""@ + id.name
        + "\", version: \""@ + id.version + "\" }, reason: \""@ + reason + "\" }"@
}

pub open spec fn input_kinds(ports: Seq<InputPort>) -> Seq<IdView> {
    Seq::new(ports.len(), |i: int| ports[i].value_kind@)
}

pub open spec fn output_kinds(ports: Seq<OutputPort>) -> Seq<IdView> {
    Seq::new(ports.len(), |i: int| ports[i].value_kind@)
}

pub open spec fn port_reqs(ports: Seq<InputPort>) -> Seq<(IdView, FactAcceptance)> {
    Seq::new(ports.len(), |i: int| (ports[i].value_kind@, ports[i].acceptance))
}

pub open spec fn first_extended_input(ports: Seq<InputPort>, i: int) -> Option<int>
    decreases ports.len() - i,
{
    if i < 0 || i >= ports.len() {
        None
    } else if ports[i].extensions@.len() > 0 {
        Some(i)
    } else {
        first_extended_input(ports, i + 1)
    }
}

pub open spec fn first_extended_output(ports: Seq<OutputPort>, i: int) -> Option<int>
    decreases ports.len() - i,
{
    if i < 0 || i >= ports.len() {
        None
    } else if ports[i].extensions@.len() > 0 {
        Some(i)
    } else {
        first_extended_output(ports, i + 1)
    }
}

/// The first position, from `j` on, whose kind occurred earlier.
pub open spec fn first_repeat(kinds: Seq<IdView>, j: int) -> Option<int>
    decreases kinds.len() - j,
{
    if j < 0 || j >= kinds.len() {
        None
    } else if exists|i: int| 0 <= i < j && kinds[i] == kinds[j] {
        Some(j)
    } else {
        first_repeat(kinds, j + 1)
    }
}

/// The input port, from `p` on, of this kind.
pub open spec fn port_of_kind(ports: Seq<InputPort>, t: IdView, p: int) -> Option<int>
    decreases ports.len() - p,
{
    if p < 0 || p >= ports.len() {
        None
    } else if ports[p].value_kind@ == t {
        Some(p)
    } else {
        port_of_kind(ports, t, p + 1)
    }
}

/// The first refusal binding inputs, from `i` on, to the input ports: a
/// repeated type, a type no port takes, or a partial fact where only
/// complete ones are accepted.
pub open spec fn bind_input_fault(ports: Seq<InputPort>, inputs: Seq<FactInstance>, i: int) -> Option<RequestFault>
    decreases inputs.len() - i,
{
    if i < 0 || i >= inputs.len() {
        None
    } else {
        let t = inputs[i].fact_type@;
        if type_seen_before(inputs, i) {
            Some(RequestFault::DuplicateInput(t))
        } else {
            match port_of_kind(ports, t, 0) {
                None => Some(RequestFault::UnexpectedInput(t)),
                Some(p) => if ports[p].acceptance == FactAcceptance::CompleteOnly && inputs[i].coverage
                    == FactCoverage::Partial {
                    Some(RequestFault::PartialInputRejected(t))
                } else {
                    bind_input_fault(ports, inputs, i + 1)
                },
            }
        }
    }
}

pub open spec fn input_types(inputs: Seq<FactInstance>) -> Seq<IdView> {
    Seq::new(inputs.len(), |i: int| inputs[i].fact_type@)
}

/// The least, by identity order, of the port kinds from `p` on that no
/// input supplies, starting from `best`.
pub open spec fn least_missing(kinds: Seq<IdView>, supplied: Seq<IdView>, p: int, best: Option<IdView>) -> Option<IdView>
    decreases kinds.len() - p,
{
    if p < 0 || p >= kinds.len() {
        best
    } else {
        let t = kinds[p];
        let next = if supplied.contains(t) {
            best
        } else {
            match best {
                None => Some(t),
                Some(b) => if id_less(t, b) { Some(t) } else { Some(b) },
            }
        };
        least_missing(kinds, supplied, p + 1, next)
    }
}

/// Why binding a need to these inputs under this suite is refused, in the
/// order it is checked, or nothing.
pub open spec fn bind_fault(spec: CapabilitySpec, inputs: Seq<FactInstance>, suite: Seq<char>) -> Option<RequestFault> {
    let ins = spec.input_ports@;
    let outs = spec.output_ports@;
    match spec_rejection(spec) {
        Some(reason) => Some(RequestFault::InvalidNeed(invalid_capability_text(spec.id@, reason))),
        None => if spec.extensions@.len() > 0 {
            Some(RequestFault::ExtensionsUnsupported(spec.id@, ScopeView::Capability))
        } else if first_extended_input(ins, 0) is Some {
            Some(RequestFault::ExtensionsUnsupported(spec.id@, ScopeView::InputPort(ins[first_extended_input(ins, 0).unwrap()].name@)))
        } else if first_extended_output(outs, 0) is Some {
            Some(RequestFault::ExtensionsUnsupported(spec.id@, ScopeView::OutputPort(outs[first_extended_output(outs, 0).unwrap()].name@)))
        } else if first_repeat(input_kinds(ins), 0) is Some {
            Some(RequestFault::RepeatedInputKind(input_kinds(ins)[first_repeat(input_kinds(ins), 0).unwrap()]))
        } else if first_repeat(output_kinds(outs), 0) is Some {
            Some(RequestFault::RepeatedOutputKind(output_kinds(outs)[first_repeat(output_kinds(outs), 0).unwrap()]))
        } else if bind_input_fault(ins, inputs, 0) is Some {
            bind_input_fault(ins, inputs, 0)
        } else if least_missing(input_kinds(ins), input_types(inputs), 0, None) is Some {
            Some(RequestFault::MissingInput(least_missing(input_kinds(ins), input_types(inputs), 0, None).unwrap()))
        } else if outs.len() == 0 {
            Some(RequestFault::InvalidNeed("output port set is empty"@))
        } else {
            match parts_fault(spec.id@, port_reqs(ins), inputs, output_kinds(outs), suite) {
                Some(f) => Some(f),
                None => if content_id(parts_doc(spec.id@, port_reqs(ins), inputs, output_kinds(outs), suite)) is None {
                    Some(RequestFault::Serialization(serialization_msg()))
                } else {
                    None
                },
            }
        },
    }
}

pub(crate) fn invalid_need_text(id: &ExactId, reason: &String) -> (r: String)
    ensures
        r@ == invalid_capability_text(id@, reason@),
{
    let mut m = owned("InvalidCapability { capability: CapabilityId { package: \"");
    m.append(id.package.as_str());
    m.append("\", name: \"");
    m.append(id.name.as_str());
    m.append("\", version: \"");
    m.append(id.version.as_str());
    m.append("\" }, reason: \"");
    m.append(reason.as_str());
    m.append("\" }");
    m
}

pub(crate) fn first_repeat_in(kinds: &Vec<ExactId>) -> (r: Option<usize>)
    ensures
        r matches Some(j) ==> first_repeat(id_views(kinds@), 0) == Some(j as int) && j < kinds.len(),
        r is None ==> first_repeat(id_views(kinds@), 0) is None,
{
    let ghost v = id_views(kinds@);
    let mut j: usize = 0;
    while j < kinds.len()
        invariant
            j <= kinds.len(),
            v == id_views(kinds@),
            first_repeat(v, 0) == first_repeat(v, j as int),
        decreases kinds.len() - j,
    {
        let mut i: usize = 0;
        while i < j
            invariant
                i <= j < kinds.len(),
                v == id_views(kinds@),
                first_repeat(v, 0) == first_repeat(v, j as int),
                forall|a: int| 0 <= a < i ==> v[a] != v[j as int],
            decreases j - i,
        {
            if kinds[i].same_as(&kinds[j]) {
                assert(v[i as int] == v[j as int]);
                assert(exists|a: int| 0 <= a < j && v[a] == v[j as int]);
                return Some(j);
            }
            i = i + 1;
        }
        j = j + 1;
    }
    None
}

impl CapabilityRequest {
    /// Binds a need to exact inputs, keeping the suite the need declares.
    pub fn bind(need: &CapabilityNeed, inputs: Vec<FactInstance>) -> (r: Result<Self, CapabilityRequestError>)
        ensures
            r is Ok <==> bind_fault(need.specification, inputs@, need.specification.default_conformance_suite@) is None,
            r matches Err(e) ==> bind_fault(need.specification, inputs@, need.specification.default_conformance_suite@)
                == Some(fault_of(e)),
            r matches Ok(req) ==> Self::binds(req, need.specification, inputs@, need.specification.default_conformance_suite@),
            r matches Ok(req) ==> is_sha256_text(req.request_id@),
    {
        let suite = need.specification.default_conformance_suite.clone();
        CapabilityRequest::bind_with_suite(need, inputs, suite)
    }

    /// What a request bound from this declaration, inputs and suite holds:
    /// the capability, one requirement per input port in order, the inputs
    /// as given, the output kinds in order, the suite, and the content
    /// identity of all of it.
    pub open spec fn binds(req: CapabilityRequest, spec: CapabilitySpec, inputs: Seq<FactInstance>, suite: Seq<char>) -> bool {
        &&& req.body.capability@ == spec.id@
        &&& req_views(req.body.requires@) == port_reqs(spec.input_ports@)
        &&& req.body.inputs@ == inputs
        &&& id_views(req.body.produces@) == output_kinds(spec.output_ports@)
        &&& req.body.conformance_suite@ == suite
        &&& content_id(body_doc(req.body)) == Some(req.request_id@)
    }

    /// Binding is determined by the declaration, the inputs and the suite:
    /// two requests that both bind them carry the same body and the same
    /// identity. With `bind` stated as binding at the declared default
    /// suite, a plain binding is the binding with that suite.
    pub proof fn lemma_binding_is_determined(
        r1: CapabilityRequest,
        r2: CapabilityRequest,
        spec: CapabilitySpec,
        inputs: Seq<FactInstance>,
        suite: Seq<char>,
    )
        requires
            Self::binds(r1, spec, inputs, suite),
            Self::binds(r2, spec, inputs, suite),
        ensures
            body_doc(r1.body) == body_doc(r2.body),
            r1.request_id@ == r2.request_id@,
            r1.body.capability@ == r2.body.capability@,
            req_views(r1.body.requires@) == req_views(r2.body.requires@),
            r1.body.inputs@ == r2.body.inputs@,
            id_views(r1.body.produces@) == id_views(r2.body.produces@),
            r1.body.conformance_suite@ == r2.body.conformance_suite@,
    {
    }

    /// Binds a need while naming the suite that will actually run. A
    /// request naming a weaker suite still admits nothing unless the host
    /// admits an attester for that suite.
    #[verifier::loop_isolation(false)]
    #[verifier::rlimit(30)]
    pub fn bind_with_suite(need: &CapabilityNeed, inputs: Vec<FactInstance>, conformance_suite: String) -> (r: Result<
        Self,
        CapabilityRequestError,
    >)
        ensures
            r is Ok <==> bind_fault(need.specification, inputs@, conformance_suite@) is None,
            r matches Err(e) ==> bind_fault(need.specification, inputs@, conformance_suite@) == Some(fault_of(e)),
            r matches Ok(req) ==> Self::binds(req, need.specification, inputs@, conformance_suite@),
            r matches Ok(req) ==> is_sha256_text(req.request_id@),
    {
        let spec = &need.specification;
        let ghost ins = spec.input_ports@;
        let ghost outs = spec.output_ports@;
        match validate_spec(spec) {
            Ok(()) => {},
            Err(e) => {
                let text = match &e {
                    RegistryError::InvalidCapability { capability, reason } => invalid_need_text(&spec.id, reason),
                    _ => owned(""),
                };
                return Err(CapabilityRequestError::InvalidNeed(text));
            },
        }
        if spec.extensions.len() > 0 {
            return Err(CapabilityRequestError::LegacyAdapterDeclarationExtensionsUnsupported {
                capability: spec.id.duplicate(),
                scope: LegacyDeclarationExtensionScope::Capability,
            });
        }
        let mut p: usize = 0;
        while p < spec.input_ports.len()
            invariant
                p <= spec.input_ports.len(),
                first_extended_input(ins, 0) == first_extended_input(ins, p as int),
            decreases spec.input_ports.len() - p,
        {
            if spec.input_ports[p].extensions.len() > 0 {
                return Err(CapabilityRequestError::LegacyAdapterDeclarationExtensionsUnsupported {
                    capability: spec.id.duplicate(),
                    scope: LegacyDeclarationExtensionScope::InputPort(spec.input_ports[p].name.duplicate()),
                });
            }
            p = p + 1;
        }
        let mut p: usize = 0;
        while p < spec.output_ports.len()
            invariant
                p <= spec.output_ports.len(),
                first_extended_output(outs, 0) == first_extended_output(outs, p as int),
            decreases spec.output_ports.len() - p,
        {
            if spec.output_ports[p].extensions.len() > 0 {
                return Err(CapabilityRequestError::LegacyAdapterDeclarationExtensionsUnsupported {
                    capability: spec.id.duplicate(),
                    scope: LegacyDeclarationExtensionScope::OutputPort(spec.output_ports[p].name.duplicate()),
                });
            }
            p = p + 1;
        }
        let mut in_kinds: Vec<ExactId> = Vec::new();
        let mut reqs: Vec<Requirement> = Vec::new();
        let mut p: usize = 0;
        while p < spec.input_ports.len()
            invariant
                p <= spec.input_ports.len(),
                id_views(in_kinds@) == input_kinds(ins).subrange(0, p as int),
                req_views(reqs@) == port_reqs(ins).subrange(0, p as int),
            decreases spec.input_ports.len() - p,
        {
            let ghost k0 = in_kinds@;
            let ghost r0 = reqs@;
            in_kinds.push(spec.input_ports[p].value_kind.duplicate());
            reqs.push(Requirement { fact: spec.input_ports[p].value_kind.duplicate(), acceptance: spec.input_ports[p].acceptance });
            assert(id_views(in_kinds@) =~= input_kinds(ins).subrange(0, p + 1)) by {
                assert(id_views(in_kinds@) =~= id_views(k0).push(ins[p as int].value_kind@));
            }
            assert(req_views(reqs@) =~= port_reqs(ins).subrange(0, p + 1)) by {
                assert(req_views(reqs@) =~= req_views(r0).push((ins[p as int].value_kind@, ins[p as int].acceptance)));
            }
            p = p + 1;
        }
        assert(input_kinds(ins).subrange(0, ins.len() as int) =~= input_kinds(ins));
        assert(port_reqs(ins).subrange(0, ins.len() as int) =~= port_reqs(ins));
        let mut out_kinds: Vec<ExactId> = Vec::new();
        let mut p: usize = 0;
        while p < spec.output_ports.len()
            invariant
                p <= spec.output_ports.len(),
                id_views(out_kinds@) == output_kinds(outs).subrange(0, p as int),
            decreases spec.output_ports.len() - p,
        {
            let ghost k0 = out_kinds@;
            out_kinds.push(spec.output_ports[p].value_kind.duplicate());
            assert(id_views(out_kinds@) =~= output_kinds(outs).subrange(0, p + 1)) by {
                assert(id_views(out_kinds@) =~= id_views(k0).push(outs[p as int].value_kind@));
            }
            p = p + 1;
        }
        assert(output_kinds(outs).subrange(0, outs.len() as int) =~= output_kinds(outs));
        match first_repeat_in(&in_kinds) {
            Some(j) => return Err(CapabilityRequestError::RepeatedInputValueKindPortsUnsupported(in_kinds[j].duplicate())),
            None => {},
        }
        match first_repeat_in(&out_kinds) {
            Some(j) => return Err(CapabilityRequestError::RepeatedOutputValueKindPortsUnsupported(out_kinds[j].duplicate())),
            None => {},
        }
        let mut i: usize = 0;
        while i < inputs.len()
            invariant
                i <= inputs.len(),
                bind_input_fault(ins, inputs@, 0) == bind_input_fault(ins, inputs@, i as int),
            decreases inputs.len() - i,
        {
            let t = &inputs[i].fact_type;
            let mut j: usize = 0;
            while j < i
                invariant
                    j <= i,
                    forall|k: int| 0 <= k < j ==> inputs@[k].fact_type@ != inputs@[i as int].fact_type@,
                decreases i - j,
            {
                if inputs[j].fact_type.same_as(t) {
                    return Err(CapabilityRequestError::DuplicateInput(t.duplicate()));
                }
                j = j + 1;
            }
            assert(!type_seen_before(inputs@, i as int));
            let mut p: usize = 0;
            let mut found: Option<usize> = None;
            while p < spec.input_ports.len()
                invariant
                    p <= spec.input_ports.len(),
                    found is None,
                    port_of_kind(ins, t@, 0) == port_of_kind(ins, t@, p as int),
                decreases spec.input_ports.len() - p,
            {
                if spec.input_ports[p].value_kind.same_as(t) {
                    found = Some(p);
                    break;
                }
                p = p + 1;
            }
            match found {
                None => return Err(CapabilityRequestError::UnexpectedInput(t.duplicate())),
                Some(q) => {
                    assert(port_of_kind(ins, t@, 0) == Some(q as int));
                    if spec.input_ports[q].acceptance == FactAcceptance::CompleteOnly && inputs[i].coverage == FactCoverage::Partial {
                        return Err(CapabilityRequestError::PartialInputRejected(t.duplicate()));
                    }
                },
            }
            i = i + 1;
        }
        let mut types: Vec<ExactId> = Vec::new();
        let mut i: usize = 0;
        while i < inputs.len()
            invariant
                i <= inputs.len(),
                id_views(types@) == input_types(inputs@).subrange(0, i as int),
            decreases inputs.len() - i,
        {
            let ghost t0 = types@;
            types.push(inputs[i].fact_type.duplicate());
            assert(id_views(types@) =~= input_types(inputs@).subrange(0, i + 1)) by {
                assert(id_views(types@) =~= id_views(t0).push(inputs@[i as int].fact_type@));
            }
            i = i + 1;
        }
        assert(input_types(inputs@).subrange(0, inputs@.len() as int) =~= input_types(inputs@));
        let mut best: Option<usize> = None;
        let mut p: usize = 0;
        while p < in_kinds.len()
            invariant
                p <= in_kinds.len(),
                best matches Some(b) ==> b < in_kinds.len(),
                least_missing(input_kinds(ins), input_types(inputs@), 0, None) == least_missing(
                    input_kinds(ins),
                    input_types(inputs@),
                    p as int,
                    match best {
                        Some(b) => Some(in_kinds@[b as int]@),
                        None => None,
                    },
                ),
            decreases in_kinds.len() - p,
        {
            if !contains_id(&types, &in_kinds[p]) {
                match best {
                    None => {
                        best = Some(p);
                    },
                    Some(b) => {
                        if id_less_exec(&in_kinds[p], &in_kinds[b]) {
                            best = Some(p);
                        }
                    },
                }
            }
            p = p + 1;
        }
        match best {
            Some(b) => return Err(CapabilityRequestError::MissingInput(in_kinds[b].duplicate())),
            None => {},
        }
        if spec.output_ports.len() == 0 {
            return Err(CapabilityRequestError::InvalidNeed(owned("output port set is empty")));
        }
        let body = CapabilityRequestBody {
            capability: spec.id.duplicate(),
            requires: reqs,
            inputs,
            produces: out_kinds,
            conformance_suite,
        };
        validate_request_body(&body)?;
        let doc = body_json(&body);
        let request_id = match json_content_id(&doc) {
            Some(id) => id,
            None => return Err(CapabilityRequestError::Serialization(owned("canonical JSON serialization failed"))),
        };
        Ok(CapabilityRequest { request_id, body })
    }
}


/// One output proposed by a provider, not yet a fact.
#[derive(Debug)]
pub struct ProducedFact {
    pub fact_type: ExactId,
    pub coverage: FactCoverage,
    pub payload: JsonValue,
}

/// Opaque, content-bound reference to the durable provider attempt a
/// candidate was extracted from.
#[derive(Debug)]
pub struct AttemptEvidence {
    pub authority: String,
    pub attempt_id: String,
    pub invocation_id: String,
    pub evidence_digest: String,
}

/// The digest-bearing part of one unverified provider candidate.
#[derive(Debug)]
pub struct CapabilityCandidateBody {
    pub request_id: String,
    pub provider: ProviderDescriptor,
    pub outputs: Vec<ProducedFact>,
    pub attempt: AttemptEvidence,
}

/// Exact proposed outputs bound to a request; untrusted and unadmitted.
#[derive(Debug)]
pub struct CapabilityCandidate {
    pub candidate_id: String,
    pub body: CapabilityCandidateBody,
}

/// Why a candidate is refused.
#[derive(Debug)]
pub enum CapabilityCandidateError {
    Request(CapabilityRequestError),
    RequestMismatch { expected: String, actual: String },
    Provider(RegistryError),
    ProviderCapabilityMismatch,
    OutputContractViolation { expected: Vec<ExactId>, actual: Vec<ExactId> },
    InvalidAttempt(String),
    IdentityMismatch { expected: String, actual: String },
    Serialization(String),
}

/// Mathematical form of a candidate refusal.
pub enum CandidateFault {
    Request(RequestFault),
    RequestMismatch(Seq<char>, Seq<char>),
    InvalidProvider(IdView, Seq<char>),
    ProviderCapabilityMismatch,
    OutputContractViolation(Seq<IdView>, Seq<IdView>),
    InvalidAttempt(Seq<char>),
    IdentityMismatch(Seq<char>, Seq<char>),
    Serialization(Seq<char>),
    Other,
}

pub open spec fn candidate_fault_of(e: CapabilityCandidateError) -> CandidateFault {
    match e {
        CapabilityCandidateError::Request(r) => CandidateFault::Request(fault_of(r)),
        CapabilityCandidateError::RequestMismatch { expected, actual } => CandidateFault::RequestMismatch(expected@, actual@),
        CapabilityCandidateError::Provider(RegistryError::InvalidProvider { provider, reason }) => CandidateFault::InvalidProvider(
            provider@,
            reason@,
        ),
        CapabilityCandidateError::Provider(_) => CandidateFault::Other,
        CapabilityCandidateError::ProviderCapabilityMismatch => CandidateFault::ProviderCapabilityMismatch,
        CapabilityCandidateError::OutputContractViolation { expected, actual } => CandidateFault::OutputContractViolation(
            id_views(expected@),
            id_views(actual@),
        ),
        CapabilityCandidateError::InvalidAttempt(m) => CandidateFault::InvalidAttempt(m@),
        CapabilityCandidateError::IdentityMismatch { expected, actual } => CandidateFault::IdentityMismatch(expected@, actual@),
        CapabilityCandidateError::Serialization(m) => CandidateFault::Serialization(m@),
    }
}

pub open spec fn output_types(outputs: Seq<ProducedFact>) -> Seq<IdView> {
    Seq::new(outputs.len(), |i: int| outputs[i].fact_type@)
}

/// Distinct outputs covering exactly the promised kinds.
pub open spec fn outputs_match(actual: Seq<IdView>, expected: Seq<IdView>) -> bool {
    distinct(actual) && (forall|x: IdView| actual.contains(x) <==> expected.contains(x))
}

/// Why a candidate body is refused against a valid request, in the order
/// it is checked, or nothing.
pub open spec fn candidate_body_fault(request: CapabilityRequest, body: CapabilityCandidateBody) -> Option<CandidateFault> {
    if body.request_id@ != request.request_id@ {
        Some(CandidateFault::RequestMismatch(request.request_id@, body.request_id@))
    } else if !id_well_formed(body.provider.id@) {
        Some(CandidateFault::InvalidProvider(body.provider.id@, "InvalidNeed(\"provider identity is malformed\")"@))
    } else if !is_sha256_text(body.provider.implementation_digest@) {
        Some(CandidateFault::InvalidProvider(body.provider.id@, "implementation digest must be a sha256 identity"@))
    } else if body.provider.capability@ != request.body.capability@ {
        Some(CandidateFault::ProviderCapabilityMismatch)
    } else if !outputs_match(output_types(body.outputs@), id_views(request.body.produces@)) {
        Some(CandidateFault::OutputContractViolation(id_views(request.body.produces@), output_types(body.outputs@)))
    } else if is_blank(body.attempt.authority@) || is_blank(body.attempt.attempt_id@) || is_blank(body.attempt.invocation_id@) {
        Some(CandidateFault::InvalidAttempt("attempt authority and identities must not be empty"@))
    } else if !is_sha256_text(body.attempt.evidence_digest@) {
        Some(CandidateFault::InvalidAttempt("attempt evidence digest must be a sha256 identity"@))
    } else {
        None
    }
}

pub open spec fn provider_doc(p: ProviderDescriptor) -> Json {
    Json::Object(
        seq!["id"@, "capability"@, "implementation_digest"@],
        seq![id_doc(p.id@), id_doc(p.capability@), Json::Str(p.implementation_digest@)],
    )
}

pub open spec fn produced_doc(p: ProducedFact) -> Json {
    Json::Object(
        seq!["fact_type"@, "coverage"@, "payload"@],
        seq![id_doc(p.fact_type@), Json::Str(coverage_name(p.coverage)), p.payload@],
    )
}

pub open spec fn attempt_doc(a: AttemptEvidence) -> Json {
    Json::Object(
        seq!["authority"@, "attempt_id"@, "invocation_id"@, "evidence_digest"@],
        seq![Json::Str(a.authority@), Json::Str(a.attempt_id@), Json::Str(a.invocation_id@), Json::Str(a.evidence_digest@)],
    )
}

/// The document whose content identity is the candidate identity.
pub open spec fn candidate_doc(body: CapabilityCandidateBody) -> Json {
    Json::Object(
        seq!["request_id"@, "provider"@, "outputs"@, "attempt"@],
        seq![
            Json::Str(body.request_id@),
            provider_doc(body.provider),
            Json::Array(Seq::new(body.outputs@.len(), |i: int| produced_doc(body.outputs@[i]))),
            attempt_doc(body.attempt),
        ],
    )
}

/// Why a candidate is refused: its request, its body, or an identity that
/// is not the content identity of the body.
pub open spec fn candidate_fault(request: CapabilityRequest, candidate: CapabilityCandidate) -> Option<CandidateFault> {
    match request_fault(request) {
        Some(f) => Some(CandidateFault::Request(f)),
        None => match candidate_body_fault(request, candidate.body) {
            Some(f) => Some(f),
            None => match content_id(candidate_doc(candidate.body)) {
                None => Some(CandidateFault::Serialization(serialization_msg())),
                Some(id) => if id == candidate.candidate_id@ {
                    None
                } else {
                    Some(CandidateFault::IdentityMismatch(id, candidate.candidate_id@))
                },
            },
        },
    }
}

fn provider_json(p: &ProviderDescriptor) -> (r: JsonValue)
    ensures
        r@ == provider_doc(*p),
{
    let mut m: Vec<JsonMember> = Vec::new();
    assert(key_views(m@) =~= Seq::<Seq<char>>::empty());
    assert(value_views(m@) =~= Seq::<Json>::empty());
    push_member(&mut m, "id", id_json(&p.id));
    push_member(&mut m, "capability", id_json(&p.capability));
    push_member(&mut m, "implementation_digest", json_text(p.implementation_digest.as_str()));
    assert(key_views(m@) =~= seq!["id"@, "capability"@, "implementation_digest"@]);
    assert(value_views(m@) =~= seq![id_doc(p.id@), id_doc(p.capability@), Json::Str(p.implementation_digest@)]);
    json_object(m)
}

fn candidate_json(body: &CapabilityCandidateBody) -> (r: JsonValue)
    ensures
        r@ == candidate_doc(*body),
{
    let mut outputs: Vec<JsonValue> = Vec::new();
    let mut i: usize = 0;
    while i < body.outputs.len()
        invariant
            i <= body.outputs.len(),
            item_views(outputs@) == Seq::new(i as nat, |k: int| produced_doc(body.outputs@[k])),
        decreases body.outputs.len() - i,
    {
        let o = &body.outputs[i];
        let mut m: Vec<JsonMember> = Vec::new();
        assert(key_views(m@) =~= Seq::<Seq<char>>::empty());
        assert(value_views(m@) =~= Seq::<Json>::empty());
        push_member(&mut m, "fact_type", id_json(&o.fact_type));
        push_member(&mut m, "coverage", json_text(coverage_text(o.coverage)));
        push_member(&mut m, "payload", copy_json(&o.payload));
        assert(key_views(m@) =~= seq!["fact_type"@, "coverage"@, "payload"@]);
        assert(value_views(m@) =~= seq![id_doc(o.fact_type@), Json::Str(coverage_name(o.coverage)), o.payload@]);
        let ghost before = outputs@;
        outputs.push(json_object(m));
        assert(item_views(outputs@) =~= Seq::new((i + 1) as nat, |k: int| produced_doc(body.outputs@[k]))) by {
            assert(item_views(outputs@) =~= item_views(before).push(produced_doc(body.outputs@[i as int])));
        }
        i = i + 1;
    }
    let a = &body.attempt;
    let mut am: Vec<JsonMember> = Vec::new();
    assert(key_views(am@) =~= Seq::<Seq<char>>::empty());
    assert(value_views(am@) =~= Seq::<Json>::empty());
    push_member(&mut am, "authority", json_text(a.authority.as_str()));
    push_member(&mut am, "attempt_id", json_text(a.attempt_id.as_str()));
    push_member(&mut am, "invocation_id", json_text(a.invocation_id.as_str()));
    push_member(&mut am, "evidence_digest", json_text(a.evidence_digest.as_str()));
    assert(key_views(am@) =~= seq!["authority"@, "attempt_id"@, "invocation_id"@, "evidence_digest"@]);
    assert(value_views(am@) =~= seq![Json::Str(a.authority@), Json::Str(a.attempt_id@), Json::Str(a.invocation_id@), Json::Str(a.evidence_digest@)]);
    let mut m: Vec<JsonMember> = Vec::new();
    assert(key_views(m@) =~= Seq::<Seq<char>>::empty());
    assert(value_views(m@) =~= Seq::<Json>::empty());
    push_member(&mut m, "request_id", json_text(body.request_id.as_str()));
    push_member(&mut m, "provider", provider_json(&body.provider));
    push_member(&mut m, "outputs", json_array(outputs));
    push_member(&mut m, "attempt", json_object(am));
    assert(key_views(m@) =~= seq!["request_id"@, "provider"@, "outputs"@, "attempt"@]);
    assert(value_views(m@) =~= seq![
        Json::Str(body.request_id@),
        provider_doc(body.provider),
        Json::Array(Seq::new(body.outputs@.len(), |k: int| produced_doc(body.outputs@[k]))),
        attempt_doc(body.attempt),
    ]);
    json_object(m)
}

pub(crate) fn output_type_vec(outputs: &Vec<ProducedFact>) -> (r: Vec<ExactId>)
    ensures
        id_views(r@) == output_types(outputs@),
{
    let mut out: Vec<ExactId> = Vec::new();
    let mut i: usize = 0;
    while i < outputs.len()
        invariant
            i <= outputs.len(),
            id_views(out@) == output_types(outputs@).subrange(0, i as int),
        decreases outputs.len() - i,
    {
        let ghost before = out@;
        out.push(outputs[i].fact_type.duplicate());
        assert(id_views(out@) =~= output_types(outputs@).subrange(0, i + 1)) by {
            assert(id_views(out@) =~= id_views(before).push(outputs@[i as int].fact_type@));
        }
        i = i + 1;
    }
    assert(output_types(outputs@).subrange(0, outputs@.len() as int) =~= output_types(outputs@));
    out
}

pub(crate) fn duplicate_ids(ids: &Vec<ExactId>) -> (r: Vec<ExactId>)
    ensures
        id_views(r@) == id_views(ids@),
{
    let mut out: Vec<ExactId> = Vec::new();
    let mut i: usize = 0;
    while i < ids.len()
        invariant
            i <= ids.len(),
            id_views(out@) == id_views(ids@).subrange(0, i as int),
        decreases ids.len() - i,
    {
        let ghost before = out@;
        out.push(ids[i].duplicate());
        assert(id_views(out@) =~= id_views(ids@).subrange(0, i + 1)) by {
            assert(id_views(out@) =~= id_views(before).push(ids@[i as int]@));
        }
        i = i + 1;
    }
    assert(id_views(ids@).subrange(0, ids@.len() as int) =~= id_views(ids@));
    out
}

/// Whether every entry of `a` occurs in `b`.
pub(crate) fn all_contained(a: &Vec<ExactId>, b: &Vec<ExactId>) -> (r: bool)
    ensures
        r == (forall|x: IdView| id_views(a@).contains(x) ==> id_views(b@).contains(x)),
{
    let mut i: usize = 0;
    while i < a.len()
        invariant
            i <= a.len(),
            forall|k: int| 0 <= k < i ==> id_views(b@).contains(#[trigger] id_views(a@)[k]),
        decreases a.len() - i,
    {
        if !contains_id(b, &a[i]) {
            assert(id_views(a@).contains(id_views(a@)[i as int]));
            return false;
        }
        i = i + 1;
    }
    assert forall|x: IdView| id_views(a@).contains(x) implies id_views(b@).contains(x) by {
        let k = choose|k: int| 0 <= k < id_views(a@).len() && id_views(a@)[k] == x;
        assert(id_views(b@).contains(id_views(a@)[k]));
    }
    true
}

#[verifier::loop_isolation(false)]
fn validate_candidate_body(request: &CapabilityRequest, body: &CapabilityCandidateBody) -> (r: Result<(), CapabilityCandidateError>)
    ensures
        r is Ok <==> candidate_body_fault(*request, *body) is None,
        r matches Err(e) ==> candidate_body_fault(*request, *body) == Some(candidate_fault_of(e)),
{
    if body.request_id != request.request_id {
        return Err(CapabilityCandidateError::RequestMismatch {
            expected: request.request_id.clone(),
            actual: body.request_id.clone(),
        });
    }
    if !body.provider.id.is_well_formed() {
        return Err(CapabilityCandidateError::Provider(RegistryError::InvalidProvider {
            provider: body.provider.id.duplicate(),
            reason: owned("InvalidNeed(\"provider identity is malformed\")"),
        }));
    }
    match validate_provider(&body.provider) {
        Ok(()) => {},
        Err(e) => return Err(CapabilityCandidateError::Provider(e)),
    }
    if !body.provider.capability.same_as(&request.body.capability) {
        return Err(CapabilityCandidateError::ProviderCapabilityMismatch);
    }
    let actual = output_type_vec(&body.outputs);
    let ok = ids_distinct(&actual) && all_contained(&actual, &request.body.produces) && all_contained(
        &request.body.produces,
        &actual,
    );
    if !ok {
        return Err(CapabilityCandidateError::OutputContractViolation {
            expected: duplicate_ids(&request.body.produces),
            actual,
        });
    }
    if is_blank_chars(&chars_of(body.attempt.authority.as_str())) || is_blank_chars(&chars_of(body.attempt.attempt_id.as_str()))
        || is_blank_chars(&chars_of(body.attempt.invocation_id.as_str())) {
        return Err(CapabilityCandidateError::InvalidAttempt(owned("attempt authority and identities must not be empty")));
    }
    if !is_sha256_identity(body.attempt.evidence_digest.as_str()) {
        return Err(CapabilityCandidateError::InvalidAttempt(owned("attempt evidence digest must be a sha256 identity")));
    }
    Ok(())
}

impl CapabilityCandidate {
    /// Binds proposed outputs to a valid request; the candidate identity is
    /// the content identity of the body.
    pub fn bind(
        request: &CapabilityRequest,
        provider: ProviderDescriptor,
        outputs: Vec<ProducedFact>,
        attempt: AttemptEvidence,
    ) -> (r: Result<Self, CapabilityCandidateError>)
        ensures
            r matches Err(e) ==> ({
                let body = CapabilityCandidateBody { request_id: request.request_id, provider, outputs, attempt };
                match request_fault(*request) {
                    Some(f) => candidate_fault_of(e) == CandidateFault::Request(f),
                    None => match candidate_body_fault(*request, body) {
                        Some(f) => candidate_fault_of(e) == f,
                        None => content_id(candidate_doc(body)) is None && candidate_fault_of(e)
                            == CandidateFault::Serialization(serialization_msg()),
                    },
                }
            }),
            r matches Ok(c) ==> c.body.request_id@ == request.request_id@ && c.body.provider == provider
                && c.body.outputs == outputs && c.body.attempt == attempt && candidate_fault(*request, c) is None,
            r is Ok <==> ({
                let body = CapabilityCandidateBody { request_id: request.request_id, provider, outputs, attempt };
                request_fault(*request) is None && candidate_body_fault(*request, body) is None
                    && content_id(candidate_doc(body)) is Some
            }),
    {
        match request.validate() {
            Ok(()) => {},
            Err(e) => return Err(CapabilityCandidateError::Request(e)),
        }
        let ghost spec_body = CapabilityCandidateBody { request_id: request.request_id, provider, outputs, attempt };
        let body = CapabilityCandidateBody { request_id: request.request_id.clone(), provider, outputs, attempt };
        assert(candidate_body_fault(*request, body) == candidate_body_fault(*request, spec_body));
        assert(candidate_doc(body) == candidate_doc(spec_body));
        validate_candidate_body(request, &body)?;
        let doc = candidate_json(&body);
        let candidate_id = match json_content_id(&doc) {
            Some(id) => id,
            None => return Err(CapabilityCandidateError::Serialization(owned("canonical JSON serialization failed"))),
        };
        Ok(CapabilityCandidate { candidate_id, body })
    }

    /// Revalidates the request, the candidate body and its identity.
    pub fn validate(&self, request: &CapabilityRequest) -> (r: Result<(), CapabilityCandidateError>)
        ensures
            r is Ok <==> candidate_fault(*request, *self) is None,
            r matches Err(e) ==> candidate_fault(*request, *self) == Some(candidate_fault_of(e)),
    {
        match request.validate() {
            Ok(()) => {},
            Err(e) => return Err(CapabilityCandidateError::Request(e)),
        }
        validate_candidate_body(request, &self.body)?;
        let doc = candidate_json(&self.body);
        let expected = match json_content_id(&doc) {
            Some(id) => id,
            None => return Err(CapabilityCandidateError::Serialization(owned("canonical JSON serialization failed"))),
        };
        if self.candidate_id != expected {
            return Err(CapabilityCandidateError::IdentityMismatch { expected, actual: self.candidate_id.clone() });
        }
        Ok(())
    }
}


/// The verdict of one conformance check, or of a whole result.
#[derive(Clone, Copy, Debug, PartialEq, Eq, Structural)]
pub enum ConformanceOutcome {
    Passed,
    Failed,
}

/// One named observation made by an exact conformance provider.
#[derive(Debug)]
pub struct ConformanceCheck {
    pub name: String,
    pub outcome: ConformanceOutcome,
    pub evidence: JsonValue,
}

/// One exact attester: identity, suite and implementation digest.
#[derive(Debug)]
pub struct ConformanceProviderDescriptor {
    pub id: ExactId,
    pub suite: String,
    pub implementation_digest: String,
}

pub struct AttesterView {
    pub id: IdView,
    pub suite: Seq<char>,
    pub implementation_digest: Seq<char>,
}

pub open spec fn attester_view(d: ConformanceProviderDescriptor) -> AttesterView {
    AttesterView { id: d.id@, suite: d.suite@, implementation_digest: d.implementation_digest@ }
}

/// A product- or dialect-specific verifier behind the generic admission
/// waist: it receives exact immutable inputs and returns named
/// observations; it never constructs trusted facts itself.
pub trait CapabilityConformanceProvider {
    fn descriptor(&self) -> ConformanceProviderDescriptor;

    fn verify(&self, request: &CapabilityRequest, candidate: &CapabilityCandidate) -> Result<Vec<ConformanceCheck>, String>;
}

/// The digest-bearing part of one conformance result.
#[derive(Debug)]
pub struct CapabilityConformanceBody {
    pub request_id: String,
    pub candidate_id: String,
    pub suite: String,
    pub attester: ExactId,
    pub attester_implementation: String,
    pub outcome: ConformanceOutcome,
    pub checks: Vec<ConformanceCheck>,
}

/// Immutable result of independently evaluating one exact candidate.
#[derive(Debug)]
pub struct CapabilityConformanceResult {
    pub result_id: String,
    pub body: CapabilityConformanceBody,
}

/// Why an admission produced no facts.
#[derive(Clone, Copy, Debug, PartialEq, Eq, Structural)]
pub enum FactsWithheld {
    /// The attester reported at least one failing check.
    ConformanceFailed,
    /// The attester reported success, but this host does not admit it.
    AttesterNotAdmitted,
}

/// A conformance result plus the facts it made eligible for admission.
#[derive(Debug)]
pub struct CapabilityAdmission {
    pub conformance: CapabilityConformanceResult,
    pub facts: Vec<FactInstance>,
    pub withheld: Option<FactsWithheld>,
}

/// Why an admission attempt is refused.
#[derive(Debug)]
pub enum CapabilityAdmissionError {
    Candidate(CapabilityCandidateError),
    InvalidVerifier(String),
    SuiteMismatch { expected: String, actual: String },
    VerifierNotIndependent,
    VerifierFailed(String),
    NoChecks,
    InvalidCheck(String),
    Serialization(String),
    Registry(RegistryError),
}

/// Mathematical form of an admission refusal.
pub enum AdmissionFault {
    Candidate(CandidateFault),
    InvalidVerifier(Seq<char>),
    SuiteMismatch(Seq<char>, Seq<char>),
    VerifierNotIndependent,
    VerifierFailed(Seq<char>),
    NoChecks,
    InvalidCheck(Seq<char>),
    Serialization(Seq<char>),
    Registry,
}

pub open spec fn admission_fault_of(e: CapabilityAdmissionError) -> AdmissionFault {
    match e {
        CapabilityAdmissionError::Candidate(c) => AdmissionFault::Candidate(candidate_fault_of(c)),
        CapabilityAdmissionError::InvalidVerifier(m) => AdmissionFault::InvalidVerifier(m@),
        CapabilityAdmissionError::SuiteMismatch { expected, actual } => AdmissionFault::SuiteMismatch(expected@, actual@),
        CapabilityAdmissionError::VerifierNotIndependent => AdmissionFault::VerifierNotIndependent,
        CapabilityAdmissionError::VerifierFailed(m) => AdmissionFault::VerifierFailed(m@),
        CapabilityAdmissionError::NoChecks => AdmissionFault::NoChecks,
        CapabilityAdmissionError::InvalidCheck(m) => AdmissionFault::InvalidCheck(m@),
        CapabilityAdmissionError::Serialization(m) => AdmissionFault::Serialization(m@),
        CapabilityAdmissionError::Registry(_) => AdmissionFault::Registry,
    }
}

/// Which attesters this host accepts conformance results from: deny by
/// default, and separate from the conformance run itself.
#[derive(Debug)]
pub struct AdmissionPolicy {
    admitted: Vec<ConformanceProviderDescriptor>,
}

impl AdmissionPolicy {
    /// The admitted attesters, in the order they were admitted.
    pub closed spec fn attesters(&self) -> Seq<AttesterView> {
        Seq::new(self.admitted@.len(), |i: int| attester_view(self.admitted@[i]))
    }

    /// Whether this exact attester binding is admitted.
    pub open spec fn spec_admits(&self, d: AttesterView) -> bool {
        self.attesters().contains(d)
    }

    /// The policy that admits nothing.
    pub fn new() -> (p: Self)
        ensures
            p.attesters() == Seq::<AttesterView>::empty(),
    {
        let p = AdmissionPolicy { admitted: Vec::new() };
        assert(p.attesters() =~= Seq::<AttesterView>::empty());
        p
    }

    /// Records one exact attester binding: identity, suite and
    /// implementation digest together.
    pub fn admit_attester(&mut self, descriptor: ConformanceProviderDescriptor)
        ensures
            final(self).attesters() == (if old(self).attesters().contains(attester_view(descriptor)) {
                old(self).attesters()
            } else {
                old(self).attesters().push(attester_view(descriptor))
            }),
    {
        if !self.admits(&descriptor) {
            let ghost before = self.attesters();
            self.admitted.push(descriptor);
            assert(self.attesters() =~= before.push(attester_view(descriptor)));
        }
    }

    /// Whether this exact attester binding is admitted.
    pub fn admits(&self, descriptor: &ConformanceProviderDescriptor) -> (r: bool)
        ensures
            r == self.spec_admits(attester_view(*descriptor)),
    {
        let mut i: usize = 0;
        while i < self.admitted.len()
            invariant
                i <= self.admitted.len(),
                forall|k: int| 0 <= k < i ==> self.attesters()[k] != attester_view(*descriptor),
            decreases self.admitted.len() - i,
        {
            let d = &self.admitted[i];
            if d.id.same_as(&descriptor.id) && d.suite == descriptor.suite && d.implementation_digest
                == descriptor.implementation_digest {
                assert(self.attesters()[i as int] == attester_view(*descriptor));
                return true;
            }
            i = i + 1;
        }
        false
    }

    /// The admitted attesters.
    pub fn admitted(&self) -> (r: &[ConformanceProviderDescriptor])
        ensures
            Seq::new(r@.len(), |i: int| attester_view(r@[i])) == self.attesters(),
    {
        self.admitted.as_slice()
    }
}

/// Why the exchange is refused before the verifier runs, or nothing.
pub open spec fn gate_fault(request: CapabilityRequest, candidate: CapabilityCandidate, d: AttesterView) -> Option<AdmissionFault> {
    match candidate_fault(request, candidate) {
        Some(f) => Some(AdmissionFault::Candidate(f)),
        None => if !id_well_formed(d.id) {
            Some(AdmissionFault::InvalidVerifier("InvalidNeed(\"conformance provider identity is malformed\")"@))
        } else if is_blank(d.suite) {
            Some(AdmissionFault::InvalidVerifier("conformance suite is empty"@))
        } else if !is_sha256_text(d.implementation_digest) {
            Some(AdmissionFault::InvalidVerifier("implementation digest must be a sha256 identity"@))
        } else if d.suite != request.body.conformance_suite@ {
            Some(AdmissionFault::SuiteMismatch(request.body.conformance_suite@, d.suite))
        } else if d.id == candidate.body.provider.id@ || d.implementation_digest == candidate.body.provider.implementation_digest@ {
            Some(AdmissionFault::VerifierNotIndependent)
        } else {
            None
        },
    }
}

pub open spec fn first_blank_check(checks: Seq<ConformanceCheck>, i: int) -> Option<int>
    decreases checks.len() - i,
{
    if i < 0 || i >= checks.len() {
        None
    } else if is_blank(checks[i].name@) {
        Some(i)
    } else {
        first_blank_check(checks, i + 1)
    }
}

/// Passed exactly when every check passed.
pub open spec fn combined_outcome(checks: Seq<ConformanceCheck>) -> ConformanceOutcome {
    if forall|i: int| 0 <= i < checks.len() ==> #[trigger] checks[i].outcome == ConformanceOutcome::Passed {
        ConformanceOutcome::Passed
    } else {
        ConformanceOutcome::Failed
    }
}

/// Two independent conditions: the attester passed, and this host admits
/// the attester. Either alone is insufficient.
pub open spec fn withheld_for(outcome: ConformanceOutcome, policy: AdmissionPolicy, d: AttesterView) -> Option<FactsWithheld> {
    if outcome != ConformanceOutcome::Passed {
        Some(FactsWithheld::ConformanceFailed)
    } else if !policy.spec_admits(d) {
        Some(FactsWithheld::AttesterNotAdmitted)
    } else {
        None
    }
}

pub open spec fn check_doc(c: ConformanceCheck) -> Json {
    Json::Object(
        seq!["name"@, "outcome"@, "evidence"@],
        seq![Json::Str(c.name@), Json::Str(outcome_name(c.outcome)), c.evidence@],
    )
}

pub open spec fn outcome_name(o: ConformanceOutcome) -> Seq<char> {
    match o {
        ConformanceOutcome::Passed => "passed"@,
        ConformanceOutcome::Failed => "failed"@,
    }
}

/// The document whose content identity is the conformance result identity.
pub open spec fn conformance_doc(body: CapabilityConformanceBody) -> Json {
    Json::Object(
        seq!["request_id"@, "candidate_id"@, "suite"@, "attester"@, "attester_implementation"@, "outcome"@, "checks"@],
        seq![
            Json::Str(body.request_id@),
            Json::Str(body.candidate_id@),
            Json::Str(body.suite@),
            id_doc(body.attester@),
            Json::Str(body.attester_implementation@),
            Json::Str(outcome_name(body.outcome)),
            Json::Array(Seq::new(body.checks@.len(), |i: int| check_doc(body.checks@[i]))),
        ],
    )
}

/// The derivation an admitted output carries: the whole evidence chain.
pub open spec fn admitted_derivation(
    request: CapabilityRequest,
    candidate: CapabilityCandidate,
    result_id: Seq<char>,
    d: FactDerivation,
) -> bool {
    d matches FactDerivation::Admitted {
        capability,
        provider,
        provider_implementation,
        inputs,
        request: rq,
        candidate: cd,
        conformance_result,
    } && capability@ == request.body.capability@ && provider@ == candidate.body.provider.id@
        && provider_implementation@ == candidate.body.provider.implementation_digest@ && Seq::new(
        inputs@.len(),
        |i: int| inputs@[i]@,
    ) == Seq::new(request.body.inputs@.len(), |i: int| request.body.inputs@[i].id@) && rq@ == request.request_id@
        && cd@ == candidate.candidate_id@ && conformance_result@ == result_id
}

/// The admitted facts: one per candidate output, in order, each carrying
/// its type, coverage and payload and identified with the admitted
/// derivation.
pub open spec fn admits_outputs(
    request: CapabilityRequest,
    candidate: CapabilityCandidate,
    result_id: Seq<char>,
    facts: Seq<FactInstance>,
) -> bool {
    &&& facts.len() == candidate.body.outputs@.len()
    &&& forall|i: int| #![trigger facts[i]] 0 <= i < facts.len() ==> {
        let o = candidate.body.outputs@[i];
        let f = facts[i];
        &&& f.fact_type@ == o.fact_type@
        &&& f.coverage == o.coverage
        &&& f.payload@ == o.payload@
        &&& admitted_derivation(request, candidate, result_id, f.derivation)
        &&& f.id@ == fact_digest_of(f.fact_type@, f.coverage, f.payload@, f.derivation)
    }
}

fn string_vec_copy(v: &Vec<FactInstance>) -> (r: Vec<String>)
    ensures
        Seq::new(r@.len(), |i: int| r@[i]@) == Seq::new(v@.len(), |i: int| v@[i].id@),
{
    let mut out: Vec<String> = Vec::new();
    let mut i: usize = 0;
    while i < v.len()
        invariant
            i <= v.len(),
            out@.len() == i,
            forall|k: int| 0 <= k < i ==> out@[k]@ == v@[k].id@,
        decreases v.len() - i,
    {
        out.push(v[i].id.clone());
        i = i + 1;
    }
    assert(Seq::new(out@.len(), |i: int| out@[i]@) =~= Seq::new(v@.len(), |i: int| v@[i].id@));
    out
}

fn admitted_facts(request: &CapabilityRequest, candidate: &CapabilityCandidate, result_id: &String) -> (r: Vec<FactInstance>)
    ensures
        admits_outputs(*request, *candidate, result_id@, r@),
{
    let mut facts: Vec<FactInstance> = Vec::new();
    let mut i: usize = 0;
    while i < candidate.body.outputs.len()
        invariant
            i <= candidate.body.outputs.len(),
            facts@.len() == i,
            forall|k: int| #![trigger facts@[k]] 0 <= k < i ==> {
                let o = candidate.body.outputs@[k];
                let f = facts@[k];
                &&& f.fact_type@ == o.fact_type@
                &&& f.coverage == o.coverage
                &&& f.payload@ == o.payload@
                &&& admitted_derivation(*request, *candidate, result_id@, f.derivation)
                &&& f.id@ == fact_digest_of(f.fact_type@, f.coverage, f.payload@, f.derivation)
            },
        decreases candidate.body.outputs.len() - i,
    {
        let o = &candidate.body.outputs[i];
        let derivation = FactDerivation::Admitted {
            capability: request.body.capability.duplicate(),
            provider: candidate.body.provider.id.duplicate(),
            provider_implementation: candidate.body.provider.implementation_digest.clone(),
            inputs: string_vec_copy(&request.body.inputs),
            request: request.request_id.clone(),
            candidate: candidate.candidate_id.clone(),
            conformance_result: result_id.clone(),
        };
        let id = fact_digest(&o.fact_type, o.coverage, &o.payload, &derivation);
        facts.push(FactInstance {
            id,
            fact_type: o.fact_type.duplicate(),
            coverage: o.coverage,
            payload: copy_json(&o.payload),
            derivation,
        });
        i = i + 1;
    }
    facts
}

fn check_json(c: &ConformanceCheck) -> (r: JsonValue)
    ensures
        r@ == check_doc(*c),
{
    let mut m: Vec<JsonMember> = Vec::new();
    assert(key_views(m@) =~= Seq::<Seq<char>>::empty());
    assert(value_views(m@) =~= Seq::<Json>::empty());
    push_member(&mut m, "name", json_text(c.name.as_str()));
    let o: &str = match c.outcome {
        ConformanceOutcome::Passed => "passed",
        ConformanceOutcome::Failed => "failed",
    };
    push_member(&mut m, "outcome", json_text(o));
    push_member(&mut m, "evidence", copy_json(&c.evidence));
    assert(key_views(m@) =~= seq!["name"@, "outcome"@, "evidence"@]);
    assert(value_views(m@) =~= seq![Json::Str(c.name@), Json::Str(outcome_name(c.outcome)), c.evidence@]);
    json_object(m)
}

fn conformance_json(body: &CapabilityConformanceBody) -> (r: JsonValue)
    ensures
        r@ == conformance_doc(*body),
{
    let mut checks: Vec<JsonValue> = Vec::new();
    let mut i: usize = 0;
    while i < body.checks.len()
        invariant
            i <= body.checks.len(),
            item_views(checks@) == Seq::new(i as nat, |k: int| check_doc(body.checks@[k])),
        decreases body.checks.len() - i,
    {
        let ghost before = checks@;
        checks.push(check_json(&body.checks[i]));
        assert(item_views(checks@) =~= Seq::new((i + 1) as nat, |k: int| check_doc(body.checks@[k]))) by {
            assert(item_views(checks@) =~= item_views(before).push(check_doc(body.checks@[i as int])));
        }
        i = i + 1;
    }
    let mut m: Vec<JsonMember> = Vec::new();
    assert(key_views(m@) =~= Seq::<Seq<char>>::empty());
    assert(value_views(m@) =~= Seq::<Json>::empty());
    push_member(&mut m, "request_id", json_text(body.request_id.as_str()));
    push_member(&mut m, "candidate_id", json_text(body.candidate_id.as_str()));
    push_member(&mut m, "suite", json_text(body.suite.as_str()));
    push_member(&mut m, "attester", id_json(&body.attester));
    push_member(&mut m, "attester_implementation", json_text(body.attester_implementation.as_str()));
    let o: &str = match body.outcome {
        ConformanceOutcome::Passed => "passed",
        ConformanceOutcome::Failed => "failed",
    };
    push_member(&mut m, "outcome", json_text(o));
    push_member(&mut m, "checks", json_array(checks));
    assert(key_views(m@) =~= seq!["request_id"@, "candidate_id"@, "suite"@, "attester"@, "attester_implementation"@, "outcome"@, "checks"@]);
    assert(value_views(m@) =~= seq![
        Json::Str(body.request_id@),
        Json::Str(body.candidate_id@),
        Json::Str(body.suite@),
        id_doc(body.attester@),
        Json::Str(body.attester_implementation@),
        Json::Str(outcome_name(body.outcome)),
        Json::Array(Seq::new(body.checks@.len(), |k: int| check_doc(body.checks@[k]))),
    ]);
    json_object(m)
}

/// Checks everything that must hold before a verifier may run: a valid
/// candidate for the request, a well-formed attester for the request's
/// suite, and independence from the provider in both identity and
/// implementation.
pub fn admission_gate(
    request: &CapabilityRequest,
    candidate: &CapabilityCandidate,
    descriptor: &ConformanceProviderDescriptor,
) -> (r: Result<(), CapabilityAdmissionError>)
    ensures
        r is Ok <==> gate_fault(*request, *candidate, attester_view(*descriptor)) is None,
        r matches Err(e) ==> gate_fault(*request, *candidate, attester_view(*descriptor)) == Some(admission_fault_of(e)),
{
    match candidate.validate(request) {
        Ok(()) => {},
        Err(e) => return Err(CapabilityAdmissionError::Candidate(e)),
    }
    if !descriptor.id.is_well_formed() {
        return Err(CapabilityAdmissionError::InvalidVerifier(owned("InvalidNeed(\"conformance provider identity is malformed\")")));
    }
    if is_blank_chars(&chars_of(descriptor.suite.as_str())) {
        return Err(CapabilityAdmissionError::InvalidVerifier(owned("conformance suite is empty")));
    }
    if !is_sha256_identity(descriptor.implementation_digest.as_str()) {
        return Err(CapabilityAdmissionError::InvalidVerifier(owned("implementation digest must be a sha256 identity")));
    }
    if descriptor.suite != request.body.conformance_suite {
        return Err(CapabilityAdmissionError::SuiteMismatch {
            expected: request.body.conformance_suite.clone(),
            actual: descriptor.suite.clone(),
        });
    }
    if descriptor.id.same_as(&candidate.body.provider.id) || descriptor.implementation_digest
        == candidate.body.provider.implementation_digest {
        return Err(CapabilityAdmissionError::VerifierNotIndependent);
    }
    Ok(())
}

/// What an admission holds after a verifier answered: the exact result,
/// and facts exactly when the checks all passed and the host admits the
/// attester.
pub open spec fn admission_from(
    request: CapabilityRequest,
    candidate: CapabilityCandidate,
    d: AttesterView,
    checks: Seq<ConformanceCheck>,
    policy: AdmissionPolicy,
    a: CapabilityAdmission,
) -> bool {
    let body = a.conformance.body;
    &&& body.request_id@ == request.request_id@
    &&& body.candidate_id@ == candidate.candidate_id@
    &&& body.suite@ == request.body.conformance_suite@
    &&& body.attester@ == d.id
    &&& body.attester_implementation@ == d.implementation_digest
    &&& body.outcome == combined_outcome(checks)
    &&& body.checks@ == checks
    &&& content_id(conformance_doc(body)) == Some(a.conformance.result_id@)
    &&& a.withheld == withheld_for(combined_outcome(checks), policy, d)
    &&& (a.withheld is None ==> admits_outputs(request, candidate, a.conformance.result_id@, a.facts@))
    &&& (a.withheld is Some ==> a.facts@.len() == 0)
}

/// The conformance result body an admission of these checks records.
pub open spec fn answer_body(
    request: CapabilityRequest,
    candidate: CapabilityCandidate,
    descriptor: ConformanceProviderDescriptor,
    checks: Vec<ConformanceCheck>,
) -> CapabilityConformanceBody {
    CapabilityConformanceBody {
        request_id: request.request_id,
        candidate_id: candidate.candidate_id,
        suite: request.body.conformance_suite,
        attester: descriptor.id,
        attester_implementation: descriptor.implementation_digest,
        outcome: combined_outcome(checks@),
        checks,
    }
}

/// Why a verifier's answer is refused, or nothing.
pub open spec fn answer_fault(
    request: CapabilityRequest,
    candidate: CapabilityCandidate,
    d: AttesterView,
    verified: Result<Vec<ConformanceCheck>, String>,
) -> Option<AdmissionFault> {
    match verified {
        Err(m) => Some(AdmissionFault::VerifierFailed(m@)),
        Ok(checks) => if checks@.len() == 0 {
            Some(AdmissionFault::NoChecks)
        } else if first_blank_check(checks@, 0) is Some {
            Some(AdmissionFault::InvalidCheck("check name is empty"@))
        } else {
            None
        },
    }
}

#[verifier::loop_isolation(false)]
/// Turns a verifier's answer into an admission: a refusal for a failed
/// run, no checks or an unnamed check; otherwise the content-identified
/// result, and facts only when every check passed and the policy admits
/// this exact attester.
pub fn admit_checks(
    request: &CapabilityRequest,
    candidate: &CapabilityCandidate,
    descriptor: ConformanceProviderDescriptor,
    verified: Result<Vec<ConformanceCheck>, String>,
    policy: &AdmissionPolicy,
) -> (r: Result<CapabilityAdmission, CapabilityAdmissionError>)
    ensures
        r matches Err(e) ==> answer_fault(*request, *candidate, attester_view(descriptor), verified) == Some(admission_fault_of(e))
            || (answer_fault(*request, *candidate, attester_view(descriptor), verified) is None
                && admission_fault_of(e) == AdmissionFault::Serialization(serialization_msg())),
        r matches Ok(a) ==> answer_fault(*request, *candidate, attester_view(descriptor), verified) is None
            && admission_from(*request, *candidate, attester_view(descriptor), verified->Ok_0@, *policy, a),
        answer_fault(*request, *candidate, attester_view(descriptor), verified) is Some ==> r is Err,
        answer_fault(*request, *candidate, attester_view(descriptor), verified) is None ==> (r is Ok <==> content_id(
            conformance_doc(answer_body(*request, *candidate, descriptor, verified->Ok_0)),
        ) is Some),
{
    let ghost d = attester_view(descriptor);
    let ghost expected = answer_body(*request, *candidate, descriptor, verified->Ok_0);
    let checks = match verified {
        Err(m) => return Err(CapabilityAdmissionError::VerifierFailed(m)),
        Ok(c) => c,
    };
    if checks.len() == 0 {
        return Err(CapabilityAdmissionError::NoChecks);
    }
    let mut i: usize = 0;
    while i < checks.len()
        invariant
            i <= checks.len(),
            first_blank_check(checks@, 0) == first_blank_check(checks@, i as int),
        decreases checks.len() - i,
    {
        if is_blank_chars(&chars_of(checks[i].name.as_str())) {
            return Err(CapabilityAdmissionError::InvalidCheck(owned("check name is empty")));
        }
        i = i + 1;
    }
    let mut all_passed = true;
    let mut i: usize = 0;
    while i < checks.len()
        invariant
            i <= checks.len(),
            all_passed == forall|k: int| 0 <= k < i ==> #[trigger] checks@[k].outcome == ConformanceOutcome::Passed,
        decreases checks.len() - i,
    {
        if checks[i].outcome != ConformanceOutcome::Passed {
            all_passed = false;
        }
        i = i + 1;
    }
    let outcome = if all_passed { ConformanceOutcome::Passed } else { ConformanceOutcome::Failed };
    let admitted_here = policy.admits(&descriptor);
    let ghost spec_checks = checks@;
    let body = CapabilityConformanceBody {
        request_id: request.request_id.clone(),
        candidate_id: candidate.candidate_id.clone(),
        suite: request.body.conformance_suite.clone(),
        attester: descriptor.id,
        attester_implementation: descriptor.implementation_digest,
        outcome,
        checks,
    };
    let doc = conformance_json(&body);
    assert(conformance_doc(body) == conformance_doc(expected)) by {
        assert(body.checks@ == expected.checks@);
        assert(body.outcome == expected.outcome);
    }
    let result_id = match json_content_id(&doc) {
        Some(id) => id,
        None => return Err(CapabilityAdmissionError::Serialization(owned("canonical JSON serialization failed"))),
    };
    let withheld = if outcome != ConformanceOutcome::Passed {
        Some(FactsWithheld::ConformanceFailed)
    } else if !admitted_here {
        Some(FactsWithheld::AttesterNotAdmitted)
    } else {
        None
    };
    let facts = if withheld.is_none() {
        admitted_facts(request, candidate, &result_id)
    } else {
        Vec::new()
    };
    Ok(CapabilityAdmission { conformance: CapabilityConformanceResult { result_id, body }, facts, withheld })
}

/// Verifies one candidate with an independent verifier and decides what,
/// if anything, it admits. Whatever the verifier returns, an admission
/// names the request, candidate and suite, and holds facts only when all
/// checks passed and the host admits the verifier's exact binding.
pub fn verify_and_admit<V: CapabilityConformanceProvider>(
    request: &CapabilityRequest,
    candidate: &CapabilityCandidate,
    verifier: &V,
    policy: &AdmissionPolicy,
) -> (r: Result<CapabilityAdmission, CapabilityAdmissionError>)
    ensures
        r matches Ok(a) ==> candidate_fault(*request, *candidate) is None && ({
            let d = AttesterView {
                id: a.conformance.body.attester@,
                suite: request.body.conformance_suite@,
                implementation_digest: a.conformance.body.attester_implementation@,
            };
            &&& gate_fault(*request, *candidate, d) is None
            &&& admission_from(*request, *candidate, d, a.conformance.body.checks@, *policy, a)
        }),
        candidate_fault(*request, *candidate) is Some ==> (r matches Err(e) && admission_fault_of(e)
            == AdmissionFault::Candidate(candidate_fault(*request, *candidate).unwrap())),
        r matches Err(e) ==> exists|d: AttesterView, v: Result<Vec<ConformanceCheck>, String>|
            #![trigger gate_fault(*request, *candidate, d), answer_fault(*request, *candidate, d, v)]
            gate_fault(*request, *candidate, d) == Some(admission_fault_of(e)) || (gate_fault(*request, *candidate, d) is None && (
            answer_fault(*request, *candidate, d, v) == Some(admission_fault_of(e)) || (answer_fault(*request, *candidate, d, v)
                is None && admission_fault_of(e) == AdmissionFault::Serialization(serialization_msg())))),
{
    let descriptor = verifier.descriptor();
    let ghost d = attester_view(descriptor);
    match admission_gate(request, candidate, &descriptor) {
        Ok(()) => {},
        Err(e) => {
            assert(gate_fault(*request, *candidate, d) == Some(admission_fault_of(e)));
            let ghost v: Result<Vec<ConformanceCheck>, String> = Err(descriptor.suite);
            assert(answer_fault(*request, *candidate, d, v) == answer_fault(*request, *candidate, d, v));
            return Err(e);
        },
    }
    let verified = verifier.verify(request, candidate);
    let ghost gv = verified;
    let r = admit_checks(request, candidate, descriptor, verified, policy);
    proof {
        if r is Err {
            assert(gate_fault(*request, *candidate, d) is None);
            assert(answer_fault(*request, *candidate, d, gv) == answer_fault(*request, *candidate, d, gv));
        }
    }
    r
}


/// A request bound from a need always revalidates: its body passes every
/// check and its identity is the content identity of its body.
pub proof fn lemma_bound_request_validates(req: CapabilityRequest, spec: CapabilitySpec, inputs: Seq<FactInstance>, suite: Seq<char>)
    requires
        bind_fault(spec, inputs, suite) is None,
        CapabilityRequest::binds(req, spec, inputs, suite),
    ensures
        request_fault(req) is None,
{
    assert(body_doc(req.body) == parts_doc(spec.id@, port_reqs(spec.input_ports@), inputs, output_kinds(spec.output_ports@), suite));
}

/// Facts are admitted only when every check passed and the host admits the
/// exact attester binding; otherwise the admission says why and holds none.
pub proof fn lemma_admission_needs_pass_and_policy(
    request: CapabilityRequest,
    candidate: CapabilityCandidate,
    d: AttesterView,
    checks: Seq<ConformanceCheck>,
    policy: AdmissionPolicy,
    a: CapabilityAdmission,
)
    requires
        admission_from(request, candidate, d, checks, policy, a),
    ensures
        a.facts@.len() > 0 ==> combined_outcome(checks) == ConformanceOutcome::Passed && policy.spec_admits(d),
        combined_outcome(checks) == ConformanceOutcome::Failed ==> a.withheld == Some(FactsWithheld::ConformanceFailed)
            && a.facts@.len() == 0,
        combined_outcome(checks) == ConformanceOutcome::Passed && !policy.spec_admits(d) ==> a.withheld == Some(
            FactsWithheld::AttesterNotAdmitted,
        ) && a.facts@.len() == 0,
{
}

/// The result an admission records passed exactly when every one of its
/// checks passed: a single failed check fails the result, withholds the
/// facts as failed conformance and admits none, whatever else passed.
pub proof fn lemma_failed_check_fails_admission(
    request: CapabilityRequest,
    candidate: CapabilityCandidate,
    d: AttesterView,
    checks: Seq<ConformanceCheck>,
    policy: AdmissionPolicy,
    a: CapabilityAdmission,
)
    requires
        admission_from(request, candidate, d, checks, policy, a),
    ensures
        a.conformance.body.outcome == ConformanceOutcome::Passed <==> forall|i: int|
            0 <= i < checks.len() ==> (#[trigger] checks[i]).outcome == ConformanceOutcome::Passed,
        (exists|i: int| 0 <= i < checks.len() && (#[trigger] checks[i]).outcome == ConformanceOutcome::Failed) ==> {
            &&& a.conformance.body.outcome == ConformanceOutcome::Failed
            &&& a.withheld == Some(FactsWithheld::ConformanceFailed)
            &&& a.facts@.len() == 0
        },
        a.facts@.len() > 0 ==> forall|i: int|
            0 <= i < checks.len() ==> (#[trigger] checks[i]).outcome == ConformanceOutcome::Passed,
{
    if exists|i: int| 0 <= i < checks.len() && (#[trigger] checks[i]).outcome == ConformanceOutcome::Failed {
        let i = choose|i: int| 0 <= i < checks.len() && (#[trigger] checks[i]).outcome == ConformanceOutcome::Failed;
        assert(checks[i].outcome != ConformanceOutcome::Passed);
    }
}

/// A verifier may run only when it is independent of the provider in both
/// identity and implementation, and bound to the request's suite.
pub proof fn lemma_gate_requires_independence(request: CapabilityRequest, candidate: CapabilityCandidate, d: AttesterView)
    requires
        gate_fault(request, candidate, d) is None,
    ensures
        d.id != candidate.body.provider.id@,
        d.implementation_digest != candidate.body.provider.implementation_digest@,
        d.suite == request.body.conformance_suite@,
        candidate_fault(request, candidate) is None,
{
}

/// An admitted attester stays admitted, and admitting it twice changes
/// nothing.
pub proof fn lemma_admit_attester_admits(before: Seq<AttesterView>, after: Seq<AttesterView>, d: AttesterView)
    requires
        after == (if before.contains(d) { before } else { before.push(d) }),
    ensures
        after.contains(d),
        forall|x: AttesterView| before.contains(x) ==> after.contains(x),
{
    if !before.contains(d) {
        assert(after[before.len() as int] == d);
        assert forall|x: AttesterView| before.contains(x) implies after.contains(x) by {
            let k = choose|k: int| 0 <= k < before.len() && before[k] == x;
            assert(after[k] == x);
        }
    }
}

} // verus!
