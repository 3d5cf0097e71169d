//! Structural checks shared by the neutral protocol documents: exact SHA-256
//! identities, exact protocol names, content identities, and named port
//! sequences that must match a declaration exactly and in order.

use vstd::prelude::*;
use crate::capability::{
    CapabilitySpec, InputPort, OutputPort, RegistryError, acceptance_name, distinct, first_reserved, id_doc, id_json,
    invalid_capability_text, invalid_need_text, reserved_key, spec_rejection, validate_spec,
};
use crate::digest::{content_id, json_content_id};
use crate::fact::{Fact, FactFault, fact_document, fact_fault_of, fact_fault_text, fact_json, fact_refusal, fact_valid, push_members};
use crate::identity::{ExactId, FactId, IdView, PortName, id_well_formed, is_sha256_identity, is_sha256_text, render_id};
use crate::json::{Json, JsonMember, JsonValue, copy_json, json_array, json_object, json_text, key_views, push_member, value_views};
use crate::text::{chars_of, owned, str_eq};

verus! {

/// Why a value could not be read as an exact lowercase SHA-256 identity.
#[derive(Clone, Debug)]
pub struct DigestParseError(pub String);

impl DigestParseError {
    /// "`value` is not an exact SHA-256 identity".
    pub fn message(&self) -> (r: String)
        ensures
            r@ == "`"@ + self.0@ + "` is not an exact SHA-256 identity"@,
    {
        let mut m = owned("`");
        m.append(self.0.as_str());
        m.append("` is not an exact SHA-256 identity");
        m
    }
}

/// One exact lowercase SHA-256 identity: an artifact digest, or the content
/// identity of an offer, invocation, result, candidate, authority record or
/// evidence.
#[derive(Clone, Debug, PartialEq, Eq)]
pub struct Sha256Digest(String);

pub type ArtifactDigest = Sha256Digest;
pub type OfferId = Sha256Digest;
pub type InvocationId = Sha256Digest;
pub type ResultId = Sha256Digest;
pub type CandidateId = Sha256Digest;
pub type AuthorityRecordId = Sha256Digest;
pub type EvidenceDigest = Sha256Digest;

impl View for Sha256Digest {
    type V = Seq<char>;

    closed spec fn view(&self) -> Seq<char> {
        self.0@
    }
}

impl Sha256Digest {
    pub fn parse(value: String) -> (r: Result<Self, DigestParseError>)
        ensures
            r is Ok <==> is_sha256_text(value@),
            r matches Ok(d) ==> d@ == value@,
            r matches Err(e) ==> e.0@ == value@,
    {
        if is_sha256_identity(value.as_str()) {
            Ok(Sha256Digest(value))
        } else {
            Err(DigestParseError(value))
        }
    }

    pub fn as_str(&self) -> (r: &str)
        ensures
            r@ == self@,
    {
        self.0.as_str()
    }

    /// Whether two identities are the same text.
    pub fn same_as(&self, other: &Self) -> (r: bool)
        ensures
            r == (self@ == other@),
    {
        self.0 == other.0
    }

    /// An equal, separately owned identity.
    pub fn duplicate(&self) -> (r: Self)
        ensures
            r@ == self@,
    {
        Sha256Digest(self.0.clone())
    }
}

pub open spec fn placeholder_text() -> Seq<char> {
    seq!['s', 'h', 'a', '2', '5', '6', ':'] + Seq::new(64, |i: int| '0')
}

/// `sha256:` and sixty-four zeros: the identity a document carries while
/// its own identity is derived.
pub fn placeholder_sha256() -> (r: Sha256Digest)
    ensures
        r@ == placeholder_text(),
        is_sha256_text(r@),
{
    let mut chars: Vec<char> = Vec::new();
    chars.push('s');
    chars.push('h');
    chars.push('a');
    chars.push('2');
    chars.push('5');
    chars.push('6');
    chars.push(':');
    let mut i: usize = 0;
    while i < 64
        invariant
            i <= 64,
            chars@ == seq!['s', 'h', 'a', '2', '5', '6', ':'] + Seq::new(i as nat, |k: int| '0'),
        decreases 64 - i,
    {
        chars.push('0');
        i = i + 1;
        assert(chars@ =~= seq!['s', 'h', 'a', '2', '5', '6', ':'] + Seq::new(i as nat, |k: int| '0'));
    }
    let text = crate::text::string_from_chars(chars.as_slice());
    assert(text@.subrange(0, 7) =~= seq!['s', 'h', 'a', '2', '5', '6', ':']);
    Sha256Digest(text)
}

pub const OFFER_PROTOCOL: &'static str = "org.gooi.capability.offer/v1";
pub const INVOCATION_PROTOCOL: &'static str = "org.gooi.capability.invocation/v1";
pub const RESULT_PROTOCOL: &'static str = "org.gooi.capability.result/v1";
pub const CANDIDATE_PROTOCOL: &'static str = "org.gooi.capability.candidate/v1";

/// A structural protocol validation failure.
#[derive(Debug)]
pub enum ProtocolError {
    ProtocolMismatch { expected: String, actual: String },
    InvalidIdentity { field: String, value: String },
    InvalidCapability(String),
    ReservedExtension { scope: String, key: String },
    Serialization(String),
    ContentIdentityMismatch { document: String, expected: String, actual: String },
    OfferCapabilityMismatch { offered: ExactId, invoked: ExactId },
    DuplicatePort { direction: String, port: PortName },
    PortSetMismatch { direction: String, expected: Vec<PortName>, actual: Vec<PortName> },
    PortOrderMismatch { direction: String, expected: Vec<PortName>, actual: Vec<PortName> },
    FactInvalid { port: PortName, detail: String },
    FactReferenceMismatch { port: PortName, expected: String, actual: String },
    ValueKindMismatch { port: PortName, expected: ExactId, actual: ExactId },
    EmptyEvidenceLocator,
    InvocationCorrelationMismatch { expected: Sha256Digest, actual: Sha256Digest },
    UnableResultCannotBecomeCandidate,
}

/// Refuses any protocol name but the expected one.
pub fn validate_protocol(expected: &str, actual: &str) -> (r: Result<(), ProtocolError>)
    ensures
        r is Ok <==> actual@ == expected@,
        r matches Err(e) ==> e matches ProtocolError::ProtocolMismatch { expected: x, actual: y } && x@ == expected@
            && y@ == actual@,
{
    if str_eq(actual, expected) {
        Ok(())
    } else {
        Err(ProtocolError::ProtocolMismatch { expected: owned(expected), actual: owned(actual) })
    }
}

/// Refuses a stored identity that differs from the derived one.
pub fn validate_content_id(document: &str, actual: &str, expected: &str) -> (r: Result<(), ProtocolError>)
    ensures
        r is Ok <==> actual@ == expected@,
        r matches Err(e) ==> e matches ProtocolError::ContentIdentityMismatch { document: d, expected: x, actual: y }
            && d@ == document@ && x@ == expected@ && y@ == actual@,
{
    if str_eq(actual, expected) {
        Ok(())
    } else {
        Err(ProtocolError::ContentIdentityMismatch {
            document: owned(document),
            expected: owned(expected),
            actual: owned(actual),
        })
    }
}

/// Refuses a malformed exact identity, naming the field and rendering it.
pub fn validate_exact_id(field: &str, value: &ExactId) -> (r: Result<(), ProtocolError>)
    ensures
        r is Ok <==> id_well_formed(value@),
        r matches Err(e) ==> e matches ProtocolError::InvalidIdentity { field: f, value: v } && f@ == field@ && v@
            == render_id(value@),
{
    if value.is_well_formed() {
        Ok(())
    } else {
        Err(ProtocolError::InvalidIdentity { field: owned(field), value: value.render() })
    }
}

pub open spec fn port_views(ports: Seq<PortName>) -> Seq<Seq<char>> {
    Seq::new(ports.len(), |i: int| ports[i]@)
}

/// The first position, from `j` on, whose port occurred earlier.
pub open spec fn first_repeated_port(ports: Seq<Seq<char>>, j: int) -> Option<int>
    decreases ports.len() - j,
{
    if j < 0 || j >= ports.len() {
        None
    } else if exists|i: int| 0 <= i < j && ports[i] == ports[j] {
        Some(j)
    } else {
        first_repeated_port(ports, j + 1)
    }
}

pub open spec fn same_members(a: Seq<Seq<char>>, b: Seq<Seq<char>>) -> bool {
    forall|x: Seq<char>| a.contains(x) <==> b.contains(x)
}

/// Mathematical form of a port sequence refusal.
pub enum PortFault {
    Duplicate(Seq<char>),
    SetMismatch,
    OrderMismatch,
}

/// Why named ports are refused against the declared ones: a repeated
/// port, a different set of ports, or the same ports in another order.
pub open spec fn port_sequence_fault(expected: Seq<Seq<char>>, actual: Seq<Seq<char>>) -> Option<PortFault> {
    if first_repeated_port(actual, 0) is Some {
        Some(PortFault::Duplicate(actual[first_repeated_port(actual, 0).unwrap()]))
    } else if !same_members(expected, actual) {
        Some(PortFault::SetMismatch)
    } else if expected != actual {
        Some(PortFault::OrderMismatch)
    } else {
        None
    }
}

pub open spec fn port_fault_of(e: ProtocolError, direction: Seq<char>) -> Option<PortFault> {
    match e {
        ProtocolError::DuplicatePort { direction: d, port } => if d@ == direction {
            Some(PortFault::Duplicate(port@))
        } else {
            None
        },
        ProtocolError::PortSetMismatch { direction: d, .. } => if d@ == direction {
            Some(PortFault::SetMismatch)
        } else {
            None
        },
        ProtocolError::PortOrderMismatch { direction: d, .. } => if d@ == direction {
            Some(PortFault::OrderMismatch)
        } else {
            None
        },
        _ => None,
    }
}

/// The refusal a port sequence fault becomes in the given direction.
pub open spec fn port_proto(direction: Seq<char>, f: PortFault, expected: Seq<Seq<char>>, actual: Seq<Seq<char>>) -> ProtoFault {
    match f {
        PortFault::Duplicate(p) => ProtoFault::DuplicatePort(direction, p),
        PortFault::SetMismatch => ProtoFault::PortSetMismatch(direction, expected, actual),
        PortFault::OrderMismatch => ProtoFault::PortOrderMismatch(direction, expected, actual),
    }
}

fn contains_port(ports: &[PortName], p: &PortName) -> (r: bool)
    ensures
        r == port_views(ports@).contains(p@),
{
    let mut i: usize = 0;
    while i < ports.len()
        invariant
            i <= ports.len(),
            forall|k: int| 0 <= k < i ==> port_views(ports@)[k] != p@,
        decreases ports.len() - i,
    {
        if ports[i].same_as(p) {
            assert(port_views(ports@)[i as int] == p@);
            return true;
        }
        i = i + 1;
    }
    false
}

fn covers(a: &[PortName], b: &[PortName]) -> (r: bool)
    ensures
        r == (forall|x: Seq<char>| port_views(a@).contains(x) ==> port_views(b@).contains(x)),
{
    let mut i: usize = 0;
    while i < a.len()
        invariant
            i <= a.len(),
            forall|k: int| 0 <= k < i ==> port_views(b@).contains(#[trigger] port_views(a@)[k]),
        decreases a.len() - i,
    {
        if !contains_port(b, &a[i]) {
            assert(port_views(a@).contains(port_views(a@)[i as int]));
            return false;
        }
        i = i + 1;
    }
    assert forall|x: Seq<char>| port_views(a@).contains(x) implies port_views(b@).contains(x) by {
        let k = choose|k: int| 0 <= k < port_views(a@).len() && port_views(a@)[k] == x;
        assert(port_views(b@).contains(port_views(a@)[k]));
    }
    true
}

fn copy_ports(ports: &[PortName]) -> (r: Vec<PortName>)
    ensures
        port_views(r@) == port_views(ports@),
{
    let mut out: Vec<PortName> = Vec::new();
    let mut i: usize = 0;
    while i < ports.len()
        invariant
            i <= ports.len(),
            port_views(out@) == port_views(ports@).subrange(0, i as int),
        decreases ports.len() - i,
    {
        let ghost before = out@;
        out.push(ports[i].duplicate());
        assert(port_views(out@) =~= port_views(ports@).subrange(0, i + 1)) by {
            assert(port_views(out@) =~= port_views(before).push(ports@[i as int]@));
        }
        i = i + 1;
    }
    assert(port_views(ports@).subrange(0, ports@.len() as int) =~= port_views(ports@));
    out
}

/// Checks that named ports are exactly the declared ones: no repeats, the
/// same set, and the same order.
pub fn validate_named_port_sequence(direction: &str, expected: &[PortName], actual: &[PortName]) -> (r: Result<
    (),
    ProtocolError,
>)
    ensures
        r is Ok <==> port_sequence_fault(port_views(expected@), port_views(actual@)) is None,
        r matches Err(e) ==> port_fault_of(e, direction@) == port_sequence_fault(port_views(expected@), port_views(actual@)),
        r matches Err(e) ==> proto_fault_of(e) == port_proto(
            direction@,
            port_sequence_fault(port_views(expected@), port_views(actual@)).unwrap(),
            port_views(expected@),
            port_views(actual@),
        ),
{
    let ghost av = port_views(actual@);
    let mut j: usize = 0;
    while j < actual.len()
        invariant
            j <= actual.len(),
            av == port_views(actual@),
            first_repeated_port(av, 0) == first_repeated_port(av, j as int),
        decreases actual.len() - j,
    {
        let mut i: usize = 0;
        while i < j
            invariant
                i <= j < actual.len(),
                av == port_views(actual@),
                first_repeated_port(av, 0) == first_repeated_port(av, j as int),
                forall|a: int| 0 <= a < i ==> av[a] != av[j as int],
            decreases j - i,
        {
            if actual[i].same_as(&actual[j]) {
                assert(av[i as int] == av[j as int]);
                assert(exists|a: int| 0 <= a < j && av[a] == av[j as int]);
                return Err(ProtocolError::DuplicatePort { direction: owned(direction), port: actual[j].duplicate() });
            }
            i = i + 1;
        }
        j = j + 1;
    }
    if !(covers(expected, actual) && covers(actual, expected)) {
        return Err(ProtocolError::PortSetMismatch {
            direction: owned(direction),
            expected: copy_ports(expected),
            actual: copy_ports(actual),
        });
    }
    let mut same = expected.len() == actual.len();
    let mut k: usize = 0;
    while same && k < expected.len()
        invariant
            k <= expected.len(),
            same ==> expected.len() == actual.len(),
            same ==> forall|m: int| 0 <= m < k ==> port_views(expected@)[m] == port_views(actual@)[m],
            !same ==> port_views(expected@) != port_views(actual@),
        decreases expected.len() - k,
    {
        if !expected[k].same_as(&actual[k]) {
            assert(port_views(expected@)[k as int] != port_views(actual@)[k as int]);
            same = false;
        }
        k = k + 1;
    }
    if !same {
        return Err(ProtocolError::PortOrderMismatch {
            direction: owned(direction),
            expected: copy_ports(expected),
            actual: copy_ports(actual),
        });
    }
    assert(port_views(expected@) =~= port_views(actual@));
    Ok(())
}


// ---- refusals ----

/// Mathematical form of a protocol refusal.
pub enum ProtoFault {
    ProtocolMismatch(Seq<char>, Seq<char>),
    InvalidIdentity(Seq<char>, Seq<char>),
    InvalidCapability(Seq<char>),
    ReservedExtension(Seq<char>, Seq<char>),
    Serialization(Seq<char>),
    ContentIdentityMismatch(Seq<char>, Seq<char>, Seq<char>),
    OfferCapabilityMismatch(IdView, IdView),
    DuplicatePort(Seq<char>, Seq<char>),
    PortSetMismatch(Seq<char>, Seq<Seq<char>>, Seq<Seq<char>>),
    PortOrderMismatch(Seq<char>, Seq<Seq<char>>, Seq<Seq<char>>),
    FactInvalid(Seq<char>, Seq<char>),
    FactReferenceMismatch(Seq<char>, Seq<char>, Seq<char>),
    ValueKindMismatch(Seq<char>, IdView, IdView),
    EmptyEvidenceLocator,
    InvocationCorrelationMismatch(Seq<char>, Seq<char>),
    UnableResultCannotBecomeCandidate,
}

pub open spec fn proto_fault_of(e: ProtocolError) -> ProtoFault {
    match e {
        ProtocolError::ProtocolMismatch { expected, actual } => ProtoFault::ProtocolMismatch(expected@, actual@),
        ProtocolError::InvalidIdentity { field, value } => ProtoFault::InvalidIdentity(field@, value@),
        ProtocolError::InvalidCapability(m) => ProtoFault::InvalidCapability(m@),
        ProtocolError::ReservedExtension { scope, key } => ProtoFault::ReservedExtension(scope@, key@),
        ProtocolError::Serialization(m) => ProtoFault::Serialization(m@),
        ProtocolError::ContentIdentityMismatch { document, expected, actual } => ProtoFault::ContentIdentityMismatch(
            document@,
            expected@,
            actual@,
        ),
        ProtocolError::OfferCapabilityMismatch { offered, invoked } => ProtoFault::OfferCapabilityMismatch(offered@, invoked@),
        ProtocolError::DuplicatePort { direction, port } => ProtoFault::DuplicatePort(direction@, port@),
        ProtocolError::PortSetMismatch { direction, expected, actual } => ProtoFault::PortSetMismatch(
            direction@,
            port_views(expected@),
            port_views(actual@),
        ),
        ProtocolError::PortOrderMismatch { direction, expected, actual } => ProtoFault::PortOrderMismatch(
            direction@,
            port_views(expected@),
            port_views(actual@),
        ),
        ProtocolError::FactInvalid { port, detail } => ProtoFault::FactInvalid(port@, detail@),
        ProtocolError::FactReferenceMismatch { port, expected, actual } => ProtoFault::FactReferenceMismatch(
            port@,
            expected@,
            actual@,
        ),
        ProtocolError::ValueKindMismatch { port, expected, actual } => ProtoFault::ValueKindMismatch(port@, expected@, actual@),
        ProtocolError::EmptyEvidenceLocator => ProtoFault::EmptyEvidenceLocator,
        ProtocolError::InvocationCorrelationMismatch { expected, actual } => ProtoFault::InvocationCorrelationMismatch(
            expected@,
            actual@,
        ),
        ProtocolError::UnableResultCannotBecomeCandidate => ProtoFault::UnableResultCannotBecomeCandidate,
    }
}

pub open spec fn str_views(v: Seq<&str>) -> Seq<Seq<char>> {
    Seq::new(v.len(), |i: int| v[i]@)
}

/// The first reserved field, in the given order, that the extensions use.
pub open spec fn ext_fault(scope: Seq<char>, reserved: Seq<Seq<char>>, extensions: Seq<JsonMember>) -> Option<ProtoFault> {
    match first_reserved(reserved, key_views(extensions)) {
        Some(k) => Some(ProtoFault::ReservedExtension(scope, k)),
        None => None,
    }
}

/// Refuses an extension that shadows a field of the document.
pub fn check_extensions(scope: &str, extensions: &Vec<JsonMember>, reserved: &[&str]) -> (r: Result<(), ProtocolError>)
    ensures
        r is Ok <==> ext_fault(scope@, str_views(reserved@), extensions@) is None,
        r matches Err(e) ==> ext_fault(scope@, str_views(reserved@), extensions@) == Some(proto_fault_of(e)),
{
    assert(Seq::new(reserved@.len(), |i: int| reserved@[i]@) =~= str_views(reserved@));
    match reserved_key(reserved, extensions) {
        Some(k) => Err(ProtocolError::ReservedExtension { scope: owned(scope), key: owned(k) }),
        None => Ok(()),
    }
}

pub open spec fn serialization_text() -> Seq<char> {
    "canonical JSON serialization failed"@
}

/// Why a stored identity is not the content identity of the document body.
pub open spec fn id_fault(document: Seq<char>, body: Json, actual: Seq<char>) -> Option<ProtoFault> {
    match content_id(body) {
        None => Some(ProtoFault::Serialization(serialization_text())),
        Some(x) => if x == actual {
            None
        } else {
            Some(ProtoFault::ContentIdentityMismatch(document, x, actual))
        },
    }
}

/// The content identity of a document body.
fn derive_id(body: &JsonValue) -> (r: Result<Sha256Digest, ProtocolError>)
    ensures
        r is Ok <==> content_id(body@) is Some,
        r matches Ok(d) ==> Some(d@) == content_id(body@) && is_sha256_text(d@),
        r matches Err(e) ==> proto_fault_of(e) == ProtoFault::Serialization(serialization_text()),
{
    match json_content_id(body) {
        Some(id) => Ok(Sha256Digest(id)),
        None => Err(ProtocolError::Serialization(owned("canonical JSON serialization failed"))),
    }
}

/// Refuses a stored identity that is not the content identity of the body.
fn check_id(document: &str, body: &JsonValue, actual: &Sha256Digest) -> (r: Result<(), ProtocolError>)
    ensures
        r is Ok <==> id_fault(document@, body@, actual@) is None,
        r matches Err(e) ==> id_fault(document@, body@, actual@) == Some(proto_fault_of(e)),
{
    let expected = derive_id(body)?;
    if expected.same_as(actual) {
        Ok(())
    } else {
        Err(ProtocolError::ContentIdentityMismatch {
            document: owned(document),
            expected: owned(expected.as_str()),
            actual: owned(actual.as_str()),
        })
    }
}

/// Refuses a malformed identity, naming the field.
pub open spec fn exact_fault(field: Seq<char>, id: IdView) -> Option<ProtoFault> {
    if id_well_formed(id) {
        None
    } else {
        Some(ProtoFault::InvalidIdentity(field, render_id(id)))
    }
}

fn check_exact(field: &str, id: &ExactId) -> (r: Result<(), ProtocolError>)
    ensures
        r is Ok <==> exact_fault(field@, id@) is None,
        r matches Err(e) ==> exact_fault(field@, id@) == Some(proto_fault_of(e)),
{
    validate_exact_id(field, id)
}

fn check_protocol(expected: &str, actual: &str) -> (r: Result<(), ProtocolError>)
    ensures
        r is Ok <==> actual@ == expected@,
        r matches Err(e) ==> proto_fault_of(e) == ProtoFault::ProtocolMismatch(expected@, actual@),
{
    validate_protocol(expected, actual)
}

// ---- documents ----

/// An object of these fields followed by the extension members.
pub open spec fn with_ext(keys: Seq<Seq<char>>, vals: Seq<Json>, extensions: Seq<JsonMember>) -> Json {
    Json::Object(keys + key_views(extensions), vals + value_views(extensions))
}

pub(crate) fn object_with(m: Vec<JsonMember>, extensions: &Vec<JsonMember>) -> (r: JsonValue)
    ensures
        r@ == with_ext(key_views(m@), value_views(m@), extensions@),
{
    let mut m = m;
    push_members(&mut m, extensions);
    json_object(m)
}

pub open spec fn input_port_doc(p: InputPort) -> Json {
    with_ext(
        seq!["name"@, "value_kind"@, "acceptance"@],
        seq![Json::Str(p.name@), id_doc(p.value_kind@), Json::Str(acceptance_name(p.acceptance))],
        p.extensions@,
    )
}

pub open spec fn output_port_doc(p: OutputPort) -> Json {
    with_ext(seq!["name"@, "value_kind"@], seq![Json::Str(p.name@), id_doc(p.value_kind@)], p.extensions@)
}

/// The document of a declaration.
pub open spec fn spec_doc(s: CapabilitySpec) -> Json {
    with_ext(
        seq!["id"@, "input_ports"@, "output_ports"@, "default_conformance_suite"@],
        seq![
            id_doc(s.id@),
            Json::Array(Seq::new(s.input_ports@.len(), |i: int| input_port_doc(s.input_ports@[i]))),
            Json::Array(Seq::new(s.output_ports@.len(), |i: int| output_port_doc(s.output_ports@[i]))),
            Json::Str(s.default_conformance_suite@),
        ],
        s.extensions@,
    )
}

fn acceptance_str(a: crate::capability::FactAcceptance) -> (r: &'static str)
    ensures
        r@ == acceptance_name(a),
{
    match a {
        crate::capability::FactAcceptance::CompleteOnly => "complete_only",
        crate::capability::FactAcceptance::PartialAllowed => "partial_allowed",
    }
}

fn input_port_json(p: &InputPort) -> (r: JsonValue)
    ensures
        r@ == input_port_doc(*p),
{
    let mut m: Vec<JsonMember> = Vec::new();
    assert(key_views(m@) =~= Seq::<Seq<char>>::empty());
    assert(value_views(m@) =~= Seq::<Json>::empty());
    push_member(&mut m, "name", json_text(p.name.as_str()));
    push_member(&mut m, "value_kind", id_json(&p.value_kind));
    push_member(&mut m, "acceptance", json_text(acceptance_str(p.acceptance)));
    let ghost keys = seq!["name"@, "value_kind"@, "acceptance"@];
    let ghost vals = seq![Json::Str(p.name@), id_doc(p.value_kind@), Json::Str(acceptance_name(p.acceptance))];
    assert(key_views(m@) =~= keys);
    assert(value_views(m@) =~= vals);
    object_with(m, &p.extensions)
}

fn output_port_json(p: &OutputPort) -> (r: JsonValue)
    ensures
        r@ == output_port_doc(*p),
{
    let mut m: Vec<JsonMember> = Vec::new();
    assert(key_views(m@) =~= Seq::<Seq<char>>::empty());
    assert(value_views(m@) =~= Seq::<Json>::empty());
    push_member(&mut m, "name", json_text(p.name.as_str()));
    push_member(&mut m, "value_kind", id_json(&p.value_kind));
    let ghost keys = seq!["name"@, "value_kind"@];
    let ghost vals = seq![Json::Str(p.name@), id_doc(p.value_kind@)];
    assert(key_views(m@) =~= keys);
    assert(value_views(m@) =~= vals);
    object_with(m, &p.extensions)
}

/// The document of a declaration.
pub fn spec_json(s: &CapabilitySpec) -> (r: JsonValue)
    ensures
        r@ == spec_doc(*s),
{
    let mut ins: Vec<JsonValue> = Vec::new();
    let mut i: usize = 0;
    while i < s.input_ports.len()
        invariant
            i <= s.input_ports.len(),
            crate::json::item_views(ins@) == Seq::new(i as nat, |k: int| input_port_doc(s.input_ports@[k])),
        decreases s.input_ports.len() - i,
    {
        let ghost before = ins@;
        ins.push(input_port_json(&s.input_ports[i]));
        assert(crate::json::item_views(ins@) =~= Seq::new((i + 1) as nat, |k: int| input_port_doc(s.input_ports@[k]))) by {
            assert(crate::json::item_views(ins@) =~= crate::json::item_views(before).push(input_port_doc(s.input_ports@[i as int])));
        }
        i = i + 1;
    }
    let mut outs: Vec<JsonValue> = Vec::new();
    let mut i: usize = 0;
    while i < s.output_ports.len()
        invariant
            i <= s.output_ports.len(),
            crate::json::item_views(outs@) == Seq::new(i as nat, |k: int| output_port_doc(s.output_ports@[k])),
        decreases s.output_ports.len() - i,
    {
        let ghost before = outs@;
        outs.push(output_port_json(&s.output_ports[i]));
        assert(crate::json::item_views(outs@) =~= Seq::new((i + 1) as nat, |k: int| output_port_doc(s.output_ports@[k]))) by {
            assert(crate::json::item_views(outs@) =~= crate::json::item_views(before).push(output_port_doc(s.output_ports@[i as int])));
        }
        i = i + 1;
    }
    let mut m: Vec<JsonMember> = Vec::new();
    assert(key_views(m@) =~= Seq::<Seq<char>>::empty());
    assert(value_views(m@) =~= Seq::<Json>::empty());
    push_member(&mut m, "id", id_json(&s.id));
    push_member(&mut m, "input_ports", json_array(ins));
    push_member(&mut m, "output_ports", json_array(outs));
    push_member(&mut m, "default_conformance_suite", json_text(s.default_conformance_suite.as_str()));
    let ghost keys = seq!["id"@, "input_ports"@, "output_ports"@, "default_conformance_suite"@];
    let ghost vals = seq![
        id_doc(s.id@),
        Json::Array(Seq::new(s.input_ports@.len(), |i: int| input_port_doc(s.input_ports@[i]))),
        Json::Array(Seq::new(s.output_ports@.len(), |i: int| output_port_doc(s.output_ports@[i]))),
        Json::Str(s.default_conformance_suite@),
    ];
    assert(key_views(m@) =~= keys);
    assert(value_views(m@) =~= vals);
    object_with(m, &s.extensions)
}

// ---- offers ----

/// One content-identified implementation offer: availability coordinates
/// only, not selection, invocation, conformance or admission.
#[derive(Clone, Debug, PartialEq, Eq)]
pub struct CapabilityOffer {
    pub offer_id: Sha256Digest,
    pub protocol: String,
    pub implementation: ExactId,
    pub artifact_digest: Sha256Digest,
    pub capability: ExactId,
    pub extensions: Vec<JsonMember>,
}

pub open spec fn offer_fields() -> Seq<Seq<char>> {
    seq!["offer_id"@, "protocol"@, "implementation"@, "artifact_digest"@, "capability"@]
}

/// The offer document without its identity.
pub open spec fn offer_body(o: CapabilityOffer) -> Json {
    with_ext(
        seq!["protocol"@, "implementation"@, "artifact_digest"@, "capability"@],
        seq![Json::Str(o.protocol@), id_doc(o.implementation@), Json::Str(o.artifact_digest@), id_doc(o.capability@)],
        o.extensions@,
    )
}

/// The complete offer document.
pub open spec fn offer_doc(o: CapabilityOffer) -> Json {
    with_ext(
        seq!["offer_id"@, "protocol"@, "implementation"@, "artifact_digest"@, "capability"@],
        seq![
            Json::Str(o.offer_id@),
            Json::Str(o.protocol@),
            id_doc(o.implementation@),
            Json::Str(o.artifact_digest@),
            id_doc(o.capability@),
        ],
        o.extensions@,
    )
}

/// Why an implementation, capability and extensions cannot form an offer.
pub open spec fn offer_parts_fault(implementation: IdView, capability: IdView, extensions: Seq<JsonMember>) -> Option<ProtoFault> {
    if exact_fault("implementation"@, implementation) is Some {
        exact_fault("implementation"@, implementation)
    } else if exact_fault("capability"@, capability) is Some {
        exact_fault("capability"@, capability)
    } else {
        ext_fault("capability offer"@, offer_fields(), extensions)
    }
}

pub open spec fn offer_structure_fault(o: CapabilityOffer) -> Option<ProtoFault> {
    if o.protocol@ != OFFER_PROTOCOL@ {
        Some(ProtoFault::ProtocolMismatch(OFFER_PROTOCOL@, o.protocol@))
    } else {
        offer_parts_fault(o.implementation@, o.capability@, o.extensions@)
    }
}

/// The body of a new offer of these parts.
pub open spec fn offer_parts_body(implementation: IdView, artifact: Seq<char>, capability: IdView, extensions: Seq<JsonMember>) -> Json {
    with_ext(
        seq!["protocol"@, "implementation"@, "artifact_digest"@, "capability"@],
        seq![Json::Str(OFFER_PROTOCOL@), id_doc(implementation), Json::Str(artifact), id_doc(capability)],
        extensions,
    )
}

/// The refusal a constructor reports: the first structural fault, or the
/// failed serialization.
pub open spec fn first_or_serialization(f: Option<ProtoFault>) -> ProtoFault {
    match f {
        Some(x) => x,
        None => ProtoFault::Serialization(serialization_text()),
    }
}

/// Why an offer is refused, or nothing: its structure, then its identity.
pub open spec fn offer_fault(o: CapabilityOffer) -> Option<ProtoFault> {
    match offer_structure_fault(o) {
        Some(f) => Some(f),
        None => id_fault("offer"@, offer_body(o), o.offer_id@),
    }
}

fn offer_body_json(o: &CapabilityOffer) -> (r: JsonValue)
    ensures
        r@ == offer_body(*o),
{
    let mut m: Vec<JsonMember> = Vec::new();
    assert(key_views(m@) =~= Seq::<Seq<char>>::empty());
    assert(value_views(m@) =~= Seq::<Json>::empty());
    push_member(&mut m, "protocol", json_text(o.protocol.as_str()));
    push_member(&mut m, "implementation", id_json(&o.implementation));
    push_member(&mut m, "artifact_digest", json_text(o.artifact_digest.as_str()));
    push_member(&mut m, "capability", id_json(&o.capability));
    let ghost keys = seq!["protocol"@, "implementation"@, "artifact_digest"@, "capability"@];
    let ghost vals = seq![Json::Str(o.protocol@), id_doc(o.implementation@), Json::Str(o.artifact_digest@), id_doc(o.capability@)];
    assert(key_views(m@) =~= keys);
    assert(value_views(m@) =~= vals);
    object_with(m, &o.extensions)
}

/// The complete offer document.
pub fn offer_json(o: &CapabilityOffer) -> (r: JsonValue)
    ensures
        r@ == offer_doc(*o),
{
    let mut m: Vec<JsonMember> = Vec::new();
    assert(key_views(m@) =~= Seq::<Seq<char>>::empty());
    assert(value_views(m@) =~= Seq::<Json>::empty());
    push_member(&mut m, "offer_id", json_text(o.offer_id.as_str()));
    push_member(&mut m, "protocol", json_text(o.protocol.as_str()));
    push_member(&mut m, "implementation", id_json(&o.implementation));
    push_member(&mut m, "artifact_digest", json_text(o.artifact_digest.as_str()));
    push_member(&mut m, "capability", id_json(&o.capability));
    let ghost keys = seq!["offer_id"@, "protocol"@, "implementation"@, "artifact_digest"@, "capability"@];
    let ghost vals = seq![
        Json::Str(o.offer_id@),
        Json::Str(o.protocol@),
        id_doc(o.implementation@),
        Json::Str(o.artifact_digest@),
        id_doc(o.capability@),
    ];
    assert(key_views(m@) =~= keys);
    assert(value_views(m@) =~= vals);
    object_with(m, &o.extensions)
}

impl CapabilityOffer {
    fn validate_structure(&self) -> (r: Result<(), ProtocolError>)
        ensures
            r is Ok <==> offer_structure_fault(*self) is None,
            r matches Err(e) ==> offer_structure_fault(*self) == Some(proto_fault_of(e)),
    {
        check_protocol(OFFER_PROTOCOL, self.protocol.as_str())?;
        check_exact("implementation", &self.implementation)?;
        check_exact("capability", &self.capability)?;
        let fields: [&str; 5] = ["offer_id", "protocol", "implementation", "artifact_digest", "capability"];
        assert(str_views(fields@) =~= offer_fields());
        check_extensions("capability offer", &self.extensions, fields.as_slice())
    }

    /// Revalidates the structure and the content-derived identity.
    pub fn validate(&self) -> (r: Result<(), ProtocolError>)
        ensures
            r is Ok <==> offer_fault(*self) is None,
            r matches Err(e) ==> offer_fault(*self) == Some(proto_fault_of(e)),
    {
        self.validate_structure()?;
        let body = offer_body_json(self);
        check_id("offer", &body, &self.offer_id)
    }

    /// An offer of this implementation artifact for this capability,
    /// identified by its content.
    pub fn new(
        implementation: ExactId,
        artifact_digest: Sha256Digest,
        capability: ExactId,
        extensions: Vec<JsonMember>,
    ) -> (r: Result<Self, ProtocolError>)
        ensures
            r matches Ok(o) ==> o.protocol@ == OFFER_PROTOCOL@ && o.implementation == implementation && o.artifact_digest
                == artifact_digest && o.capability == capability && o.extensions == extensions && offer_fault(o) is None,
            r is Ok <==> offer_parts_fault(implementation@, capability@, extensions@) is None && content_id(
                offer_parts_body(implementation@, artifact_digest@, capability@, extensions@),
            ) is Some,
            r matches Err(e) ==> proto_fault_of(e) == first_or_serialization(
                offer_parts_fault(implementation@, capability@, extensions@),
            ),
    {
        let mut offer = CapabilityOffer {
            offer_id: placeholder_sha256(),
            protocol: owned(OFFER_PROTOCOL),
            implementation,
            artifact_digest,
            capability,
            extensions,
        };
        offer.validate_structure()?;
        let body = offer_body_json(&offer);
        offer.offer_id = derive_id(&body)?;
        Ok(offer)
    }
}


// ---- selection, references, evidence, failures ----

/// The caller's explicit implementation choice: the complete chosen offer.
#[derive(Clone, Debug, PartialEq, Eq)]
pub struct ImplementationSelection {
    pub offer: CapabilityOffer,
    pub extensions: Vec<JsonMember>,
}

pub open spec fn selection_fault(s: ImplementationSelection) -> Option<ProtoFault> {
    match offer_fault(s.offer) {
        Some(f) => Some(f),
        None => ext_fault("implementation selection"@, seq!["offer"@], s.extensions@),
    }
}

pub open spec fn selection_doc(s: ImplementationSelection) -> Json {
    with_ext(seq!["offer"@], seq![offer_doc(s.offer)], s.extensions@)
}

fn selection_json(s: &ImplementationSelection) -> (r: JsonValue)
    ensures
        r@ == selection_doc(*s),
{
    let mut m: Vec<JsonMember> = Vec::new();
    assert(key_views(m@) =~= Seq::<Seq<char>>::empty());
    assert(value_views(m@) =~= Seq::<Json>::empty());
    push_member(&mut m, "offer", offer_json(&s.offer));
    assert(key_views(m@) =~= seq!["offer"@]);
    assert(value_views(m@) =~= seq![offer_doc(s.offer)]);
    object_with(m, &s.extensions)
}

impl ImplementationSelection {
    pub fn validate(&self) -> (r: Result<(), ProtocolError>)
        ensures
            r is Ok <==> selection_fault(*self) is None,
            r matches Err(e) ==> selection_fault(*self) == Some(proto_fault_of(e)),
    {
        self.offer.validate()?;
        let fields: [&str; 1] = ["offer"];
        assert(str_views(fields@) =~= seq!["offer"@]);
        check_extensions("implementation selection", &self.extensions, fields.as_slice())
    }

    /// A selection of exactly this offer.
    pub fn new(offer: CapabilityOffer, extensions: Vec<JsonMember>) -> (r: Result<Self, ProtocolError>)
        ensures
            r matches Ok(s) ==> s.offer == offer && s.extensions == extensions,
            r is Ok <==> selection_fault(ImplementationSelection { offer, extensions }) is None,
            r matches Err(e) ==> selection_fault(ImplementationSelection { offer, extensions }) == Some(proto_fault_of(e)),
    {
        let selection = ImplementationSelection { offer, extensions };
        selection.validate()?;
        Ok(selection)
    }
}

/// Exact fact and authority-record identities accepted by the invoking
/// caller; whether the record exists and is accepted is decided later.
#[derive(Clone, Debug, PartialEq, Eq)]
pub struct AdmittedFactRef {
    pub fact_id: FactId,
    pub authority_record_id: Sha256Digest,
    pub extensions: Vec<JsonMember>,
}

pub open spec fn admitted_fault(a: AdmittedFactRef) -> Option<ProtoFault> {
    if !is_sha256_text(a.fact_id@) {
        Some(ProtoFault::InvalidIdentity("fact_id"@, a.fact_id@))
    } else {
        ext_fault("admitted fact reference"@, seq!["fact_id"@, "authority_record_id"@], a.extensions@)
    }
}

pub open spec fn admitted_doc(a: AdmittedFactRef) -> Json {
    with_ext(
        seq!["fact_id"@, "authority_record_id"@],
        seq![Json::Str(a.fact_id@), Json::Str(a.authority_record_id@)],
        a.extensions@,
    )
}

pub(crate) fn admitted_json(a: &AdmittedFactRef) -> (r: JsonValue)
    ensures
        r@ == admitted_doc(*a),
{
    let mut m: Vec<JsonMember> = Vec::new();
    assert(key_views(m@) =~= Seq::<Seq<char>>::empty());
    assert(value_views(m@) =~= Seq::<Json>::empty());
    push_member(&mut m, "fact_id", json_text(a.fact_id.as_str()));
    push_member(&mut m, "authority_record_id", json_text(a.authority_record_id.as_str()));
    let ghost keys = seq!["fact_id"@, "authority_record_id"@];
    let ghost vals = seq![Json::Str(a.fact_id@), Json::Str(a.authority_record_id@)];
    assert(key_views(m@) =~= keys);
    assert(value_views(m@) =~= vals);
    object_with(m, &a.extensions)
}

impl AdmittedFactRef {
    pub fn validate(&self) -> (r: Result<(), ProtocolError>)
        ensures
            r is Ok <==> admitted_fault(*self) is None,
            r matches Err(e) ==> admitted_fault(*self) == Some(proto_fault_of(e)),
    {
        if !is_sha256_identity(self.fact_id.as_str()) {
            return Err(ProtocolError::InvalidIdentity { field: owned("fact_id"), value: owned(self.fact_id.as_str()) });
        }
        let fields: [&str; 2] = ["fact_id", "authority_record_id"];
        assert(str_views(fields@) =~= seq!["fact_id"@, "authority_record_id"@]);
        check_extensions("admitted fact reference", &self.extensions, fields.as_slice())
    }

    pub fn new(fact_id: FactId, authority_record_id: Sha256Digest, extensions: Vec<JsonMember>) -> (r: Result<Self, ProtocolError>)
        ensures
            r matches Ok(a) ==> a.fact_id == fact_id && a.authority_record_id == authority_record_id && a.extensions == extensions,
            r is Ok <==> admitted_fault(AdmittedFactRef { fact_id, authority_record_id, extensions }) is None,
            r matches Err(e) ==> admitted_fault(AdmittedFactRef { fact_id, authority_record_id, extensions }) == Some(
                proto_fault_of(e),
            ),
    {
        let reference = AdmittedFactRef { fact_id, authority_record_id, extensions };
        reference.validate()?;
        Ok(reference)
    }

    /// An equal, separately owned reference.
    pub fn duplicate(&self) -> (r: Self)
        ensures
            r.fact_id@ == self.fact_id@,
            r.authority_record_id@ == self.authority_record_id@,
            admitted_doc(r) == admitted_doc(*self),
            admitted_fault(r) == admitted_fault(*self),
    {
        AdmittedFactRef {
            fact_id: self.fact_id.duplicate(),
            authority_record_id: self.authority_record_id.duplicate(),
            extensions: crate::fact::copy_members_pub(&self.extensions),
        }
    }
}

/// Opaque evidence held by an execution host or another authority.
#[derive(Clone, Debug, PartialEq, Eq)]
pub struct EvidenceRef {
    pub kind: ExactId,
    pub digest: Sha256Digest,
    pub locator: String,
    pub extensions: Vec<JsonMember>,
}

pub open spec fn evidence_fault(e: EvidenceRef) -> Option<ProtoFault> {
    if exact_fault("evidence kind"@, e.kind@) is Some {
        exact_fault("evidence kind"@, e.kind@)
    } else if e.locator@.len() == 0 {
        Some(ProtoFault::EmptyEvidenceLocator)
    } else {
        ext_fault("evidence reference"@, seq!["kind"@, "digest"@, "locator"@], e.extensions@)
    }
}

pub open spec fn evidence_doc(e: EvidenceRef) -> Json {
    with_ext(
        seq!["kind"@, "digest"@, "locator"@],
        seq![id_doc(e.kind@), Json::Str(e.digest@), Json::Str(e.locator@)],
        e.extensions@,
    )
}

pub(crate) fn evidence_json(e: &EvidenceRef) -> (r: JsonValue)
    ensures
        r@ == evidence_doc(*e),
{
    let mut m: Vec<JsonMember> = Vec::new();
    assert(key_views(m@) =~= Seq::<Seq<char>>::empty());
    assert(value_views(m@) =~= Seq::<Json>::empty());
    push_member(&mut m, "kind", id_json(&e.kind));
    push_member(&mut m, "digest", json_text(e.digest.as_str()));
    push_member(&mut m, "locator", json_text(e.locator.as_str()));
    let ghost keys = seq!["kind"@, "digest"@, "locator"@];
    let ghost vals = seq![id_doc(e.kind@), Json::Str(e.digest@), Json::Str(e.locator@)];
    assert(key_views(m@) =~= keys);
    assert(value_views(m@) =~= vals);
    object_with(m, &e.extensions)
}

impl EvidenceRef {
    pub fn validate(&self) -> (r: Result<(), ProtocolError>)
        ensures
            r is Ok <==> evidence_fault(*self) is None,
            r matches Err(e) ==> evidence_fault(*self) == Some(proto_fault_of(e)),
    {
        check_exact("evidence kind", &self.kind)?;
        if chars_of(self.locator.as_str()).len() == 0 {
            return Err(ProtocolError::EmptyEvidenceLocator);
        }
        let fields: [&str; 3] = ["kind", "digest", "locator"];
        assert(str_views(fields@) =~= seq!["kind"@, "digest"@, "locator"@]);
        check_extensions("evidence reference", &self.extensions, fields.as_slice())
    }

    pub fn new(kind: ExactId, digest: Sha256Digest, locator: String, extensions: Vec<JsonMember>) -> (r: Result<Self, ProtocolError>)
        ensures
            r matches Ok(x) ==> x.kind == kind && x.digest == digest && x.locator == locator && x.extensions == extensions,
            r is Ok <==> evidence_fault(EvidenceRef { kind, digest, locator, extensions }) is None,
            r matches Err(e) ==> evidence_fault(EvidenceRef { kind, digest, locator, extensions }) == Some(proto_fault_of(e)),
    {
        let evidence = EvidenceRef { kind, digest, locator, extensions };
        evidence.validate()?;
        Ok(evidence)
    }
}

/// An opaque typed explanation that an implementation could not produce
/// outputs.
#[derive(Clone, Debug, PartialEq, Eq)]
pub struct CapabilityFailure {
    pub kind: ExactId,
    pub detail: JsonValue,
    pub extensions: Vec<JsonMember>,
}

pub open spec fn failure_fault(f: CapabilityFailure) -> Option<ProtoFault> {
    if exact_fault("failure kind"@, f.kind@) is Some {
        exact_fault("failure kind"@, f.kind@)
    } else {
        ext_fault("capability failure"@, seq!["kind"@, "detail"@], f.extensions@)
    }
}

pub open spec fn failure_doc(f: CapabilityFailure) -> Json {
    with_ext(seq!["kind"@, "detail"@], seq![id_doc(f.kind@), f.detail@], f.extensions@)
}

fn failure_json(f: &CapabilityFailure) -> (r: JsonValue)
    ensures
        r@ == failure_doc(*f),
{
    let mut m: Vec<JsonMember> = Vec::new();
    assert(key_views(m@) =~= Seq::<Seq<char>>::empty());
    assert(value_views(m@) =~= Seq::<Json>::empty());
    push_member(&mut m, "kind", id_json(&f.kind));
    push_member(&mut m, "detail", copy_json(&f.detail));
    let ghost keys = seq!["kind"@, "detail"@];
    let ghost vals = seq![id_doc(f.kind@), f.detail@];
    assert(key_views(m@) =~= keys);
    assert(value_views(m@) =~= vals);
    object_with(m, &f.extensions)
}

impl CapabilityFailure {
    pub fn validate(&self) -> (r: Result<(), ProtocolError>)
        ensures
            r is Ok <==> failure_fault(*self) is None,
            r matches Err(e) ==> failure_fault(*self) == Some(proto_fault_of(e)),
    {
        check_exact("failure kind", &self.kind)?;
        let fields: [&str; 2] = ["kind", "detail"];
        assert(str_views(fields@) =~= seq!["kind"@, "detail"@]);
        check_extensions("capability failure", &self.extensions, fields.as_slice())
    }

    pub fn new(kind: ExactId, detail: JsonValue, extensions: Vec<JsonMember>) -> (r: Result<Self, ProtocolError>)
        ensures
            r matches Ok(x) ==> x.kind == kind && x.detail == detail && x.extensions == extensions,
            r is Ok <==> failure_fault(CapabilityFailure { kind, detail, extensions }) is None,
            r matches Err(e) ==> failure_fault(CapabilityFailure { kind, detail, extensions }) == Some(proto_fault_of(e)),
    {
        let failure = CapabilityFailure { kind, detail, extensions };
        failure.validate()?;
        Ok(failure)
    }
}

// ---- linked inputs and named outputs ----

/// One exact named invocation input: the fact and the reference to the
/// authority record that accepted it.
#[derive(Clone, Debug, PartialEq, Eq)]
pub struct LinkedInput {
    pub port: PortName,
    pub admitted: AdmittedFactRef,
    pub fact: Fact,
    pub extensions: Vec<JsonMember>,
}

/// "`<scope>` `port`", the scope a port's extensions are checked in.
pub open spec fn port_scope(scope: Seq<char>, port: Seq<char>) -> Seq<char> {
    scope + " `"@ + port + "`"@
}

/// Why a fact is refused as the fact of a port.
pub open spec fn port_fact_fault(port: Seq<char>, f: Fact) -> Option<ProtoFault> {
    match fact_refusal(f) {
        Some(x) => Some(ProtoFault::FactInvalid(port, fact_fault_text(x))),
        None => None,
    }
}

/// Why a linked input is refused: its reference, its fact, a reference to
/// another fact, or an extension shadowing a field.
pub open spec fn linked_fault(i: LinkedInput) -> Option<ProtoFault> {
    if admitted_fault(i.admitted) is Some {
        admitted_fault(i.admitted)
    } else if port_fact_fault(i.port@, i.fact) is Some {
        port_fact_fault(i.port@, i.fact)
    } else if i.admitted.fact_id@ != i.fact.id@ {
        Some(ProtoFault::FactReferenceMismatch(i.port@, i.fact.id@, i.admitted.fact_id@))
    } else {
        ext_fault(port_scope("linked input"@, i.port@), seq!["port"@, "admitted"@, "fact"@], i.extensions@)
    }
}

pub open spec fn linked_doc(i: LinkedInput) -> Json {
    with_ext(
        seq!["port"@, "admitted"@, "fact"@],
        seq![Json::Str(i.port@), admitted_doc(i.admitted), fact_document(i.fact)],
        i.extensions@,
    )
}

fn scope_text(scope: &str, port: &PortName) -> (r: String)
    ensures
        r@ == port_scope(scope@, port@),
{
    let mut m = owned(scope);
    m.append(" `");
    m.append(port.as_str());
    m.append("`");
    m
}

fn check_port_fact(port: &PortName, fact: &Fact) -> (r: Result<(), ProtocolError>)
    ensures
        r is Ok <==> port_fact_fault(port@, *fact) is None,
        r matches Err(e) ==> port_fact_fault(port@, *fact) == Some(proto_fault_of(e)),
{
    match fact.validate() {
        Ok(()) => Ok(()),
        Err(e) => Err(ProtocolError::FactInvalid { port: port.duplicate(), detail: e.message() }),
    }
}

fn linked_json(i: &LinkedInput) -> (r: JsonValue)
    ensures
        r@ == linked_doc(*i),
{
    let mut m: Vec<JsonMember> = Vec::new();
    assert(key_views(m@) =~= Seq::<Seq<char>>::empty());
    assert(value_views(m@) =~= Seq::<Json>::empty());
    push_member(&mut m, "port", json_text(i.port.as_str()));
    push_member(&mut m, "admitted", admitted_json(&i.admitted));
    push_member(&mut m, "fact", fact_json(&i.fact));
    assert(key_views(m@) =~= seq!["port"@, "admitted"@, "fact"@]);
    assert(value_views(m@) =~= seq![Json::Str(i.port@), admitted_doc(i.admitted), fact_document(i.fact)]);
    object_with(m, &i.extensions)
}

impl LinkedInput {
    /// Checks the reference, the fact, that the reference names that fact,
    /// and the extensions.
    pub fn validate_envelope(&self) -> (r: Result<(), ProtocolError>)
        ensures
            r is Ok <==> linked_fault(*self) is None,
            r matches Err(e) ==> linked_fault(*self) == Some(proto_fault_of(e)),
    {
        self.admitted.validate()?;
        check_port_fact(&self.port, &self.fact)?;
        if !self.admitted.fact_id.same_as(&self.fact.id) {
            return Err(ProtocolError::FactReferenceMismatch {
                port: self.port.duplicate(),
                expected: owned(self.fact.id.as_str()),
                actual: owned(self.admitted.fact_id.as_str()),
            });
        }
        let scope = scope_text("linked input", &self.port);
        let fields: [&str; 3] = ["port", "admitted", "fact"];
        assert(str_views(fields@) =~= seq!["port"@, "admitted"@, "fact"@]);
        check_extensions(scope.as_str(), &self.extensions, fields.as_slice())
    }

    /// A linked input needs the accepted authority-record reference as
    /// well as the fact.
    pub fn new(port: PortName, admitted: AdmittedFactRef, fact: Fact, extensions: Vec<JsonMember>) -> (r: Result<
        Self,
        ProtocolError,
    >)
        ensures
            r matches Ok(i) ==> i == (LinkedInput { port, admitted, fact, extensions }),
            r is Ok <==> linked_fault(LinkedInput { port, admitted, fact, extensions }) is None,
            r matches Err(e) ==> linked_fault(LinkedInput { port, admitted, fact, extensions }) == Some(proto_fault_of(e)),
    {
        let input = LinkedInput { port, admitted, fact, extensions };
        input.validate_envelope()?;
        Ok(input)
    }
}

/// One exact named produced fact.
#[derive(Clone, Debug, PartialEq, Eq)]
pub struct NamedOutput {
    pub port: PortName,
    pub fact: Fact,
    pub extensions: Vec<JsonMember>,
}

pub open spec fn named_fault(o: NamedOutput) -> Option<ProtoFault> {
    if port_fact_fault(o.port@, o.fact) is Some {
        port_fact_fault(o.port@, o.fact)
    } else {
        ext_fault(port_scope("named output"@, o.port@), seq!["port"@, "fact"@], o.extensions@)
    }
}

pub open spec fn named_doc(o: NamedOutput) -> Json {
    with_ext(seq!["port"@, "fact"@], seq![Json::Str(o.port@), fact_document(o.fact)], o.extensions@)
}

fn named_json(o: &NamedOutput) -> (r: JsonValue)
    ensures
        r@ == named_doc(*o),
{
    let mut m: Vec<JsonMember> = Vec::new();
    assert(key_views(m@) =~= Seq::<Seq<char>>::empty());
    assert(value_views(m@) =~= Seq::<Json>::empty());
    push_member(&mut m, "port", json_text(o.port.as_str()));
    push_member(&mut m, "fact", fact_json(&o.fact));
    assert(key_views(m@) =~= seq!["port"@, "fact"@]);
    assert(value_views(m@) =~= seq![Json::Str(o.port@), fact_document(o.fact)]);
    object_with(m, &o.extensions)
}

impl NamedOutput {
    pub fn validate_envelope(&self) -> (r: Result<(), ProtocolError>)
        ensures
            r is Ok <==> named_fault(*self) is None,
            r matches Err(e) ==> named_fault(*self) == Some(proto_fault_of(e)),
    {
        check_port_fact(&self.port, &self.fact)?;
        let scope = scope_text("named output", &self.port);
        let fields: [&str; 2] = ["port", "fact"];
        assert(str_views(fields@) =~= seq!["port"@, "fact"@]);
        check_extensions(scope.as_str(), &self.extensions, fields.as_slice())
    }

    pub fn new(port: PortName, fact: Fact, extensions: Vec<JsonMember>) -> (r: Result<Self, ProtocolError>)
        ensures
            r matches Ok(o) ==> o == (NamedOutput { port, fact, extensions }),
            r is Ok <==> named_fault(NamedOutput { port, fact, extensions }) is None,
            r matches Err(e) ==> named_fault(NamedOutput { port, fact, extensions }) == Some(proto_fault_of(e)),
    {
        let output = NamedOutput { port, fact, extensions };
        output.validate_envelope()?;
        Ok(output)
    }
}

pub open spec fn in_port_names(ports: Seq<InputPort>) -> Seq<Seq<char>> {
    Seq::new(ports.len(), |i: int| ports[i].name@)
}

pub open spec fn out_port_names(ports: Seq<OutputPort>) -> Seq<Seq<char>> {
    Seq::new(ports.len(), |i: int| ports[i].name@)
}

pub open spec fn linked_names(inputs: Seq<LinkedInput>) -> Seq<Seq<char>> {
    Seq::new(inputs.len(), |i: int| inputs[i].port@)
}

pub open spec fn named_names(outputs: Seq<NamedOutput>) -> Seq<Seq<char>> {
    Seq::new(outputs.len(), |i: int| outputs[i].port@)
}

/// The first input, from `i` on, that is refused or carries a fact of
/// another value kind than its port declares.
pub open spec fn first_input_fault(ports: Seq<InputPort>, inputs: Seq<LinkedInput>, i: int) -> Option<ProtoFault>
    decreases ports.len() - i,
{
    if i < 0 || i >= ports.len() || i >= inputs.len() {
        None
    } else if linked_fault(inputs[i]) is Some {
        linked_fault(inputs[i])
    } else if inputs[i].fact.value_kind@ != ports[i].value_kind@ {
        Some(ProtoFault::ValueKindMismatch(ports[i].name@, ports[i].value_kind@, inputs[i].fact.value_kind@))
    } else {
        first_input_fault(ports, inputs, i + 1)
    }
}

pub open spec fn first_output_fault(ports: Seq<OutputPort>, outputs: Seq<NamedOutput>, i: int) -> Option<ProtoFault>
    decreases ports.len() - i,
{
    if i < 0 || i >= ports.len() || i >= outputs.len() {
        None
    } else if named_fault(outputs[i]) is Some {
        named_fault(outputs[i])
    } else if outputs[i].fact.value_kind@ != ports[i].value_kind@ {
        Some(ProtoFault::ValueKindMismatch(ports[i].name@, ports[i].value_kind@, outputs[i].fact.value_kind@))
    } else {
        first_output_fault(ports, outputs, i + 1)
    }
}

/// Why inputs do not bind the declared input ports: the port names are
/// not exactly the declared ones in order, or an input is refused or of
/// another value kind.
pub open spec fn inputs_fault(ports: Seq<InputPort>, inputs: Seq<LinkedInput>) -> Option<ProtoFault> {
    match port_sequence_fault(in_port_names(ports), linked_names(inputs)) {
        Some(f) => Some(port_proto("input"@, f, in_port_names(ports), linked_names(inputs))),
        None => first_input_fault(ports, inputs, 0),
    }
}

pub open spec fn outputs_fault(ports: Seq<OutputPort>, outputs: Seq<NamedOutput>) -> Option<ProtoFault> {
    match port_sequence_fault(out_port_names(ports), named_names(outputs)) {
        Some(f) => Some(port_proto("output"@, f, out_port_names(ports), named_names(outputs))),
        None => first_output_fault(ports, outputs, 0),
    }
}

fn input_names(ports: &Vec<InputPort>) -> (r: Vec<PortName>)
    ensures
        port_views(r@) == in_port_names(ports@),
{
    let mut out: Vec<PortName> = Vec::new();
    let mut i: usize = 0;
    while i < ports.len()
        invariant
            i <= ports.len(),
            port_views(out@) == in_port_names(ports@).subrange(0, i as int),
        decreases ports.len() - i,
    {
        let ghost before = out@;
        out.push(ports[i].name.duplicate());
        assert(port_views(out@) =~= in_port_names(ports@).subrange(0, i + 1)) by {
            assert(port_views(out@) =~= port_views(before).push(ports@[i as int].name@));
        }
        i = i + 1;
    }
    assert(in_port_names(ports@).subrange(0, ports@.len() as int) =~= in_port_names(ports@));
    out
}

fn output_names(ports: &Vec<OutputPort>) -> (r: Vec<PortName>)
    ensures
        port_views(r@) == out_port_names(ports@),
{
    let mut out: Vec<PortName> = Vec::new();
    let mut i: usize = 0;
    while i < ports.len()
        invariant
            i <= ports.len(),
            port_views(out@) == out_port_names(ports@).subrange(0, i as int),
        decreases ports.len() - i,
    {
        let ghost before = out@;
        out.push(ports[i].name.duplicate());
        assert(port_views(out@) =~= out_port_names(ports@).subrange(0, i + 1)) by {
            assert(port_views(out@) =~= port_views(before).push(ports@[i as int].name@));
        }
        i = i + 1;
    }
    assert(out_port_names(ports@).subrange(0, ports@.len() as int) =~= out_port_names(ports@));
    out
}

fn linked_port_names(inputs: &Vec<LinkedInput>) -> (r: Vec<PortName>)
    ensures
        port_views(r@) == linked_names(inputs@),
{
    let mut out: Vec<PortName> = Vec::new();
    let mut i: usize = 0;
    while i < inputs.len()
        invariant
            i <= inputs.len(),
            port_views(out@) == linked_names(inputs@).subrange(0, i as int),
        decreases inputs.len() - i,
    {
        let ghost before = out@;
        out.push(inputs[i].port.duplicate());
        assert(port_views(out@) =~= linked_names(inputs@).subrange(0, i + 1)) by {
            assert(port_views(out@) =~= port_views(before).push(inputs@[i as int].port@));
        }
        i = i + 1;
    }
    assert(linked_names(inputs@).subrange(0, inputs@.len() as int) =~= linked_names(inputs@));
    out
}

fn named_port_names(outputs: &Vec<NamedOutput>) -> (r: Vec<PortName>)
    ensures
        port_views(r@) == named_names(outputs@),
{
    let mut out: Vec<PortName> = Vec::new();
    let mut i: usize = 0;
    while i < outputs.len()
        invariant
            i <= outputs.len(),
            port_views(out@) == named_names(outputs@).subrange(0, i as int),
        decreases outputs.len() - i,
    {
        let ghost before = out@;
        out.push(outputs[i].port.duplicate());
        assert(port_views(out@) =~= named_names(outputs@).subrange(0, i + 1)) by {
            assert(port_views(out@) =~= port_views(before).push(outputs@[i as int].port@));
        }
        i = i + 1;
    }
    assert(named_names(outputs@).subrange(0, outputs@.len() as int) =~= named_names(outputs@));
    out
}

/// Checks inputs against the declared input ports: exact names in order,
/// then each input and its value kind.
pub fn validate_inputs(ports: &Vec<InputPort>, inputs: &Vec<LinkedInput>) -> (r: Result<(), ProtocolError>)
    ensures
        r is Ok <==> inputs_fault(ports@, inputs@) is None,
        r matches Err(e) ==> inputs_fault(ports@, inputs@) == Some(proto_fault_of(e)),
{
    let expected = input_names(ports);
    let actual = linked_port_names(inputs);
    validate_named_port_sequence("input", expected.as_slice(), actual.as_slice())?;
    assert(in_port_names(ports@) == linked_names(inputs@));
    assert(in_port_names(ports@).len() == ports@.len());
    let mut i: usize = 0;
    while i < ports.len()
        invariant
            i <= ports.len(),
            ports.len() == inputs.len(),
            inputs_fault(ports@, inputs@) == first_input_fault(ports@, inputs@, i as int),
        decreases ports.len() - i,
    {
        inputs[i].validate_envelope()?;
        if !inputs[i].fact.value_kind.same_as(&ports[i].value_kind) {
            return Err(ProtocolError::ValueKindMismatch {
                port: ports[i].name.duplicate(),
                expected: ports[i].value_kind.duplicate(),
                actual: inputs[i].fact.value_kind.duplicate(),
            });
        }
        i = i + 1;
    }
    Ok(())
}

/// Checks outputs against the declared output ports: exact names in
/// order, then each output and its value kind.
pub fn validate_outputs(ports: &Vec<OutputPort>, outputs: &Vec<NamedOutput>) -> (r: Result<(), ProtocolError>)
    ensures
        r is Ok <==> outputs_fault(ports@, outputs@) is None,
        r matches Err(e) ==> outputs_fault(ports@, outputs@) == Some(proto_fault_of(e)),
{
    let expected = output_names(ports);
    let actual = named_port_names(outputs);
    validate_named_port_sequence("output", expected.as_slice(), actual.as_slice())?;
    assert(out_port_names(ports@) == named_names(outputs@));
    assert(out_port_names(ports@).len() == ports@.len());
    let mut i: usize = 0;
    while i < ports.len()
        invariant
            i <= ports.len(),
            ports.len() == outputs.len(),
            outputs_fault(ports@, outputs@) == first_output_fault(ports@, outputs@, i as int),
        decreases ports.len() - i,
    {
        outputs[i].validate_envelope()?;
        if !outputs[i].fact.value_kind.same_as(&ports[i].value_kind) {
            return Err(ProtocolError::ValueKindMismatch {
                port: ports[i].name.duplicate(),
                expected: ports[i].value_kind.duplicate(),
                actual: outputs[i].fact.value_kind.duplicate(),
            });
        }
        i = i + 1;
    }
    Ok(())
}

// ---- invocations ----

/// One content-identified, explicitly selected semantic invocation. It is
/// untrusted structural data until `validate` succeeds; validation does not
/// resolve authority records.
#[derive(Clone, Debug, PartialEq, Eq)]
pub struct CapabilityInvocation {
    pub invocation_id: Sha256Digest,
    pub protocol: String,
    pub specification: CapabilitySpec,
    pub selection: ImplementationSelection,
    pub inputs: Vec<LinkedInput>,
    pub conformance_suite: ExactId,
    pub extensions: Vec<JsonMember>,
}

pub open spec fn invocation_fields() -> Seq<Seq<char>> {
    seq!["invocation_id"@, "protocol"@, "specification"@, "selection"@, "inputs"@, "conformance_suite"@]
}

/// Why a declaration, selection, inputs, suite and extensions cannot form
/// an invocation: an invalid declaration, a refused selection, a malformed
/// suite, an offer for another capability, a shadowing extension, or
/// inputs that do not bind the declared input ports.
pub open spec fn invocation_parts_fault(
    spec: CapabilitySpec,
    selection: ImplementationSelection,
    inputs: Seq<LinkedInput>,
    suite: IdView,
    extensions: Seq<JsonMember>,
) -> Option<ProtoFault> {
    if spec_rejection(spec) is Some {
        Some(ProtoFault::InvalidCapability(invalid_capability_text(spec.id@, spec_rejection(spec).unwrap())))
    } else if selection_fault(selection) is Some {
        selection_fault(selection)
    } else if exact_fault("conformance_suite"@, suite) is Some {
        exact_fault("conformance_suite"@, suite)
    } else if selection.offer.capability@ != spec.id@ {
        Some(ProtoFault::OfferCapabilityMismatch(selection.offer.capability@, spec.id@))
    } else if ext_fault("capability invocation"@, invocation_fields(), extensions) is Some {
        ext_fault("capability invocation"@, invocation_fields(), extensions)
    } else {
        inputs_fault(spec.input_ports@, inputs)
    }
}

pub open spec fn invocation_structure_fault(v: CapabilityInvocation) -> Option<ProtoFault> {
    if v.protocol@ != INVOCATION_PROTOCOL@ {
        Some(ProtoFault::ProtocolMismatch(INVOCATION_PROTOCOL@, v.protocol@))
    } else {
        invocation_parts_fault(v.specification, v.selection, v.inputs@, v.conformance_suite@, v.extensions@)
    }
}

pub open spec fn linked_docs(inputs: Seq<LinkedInput>) -> Json {
    Json::Array(Seq::new(inputs.len(), |i: int| linked_doc(inputs[i])))
}

/// An invocation document without its identity.
pub open spec fn invocation_body_of(
    protocol: Seq<char>,
    spec: CapabilitySpec,
    selection: ImplementationSelection,
    inputs: Seq<LinkedInput>,
    suite: IdView,
    extensions: Seq<JsonMember>,
) -> Json {
    with_ext(
        seq!["protocol"@, "specification"@, "selection"@, "inputs"@, "conformance_suite"@],
        seq![Json::Str(protocol), spec_doc(spec), selection_doc(selection), linked_docs(inputs), id_doc(suite)],
        extensions,
    )
}

pub open spec fn invocation_body(v: CapabilityInvocation) -> Json {
    invocation_body_of(v.protocol@, v.specification, v.selection, v.inputs@, v.conformance_suite@, v.extensions@)
}

/// The complete invocation document.
pub open spec fn invocation_doc(v: CapabilityInvocation) -> Json {
    with_ext(
        invocation_fields(),
        seq![
            Json::Str(v.invocation_id@),
            Json::Str(v.protocol@),
            spec_doc(v.specification),
            selection_doc(v.selection),
            linked_docs(v.inputs@),
            id_doc(v.conformance_suite@),
        ],
        v.extensions@,
    )
}

/// Why an invocation is refused, or nothing: its structure, then its
/// identity.
pub open spec fn invocation_fault(v: CapabilityInvocation) -> Option<ProtoFault> {
    match invocation_structure_fault(v) {
        Some(f) => Some(f),
        None => id_fault("invocation"@, invocation_body(v), v.invocation_id@),
    }
}

fn linked_array(inputs: &Vec<LinkedInput>) -> (r: JsonValue)
    ensures
        r@ == linked_docs(inputs@),
{
    let mut items: Vec<JsonValue> = Vec::new();
    let mut i: usize = 0;
    while i < inputs.len()
        invariant
            i <= inputs.len(),
            crate::json::item_views(items@) == Seq::new(i as nat, |k: int| linked_doc(inputs@[k])),
        decreases inputs.len() - i,
    {
        let ghost before = items@;
        items.push(linked_json(&inputs[i]));
        assert(crate::json::item_views(items@) =~= Seq::new((i + 1) as nat, |k: int| linked_doc(inputs@[k]))) by {
            assert(crate::json::item_views(items@) =~= crate::json::item_views(before).push(linked_doc(inputs@[i as int])));
        }
        i = i + 1;
    }
    json_array(items)
}

fn invocation_body_json(v: &CapabilityInvocation) -> (r: JsonValue)
    ensures
        r@ == invocation_body(*v),
{
    let mut m: Vec<JsonMember> = Vec::new();
    assert(key_views(m@) =~= Seq::<Seq<char>>::empty());
    assert(value_views(m@) =~= Seq::<Json>::empty());
    push_member(&mut m, "protocol", json_text(v.protocol.as_str()));
    push_member(&mut m, "specification", spec_json(&v.specification));
    push_member(&mut m, "selection", selection_json(&v.selection));
    push_member(&mut m, "inputs", linked_array(&v.inputs));
    push_member(&mut m, "conformance_suite", id_json(&v.conformance_suite));
    assert(key_views(m@) =~= seq!["protocol"@, "specification"@, "selection"@, "inputs"@, "conformance_suite"@]);
    assert(value_views(m@) =~= seq![
        Json::Str(v.protocol@),
        spec_doc(v.specification),
        selection_doc(v.selection),
        linked_docs(v.inputs@),
        id_doc(v.conformance_suite@),
    ]);
    object_with(m, &v.extensions)
}

/// The complete invocation document.
pub fn invocation_json(v: &CapabilityInvocation) -> (r: JsonValue)
    ensures
        r@ == invocation_doc(*v),
{
    let mut m: Vec<JsonMember> = Vec::new();
    assert(key_views(m@) =~= Seq::<Seq<char>>::empty());
    assert(value_views(m@) =~= Seq::<Json>::empty());
    push_member(&mut m, "invocation_id", json_text(v.invocation_id.as_str()));
    push_member(&mut m, "protocol", json_text(v.protocol.as_str()));
    push_member(&mut m, "specification", spec_json(&v.specification));
    push_member(&mut m, "selection", selection_json(&v.selection));
    push_member(&mut m, "inputs", linked_array(&v.inputs));
    push_member(&mut m, "conformance_suite", id_json(&v.conformance_suite));
    assert(key_views(m@) =~= invocation_fields());
    assert(value_views(m@) =~= seq![
        Json::Str(v.invocation_id@),
        Json::Str(v.protocol@),
        spec_doc(v.specification),
        selection_doc(v.selection),
        linked_docs(v.inputs@),
        id_doc(v.conformance_suite@),
    ]);
    object_with(m, &v.extensions)
}

impl CapabilityInvocation {
    fn validate_structure(&self) -> (r: Result<(), ProtocolError>)
        ensures
            r is Ok <==> invocation_structure_fault(*self) is None,
            r matches Err(e) ==> invocation_structure_fault(*self) == Some(proto_fault_of(e)),
    {
        check_protocol(INVOCATION_PROTOCOL, self.protocol.as_str())?;
        match validate_spec(&self.specification) {
            Ok(()) => {},
            Err(e) => {
                let text = match &e {
                    RegistryError::InvalidCapability { capability, reason } => invalid_need_text(&self.specification.id, reason),
                    _ => owned(""),
                };
                return Err(ProtocolError::InvalidCapability(text));
            },
        }
        self.selection.validate()?;
        check_exact("conformance_suite", &self.conformance_suite)?;
        if !self.selection.offer.capability.same_as(&self.specification.id) {
            return Err(ProtocolError::OfferCapabilityMismatch {
                offered: self.selection.offer.capability.duplicate(),
                invoked: self.specification.id.duplicate(),
            });
        }
        let fields: [&str; 6] = ["invocation_id", "protocol", "specification", "selection", "inputs", "conformance_suite"];
        assert(str_views(fields@) =~= invocation_fields());
        check_extensions("capability invocation", &self.extensions, fields.as_slice())?;
        validate_inputs(&self.specification.input_ports, &self.inputs)
    }

    /// Revalidates the structure and the content-derived identity.
    pub fn validate(&self) -> (r: Result<(), ProtocolError>)
        ensures
            r is Ok <==> invocation_fault(*self) is None,
            r matches Err(e) ==> invocation_fault(*self) == Some(proto_fault_of(e)),
    {
        self.validate_structure()?;
        let body = invocation_body_json(self);
        check_id("invocation", &body, &self.invocation_id)
    }

    /// An invocation of this declaration through the selected offer with
    /// these inputs, identified by its content.
    pub fn new(
        specification: CapabilitySpec,
        selection: ImplementationSelection,
        inputs: Vec<LinkedInput>,
        conformance_suite: ExactId,
        extensions: Vec<JsonMember>,
    ) -> (r: Result<Self, ProtocolError>)
        ensures
            r matches Ok(v) ==> v.protocol@ == INVOCATION_PROTOCOL@ && v.specification == specification && v.selection
                == selection && v.inputs == inputs && v.conformance_suite == conformance_suite && v.extensions == extensions
                && invocation_fault(v) is None,
            r is Ok <==> invocation_parts_fault(specification, selection, inputs@, conformance_suite@, extensions@) is None
                && content_id(
                invocation_body_of(INVOCATION_PROTOCOL@, specification, selection, inputs@, conformance_suite@, extensions@),
            ) is Some,
            r matches Err(e) ==> proto_fault_of(e) == first_or_serialization(
                invocation_parts_fault(specification, selection, inputs@, conformance_suite@, extensions@),
            ),
    {
        let mut invocation = CapabilityInvocation {
            invocation_id: placeholder_sha256(),
            protocol: owned(INVOCATION_PROTOCOL),
            specification,
            selection,
            inputs,
            conformance_suite,
            extensions,
        };
        invocation.validate_structure()?;
        let body = invocation_body_json(&invocation);
        invocation.invocation_id = derive_id(&body)?;
        Ok(invocation)
    }
}

// ---- results and candidates ----

/// Produced outputs and inability are disjoint by construction.
#[derive(Clone, Debug, PartialEq, Eq)]
pub enum CapabilityOutcome {
    Produced { outputs: Vec<NamedOutput>, extensions: Vec<JsonMember> },
    Unable { failure: CapabilityFailure, extensions: Vec<JsonMember> },
}

pub open spec fn named_docs(outputs: Seq<NamedOutput>) -> Json {
    Json::Array(Seq::new(outputs.len(), |i: int| named_doc(outputs[i])))
}

/// The outcome document, tagged by `status`.
pub open spec fn outcome_doc(o: CapabilityOutcome) -> Json {
    match o {
        CapabilityOutcome::Produced { outputs, extensions } => with_ext(
            seq!["status"@, "outputs"@],
            seq![Json::Str("produced"@), named_docs(outputs@)],
            extensions@,
        ),
        CapabilityOutcome::Unable { failure, extensions } => with_ext(
            seq!["status"@, "failure"@],
            seq![Json::Str("unable"@), failure_doc(failure)],
            extensions@,
        ),
    }
}

/// Why an outcome is refused for these declared output ports: a shadowing
/// extension, then the outputs or the failure.
pub open spec fn outcome_fault(o: CapabilityOutcome, ports: Seq<OutputPort>) -> Option<ProtoFault> {
    match o {
        CapabilityOutcome::Produced { outputs, extensions } => {
            let f = ext_fault("produced outcome"@, seq!["status"@, "outputs"@, "failure"@], extensions@);
            if f is Some {
                f
            } else {
                outputs_fault(ports, outputs@)
            }
        },
        CapabilityOutcome::Unable { failure, extensions } => {
            let f = ext_fault("unable outcome"@, seq!["status"@, "failure"@, "outputs"@], extensions@);
            if f is Some {
                f
            } else {
                failure_fault(failure)
            }
        },
    }
}

/// One content-identified neutral result returned by an execution host.
/// A valid result is still untrusted: it becomes candidate material only
/// for the exact invocation it names, and admission stays separate.
#[derive(Clone, Debug, PartialEq, Eq)]
pub struct CapabilityResult {
    pub result_id: Sha256Digest,
    pub protocol: String,
    pub invocation_id: Sha256Digest,
    pub outcome: CapabilityOutcome,
    pub evidence: Vec<EvidenceRef>,
    pub extensions: Vec<JsonMember>,
}

pub open spec fn result_fields() -> Seq<Seq<char>> {
    seq!["result_id"@, "protocol"@, "invocation_id"@, "outcome"@, "evidence"@]
}

/// The first refused evidence reference, from `i` on.
pub open spec fn first_evidence_fault(evidence: Seq<EvidenceRef>, i: int) -> Option<ProtoFault>
    decreases evidence.len() - i,
{
    if i < 0 || i >= evidence.len() {
        None
    } else if evidence_fault(evidence[i]) is Some {
        evidence_fault(evidence[i])
    } else {
        first_evidence_fault(evidence, i + 1)
    }
}

/// Why an outcome, evidence and extensions cannot form a result of this
/// invocation.
pub open spec fn result_parts_fault(
    invocation: CapabilityInvocation,
    outcome: CapabilityOutcome,
    evidence: Seq<EvidenceRef>,
    extensions: Seq<JsonMember>,
) -> Option<ProtoFault> {
    if ext_fault("capability result"@, result_fields(), extensions) is Some {
        ext_fault("capability result"@, result_fields(), extensions)
    } else if first_evidence_fault(evidence, 0) is Some {
        first_evidence_fault(evidence, 0)
    } else {
        outcome_fault(outcome, invocation.specification.output_ports@)
    }
}

/// Why a new result of this invocation is refused: the invocation itself,
/// then the parts.
pub open spec fn result_new_fault(
    invocation: CapabilityInvocation,
    outcome: CapabilityOutcome,
    evidence: Seq<EvidenceRef>,
    extensions: Seq<JsonMember>,
) -> Option<ProtoFault> {
    if invocation_fault(invocation) is Some {
        invocation_fault(invocation)
    } else {
        result_parts_fault(invocation, outcome, evidence, extensions)
    }
}

pub open spec fn result_structure_fault(r: CapabilityResult, invocation: CapabilityInvocation) -> Option<ProtoFault> {
    if invocation_fault(invocation) is Some {
        invocation_fault(invocation)
    } else if r.protocol@ != RESULT_PROTOCOL@ {
        Some(ProtoFault::ProtocolMismatch(RESULT_PROTOCOL@, r.protocol@))
    } else if r.invocation_id@ != invocation.invocation_id@ {
        Some(ProtoFault::InvocationCorrelationMismatch(invocation.invocation_id@, r.invocation_id@))
    } else {
        result_parts_fault(invocation, r.outcome, r.evidence@, r.extensions@)
    }
}

pub open spec fn evidence_docs(evidence: Seq<EvidenceRef>) -> Json {
    Json::Array(Seq::new(evidence.len(), |i: int| evidence_doc(evidence[i])))
}

/// A result document without its identity.
pub open spec fn result_body_of(
    protocol: Seq<char>,
    invocation_id: Seq<char>,
    outcome: CapabilityOutcome,
    evidence: Seq<EvidenceRef>,
    extensions: Seq<JsonMember>,
) -> Json {
    with_ext(
        seq!["protocol"@, "invocation_id"@, "outcome"@, "evidence"@],
        seq![Json::Str(protocol), Json::Str(invocation_id), outcome_doc(outcome), evidence_docs(evidence)],
        extensions,
    )
}

pub open spec fn result_body(r: CapabilityResult) -> Json {
    result_body_of(r.protocol@, r.invocation_id@, r.outcome, r.evidence@, r.extensions@)
}

/// The complete result document.
pub open spec fn result_doc(r: CapabilityResult) -> Json {
    with_ext(
        result_fields(),
        seq![
            Json::Str(r.result_id@),
            Json::Str(r.protocol@),
            Json::Str(r.invocation_id@),
            outcome_doc(r.outcome),
            evidence_docs(r.evidence@),
        ],
        r.extensions@,
    )
}

/// Why a result is refused for this invocation, or nothing: its structure,
/// then its identity.
pub open spec fn result_fault(r: CapabilityResult, invocation: CapabilityInvocation) -> Option<ProtoFault> {
    match result_structure_fault(r, invocation) {
        Some(f) => Some(f),
        None => id_fault("result"@, result_body(r), r.result_id@),
    }
}

fn named_array(outputs: &Vec<NamedOutput>) -> (r: JsonValue)
    ensures
        r@ == named_docs(outputs@),
{
    let mut items: Vec<JsonValue> = Vec::new();
    let mut i: usize = 0;
    while i < outputs.len()
        invariant
            i <= outputs.len(),
            crate::json::item_views(items@) == Seq::new(i as nat, |k: int| named_doc(outputs@[k])),
        decreases outputs.len() - i,
    {
        let ghost before = items@;
        items.push(named_json(&outputs[i]));
        assert(crate::json::item_views(items@) =~= Seq::new((i + 1) as nat, |k: int| named_doc(outputs@[k]))) by {
            assert(crate::json::item_views(items@) =~= crate::json::item_views(before).push(named_doc(outputs@[i as int])));
        }
        i = i + 1;
    }
    json_array(items)
}

fn evidence_array(evidence: &Vec<EvidenceRef>) -> (r: JsonValue)
    ensures
        r@ == evidence_docs(evidence@),
{
    let mut items: Vec<JsonValue> = Vec::new();
    let mut i: usize = 0;
    while i < evidence.len()
        invariant
            i <= evidence.len(),
            crate::json::item_views(items@) == Seq::new(i as nat, |k: int| evidence_doc(evidence@[k])),
        decreases evidence.len() - i,
    {
        let ghost before = items@;
        items.push(evidence_json(&evidence[i]));
        assert(crate::json::item_views(items@) =~= Seq::new((i + 1) as nat, |k: int| evidence_doc(evidence@[k]))) by {
            assert(crate::json::item_views(items@) =~= crate::json::item_views(before).push(evidence_doc(evidence@[i as int])));
        }
        i = i + 1;
    }
    json_array(items)
}

fn outcome_json(o: &CapabilityOutcome) -> (r: JsonValue)
    ensures
        r@ == outcome_doc(*o),
{
    let mut m: Vec<JsonMember> = Vec::new();
    assert(key_views(m@) =~= Seq::<Seq<char>>::empty());
    assert(value_views(m@) =~= Seq::<Json>::empty());
    match o {
        CapabilityOutcome::Produced { outputs, extensions } => {
            push_member(&mut m, "status", json_text("produced"));
            push_member(&mut m, "outputs", named_array(outputs));
            assert(key_views(m@) =~= seq!["status"@, "outputs"@]);
            assert(value_views(m@) =~= seq![Json::Str("produced"@), named_docs(outputs@)]);
            object_with(m, extensions)
        },
        CapabilityOutcome::Unable { failure, extensions } => {
            push_member(&mut m, "status", json_text("unable"));
            push_member(&mut m, "failure", failure_json(failure));
            assert(key_views(m@) =~= seq!["status"@, "failure"@]);
            assert(value_views(m@) =~= seq![Json::Str("unable"@), failure_doc(*failure)]);
            object_with(m, extensions)
        },
    }
}

fn result_body_json(r: &CapabilityResult) -> (j: JsonValue)
    ensures
        j@ == result_body(*r),
{
    let mut m: Vec<JsonMember> = Vec::new();
    assert(key_views(m@) =~= Seq::<Seq<char>>::empty());
    assert(value_views(m@) =~= Seq::<Json>::empty());
    push_member(&mut m, "protocol", json_text(r.protocol.as_str()));
    push_member(&mut m, "invocation_id", json_text(r.invocation_id.as_str()));
    push_member(&mut m, "outcome", outcome_json(&r.outcome));
    push_member(&mut m, "evidence", evidence_array(&r.evidence));
    assert(key_views(m@) =~= seq!["protocol"@, "invocation_id"@, "outcome"@, "evidence"@]);
    assert(value_views(m@) =~= seq![
        Json::Str(r.protocol@),
        Json::Str(r.invocation_id@),
        outcome_doc(r.outcome),
        evidence_docs(r.evidence@),
    ]);
    object_with(m, &r.extensions)
}

/// The complete result document.
pub fn result_json(r: &CapabilityResult) -> (j: JsonValue)
    ensures
        j@ == result_doc(*r),
{
    let mut m: Vec<JsonMember> = Vec::new();
    assert(key_views(m@) =~= Seq::<Seq<char>>::empty());
    assert(value_views(m@) =~= Seq::<Json>::empty());
    push_member(&mut m, "result_id", json_text(r.result_id.as_str()));
    push_member(&mut m, "protocol", json_text(r.protocol.as_str()));
    push_member(&mut m, "invocation_id", json_text(r.invocation_id.as_str()));
    push_member(&mut m, "outcome", outcome_json(&r.outcome));
    push_member(&mut m, "evidence", evidence_array(&r.evidence));
    assert(key_views(m@) =~= result_fields());
    assert(value_views(m@) =~= seq![
        Json::Str(r.result_id@),
        Json::Str(r.protocol@),
        Json::Str(r.invocation_id@),
        outcome_doc(r.outcome),
        evidence_docs(r.evidence@),
    ]);
    object_with(m, &r.extensions)
}

fn check_outcome(o: &CapabilityOutcome, ports: &Vec<OutputPort>) -> (r: Result<(), ProtocolError>)
    ensures
        r is Ok <==> outcome_fault(*o, ports@) is None,
        r matches Err(e) ==> outcome_fault(*o, ports@) == Some(proto_fault_of(e)),
{
    match o {
        CapabilityOutcome::Produced { outputs, extensions } => {
            let fields: [&str; 3] = ["status", "outputs", "failure"];
            assert(str_views(fields@) =~= seq!["status"@, "outputs"@, "failure"@]);
            check_extensions("produced outcome", extensions, fields.as_slice())?;
            validate_outputs(ports, outputs)
        },
        CapabilityOutcome::Unable { failure, extensions } => {
            let fields: [&str; 3] = ["status", "failure", "outputs"];
            assert(str_views(fields@) =~= seq!["status"@, "failure"@, "outputs"@]);
            check_extensions("unable outcome", extensions, fields.as_slice())?;
            failure.validate()
        },
    }
}

fn check_evidence(evidence: &Vec<EvidenceRef>) -> (r: Result<(), ProtocolError>)
    ensures
        r is Ok <==> first_evidence_fault(evidence@, 0) is None,
        r matches Err(e) ==> first_evidence_fault(evidence@, 0) == Some(proto_fault_of(e)),
{
    let mut i: usize = 0;
    while i < evidence.len()
        invariant
            i <= evidence.len(),
            first_evidence_fault(evidence@, 0) == first_evidence_fault(evidence@, i as int),
        decreases evidence.len() - i,
    {
        evidence[i].validate()?;
        i = i + 1;
    }
    Ok(())
}

fn check_result_parts(
    invocation: &CapabilityInvocation,
    outcome: &CapabilityOutcome,
    evidence: &Vec<EvidenceRef>,
    extensions: &Vec<JsonMember>,
) -> (r: Result<(), ProtocolError>)
    ensures
        r is Ok <==> result_parts_fault(*invocation, *outcome, evidence@, extensions@) is None,
        r matches Err(e) ==> result_parts_fault(*invocation, *outcome, evidence@, extensions@) == Some(proto_fault_of(e)),
{
    let fields: [&str; 5] = ["result_id", "protocol", "invocation_id", "outcome", "evidence"];
    assert(str_views(fields@) =~= result_fields());
    check_extensions("capability result", extensions, fields.as_slice())?;
    check_evidence(evidence)?;
    check_outcome(outcome, &invocation.specification.output_ports)
}

impl CapabilityResult {
    fn validate_structure_against(&self, invocation: &CapabilityInvocation) -> (r: Result<(), ProtocolError>)
        ensures
            r is Ok <==> result_structure_fault(*self, *invocation) is None,
            r matches Err(e) ==> result_structure_fault(*self, *invocation) == Some(proto_fault_of(e)),
    {
        invocation.validate()?;
        check_protocol(RESULT_PROTOCOL, self.protocol.as_str())?;
        if !self.invocation_id.same_as(&invocation.invocation_id) {
            return Err(ProtocolError::InvocationCorrelationMismatch {
                expected: invocation.invocation_id.duplicate(),
                actual: self.invocation_id.duplicate(),
            });
        }
        check_result_parts(invocation, &self.outcome, &self.evidence, &self.extensions)
    }

    /// Revalidates the invocation, the structure against it, and the
    /// content-derived identity.
    pub fn validate_against(&self, invocation: &CapabilityInvocation) -> (r: Result<(), ProtocolError>)
        ensures
            r is Ok <==> result_fault(*self, *invocation) is None,
            r matches Err(e) ==> result_fault(*self, *invocation) == Some(proto_fault_of(e)),
    {
        self.validate_structure_against(invocation)?;
        let body = result_body_json(self);
        check_id("result", &body, &self.result_id)
    }

    pub fn is_produced(&self) -> (r: bool)
        ensures
            r == (self.outcome is Produced),
    {
        match self.outcome {
            CapabilityOutcome::Produced { .. } => true,
            CapabilityOutcome::Unable { .. } => false,
        }
    }

    fn of_outcome(
        invocation: &CapabilityInvocation,
        outcome: CapabilityOutcome,
        evidence: Vec<EvidenceRef>,
        extensions: Vec<JsonMember>,
    ) -> (r: Result<Self, ProtocolError>)
        ensures
            r matches Ok(x) ==> x.protocol@ == RESULT_PROTOCOL@ && x.invocation_id@ == invocation.invocation_id@ && x.outcome
                == outcome && x.evidence == evidence && x.extensions == extensions && result_fault(x, *invocation) is None,
            r is Ok <==> result_new_fault(*invocation, outcome, evidence@, extensions@) is None && content_id(
                result_body_of(RESULT_PROTOCOL@, invocation.invocation_id@, outcome, evidence@, extensions@),
            ) is Some,
            r matches Err(e) ==> proto_fault_of(e) == first_or_serialization(
                result_new_fault(*invocation, outcome, evidence@, extensions@),
            ),
    {
        let mut result = CapabilityResult {
            result_id: placeholder_sha256(),
            protocol: owned(RESULT_PROTOCOL),
            invocation_id: invocation.invocation_id.duplicate(),
            outcome,
            evidence,
            extensions,
        };
        result.validate_structure_against(invocation)?;
        let body = result_body_json(&result);
        result.result_id = derive_id(&body)?;
        Ok(result)
    }

    /// A result of this invocation that produced these outputs.
    pub fn produced(
        invocation: &CapabilityInvocation,
        outputs: Vec<NamedOutput>,
        outcome_extensions: Vec<JsonMember>,
        evidence: Vec<EvidenceRef>,
        extensions: Vec<JsonMember>,
    ) -> (r: Result<Self, ProtocolError>)
        ensures
            r matches Ok(x) ==> x.protocol@ == RESULT_PROTOCOL@ && x.invocation_id@ == invocation.invocation_id@ && x.outcome
                == (CapabilityOutcome::Produced { outputs, extensions: outcome_extensions }) && x.evidence == evidence
                && x.extensions == extensions && result_fault(x, *invocation) is None,
            r is Ok <==> result_new_fault(
                *invocation,
                CapabilityOutcome::Produced { outputs, extensions: outcome_extensions },
                evidence@,
                extensions@,
            ) is None && content_id(
                result_body_of(
                    RESULT_PROTOCOL@,
                    invocation.invocation_id@,
                    CapabilityOutcome::Produced { outputs, extensions: outcome_extensions },
                    evidence@,
                    extensions@,
                ),
            ) is Some,
            r matches Err(e) ==> proto_fault_of(e) == first_or_serialization(
                result_new_fault(
                    *invocation,
                    CapabilityOutcome::Produced { outputs, extensions: outcome_extensions },
                    evidence@,
                    extensions@,
                ),
            ),
    {
        Self::of_outcome(invocation, CapabilityOutcome::Produced { outputs, extensions: outcome_extensions }, evidence, extensions)
    }

    /// A result of this invocation reporting that it could not produce
    /// outputs.
    pub fn unable(
        invocation: &CapabilityInvocation,
        failure: CapabilityFailure,
        outcome_extensions: Vec<JsonMember>,
        evidence: Vec<EvidenceRef>,
        extensions: Vec<JsonMember>,
    ) -> (r: Result<Self, ProtocolError>)
        ensures
            r matches Ok(x) ==> x.protocol@ == RESULT_PROTOCOL@ && x.invocation_id@ == invocation.invocation_id@ && x.outcome
                == (CapabilityOutcome::Unable { failure, extensions: outcome_extensions }) && x.evidence == evidence
                && x.extensions == extensions && result_fault(x, *invocation) is None,
            r is Ok <==> result_new_fault(
                *invocation,
                CapabilityOutcome::Unable { failure, extensions: outcome_extensions },
                evidence@,
                extensions@,
            ) is None && content_id(
                result_body_of(
                    RESULT_PROTOCOL@,
                    invocation.invocation_id@,
                    CapabilityOutcome::Unable { failure, extensions: outcome_extensions },
                    evidence@,
                    extensions@,
                ),
            ) is Some,
            r matches Err(e) ==> proto_fault_of(e) == first_or_serialization(
                result_new_fault(
                    *invocation,
                    CapabilityOutcome::Unable { failure, extensions: outcome_extensions },
                    evidence@,
                    extensions@,
                ),
            ),
    {
        Self::of_outcome(invocation, CapabilityOutcome::Unable { failure, extensions: outcome_extensions }, evidence, extensions)
    }
}

/// One content-identified untrusted candidate holding the exact produced
/// result; there is no second output list that could disagree with it.
#[derive(Clone, Debug, PartialEq, Eq)]
pub struct CapabilityCandidate {
    pub candidate_id: Sha256Digest,
    pub protocol: String,
    pub invocation_id: Sha256Digest,
    pub result: CapabilityResult,
    pub extensions: Vec<JsonMember>,
}

/// The fields a candidate's extensions may not use: its own, and an
/// output list under another name.
pub open spec fn candidate_fields() -> Seq<Seq<char>> {
    seq!["candidate_id"@, "protocol"@, "invocation_id"@, "result"@, "outputs"@]
}

/// Why a result and extensions cannot form a candidate of this
/// invocation: the result is refused, reports inability, or an extension
/// shadows a field.
pub open spec fn candidate_parts_fault(
    invocation: CapabilityInvocation,
    result: CapabilityResult,
    extensions: Seq<JsonMember>,
) -> Option<ProtoFault> {
    if result_fault(result, invocation) is Some {
        result_fault(result, invocation)
    } else if !(result.outcome is Produced) {
        Some(ProtoFault::UnableResultCannotBecomeCandidate)
    } else {
        ext_fault("capability candidate"@, candidate_fields(), extensions)
    }
}

pub open spec fn candidate_structure_fault(c: CapabilityCandidate, invocation: CapabilityInvocation) -> Option<ProtoFault> {
    if c.protocol@ != CANDIDATE_PROTOCOL@ {
        Some(ProtoFault::ProtocolMismatch(CANDIDATE_PROTOCOL@, c.protocol@))
    } else if c.invocation_id@ != invocation.invocation_id@ {
        Some(ProtoFault::InvocationCorrelationMismatch(invocation.invocation_id@, c.invocation_id@))
    } else {
        candidate_parts_fault(invocation, c.result, c.extensions@)
    }
}

pub open spec fn candidate_body_of(
    protocol: Seq<char>,
    invocation_id: Seq<char>,
    result: CapabilityResult,
    extensions: Seq<JsonMember>,
) -> Json {
    with_ext(
        seq!["protocol"@, "invocation_id"@, "result"@],
        seq![Json::Str(protocol), Json::Str(invocation_id), result_doc(result)],
        extensions,
    )
}

pub open spec fn candidate_body(c: CapabilityCandidate) -> Json {
    candidate_body_of(c.protocol@, c.invocation_id@, c.result, c.extensions@)
}

pub open spec fn candidate_doc(c: CapabilityCandidate) -> Json {
    with_ext(
        seq!["candidate_id"@, "protocol"@, "invocation_id"@, "result"@],
        seq![Json::Str(c.candidate_id@), Json::Str(c.protocol@), Json::Str(c.invocation_id@), result_doc(c.result)],
        c.extensions@,
    )
}

/// Why a candidate is refused for this invocation, or nothing.
pub open spec fn candidate_fault(c: CapabilityCandidate, invocation: CapabilityInvocation) -> Option<ProtoFault> {
    match candidate_structure_fault(c, invocation) {
        Some(f) => Some(f),
        None => id_fault("candidate"@, candidate_body(c), c.candidate_id@),
    }
}

fn candidate_body_json(c: &CapabilityCandidate) -> (r: JsonValue)
    ensures
        r@ == candidate_body(*c),
{
    let mut m: Vec<JsonMember> = Vec::new();
    assert(key_views(m@) =~= Seq::<Seq<char>>::empty());
    assert(value_views(m@) =~= Seq::<Json>::empty());
    push_member(&mut m, "protocol", json_text(c.protocol.as_str()));
    push_member(&mut m, "invocation_id", json_text(c.invocation_id.as_str()));
    push_member(&mut m, "result", result_json(&c.result));
    assert(key_views(m@) =~= seq!["protocol"@, "invocation_id"@, "result"@]);
    assert(value_views(m@) =~= seq![Json::Str(c.protocol@), Json::Str(c.invocation_id@), result_doc(c.result)]);
    object_with(m, &c.extensions)
}

/// The complete candidate document.
pub fn candidate_json(c: &CapabilityCandidate) -> (r: JsonValue)
    ensures
        r@ == candidate_doc(*c),
{
    let mut m: Vec<JsonMember> = Vec::new();
    assert(key_views(m@) =~= Seq::<Seq<char>>::empty());
    assert(value_views(m@) =~= Seq::<Json>::empty());
    push_member(&mut m, "candidate_id", json_text(c.candidate_id.as_str()));
    push_member(&mut m, "protocol", json_text(c.protocol.as_str()));
    push_member(&mut m, "invocation_id", json_text(c.invocation_id.as_str()));
    push_member(&mut m, "result", result_json(&c.result));
    assert(key_views(m@) =~= seq!["candidate_id"@, "protocol"@, "invocation_id"@, "result"@]);
    assert(value_views(m@) =~= seq![
        Json::Str(c.candidate_id@),
        Json::Str(c.protocol@),
        Json::Str(c.invocation_id@),
        result_doc(c.result),
    ]);
    object_with(m, &c.extensions)
}

impl CapabilityCandidate {
    fn validate_structure_against(&self, invocation: &CapabilityInvocation) -> (r: Result<(), ProtocolError>)
        ensures
            r is Ok <==> candidate_structure_fault(*self, *invocation) is None,
            r matches Err(e) ==> candidate_structure_fault(*self, *invocation) == Some(proto_fault_of(e)),
    {
        check_protocol(CANDIDATE_PROTOCOL, self.protocol.as_str())?;
        if !self.invocation_id.same_as(&invocation.invocation_id) {
            return Err(ProtocolError::InvocationCorrelationMismatch {
                expected: invocation.invocation_id.duplicate(),
                actual: self.invocation_id.duplicate(),
            });
        }
        self.result.validate_against(invocation)?;
        if !self.result.is_produced() {
            return Err(ProtocolError::UnableResultCannotBecomeCandidate);
        }
        let fields: [&str; 5] = ["candidate_id", "protocol", "invocation_id", "result", "outputs"];
        assert(str_views(fields@) =~= candidate_fields());
        check_extensions("capability candidate", &self.extensions, fields.as_slice())
    }

    /// Revalidates the structure against the invocation and the
    /// content-derived identity.
    pub fn validate_against(&self, invocation: &CapabilityInvocation) -> (r: Result<(), ProtocolError>)
        ensures
            r is Ok <==> candidate_fault(*self, *invocation) is None,
            r matches Err(e) ==> candidate_fault(*self, *invocation) == Some(proto_fault_of(e)),
    {
        self.validate_structure_against(invocation)?;
        let body = candidate_body_json(self);
        check_id("candidate", &body, &self.candidate_id)
    }

    /// The candidate of a produced result of this invocation; a result
    /// reporting inability cannot become one.
    pub fn new(invocation: &CapabilityInvocation, result: CapabilityResult, extensions: Vec<JsonMember>) -> (r: Result<
        Self,
        ProtocolError,
    >)
        ensures
            r matches Ok(c) ==> c.protocol@ == CANDIDATE_PROTOCOL@ && c.invocation_id@ == invocation.invocation_id@ && c.result
                == result && c.extensions == extensions && candidate_fault(c, *invocation) is None,
            r is Ok <==> candidate_parts_fault(*invocation, result, extensions@) is None && content_id(
                candidate_body_of(CANDIDATE_PROTOCOL@, invocation.invocation_id@, result, extensions@),
            ) is Some,
            r matches Err(e) ==> proto_fault_of(e) == first_or_serialization(
                candidate_parts_fault(*invocation, result, extensions@),
            ),
    {
        result.validate_against(invocation)?;
        if !result.is_produced() {
            return Err(ProtocolError::UnableResultCannotBecomeCandidate);
        }
        let mut candidate = CapabilityCandidate {
            candidate_id: placeholder_sha256(),
            protocol: owned(CANDIDATE_PROTOCOL),
            invocation_id: invocation.invocation_id.duplicate(),
            result,
            extensions,
        };
        candidate.validate_structure_against(invocation)?;
        let body = candidate_body_json(&candidate);
        candidate.candidate_id = derive_id(&body)?;
        Ok(candidate)
    }
}

// ---- laws ----

proof fn lemma_inputs_bind_from(ports: Seq<InputPort>, inputs: Seq<LinkedInput>, i: int)
    requires
        0 <= i,
        ports.len() == inputs.len(),
        first_input_fault(ports, inputs, i) is None,
    ensures
        forall|k: int| i <= k < ports.len() ==> linked_fault(#[trigger] inputs[k]) is None && inputs[k].fact.value_kind@
            == ports[k].value_kind@,
    decreases ports.len() - i,
{
    if i < ports.len() {
        lemma_inputs_bind_from(ports, inputs, i + 1);
    }
}

proof fn lemma_outputs_bind_from(ports: Seq<OutputPort>, outputs: Seq<NamedOutput>, i: int)
    requires
        0 <= i,
        ports.len() == outputs.len(),
        first_output_fault(ports, outputs, i) is None,
    ensures
        forall|k: int| i <= k < ports.len() ==> named_fault(#[trigger] outputs[k]) is None && outputs[k].fact.value_kind@
            == ports[k].value_kind@,
    decreases ports.len() - i,
{
    if i < ports.len() {
        lemma_outputs_bind_from(ports, outputs, i + 1);
    }
}

/// A valid invocation binds exactly the declared input ports, in declared
/// order: the i-th input is named for the i-th port, carries a valid fact
/// of that port's value kind, and references that very fact.
pub proof fn lemma_valid_invocation_binds_declared_ports(v: CapabilityInvocation)
    requires
        invocation_fault(v) is None,
    ensures
        v.inputs@.len() == v.specification.input_ports@.len(),
        forall|i: int|
            0 <= i < v.inputs@.len() ==> {
                let input = #[trigger] v.inputs@[i];
                let port = v.specification.input_ports@[i];
                &&& input.port@ == port.name@
                &&& input.fact.value_kind@ == port.value_kind@
                &&& fact_refusal(input.fact) is None
                &&& input.admitted.fact_id@ == input.fact.id@
            },
        v.selection.offer.capability@ == v.specification.id@,
        v.protocol@ == INVOCATION_PROTOCOL@,
{
    let ports = v.specification.input_ports@;
    let inputs = v.inputs@;
    assert(port_sequence_fault(in_port_names(ports), linked_names(inputs)) is None);
    assert(in_port_names(ports) == linked_names(inputs));
    assert(in_port_names(ports).len() == ports.len());
    assert(linked_names(inputs).len() == inputs.len());
    lemma_inputs_bind_from(ports, inputs, 0);
    assert forall|i: int| 0 <= i < inputs.len() implies #[trigger] inputs[i].port@ == ports[i].name@ by {
        assert(in_port_names(ports)[i] == linked_names(inputs)[i]);
    }
}

/// A valid result answers exactly the invocation it names, which is itself
/// valid; produced outputs bind the declared output ports in order, each a
/// valid fact of that port's value kind.
pub proof fn lemma_valid_result_answers_its_invocation(r: CapabilityResult, v: CapabilityInvocation)
    requires
        result_fault(r, v) is None,
    ensures
        invocation_fault(v) is None,
        r.invocation_id@ == v.invocation_id@,
        r.protocol@ == RESULT_PROTOCOL@,
        r.outcome matches CapabilityOutcome::Produced { outputs, .. } ==> {
            &&& outputs@.len() == v.specification.output_ports@.len()
            &&& forall|i: int|
                0 <= i < outputs@.len() ==> {
                    let o = #[trigger] outputs@[i];
                    let port = v.specification.output_ports@[i];
                    &&& o.port@ == port.name@
                    &&& o.fact.value_kind@ == port.value_kind@
                    &&& fact_refusal(o.fact) is None
                }
        },
{
    if let CapabilityOutcome::Produced { outputs, extensions } = r.outcome {
        let ports = v.specification.output_ports@;
        let outs = outputs@;
        assert(outputs_fault(ports, outs) is None);
        assert(port_sequence_fault(out_port_names(ports), named_names(outs)) is None);
        assert(out_port_names(ports) == named_names(outs));
        assert(out_port_names(ports).len() == ports.len());
        assert(named_names(outs).len() == outs.len());
        lemma_outputs_bind_from(ports, outs, 0);
        assert forall|i: int| 0 <= i < outs.len() implies #[trigger] outs[i].port@ == ports[i].name@ by {
            assert(out_port_names(ports)[i] == named_names(outs)[i]);
        }
    }
}

/// A valid candidate embeds a valid produced result of exactly the
/// invocation it names; a result reporting inability never becomes one.
pub proof fn lemma_candidate_holds_produced_result(c: CapabilityCandidate, v: CapabilityInvocation)
    requires
        candidate_fault(c, v) is None,
    ensures
        c.result.outcome is Produced,
        result_fault(c.result, v) is None,
        c.invocation_id@ == v.invocation_id@,
        c.result.invocation_id@ == v.invocation_id@,
{
    lemma_valid_result_answers_its_invocation(c.result, v);
}

/// Whatever else it holds, a result reporting inability is refused as a
/// candidate.
pub proof fn lemma_unable_result_is_no_candidate(v: CapabilityInvocation, r: CapabilityResult, extensions: Seq<JsonMember>)
    requires
        r.outcome is Unable,
    ensures
        candidate_parts_fault(v, r, extensions) is Some,
        result_fault(r, v) is None ==> candidate_parts_fault(v, r, extensions) == Some(
            ProtoFault::UnableResultCannotBecomeCandidate,
        ),
{
}

} // verus!