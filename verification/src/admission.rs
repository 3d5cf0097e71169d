//! Contextual authority documents: attesters, observations, assessments,
//! policies and decisions. None of them executes a capability; together they
//! form the immutable chain by which one exact observed or produced fact
//! becomes linkable.

use vstd::prelude::*;
use crate::authority::{
    AdmissionDenial, AssessmentOutcome, AuthorityError, VerdictKind, candidate_verdict, check_views, combine_outcomes,
    derive_assessment_outcome, first_bad_check_name, first_shadowing_key, validate_extensions,
};
use crate::capability::{id_doc, id_json};
use crate::digest::{canonical_bytes, canonical_bytes_of, content_id, json_content_id};
use crate::fact::{Fact, FactFault, fact_document, fact_fault_text, fact_json, fact_refusal};
use crate::identity::{ExactId, FactId, FactIdentityError, IdView, PortName, id_well_formed, is_sha256_identity, is_sha256_text, render_id};
use crate::json::{Json, JsonMember, JsonValue, json_array, json_equal, json_text, key_views, push_member, value_views};
use crate::protocol::{
    CapabilityCandidate, CapabilityInvocation, CapabilityOutcome, CapabilityResult, EvidenceRef, NamedOutput, ProtoFault,
    ProtocolError, Sha256Digest, candidate_doc, candidate_fault, evidence_docs, evidence_doc, evidence_fault,
    first_evidence_fault, invocation_fault, object_with, placeholder_sha256, proto_fault_of, result_doc, result_fault,
    result_json, serialization_text, str_views, with_ext,
};
use crate::text::{owned, str_eq};

verus! {

pub const ASSESSMENT_PROTOCOL: &'static str = "org.gooi.authority.conformance-assessment/v1";
pub const SOURCE_OBSERVATION_PROTOCOL: &'static str = "org.gooi.authority.source-observation/v1";
pub const ADMISSION_POLICY_PROTOCOL: &'static str = "org.gooi.authority.admission-policy/v1";
pub const ADMISSION_DECISION_PROTOCOL: &'static str = "org.gooi.authority.admission-decision/v1";
pub const AUTHORITY_RECORD_PROTOCOL: &'static str = "org.gooi.authority.record/v1";
pub const ADMISSION_SNAPSHOT_PROTOCOL: &'static str = "org.gooi.authority.snapshot/v1";

/// Content identities of assessments, observations, policies, decisions
/// and snapshots: exact lowercase SHA-256 identities.
pub type AssessmentId = Sha256Digest;
pub type ObservationId = Sha256Digest;
pub type AdmissionPolicyId = Sha256Digest;
pub type AdmissionDecisionId = Sha256Digest;
pub type AdmissionSnapshotId = Sha256Digest;

// ---- refusals ----

/// Mathematical form of an authority refusal.
pub enum AuthFault {
    Protocol(ProtoFault),
    InvalidDigest(Seq<char>),
    InvalidIdentity(Seq<char>, Seq<char>),
    ProtocolMismatch(Seq<char>, Seq<char>),
    ReservedExtension(Seq<char>, Seq<char>),
    Serialization(Seq<char>),
    ContentIdentityMismatch(Seq<char>, Seq<char>, Seq<char>),
    InvalidDocument(Seq<char>, Seq<char>),
    EmptyAssessmentChecks,
    InvalidCheckName(Seq<char>),
    ObservationValueKindMismatch,
    ObservationEvidenceKindMismatch,
    AssessmentOutcomeMismatch,
    AssessmentCorrelationMismatch,
    ConformanceSuiteMismatch,
    AttesterNotIndependent,
    DuplicateAcceptedAuthority,
    ResultCandidateMismatch,
    DecisionCorrelationMismatch,
    DecisionOutputMismatch,
    DecisionVerdictMismatch,
    WithheldRecord,
    AuthorityOutputMismatch,
    StagedAdmissionMismatch,
    UnknownAuthority(Seq<char>),
    MissingFact(Seq<char>),
    MissingDecision(Seq<char>),
    FactReferenceMismatch,
    StoredFactMismatch(Seq<char>),
    StoredDecisionMismatch(Seq<char>),
    LinkedInputMismatch(Seq<char>),
    FactCollision(Seq<char>),
    DecisionCollision(Seq<char>),
    AuthorityCollision(Seq<char>),
    OrphanFact(Seq<char>),
    OrphanDecision(Seq<char>),
}

pub open spec fn auth_fault_of(e: AuthorityError) -> AuthFault {
    match e {
        AuthorityError::Protocol(p) => AuthFault::Protocol(proto_fault_of(p)),
        AuthorityError::InvalidDigest(v) => AuthFault::InvalidDigest(v@),
        AuthorityError::InvalidIdentity { field, value } => AuthFault::InvalidIdentity(field@, value@),
        AuthorityError::ProtocolMismatch { expected, actual } => AuthFault::ProtocolMismatch(expected@, actual@),
        AuthorityError::ReservedExtension { scope, key } => AuthFault::ReservedExtension(scope@, key@),
        AuthorityError::Serialization(m) => AuthFault::Serialization(m@),
        AuthorityError::ContentIdentityMismatch { document, expected, actual } => AuthFault::ContentIdentityMismatch(
            document@,
            expected@,
            actual@,
        ),
        AuthorityError::InvalidDocument { document, detail } => AuthFault::InvalidDocument(document@, detail@),
        AuthorityError::EmptyAssessmentChecks => AuthFault::EmptyAssessmentChecks,
        AuthorityError::InvalidCheckName(n) => AuthFault::InvalidCheckName(n@),
        AuthorityError::ObservationValueKindMismatch => AuthFault::ObservationValueKindMismatch,
        AuthorityError::ObservationEvidenceKindMismatch => AuthFault::ObservationEvidenceKindMismatch,
        AuthorityError::AssessmentOutcomeMismatch => AuthFault::AssessmentOutcomeMismatch,
        AuthorityError::AssessmentCorrelationMismatch => AuthFault::AssessmentCorrelationMismatch,
        AuthorityError::ConformanceSuiteMismatch => AuthFault::ConformanceSuiteMismatch,
        AuthorityError::AttesterNotIndependent => AuthFault::AttesterNotIndependent,
        AuthorityError::DuplicateAcceptedAuthority => AuthFault::DuplicateAcceptedAuthority,
        AuthorityError::ResultCandidateMismatch => AuthFault::ResultCandidateMismatch,
        AuthorityError::DecisionCorrelationMismatch => AuthFault::DecisionCorrelationMismatch,
        AuthorityError::DecisionOutputMismatch => AuthFault::DecisionOutputMismatch,
        AuthorityError::DecisionVerdictMismatch => AuthFault::DecisionVerdictMismatch,
        AuthorityError::WithheldRecord => AuthFault::WithheldRecord,
        AuthorityError::AuthorityOutputMismatch => AuthFault::AuthorityOutputMismatch,
        AuthorityError::StagedAdmissionMismatch => AuthFault::StagedAdmissionMismatch,
        AuthorityError::UnknownAuthority(id) => AuthFault::UnknownAuthority(id@),
        AuthorityError::MissingFact(id) => AuthFault::MissingFact(id@),
        AuthorityError::MissingDecision(id) => AuthFault::MissingDecision(id@),
        AuthorityError::FactReferenceMismatch => AuthFault::FactReferenceMismatch,
        AuthorityError::StoredFactMismatch(id) => AuthFault::StoredFactMismatch(id@),
        AuthorityError::StoredDecisionMismatch(id) => AuthFault::StoredDecisionMismatch(id@),
        AuthorityError::LinkedInputMismatch(p) => AuthFault::LinkedInputMismatch(p@),
        AuthorityError::FactCollision(id) => AuthFault::FactCollision(id@),
        AuthorityError::DecisionCollision(id) => AuthFault::DecisionCollision(id@),
        AuthorityError::AuthorityCollision(id) => AuthFault::AuthorityCollision(id@),
        AuthorityError::OrphanFact(id) => AuthFault::OrphanFact(id@),
        AuthorityError::OrphanDecision(id) => AuthFault::OrphanDecision(id@),
    }
}

/// A protocol refusal seen from the authority layer.
pub open spec fn lift(f: Option<ProtoFault>) -> Option<AuthFault> {
    match f {
        Some(p) => Some(AuthFault::Protocol(p)),
        None => None,
    }
}

fn lift_err(r: Result<(), ProtocolError>) -> (out: Result<(), AuthorityError>)
    ensures
        out is Ok <==> r is Ok,
        r matches Err(e) ==> out matches Err(x) && auth_fault_of(x) == AuthFault::Protocol(proto_fault_of(e)),
{
    match r {
        Ok(()) => Ok(()),
        Err(e) => Err(AuthorityError::Protocol(e)),
    }
}

/// The first extension key, in key order, that shadows a field.
pub open spec fn a_ext_fault(scope: Seq<char>, reserved: Seq<Seq<char>>, extensions: Seq<JsonMember>) -> Option<AuthFault> {
    match first_shadowing_key(key_views(extensions), reserved, 0) {
        Some(k) => Some(AuthFault::ReservedExtension(scope, k)),
        None => None,
    }
}

fn check_ext(scope: &str, extensions: &Vec<JsonMember>, reserved: &[&str]) -> (r: Result<(), AuthorityError>)
    ensures
        r is Ok <==> a_ext_fault(scope@, str_views(reserved@), extensions@) is None,
        r matches Err(e) ==> a_ext_fault(scope@, str_views(reserved@), extensions@) == Some(auth_fault_of(e)),
{
    assert(Seq::new(reserved@.len(), |i: int| reserved@[i]@) =~= str_views(reserved@));
    validate_extensions(scope, extensions, reserved)
}

pub open spec fn a_exact_fault(field: Seq<char>, id: IdView) -> Option<AuthFault> {
    if id_well_formed(id) {
        None
    } else {
        Some(AuthFault::InvalidIdentity(field, render_id(id)))
    }
}

fn check_exact(field: &str, id: &ExactId) -> (r: Result<(), AuthorityError>)
    ensures
        r is Ok <==> a_exact_fault(field@, id@) is None,
        r matches Err(e) ==> a_exact_fault(field@, id@) == Some(auth_fault_of(e)),
{
    if id.is_well_formed() {
        Ok(())
    } else {
        Err(AuthorityError::InvalidIdentity { field: owned(field), value: id.render() })
    }
}

fn check_protocol(expected: &str, actual: &str) -> (r: Result<(), AuthorityError>)
    ensures
        r is Ok <==> actual@ == expected@,
        r matches Err(e) ==> auth_fault_of(e) == AuthFault::ProtocolMismatch(expected@, actual@),
{
    if str_eq(actual, expected) {
        Ok(())
    } else {
        Err(AuthorityError::ProtocolMismatch { expected: owned(expected), actual: owned(actual) })
    }
}

/// Why a stored identity is not the content identity of the body.
pub open spec fn a_id_fault(document: Seq<char>, body: Json, actual: Seq<char>) -> Option<AuthFault> {
    match content_id(body) {
        None => Some(AuthFault::Serialization(serialization_text())),
        Some(x) => if x == actual {
            None
        } else {
            Some(AuthFault::ContentIdentityMismatch(document, x, actual))
        },
    }
}

fn derive_id(body: &JsonValue) -> (r: Result<Sha256Digest, AuthorityError>)
    ensures
        r is Ok <==> content_id(body@) is Some,
        r matches Ok(d) ==> Some(d@) == content_id(body@) && is_sha256_text(d@),
        r matches Err(e) ==> auth_fault_of(e) == AuthFault::Serialization(serialization_text()),
{
    match json_content_id(body) {
        Some(id) => match Sha256Digest::parse(id) {
            Ok(d) => Ok(d),
            Err(e) => Err(AuthorityError::InvalidDigest(e.0)),
        },
        None => Err(AuthorityError::Serialization(owned("canonical JSON serialization failed"))),
    }
}

fn check_id(document: &str, body: &JsonValue, actual: &Sha256Digest) -> (r: Result<(), AuthorityError>)
    ensures
        r is Ok <==> a_id_fault(document@, body@, actual@) is None,
        r matches Err(e) ==> a_id_fault(document@, body@, actual@) == Some(auth_fault_of(e)),
{
    let expected = derive_id(body)?;
    if expected.same_as(actual) {
        Ok(())
    } else {
        Err(AuthorityError::ContentIdentityMismatch {
            document: owned(document),
            expected: owned(expected.as_str()),
            actual: owned(actual.as_str()),
        })
    }
}

/// A fact refused as part of an authority document.
pub open spec fn doc_fact_fault(document: Seq<char>, f: Fact) -> Option<AuthFault> {
    match fact_refusal(f) {
        Some(x) => Some(AuthFault::InvalidDocument(document, fact_fault_text(x))),
        None => None,
    }
}

fn check_doc_fact(document: &str, f: &Fact) -> (r: Result<(), AuthorityError>)
    ensures
        r is Ok <==> doc_fact_fault(document@, *f) is None,
        r matches Err(e) ==> doc_fact_fault(document@, *f) == Some(auth_fault_of(e)),
{
    match f.validate() {
        Ok(()) => Ok(()),
        Err(e) => Err(AuthorityError::InvalidDocument { document: owned(document), detail: e.message() }),
    }
}

fn check_evidence_list(evidence: &Vec<EvidenceRef>) -> (r: Result<(), AuthorityError>)
    ensures
        r is Ok <==> first_evidence_fault(evidence@, 0) is None,
        r matches Err(e) ==> lift(first_evidence_fault(evidence@, 0)) == Some(auth_fault_of(e)),
{
    let mut i: usize = 0;
    while i < evidence.len()
        invariant
            i <= evidence.len(),
            first_evidence_fault(evidence@, 0) == first_evidence_fault(evidence@, i as int),
        decreases evidence.len() - i,
    {
        lift_err(evidence[i].validate())?;
        i = i + 1;
    }
    Ok(())
}

fn evidence_list_json(evidence: &Vec<EvidenceRef>) -> (r: JsonValue)
    ensures
        r@ == evidence_docs(evidence@),
{
    let mut items: Vec<JsonValue> = Vec::new();
    let mut i: usize = 0;
    while i < evidence.len()
        invariant
            i <= evidence.len(),
            crate::json::item_views(items@) == Seq::new(i as nat, |k: int| evidence_doc(evidence@[k])),
        decreases evidence.len() - i,
    {
        let ghost before = items@;
        items.push(crate::protocol::evidence_json(&evidence[i]));
        assert(crate::json::item_views(items@) =~= Seq::new((i + 1) as nat, |k: int| evidence_doc(evidence@[k]))) by {
            assert(crate::json::item_views(items@) =~= crate::json::item_views(before).push(evidence_doc(evidence@[i as int])));
        }
        i = i + 1;
    }
    json_array(items)
}

// ---- attesters and authorities ----

/// One independently deployed conformance implementation.
#[derive(Clone, Debug, PartialEq, Eq)]
pub struct ConformanceAttester {
    pub implementation: ExactId,
    pub artifact_digest: Sha256Digest,
    pub extensions: Vec<JsonMember>,
}

pub open spec fn attester_fault(a: ConformanceAttester) -> Option<AuthFault> {
    if a_exact_fault("conformance attester implementation"@, a.implementation@) is Some {
        a_exact_fault("conformance attester implementation"@, a.implementation@)
    } else {
        a_ext_fault("conformance attester"@, seq!["implementation"@, "artifact_digest"@], a.extensions@)
    }
}

pub open spec fn attester_doc(a: ConformanceAttester) -> Json {
    with_ext(
        seq!["implementation"@, "artifact_digest"@],
        seq![id_doc(a.implementation@), Json::Str(a.artifact_digest@)],
        a.extensions@,
    )
}

fn attester_json(a: &ConformanceAttester) -> (r: JsonValue)
    ensures
        r@ == attester_doc(*a),
{
    let mut m: Vec<JsonMember> = Vec::new();
    assert(key_views(m@) =~= Seq::<Seq<char>>::empty());
    assert(value_views(m@) =~= Seq::<Json>::empty());
    push_member(&mut m, "implementation", id_json(&a.implementation));
    push_member(&mut m, "artifact_digest", json_text(a.artifact_digest.as_str()));
    assert(key_views(m@) =~= seq!["implementation"@, "artifact_digest"@]);
    assert(value_views(m@) =~= seq![id_doc(a.implementation@), Json::Str(a.artifact_digest@)]);
    object_with(m, &a.extensions)
}

impl ConformanceAttester {
    pub fn validate(&self) -> (r: Result<(), AuthorityError>)
        ensures
            r is Ok <==> attester_fault(*self) is None,
            r matches Err(e) ==> attester_fault(*self) == Some(auth_fault_of(e)),
    {
        check_exact("conformance attester implementation", &self.implementation)?;
        let fields: [&str; 2] = ["implementation", "artifact_digest"];
        assert(str_views(fields@) =~= seq!["implementation"@, "artifact_digest"@]);
        check_ext("conformance attester", &self.extensions, fields.as_slice())
    }

    pub fn new(implementation: ExactId, artifact_digest: Sha256Digest, extensions: Vec<JsonMember>) -> (r: Result<
        Self,
        AuthorityError,
    >)
        ensures
            r matches Ok(a) ==> a == (ConformanceAttester { implementation, artifact_digest, extensions }),
            r is Ok <==> attester_fault(ConformanceAttester { implementation, artifact_digest, extensions }) is None,
            r matches Err(e) ==> attester_fault(ConformanceAttester { implementation, artifact_digest, extensions })
                == Some(auth_fault_of(e)),
    {
        let attester = ConformanceAttester { implementation, artifact_digest, extensions };
        attester.validate()?;
        Ok(attester)
    }
}

/// The exact suite and attester whose assessments a policy may accept.
#[derive(Clone, Debug, PartialEq, Eq)]
pub struct ConformanceAuthority {
    pub suite: ExactId,
    pub attester: ConformanceAttester,
    pub extensions: Vec<JsonMember>,
}

pub open spec fn conformance_authority_fault(a: ConformanceAuthority) -> Option<AuthFault> {
    if a_exact_fault("conformance suite"@, a.suite@) is Some {
        a_exact_fault("conformance suite"@, a.suite@)
    } else if attester_fault(a.attester) is Some {
        attester_fault(a.attester)
    } else {
        a_ext_fault("conformance authority"@, seq!["suite"@, "attester"@], a.extensions@)
    }
}

pub open spec fn conformance_authority_doc(a: ConformanceAuthority) -> Json {
    with_ext(seq!["suite"@, "attester"@], seq![id_doc(a.suite@), attester_doc(a.attester)], a.extensions@)
}

pub fn conformance_authority_json(a: &ConformanceAuthority) -> (r: JsonValue)
    ensures
        r@ == conformance_authority_doc(*a),
{
    let mut m: Vec<JsonMember> = Vec::new();
    assert(key_views(m@) =~= Seq::<Seq<char>>::empty());
    assert(value_views(m@) =~= Seq::<Json>::empty());
    push_member(&mut m, "suite", id_json(&a.suite));
    push_member(&mut m, "attester", attester_json(&a.attester));
    assert(key_views(m@) =~= seq!["suite"@, "attester"@]);
    assert(value_views(m@) =~= seq![id_doc(a.suite@), attester_doc(a.attester)]);
    object_with(m, &a.extensions)
}

impl ConformanceAuthority {
    pub fn validate(&self) -> (r: Result<(), AuthorityError>)
        ensures
            r is Ok <==> conformance_authority_fault(*self) is None,
            r matches Err(e) ==> conformance_authority_fault(*self) == Some(auth_fault_of(e)),
    {
        check_exact("conformance suite", &self.suite)?;
        self.attester.validate()?;
        let fields: [&str; 2] = ["suite", "attester"];
        assert(str_views(fields@) =~= seq!["suite"@, "attester"@]);
        check_ext("conformance authority", &self.extensions, fields.as_slice())
    }

    pub fn new(suite: ExactId, attester: ConformanceAttester, extensions: Vec<JsonMember>) -> (r: Result<Self, AuthorityError>)
        ensures
            r matches Ok(a) ==> a == (ConformanceAuthority { suite, attester, extensions }),
            r is Ok <==> conformance_authority_fault(ConformanceAuthority { suite, attester, extensions }) is None,
            r matches Err(e) ==> conformance_authority_fault(ConformanceAuthority { suite, attester, extensions }) == Some(
                auth_fault_of(e),
            ),
    {
        let authority = ConformanceAuthority { suite, attester, extensions };
        authority.validate()?;
        Ok(authority)
    }
}

/// The exact source and ingestion mechanism behind one materialized
/// observation.
#[derive(Clone, Debug, PartialEq, Eq)]
pub struct ObservationAuthority {
    pub source: ExactId,
    pub observer: ExactId,
    pub observer_artifact: Sha256Digest,
    pub value_kind: ExactId,
    pub evidence_kind: ExactId,
    pub extensions: Vec<JsonMember>,
}

pub open spec fn observation_authority_fields() -> Seq<Seq<char>> {
    seq!["source"@, "observer"@, "observer_artifact"@, "value_kind"@, "evidence_kind"@]
}

pub open spec fn observation_authority_fault(a: ObservationAuthority) -> Option<AuthFault> {
    if a_exact_fault("observation source"@, a.source@) is Some {
        a_exact_fault("observation source"@, a.source@)
    } else if a_exact_fault("observation implementation"@, a.observer@) is Some {
        a_exact_fault("observation implementation"@, a.observer@)
    } else if a_exact_fault("observation value kind"@, a.value_kind@) is Some {
        a_exact_fault("observation value kind"@, a.value_kind@)
    } else if a_exact_fault("observation evidence kind"@, a.evidence_kind@) is Some {
        a_exact_fault("observation evidence kind"@, a.evidence_kind@)
    } else {
        a_ext_fault("observation authority"@, observation_authority_fields(), a.extensions@)
    }
}

pub open spec fn observation_authority_doc(a: ObservationAuthority) -> Json {
    with_ext(
        observation_authority_fields(),
        seq![
            id_doc(a.source@),
            id_doc(a.observer@),
            Json::Str(a.observer_artifact@),
            id_doc(a.value_kind@),
            id_doc(a.evidence_kind@),
        ],
        a.extensions@,
    )
}

pub fn observation_authority_json(a: &ObservationAuthority) -> (r: JsonValue)
    ensures
        r@ == observation_authority_doc(*a),
{
    let mut m: Vec<JsonMember> = Vec::new();
    assert(key_views(m@) =~= Seq::<Seq<char>>::empty());
    assert(value_views(m@) =~= Seq::<Json>::empty());
    push_member(&mut m, "source", id_json(&a.source));
    push_member(&mut m, "observer", id_json(&a.observer));
    push_member(&mut m, "observer_artifact", json_text(a.observer_artifact.as_str()));
    push_member(&mut m, "value_kind", id_json(&a.value_kind));
    push_member(&mut m, "evidence_kind", id_json(&a.evidence_kind));
    assert(key_views(m@) =~= observation_authority_fields());
    assert(value_views(m@) =~= seq![
        id_doc(a.source@),
        id_doc(a.observer@),
        Json::Str(a.observer_artifact@),
        id_doc(a.value_kind@),
        id_doc(a.evidence_kind@),
    ]);
    object_with(m, &a.extensions)
}

impl ObservationAuthority {
    pub fn validate(&self) -> (r: Result<(), AuthorityError>)
        ensures
            r is Ok <==> observation_authority_fault(*self) is None,
            r matches Err(e) ==> observation_authority_fault(*self) == Some(auth_fault_of(e)),
    {
        check_exact("observation source", &self.source)?;
        check_exact("observation implementation", &self.observer)?;
        check_exact("observation value kind", &self.value_kind)?;
        check_exact("observation evidence kind", &self.evidence_kind)?;
        let fields: [&str; 5] = ["source", "observer", "observer_artifact", "value_kind", "evidence_kind"];
        assert(str_views(fields@) =~= observation_authority_fields());
        check_ext("observation authority", &self.extensions, fields.as_slice())
    }

    pub fn new(
        source: ExactId,
        observer: ExactId,
        observer_artifact: Sha256Digest,
        value_kind: ExactId,
        evidence_kind: ExactId,
        extensions: Vec<JsonMember>,
    ) -> (r: Result<Self, AuthorityError>)
        ensures
            r matches Ok(a) ==> a == (ObservationAuthority {
                source,
                observer,
                observer_artifact,
                value_kind,
                evidence_kind,
                extensions,
            }),
            r is Ok <==> observation_authority_fault(
                ObservationAuthority { source, observer, observer_artifact, value_kind, evidence_kind, extensions },
            ) is None,
            r matches Err(e) ==> observation_authority_fault(
                ObservationAuthority { source, observer, observer_artifact, value_kind, evidence_kind, extensions },
            ) == Some(auth_fault_of(e)),
    {
        let authority = ObservationAuthority { source, observer, observer_artifact, value_kind, evidence_kind, extensions };
        authority.validate()?;
        Ok(authority)
    }
}

// ---- observations ----

/// An untrusted, content-identified claim that an exact fact was
/// materialized from an exact external source. Validation covers identity
/// and evidence structure, never the meaning or truth of the payload.
#[derive(Clone, Debug, PartialEq, Eq)]
pub struct SourceObservation {
    pub observation_id: Sha256Digest,
    pub protocol: String,
    pub fact: Fact,
    pub authority: ObservationAuthority,
    pub primary_evidence: EvidenceRef,
    pub additional_evidence: Vec<EvidenceRef>,
    pub extensions: Vec<JsonMember>,
}

pub open spec fn observation_fields() -> Seq<Seq<char>> {
    seq!["observation_id"@, "protocol"@, "fact"@, "authority"@, "primary_evidence"@, "additional_evidence"@]
}

/// Why a fact, authority, evidence and extensions cannot form an
/// observation: the fact, the authority, a value kind the authority does
/// not observe, the primary evidence or its kind, other evidence, or a
/// shadowing extension.
pub open spec fn observation_parts_fault(
    fact: Fact,
    authority: ObservationAuthority,
    primary: EvidenceRef,
    additional: Seq<EvidenceRef>,
    extensions: Seq<JsonMember>,
) -> Option<AuthFault> {
    if doc_fact_fault("source observation fact"@, fact) is Some {
        doc_fact_fault("source observation fact"@, fact)
    } else if observation_authority_fault(authority) is Some {
        observation_authority_fault(authority)
    } else if authority.value_kind@ != fact.value_kind@ {
        Some(AuthFault::ObservationValueKindMismatch)
    } else if evidence_fault(primary) is Some {
        lift(evidence_fault(primary))
    } else if authority.evidence_kind@ != primary.kind@ {
        Some(AuthFault::ObservationEvidenceKindMismatch)
    } else if first_evidence_fault(additional, 0) is Some {
        lift(first_evidence_fault(additional, 0))
    } else {
        a_ext_fault("source observation"@, observation_fields(), extensions)
    }
}

pub open spec fn observation_structure_fault(o: SourceObservation) -> Option<AuthFault> {
    if o.protocol@ != SOURCE_OBSERVATION_PROTOCOL@ {
        Some(AuthFault::ProtocolMismatch(SOURCE_OBSERVATION_PROTOCOL@, o.protocol@))
    } else {
        observation_parts_fault(o.fact, o.authority, o.primary_evidence, o.additional_evidence@, o.extensions@)
    }
}

pub open spec fn observation_body_of(
    protocol: Seq<char>,
    fact: Fact,
    authority: ObservationAuthority,
    primary: EvidenceRef,
    additional: Seq<EvidenceRef>,
    extensions: Seq<JsonMember>,
) -> Json {
    with_ext(
        seq!["protocol"@, "fact"@, "authority"@, "primary_evidence"@, "additional_evidence"@],
        seq![
            Json::Str(protocol),
            fact_document(fact),
            observation_authority_doc(authority),
            evidence_doc(primary),
            evidence_docs(additional),
        ],
        extensions,
    )
}

pub open spec fn observation_body(o: SourceObservation) -> Json {
    observation_body_of(o.protocol@, o.fact, o.authority, o.primary_evidence, o.additional_evidence@, o.extensions@)
}

pub open spec fn observation_doc(o: SourceObservation) -> Json {
    with_ext(
        observation_fields(),
        seq![
            Json::Str(o.observation_id@),
            Json::Str(o.protocol@),
            fact_document(o.fact),
            observation_authority_doc(o.authority),
            evidence_doc(o.primary_evidence),
            evidence_docs(o.additional_evidence@),
        ],
        o.extensions@,
    )
}

/// Why an observation is refused, or nothing: its structure, then its
/// identity.
pub open spec fn observation_fault(o: SourceObservation) -> Option<AuthFault> {
    match observation_structure_fault(o) {
        Some(f) => Some(f),
        None => a_id_fault("source observation"@, observation_body(o), o.observation_id@),
    }
}

fn observation_body_json(o: &SourceObservation) -> (r: JsonValue)
    ensures
        r@ == observation_body(*o),
{
    let mut m: Vec<JsonMember> = Vec::new();
    assert(key_views(m@) =~= Seq::<Seq<char>>::empty());
    assert(value_views(m@) =~= Seq::<Json>::empty());
    push_member(&mut m, "protocol", json_text(o.protocol.as_str()));
    push_member(&mut m, "fact", fact_json(&o.fact));
    push_member(&mut m, "authority", observation_authority_json(&o.authority));
    push_member(&mut m, "primary_evidence", crate::protocol::evidence_json(&o.primary_evidence));
    push_member(&mut m, "additional_evidence", evidence_list_json(&o.additional_evidence));
    assert(key_views(m@) =~= seq!["protocol"@, "fact"@, "authority"@, "primary_evidence"@, "additional_evidence"@]);
    assert(value_views(m@) =~= seq![
        Json::Str(o.protocol@),
        fact_document(o.fact),
        observation_authority_doc(o.authority),
        evidence_doc(o.primary_evidence),
        evidence_docs(o.additional_evidence@),
    ]);
    object_with(m, &o.extensions)
}

/// The complete observation document.
pub fn observation_json(o: &SourceObservation) -> (r: JsonValue)
    ensures
        r@ == observation_doc(*o),
{
    let mut m: Vec<JsonMember> = Vec::new();
    assert(key_views(m@) =~= Seq::<Seq<char>>::empty());
    assert(value_views(m@) =~= Seq::<Json>::empty());
    push_member(&mut m, "observation_id", json_text(o.observation_id.as_str()));
    push_member(&mut m, "protocol", json_text(o.protocol.as_str()));
    push_member(&mut m, "fact", fact_json(&o.fact));
    push_member(&mut m, "authority", observation_authority_json(&o.authority));
    push_member(&mut m, "primary_evidence", crate::protocol::evidence_json(&o.primary_evidence));
    push_member(&mut m, "additional_evidence", evidence_list_json(&o.additional_evidence));
    assert(key_views(m@) =~= observation_fields());
    assert(value_views(m@) =~= seq![
        Json::Str(o.observation_id@),
        Json::Str(o.protocol@),
        fact_document(o.fact),
        observation_authority_doc(o.authority),
        evidence_doc(o.primary_evidence),
        evidence_docs(o.additional_evidence@),
    ]);
    object_with(m, &o.extensions)
}

impl SourceObservation {
    fn validate_structure(&self) -> (r: Result<(), AuthorityError>)
        ensures
            r is Ok <==> observation_structure_fault(*self) is None,
            r matches Err(e) ==> observation_structure_fault(*self) == Some(auth_fault_of(e)),
    {
        check_protocol(SOURCE_OBSERVATION_PROTOCOL, self.protocol.as_str())?;
        check_doc_fact("source observation fact", &self.fact)?;
        self.authority.validate()?;
        if !self.authority.value_kind.same_as(&self.fact.value_kind) {
            return Err(AuthorityError::ObservationValueKindMismatch);
        }
        lift_err(self.primary_evidence.validate())?;
        if !self.authority.evidence_kind.same_as(&self.primary_evidence.kind) {
            return Err(AuthorityError::ObservationEvidenceKindMismatch);
        }
        check_evidence_list(&self.additional_evidence)?;
        let fields: [&str; 6] = [
            "observation_id",
            "protocol",
            "fact",
            "authority",
            "primary_evidence",
            "additional_evidence",
        ];
        assert(str_views(fields@) =~= observation_fields());
        check_ext("source observation", &self.extensions, fields.as_slice())
    }

    /// Revalidates the structure and the content-derived identity.
    pub fn validate(&self) -> (r: Result<(), AuthorityError>)
        ensures
            r is Ok <==> observation_fault(*self) is None,
            r matches Err(e) ==> observation_fault(*self) == Some(auth_fault_of(e)),
    {
        self.validate_structure()?;
        let body = observation_body_json(self);
        check_id("source observation", &body, &self.observation_id)
    }

    /// An observation of this fact by this authority, identified by its
    /// content.
    pub fn new(
        fact: Fact,
        authority: ObservationAuthority,
        primary_evidence: EvidenceRef,
        additional_evidence: Vec<EvidenceRef>,
        extensions: Vec<JsonMember>,
    ) -> (r: Result<Self, AuthorityError>)
        ensures
            r matches Ok(o) ==> o.protocol@ == SOURCE_OBSERVATION_PROTOCOL@ && o.fact == fact && o.authority == authority
                && o.primary_evidence == primary_evidence && o.additional_evidence == additional_evidence && o.extensions
                == extensions && observation_fault(o) is None,
            r is Ok <==> observation_parts_fault(fact, authority, primary_evidence, additional_evidence@, extensions@) is None
                && content_id(
                observation_body_of(
                    SOURCE_OBSERVATION_PROTOCOL@,
                    fact,
                    authority,
                    primary_evidence,
                    additional_evidence@,
                    extensions@,
                ),
            ) is Some,
            r matches Err(e) ==> auth_fault_of(e) == a_first_or_serialization(
                observation_parts_fault(fact, authority, primary_evidence, additional_evidence@, extensions@),
            ),
    {
        let mut observation = SourceObservation {
            observation_id: placeholder_sha256(),
            protocol: owned(SOURCE_OBSERVATION_PROTOCOL),
            fact,
            authority,
            primary_evidence,
            additional_evidence,
            extensions,
        };
        observation.validate_structure()?;
        let body = observation_body_json(&observation);
        observation.observation_id = derive_id(&body)?;
        Ok(observation)
    }
}

/// The refusal a constructor reports: the first structural fault, or the
/// failed serialization.
pub open spec fn a_first_or_serialization(f: Option<AuthFault>) -> AuthFault {
    match f {
        Some(x) => x,
        None => AuthFault::Serialization(serialization_text()),
    }
}

// ---- checks and assessments ----

pub open spec fn outcome_name(o: AssessmentOutcome) -> Seq<char> {
    match o {
        AssessmentOutcome::Passed => "passed"@,
        AssessmentOutcome::Failed => "failed"@,
        AssessmentOutcome::Indeterminate => "indeterminate"@,
    }
}

fn outcome_str(o: AssessmentOutcome) -> (r: &'static str)
    ensures
        r@ == outcome_name(o),
{
    match o {
        AssessmentOutcome::Passed => "passed",
        AssessmentOutcome::Failed => "failed",
        AssessmentOutcome::Indeterminate => "indeterminate",
    }
}

/// One exact check performed by the independent conformance authority.
#[derive(Clone, Debug, PartialEq, Eq)]
pub struct ConformanceCheck {
    pub outcome: AssessmentOutcome,
    pub evidence: Vec<EvidenceRef>,
    pub extensions: Vec<JsonMember>,
}

pub open spec fn check_fault(c: ConformanceCheck) -> Option<AuthFault> {
    if first_evidence_fault(c.evidence@, 0) is Some {
        lift(first_evidence_fault(c.evidence@, 0))
    } else {
        a_ext_fault("conformance check"@, seq!["outcome"@, "evidence"@], c.extensions@)
    }
}

pub open spec fn check_doc(c: ConformanceCheck) -> Json {
    with_ext(
        seq!["outcome"@, "evidence"@],
        seq![Json::Str(outcome_name(c.outcome)), evidence_docs(c.evidence@)],
        c.extensions@,
    )
}

fn check_json(c: &ConformanceCheck) -> (r: JsonValue)
    ensures
        r@ == check_doc(*c),
{
    let mut m: Vec<JsonMember> = Vec::new();
    assert(key_views(m@) =~= Seq::<Seq<char>>::empty());
    assert(value_views(m@) =~= Seq::<Json>::empty());
    push_member(&mut m, "outcome", json_text(outcome_str(c.outcome)));
    push_member(&mut m, "evidence", evidence_list_json(&c.evidence));
    assert(key_views(m@) =~= seq!["outcome"@, "evidence"@]);
    assert(value_views(m@) =~= seq![Json::Str(outcome_name(c.outcome)), evidence_docs(c.evidence@)]);
    object_with(m, &c.extensions)
}

impl ConformanceCheck {
    pub fn validate(&self) -> (r: Result<(), AuthorityError>)
        ensures
            r is Ok <==> check_fault(*self) is None,
            r matches Err(e) ==> check_fault(*self) == Some(auth_fault_of(e)),
    {
        check_evidence_list(&self.evidence)?;
        let fields: [&str; 2] = ["outcome", "evidence"];
        assert(str_views(fields@) =~= seq!["outcome"@, "evidence"@]);
        check_ext("conformance check", &self.extensions, fields.as_slice())
    }

    pub fn new(outcome: AssessmentOutcome, evidence: Vec<EvidenceRef>, extensions: Vec<JsonMember>) -> (r: Result<
        Self,
        AuthorityError,
    >)
        ensures
            r matches Ok(c) ==> c == (ConformanceCheck { outcome, evidence, extensions }),
            r is Ok <==> check_fault(ConformanceCheck { outcome, evidence, extensions }) is None,
            r matches Err(e) ==> check_fault(ConformanceCheck { outcome, evidence, extensions }) == Some(auth_fault_of(e)),
    {
        let check = ConformanceCheck { outcome, evidence, extensions };
        check.validate()?;
        Ok(check)
    }
}

/// Names and outcomes of named checks.
pub open spec fn outcome_views(checks: Seq<(String, ConformanceCheck)>) -> Seq<(Seq<char>, AssessmentOutcome)> {
    Seq::new(checks.len(), |i: int| (checks[i].0@, checks[i].1.outcome))
}

/// The first named check, from `i` on, with an invalid name or a refused
/// check.
pub open spec fn first_check_fault(checks: Seq<(String, ConformanceCheck)>, i: int) -> Option<AuthFault>
    decreases checks.len() - i,
{
    if i < 0 || i >= checks.len() {
        None
    } else if !crate::authority::valid_check_name(checks[i].0@) {
        Some(AuthFault::InvalidCheckName(checks[i].0@))
    } else if check_fault(checks[i].1) is Some {
        check_fault(checks[i].1)
    } else {
        first_check_fault(checks, i + 1)
    }
}

/// The outcome of named checks held in name order, or why they are
/// refused: none at all, an invalid name or a refused check.
pub open spec fn checks_outcome(checks: Seq<(String, ConformanceCheck)>) -> Result<AssessmentOutcome, AuthFault> {
    if checks.len() == 0 {
        Err(AuthFault::EmptyAssessmentChecks)
    } else {
        match first_check_fault(checks, 0) {
            Some(f) => Err(f),
            None => Ok(combine_outcomes(outcome_views(checks))),
        }
    }
}

proof fn lemma_no_bad_name(s: Seq<(Seq<char>, AssessmentOutcome)>, i: int)
    requires
        0 <= i,
        forall|k: int| 0 <= k < s.len() ==> crate::authority::valid_check_name(#[trigger] s[k].0),
    ensures
        first_bad_check_name(s, i) is None,
    decreases s.len() - i,
{
    if i < s.len() {
        lemma_no_bad_name(s, i + 1);
    }
}

fn valid_check_name_exec(name: &String) -> (r: bool)
    ensures
        r == crate::authority::valid_check_name(name@),
{
    let chars = crate::text::chars_of(name.as_str());
    chars.len() > 0 && crate::identity::utf8_len_at_most(&chars, 256) && crate::text::is_trimmed_chars(&chars)
        && !crate::text::has_control_chars(&chars)
}

/// Combines named checks into one outcome: refused when there are none, a
/// name is invalid, or a check is refused; otherwise failed when any check
/// failed, indeterminate when any was indeterminate, passed otherwise.
pub fn derive_checks_outcome(checks: &Vec<(String, ConformanceCheck)>) -> (r: Result<AssessmentOutcome, AuthorityError>)
    ensures
        match checks_outcome(checks@) {
            Ok(o) => r == Ok::<AssessmentOutcome, AuthorityError>(o),
            Err(f) => r matches Err(e) && auth_fault_of(e) == f,
        },
{
    if checks.len() == 0 {
        return Err(AuthorityError::EmptyAssessmentChecks);
    }
    let mut pairs: Vec<(String, AssessmentOutcome)> = Vec::new();
    let mut i: usize = 0;
    while i < checks.len()
        invariant
            i <= checks.len(),
            first_check_fault(checks@, 0) == first_check_fault(checks@, i as int),
            check_views(pairs@) == outcome_views(checks@).subrange(0, i as int),
            forall|k: int| 0 <= k < i ==> crate::authority::valid_check_name(#[trigger] check_views(pairs@)[k].0),
        decreases checks.len() - i,
    {
        if !valid_check_name_exec(&checks[i].0) {
            return Err(AuthorityError::InvalidCheckName(checks[i].0.clone()));
        }
        checks[i].1.validate()?;
        let ghost before = pairs@;
        pairs.push((checks[i].0.clone(), checks[i].1.outcome));
        assert(check_views(pairs@) =~= outcome_views(checks@).subrange(0, i + 1)) by {
            assert(check_views(pairs@) =~= check_views(before).push((checks@[i as int].0@, checks@[i as int].1.outcome)));
        }
        i = i + 1;
    }
    assert(outcome_views(checks@).subrange(0, checks@.len() as int) =~= outcome_views(checks@));
    proof {
        lemma_no_bad_name(check_views(pairs@), 0);
    }
    derive_assessment_outcome(&pairs)
}

/// Whether two results are the same document.
pub fn same_result(a: &CapabilityResult, b: &CapabilityResult) -> (r: bool)
    ensures
        r == (result_doc(*a) == result_doc(*b)),
{
    let x = result_json(a);
    let y = result_json(b);
    json_equal(&x, &y)
}

/// Content-identified, independently produced validation of one exact
/// candidate.
#[derive(Clone, Debug, PartialEq, Eq)]
pub struct ConformanceAssessment {
    pub assessment_id: Sha256Digest,
    pub protocol: String,
    pub invocation_id: Sha256Digest,
    pub result_id: Sha256Digest,
    pub candidate_id: Sha256Digest,
    pub authority: ConformanceAuthority,
    pub outcome: AssessmentOutcome,
    /// Named checks, held in name order.
    pub checks: Vec<(String, ConformanceCheck)>,
    pub evidence: Vec<EvidenceRef>,
    pub extensions: Vec<JsonMember>,
}

pub open spec fn assessment_fields() -> Seq<Seq<char>> {
    seq![
        "assessment_id"@,
        "protocol"@,
        "invocation_id"@,
        "result_id"@,
        "candidate_id"@,
        "authority"@,
        "outcome"@,
        "checks"@,
        "evidence"@,
    ]
}

/// Whether an attester shares the selected implementation or artifact.
pub open spec fn not_independent(attester: ConformanceAttester, invocation: CapabilityInvocation) -> bool {
    attester.implementation@ == invocation.selection.offer.implementation@ || attester.artifact_digest@
        == invocation.selection.offer.artifact_digest@
}

/// Why a chain does not hold together: the invocation, the result, the
/// candidate, or a candidate that embeds another result.
pub open spec fn chain_fault(
    invocation: CapabilityInvocation,
    result: CapabilityResult,
    candidate: CapabilityCandidate,
) -> Option<AuthFault> {
    if invocation_fault(invocation) is Some {
        lift(invocation_fault(invocation))
    } else if result_fault(result, invocation) is Some {
        lift(result_fault(result, invocation))
    } else if candidate_fault(candidate, invocation) is Some {
        lift(candidate_fault(candidate, invocation))
    } else if result_doc(candidate.result) != result_doc(result) {
        Some(AuthFault::ResultCandidateMismatch)
    } else {
        None
    }
}

/// Why an assessment of these parts is refused for this chain.
pub open spec fn assessment_parts_fault(
    protocol: Seq<char>,
    invocation_id: Seq<char>,
    result_id: Seq<char>,
    candidate_id: Seq<char>,
    authority: ConformanceAuthority,
    outcome: AssessmentOutcome,
    checks: Seq<(String, ConformanceCheck)>,
    evidence: Seq<EvidenceRef>,
    extensions: Seq<JsonMember>,
    invocation: CapabilityInvocation,
    result: CapabilityResult,
    candidate: CapabilityCandidate,
) -> Option<AuthFault> {
    if protocol != ASSESSMENT_PROTOCOL@ {
        Some(AuthFault::ProtocolMismatch(ASSESSMENT_PROTOCOL@, protocol))
    } else if chain_fault(invocation, result, candidate) is Some {
        chain_fault(invocation, result, candidate)
    } else if invocation_id != invocation.invocation_id@ || result_id != result.result_id@ || candidate_id
        != candidate.candidate_id@ {
        Some(AuthFault::AssessmentCorrelationMismatch)
    } else if conformance_authority_fault(authority) is Some {
        conformance_authority_fault(authority)
    } else if authority.suite@ != invocation.conformance_suite@ {
        Some(AuthFault::ConformanceSuiteMismatch)
    } else if not_independent(authority.attester, invocation) {
        Some(AuthFault::AttesterNotIndependent)
    } else if checks_outcome(checks) is Err {
        Some(checks_outcome(checks)->Err_0)
    } else if outcome != checks_outcome(checks)->Ok_0 {
        Some(AuthFault::AssessmentOutcomeMismatch)
    } else if first_evidence_fault(evidence, 0) is Some {
        lift(first_evidence_fault(evidence, 0))
    } else {
        a_ext_fault("conformance assessment"@, assessment_fields(), extensions)
    }
}

pub open spec fn assessment_structure_fault(
    a: ConformanceAssessment,
    invocation: CapabilityInvocation,
    result: CapabilityResult,
    candidate: CapabilityCandidate,
) -> Option<AuthFault> {
    assessment_parts_fault(
        a.protocol@,
        a.invocation_id@,
        a.result_id@,
        a.candidate_id@,
        a.authority,
        a.outcome,
        a.checks@,
        a.evidence@,
        a.extensions@,
        invocation,
        result,
        candidate,
    )
}

pub open spec fn checks_doc(checks: Seq<(String, ConformanceCheck)>) -> Json {
    Json::Object(Seq::new(checks.len(), |i: int| checks[i].0@), Seq::new(checks.len(), |i: int| check_doc(checks[i].1)))
}

pub open spec fn assessment_body_of(
    protocol: Seq<char>,
    invocation_id: Seq<char>,
    result_id: Seq<char>,
    candidate_id: Seq<char>,
    authority: ConformanceAuthority,
    outcome: AssessmentOutcome,
    checks: Seq<(String, ConformanceCheck)>,
    evidence: Seq<EvidenceRef>,
    extensions: Seq<JsonMember>,
) -> Json {
    with_ext(
        seq!["protocol"@, "invocation_id"@, "result_id"@, "candidate_id"@, "authority"@, "outcome"@, "checks"@, "evidence"@],
        seq![
            Json::Str(protocol),
            Json::Str(invocation_id),
            Json::Str(result_id),
            Json::Str(candidate_id),
            conformance_authority_doc(authority),
            Json::Str(outcome_name(outcome)),
            checks_doc(checks),
            evidence_docs(evidence),
        ],
        extensions,
    )
}

pub open spec fn assessment_body(a: ConformanceAssessment) -> Json {
    assessment_body_of(
        a.protocol@,
        a.invocation_id@,
        a.result_id@,
        a.candidate_id@,
        a.authority,
        a.outcome,
        a.checks@,
        a.evidence@,
        a.extensions@,
    )
}

pub open spec fn assessment_doc(a: ConformanceAssessment) -> Json {
    with_ext(
        assessment_fields(),
        seq![
            Json::Str(a.assessment_id@),
            Json::Str(a.protocol@),
            Json::Str(a.invocation_id@),
            Json::Str(a.result_id@),
            Json::Str(a.candidate_id@),
            conformance_authority_doc(a.authority),
            Json::Str(outcome_name(a.outcome)),
            checks_doc(a.checks@),
            evidence_docs(a.evidence@),
        ],
        a.extensions@,
    )
}

/// Why an assessment is refused for this chain, or nothing: its structure,
/// then its identity.
pub open spec fn assessment_fault(
    a: ConformanceAssessment,
    invocation: CapabilityInvocation,
    result: CapabilityResult,
    candidate: CapabilityCandidate,
) -> Option<AuthFault> {
    match assessment_structure_fault(a, invocation, result, candidate) {
        Some(f) => Some(f),
        None => a_id_fault("conformance assessment"@, assessment_body(a), a.assessment_id@),
    }
}

/// Why a new assessment is refused: its checks, then its parts.
pub open spec fn assessment_new_fault(
    invocation: CapabilityInvocation,
    result: CapabilityResult,
    candidate: CapabilityCandidate,
    authority: ConformanceAuthority,
    checks: Seq<(String, ConformanceCheck)>,
    evidence: Seq<EvidenceRef>,
    extensions: Seq<JsonMember>,
) -> Option<AuthFault> {
    match checks_outcome(checks) {
        Err(f) => Some(f),
        Ok(o) => assessment_parts_fault(
            ASSESSMENT_PROTOCOL@,
            invocation.invocation_id@,
            result.result_id@,
            candidate.candidate_id@,
            authority,
            o,
            checks,
            evidence,
            extensions,
            invocation,
            result,
            candidate,
        ),
    }
}

fn checks_json(checks: &Vec<(String, ConformanceCheck)>) -> (r: JsonValue)
    ensures
        r@ == checks_doc(checks@),
{
    let mut m: Vec<JsonMember> = Vec::new();
    let mut i: usize = 0;
    while i < checks.len()
        invariant
            i <= checks.len(),
            key_views(m@) == Seq::new(i as nat, |k: int| checks@[k].0@),
            value_views(m@) == Seq::new(i as nat, |k: int| check_doc(checks@[k].1)),
        decreases checks.len() - i,
    {
        let ghost kb = key_views(m@);
        let ghost vb = value_views(m@);
        push_member(&mut m, checks[i].0.as_str(), check_json(&checks[i].1));
        assert(key_views(m@) =~= Seq::new((i + 1) as nat, |k: int| checks@[k].0@));
        assert(value_views(m@) =~= Seq::new((i + 1) as nat, |k: int| check_doc(checks@[k].1)));
        i = i + 1;
    }
    crate::json::json_object(m)
}

fn assessment_body_json(a: &ConformanceAssessment) -> (r: JsonValue)
    ensures
        r@ == assessment_body(*a),
{
    let mut m: Vec<JsonMember> = Vec::new();
    assert(key_views(m@) =~= Seq::<Seq<char>>::empty());
    assert(value_views(m@) =~= Seq::<Json>::empty());
    push_member(&mut m, "protocol", json_text(a.protocol.as_str()));
    push_member(&mut m, "invocation_id", json_text(a.invocation_id.as_str()));
    push_member(&mut m, "result_id", json_text(a.result_id.as_str()));
    push_member(&mut m, "candidate_id", json_text(a.candidate_id.as_str()));
    push_member(&mut m, "authority", conformance_authority_json(&a.authority));
    push_member(&mut m, "outcome", json_text(outcome_str(a.outcome)));
    push_member(&mut m, "checks", checks_json(&a.checks));
    push_member(&mut m, "evidence", evidence_list_json(&a.evidence));
    assert(key_views(m@) =~= seq![
        "protocol"@,
        "invocation_id"@,
        "result_id"@,
        "candidate_id"@,
        "authority"@,
        "outcome"@,
        "checks"@,
        "evidence"@,
    ]);
    assert(value_views(m@) =~= seq![
        Json::Str(a.protocol@),
        Json::Str(a.invocation_id@),
        Json::Str(a.result_id@),
        Json::Str(a.candidate_id@),
        conformance_authority_doc(a.authority),
        Json::Str(outcome_name(a.outcome)),
        checks_doc(a.checks@),
        evidence_docs(a.evidence@),
    ]);
    object_with(m, &a.extensions)
}

/// The complete assessment document.
pub fn assessment_json(a: &ConformanceAssessment) -> (r: JsonValue)
    ensures
        r@ == assessment_doc(*a),
{
    let mut m: Vec<JsonMember> = Vec::new();
    assert(key_views(m@) =~= Seq::<Seq<char>>::empty());
    assert(value_views(m@) =~= Seq::<Json>::empty());
    push_member(&mut m, "assessment_id", json_text(a.assessment_id.as_str()));
    push_member(&mut m, "protocol", json_text(a.protocol.as_str()));
    push_member(&mut m, "invocation_id", json_text(a.invocation_id.as_str()));
    push_member(&mut m, "result_id", json_text(a.result_id.as_str()));
    push_member(&mut m, "candidate_id", json_text(a.candidate_id.as_str()));
    push_member(&mut m, "authority", conformance_authority_json(&a.authority));
    push_member(&mut m, "outcome", json_text(outcome_str(a.outcome)));
    push_member(&mut m, "checks", checks_json(&a.checks));
    push_member(&mut m, "evidence", evidence_list_json(&a.evidence));
    assert(key_views(m@) =~= assessment_fields());
    assert(value_views(m@) =~= seq![
        Json::Str(a.assessment_id@),
        Json::Str(a.protocol@),
        Json::Str(a.invocation_id@),
        Json::Str(a.result_id@),
        Json::Str(a.candidate_id@),
        conformance_authority_doc(a.authority),
        Json::Str(outcome_name(a.outcome)),
        checks_doc(a.checks@),
        evidence_docs(a.evidence@),
    ]);
    object_with(m, &a.extensions)
}

/// Checks that an invocation, its result and its candidate form one
/// chain.
pub fn validate_chain(
    invocation: &CapabilityInvocation,
    result: &CapabilityResult,
    candidate: &CapabilityCandidate,
) -> (r: Result<(), AuthorityError>)
    ensures
        r is Ok <==> chain_fault(*invocation, *result, *candidate) is None,
        r matches Err(e) ==> chain_fault(*invocation, *result, *candidate) == Some(auth_fault_of(e)),
{
    lift_err(invocation.validate())?;
    lift_err(result.validate_against(invocation))?;
    lift_err(candidate.validate_against(invocation))?;
    if !same_result(&candidate.result, result) {
        return Err(AuthorityError::ResultCandidateMismatch);
    }
    Ok(())
}

impl ConformanceAssessment {
    #[verifier::rlimit(30)]
    fn validate_structure_against(
        &self,
        invocation: &CapabilityInvocation,
        result: &CapabilityResult,
        candidate: &CapabilityCandidate,
    ) -> (r: Result<(), AuthorityError>)
        ensures
            r is Ok <==> assessment_structure_fault(*self, *invocation, *result, *candidate) is None,
            r matches Err(e) ==> assessment_structure_fault(*self, *invocation, *result, *candidate) == Some(
                auth_fault_of(e),
            ),
    {
        check_protocol(ASSESSMENT_PROTOCOL, self.protocol.as_str())?;
        validate_chain(invocation, result, candidate)?;
        if !self.invocation_id.same_as(&invocation.invocation_id) || !self.result_id.same_as(&result.result_id)
            || !self.candidate_id.same_as(&candidate.candidate_id) {
            return Err(AuthorityError::AssessmentCorrelationMismatch);
        }
        self.authority.validate()?;
        if !self.authority.suite.same_as(&invocation.conformance_suite) {
            return Err(AuthorityError::ConformanceSuiteMismatch);
        }
        let selected = &invocation.selection.offer;
        if self.authority.attester.implementation.same_as(&selected.implementation)
            || self.authority.attester.artifact_digest.same_as(&selected.artifact_digest) {
            return Err(AuthorityError::AttesterNotIndependent);
        }
        let expected = derive_checks_outcome(&self.checks)?;
        if self.outcome != expected {
            return Err(AuthorityError::AssessmentOutcomeMismatch);
        }
        check_evidence_list(&self.evidence)?;
        let fields: [&str; 9] = [
            "assessment_id",
            "protocol",
            "invocation_id",
            "result_id",
            "candidate_id",
            "authority",
            "outcome",
            "checks",
            "evidence",
        ];
        assert(str_views(fields@) =~= assessment_fields());
        check_ext("conformance assessment", &self.extensions, fields.as_slice())
    }

    /// Revalidates the assessment against the exact chain it names, and its
    /// content-derived identity.
    pub fn validate_against(
        &self,
        invocation: &CapabilityInvocation,
        result: &CapabilityResult,
        candidate: &CapabilityCandidate,
    ) -> (r: Result<(), AuthorityError>)
        ensures
            r is Ok <==> assessment_fault(*self, *invocation, *result, *candidate) is None,
            r matches Err(e) ==> assessment_fault(*self, *invocation, *result, *candidate) == Some(auth_fault_of(e)),
    {
        self.validate_structure_against(invocation, result, candidate)?;
        let body = assessment_body_json(self);
        check_id("conformance assessment", &body, &self.assessment_id)
    }

    /// An assessment of this chain by this authority from these named
    /// checks; its outcome is derived from the checks.
    pub fn new(
        invocation: &CapabilityInvocation,
        result: &CapabilityResult,
        candidate: &CapabilityCandidate,
        authority: ConformanceAuthority,
        checks: Vec<(String, ConformanceCheck)>,
        evidence: Vec<EvidenceRef>,
        extensions: Vec<JsonMember>,
    ) -> (r: Result<Self, AuthorityError>)
        ensures
            r matches Ok(a) ==> a.protocol@ == ASSESSMENT_PROTOCOL@ && a.invocation_id@ == invocation.invocation_id@
                && a.result_id@ == result.result_id@ && a.candidate_id@ == candidate.candidate_id@ && a.authority
                == authority && a.checks == checks && a.evidence == evidence && a.extensions == extensions
                && checks_outcome(checks@) == Ok::<AssessmentOutcome, AuthFault>(a.outcome) && assessment_fault(
                a,
                *invocation,
                *result,
                *candidate,
            ) is None,
            r is Ok <==> assessment_new_fault(*invocation, *result, *candidate, authority, checks@, evidence@, extensions@)
                is None && content_id(
                assessment_body_of(
                    ASSESSMENT_PROTOCOL@,
                    invocation.invocation_id@,
                    result.result_id@,
                    candidate.candidate_id@,
                    authority,
                    checks_outcome(checks@)->Ok_0,
                    checks@,
                    evidence@,
                    extensions@,
                ),
            ) is Some,
            r matches Err(e) ==> auth_fault_of(e) == a_first_or_serialization(
                assessment_new_fault(*invocation, *result, *candidate, authority, checks@, evidence@, extensions@),
            ),
    {
        let outcome = derive_checks_outcome(&checks)?;
        let mut assessment = ConformanceAssessment {
            assessment_id: placeholder_sha256(),
            protocol: owned(ASSESSMENT_PROTOCOL),
            invocation_id: invocation.invocation_id.duplicate(),
            result_id: result.result_id.duplicate(),
            candidate_id: candidate.candidate_id.duplicate(),
            authority,
            outcome,
            checks,
            evidence,
            extensions,
        };
        assessment.validate_structure_against(invocation, result, candidate)?;
        let body = assessment_body_json(&assessment);
        assessment.assessment_id = derive_id(&body)?;
        Ok(assessment)
    }
}

// ---- policies ----

/// A content-identified local allow-list of exact conformance and
/// observation authorities. An empty list denies everything; no authority
/// is inferred from a suite name, an implementation name or evidence a
/// candidate supplies.
#[derive(Clone, Debug, PartialEq, Eq)]
pub struct AdmissionPolicy {
    pub policy_id: Sha256Digest,
    pub protocol: String,
    pub decision_authority: ExactId,
    pub accepted_conformance: Vec<ConformanceAuthority>,
    pub accepted_observations: Vec<ObservationAuthority>,
    pub extensions: Vec<JsonMember>,
}

pub open spec fn policy_fields() -> Seq<Seq<char>> {
    seq!["policy_id"@, "protocol"@, "decision_authority"@, "accepted_conformance"@, "accepted_observations"@]
}

/// The first accepted conformance authority, from `i` on, that is refused,
/// cannot be canonicalized, or canonicalizes like an earlier one.
pub open spec fn first_conformance_fault(list: Seq<ConformanceAuthority>, i: int) -> Option<AuthFault>
    decreases list.len() - i,
{
    if i < 0 || i >= list.len() {
        None
    } else if conformance_authority_fault(list[i]) is Some {
        conformance_authority_fault(list[i])
    } else if canonical_bytes_of(conformance_authority_doc(list[i])) is None {
        Some(AuthFault::Serialization(serialization_text()))
    } else if exists|j: int|
        0 <= j < i && canonical_bytes_of(conformance_authority_doc(#[trigger] list[j])) == canonical_bytes_of(
            conformance_authority_doc(list[i]),
        ) {
        Some(AuthFault::DuplicateAcceptedAuthority)
    } else {
        first_conformance_fault(list, i + 1)
    }
}

pub open spec fn first_observation_authority_fault(list: Seq<ObservationAuthority>, i: int) -> Option<AuthFault>
    decreases list.len() - i,
{
    if i < 0 || i >= list.len() {
        None
    } else if observation_authority_fault(list[i]) is Some {
        observation_authority_fault(list[i])
    } else if canonical_bytes_of(observation_authority_doc(list[i])) is None {
        Some(AuthFault::Serialization(serialization_text()))
    } else if exists|j: int|
        0 <= j < i && canonical_bytes_of(observation_authority_doc(#[trigger] list[j])) == canonical_bytes_of(
            observation_authority_doc(list[i]),
        ) {
        Some(AuthFault::DuplicateAcceptedAuthority)
    } else {
        first_observation_authority_fault(list, i + 1)
    }
}

/// Why a decision authority, accepted authorities and extensions cannot
/// form a policy.
pub open spec fn policy_parts_fault(
    decision_authority: IdView,
    conformance: Seq<ConformanceAuthority>,
    observations: Seq<ObservationAuthority>,
    extensions: Seq<JsonMember>,
) -> Option<AuthFault> {
    if a_exact_fault("admission decision authority"@, decision_authority) is Some {
        a_exact_fault("admission decision authority"@, decision_authority)
    } else if first_conformance_fault(conformance, 0) is Some {
        first_conformance_fault(conformance, 0)
    } else if first_observation_authority_fault(observations, 0) is Some {
        first_observation_authority_fault(observations, 0)
    } else {
        a_ext_fault("admission policy"@, policy_fields(), extensions)
    }
}

pub open spec fn policy_structure_fault(p: AdmissionPolicy) -> Option<AuthFault> {
    if p.protocol@ != ADMISSION_POLICY_PROTOCOL@ {
        Some(AuthFault::ProtocolMismatch(ADMISSION_POLICY_PROTOCOL@, p.protocol@))
    } else {
        policy_parts_fault(p.decision_authority@, p.accepted_conformance@, p.accepted_observations@, p.extensions@)
    }
}

pub open spec fn conformance_docs(list: Seq<ConformanceAuthority>) -> Json {
    Json::Array(Seq::new(list.len(), |i: int| conformance_authority_doc(list[i])))
}

pub open spec fn observation_authority_docs(list: Seq<ObservationAuthority>) -> Json {
    Json::Array(Seq::new(list.len(), |i: int| observation_authority_doc(list[i])))
}

pub open spec fn policy_body_of(
    protocol: Seq<char>,
    decision_authority: IdView,
    conformance: Seq<ConformanceAuthority>,
    observations: Seq<ObservationAuthority>,
    extensions: Seq<JsonMember>,
) -> Json {
    with_ext(
        seq!["protocol"@, "decision_authority"@, "accepted_conformance"@, "accepted_observations"@],
        seq![
            Json::Str(protocol),
            id_doc(decision_authority),
            conformance_docs(conformance),
            observation_authority_docs(observations),
        ],
        extensions,
    )
}

pub open spec fn policy_body(p: AdmissionPolicy) -> Json {
    policy_body_of(p.protocol@, p.decision_authority@, p.accepted_conformance@, p.accepted_observations@, p.extensions@)
}

pub open spec fn policy_doc(p: AdmissionPolicy) -> Json {
    with_ext(
        policy_fields(),
        seq![
            Json::Str(p.policy_id@),
            Json::Str(p.protocol@),
            id_doc(p.decision_authority@),
            conformance_docs(p.accepted_conformance@),
            observation_authority_docs(p.accepted_observations@),
        ],
        p.extensions@,
    )
}

/// Why a policy is refused, or nothing: its structure, then its identity.
pub open spec fn policy_fault(p: AdmissionPolicy) -> Option<AuthFault> {
    match policy_structure_fault(p) {
        Some(f) => Some(f),
        None => a_id_fault("admission policy"@, policy_body(p), p.policy_id@),
    }
}

/// Whether the policy lists exactly this conformance authority.
pub open spec fn accepts_conformance(p: AdmissionPolicy, a: ConformanceAuthority) -> bool {
    exists|k: int|
        0 <= k < p.accepted_conformance@.len() && conformance_authority_doc(#[trigger] p.accepted_conformance@[k])
            == conformance_authority_doc(a)
}

/// Whether the policy lists exactly this observation authority.
pub open spec fn accepts_observation(p: AdmissionPolicy, a: ObservationAuthority) -> bool {
    exists|k: int|
        0 <= k < p.accepted_observations@.len() && observation_authority_doc(#[trigger] p.accepted_observations@[k])
            == observation_authority_doc(a)
}

fn bytes_eq(a: &Vec<u8>, b: &Vec<u8>) -> (r: bool)
    ensures
        r == (a@ == b@),
{
    if a.len() != b.len() {
        return false;
    }
    let mut i: usize = 0;
    while i < a.len()
        invariant
            i <= a.len(),
            a.len() == b.len(),
            forall|k: int| 0 <= k < i ==> a@[k] == b@[k],
        decreases a.len() - i,
    {
        if a[i] != b[i] {
            return false;
        }
        i = i + 1;
    }
    assert(a@ =~= b@);
    true
}

fn seen_before(seen: &Vec<Vec<u8>>, b: &Vec<u8>) -> (r: bool)
    ensures
        r == exists|j: int| 0 <= j < seen@.len() && (#[trigger] seen@[j])@ == b@,
{
    let mut j: usize = 0;
    while j < seen.len()
        invariant
            j <= seen.len(),
            forall|k: int| 0 <= k < j ==> (#[trigger] seen@[k])@ != b@,
        decreases seen.len() - j,
    {
        if bytes_eq(&seen[j], b) {
            return true;
        }
        j = j + 1;
    }
    false
}

fn check_conformance_list(list: &Vec<ConformanceAuthority>) -> (r: Result<(), AuthorityError>)
    ensures
        r is Ok <==> first_conformance_fault(list@, 0) is None,
        r matches Err(e) ==> first_conformance_fault(list@, 0) == Some(auth_fault_of(e)),
{
    let mut seen: Vec<Vec<u8>> = Vec::new();
    let mut i: usize = 0;
    while i < list.len()
        invariant
            i <= list.len(),
            seen@.len() == i,
            first_conformance_fault(list@, 0) == first_conformance_fault(list@, i as int),
            forall|k: int| 0 <= k < i ==> Some((#[trigger] seen@[k])@) == canonical_bytes_of(conformance_authority_doc(list@[k])),
        decreases list.len() - i,
    {
        list[i].validate()?;
        let doc = conformance_authority_json(&list[i]);
        let bytes = match canonical_bytes(&doc) {
            Some(b) => b,
            None => {
                return Err(AuthorityError::Serialization(owned("canonical JSON serialization failed")));
            },
        };
        if seen_before(&seen, &bytes) {
            let ghost j = choose|j: int| 0 <= j < seen@.len() && (#[trigger] seen@[j])@ == bytes@;
            assert(canonical_bytes_of(conformance_authority_doc(list@[j])) == canonical_bytes_of(
                conformance_authority_doc(list@[i as int]),
            ));
            return Err(AuthorityError::DuplicateAcceptedAuthority);
        }
        proof {
            if exists|j: int|
                0 <= j < i && canonical_bytes_of(conformance_authority_doc(#[trigger] list@[j])) == canonical_bytes_of(
                    conformance_authority_doc(list@[i as int]),
                ) {
                let j = choose|j: int|
                    0 <= j < i && canonical_bytes_of(conformance_authority_doc(#[trigger] list@[j])) == canonical_bytes_of(
                        conformance_authority_doc(list@[i as int]),
                    );
                assert(seen@[j]@ == bytes@);
            }
        }
        let ghost before = seen@;
        seen.push(bytes);
        assert forall|k: int| 0 <= k < i + 1 implies Some((#[trigger] seen@[k])@) == canonical_bytes_of(
            conformance_authority_doc(list@[k]),
        ) by {
            if k < i {
                assert(seen@[k] == before[k]);
            }
        }
        i = i + 1;
    }
    Ok(())
}

fn check_observation_authority_list(list: &Vec<ObservationAuthority>) -> (r: Result<(), AuthorityError>)
    ensures
        r is Ok <==> first_observation_authority_fault(list@, 0) is None,
        r matches Err(e) ==> first_observation_authority_fault(list@, 0) == Some(auth_fault_of(e)),
{
    let mut seen: Vec<Vec<u8>> = Vec::new();
    let mut i: usize = 0;
    while i < list.len()
        invariant
            i <= list.len(),
            seen@.len() == i,
            first_observation_authority_fault(list@, 0) == first_observation_authority_fault(list@, i as int),
            forall|k: int| 0 <= k < i ==> Some((#[trigger] seen@[k])@) == canonical_bytes_of(observation_authority_doc(list@[k])),
        decreases list.len() - i,
    {
        list[i].validate()?;
        let doc = observation_authority_json(&list[i]);
        let bytes = match canonical_bytes(&doc) {
            Some(b) => b,
            None => {
                return Err(AuthorityError::Serialization(owned("canonical JSON serialization failed")));
            },
        };
        if seen_before(&seen, &bytes) {
            let ghost j = choose|j: int| 0 <= j < seen@.len() && (#[trigger] seen@[j])@ == bytes@;
            assert(canonical_bytes_of(observation_authority_doc(list@[j])) == canonical_bytes_of(
                observation_authority_doc(list@[i as int]),
            ));
            return Err(AuthorityError::DuplicateAcceptedAuthority);
        }
        proof {
            if exists|j: int|
                0 <= j < i && canonical_bytes_of(observation_authority_doc(#[trigger] list@[j])) == canonical_bytes_of(
                    observation_authority_doc(list@[i as int]),
                ) {
                let j = choose|j: int|
                    0 <= j < i && canonical_bytes_of(observation_authority_doc(#[trigger] list@[j])) == canonical_bytes_of(
                        observation_authority_doc(list@[i as int]),
                    );
                assert(seen@[j]@ == bytes@);
            }
        }
        let ghost before = seen@;
        seen.push(bytes);
        assert forall|k: int| 0 <= k < i + 1 implies Some((#[trigger] seen@[k])@) == canonical_bytes_of(
            observation_authority_doc(list@[k]),
        ) by {
            if k < i {
                assert(seen@[k] == before[k]);
            }
        }
        i = i + 1;
    }
    Ok(())
}

fn conformance_list_json(list: &Vec<ConformanceAuthority>) -> (r: JsonValue)
    ensures
        r@ == conformance_docs(list@),
{
    let mut items: Vec<JsonValue> = Vec::new();
    let mut i: usize = 0;
    while i < list.len()
        invariant
            i <= list.len(),
            crate::json::item_views(items@) == Seq::new(i as nat, |k: int| conformance_authority_doc(list@[k])),
        decreases list.len() - i,
    {
        let ghost before = items@;
        items.push(conformance_authority_json(&list[i]));
        assert(crate::json::item_views(items@) =~= Seq::new((i + 1) as nat, |k: int| conformance_authority_doc(list@[k]))) by {
            assert(crate::json::item_views(items@) =~= crate::json::item_views(before).push(
                conformance_authority_doc(list@[i as int]),
            ));
        }
        i = i + 1;
    }
    json_array(items)
}

fn observation_authority_list_json(list: &Vec<ObservationAuthority>) -> (r: JsonValue)
    ensures
        r@ == observation_authority_docs(list@),
{
    let mut items: Vec<JsonValue> = Vec::new();
    let mut i: usize = 0;
    while i < list.len()
        invariant
            i <= list.len(),
            crate::json::item_views(items@) == Seq::new(i as nat, |k: int| observation_authority_doc(list@[k])),
        decreases list.len() - i,
    {
        let ghost before = items@;
        items.push(observation_authority_json(&list[i]));
        assert(crate::json::item_views(items@) =~= Seq::new((i + 1) as nat, |k: int| observation_authority_doc(list@[k])))
            by {
            assert(crate::json::item_views(items@) =~= crate::json::item_views(before).push(
                observation_authority_doc(list@[i as int]),
            ));
        }
        i = i + 1;
    }
    json_array(items)
}

fn policy_body_json(p: &AdmissionPolicy) -> (r: JsonValue)
    ensures
        r@ == policy_body(*p),
{
    let mut m: Vec<JsonMember> = Vec::new();
    assert(key_views(m@) =~= Seq::<Seq<char>>::empty());
    assert(value_views(m@) =~= Seq::<Json>::empty());
    push_member(&mut m, "protocol", json_text(p.protocol.as_str()));
    push_member(&mut m, "decision_authority", id_json(&p.decision_authority));
    push_member(&mut m, "accepted_conformance", conformance_list_json(&p.accepted_conformance));
    push_member(&mut m, "accepted_observations", observation_authority_list_json(&p.accepted_observations));
    assert(key_views(m@) =~= seq!["protocol"@, "decision_authority"@, "accepted_conformance"@, "accepted_observations"@]);
    assert(value_views(m@) =~= seq![
        Json::Str(p.protocol@),
        id_doc(p.decision_authority@),
        conformance_docs(p.accepted_conformance@),
        observation_authority_docs(p.accepted_observations@),
    ]);
    object_with(m, &p.extensions)
}

/// The complete policy document.
pub fn policy_json(p: &AdmissionPolicy) -> (r: JsonValue)
    ensures
        r@ == policy_doc(*p),
{
    let mut m: Vec<JsonMember> = Vec::new();
    assert(key_views(m@) =~= Seq::<Seq<char>>::empty());
    assert(value_views(m@) =~= Seq::<Json>::empty());
    push_member(&mut m, "policy_id", json_text(p.policy_id.as_str()));
    push_member(&mut m, "protocol", json_text(p.protocol.as_str()));
    push_member(&mut m, "decision_authority", id_json(&p.decision_authority));
    push_member(&mut m, "accepted_conformance", conformance_list_json(&p.accepted_conformance));
    push_member(&mut m, "accepted_observations", observation_authority_list_json(&p.accepted_observations));
    assert(key_views(m@) =~= policy_fields());
    assert(value_views(m@) =~= seq![
        Json::Str(p.policy_id@),
        Json::Str(p.protocol@),
        id_doc(p.decision_authority@),
        conformance_docs(p.accepted_conformance@),
        observation_authority_docs(p.accepted_observations@),
    ]);
    object_with(m, &p.extensions)
}

impl AdmissionPolicy {
    fn validate_structure(&self) -> (r: Result<(), AuthorityError>)
        ensures
            r is Ok <==> policy_structure_fault(*self) is None,
            r matches Err(e) ==> policy_structure_fault(*self) == Some(auth_fault_of(e)),
    {
        check_protocol(ADMISSION_POLICY_PROTOCOL, self.protocol.as_str())?;
        check_exact("admission decision authority", &self.decision_authority)?;
        check_conformance_list(&self.accepted_conformance)?;
        check_observation_authority_list(&self.accepted_observations)?;
        let fields: [&str; 5] = [
            "policy_id",
            "protocol",
            "decision_authority",
            "accepted_conformance",
            "accepted_observations",
        ];
        assert(str_views(fields@) =~= policy_fields());
        check_ext("admission policy", &self.extensions, fields.as_slice())
    }

    /// Revalidates the structure and the content-derived identity.
    pub fn validate(&self) -> (r: Result<(), AuthorityError>)
        ensures
            r is Ok <==> policy_fault(*self) is None,
            r matches Err(e) ==> policy_fault(*self) == Some(auth_fault_of(e)),
    {
        self.validate_structure()?;
        let body = policy_body_json(self);
        check_id("admission policy", &body, &self.policy_id)
    }

    /// A policy of this decision authority accepting exactly these
    /// authorities, identified by its content.
    pub fn new(
        decision_authority: ExactId,
        accepted_conformance: Vec<ConformanceAuthority>,
        accepted_observations: Vec<ObservationAuthority>,
        extensions: Vec<JsonMember>,
    ) -> (r: Result<Self, AuthorityError>)
        ensures
            r matches Ok(p) ==> p.protocol@ == ADMISSION_POLICY_PROTOCOL@ && p.decision_authority == decision_authority
                && p.accepted_conformance == accepted_conformance && p.accepted_observations == accepted_observations
                && p.extensions == extensions && policy_fault(p) is None,
            r is Ok <==> policy_parts_fault(decision_authority@, accepted_conformance@, accepted_observations@, extensions@)
                is None && content_id(
                policy_body_of(
                    ADMISSION_POLICY_PROTOCOL@,
                    decision_authority@,
                    accepted_conformance@,
                    accepted_observations@,
                    extensions@,
                ),
            ) is Some,
            r matches Err(e) ==> auth_fault_of(e) == a_first_or_serialization(
                policy_parts_fault(decision_authority@, accepted_conformance@, accepted_observations@, extensions@),
            ),
    {
        let mut policy = AdmissionPolicy {
            policy_id: placeholder_sha256(),
            protocol: owned(ADMISSION_POLICY_PROTOCOL),
            decision_authority,
            accepted_conformance,
            accepted_observations,
            extensions,
        };
        policy.validate_structure()?;
        let body = policy_body_json(&policy);
        policy.policy_id = derive_id(&body)?;
        Ok(policy)
    }

    /// The default-deny policy: it accepts no authority at all.
    pub fn deny_all(decision_authority: ExactId, extensions: Vec<JsonMember>) -> (r: Result<Self, AuthorityError>)
        ensures
            r matches Ok(p) ==> p.protocol@ == ADMISSION_POLICY_PROTOCOL@ && p.decision_authority == decision_authority
                && p.accepted_conformance@.len() == 0 && p.accepted_observations@.len() == 0 && p.extensions == extensions
                && policy_fault(p) is None,
            r is Ok <==> policy_parts_fault(decision_authority@, Seq::empty(), Seq::empty(), extensions@) is None
                && content_id(
                policy_body_of(ADMISSION_POLICY_PROTOCOL@, decision_authority@, Seq::empty(), Seq::empty(), extensions@),
            ) is Some,
            r matches Err(e) ==> auth_fault_of(e) == a_first_or_serialization(
                policy_parts_fault(decision_authority@, Seq::empty(), Seq::empty(), extensions@),
            ),
    {
        let conformance: Vec<ConformanceAuthority> = Vec::new();
        let observations: Vec<ObservationAuthority> = Vec::new();
        assert(conformance@ =~= Seq::<ConformanceAuthority>::empty());
        assert(observations@ =~= Seq::<ObservationAuthority>::empty());
        Self::new(decision_authority, conformance, observations, extensions)
    }

    /// Whether this policy lists exactly this conformance authority.
    pub fn accepts_conformance(&self, authority: &ConformanceAuthority) -> (r: bool)
        ensures
            r == accepts_conformance(*self, *authority),
    {
        let target = conformance_authority_json(authority);
        let mut i: usize = 0;
        while i < self.accepted_conformance.len()
            invariant
                i <= self.accepted_conformance.len(),
                target@ == conformance_authority_doc(*authority),
                forall|k: int|
                    0 <= k < i ==> conformance_authority_doc(#[trigger] self.accepted_conformance@[k])
                        != conformance_authority_doc(*authority),
            decreases self.accepted_conformance.len() - i,
        {
            let doc = conformance_authority_json(&self.accepted_conformance[i]);
            if json_equal(&doc, &target) {
                return true;
            }
            i = i + 1;
        }
        false
    }

    /// Whether this policy lists exactly this observation authority.
    pub fn accepts_observation(&self, authority: &ObservationAuthority) -> (r: bool)
        ensures
            r == accepts_observation(*self, *authority),
    {
        let target = observation_authority_json(authority);
        let mut i: usize = 0;
        while i < self.accepted_observations.len()
            invariant
                i <= self.accepted_observations.len(),
                target@ == observation_authority_doc(*authority),
                forall|k: int|
                    0 <= k < i ==> observation_authority_doc(#[trigger] self.accepted_observations@[k])
                        != observation_authority_doc(*authority),
            decreases self.accepted_observations.len() - i,
        {
            let doc = observation_authority_json(&self.accepted_observations[i]);
            if json_equal(&doc, &target) {
                return true;
            }
            i = i + 1;
        }
        false
    }
}

// ---- verdicts, subjects and decisions ----

pub open spec fn denial_name(d: AdmissionDenial) -> Seq<char> {
    match d {
        AdmissionDenial::AssessmentFailed => "assessment_failed"@,
        AdmissionDenial::AssessmentIndeterminate => "assessment_indeterminate"@,
        AdmissionDenial::AuthorityNotAccepted => "authority_not_accepted"@,
    }
}

fn denial_str(d: AdmissionDenial) -> (r: &'static str)
    ensures
        r@ == denial_name(d),
{
    match d {
        AdmissionDenial::AssessmentFailed => "assessment_failed",
        AdmissionDenial::AssessmentIndeterminate => "assessment_indeterminate",
        AdmissionDenial::AuthorityNotAccepted => "authority_not_accepted",
    }
}

/// The deterministic local verdict over an exact policy and subject.
#[derive(Clone, Debug, PartialEq, Eq)]
pub enum AdmissionVerdict {
    Admit { extensions: Vec<JsonMember> },
    Withhold { reason: AdmissionDenial, extensions: Vec<JsonMember> },
}

pub open spec fn verdict_kind(v: AdmissionVerdict) -> VerdictKind {
    match v {
        AdmissionVerdict::Admit { .. } => VerdictKind::Admit,
        AdmissionVerdict::Withhold { reason, .. } => VerdictKind::Withhold(reason),
    }
}

pub open spec fn verdict_fault(v: AdmissionVerdict) -> Option<AuthFault> {
    match v {
        AdmissionVerdict::Admit { extensions } => a_ext_fault("admit verdict"@, seq!["verdict"@, "reason"@], extensions@),
        AdmissionVerdict::Withhold { extensions, .. } => a_ext_fault(
            "withhold verdict"@,
            seq!["verdict"@, "reason"@],
            extensions@,
        ),
    }
}

pub open spec fn verdict_doc(v: AdmissionVerdict) -> Json {
    match v {
        AdmissionVerdict::Admit { extensions } => with_ext(seq!["verdict"@], seq![Json::Str("admit"@)], extensions@),
        AdmissionVerdict::Withhold { reason, extensions } => with_ext(
            seq!["verdict"@, "reason"@],
            seq![Json::Str("withhold"@), Json::Str(denial_name(reason))],
            extensions@,
        ),
    }
}

fn verdict_json(v: &AdmissionVerdict) -> (r: JsonValue)
    ensures
        r@ == verdict_doc(*v),
{
    let mut m: Vec<JsonMember> = Vec::new();
    assert(key_views(m@) =~= Seq::<Seq<char>>::empty());
    assert(value_views(m@) =~= Seq::<Json>::empty());
    match v {
        AdmissionVerdict::Admit { extensions } => {
            push_member(&mut m, "verdict", json_text("admit"));
            assert(key_views(m@) =~= seq!["verdict"@]);
            assert(value_views(m@) =~= seq![Json::Str("admit"@)]);
            object_with(m, extensions)
        },
        AdmissionVerdict::Withhold { reason, extensions } => {
            push_member(&mut m, "verdict", json_text("withhold"));
            push_member(&mut m, "reason", json_text(denial_str(*reason)));
            assert(key_views(m@) =~= seq!["verdict"@, "reason"@]);
            assert(value_views(m@) =~= seq![Json::Str("withhold"@), Json::Str(denial_name(*reason))]);
            object_with(m, extensions)
        },
    }
}

impl AdmissionVerdict {
    pub fn validate(&self) -> (r: Result<(), AuthorityError>)
        ensures
            r is Ok <==> verdict_fault(*self) is None,
            r matches Err(e) ==> verdict_fault(*self) == Some(auth_fault_of(e)),
    {
        let fields: [&str; 2] = ["verdict", "reason"];
        assert(str_views(fields@) =~= seq!["verdict"@, "reason"@]);
        match self {
            AdmissionVerdict::Admit { extensions } => check_ext("admit verdict", extensions, fields.as_slice()),
            AdmissionVerdict::Withhold { extensions, .. } => check_ext("withhold verdict", extensions, fields.as_slice()),
        }
    }

    pub fn is_admit(&self) -> (r: bool)
        ensures
            r == (*self is Admit),
    {
        match self {
            AdmissionVerdict::Admit { .. } => true,
            AdmissionVerdict::Withhold { .. } => false,
        }
    }

    pub fn kind(&self) -> (r: VerdictKind)
        ensures
            r == verdict_kind(*self),
    {
        match self {
            AdmissionVerdict::Admit { .. } => VerdictKind::Admit,
            AdmissionVerdict::Withhold { reason, .. } => VerdictKind::Withhold(*reason),
        }
    }

    /// The verdict of this kind, without extensions.
    pub fn of_kind(kind: VerdictKind) -> (r: Self)
        ensures
            verdict_kind(r) == kind,
            match r {
                AdmissionVerdict::Admit { extensions } => extensions@.len() == 0,
                AdmissionVerdict::Withhold { extensions, .. } => extensions@.len() == 0,
            },
    {
        match kind {
            VerdictKind::Admit => AdmissionVerdict::Admit { extensions: Vec::new() },
            VerdictKind::Withhold(reason) => AdmissionVerdict::Withhold { reason, extensions: Vec::new() },
        }
    }
}

/// One output named by a decision, in exact candidate order.
#[derive(Clone, Debug, PartialEq, Eq)]
pub struct DecisionOutput {
    pub port: PortName,
    pub fact_id: FactId,
    pub extensions: Vec<JsonMember>,
}

/// A fact identity refused inside an authority document.
pub open spec fn doc_fact_id_fault(document: Seq<char>, id: Seq<char>) -> Option<AuthFault> {
    if is_sha256_text(id) {
        None
    } else {
        Some(AuthFault::InvalidDocument(document, fact_fault_text(FactFault::Malformed(id))))
    }
}

fn check_doc_fact_id(document: &str, id: &FactId) -> (r: Result<(), AuthorityError>)
    ensures
        r is Ok <==> doc_fact_id_fault(document@, id@) is None,
        r matches Err(e) ==> doc_fact_id_fault(document@, id@) == Some(auth_fault_of(e)),
{
    if is_sha256_identity(id.as_str()) {
        Ok(())
    } else {
        let e = FactIdentityError::Malformed(owned(id.as_str()));
        Err(AuthorityError::InvalidDocument { document: owned(document), detail: e.message() })
    }
}

pub open spec fn decision_output_fault(o: DecisionOutput) -> Option<AuthFault> {
    if doc_fact_id_fault("admission decision output"@, o.fact_id@) is Some {
        doc_fact_id_fault("admission decision output"@, o.fact_id@)
    } else {
        a_ext_fault("admission decision output"@, seq!["port"@, "fact_id"@], o.extensions@)
    }
}

pub open spec fn decision_output_doc(o: DecisionOutput) -> Json {
    with_ext(seq!["port"@, "fact_id"@], seq![Json::Str(o.port@), Json::Str(o.fact_id@)], o.extensions@)
}

fn decision_output_json(o: &DecisionOutput) -> (r: JsonValue)
    ensures
        r@ == decision_output_doc(*o),
{
    let mut m: Vec<JsonMember> = Vec::new();
    assert(key_views(m@) =~= Seq::<Seq<char>>::empty());
    assert(value_views(m@) =~= Seq::<Json>::empty());
    push_member(&mut m, "port", json_text(o.port.as_str()));
    push_member(&mut m, "fact_id", json_text(o.fact_id.as_str()));
    assert(key_views(m@) =~= seq!["port"@, "fact_id"@]);
    assert(value_views(m@) =~= seq![Json::Str(o.port@), Json::Str(o.fact_id@)]);
    object_with(m, &o.extensions)
}

impl DecisionOutput {
    pub fn validate(&self) -> (r: Result<(), AuthorityError>)
        ensures
            r is Ok <==> decision_output_fault(*self) is None,
            r matches Err(e) ==> decision_output_fault(*self) == Some(auth_fault_of(e)),
    {
        check_doc_fact_id("admission decision output", &self.fact_id)?;
        let fields: [&str; 2] = ["port", "fact_id"];
        assert(str_views(fields@) =~= seq!["port"@, "fact_id"@]);
        check_ext("admission decision output", &self.extensions, fields.as_slice())
    }
}

/// The exact subject of one local admission decision.
#[derive(Clone, Debug, PartialEq, Eq)]
pub enum AdmissionSubject {
    Observation { observation_id: Sha256Digest, fact_id: FactId, extensions: Vec<JsonMember> },
    Candidate {
        assessment_id: Sha256Digest,
        candidate_id: Sha256Digest,
        outputs: Vec<DecisionOutput>,
        extensions: Vec<JsonMember>,
    },
}

proof fn lemma_no_decision_output_fault(outputs: Seq<DecisionOutput>, i: int)
    requires
        forall|k: int| 0 <= k < outputs.len() ==> decision_output_fault(#[trigger] outputs[k]) is None,
    ensures
        first_decision_output_fault(outputs, i) is None,
    decreases outputs.len() - i,
{
    if 0 <= i < outputs.len() {
        lemma_no_decision_output_fault(outputs, i + 1);
    }
}

pub open spec fn first_decision_output_fault(outputs: Seq<DecisionOutput>, i: int) -> Option<AuthFault>
    decreases outputs.len() - i,
{
    if i < 0 || i >= outputs.len() {
        None
    } else if decision_output_fault(outputs[i]) is Some {
        decision_output_fault(outputs[i])
    } else {
        first_decision_output_fault(outputs, i + 1)
    }
}

pub open spec fn subject_fault(s: AdmissionSubject) -> Option<AuthFault> {
    match s {
        AdmissionSubject::Observation { fact_id, extensions, .. } => {
            if doc_fact_id_fault("observation admission subject"@, fact_id@) is Some {
                doc_fact_id_fault("observation admission subject"@, fact_id@)
            } else {
                a_ext_fault(
                    "observation admission subject"@,
                    seq!["subject"@, "observation_id"@, "fact_id"@],
                    extensions@,
                )
            }
        },
        AdmissionSubject::Candidate { outputs, extensions, .. } => {
            if first_decision_output_fault(outputs@, 0) is Some {
                first_decision_output_fault(outputs@, 0)
            } else {
                a_ext_fault(
                    "candidate admission subject"@,
                    seq!["subject"@, "assessment_id"@, "candidate_id"@, "outputs"@],
                    extensions@,
                )
            }
        },
    }
}

pub open spec fn decision_output_docs(outputs: Seq<DecisionOutput>) -> Json {
    Json::Array(Seq::new(outputs.len(), |i: int| decision_output_doc(outputs[i])))
}

pub open spec fn subject_doc(s: AdmissionSubject) -> Json {
    match s {
        AdmissionSubject::Observation { observation_id, fact_id, extensions } => with_ext(
            seq!["subject"@, "observation_id"@, "fact_id"@],
            seq![Json::Str("observation"@), Json::Str(observation_id@), Json::Str(fact_id@)],
            extensions@,
        ),
        AdmissionSubject::Candidate { assessment_id, candidate_id, outputs, extensions } => with_ext(
            seq!["subject"@, "assessment_id"@, "candidate_id"@, "outputs"@],
            seq![
                Json::Str("candidate"@),
                Json::Str(assessment_id@),
                Json::Str(candidate_id@),
                decision_output_docs(outputs@),
            ],
            extensions@,
        ),
    }
}

fn decision_outputs_json(outputs: &Vec<DecisionOutput>) -> (r: JsonValue)
    ensures
        r@ == decision_output_docs(outputs@),
{
    let mut items: Vec<JsonValue> = Vec::new();
    let mut i: usize = 0;
    while i < outputs.len()
        invariant
            i <= outputs.len(),
            crate::json::item_views(items@) == Seq::new(i as nat, |k: int| decision_output_doc(outputs@[k])),
        decreases outputs.len() - i,
    {
        let ghost before = items@;
        items.push(decision_output_json(&outputs[i]));
        assert(crate::json::item_views(items@) =~= Seq::new((i + 1) as nat, |k: int| decision_output_doc(outputs@[k]))) by {
            assert(crate::json::item_views(items@) =~= crate::json::item_views(before).push(
                decision_output_doc(outputs@[i as int]),
            ));
        }
        i = i + 1;
    }
    json_array(items)
}

fn subject_json(s: &AdmissionSubject) -> (r: JsonValue)
    ensures
        r@ == subject_doc(*s),
{
    let mut m: Vec<JsonMember> = Vec::new();
    assert(key_views(m@) =~= Seq::<Seq<char>>::empty());
    assert(value_views(m@) =~= Seq::<Json>::empty());
    match s {
        AdmissionSubject::Observation { observation_id, fact_id, extensions } => {
            push_member(&mut m, "subject", json_text("observation"));
            push_member(&mut m, "observation_id", json_text(observation_id.as_str()));
            push_member(&mut m, "fact_id", json_text(fact_id.as_str()));
            assert(key_views(m@) =~= seq!["subject"@, "observation_id"@, "fact_id"@]);
            assert(value_views(m@) =~= seq![Json::Str("observation"@), Json::Str(observation_id@), Json::Str(fact_id@)]);
            object_with(m, extensions)
        },
        AdmissionSubject::Candidate { assessment_id, candidate_id, outputs, extensions } => {
            push_member(&mut m, "subject", json_text("candidate"));
            push_member(&mut m, "assessment_id", json_text(assessment_id.as_str()));
            push_member(&mut m, "candidate_id", json_text(candidate_id.as_str()));
            push_member(&mut m, "outputs", decision_outputs_json(outputs));
            assert(key_views(m@) =~= seq!["subject"@, "assessment_id"@, "candidate_id"@, "outputs"@]);
            assert(value_views(m@) =~= seq![
                Json::Str("candidate"@),
                Json::Str(assessment_id@),
                Json::Str(candidate_id@),
                decision_output_docs(outputs@),
            ]);
            object_with(m, extensions)
        },
    }
}

fn check_decision_outputs(outputs: &Vec<DecisionOutput>) -> (r: Result<(), AuthorityError>)
    ensures
        r is Ok <==> first_decision_output_fault(outputs@, 0) is None,
        r matches Err(e) ==> first_decision_output_fault(outputs@, 0) == Some(auth_fault_of(e)),
{
    let mut i: usize = 0;
    while i < outputs.len()
        invariant
            i <= outputs.len(),
            first_decision_output_fault(outputs@, 0) == first_decision_output_fault(outputs@, i as int),
        decreases outputs.len() - i,
    {
        outputs[i].validate()?;
        i = i + 1;
    }
    Ok(())
}

impl AdmissionSubject {
    pub fn validate(&self) -> (r: Result<(), AuthorityError>)
        ensures
            r is Ok <==> subject_fault(*self) is None,
            r matches Err(e) ==> subject_fault(*self) == Some(auth_fault_of(e)),
    {
        match self {
            AdmissionSubject::Observation { fact_id, extensions, .. } => {
                check_doc_fact_id("observation admission subject", fact_id)?;
                let fields: [&str; 3] = ["subject", "observation_id", "fact_id"];
                assert(str_views(fields@) =~= seq!["subject"@, "observation_id"@, "fact_id"@]);
                check_ext("observation admission subject", extensions, fields.as_slice())
            },
            AdmissionSubject::Candidate { outputs, extensions, .. } => {
                check_decision_outputs(outputs)?;
                let fields: [&str; 4] = ["subject", "assessment_id", "candidate_id", "outputs"];
                assert(str_views(fields@) =~= seq!["subject"@, "assessment_id"@, "candidate_id"@, "outputs"@]);
                check_ext("candidate admission subject", extensions, fields.as_slice())
            },
        }
    }
}

pub open spec fn unable_admission_text() -> Seq<char> {
    "an unable result cannot be admitted"@
}

/// The produced outputs of a candidate; a candidate holding inability has
/// none to admit.
pub open spec fn candidate_outputs_of(c: CapabilityCandidate) -> Result<Seq<NamedOutput>, AuthFault> {
    match c.result.outcome {
        CapabilityOutcome::Produced { outputs, .. } => Ok(outputs@),
        CapabilityOutcome::Unable { .. } => Err(
            AuthFault::InvalidDocument("capability candidate"@, unable_admission_text()),
        ),
    }
}

pub(crate) fn candidate_outputs(c: &CapabilityCandidate) -> (r: Result<&Vec<NamedOutput>, AuthorityError>)
    ensures
        match candidate_outputs_of(*c) {
            Ok(o) => r matches Ok(v) && v@ == o,
            Err(f) => r matches Err(e) && auth_fault_of(e) == f,
        },
{
    match &c.result.outcome {
        CapabilityOutcome::Produced { outputs, .. } => Ok(outputs),
        CapabilityOutcome::Unable { .. } => Err(AuthorityError::InvalidDocument {
            document: owned("capability candidate"),
            detail: owned("an unable result cannot be admitted"),
        }),
    }
}

/// Whether a subject names exactly this assessment, this candidate and its
/// outputs in order, by port and fact identity.
pub open spec fn candidate_subject_match(s: AdmissionSubject, a: ConformanceAssessment, c: CapabilityCandidate) -> Result<
    bool,
    AuthFault,
> {
    match s {
        AdmissionSubject::Candidate { assessment_id, candidate_id, outputs, .. } => {
            if assessment_id@ != a.assessment_id@ || candidate_id@ != c.candidate_id@ {
                Ok(false)
            } else {
                match candidate_outputs_of(c) {
                    Err(f) => Err(f),
                    Ok(expected) => Ok(
                        outputs@.len() == expected.len() && forall|i: int|
                            0 <= i < expected.len() ==> (#[trigger] outputs@[i]).port@ == expected[i].port@
                                && outputs@[i].fact_id@ == expected[i].fact.id@,
                    ),
                }
            }
        },
        AdmissionSubject::Observation { .. } => Ok(false),
    }
}

#[verifier::loop_isolation(false)]
fn candidate_subject_matches(s: &AdmissionSubject, a: &ConformanceAssessment, c: &CapabilityCandidate) -> (r: Result<
    bool,
    AuthorityError,
>)
    ensures
        match candidate_subject_match(*s, *a, *c) {
            Ok(b) => r == Ok::<bool, AuthorityError>(b),
            Err(f) => r matches Err(e) && auth_fault_of(e) == f,
        },
{
    match s {
        AdmissionSubject::Candidate { assessment_id, candidate_id, outputs, .. } => {
            if !assessment_id.same_as(&a.assessment_id) || !candidate_id.same_as(&c.candidate_id) {
                return Ok(false);
            }
            let expected = candidate_outputs(c)?;
            if outputs.len() != expected.len() {
                return Ok(false);
            }
            let mut i: usize = 0;
            while i < expected.len()
                invariant
                    i <= expected.len(),
                    outputs.len() == expected.len(),
                    forall|k: int|
                        0 <= k < i ==> (#[trigger] outputs@[k]).port@ == expected@[k].port@ && outputs@[k].fact_id@
                            == expected@[k].fact.id@,
                decreases expected.len() - i,
            {
                if !outputs[i].port.same_as(&expected[i].port) || !outputs[i].fact_id.same_as(&expected[i].fact.id) {
                    assert(!((outputs@[i as int]).port@ == expected@[i as int].port@ && outputs@[i as int].fact_id@
                        == expected@[i as int].fact.id@));
                    return Ok(false);
                }
                i = i + 1;
            }
            Ok(true)
        },
        AdmissionSubject::Observation { .. } => Ok(false),
    }
}

/// Whether a subject names exactly this observation and its fact.
pub open spec fn observation_subject_match(s: AdmissionSubject, o: SourceObservation) -> bool {
    match s {
        AdmissionSubject::Observation { observation_id, fact_id, .. } => observation_id@ == o.observation_id@
            && fact_id@ == o.fact.id@,
        AdmissionSubject::Candidate { .. } => false,
    }
}

fn observation_subject_matches(s: &AdmissionSubject, o: &SourceObservation) -> (r: bool)
    ensures
        r == observation_subject_match(*s, *o),
{
    match s {
        AdmissionSubject::Observation { observation_id, fact_id, .. } => observation_id.same_as(&o.observation_id)
            && fact_id.same_as(&o.fact.id),
        AdmissionSubject::Candidate { .. } => false,
    }
}

/// The verdict a policy owes an observation.
pub open spec fn observation_verdict(p: AdmissionPolicy, o: SourceObservation) -> VerdictKind {
    if accepts_observation(p, o.authority) {
        VerdictKind::Admit
    } else {
        VerdictKind::Withhold(AdmissionDenial::AuthorityNotAccepted)
    }
}

/// The document of a verdict of this kind without extensions.
pub open spec fn kind_doc(k: VerdictKind) -> Json {
    match k {
        VerdictKind::Admit => with_ext(seq!["verdict"@], seq![Json::Str("admit"@)], Seq::empty()),
        VerdictKind::Withhold(reason) => with_ext(
            seq!["verdict"@, "reason"@],
            seq![Json::Str("withhold"@), Json::Str(denial_name(reason))],
            Seq::empty(),
        ),
    }
}

/// Every output of a produced candidate carries a fact identity a decision
/// can name.
pub open spec fn outputs_identified(c: CapabilityCandidate) -> bool {
    candidate_outputs_of(c) is Ok && forall|i: int|
        0 <= i < candidate_outputs_of(c)->Ok_0.len() ==> doc_fact_id_fault(
            "admission decision output"@,
            (#[trigger] candidate_outputs_of(c)->Ok_0[i]).fact.id@,
        ) is None
}

/// The document naming one output of a decision: its port and fact.
pub open spec fn output_ref_doc(o: NamedOutput) -> Json {
    with_ext(seq!["port"@, "fact_id"@], seq![Json::Str(o.port@), Json::Str(o.fact.id@)], Seq::empty())
}

pub open spec fn output_ref_docs(outs: Seq<NamedOutput>) -> Json {
    Json::Array(Seq::new(outs.len(), |i: int| output_ref_doc(outs[i])))
}

/// The identified body of the decision a policy makes on a candidate.
pub open spec fn candidate_decision_body(p: AdmissionPolicy, a: ConformanceAssessment, c: CapabilityCandidate) -> Json {
    let outs = candidate_outputs_of(c)->Ok_0;
    with_ext(
        seq!["protocol"@, "policy_id"@, "subject"@, "verdict"@],
        seq![
            Json::Str(ADMISSION_DECISION_PROTOCOL@),
            Json::Str(p.policy_id@),
            with_ext(
                seq!["subject"@, "assessment_id"@, "candidate_id"@, "outputs"@],
                seq![
                    Json::Str("candidate"@),
                    Json::Str(a.assessment_id@),
                    Json::Str(c.candidate_id@),
                    output_ref_docs(outs),
                ],
                Seq::empty(),
            ),
            kind_doc(assessment_verdict(p, a)),
        ],
        Seq::empty(),
    )
}

/// The identified body of the decision a policy makes on an observation.
/// The document of the decision a policy owes an observation.
pub open spec fn observation_decision_doc(p: AdmissionPolicy, o: SourceObservation) -> Json {
    with_ext(
        decision_fields(),
        seq![
            Json::Str(content_id(observation_decision_body(p, o)).unwrap()),
            Json::Str(ADMISSION_DECISION_PROTOCOL@),
            Json::Str(p.policy_id@),
            with_ext(
                seq!["subject"@, "observation_id"@, "fact_id"@],
                seq![Json::Str("observation"@), Json::Str(o.observation_id@), Json::Str(o.fact.id@)],
                Seq::empty(),
            ),
            kind_doc(observation_verdict(p, o)),
        ],
        Seq::empty(),
    )
}

pub open spec fn observation_decision_body(p: AdmissionPolicy, o: SourceObservation) -> Json {
    with_ext(
        seq!["protocol"@, "policy_id"@, "subject"@, "verdict"@],
        seq![
            Json::Str(ADMISSION_DECISION_PROTOCOL@),
            Json::Str(p.policy_id@),
            with_ext(
                seq!["subject"@, "observation_id"@, "fact_id"@],
                seq![Json::Str("observation"@), Json::Str(o.observation_id@), Json::Str(o.fact.id@)],
                Seq::empty(),
            ),
            kind_doc(observation_verdict(p, o)),
        ],
        Seq::empty(),
    )
}

/// The verdict a policy owes an assessment.
pub open spec fn assessment_verdict(p: AdmissionPolicy, a: ConformanceAssessment) -> VerdictKind {
    candidate_verdict(a.outcome, accepts_conformance(p, a.authority))
}

/// Content-identified result of applying one exact local policy to an
/// observed source or a derived candidate.
#[derive(Clone, Debug, PartialEq, Eq)]
pub struct AdmissionDecision {
    pub decision_id: Sha256Digest,
    pub protocol: String,
    pub policy_id: Sha256Digest,
    pub subject: AdmissionSubject,
    pub verdict: AdmissionVerdict,
    pub extensions: Vec<JsonMember>,
}

pub open spec fn decision_fields() -> Seq<Seq<char>> {
    seq!["decision_id"@, "protocol"@, "policy_id"@, "subject"@, "verdict"@]
}

pub open spec fn decision_tail_fault(d: AdmissionDecision, expected: VerdictKind) -> Option<AuthFault> {
    if subject_fault(d.subject) is Some {
        subject_fault(d.subject)
    } else if verdict_fault(d.verdict) is Some {
        verdict_fault(d.verdict)
    } else if verdict_kind(d.verdict) != expected {
        Some(AuthFault::DecisionVerdictMismatch)
    } else {
        a_ext_fault("admission decision"@, decision_fields(), d.extensions@)
    }
}

/// Why a decision does not hold for this policy, assessment and candidate.
pub open spec fn decision_candidate_structure_fault(
    d: AdmissionDecision,
    p: AdmissionPolicy,
    a: ConformanceAssessment,
    c: CapabilityCandidate,
) -> Option<AuthFault> {
    if d.protocol@ != ADMISSION_DECISION_PROTOCOL@ {
        Some(AuthFault::ProtocolMismatch(ADMISSION_DECISION_PROTOCOL@, d.protocol@))
    } else if policy_fault(p) is Some {
        policy_fault(p)
    } else if d.policy_id@ != p.policy_id@ {
        Some(AuthFault::DecisionCorrelationMismatch)
    } else if candidate_subject_match(d.subject, a, c) is Err {
        Some(candidate_subject_match(d.subject, a, c)->Err_0)
    } else if !candidate_subject_match(d.subject, a, c)->Ok_0 {
        Some(AuthFault::DecisionOutputMismatch)
    } else {
        decision_tail_fault(d, assessment_verdict(p, a))
    }
}

/// Why a decision does not hold for this policy and observation.
pub open spec fn decision_observation_structure_fault(
    d: AdmissionDecision,
    p: AdmissionPolicy,
    o: SourceObservation,
) -> Option<AuthFault> {
    if d.protocol@ != ADMISSION_DECISION_PROTOCOL@ {
        Some(AuthFault::ProtocolMismatch(ADMISSION_DECISION_PROTOCOL@, d.protocol@))
    } else if policy_fault(p) is Some {
        policy_fault(p)
    } else if observation_fault(o) is Some {
        observation_fault(o)
    } else if d.policy_id@ != p.policy_id@ || !observation_subject_match(d.subject, o) {
        Some(AuthFault::DecisionCorrelationMismatch)
    } else {
        decision_tail_fault(d, observation_verdict(p, o))
    }
}

pub open spec fn decision_body(d: AdmissionDecision) -> Json {
    with_ext(
        seq!["protocol"@, "policy_id"@, "subject"@, "verdict"@],
        seq![Json::Str(d.protocol@), Json::Str(d.policy_id@), subject_doc(d.subject), verdict_doc(d.verdict)],
        d.extensions@,
    )
}

pub open spec fn decision_doc(d: AdmissionDecision) -> Json {
    with_ext(
        decision_fields(),
        seq![
            Json::Str(d.decision_id@),
            Json::Str(d.protocol@),
            Json::Str(d.policy_id@),
            subject_doc(d.subject),
            verdict_doc(d.verdict),
        ],
        d.extensions@,
    )
}

/// Why a decision is refused for a candidate chain, or nothing: the chain,
/// the assessment, the decision's structure, then its identity.
pub open spec fn decision_candidate_fault(
    d: AdmissionDecision,
    p: AdmissionPolicy,
    v: CapabilityInvocation,
    r: CapabilityResult,
    c: CapabilityCandidate,
    a: ConformanceAssessment,
) -> Option<AuthFault> {
    if chain_fault(v, r, c) is Some {
        chain_fault(v, r, c)
    } else if assessment_fault(a, v, r, c) is Some {
        assessment_fault(a, v, r, c)
    } else if decision_candidate_structure_fault(d, p, a, c) is Some {
        decision_candidate_structure_fault(d, p, a, c)
    } else {
        a_id_fault("admission decision"@, decision_body(d), d.decision_id@)
    }
}

/// Why a decision is refused for an observation, or nothing.
pub open spec fn decision_observation_fault(d: AdmissionDecision, p: AdmissionPolicy, o: SourceObservation) -> Option<
    AuthFault,
> {
    match decision_observation_structure_fault(d, p, o) {
        Some(f) => Some(f),
        None => a_id_fault("admission decision"@, decision_body(d), d.decision_id@),
    }
}

fn decision_body_json(d: &AdmissionDecision) -> (r: JsonValue)
    ensures
        r@ == decision_body(*d),
{
    let mut m: Vec<JsonMember> = Vec::new();
    assert(key_views(m@) =~= Seq::<Seq<char>>::empty());
    assert(value_views(m@) =~= Seq::<Json>::empty());
    push_member(&mut m, "protocol", json_text(d.protocol.as_str()));
    push_member(&mut m, "policy_id", json_text(d.policy_id.as_str()));
    push_member(&mut m, "subject", subject_json(&d.subject));
    push_member(&mut m, "verdict", verdict_json(&d.verdict));
    assert(key_views(m@) =~= seq!["protocol"@, "policy_id"@, "subject"@, "verdict"@]);
    assert(value_views(m@) =~= seq![
        Json::Str(d.protocol@),
        Json::Str(d.policy_id@),
        subject_doc(d.subject),
        verdict_doc(d.verdict),
    ]);
    object_with(m, &d.extensions)
}

/// The complete decision document.
pub fn decision_json(d: &AdmissionDecision) -> (r: JsonValue)
    ensures
        r@ == decision_doc(*d),
{
    let mut m: Vec<JsonMember> = Vec::new();
    assert(key_views(m@) =~= Seq::<Seq<char>>::empty());
    assert(value_views(m@) =~= Seq::<Json>::empty());
    push_member(&mut m, "decision_id", json_text(d.decision_id.as_str()));
    push_member(&mut m, "protocol", json_text(d.protocol.as_str()));
    push_member(&mut m, "policy_id", json_text(d.policy_id.as_str()));
    push_member(&mut m, "subject", subject_json(&d.subject));
    push_member(&mut m, "verdict", verdict_json(&d.verdict));
    assert(key_views(m@) =~= decision_fields());
    assert(value_views(m@) =~= seq![
        Json::Str(d.decision_id@),
        Json::Str(d.protocol@),
        Json::Str(d.policy_id@),
        subject_doc(d.subject),
        verdict_doc(d.verdict),
    ]);
    object_with(m, &d.extensions)
}

impl AdmissionDecision {
    fn validate_tail(&self, expected: VerdictKind) -> (r: Result<(), AuthorityError>)
        ensures
            r is Ok <==> decision_tail_fault(*self, expected) is None,
            r matches Err(e) ==> decision_tail_fault(*self, expected) == Some(auth_fault_of(e)),
    {
        self.subject.validate()?;
        self.verdict.validate()?;
        if !crate::authority::same_verdict_kind(self.verdict.kind(), expected) {
            return Err(AuthorityError::DecisionVerdictMismatch);
        }
        let fields: [&str; 5] = ["decision_id", "protocol", "policy_id", "subject", "verdict"];
        assert(str_views(fields@) =~= decision_fields());
        check_ext("admission decision", &self.extensions, fields.as_slice())
    }

    fn validate_candidate_structure(
        &self,
        policy: &AdmissionPolicy,
        assessment: &ConformanceAssessment,
        candidate: &CapabilityCandidate,
    ) -> (r: Result<(), AuthorityError>)
        ensures
            r is Ok <==> decision_candidate_structure_fault(*self, *policy, *assessment, *candidate) is None,
            r matches Err(e) ==> decision_candidate_structure_fault(*self, *policy, *assessment, *candidate) == Some(
                auth_fault_of(e),
            ),
    {
        check_protocol(ADMISSION_DECISION_PROTOCOL, self.protocol.as_str())?;
        policy.validate()?;
        if !self.policy_id.same_as(&policy.policy_id) {
            return Err(AuthorityError::DecisionCorrelationMismatch);
        }
        if !candidate_subject_matches(&self.subject, assessment, candidate)? {
            return Err(AuthorityError::DecisionOutputMismatch);
        }
        let accepted = policy.accepts_conformance(&assessment.authority);
        let expected = crate::authority::expected_candidate_verdict(assessment.outcome, accepted);
        self.validate_tail(expected)
    }

    fn validate_observation_structure(&self, policy: &AdmissionPolicy, observation: &SourceObservation) -> (r: Result<
        (),
        AuthorityError,
    >)
        ensures
            r is Ok <==> decision_observation_structure_fault(*self, *policy, *observation) is None,
            r matches Err(e) ==> decision_observation_structure_fault(*self, *policy, *observation) == Some(
                auth_fault_of(e),
            ),
    {
        check_protocol(ADMISSION_DECISION_PROTOCOL, self.protocol.as_str())?;
        policy.validate()?;
        observation.validate()?;
        if !self.policy_id.same_as(&policy.policy_id) || !observation_subject_matches(&self.subject, observation) {
            return Err(AuthorityError::DecisionCorrelationMismatch);
        }
        let accepted = policy.accepts_observation(&observation.authority);
        let expected = crate::authority::expected_observation_verdict(accepted);
        self.validate_tail(expected)
    }

    /// Revalidates the decision against the exact policy and candidate
    /// chain it names, and its content-derived identity.
    pub fn validate_candidate(
        &self,
        policy: &AdmissionPolicy,
        invocation: &CapabilityInvocation,
        result: &CapabilityResult,
        candidate: &CapabilityCandidate,
        assessment: &ConformanceAssessment,
    ) -> (r: Result<(), AuthorityError>)
        ensures
            r is Ok <==> decision_candidate_fault(*self, *policy, *invocation, *result, *candidate, *assessment) is None,
            r matches Err(e) ==> decision_candidate_fault(*self, *policy, *invocation, *result, *candidate, *assessment)
                == Some(auth_fault_of(e)),
    {
        validate_chain(invocation, result, candidate)?;
        assessment.validate_against(invocation, result, candidate)?;
        self.validate_candidate_structure(policy, assessment, candidate)?;
        let body = decision_body_json(self);
        check_id("admission decision", &body, &self.decision_id)
    }

    /// Revalidates the decision against the exact policy and observation it
    /// names, and its content-derived identity.
    pub fn validate_observation(&self, policy: &AdmissionPolicy, observation: &SourceObservation) -> (r: Result<
        (),
        AuthorityError,
    >)
        ensures
            r is Ok <==> decision_observation_fault(*self, *policy, *observation) is None,
            r matches Err(e) ==> decision_observation_fault(*self, *policy, *observation) == Some(auth_fault_of(e)),
    {
        self.validate_observation_structure(policy, observation)?;
        let body = decision_body_json(self);
        check_id("admission decision", &body, &self.decision_id)
    }
}

fn candidate_subject(a: &ConformanceAssessment, c: &CapabilityCandidate) -> (r: Result<AdmissionSubject, AuthorityError>)
    ensures
        r is Ok <==> candidate_outputs_of(*c) is Ok,
        r matches Err(e) ==> candidate_outputs_of(*c) == Err::<Seq<NamedOutput>, AuthFault>(auth_fault_of(e)),
        r matches Ok(s) ==> candidate_subject_match(s, *a, *c) == Ok::<bool, AuthFault>(true),
        r matches Ok(s) ==> s matches AdmissionSubject::Candidate { assessment_id, candidate_id, outputs, extensions }
            && assessment_id@ == a.assessment_id@ && candidate_id@ == c.candidate_id@ && extensions@.len() == 0
            && outputs@.len() == candidate_outputs_of(*c)->Ok_0.len() && forall|i: int|
            0 <= i < outputs@.len() ==> (#[trigger] outputs@[i]).port@ == candidate_outputs_of(*c)->Ok_0[i].port@
                && outputs@[i].fact_id@ == candidate_outputs_of(*c)->Ok_0[i].fact.id@ && outputs@[i].extensions@.len()
                == 0,
{
    let expected = candidate_outputs(c)?;
    let mut outputs: Vec<DecisionOutput> = Vec::new();
    let mut i: usize = 0;
    while i < expected.len()
        invariant
            i <= expected.len(),
            outputs@.len() == i,
            forall|k: int|
                0 <= k < i ==> (#[trigger] outputs@[k]).port@ == expected@[k].port@ && outputs@[k].fact_id@
                    == expected@[k].fact.id@ && outputs@[k].extensions@.len() == 0,
        decreases expected.len() - i,
    {
        outputs.push(DecisionOutput {
            port: expected[i].port.duplicate(),
            fact_id: expected[i].fact.id.duplicate(),
            extensions: Vec::new(),
        });
        i = i + 1;
    }
    Ok(AdmissionSubject::Candidate {
        assessment_id: a.assessment_id.duplicate(),
        candidate_id: c.candidate_id.duplicate(),
        outputs,
        extensions: Vec::new(),
    })
}

impl AdmissionDecision {
    /// The decision a policy owes a candidate chain, identified by its
    /// content.
    pub(crate) fn derive_candidate(policy: &AdmissionPolicy, assessment: &ConformanceAssessment, candidate: &CapabilityCandidate) -> (r:
        Result<Self, AuthorityError>)
        ensures
            r matches Ok(d) ==> d.protocol@ == ADMISSION_DECISION_PROTOCOL@ && d.policy_id@ == policy.policy_id@
                && verdict_kind(d.verdict) == assessment_verdict(*policy, *assessment) && decision_candidate_structure_fault(
                d,
                *policy,
                *assessment,
                *candidate,
            ) is None && content_id(decision_body(d)) == Some(d.decision_id@),
            policy_fault(*policy) is None && outputs_identified(*candidate) ==> (r is Ok <==> content_id(
                candidate_decision_body(*policy, *assessment, *candidate),
            ) is Some),
    {
        let subject = candidate_subject(assessment, candidate)?;
        let accepted = policy.accepts_conformance(&assessment.authority);
        let kind = crate::authority::expected_candidate_verdict(assessment.outcome, accepted);
        let mut decision = AdmissionDecision {
            decision_id: placeholder_sha256(),
            protocol: owned(ADMISSION_DECISION_PROTOCOL),
            policy_id: policy.policy_id.duplicate(),
            subject,
            verdict: AdmissionVerdict::of_kind(kind),
            extensions: Vec::new(),
        };
        proof {
            assert(key_views(Seq::<JsonMember>::empty()) =~= Seq::<Seq<char>>::empty());
            assert(value_views(Seq::<JsonMember>::empty()) =~= Seq::<Json>::empty());
            assert(decision.extensions@ =~= Seq::<JsonMember>::empty());
            assert(verdict_doc(decision.verdict) == kind_doc(kind));
            if decision.subject is Candidate {
                let outputs = decision.subject->outputs;
                let extensions = decision.subject->Candidate_extensions;
                let outs = candidate_outputs_of(*candidate)->Ok_0;
                assert(extensions@ =~= Seq::<JsonMember>::empty());
                assert forall|i: int| 0 <= i < outputs@.len() implies decision_output_doc(#[trigger] outputs@[i]) == output_ref_doc(
                    outs[i],
                ) by {
                    assert(outputs@[i].extensions@ =~= Seq::<JsonMember>::empty());
                }
                assert(Seq::new(outputs@.len(), |i: int| decision_output_doc(outputs@[i])) =~= Seq::new(
                    outs.len(),
                    |i: int| output_ref_doc(outs[i]),
                ));
                assert(decision_output_docs(outputs@) == output_ref_docs(outs));
                if policy_fault(*policy) is None && outputs_identified(*candidate) {
                    assert forall|i: int| 0 <= i < outputs@.len() implies decision_output_fault(#[trigger] outputs@[i]) is None by {
                        assert(doc_fact_id_fault("admission decision output"@, outs[i].fact.id@) is None);
                    }
                    lemma_no_decision_output_fault(outputs@, 0);
                }
            }
            assert(decision_body(decision) == candidate_decision_body(*policy, *assessment, *candidate));
        }
        decision.validate_candidate_structure(policy, assessment, candidate)?;
        let body = decision_body_json(&decision);
        decision.decision_id = derive_id(&body)?;
        Ok(decision)
    }

    /// The decision a policy owes an observation, identified by its
    /// content.
    pub(crate) fn derive_observation(policy: &AdmissionPolicy, observation: &SourceObservation) -> (r: Result<Self, AuthorityError>)
        ensures
            r matches Ok(d) ==> d.protocol@ == ADMISSION_DECISION_PROTOCOL@ && d.policy_id@ == policy.policy_id@
                && verdict_kind(d.verdict) == observation_verdict(*policy, *observation)
                && decision_observation_structure_fault(d, *policy, *observation) is None && content_id(decision_body(d))
                == Some(d.decision_id@) && decision_body(d) == observation_decision_body(*policy, *observation)
                && decision_doc(d) == observation_decision_doc(*policy, *observation),
            policy_fault(*policy) is None && observation_fault(*observation) is None ==> (r is Ok <==> content_id(
                observation_decision_body(*policy, *observation),
            ) is Some),
    {
        let subject = AdmissionSubject::Observation {
            observation_id: observation.observation_id.duplicate(),
            fact_id: observation.fact.id.duplicate(),
            extensions: Vec::new(),
        };
        let accepted = policy.accepts_observation(&observation.authority);
        let kind = crate::authority::expected_observation_verdict(accepted);
        let mut decision = AdmissionDecision {
            decision_id: placeholder_sha256(),
            protocol: owned(ADMISSION_DECISION_PROTOCOL),
            policy_id: policy.policy_id.duplicate(),
            subject,
            verdict: AdmissionVerdict::of_kind(kind),
            extensions: Vec::new(),
        };
        proof {
            assert(key_views(Seq::<JsonMember>::empty()) =~= Seq::<Seq<char>>::empty());
            assert(value_views(Seq::<JsonMember>::empty()) =~= Seq::<Json>::empty());
            assert(decision.extensions@ =~= Seq::<JsonMember>::empty());
            assert(verdict_doc(decision.verdict) == kind_doc(kind));
            assert(subject_doc(decision.subject) == with_ext(
                seq!["subject"@, "observation_id"@, "fact_id"@],
                seq![Json::Str("observation"@), Json::Str(observation.observation_id@), Json::Str(observation.fact.id@)],
                Seq::empty(),
            ));
            assert(decision_body(decision) == observation_decision_body(*policy, *observation));
        }
        decision.validate_observation_structure(policy, observation)?;
        let body = decision_body_json(&decision);
        decision.decision_id = derive_id(&body)?;
        proof {
            assert(decision_doc(decision) =~= observation_decision_doc(*policy, *observation));
        }
        Ok(decision)
    }
}

// ---- authority records ----

/// The complete immutable authority chain for one exact fact.
#[derive(Clone, Debug, PartialEq, Eq)]
pub struct AuthorityRecord {
    pub authority_record_id: Sha256Digest,
    pub protocol: String,
    pub fact: Fact,
    pub basis: AuthorityBasis,
    pub extensions: Vec<JsonMember>,
}

/// The disjoint basis by which a fact received authority: an admitted
/// observation of a source, or an admitted output of a derivation.
#[derive(Clone, Debug, PartialEq, Eq)]
pub enum AuthorityBasis {
    Source {
        observation: SourceObservation,
        policy: AdmissionPolicy,
        decision: AdmissionDecision,
        extensions: Vec<JsonMember>,
    },
    Derived {
        output_port: PortName,
        invocation: CapabilityInvocation,
        result: CapabilityResult,
        candidate: CapabilityCandidate,
        assessment: ConformanceAssessment,
        policy: AdmissionPolicy,
        decision: AdmissionDecision,
        extensions: Vec<JsonMember>,
    },
}

pub open spec fn record_fields() -> Seq<Seq<char>> {
    seq!["authority_record_id"@, "protocol"@, "fact"@, "basis"@]
}

pub open spec fn derived_basis_fields() -> Seq<Seq<char>> {
    seq!["kind"@, "output_port"@, "invocation"@, "result"@, "candidate"@, "assessment"@, "policy"@, "decision"@]
}

/// How many outputs, among the first `n`, carry this port and this fact.
pub open spec fn count_matching(outputs: Seq<NamedOutput>, port: Seq<char>, fact: Json, n: int) -> nat
    decreases n,
{
    if n <= 0 || n > outputs.len() {
        0
    } else {
        count_matching(outputs, port, fact, n - 1) + if outputs[n - 1].port@ == port && fact_document(outputs[n - 1].fact)
            == fact {
            1nat
        } else {
            0nat
        }
    }
}

#[verifier::opaque]
pub open spec fn source_basis_fault(
    fact: Fact,
    observation: SourceObservation,
    policy: AdmissionPolicy,
    decision: AdmissionDecision,
    extensions: Seq<JsonMember>,
) -> Option<AuthFault> {
    if observation_fault(observation) is Some {
        observation_fault(observation)
    } else if fact_document(fact) != fact_document(observation.fact) {
        Some(AuthFault::AuthorityOutputMismatch)
    } else if policy_fault(policy) is Some {
        policy_fault(policy)
    } else if decision_observation_fault(decision, policy, observation) is Some {
        decision_observation_fault(decision, policy, observation)
    } else if !(decision.verdict is Admit) {
        Some(AuthFault::WithheldRecord)
    } else {
        a_ext_fault("source authority basis"@, seq!["kind"@, "observation"@, "policy"@, "decision"@], extensions)
    }
}

#[verifier::opaque]
pub open spec fn derived_basis_fault(
    fact: Fact,
    output_port: Seq<char>,
    invocation: CapabilityInvocation,
    result: CapabilityResult,
    candidate: CapabilityCandidate,
    assessment: ConformanceAssessment,
    policy: AdmissionPolicy,
    decision: AdmissionDecision,
    extensions: Seq<JsonMember>,
) -> Option<AuthFault> {
    if chain_fault(invocation, result, candidate) is Some {
        chain_fault(invocation, result, candidate)
    } else if assessment_fault(assessment, invocation, result, candidate) is Some {
        assessment_fault(assessment, invocation, result, candidate)
    } else if policy_fault(policy) is Some {
        policy_fault(policy)
    } else if decision_candidate_fault(decision, policy, invocation, result, candidate, assessment) is Some {
        decision_candidate_fault(decision, policy, invocation, result, candidate, assessment)
    } else if !(decision.verdict is Admit) {
        Some(AuthFault::WithheldRecord)
    } else if candidate_outputs_of(candidate) is Err {
        Some(candidate_outputs_of(candidate)->Err_0)
    } else if count_matching(
        candidate_outputs_of(candidate)->Ok_0,
        output_port,
        fact_document(fact),
        candidate_outputs_of(candidate)->Ok_0.len() as int,
    ) != 1 {
        Some(AuthFault::AuthorityOutputMismatch)
    } else {
        a_ext_fault("derived authority basis"@, derived_basis_fields(), extensions)
    }
}

pub open spec fn basis_fault(fact: Fact, basis: AuthorityBasis) -> Option<AuthFault> {
    match basis {
        AuthorityBasis::Source { observation, policy, decision, extensions } => source_basis_fault(
            fact,
            observation,
            policy,
            decision,
            extensions@,
        ),
        AuthorityBasis::Derived {
            output_port,
            invocation,
            result,
            candidate,
            assessment,
            policy,
            decision,
            extensions,
        } => derived_basis_fault(
            fact,
            output_port@,
            invocation,
            result,
            candidate,
            assessment,
            policy,
            decision,
            extensions@,
        ),
    }
}

/// Why a record's structure is refused: its protocol, its fact, a
/// shadowing extension, or its basis.
pub open spec fn record_structure_fault(r: AuthorityRecord) -> Option<AuthFault> {
    if r.protocol@ != AUTHORITY_RECORD_PROTOCOL@ {
        Some(AuthFault::ProtocolMismatch(AUTHORITY_RECORD_PROTOCOL@, r.protocol@))
    } else if doc_fact_fault("authority record fact"@, r.fact) is Some {
        doc_fact_fault("authority record fact"@, r.fact)
    } else if a_ext_fault("authority record"@, record_fields(), r.extensions@) is Some {
        a_ext_fault("authority record"@, record_fields(), r.extensions@)
    } else {
        basis_fault(r.fact, r.basis)
    }
}

pub open spec fn basis_doc(b: AuthorityBasis) -> Json {
    match b {
        AuthorityBasis::Source { observation, policy, decision, extensions } => with_ext(
            seq!["kind"@, "observation"@, "policy"@, "decision"@],
            seq![Json::Str("source"@), observation_doc(observation), policy_doc(policy), decision_doc(decision)],
            extensions@,
        ),
        AuthorityBasis::Derived {
            output_port,
            invocation,
            result,
            candidate,
            assessment,
            policy,
            decision,
            extensions,
        } => with_ext(
            derived_basis_fields(),
            seq![
                Json::Str("derived"@),
                Json::Str(output_port@),
                crate::protocol::invocation_doc(invocation),
                result_doc(result),
                candidate_doc(candidate),
                assessment_doc(assessment),
                policy_doc(policy),
                decision_doc(decision),
            ],
            extensions@,
        ),
    }
}

pub open spec fn record_body(r: AuthorityRecord) -> Json {
    with_ext(
        seq!["protocol"@, "fact"@, "basis"@],
        seq![Json::Str(r.protocol@), fact_document(r.fact), basis_doc(r.basis)],
        r.extensions@,
    )
}

/// The body of a record of this protocol holding this fact on this basis,
/// without extensions.
pub open spec fn fresh_record_body(fact: Fact, basis: AuthorityBasis) -> Json {
    with_ext(
        seq!["protocol"@, "fact"@, "basis"@],
        seq![Json::Str(AUTHORITY_RECORD_PROTOCOL@), fact_document(fact), basis_doc(basis)],
        Seq::empty(),
    )
}

pub open spec fn record_doc(r: AuthorityRecord) -> Json {
    with_ext(
        record_fields(),
        seq![Json::Str(r.authority_record_id@), Json::Str(r.protocol@), fact_document(r.fact), basis_doc(r.basis)],
        r.extensions@,
    )
}

/// Why a record is refused, or nothing: its structure, then its identity.
#[verifier::opaque]
pub open spec fn record_fault(r: AuthorityRecord) -> Option<AuthFault> {
    match record_structure_fault(r) {
        Some(f) => Some(f),
        None => a_id_fault("authority record"@, record_body(r), r.authority_record_id@),
    }
}

/// The decision a record's basis carries.
pub open spec fn record_decision(r: AuthorityRecord) -> AdmissionDecision {
    match r.basis {
        AuthorityBasis::Source { decision, .. } => decision,
        AuthorityBasis::Derived { decision, .. } => decision,
    }
}

/// Whether two facts are the same document.
pub fn same_fact(a: &Fact, b: &Fact) -> (r: bool)
    ensures
        r == (fact_document(*a) == fact_document(*b)),
{
    let x = fact_json(a);
    let y = fact_json(b);
    json_equal(&x, &y)
}

fn basis_json(b: &AuthorityBasis) -> (r: JsonValue)
    ensures
        r@ == basis_doc(*b),
{
    let mut m: Vec<JsonMember> = Vec::new();
    assert(key_views(m@) =~= Seq::<Seq<char>>::empty());
    assert(value_views(m@) =~= Seq::<Json>::empty());
    match b {
        AuthorityBasis::Source { observation, policy, decision, extensions } => {
            push_member(&mut m, "kind", json_text("source"));
            push_member(&mut m, "observation", observation_json(observation));
            push_member(&mut m, "policy", policy_json(policy));
            push_member(&mut m, "decision", decision_json(decision));
            assert(key_views(m@) =~= seq!["kind"@, "observation"@, "policy"@, "decision"@]);
            assert(value_views(m@) =~= seq![
                Json::Str("source"@),
                observation_doc(*observation),
                policy_doc(*policy),
                decision_doc(*decision),
            ]);
            object_with(m, extensions)
        },
        AuthorityBasis::Derived {
            output_port,
            invocation,
            result,
            candidate,
            assessment,
            policy,
            decision,
            extensions,
        } => {
            push_member(&mut m, "kind", json_text("derived"));
            push_member(&mut m, "output_port", json_text(output_port.as_str()));
            push_member(&mut m, "invocation", crate::protocol::invocation_json(invocation));
            push_member(&mut m, "result", result_json(result));
            push_member(&mut m, "candidate", crate::protocol::candidate_json(candidate));
            push_member(&mut m, "assessment", assessment_json(assessment));
            push_member(&mut m, "policy", policy_json(policy));
            push_member(&mut m, "decision", decision_json(decision));
            assert(key_views(m@) =~= derived_basis_fields());
            assert(value_views(m@) =~= seq![
                Json::Str("derived"@),
                Json::Str(output_port@),
                crate::protocol::invocation_doc(*invocation),
                result_doc(*result),
                candidate_doc(*candidate),
                assessment_doc(*assessment),
                policy_doc(*policy),
                decision_doc(*decision),
            ]);
            object_with(m, extensions)
        },
    }
}

fn record_body_json(r: &AuthorityRecord) -> (j: JsonValue)
    ensures
        j@ == record_body(*r),
{
    let mut m: Vec<JsonMember> = Vec::new();
    assert(key_views(m@) =~= Seq::<Seq<char>>::empty());
    assert(value_views(m@) =~= Seq::<Json>::empty());
    push_member(&mut m, "protocol", json_text(r.protocol.as_str()));
    push_member(&mut m, "fact", fact_json(&r.fact));
    push_member(&mut m, "basis", basis_json(&r.basis));
    assert(key_views(m@) =~= seq!["protocol"@, "fact"@, "basis"@]);
    assert(value_views(m@) =~= seq![Json::Str(r.protocol@), fact_document(r.fact), basis_doc(r.basis)]);
    object_with(m, &r.extensions)
}

/// The complete record document.
pub fn record_json(r: &AuthorityRecord) -> (j: JsonValue)
    ensures
        j@ == record_doc(*r),
{
    let mut m: Vec<JsonMember> = Vec::new();
    assert(key_views(m@) =~= Seq::<Seq<char>>::empty());
    assert(value_views(m@) =~= Seq::<Json>::empty());
    push_member(&mut m, "authority_record_id", json_text(r.authority_record_id.as_str()));
    push_member(&mut m, "protocol", json_text(r.protocol.as_str()));
    push_member(&mut m, "fact", fact_json(&r.fact));
    push_member(&mut m, "basis", basis_json(&r.basis));
    assert(key_views(m@) =~= record_fields());
    assert(value_views(m@) =~= seq![
        Json::Str(r.authority_record_id@),
        Json::Str(r.protocol@),
        fact_document(r.fact),
        basis_doc(r.basis),
    ]);
    object_with(m, &r.extensions)
}

fn count_matching_outputs(outputs: &Vec<NamedOutput>, port: &PortName, fact: &Fact) -> (r: usize)
    ensures
        r == count_matching(outputs@, port@, fact_document(*fact), outputs@.len() as int),
{
    let mut n: usize = 0;
    let mut i: usize = 0;
    while i < outputs.len()
        invariant
            i <= outputs.len(),
            n == count_matching(outputs@, port@, fact_document(*fact), i as int),
            n <= i,
        decreases outputs.len() - i,
    {
        if outputs[i].port.same_as(port) && same_fact(&outputs[i].fact, fact) {
            n = n + 1;
        }
        i = i + 1;
    }
    n
}

#[verifier::spinoff_prover]
#[verifier::rlimit(100)]
fn check_source_basis(
    fact: &Fact,
    observation: &SourceObservation,
    policy: &AdmissionPolicy,
    decision: &AdmissionDecision,
    extensions: &Vec<JsonMember>,
) -> (r: Result<(), AuthorityError>)
    ensures
        r is Ok <==> source_basis_fault(*fact, *observation, *policy, *decision, extensions@) is None,
        r matches Err(e) ==> source_basis_fault(*fact, *observation, *policy, *decision, extensions@) == Some(
            auth_fault_of(e),
        ),
{
    proof {
        reveal(source_basis_fault);
    }
    observation.validate()?;
    if !same_fact(fact, &observation.fact) {
        return Err(AuthorityError::AuthorityOutputMismatch);
    }
    policy.validate()?;
    decision.validate_observation(policy, observation)?;
    if !decision.verdict.is_admit() {
        return Err(AuthorityError::WithheldRecord);
    }
    let basis_fields: [&str; 4] = ["kind", "observation", "policy", "decision"];
    assert(str_views(basis_fields@) =~= seq!["kind"@, "observation"@, "policy"@, "decision"@]);
    check_ext("source authority basis", extensions, basis_fields.as_slice())
}

#[verifier::spinoff_prover]
#[verifier::rlimit(100)]
fn check_derived_basis(
    fact: &Fact,
    output_port: &PortName,
    invocation: &CapabilityInvocation,
    result: &CapabilityResult,
    candidate: &CapabilityCandidate,
    assessment: &ConformanceAssessment,
    policy: &AdmissionPolicy,
    decision: &AdmissionDecision,
    extensions: &Vec<JsonMember>,
) -> (r: Result<(), AuthorityError>)
    ensures
        r is Ok <==> derived_basis_fault(
            *fact,
            output_port@,
            *invocation,
            *result,
            *candidate,
            *assessment,
            *policy,
            *decision,
            extensions@,
        ) is None,
        r matches Err(e) ==> derived_basis_fault(
            *fact,
            output_port@,
            *invocation,
            *result,
            *candidate,
            *assessment,
            *policy,
            *decision,
            extensions@,
        ) == Some(auth_fault_of(e)),
{
    proof {
        reveal(derived_basis_fault);
    }
    validate_chain(invocation, result, candidate)?;
    assessment.validate_against(invocation, result, candidate)?;
    policy.validate()?;
    decision.validate_candidate(policy, invocation, result, candidate, assessment)?;
    if !decision.verdict.is_admit() {
        return Err(AuthorityError::WithheldRecord);
    }
    let outputs = candidate_outputs(candidate)?;
    let matching = count_matching_outputs(outputs, output_port, fact);
    if matching != 1 {
        return Err(AuthorityError::AuthorityOutputMismatch);
    }
    let basis_fields: [&str; 8] = [
        "kind",
        "output_port",
        "invocation",
        "result",
        "candidate",
        "assessment",
        "policy",
        "decision",
    ];
    assert(str_views(basis_fields@) =~= derived_basis_fields());
    check_ext("derived authority basis", extensions, basis_fields.as_slice())
}

impl AuthorityRecord {
    #[verifier::spinoff_prover]
    #[verifier::rlimit(100)]
    fn validate_structure(&self) -> (r: Result<(), AuthorityError>)
        ensures
            r is Ok <==> record_structure_fault(*self) is None,
            r matches Err(e) ==> record_structure_fault(*self) == Some(auth_fault_of(e)),
    {
        check_protocol(AUTHORITY_RECORD_PROTOCOL, self.protocol.as_str())?;
        check_doc_fact("authority record fact", &self.fact)?;
        let fields: [&str; 4] = ["authority_record_id", "protocol", "fact", "basis"];
        assert(str_views(fields@) =~= record_fields());
        check_ext("authority record", &self.extensions, fields.as_slice())?;
        match &self.basis {
            AuthorityBasis::Source { observation, policy, decision, extensions } => check_source_basis(
                &self.fact,
                observation,
                policy,
                decision,
                extensions,
            ),
            AuthorityBasis::Derived {
                output_port,
                invocation,
                result,
                candidate,
                assessment,
                policy,
                decision,
                extensions,
            } => check_derived_basis(
                &self.fact,
                output_port,
                invocation,
                result,
                candidate,
                assessment,
                policy,
                decision,
                extensions,
            ),
        }
    }

    /// Revalidates the whole chain and the record's content-derived
    /// identity.
    pub fn validate(&self) -> (r: Result<(), AuthorityError>)
        ensures
            r is Ok <==> record_fault(*self) is None,
            r matches Err(e) ==> record_fault(*self) == Some(auth_fault_of(e)),
    {
        proof {
            reveal(record_fault);
        }
        self.validate_structure()?;
        let body = record_body_json(self);
        check_id("authority record", &body, &self.authority_record_id)
    }

    pub(crate) fn with_basis(fact: Fact, basis: AuthorityBasis) -> (r: Result<Self, AuthorityError>)
        ensures
            r matches Ok(x) ==> x.fact == fact && x.basis == basis && x.extensions@.len() == 0 && record_fault(x) is None
                && is_sha256_text(x.authority_record_id@) && record_body(x) == fresh_record_body(fact, basis),
            doc_fact_fault("authority record fact"@, fact) is None && basis_fault(fact, basis) is None && content_id(
                fresh_record_body(fact, basis),
            ) is Some ==> r is Ok,
    {
        let mut record = AuthorityRecord {
            authority_record_id: placeholder_sha256(),
            protocol: owned(AUTHORITY_RECORD_PROTOCOL),
            fact,
            basis,
            extensions: Vec::new(),
        };
        proof {
            assert(key_views(record.extensions@) =~= Seq::<Seq<char>>::empty());
            assert(value_views(record.extensions@) =~= Seq::<Json>::empty());
            assert(first_shadowing_key(key_views(record.extensions@), record_fields(), 0) is None);
            assert(record_body(record) == fresh_record_body(fact, basis));
        }
        record.validate_structure()?;
        let body = record_body_json(&record);
        record.authority_record_id = derive_id(&body)?;
        proof {
            reveal(record_fault);
            assert(record_structure_fault(record) is None);
        }
        Ok(record)
    }

    /// The decision this record's basis carries.
    pub fn decision(&self) -> (r: &AdmissionDecision)
        ensures
            *r == record_decision(*self),
    {
        match &self.basis {
            AuthorityBasis::Source { decision, .. } => decision,
            AuthorityBasis::Derived { decision, .. } => decision,
        }
    }
}

// ---- copies ----

impl DecisionOutput {
    /// An equal, separately owned output.
    pub fn duplicate(&self) -> (r: Self)
        ensures
            decision_output_doc(r) == decision_output_doc(*self),
    {
        DecisionOutput {
            port: self.port.duplicate(),
            fact_id: self.fact_id.duplicate(),
            extensions: crate::fact::copy_members_pub(&self.extensions),
        }
    }
}

impl AdmissionSubject {
    /// An equal, separately owned subject.
    pub fn duplicate(&self) -> (r: Self)
        ensures
            subject_doc(r) == subject_doc(*self),
    {
        match self {
            AdmissionSubject::Observation { observation_id, fact_id, extensions } => AdmissionSubject::Observation {
                observation_id: observation_id.duplicate(),
                fact_id: fact_id.duplicate(),
                extensions: crate::fact::copy_members_pub(extensions),
            },
            AdmissionSubject::Candidate { assessment_id, candidate_id, outputs, extensions } => {
                let mut copied: Vec<DecisionOutput> = Vec::new();
                let mut i: usize = 0;
                while i < outputs.len()
                    invariant
                        i <= outputs.len(),
                        copied@.len() == i,
                        forall|k: int| 0 <= k < i ==> decision_output_doc(#[trigger] copied@[k]) == decision_output_doc(outputs@[k]),
                    decreases outputs.len() - i,
                {
                    copied.push(outputs[i].duplicate());
                    i = i + 1;
                }
                assert(Seq::new(copied@.len(), |k: int| decision_output_doc(copied@[k])) =~= Seq::new(
                    outputs@.len(),
                    |k: int| decision_output_doc(outputs@[k]),
                ));
                AdmissionSubject::Candidate {
                    assessment_id: assessment_id.duplicate(),
                    candidate_id: candidate_id.duplicate(),
                    outputs: copied,
                    extensions: crate::fact::copy_members_pub(extensions),
                }
            },
        }
    }
}

impl AdmissionVerdict {
    /// An equal, separately owned verdict.
    pub fn duplicate(&self) -> (r: Self)
        ensures
            verdict_doc(r) == verdict_doc(*self),
            verdict_kind(r) == verdict_kind(*self),
    {
        match self {
            AdmissionVerdict::Admit { extensions } => AdmissionVerdict::Admit {
                extensions: crate::fact::copy_members_pub(extensions),
            },
            AdmissionVerdict::Withhold { reason, extensions } => AdmissionVerdict::Withhold {
                reason: *reason,
                extensions: crate::fact::copy_members_pub(extensions),
            },
        }
    }
}

impl AdmissionDecision {
    /// An equal, separately owned decision.
    pub fn duplicate(&self) -> (r: Self)
        ensures
            decision_doc(r) == decision_doc(*self),
            r.decision_id@ == self.decision_id@,
    {
        AdmissionDecision {
            decision_id: self.decision_id.duplicate(),
            protocol: owned(self.protocol.as_str()),
            policy_id: self.policy_id.duplicate(),
            subject: self.subject.duplicate(),
            verdict: self.verdict.duplicate(),
            extensions: crate::fact::copy_members_pub(&self.extensions),
        }
    }
}

/// Whether two decisions are the same document.
pub fn same_decision(a: &AdmissionDecision, b: &AdmissionDecision) -> (r: bool)
    ensures
        r == (decision_doc(*a) == decision_doc(*b)),
{
    let x = decision_json(a);
    let y = decision_json(b);
    json_equal(&x, &y)
}

/// Whether two records are the same document.
pub fn same_record(a: &AuthorityRecord, b: &AuthorityRecord) -> (r: bool)
    ensures
        r == (record_doc(*a) == record_doc(*b)),
{
    let x = record_json(a);
    let y = record_json(b);
    json_equal(&x, &y)
}

proof fn lemma_object_vals(
    k1: Seq<Seq<char>>,
    v1: Seq<Json>,
    e1: Seq<JsonMember>,
    k2: Seq<Seq<char>>,
    v2: Seq<Json>,
    e2: Seq<JsonMember>,
)
    requires
        Json::Object(k1 + key_views(e1), v1 + value_views(e1)) == Json::Object(k2 + key_views(e2), v2 + value_views(e2)),
        v1.len() == v2.len(),
    ensures
        forall|i: int| 0 <= i < v1.len() ==> v1[i] == v2[i],
{
    assert forall|i: int| 0 <= i < v1.len() implies v1[i] == v2[i] by {
        assert((v1 + value_views(e1))[i] == (v2 + value_views(e2))[i]);
    }
}

/// Two records that are the same document hold the same fact under the
/// same identity.
pub proof fn lemma_record_doc_parts(a: AuthorityRecord, b: AuthorityRecord)
    requires
        record_doc(a) == record_doc(b),
    ensures
        a.authority_record_id@ == b.authority_record_id@,
        fact_document(a.fact) == fact_document(b.fact),
        a.fact.id@ == b.fact.id@,
{
    let va = seq![Json::Str(a.authority_record_id@), Json::Str(a.protocol@), fact_document(a.fact), basis_doc(a.basis)];
    let vb = seq![Json::Str(b.authority_record_id@), Json::Str(b.protocol@), fact_document(b.fact), basis_doc(b.basis)];
    lemma_object_vals(record_fields(), va, a.extensions@, record_fields(), vb, b.extensions@);
    assert(va[0] == vb[0]);
    assert(va[2] == vb[2]);
    let fa = seq![Json::Str(a.fact.id@), id_doc(a.fact.value_kind@), a.fact.payload@];
    let fb = seq![Json::Str(b.fact.id@), id_doc(b.fact.value_kind@), b.fact.payload@];
    lemma_object_vals(crate::fact::fact_fields(), fa, a.fact.extensions@, crate::fact::fact_fields(), fb, b.fact.extensions@);
    assert(fa[0] == fb[0]);
}

// ---- snapshots ----

/// A deterministic, content-identified export of admission state. Storing
/// and transporting snapshots is the host's concern.
#[derive(Clone, Debug, PartialEq, Eq)]
pub struct AdmissionSnapshot {
    pub snapshot_id: Sha256Digest,
    pub protocol: String,
    pub facts: Vec<Fact>,
    pub decisions: Vec<AdmissionDecision>,
    pub authority_records: Vec<AuthorityRecord>,
    pub extensions: Vec<JsonMember>,
}

pub open spec fn snapshot_fields() -> Seq<Seq<char>> {
    seq!["snapshot_id"@, "protocol"@, "facts"@, "decisions"@, "authority_records"@]
}

pub open spec fn first_snapshot_fact_fault(facts: Seq<Fact>, i: int) -> Option<AuthFault>
    decreases facts.len() - i,
{
    if i < 0 || i >= facts.len() {
        None
    } else if doc_fact_fault("snapshot fact"@, facts[i]) is Some {
        doc_fact_fault("snapshot fact"@, facts[i])
    } else {
        first_snapshot_fact_fault(facts, i + 1)
    }
}

pub open spec fn first_record_fault(records: Seq<AuthorityRecord>, i: int) -> Option<AuthFault>
    decreases records.len() - i,
{
    if i < 0 || i >= records.len() {
        None
    } else if record_fault(records[i]) is Some {
        record_fault(records[i])
    } else {
        first_record_fault(records, i + 1)
    }
}

/// Why a snapshot's structure is refused: its protocol, a fact, a record,
/// or a shadowing extension.
pub open spec fn snapshot_structure_fault(s: AdmissionSnapshot) -> Option<AuthFault> {
    if s.protocol@ != ADMISSION_SNAPSHOT_PROTOCOL@ {
        Some(AuthFault::ProtocolMismatch(ADMISSION_SNAPSHOT_PROTOCOL@, s.protocol@))
    } else if first_snapshot_fact_fault(s.facts@, 0) is Some {
        first_snapshot_fact_fault(s.facts@, 0)
    } else if first_record_fault(s.authority_records@, 0) is Some {
        first_record_fault(s.authority_records@, 0)
    } else {
        a_ext_fault("admission snapshot"@, snapshot_fields(), s.extensions@)
    }
}

pub open spec fn fact_docs(facts: Seq<Fact>) -> Json {
    Json::Array(Seq::new(facts.len(), |i: int| fact_document(facts[i])))
}

pub open spec fn decision_docs(decisions: Seq<AdmissionDecision>) -> Json {
    Json::Array(Seq::new(decisions.len(), |i: int| decision_doc(decisions[i])))
}

pub open spec fn record_docs(records: Seq<AuthorityRecord>) -> Json {
    Json::Array(Seq::new(records.len(), |i: int| record_doc(records[i])))
}

pub open spec fn snapshot_body(s: AdmissionSnapshot) -> Json {
    with_ext(
        seq!["protocol"@, "facts"@, "decisions"@, "authority_records"@],
        seq![
            Json::Str(s.protocol@),
            fact_docs(s.facts@),
            decision_docs(s.decisions@),
            record_docs(s.authority_records@),
        ],
        s.extensions@,
    )
}

/// Why a snapshot is refused, or nothing: its structure, then its
/// identity.
/// Why facts, records and extensions cannot form a snapshot.
pub open spec fn snapshot_parts_fault(
    facts: Seq<Fact>,
    records: Seq<AuthorityRecord>,
    extensions: Seq<JsonMember>,
) -> Option<AuthFault> {
    if first_snapshot_fact_fault(facts, 0) is Some {
        first_snapshot_fact_fault(facts, 0)
    } else if first_record_fault(records, 0) is Some {
        first_record_fault(records, 0)
    } else {
        a_ext_fault("admission snapshot"@, snapshot_fields(), extensions)
    }
}

/// The identified body of a snapshot of these parts.
pub open spec fn snapshot_parts_body(
    facts: Seq<Fact>,
    decisions: Seq<AdmissionDecision>,
    records: Seq<AuthorityRecord>,
    extensions: Seq<JsonMember>,
) -> Json {
    with_ext(
        seq!["protocol"@, "facts"@, "decisions"@, "authority_records"@],
        seq![Json::Str(ADMISSION_SNAPSHOT_PROTOCOL@), fact_docs(facts), decision_docs(decisions), record_docs(records)],
        extensions,
    )
}

pub open spec fn snapshot_fault(s: AdmissionSnapshot) -> Option<AuthFault> {
    match snapshot_structure_fault(s) {
        Some(f) => Some(f),
        None => a_id_fault("admission snapshot"@, snapshot_body(s), s.snapshot_id@),
    }
}

fn snapshot_body_json(s: &AdmissionSnapshot) -> (r: JsonValue)
    ensures
        r@ == snapshot_body(*s),
{
    let mut facts: Vec<JsonValue> = Vec::new();
    let mut i: usize = 0;
    while i < s.facts.len()
        invariant
            i <= s.facts.len(),
            crate::json::item_views(facts@) == Seq::new(i as nat, |k: int| fact_document(s.facts@[k])),
        decreases s.facts.len() - i,
    {
        let ghost before = facts@;
        facts.push(fact_json(&s.facts[i]));
        assert(crate::json::item_views(facts@) =~= Seq::new((i + 1) as nat, |k: int| fact_document(s.facts@[k]))) by {
            assert(crate::json::item_views(facts@) =~= crate::json::item_views(before).push(fact_document(s.facts@[i as int])));
        }
        i = i + 1;
    }
    let mut decisions: Vec<JsonValue> = Vec::new();
    let mut i: usize = 0;
    while i < s.decisions.len()
        invariant
            i <= s.decisions.len(),
            crate::json::item_views(decisions@) == Seq::new(i as nat, |k: int| decision_doc(s.decisions@[k])),
        decreases s.decisions.len() - i,
    {
        let ghost before = decisions@;
        decisions.push(decision_json(&s.decisions[i]));
        assert(crate::json::item_views(decisions@) =~= Seq::new((i + 1) as nat, |k: int| decision_doc(s.decisions@[k]))) by {
            assert(crate::json::item_views(decisions@) =~= crate::json::item_views(before).push(
                decision_doc(s.decisions@[i as int]),
            ));
        }
        i = i + 1;
    }
    let mut records: Vec<JsonValue> = Vec::new();
    let mut i: usize = 0;
    while i < s.authority_records.len()
        invariant
            i <= s.authority_records.len(),
            crate::json::item_views(records@) == Seq::new(i as nat, |k: int| record_doc(s.authority_records@[k])),
        decreases s.authority_records.len() - i,
    {
        let ghost before = records@;
        records.push(record_json(&s.authority_records[i]));
        assert(crate::json::item_views(records@) =~= Seq::new((i + 1) as nat, |k: int| record_doc(s.authority_records@[k])))
            by {
            assert(crate::json::item_views(records@) =~= crate::json::item_views(before).push(
                record_doc(s.authority_records@[i as int]),
            ));
        }
        i = i + 1;
    }
    let mut m: Vec<JsonMember> = Vec::new();
    assert(key_views(m@) =~= Seq::<Seq<char>>::empty());
    assert(value_views(m@) =~= Seq::<Json>::empty());
    push_member(&mut m, "protocol", json_text(s.protocol.as_str()));
    push_member(&mut m, "facts", json_array(facts));
    push_member(&mut m, "decisions", json_array(decisions));
    push_member(&mut m, "authority_records", json_array(records));
    assert(key_views(m@) =~= seq!["protocol"@, "facts"@, "decisions"@, "authority_records"@]);
    assert(value_views(m@) =~= seq![
        Json::Str(s.protocol@),
        fact_docs(s.facts@),
        decision_docs(s.decisions@),
        record_docs(s.authority_records@),
    ]);
    object_with(m, &s.extensions)
}

impl AdmissionSnapshot {
    fn validate_structure(&self) -> (r: Result<(), AuthorityError>)
        ensures
            r is Ok <==> snapshot_structure_fault(*self) is None,
            r matches Err(e) ==> snapshot_structure_fault(*self) == Some(auth_fault_of(e)),
    {
        check_protocol(ADMISSION_SNAPSHOT_PROTOCOL, self.protocol.as_str())?;
        let mut i: usize = 0;
        while i < self.facts.len()
            invariant
                i <= self.facts.len(),
                self.protocol@ == ADMISSION_SNAPSHOT_PROTOCOL@,
                first_snapshot_fact_fault(self.facts@, 0) == first_snapshot_fact_fault(self.facts@, i as int),
            decreases self.facts.len() - i,
        {
            check_doc_fact("snapshot fact", &self.facts[i])?;
            i = i + 1;
        }
        let mut i: usize = 0;
        while i < self.authority_records.len()
            invariant
                i <= self.authority_records.len(),
                self.protocol@ == ADMISSION_SNAPSHOT_PROTOCOL@,
                first_snapshot_fact_fault(self.facts@, 0) is None,
                first_record_fault(self.authority_records@, 0) == first_record_fault(self.authority_records@, i as int),
            decreases self.authority_records.len() - i,
        {
            self.authority_records[i].validate()?;
            i = i + 1;
        }
        let fields: [&str; 5] = ["snapshot_id", "protocol", "facts", "decisions", "authority_records"];
        assert(str_views(fields@) =~= snapshot_fields());
        check_ext("admission snapshot", &self.extensions, fields.as_slice())
    }

    /// Revalidates the structure and the content-derived identity.
    pub fn validate(&self) -> (r: Result<(), AuthorityError>)
        ensures
            r is Ok <==> snapshot_fault(*self) is None,
            r matches Err(e) ==> snapshot_fault(*self) == Some(auth_fault_of(e)),
    {
        self.validate_structure()?;
        let body = snapshot_body_json(self);
        check_id("admission snapshot", &body, &self.snapshot_id)
    }

    /// A snapshot of these facts, decisions and records, identified by its
    /// content.
    pub fn assemble(
        facts: Vec<Fact>,
        decisions: Vec<AdmissionDecision>,
        authority_records: Vec<AuthorityRecord>,
        extensions: Vec<JsonMember>,
    ) -> (r: Result<Self, AuthorityError>)
        ensures
            r matches Ok(s) ==> s.facts == facts && s.decisions == decisions && s.authority_records == authority_records
                && s.extensions == extensions && s.protocol@ == ADMISSION_SNAPSHOT_PROTOCOL@ && snapshot_fault(s) is None,
            r is Ok <==> snapshot_parts_fault(facts@, authority_records@, extensions@) is None && content_id(
                snapshot_parts_body(facts@, decisions@, authority_records@, extensions@),
            ) is Some,
    {
        let mut snapshot = AdmissionSnapshot {
            snapshot_id: placeholder_sha256(),
            protocol: owned(ADMISSION_SNAPSHOT_PROTOCOL),
            facts,
            decisions,
            authority_records,
            extensions,
        };
        assert(snapshot_structure_fault(snapshot) == snapshot_parts_fault(facts@, authority_records@, extensions@));
        snapshot.validate_structure()?;
        let body = snapshot_body_json(&snapshot);
        assert(body@ == snapshot_parts_body(facts@, decisions@, authority_records@, extensions@));
        snapshot.snapshot_id = derive_id(&body)?;
        Ok(snapshot)
    }
}

impl AuthorityRecord {
    /// A copy holding the same identity, protocol, fact and extensions;
    /// the basis is copied by `Clone`.
    pub fn copy_keyed(&self) -> (r: Self)
        ensures
            r.authority_record_id@ == self.authority_record_id@,
            fact_document(r.fact) == fact_document(self.fact),
            r.fact.id@ == self.fact.id@,
    {
        AuthorityRecord {
            authority_record_id: self.authority_record_id.duplicate(),
            protocol: owned(self.protocol.as_str()),
            fact: self.fact.duplicate(),
            basis: self.basis.clone(),
            extensions: crate::fact::copy_members_pub(&self.extensions),
        }
    }
}

} // verus!
