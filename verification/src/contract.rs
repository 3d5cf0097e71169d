//! Exact semantic contract identities and evidence records.

use vstd::prelude::*;
use crate::json::{JsonMember, JsonValue};
use crate::text::owned;

verus! {

/// Exact identity of a semantic contract. Compatibility is never inferred
/// from the version string; it requires an explicit bridge.
#[derive(Clone, Debug)]
pub struct ContractId {
    pub package: String,
    pub name: String,
    pub version: String,
}

impl ContractId {
    pub fn new(package: String, name: String, version: String) -> (id: Self)
        ensures
            id.package@ == package@,
            id.name@ == name@,
            id.version@ == version@,
    {
        ContractId { package, name, version }
    }

    /// Two identities that differ only in version.
    pub open spec fn spec_is_other_version_of(self, other: Self) -> bool {
        self.package@ == other.package@ && self.name@ == other.name@
            && self.version@ != other.version@
    }

    pub fn is_other_version_of(&self, other: &Self) -> (r: bool)
        ensures
            r == self.spec_is_other_version_of(*other),
    {
        self.package == other.package && self.name == other.name
            && self.version != other.version
    }
}

/// How strongly a claim is supported.
#[derive(Clone, Copy, Debug, PartialEq, Eq, Structural)]
pub enum EvidenceStatus {
    Declared,
    StaticInferred,
    RuntimeObserved,
    Verified,
    Unknown,
}

/// Where a claim came from.
#[derive(Clone, Debug)]
pub struct SourceRef {
    pub authority: String,
    pub artifact: String,
    pub revision: String,
    pub span: Option<String>,
}

impl SourceRef {
    pub fn new(authority: String, artifact: String, revision: String) -> (r: Self)
        ensures
            r.authority@ == authority@,
            r.artifact@ == artifact@,
            r.revision@ == revision@,
            r.span is None,
    {
        SourceRef { authority, artifact, revision, span: None }
    }

    /// The same reference narrowed to one span.
    pub fn with_span(self, span: String) -> (r: Self)
        ensures
            r.authority@ == self.authority@,
            r.artifact@ == self.artifact@,
            r.revision@ == self.revision@,
            r.span matches Some(s) && s@ == span@,
    {
        SourceRef { authority: self.authority, artifact: self.artifact, revision: self.revision, span: Some(span) }
    }
}

/// An exact conformance-result reference transported with a claim.
///
/// This record is an attestation, not an intrinsic proof. An analysis host
/// must validate and explicitly admit the exact record before a resolver may
/// treat the associated claim as trusted.
#[derive(Clone, Debug)]
pub struct ConformanceEvidence {
    /// Opaque identity of the authority that issued the result.
    pub attester: String,
    /// Exact identity and version of the conformance suite.
    pub suite: String,
    /// Digest of the adapter, bridge, or implementation exercised by the suite.
    pub subject_digest: String,
    /// Digest of the immutable conformance-result document.
    pub result_digest: String,
}

impl ConformanceEvidence {
    pub fn new(attester: String, suite: String, subject_digest: String, result_digest: String) -> (r: Self)
        ensures
            r.attester@ == attester@,
            r.suite@ == suite@,
            r.subject_digest@ == subject_digest@,
            r.result_digest@ == result_digest@,
    {
        ConformanceEvidence { attester, suite, subject_digest, result_digest }
    }
}

/// A claim's status, its source and any attached conformance reference.
#[derive(Clone, Debug)]
pub struct Evidence {
    pub status: EvidenceStatus,
    pub source: SourceRef,
    pub conformance: Option<ConformanceEvidence>,
}

impl Evidence {
    /// A declared claim with no conformance attestation.
    pub fn declared(source: SourceRef) -> (r: Self)
        ensures
            r.status == EvidenceStatus::Declared,
            r.source == source,
            r.conformance is None,
    {
        Evidence { status: EvidenceStatus::Declared, source, conformance: None }
    }

    /// An attester reported successful verification. The claim is still not
    /// trusted until the active analysis policy admits the exact record.
    pub fn verified(source: SourceRef, conformance: ConformanceEvidence) -> (r: Self)
        ensures
            r.status == EvidenceStatus::Verified,
            r.source == source,
            r.conformance == Some(conformance),
    {
        Evidence { status: EvidenceStatus::Verified, source, conformance: Some(conformance) }
    }
}


/// One claim about a program element under an exact contract.
#[derive(Debug)]
pub struct Claim {
    pub contract: ContractId,
    pub payload: JsonValue,
    pub evidence: Evidence,
}

impl Claim {
    pub fn new(contract: ContractId, payload: JsonValue, evidence: Evidence) -> (r: Self)
        ensures
            r.contract == contract,
            r.payload == payload,
            r.evidence == evidence,
    {
        Claim { contract, payload, evidence }
    }
}

/// One operation of a dialect, with its attributes, claims and nested
/// regions. Unknown top-level fields survive even when the dialect plugin is
/// absent.
#[derive(Debug)]
pub struct Operation {
    pub id: String,
    pub dialect: String,
    pub name: String,
    pub attributes: Vec<JsonMember>,
    pub claims: Vec<Claim>,
    pub regions: Vec<Vec<Operation>>,
    pub extensions: Vec<JsonMember>,
}

impl Operation {
    /// An operation with no attributes, claims, regions or extensions.
    pub fn new(id: &str, dialect: &str, name: &str) -> (r: Self)
        ensures
            r.id@ == id@,
            r.dialect@ == dialect@,
            r.name@ == name@,
            r.attributes@.len() == 0,
            r.claims@.len() == 0,
            r.regions@.len() == 0,
            r.extensions@.len() == 0,
    {
        Operation {
            id: owned(id),
            dialect: owned(dialect),
            name: owned(name),
            attributes: Vec::new(),
            claims: Vec::new(),
            regions: Vec::new(),
            extensions: Vec::new(),
        }
    }

    /// The same operation with one more claim, after the others.
    pub fn with_claim(self, claim: Claim) -> (r: Self)
        ensures
            r.id == self.id,
            r.dialect == self.dialect,
            r.name == self.name,
            r.attributes == self.attributes,
            r.claims@ == self.claims@.push(claim),
            r.regions == self.regions,
            r.extensions == self.extensions,
    {
        let mut op = self;
        op.claims.push(claim);
        op
    }

    /// The same operation with one more region, after the others.
    pub fn with_region(self, operations: Vec<Operation>) -> (r: Self)
        ensures
            r.id == self.id,
            r.dialect == self.dialect,
            r.name == self.name,
            r.attributes == self.attributes,
            r.claims == self.claims,
            r.regions@ == self.regions@.push(operations),
            r.extensions == self.extensions,
    {
        let mut op = self;
        op.regions.push(operations);
        op
    }
}

/// A program: its format version, its operations, and unknown top-level
/// fields.
#[derive(Debug)]
pub struct Program {
    pub format_version: String,
    pub operations: Vec<Operation>,
    pub extensions: Vec<JsonMember>,
}

pub open spec fn program_format_version() -> Seq<char> {
    "0.1.0"@
}

impl Program {
    /// A program of the current format version.
    pub fn new(operations: Vec<Operation>) -> (r: Self)
        ensures
            r.format_version@ == program_format_version(),
            r.operations == operations,
            r.extensions@.len() == 0,
    {
        Program { format_version: owned("0.1.0"), operations, extensions: Vec::new() }
    }
}

} // verus!