//! Immutable attempt inputs, monotonically retained evidence, terminal
//! resolutions and the content-identified checkpoint that binds them.

use vstd::prelude::*;
use crate::json::{Json, JsonValue, JsonMember, json_object, json_text, key_views, value_views, push_member};
use crate::digest::{canonical_bytes, canonical_bytes_of, content_id, json_content_id};
use crate::identity::{is_sha256_identity, is_sha256_text};
use crate::journal::{
    AttemptPhase, DeploymentLock, ExactJson, JournalError, RecoveryAction, exact_doc, exact_json_doc, MAX_EXACT_JSON_BYTES,
    phase_name, phase_name_exec, recovery_for, recovery_action_for, terminal, valid_opaque_id,
    valid_transition, validate_opaque_id, validate_transition, CHECKPOINT_PROTOCOL,
};
use crate::text::{owned, str_eq};

verus! {

/// Largest canonical form of one whole checkpoint, in bytes.
pub const MAX_CHECKPOINT_BYTES: usize = 67108864;

/// Exact documents one terminal checkpoint may retain: five immutable
/// inputs, five evidence documents and one resolution, plus one spare.
pub const MAX_RETAINED_EXACT_JSON_DOCUMENTS: usize = 12;

/// Room for coordinates, field names, identities and tags.
pub const MAX_CHECKPOINT_FIXED_OVERHEAD: usize = 1048576;

/// The attempt inputs before their aggregate identity is derived.
#[derive(Debug)]
pub struct UnboundAttemptInputs {
    pub semantic_plan: ExactJson,
    pub invocation: ExactJson,
    pub baseline_snapshot: ExactJson,
    pub conformance_suite: String,
    pub provider: DeploymentLock,
    pub attester: DeploymentLock,
    pub execution_policy: ExactJson,
    pub admission_policy: ExactJson,
}

/// Immutable, content-identified inputs for one complete attempt.
#[derive(Debug)]
pub struct AttemptInputs {
    pub attempt_id: String,
    pub semantic_plan: ExactJson,
    pub invocation: ExactJson,
    pub baseline_snapshot: ExactJson,
    pub conformance_suite: String,
    pub provider: DeploymentLock,
    pub attester: DeploymentLock,
    pub execution_policy: ExactJson,
    pub admission_policy: ExactJson,
}

/// The document form of one exact payload.
pub open spec fn exact_view(e: ExactJson) -> Json {
    exact_doc(e.digest@, e.value@)
}

/// Two exact payloads with the same digest and value.
pub open spec fn same_exact(a: ExactJson, b: ExactJson) -> bool {
    a.digest@ == b.digest@ && a.value@ == b.value@
}

/// The document form of a deployment lock.
pub open spec fn lock_doc(l: DeploymentLock) -> Json {
    Json::Object(
        seq!["implementation"@, "package"@, "package_digest"@, "resource"@, "resource_digest"@],
        seq![
            Json::Str(l.implementation@),
            Json::Str(l.package@),
            Json::Str(l.package_digest@),
            Json::Str(l.resource@),
            Json::Str(l.resource_digest@),
        ],
    )
}

pub open spec fn same_lock(a: DeploymentLock, b: DeploymentLock) -> bool {
    a.implementation@ == b.implementation@ && a.package@ == b.package@ && a.package_digest@
        == b.package_digest@ && a.resource@ == b.resource@ && a.resource_digest@ == b.resource_digest@
}

pub open spec fn same_unbound(a: UnboundAttemptInputs, b: UnboundAttemptInputs) -> bool {
    &&& same_exact(a.semantic_plan, b.semantic_plan)
    &&& same_exact(a.invocation, b.invocation)
    &&& same_exact(a.baseline_snapshot, b.baseline_snapshot)
    &&& a.conformance_suite@ == b.conformance_suite@
    &&& same_lock(a.provider, b.provider)
    &&& same_lock(a.attester, b.attester)
    &&& same_exact(a.execution_policy, b.execution_policy)
    &&& same_exact(a.admission_policy, b.admission_policy)
}

/// Every child is valid, and provider and attester are distinct in both
/// implementation and installed resource: no self-attestation.
/// Every document and lock is valid, but the provider and attester share
/// an implementation or a resource.
pub open spec fn locks_shared(u: UnboundAttemptInputs) -> bool {
    &&& u.semantic_plan.valid()
    &&& u.invocation.valid()
    &&& u.baseline_snapshot.valid()
    &&& valid_opaque_id(u.conformance_suite@)
    &&& u.provider.valid()
    &&& u.attester.valid()
    &&& u.execution_policy.valid()
    &&& u.admission_policy.valid()
    &&& (u.provider.implementation@ == u.attester.implementation@ || u.provider.resource_digest@ == u.attester.resource_digest@)
}

pub open spec fn unbound_ok(u: UnboundAttemptInputs) -> bool {
    &&& u.semantic_plan.valid()
    &&& u.invocation.valid()
    &&& u.baseline_snapshot.valid()
    &&& valid_opaque_id(u.conformance_suite@)
    &&& u.provider.valid()
    &&& u.attester.valid()
    &&& u.execution_policy.valid()
    &&& u.admission_policy.valid()
    &&& u.provider.implementation@ != u.attester.implementation@
    &&& u.provider.resource_digest@ != u.attester.resource_digest@
}

pub open spec fn input_keys() -> Seq<Seq<char>> {
    seq![
        "semantic_plan"@,
        "invocation"@,
        "baseline_snapshot"@,
        "conformance_suite"@,
        "provider"@,
        "attester"@,
        "execution_policy"@,
        "admission_policy"@,
    ]
}

pub open spec fn input_values(u: UnboundAttemptInputs) -> Seq<Json> {
    seq![
        exact_view(u.semantic_plan),
        exact_view(u.invocation),
        exact_view(u.baseline_snapshot),
        Json::Str(u.conformance_suite@),
        lock_doc(u.provider),
        lock_doc(u.attester),
        exact_view(u.execution_policy),
        exact_view(u.admission_policy),
    ]
}

/// The document whose content identity is the attempt identity.
pub open spec fn inputs_body_doc(u: UnboundAttemptInputs) -> Json {
    Json::Object(input_keys(), input_values(u))
}

impl AttemptInputs {
    /// These inputs without their identity.
    pub open spec fn unbound(&self) -> UnboundAttemptInputs {
        UnboundAttemptInputs {
            semantic_plan: self.semantic_plan,
            invocation: self.invocation,
            baseline_snapshot: self.baseline_snapshot,
            conformance_suite: self.conformance_suite,
            provider: self.provider,
            attester: self.attester,
            execution_policy: self.execution_policy,
            admission_policy: self.admission_policy,
        }
    }

    /// Valid children and an attempt identity that is the content identity
    /// of everything else.
    pub open spec fn valid(&self) -> bool {
        &&& unbound_ok(self.unbound())
        &&& is_sha256_text(self.attempt_id@)
        &&& content_id(inputs_body_doc(self.unbound())) == Some(self.attempt_id@)
    }
}

/// The document form of bound inputs, identity first.
pub open spec fn inputs_doc(i: AttemptInputs) -> Json {
    Json::Object(seq!["attempt_id"@] + input_keys(), seq![Json::Str(i.attempt_id@)] + input_values(i.unbound()))
}

pub open spec fn same_inputs(a: AttemptInputs, b: AttemptInputs) -> bool {
    a.attempt_id@ == b.attempt_id@ && same_unbound(a.unbound(), b.unbound())
}

fn lock_json(l: &DeploymentLock) -> (r: JsonValue)
    ensures
        r@ == lock_doc(*l),
{
    let mut m: Vec<JsonMember> = Vec::new();
    assert(key_views(m@) =~= Seq::<Seq<char>>::empty());
    assert(value_views(m@) =~= Seq::<Json>::empty());
    push_member(&mut m, "implementation", json_text(l.implementation.as_str()));
    push_member(&mut m, "package", json_text(l.package.as_str()));
    push_member(&mut m, "package_digest", json_text(l.package_digest.as_str()));
    push_member(&mut m, "resource", json_text(l.resource.as_str()));
    push_member(&mut m, "resource_digest", json_text(l.resource_digest.as_str()));
    assert(key_views(m@) =~= seq!["implementation"@, "package"@, "package_digest"@, "resource"@, "resource_digest"@]);
    assert(value_views(m@) =~= seq![
        Json::Str(l.implementation@),
        Json::Str(l.package@),
        Json::Str(l.package_digest@),
        Json::Str(l.resource@),
        Json::Str(l.resource_digest@),
    ]);
    json_object(m)
}

fn push_input_members(
    m: &mut Vec<JsonMember>,
    semantic_plan: &ExactJson,
    invocation: &ExactJson,
    baseline_snapshot: &ExactJson,
    conformance_suite: &String,
    provider: &DeploymentLock,
    attester: &DeploymentLock,
    execution_policy: &ExactJson,
    admission_policy: &ExactJson,
)
    ensures
        key_views(final(m)@) == key_views(old(m)@) + input_keys(),
        value_views(final(m)@) == value_views(old(m)@) + input_values(
            UnboundAttemptInputs {
                semantic_plan: *semantic_plan,
                invocation: *invocation,
                baseline_snapshot: *baseline_snapshot,
                conformance_suite: *conformance_suite,
                provider: *provider,
                attester: *attester,
                execution_policy: *execution_policy,
                admission_policy: *admission_policy,
            },
        ),
{
    let ghost k0 = key_views(m@);
    let ghost v0 = value_views(m@);
    push_member(m, "semantic_plan", exact_json_doc(semantic_plan));
    push_member(m, "invocation", exact_json_doc(invocation));
    push_member(m, "baseline_snapshot", exact_json_doc(baseline_snapshot));
    push_member(m, "conformance_suite", json_text(conformance_suite.as_str()));
    push_member(m, "provider", lock_json(provider));
    push_member(m, "attester", lock_json(attester));
    push_member(m, "execution_policy", exact_json_doc(execution_policy));
    push_member(m, "admission_policy", exact_json_doc(admission_policy));
    assert(key_views(m@) =~= k0 + input_keys());
    assert(value_views(m@) =~= v0 + input_values(
        UnboundAttemptInputs {
            semantic_plan: *semantic_plan,
            invocation: *invocation,
            baseline_snapshot: *baseline_snapshot,
            conformance_suite: *conformance_suite,
            provider: *provider,
            attester: *attester,
            execution_policy: *execution_policy,
            admission_policy: *admission_policy,
        },
    ));
}

fn inputs_body_json(i: &AttemptInputs) -> (r: JsonValue)
    ensures
        r@ == inputs_body_doc(i.unbound()),
{
    let mut m: Vec<JsonMember> = Vec::new();
    assert(key_views(m@) =~= Seq::<Seq<char>>::empty());
    assert(value_views(m@) =~= Seq::<Json>::empty());
    push_input_members(
        &mut m,
        &i.semantic_plan,
        &i.invocation,
        &i.baseline_snapshot,
        &i.conformance_suite,
        &i.provider,
        &i.attester,
        &i.execution_policy,
        &i.admission_policy,
    );
    assert(key_views(m@) =~= input_keys());
    assert(value_views(m@) =~= input_values(i.unbound()));
    json_object(m)
}

fn inputs_json(i: &AttemptInputs) -> (r: JsonValue)
    ensures
        r@ == inputs_doc(*i),
{
    let mut m: Vec<JsonMember> = Vec::new();
    assert(key_views(m@) =~= Seq::<Seq<char>>::empty());
    assert(value_views(m@) =~= Seq::<Json>::empty());
    push_member(&mut m, "attempt_id", json_text(i.attempt_id.as_str()));
    push_input_members(
        &mut m,
        &i.semantic_plan,
        &i.invocation,
        &i.baseline_snapshot,
        &i.conformance_suite,
        &i.provider,
        &i.attester,
        &i.execution_policy,
        &i.admission_policy,
    );
    assert(key_views(m@) =~= seq!["attempt_id"@] + input_keys());
    assert(value_views(m@) =~= seq![Json::Str(i.attempt_id@)] + input_values(i.unbound()));
    json_object(m)
}

fn inputs_invalid(detail: &str) -> (e: JournalError)
    ensures
        e is InvalidDocument,
{
    JournalError::InvalidDocument(owned(detail))
}

impl AttemptInputs {
    fn validate_structure(&self) -> (r: Result<(), JournalError>)
        ensures
            r is Ok <==> unbound_ok(self.unbound()),
            r matches Err(e) ==> locks_shared(self.unbound()) ==> e is InvalidDocument,
    {
        self.semantic_plan.validate()?;
        self.invocation.validate()?;
        self.baseline_snapshot.validate()?;
        if !validate_opaque_id(self.conformance_suite.as_str()) {
            return Err(inputs_invalid("conformance suite must be one non-empty exact opaque identifier"));
        }
        self.provider.validate()?;
        self.attester.validate()?;
        self.execution_policy.validate()?;
        self.admission_policy.validate()?;
        if str_eq(self.provider.implementation.as_str(), self.attester.implementation.as_str())
            || str_eq(self.provider.resource_digest.as_str(), self.attester.resource_digest.as_str())
        {
            return Err(inputs_invalid(
                "provider and attester locks must identify distinct implementations and resources",
            ));
        }
        Ok(())
    }

    /// Binds one attempt to all semantic and runtime authority inputs; the
    /// attempt identity is the content identity of the inputs.
    pub fn new(unbound: UnboundAttemptInputs) -> (r: Result<Self, JournalError>)
        ensures
            r matches Ok(i) ==> i.valid() && same_unbound(i.unbound(), unbound),
            r is Ok <==> unbound_ok(unbound) && content_id(inputs_body_doc(unbound)) is Some,
            r matches Err(e) ==> locks_shared(unbound) ==> e is InvalidDocument,
            r matches Err(e) ==> unbound_ok(unbound) ==> e is Canonicalization,
    {
        let UnboundAttemptInputs {
            semantic_plan,
            invocation,
            baseline_snapshot,
            conformance_suite,
            provider,
            attester,
            execution_policy,
            admission_policy,
        } = unbound;
        let mut inputs = AttemptInputs {
            attempt_id: String::new(),
            semantic_plan,
            invocation,
            baseline_snapshot,
            conformance_suite,
            provider,
            attester,
            execution_policy,
            admission_policy,
        };
        assert(same_unbound(inputs.unbound(), unbound));
        assert(inputs.unbound() == unbound);
        inputs.validate_structure()?;
        let body = inputs_body_json(&inputs);
        match json_content_id(&body) {
            Some(id) => {
                inputs.attempt_id = id;
                assert(inputs.unbound() == unbound);
                Ok(inputs)
            },
            None => Err(JournalError::Canonicalization(owned("canonical JSON serialization failed"))),
        }
    }

    /// Revalidates all immutable inputs and their aggregate identity.
    pub fn validate(&self) -> (r: Result<(), JournalError>)
        ensures
            r is Ok <==> self.valid(),
    {
        self.validate_structure()?;
        if !is_sha256_identity(self.attempt_id.as_str()) {
            return Err(inputs_invalid("attempt identity must use sha256 identity syntax"));
        }
        let body = inputs_body_json(self);
        let actual = match json_content_id(&body) {
            Some(id) => id,
            None => return Err(JournalError::Canonicalization(owned("canonical JSON serialization failed"))),
        };
        if !(self.attempt_id == actual) {
            return Err(JournalError::ContentIdentityMismatch {
                document: owned("attempt inputs"),
                expected: self.attempt_id.clone(),
                actual,
            });
        }
        Ok(())
    }

    /// An equal, separately owned copy.
    pub fn duplicate(&self) -> (r: Self)
        ensures
            same_inputs(r, *self),
    {
        AttemptInputs {
            attempt_id: self.attempt_id.clone(),
            semantic_plan: self.semantic_plan.duplicate(),
            invocation: self.invocation.duplicate(),
            baseline_snapshot: self.baseline_snapshot.duplicate(),
            conformance_suite: self.conformance_suite.clone(),
            provider: self.provider.duplicate(),
            attester: self.attester.duplicate(),
            execution_policy: self.execution_policy.duplicate(),
            admission_policy: self.admission_policy.duplicate(),
        }
    }
}


/// Evidence retained monotonically as the attempt advances.
#[derive(Debug)]
pub struct AttemptEvidence {
    pub provider_receipt: Option<ExactJson>,
    pub candidate: Option<ExactJson>,
    pub assessment_request: Option<ExactJson>,
    pub attester_receipt: Option<ExactJson>,
    pub assessment: Option<ExactJson>,
}

pub open spec fn opt_valid(o: Option<ExactJson>) -> bool {
    match o {
        Some(e) => e.valid(),
        None => true,
    }
}

pub open spec fn opt_doc(o: Option<ExactJson>) -> Json {
    match o {
        Some(e) => exact_view(e),
        None => Json::Null,
    }
}

pub open spec fn same_opt(a: Option<ExactJson>, b: Option<ExactJson>) -> bool {
    match (a, b) {
        (Some(x), Some(y)) => same_exact(x, y),
        (None, None) => true,
        _ => false,
    }
}

/// Which of the five evidence documents are present, in field order.
pub type Presence = (bool, bool, bool, bool, bool);

impl AttemptEvidence {
    pub open spec fn valid(&self) -> bool {
        opt_valid(self.provider_receipt) && opt_valid(self.candidate) && opt_valid(self.assessment_request)
            && opt_valid(self.attester_receipt) && opt_valid(self.assessment)
    }

    pub open spec fn presence(&self) -> Presence {
        (
            self.provider_receipt is Some,
            self.candidate is Some,
            self.assessment_request is Some,
            self.attester_receipt is Some,
            self.assessment is Some,
        )
    }

    /// No evidence yet.
    pub open spec fn empty() -> AttemptEvidence {
        AttemptEvidence {
            provider_receipt: None,
            candidate: None,
            assessment_request: None,
            attester_receipt: None,
            assessment: None,
        }
    }

    pub open spec fn same(&self, other: AttemptEvidence) -> bool {
        same_opt(self.provider_receipt, other.provider_receipt) && same_opt(self.candidate, other.candidate)
            && same_opt(self.assessment_request, other.assessment_request) && same_opt(
            self.attester_receipt,
            other.attester_receipt,
        ) && same_opt(self.assessment, other.assessment)
    }
}

pub open spec fn evidence_keys() -> Seq<Seq<char>> {
    seq!["provider_receipt"@, "candidate"@, "assessment_request"@, "attester_receipt"@, "assessment"@]
}

pub open spec fn evidence_doc(ev: AttemptEvidence) -> Json {
    Json::Object(
        evidence_keys(),
        seq![
            opt_doc(ev.provider_receipt),
            opt_doc(ev.candidate),
            opt_doc(ev.assessment_request),
            opt_doc(ev.attester_receipt),
            opt_doc(ev.assessment),
        ],
    )
}

/// A document that was present stays present with the same digest.
pub open spec fn unchanged_or_added(previous: Option<ExactJson>, next: Option<ExactJson>) -> bool {
    match previous {
        None => true,
        Some(p) => next matches Some(n) && p.digest@ == n.digest@,
    }
}

pub open spec fn evidence_extends(previous: AttemptEvidence, next: AttemptEvidence) -> bool {
    &&& unchanged_or_added(previous.provider_receipt, next.provider_receipt)
    &&& unchanged_or_added(previous.candidate, next.candidate)
    &&& unchanged_or_added(previous.assessment_request, next.assessment_request)
    &&& unchanged_or_added(previous.attester_receipt, next.attester_receipt)
    &&& unchanged_or_added(previous.assessment, next.assessment)
}

fn opt_validate(o: &Option<ExactJson>) -> (r: Result<(), JournalError>)
    ensures
        r is Ok <==> opt_valid(*o),
{
    match o {
        Some(e) => e.validate(),
        None => Ok(()),
    }
}

fn opt_duplicate(o: &Option<ExactJson>) -> (r: Option<ExactJson>)
    ensures
        same_opt(r, *o),
{
    match o {
        Some(e) => Some(e.duplicate()),
        None => None,
    }
}

fn opt_json(o: &Option<ExactJson>) -> (r: JsonValue)
    ensures
        r@ == opt_doc(*o),
{
    match o {
        Some(e) => exact_json_doc(e),
        None => JsonValue::Null,
    }
}

fn opt_extends(previous: &Option<ExactJson>, next: &Option<ExactJson>) -> (r: bool)
    ensures
        r == unchanged_or_added(*previous, *next),
{
    match (previous, next) {
        (None, _) => true,
        (Some(p), Some(n)) => p.digest == n.digest,
        (Some(_), None) => false,
    }
}

impl AttemptEvidence {
    pub fn validate(&self) -> (r: Result<(), JournalError>)
        ensures
            r is Ok <==> self.valid(),
    {
        opt_validate(&self.provider_receipt)?;
        opt_validate(&self.candidate)?;
        opt_validate(&self.assessment_request)?;
        opt_validate(&self.attester_receipt)?;
        opt_validate(&self.assessment)
    }

    pub fn duplicate(&self) -> (r: Self)
        ensures
            r.same(*self),
    {
        AttemptEvidence {
            provider_receipt: opt_duplicate(&self.provider_receipt),
            candidate: opt_duplicate(&self.candidate),
            assessment_request: opt_duplicate(&self.assessment_request),
            attester_receipt: opt_duplicate(&self.attester_receipt),
            assessment: opt_duplicate(&self.assessment),
        }
    }

    /// Whether every present document stays present with its digest.
    pub fn extended_by(&self, next: &AttemptEvidence) -> (r: bool)
        ensures
            r == evidence_extends(*self, *next),
    {
        opt_extends(&self.provider_receipt, &next.provider_receipt) && opt_extends(&self.candidate, &next.candidate)
            && opt_extends(&self.assessment_request, &next.assessment_request) && opt_extends(
            &self.attester_receipt,
            &next.attester_receipt,
        ) && opt_extends(&self.assessment, &next.assessment)
    }
}

fn evidence_json(ev: &AttemptEvidence) -> (r: JsonValue)
    ensures
        r@ == evidence_doc(*ev),
{
    let mut m: Vec<JsonMember> = Vec::new();
    assert(key_views(m@) =~= Seq::<Seq<char>>::empty());
    assert(value_views(m@) =~= Seq::<Json>::empty());
    push_member(&mut m, "provider_receipt", opt_json(&ev.provider_receipt));
    push_member(&mut m, "candidate", opt_json(&ev.candidate));
    push_member(&mut m, "assessment_request", opt_json(&ev.assessment_request));
    push_member(&mut m, "attester_receipt", opt_json(&ev.attester_receipt));
    push_member(&mut m, "assessment", opt_json(&ev.assessment));
    assert(key_views(m@) =~= evidence_keys());
    assert(value_views(m@) =~= seq![
        opt_doc(ev.provider_receipt),
        opt_doc(ev.candidate),
        opt_doc(ev.assessment_request),
        opt_doc(ev.attester_receipt),
        opt_doc(ev.assessment),
    ]);
    json_object(m)
}

/// Final resolution retained alongside all preceding evidence.
#[derive(Debug)]
pub enum AttemptResolution {
    Admitted { admission_snapshot: ExactJson },
    Withheld { decision: ExactJson },
    Unable { from: AttemptPhase, failure: ExactJson },
}

/// The phases from which nothing can still be running, and so the only
/// phases an attempt may be resolved as unable from.
pub open spec fn unable_origin(p: AttemptPhase) -> bool {
    p == AttemptPhase::Prepared || p == AttemptPhase::ProviderCaptured || p == AttemptPhase::CandidateReady
        || p == AttemptPhase::AttesterCaptured
}

impl AttemptResolution {
    pub open spec fn valid(&self) -> bool {
        match *self {
            AttemptResolution::Admitted { admission_snapshot } => admission_snapshot.valid(),
            AttemptResolution::Withheld { decision } => decision.valid(),
            AttemptResolution::Unable { from, failure } => unable_origin(from) && failure.valid(),
        }
    }

    pub open spec fn same(&self, other: AttemptResolution) -> bool {
        match (*self, other) {
            (AttemptResolution::Admitted { admission_snapshot: a }, AttemptResolution::Admitted { admission_snapshot: b }) => same_exact(a, b),
            (AttemptResolution::Withheld { decision: a }, AttemptResolution::Withheld { decision: b }) => same_exact(a, b),
            (AttemptResolution::Unable { from: f, failure: a }, AttemptResolution::Unable { from: g, failure: b }) => f == g && same_exact(a, b),
            _ => false,
        }
    }
}

pub open spec fn resolution_doc(r: AttemptResolution) -> Json {
    match r {
        AttemptResolution::Admitted { admission_snapshot } => Json::Object(
            seq!["kind"@, "admission_snapshot"@],
            seq![Json::Str("admitted"@), exact_view(admission_snapshot)],
        ),
        AttemptResolution::Withheld { decision } => Json::Object(
            seq!["kind"@, "decision"@],
            seq![Json::Str("withheld"@), exact_view(decision)],
        ),
        AttemptResolution::Unable { from, failure } => Json::Object(
            seq!["kind"@, "from"@, "failure"@],
            seq![Json::Str("unable"@), Json::Str(phase_name(from)), exact_view(failure)],
        ),
    }
}

pub open spec fn opt_resolution_valid(r: Option<AttemptResolution>) -> bool {
    match r {
        Some(x) => x.valid(),
        None => true,
    }
}

pub open spec fn opt_resolution_doc(r: Option<AttemptResolution>) -> Json {
    match r {
        Some(x) => resolution_doc(x),
        None => Json::Null,
    }
}

pub open spec fn same_resolution(a: Option<AttemptResolution>, b: Option<AttemptResolution>) -> bool {
    match (a, b) {
        (Some(x), Some(y)) => x.same(y),
        (None, None) => true,
        _ => false,
    }
}

impl AttemptResolution {
    pub fn validate(&self) -> (r: Result<(), JournalError>)
        ensures
            r is Ok <==> self.valid(),
    {
        match self {
            AttemptResolution::Admitted { admission_snapshot } => admission_snapshot.validate(),
            AttemptResolution::Withheld { decision } => decision.validate(),
            AttemptResolution::Unable { from, failure } => {
                let origin_ok = match from {
                    AttemptPhase::Prepared | AttemptPhase::ProviderCaptured | AttemptPhase::CandidateReady
                    | AttemptPhase::AttesterCaptured => true,
                    _ => false,
                };
                if !origin_ok {
                    return Err(inputs_invalid("unable resolution must name a definitely non-running phase"));
                }
                failure.validate()
            },
        }
    }

    pub fn duplicate(&self) -> (r: Self)
        ensures
            r.same(*self),
    {
        match self {
            AttemptResolution::Admitted { admission_snapshot } => AttemptResolution::Admitted {
                admission_snapshot: admission_snapshot.duplicate(),
            },
            AttemptResolution::Withheld { decision } => AttemptResolution::Withheld { decision: decision.duplicate() },
            AttemptResolution::Unable { from, failure } => AttemptResolution::Unable {
                from: *from,
                failure: failure.duplicate(),
            },
        }
    }
}

fn resolution_json(r: &AttemptResolution) -> (out: JsonValue)
    ensures
        out@ == resolution_doc(*r),
{
    let mut m: Vec<JsonMember> = Vec::new();
    assert(key_views(m@) =~= Seq::<Seq<char>>::empty());
    assert(value_views(m@) =~= Seq::<Json>::empty());
    match r {
        AttemptResolution::Admitted { admission_snapshot } => {
            push_member(&mut m, "kind", json_text("admitted"));
            push_member(&mut m, "admission_snapshot", exact_json_doc(admission_snapshot));
            assert(key_views(m@) =~= seq!["kind"@, "admission_snapshot"@]);
            assert(value_views(m@) =~= seq![Json::Str("admitted"@), exact_view(*admission_snapshot)]);
        },
        AttemptResolution::Withheld { decision } => {
            push_member(&mut m, "kind", json_text("withheld"));
            push_member(&mut m, "decision", exact_json_doc(decision));
            assert(key_views(m@) =~= seq!["kind"@, "decision"@]);
            assert(value_views(m@) =~= seq![Json::Str("withheld"@), exact_view(*decision)]);
        },
        AttemptResolution::Unable { from, failure } => {
            push_member(&mut m, "kind", json_text("unable"));
            push_member(&mut m, "from", json_text(phase_name_exec(*from)));
            push_member(&mut m, "failure", exact_json_doc(failure));
            assert(key_views(m@) =~= seq!["kind"@, "from"@, "failure"@]);
            assert(value_views(m@) =~= seq![Json::Str("unable"@), Json::Str(phase_name(*from)), exact_view(*failure)]);
        },
    }
    json_object(m)
}

fn opt_resolution_json(r: &Option<AttemptResolution>) -> (out: JsonValue)
    ensures
        out@ == opt_resolution_doc(*r),
{
    match r {
        Some(x) => resolution_json(x),
        None => JsonValue::Null,
    }
}

/// The evidence documents each phase holds, in field order.
pub open spec fn presence_of(phase: AttemptPhase) -> Presence {
    match phase {
        AttemptPhase::ProviderCaptured => (true, false, false, false, false),
        AttemptPhase::CandidateReady => (true, true, false, false, false),
        AttemptPhase::AttesterArmed => (true, true, true, false, false),
        AttemptPhase::AttesterCaptured => (true, true, true, true, false),
        AttemptPhase::AssessmentReady | AttemptPhase::Admitted | AttemptPhase::Withheld => (true, true, true, true, true),
        _ => (false, false, false, false, false),
    }
}

/// The resolution a phase carries: none before a terminal phase, and the
/// matching kind in each terminal phase.
pub open spec fn resolution_matches(phase: AttemptPhase, resolution: Option<AttemptResolution>) -> bool {
    match resolution {
        None => !terminal(phase),
        Some(AttemptResolution::Admitted { .. }) => phase == AttemptPhase::Admitted,
        Some(AttemptResolution::Withheld { .. }) => phase == AttemptPhase::Withheld,
        Some(AttemptResolution::Unable { .. }) => phase == AttemptPhase::Unable,
    }
}

/// The monotonic evidence shape: exactly the documents of the phase (for
/// an unable attempt, of the phase it was resolved from) are present, and
/// the resolution agrees with the phase.
pub open spec fn shape_ok(phase: AttemptPhase, evidence: AttemptEvidence, resolution: Option<AttemptResolution>) -> bool {
    if phase == AttemptPhase::Unable {
        match resolution {
            Some(AttemptResolution::Unable { from, .. }) => unable_origin(from) && evidence.presence() == presence_of(from),
            _ => false,
        }
    } else {
        evidence.presence() == presence_of(phase) && resolution_matches(phase, resolution)
    }
}

fn expected_presence(phase: AttemptPhase) -> (r: Presence)
    ensures
        r == presence_of(phase),
{
    match phase {
        AttemptPhase::ProviderCaptured => (true, false, false, false, false),
        AttemptPhase::CandidateReady => (true, true, false, false, false),
        AttemptPhase::AttesterArmed => (true, true, true, false, false),
        AttemptPhase::AttesterCaptured => (true, true, true, true, false),
        AttemptPhase::AssessmentReady | AttemptPhase::Admitted | AttemptPhase::Withheld => (true, true, true, true, true),
        _ => (false, false, false, false, false),
    }
}

fn same_presence(a: Presence, b: Presence) -> (r: bool)
    ensures
        r == (a == b),
{
    a.0 == b.0 && a.1 == b.1 && a.2 == b.2 && a.3 == b.3 && a.4 == b.4
}

/// Checks the monotonic evidence shape of a phase.
pub fn validate_phase_shape(
    phase: AttemptPhase,
    evidence: &AttemptEvidence,
    resolution: &Option<AttemptResolution>,
) -> (r: Result<(), JournalError>)
    ensures
        r is Ok <==> shape_ok(phase, *evidence, *resolution),
{
    let fields: Presence = (
        evidence.provider_receipt.is_some(),
        evidence.candidate.is_some(),
        evidence.assessment_request.is_some(),
        evidence.attester_receipt.is_some(),
        evidence.assessment.is_some(),
    );
    let expected = if phase == AttemptPhase::Unable {
        match resolution {
            Some(AttemptResolution::Unable { from, .. }) => match from {
                AttemptPhase::Prepared | AttemptPhase::ProviderCaptured | AttemptPhase::CandidateReady
                | AttemptPhase::AttesterCaptured => expected_presence(*from),
                _ => return Err(inputs_invalid("unable resolution names an invalid origin phase")),
            },
            _ => return Err(inputs_invalid("unable phase requires one unable resolution")),
        }
    } else {
        expected_presence(phase)
    };
    if !same_presence(fields, expected) {
        return Err(inputs_invalid("phase has an invalid monotonic evidence shape"));
    }
    let matches = match resolution {
        None => !phase.is_terminal(),
        Some(AttemptResolution::Admitted { .. }) => phase == AttemptPhase::Admitted,
        Some(AttemptResolution::Withheld { .. }) => phase == AttemptPhase::Withheld,
        Some(AttemptResolution::Unable { .. }) => phase == AttemptPhase::Unable,
    };
    if !matches {
        return Err(inputs_invalid("phase and terminal resolution disagree"));
    }
    Ok(())
}


/// One content-identified durable attempt checkpoint.
#[derive(Debug)]
pub struct AttemptCheckpoint {
    checkpoint_id: String,
    protocol: String,
    inputs: AttemptInputs,
    phase: AttemptPhase,
    evidence: AttemptEvidence,
    resolution: Option<AttemptResolution>,
}

pub open spec fn checkpoint_keys() -> Seq<Seq<char>> {
    seq!["protocol"@, "inputs"@, "phase"@, "evidence"@, "resolution"@]
}

pub open spec fn checkpoint_values(
    protocol: Seq<char>,
    inputs: AttemptInputs,
    phase: AttemptPhase,
    evidence: AttemptEvidence,
    resolution: Option<AttemptResolution>,
) -> Seq<Json> {
    seq![
        Json::Str(protocol),
        inputs_doc(inputs),
        Json::Str(phase_name(phase)),
        evidence_doc(evidence),
        opt_resolution_doc(resolution),
    ]
}

/// The document whose content identity is the checkpoint identity.
pub open spec fn checkpoint_body_doc(
    protocol: Seq<char>,
    inputs: AttemptInputs,
    phase: AttemptPhase,
    evidence: AttemptEvidence,
    resolution: Option<AttemptResolution>,
) -> Json {
    Json::Object(checkpoint_keys(), checkpoint_values(protocol, inputs, phase, evidence, resolution))
}

/// The stored document of a checkpoint, identity first.
pub open spec fn checkpoint_doc(
    id: Seq<char>,
    protocol: Seq<char>,
    inputs: AttemptInputs,
    phase: AttemptPhase,
    evidence: AttemptEvidence,
    resolution: Option<AttemptResolution>,
) -> Json {
    Json::Object(
        seq!["checkpoint_id"@] + checkpoint_keys(),
        seq![Json::Str(id)] + checkpoint_values(protocol, inputs, phase, evidence, resolution),
    )
}

/// Valid inputs, evidence and resolution in the evidence shape of the phase.
pub open spec fn parts_ok(
    inputs: AttemptInputs,
    phase: AttemptPhase,
    evidence: AttemptEvidence,
    resolution: Option<AttemptResolution>,
) -> bool {
    inputs.valid() && evidence.valid() && opt_resolution_valid(resolution) && shape_ok(phase, evidence, resolution)
}

/// The stored document of a checkpoint has a canonical form within the
/// checkpoint bound.
pub open spec fn size_ok(
    id: Seq<char>,
    inputs: AttemptInputs,
    phase: AttemptPhase,
    evidence: AttemptEvidence,
    resolution: Option<AttemptResolution>,
) -> bool {
    let bytes = canonical_bytes_of(checkpoint_doc(id, CHECKPOINT_PROTOCOL@, inputs, phase, evidence, resolution));
    bytes is Some && bytes.unwrap().len() <= MAX_CHECKPOINT_BYTES
}

/// The identity a checkpoint of these parts would carry.
pub open spec fn derived_checkpoint_id(
    inputs: AttemptInputs,
    phase: AttemptPhase,
    evidence: AttemptEvidence,
    resolution: Option<AttemptResolution>,
) -> Option<Seq<char>> {
    content_id(checkpoint_body_doc(CHECKPOINT_PROTOCOL@, inputs, phase, evidence, resolution))
}

/// These parts form a checkpoint: they are valid and in shape, the body
/// has a content identity, and the stored form fits the bound.
pub open spec fn assembles(
    inputs: AttemptInputs,
    phase: AttemptPhase,
    evidence: AttemptEvidence,
    resolution: Option<AttemptResolution>,
) -> bool {
    &&& parts_ok(inputs, phase, evidence, resolution)
    &&& derived_checkpoint_id(inputs, phase, evidence, resolution) is Some
    &&& size_ok(derived_checkpoint_id(inputs, phase, evidence, resolution).unwrap(), inputs, phase, evidence, resolution)
}

fn push_checkpoint_members(
    m: &mut Vec<JsonMember>,
    protocol: &String,
    inputs: &AttemptInputs,
    phase: AttemptPhase,
    evidence: &AttemptEvidence,
    resolution: &Option<AttemptResolution>,
)
    ensures
        key_views(final(m)@) == key_views(old(m)@) + checkpoint_keys(),
        value_views(final(m)@) == value_views(old(m)@) + checkpoint_values(protocol@, *inputs, phase, *evidence, *resolution),
{
    let ghost k0 = key_views(m@);
    let ghost v0 = value_views(m@);
    push_member(m, "protocol", json_text(protocol.as_str()));
    push_member(m, "inputs", inputs_json(inputs));
    push_member(m, "phase", json_text(phase_name_exec(phase)));
    push_member(m, "evidence", evidence_json(evidence));
    push_member(m, "resolution", opt_resolution_json(resolution));
    assert(key_views(m@) =~= k0 + checkpoint_keys());
    assert(value_views(m@) =~= v0 + checkpoint_values(protocol@, *inputs, phase, *evidence, *resolution));
}

impl AttemptCheckpoint {
    pub closed spec fn id_view(&self) -> Seq<char> {
        self.checkpoint_id@
    }

    pub closed spec fn protocol_view(&self) -> Seq<char> {
        self.protocol@
    }

    pub closed spec fn inputs_view(&self) -> AttemptInputs {
        self.inputs
    }

    pub closed spec fn phase_view(&self) -> AttemptPhase {
        self.phase
    }

    pub closed spec fn evidence_view(&self) -> AttemptEvidence {
        self.evidence
    }

    pub closed spec fn resolution_view(&self) -> Option<AttemptResolution> {
        self.resolution
    }

    /// The checkpoint invariant: the exact protocol, valid parts in the
    /// evidence shape of the phase, an identity that is the content
    /// identity of everything else, and a stored form within the bound.
    pub open spec fn wf(&self) -> bool {
        &&& self.protocol_view() == CHECKPOINT_PROTOCOL@
        &&& parts_ok(self.inputs_view(), self.phase_view(), self.evidence_view(), self.resolution_view())
        &&& is_sha256_text(self.id_view())
        &&& derived_checkpoint_id(self.inputs_view(), self.phase_view(), self.evidence_view(), self.resolution_view())
            == Some(self.id_view())
        &&& size_ok(self.id_view(), self.inputs_view(), self.phase_view(), self.evidence_view(), self.resolution_view())
    }

    fn body_json(&self) -> (r: JsonValue)
        ensures
            r@ == checkpoint_body_doc(self.protocol@, self.inputs, self.phase, self.evidence, self.resolution),
    {
        let mut m: Vec<JsonMember> = Vec::new();
        assert(key_views(m@) =~= Seq::<Seq<char>>::empty());
        assert(value_views(m@) =~= Seq::<Json>::empty());
        push_checkpoint_members(&mut m, &self.protocol, &self.inputs, self.phase, &self.evidence, &self.resolution);
        assert(key_views(m@) =~= checkpoint_keys());
        assert(value_views(m@) =~= checkpoint_values(self.protocol@, self.inputs, self.phase, self.evidence, self.resolution));
        json_object(m)
    }

    fn stored_json(&self) -> (r: JsonValue)
        ensures
            r@ == checkpoint_doc(self.checkpoint_id@, self.protocol@, self.inputs, self.phase, self.evidence, self.resolution),
    {
        let mut m: Vec<JsonMember> = Vec::new();
        assert(key_views(m@) =~= Seq::<Seq<char>>::empty());
        assert(value_views(m@) =~= Seq::<Json>::empty());
        push_member(&mut m, "checkpoint_id", json_text(self.checkpoint_id.as_str()));
        push_checkpoint_members(&mut m, &self.protocol, &self.inputs, self.phase, &self.evidence, &self.resolution);
        assert(key_views(m@) =~= seq!["checkpoint_id"@] + checkpoint_keys());
        assert(value_views(m@) =~= seq![Json::Str(self.checkpoint_id@)]
            + checkpoint_values(self.protocol@, self.inputs, self.phase, self.evidence, self.resolution));
        json_object(m)
    }

    fn validate_size(&self) -> (r: Result<(), JournalError>)
        ensures
            r is Ok <==> ({
                let bytes = canonical_bytes_of(
                    checkpoint_doc(self.checkpoint_id@, self.protocol@, self.inputs, self.phase, self.evidence, self.resolution),
                );
                bytes is Some && bytes.unwrap().len() <= MAX_CHECKPOINT_BYTES
            }),
    {
        let doc = self.stored_json();
        match canonical_bytes(&doc) {
            Some(bytes) => {
                if bytes.len() > MAX_CHECKPOINT_BYTES {
                    Err(inputs_invalid("checkpoint length exceeds the checkpoint bound"))
                } else {
                    Ok(())
                }
            },
            None => Err(JournalError::Canonicalization(owned("canonical JSON serialization failed"))),
        }
    }

    pub fn from_parts(
        inputs: AttemptInputs,
        phase: AttemptPhase,
        evidence: AttemptEvidence,
        resolution: Option<AttemptResolution>,
    ) -> (r: Result<Self, JournalError>)
        ensures
            r is Ok <==> assembles(inputs, phase, evidence, resolution),
            r matches Ok(c) ==> c.wf() && c.inputs_view() == inputs && c.phase_view() == phase
                && c.evidence_view() == evidence && c.resolution_view() == resolution,
    {
        let mut checkpoint = AttemptCheckpoint {
            checkpoint_id: String::new(),
            protocol: owned(CHECKPOINT_PROTOCOL),
            inputs,
            phase,
            evidence,
            resolution,
        };
        checkpoint.inputs.validate()?;
        checkpoint.evidence.validate()?;
        match &checkpoint.resolution {
            Some(r) => r.validate()?,
            None => {},
        }
        validate_phase_shape(checkpoint.phase, &checkpoint.evidence, &checkpoint.resolution)?;
        let body = checkpoint.body_json();
        match json_content_id(&body) {
            Some(id) => {
                checkpoint.checkpoint_id = id;
            },
            None => return Err(JournalError::Canonicalization(owned("canonical JSON serialization failed"))),
        }
        checkpoint.validate_size()?;
        Ok(checkpoint)
    }

    /// Revalidates protocol, immutable inputs, monotonic evidence shape,
    /// identity and size.
    pub fn validate(&self) -> (r: Result<(), JournalError>)
        ensures
            r is Ok <==> self.wf(),
    {
        if !str_eq(self.protocol.as_str(), CHECKPOINT_PROTOCOL) {
            return Err(inputs_invalid("unsupported checkpoint protocol"));
        }
        self.inputs.validate()?;
        self.evidence.validate()?;
        match &self.resolution {
            Some(r) => r.validate()?,
            None => {},
        }
        validate_phase_shape(self.phase, &self.evidence, &self.resolution)?;
        if !is_sha256_identity(self.checkpoint_id.as_str()) {
            return Err(inputs_invalid("checkpoint identity must use sha256 identity syntax"));
        }
        let body = self.body_json();
        let actual = match json_content_id(&body) {
            Some(id) => id,
            None => return Err(JournalError::Canonicalization(owned("canonical JSON serialization failed"))),
        };
        if !(self.checkpoint_id == actual) {
            return Err(JournalError::ContentIdentityMismatch {
                document: owned("attempt checkpoint"),
                expected: self.checkpoint_id.clone(),
                actual,
            });
        }
        self.validate_size()
    }
}


/// Parts with the same views form the same checkpoint.
proof fn lemma_same_parts(
    prev: AttemptEvidence,
    i1: AttemptInputs,
    i2: AttemptInputs,
    phase: AttemptPhase,
    e1: AttemptEvidence,
    e2: AttemptEvidence,
    r1: Option<AttemptResolution>,
    r2: Option<AttemptResolution>,
)
    requires
        same_inputs(i1, i2),
        e1.same(e2),
        same_resolution(r1, r2),
    ensures
        parts_ok(i1, phase, e1, r1) == parts_ok(i2, phase, e2, r2),
        derived_checkpoint_id(i1, phase, e1, r1) == derived_checkpoint_id(i2, phase, e2, r2),
        assembles(i1, phase, e1, r1) == assembles(i2, phase, e2, r2),
        evidence_extends(prev, e1) == evidence_extends(prev, e2),
{
    assert(input_values(i1.unbound()) =~= input_values(i2.unbound()));
    assert(inputs_doc(i1) == inputs_doc(i2));
    assert(evidence_doc(e1) == evidence_doc(e2));
    assert(opt_resolution_doc(r1) == opt_resolution_doc(r2));
    assert(checkpoint_values(CHECKPOINT_PROTOCOL@, i1, phase, e1, r1) =~= checkpoint_values(CHECKPOINT_PROTOCOL@, i2, phase, e2, r2));
    assert forall|id: Seq<char>| #![auto]
        checkpoint_doc(id, CHECKPOINT_PROTOCOL@, i1, phase, e1, r1) == checkpoint_doc(id, CHECKPOINT_PROTOCOL@, i2, phase, e2, r2) by {}
}

/// Evidence with one more document in the given field position.
pub open spec fn with_provider_receipt(ev: AttemptEvidence, d: ExactJson) -> AttemptEvidence {
    AttemptEvidence { provider_receipt: Some(d), ..ev }
}

pub open spec fn with_candidate(ev: AttemptEvidence, d: ExactJson) -> AttemptEvidence {
    AttemptEvidence { candidate: Some(d), ..ev }
}

pub open spec fn with_assessment_request(ev: AttemptEvidence, d: ExactJson) -> AttemptEvidence {
    AttemptEvidence { assessment_request: Some(d), ..ev }
}

pub open spec fn with_attester_receipt(ev: AttemptEvidence, d: ExactJson) -> AttemptEvidence {
    AttemptEvidence { attester_receipt: Some(d), ..ev }
}

pub open spec fn with_assessment(ev: AttemptEvidence, d: ExactJson) -> AttemptEvidence {
    AttemptEvidence { assessment: Some(d), ..ev }
}

impl AttemptCheckpoint {
    /// When a step from this checkpoint to these parts succeeds: the
    /// checkpoint is valid, the transition is permitted, no retained
    /// evidence changes, and the new parts form a checkpoint.
    pub open spec fn steps_to(
        &self,
        phase: AttemptPhase,
        evidence: AttemptEvidence,
        resolution: Option<AttemptResolution>,
    ) -> bool {
        &&& self.wf()
        &&& valid_transition(self.phase_view(), phase)
        &&& evidence_extends(self.evidence_view(), evidence)
        &&& assembles(self.inputs_view(), phase, evidence, resolution)
    }

    /// What a successful step yields: a valid checkpoint with the same
    /// inputs, the new phase, evidence and resolution.
    pub open spec fn stepped(
        &self,
        next: AttemptCheckpoint,
        phase: AttemptPhase,
        evidence: AttemptEvidence,
        resolution: Option<AttemptResolution>,
    ) -> bool {
        &&& next.wf()
        &&& same_inputs(next.inputs_view(), self.inputs_view())
        &&& next.phase_view() == phase
        &&& next.evidence_view().same(evidence)
        &&& same_resolution(next.resolution_view(), resolution)
    }

    /// Resolving a valid checkpoint as unable, with a valid failure, from
    /// prepared, provider captured, candidate ready or attester captured is
    /// permitted: the transition is allowed, the evidence is kept, and the
    /// unable parts are in shape, so the step is refused only when the
    /// resulting checkpoint has no content identity or exceeds the size
    /// bound.
    pub proof fn lemma_unable_from_origin_permitted(&self, failure: ExactJson)
        requires
            self.wf(),
            failure.valid(),
            self.phase_view() == AttemptPhase::Prepared || self.phase_view() == AttemptPhase::ProviderCaptured
                || self.phase_view() == AttemptPhase::CandidateReady || self.phase_view()
                == AttemptPhase::AttesterCaptured,
        ensures
            valid_transition(self.phase_view(), AttemptPhase::Unable),
            evidence_extends(self.evidence_view(), self.evidence_view()),
            parts_ok(
                self.inputs_view(),
                AttemptPhase::Unable,
                self.evidence_view(),
                Some(AttemptResolution::Unable { from: self.phase_view(), failure }),
            ),
            self.steps_to(
                AttemptPhase::Unable,
                self.evidence_view(),
                Some(AttemptResolution::Unable { from: self.phase_view(), failure }),
            ) <==> assembles(
                self.inputs_view(),
                AttemptPhase::Unable,
                self.evidence_view(),
                Some(AttemptResolution::Unable { from: self.phase_view(), failure }),
            ),
    {
    }

    fn advance(
        &self,
        phase: AttemptPhase,
        evidence: AttemptEvidence,
        resolution: Option<AttemptResolution>,
        Ghost(spec_evidence): Ghost<AttemptEvidence>,
        Ghost(spec_resolution): Ghost<Option<AttemptResolution>>,
    ) -> (r: Result<Self, JournalError>)
        requires
            evidence.same(spec_evidence),
            same_resolution(resolution, spec_resolution),
        ensures
            r is Ok <==> self.steps_to(phase, spec_evidence, spec_resolution),
            r matches Ok(c) ==> self.stepped(c, phase, spec_evidence, spec_resolution),
            r matches Err(e) ==> (self.wf() && !valid_transition(self.phase_view(), phase)) ==> e == (
            JournalError::InvalidTransition { from: self.phase_view(), to: phase }),
    {
        self.validate()?;
        validate_transition(self.phase, phase)?;
        let inputs = self.inputs.duplicate();
        proof {
            lemma_same_parts(self.evidence, inputs, self.inputs, phase, evidence, spec_evidence, resolution, spec_resolution);
        }
        if !self.evidence.extended_by(&evidence) {
            return Err(JournalError::EvidenceChanged);
        }
        let r = AttemptCheckpoint::from_parts(inputs, phase, evidence, resolution);
        proof {
            if r is Ok {
                let c = r.unwrap();
                assert(c.evidence_view().same(spec_evidence));
            }
        }
        r
    }

    /// The first checkpoint of an attempt: prepared, with no evidence.
    pub fn prepared(inputs: AttemptInputs) -> (r: Result<Self, JournalError>)
        ensures
            r is Ok <==> assembles(inputs, AttemptPhase::Prepared, AttemptEvidence::empty(), None),
            r matches Ok(c) ==> c.wf() && c.inputs_view() == inputs && c.phase_view() == AttemptPhase::Prepared
                && c.evidence_view() == AttemptEvidence::empty() && c.resolution_view() is None,
    {
        let evidence = AttemptEvidence {
            provider_receipt: None,
            candidate: None,
            assessment_request: None,
            attester_receipt: None,
            assessment: None,
        };
        AttemptCheckpoint::from_parts(inputs, AttemptPhase::Prepared, evidence, None)
    }

    /// Advance from `Prepared` to the durable pre-effect provider arm.
    pub fn arm_provider(&self) -> (r: Result<Self, JournalError>)
        ensures
            r is Ok <==> self.steps_to(AttemptPhase::ProviderArmed, self.evidence_view(), None),
            r matches Ok(c) ==> self.stepped(c, AttemptPhase::ProviderArmed, self.evidence_view(), None),
            r matches Err(e) ==> (self.wf() && !valid_transition(self.phase_view(), AttemptPhase::ProviderArmed))
                ==> e == (JournalError::InvalidTransition { from: self.phase_view(), to: AttemptPhase::ProviderArmed }),
    {
        let evidence = self.evidence.duplicate();
        self.advance(AttemptPhase::ProviderArmed, evidence, None, Ghost(self.evidence), Ghost(None))
    }

    /// Retain the exact provider runtime receipt before interpreting it.
    pub fn capture_provider(&self, receipt: ExactJson) -> (r: Result<Self, JournalError>)
        ensures
            r is Ok <==> self.steps_to(AttemptPhase::ProviderCaptured, with_provider_receipt(self.evidence_view(), receipt), None),
            r matches Ok(c) ==> self.stepped(c, AttemptPhase::ProviderCaptured, with_provider_receipt(self.evidence_view(), receipt), None),
            r matches Err(e) ==> (self.wf() && !valid_transition(self.phase_view(), AttemptPhase::ProviderCaptured))
                ==> e == (JournalError::InvalidTransition { from: self.phase_view(), to: AttemptPhase::ProviderCaptured }),
    {
        let ghost g = with_provider_receipt(self.evidence, receipt);
        let mut evidence = self.evidence.duplicate();
        evidence.provider_receipt = Some(receipt);
        self.advance(AttemptPhase::ProviderCaptured, evidence, None, Ghost(g), Ghost(None))
    }

    /// Retain the validated semantic candidate derived from provider capture.
    pub fn candidate_ready(&self, candidate: ExactJson) -> (r: Result<Self, JournalError>)
        ensures
            r is Ok <==> self.steps_to(AttemptPhase::CandidateReady, with_candidate(self.evidence_view(), candidate), None),
            r matches Ok(c) ==> self.stepped(c, AttemptPhase::CandidateReady, with_candidate(self.evidence_view(), candidate), None),
            r matches Err(e) ==> (self.wf() && !valid_transition(self.phase_view(), AttemptPhase::CandidateReady))
                ==> e == (JournalError::InvalidTransition { from: self.phase_view(), to: AttemptPhase::CandidateReady }),
    {
        let ghost g = with_candidate(self.evidence, candidate);
        let mut evidence = self.evidence.duplicate();
        evidence.candidate = Some(candidate);
        self.advance(AttemptPhase::CandidateReady, evidence, None, Ghost(g), Ghost(None))
    }

    /// Durably arm the exact assessment request before attester execution.
    pub fn arm_attester(&self, assessment_request: ExactJson) -> (r: Result<Self, JournalError>)
        ensures
            r is Ok <==> self.steps_to(AttemptPhase::AttesterArmed, with_assessment_request(self.evidence_view(), assessment_request), None),
            r matches Ok(c) ==> self.stepped(c, AttemptPhase::AttesterArmed, with_assessment_request(self.evidence_view(), assessment_request), None),
            r matches Err(e) ==> (self.wf() && !valid_transition(self.phase_view(), AttemptPhase::AttesterArmed))
                ==> e == (JournalError::InvalidTransition { from: self.phase_view(), to: AttemptPhase::AttesterArmed }),
    {
        let ghost g = with_assessment_request(self.evidence, assessment_request);
        let mut evidence = self.evidence.duplicate();
        evidence.assessment_request = Some(assessment_request);
        self.advance(AttemptPhase::AttesterArmed, evidence, None, Ghost(g), Ghost(None))
    }

    /// Retain the exact attester runtime receipt before interpreting it.
    pub fn capture_attester(&self, receipt: ExactJson) -> (r: Result<Self, JournalError>)
        ensures
            r is Ok <==> self.steps_to(AttemptPhase::AttesterCaptured, with_attester_receipt(self.evidence_view(), receipt), None),
            r matches Ok(c) ==> self.stepped(c, AttemptPhase::AttesterCaptured, with_attester_receipt(self.evidence_view(), receipt), None),
            r matches Err(e) ==> (self.wf() && !valid_transition(self.phase_view(), AttemptPhase::AttesterCaptured))
                ==> e == (JournalError::InvalidTransition { from: self.phase_view(), to: AttemptPhase::AttesterCaptured }),
    {
        let ghost g = with_attester_receipt(self.evidence, receipt);
        let mut evidence = self.evidence.duplicate();
        evidence.attester_receipt = Some(receipt);
        self.advance(AttemptPhase::AttesterCaptured, evidence, None, Ghost(g), Ghost(None))
    }

    /// Retain the validated assessment derived from attester capture.
    pub fn assessment_ready(&self, assessment: ExactJson) -> (r: Result<Self, JournalError>)
        ensures
            r is Ok <==> self.steps_to(AttemptPhase::AssessmentReady, with_assessment(self.evidence_view(), assessment), None),
            r matches Ok(c) ==> self.stepped(c, AttemptPhase::AssessmentReady, with_assessment(self.evidence_view(), assessment), None),
            r matches Err(e) ==> (self.wf() && !valid_transition(self.phase_view(), AttemptPhase::AssessmentReady))
                ==> e == (JournalError::InvalidTransition { from: self.phase_view(), to: AttemptPhase::AssessmentReady }),
    {
        let ghost g = with_assessment(self.evidence, assessment);
        let mut evidence = self.evidence.duplicate();
        evidence.assessment = Some(assessment);
        self.advance(AttemptPhase::AssessmentReady, evidence, None, Ghost(g), Ghost(None))
    }

    /// Resolve the complete evidence chain as admitted.
    pub fn admitted(&self, admission_snapshot: ExactJson) -> (r: Result<Self, JournalError>)
        ensures
            r is Ok <==> self.steps_to(AttemptPhase::Admitted, self.evidence_view(), Some(AttemptResolution::Admitted { admission_snapshot })),
            r matches Ok(c) ==> self.stepped(c, AttemptPhase::Admitted, self.evidence_view(), Some(AttemptResolution::Admitted { admission_snapshot })),
            r matches Err(e) ==> (self.wf() && !valid_transition(self.phase_view(), AttemptPhase::Admitted))
                ==> e == (JournalError::InvalidTransition { from: self.phase_view(), to: AttemptPhase::Admitted }),
    {
        let ghost g = Some(AttemptResolution::Admitted { admission_snapshot });
        let evidence = self.evidence.duplicate();
        self.advance(AttemptPhase::Admitted, evidence, Some(AttemptResolution::Admitted { admission_snapshot }), Ghost(self.evidence), Ghost(g))
    }

    /// Resolve the complete evidence chain as withheld.
    pub fn withheld(&self, decision: ExactJson) -> (r: Result<Self, JournalError>)
        ensures
            r is Ok <==> self.steps_to(AttemptPhase::Withheld, self.evidence_view(), Some(AttemptResolution::Withheld { decision })),
            r matches Ok(c) ==> self.stepped(c, AttemptPhase::Withheld, self.evidence_view(), Some(AttemptResolution::Withheld { decision })),
            r matches Err(e) ==> (self.wf() && !valid_transition(self.phase_view(), AttemptPhase::Withheld))
                ==> e == (JournalError::InvalidTransition { from: self.phase_view(), to: AttemptPhase::Withheld }),
    {
        let ghost g = Some(AttemptResolution::Withheld { decision });
        let evidence = self.evidence.duplicate();
        self.advance(AttemptPhase::Withheld, evidence, Some(AttemptResolution::Withheld { decision }), Ghost(self.evidence), Ghost(g))
    }

    /// Resolve a definitely non-running phase as unable.
    pub fn unable(&self, failure: ExactJson) -> (r: Result<Self, JournalError>)
        ensures
            r is Ok <==> self.steps_to(AttemptPhase::Unable, self.evidence_view(), Some(AttemptResolution::Unable { from: self.phase_view(), failure })),
            r matches Ok(c) ==> self.stepped(c, AttemptPhase::Unable, self.evidence_view(), Some(AttemptResolution::Unable { from: self.phase_view(), failure })),
            r matches Err(e) ==> (self.wf() && !valid_transition(self.phase_view(), AttemptPhase::Unable))
                ==> e == (JournalError::InvalidTransition { from: self.phase_view(), to: AttemptPhase::Unable }),
    {
        let ghost g = Some(AttemptResolution::Unable { from: self.phase, failure });
        let evidence = self.evidence.duplicate();
        let from = self.phase;
        self.advance(AttemptPhase::Unable, evidence, Some(AttemptResolution::Unable { from, failure }), Ghost(self.evidence), Ghost(g))
    }

    /// A checkpoint from stored parts, accepted only when it satisfies the
    /// checkpoint invariant.
    pub fn from_stored(
        checkpoint_id: String,
        protocol: String,
        inputs: AttemptInputs,
        phase: AttemptPhase,
        evidence: AttemptEvidence,
        resolution: Option<AttemptResolution>,
    ) -> (r: Result<Self, JournalError>)
        ensures
            r matches Ok(c) ==> c.wf() && c.id_view() == checkpoint_id@ && c.inputs_view() == inputs
                && c.phase_view() == phase && c.evidence_view() == evidence && c.resolution_view() == resolution,
            r is Ok <==> ({
                &&& protocol@ == CHECKPOINT_PROTOCOL@
                &&& parts_ok(inputs, phase, evidence, resolution)
                &&& is_sha256_text(checkpoint_id@)
                &&& derived_checkpoint_id(inputs, phase, evidence, resolution) == Some(checkpoint_id@)
                &&& size_ok(checkpoint_id@, inputs, phase, evidence, resolution)
            }),
    {
        let c = AttemptCheckpoint { checkpoint_id, protocol, inputs, phase, evidence, resolution };
        c.validate()?;
        Ok(c)
    }

    /// Exact checkpoint content identity used for journal compare-and-swap.
    pub fn checkpoint_id(&self) -> (r: &str)
        ensures
            r@ == self.id_view(),
    {
        self.checkpoint_id.as_str()
    }

    /// Immutable attempt inputs.
    pub fn inputs(&self) -> (r: &AttemptInputs)
        ensures
            *r == self.inputs_view(),
    {
        &self.inputs
    }

    /// Current closed phase.
    pub fn phase(&self) -> (r: AttemptPhase)
        ensures
            r == self.phase_view(),
    {
        self.phase
    }

    /// Retained evidence.
    pub fn evidence(&self) -> (r: &AttemptEvidence)
        ensures
            *r == self.evidence_view(),
    {
        &self.evidence
    }

    /// Provider runtime receipt, once captured.
    pub fn provider_receipt(&self) -> (r: Option<&ExactJson>)
        ensures
            r == match self.evidence_view().provider_receipt { Some(e) => Some(&e), None => None },
    {
        self.evidence.provider_receipt.as_ref()
    }

    /// Candidate, once validated.
    pub fn candidate(&self) -> (r: Option<&ExactJson>)
        ensures
            r == match self.evidence_view().candidate { Some(e) => Some(&e), None => None },
    {
        self.evidence.candidate.as_ref()
    }

    /// Exact assessment request, once the attester is armed.
    pub fn assessment_request(&self) -> (r: Option<&ExactJson>)
        ensures
            r == match self.evidence_view().assessment_request { Some(e) => Some(&e), None => None },
    {
        self.evidence.assessment_request.as_ref()
    }

    /// Attester runtime receipt, once captured.
    pub fn attester_receipt(&self) -> (r: Option<&ExactJson>)
        ensures
            r == match self.evidence_view().attester_receipt { Some(e) => Some(&e), None => None },
    {
        self.evidence.attester_receipt.as_ref()
    }

    /// Validated assessment, once derived from its receipt.
    pub fn assessment(&self) -> (r: Option<&ExactJson>)
        ensures
            r == match self.evidence_view().assessment { Some(e) => Some(&e), None => None },
    {
        self.evidence.assessment.as_ref()
    }

    /// Terminal resolution, if any.
    pub fn resolution(&self) -> (r: Option<&AttemptResolution>)
        ensures
            r == match self.resolution_view() { Some(x) => Some(&x), None => None },
    {
        self.resolution.as_ref()
    }

    /// Conservative action after independently loading this checkpoint.
    pub fn recovery_action(&self) -> (r: RecoveryAction)
        ensures
            r == recovery_for(self.phase_view()),
    {
        recovery_action_for(self.phase)
    }

    /// An equal, separately owned copy.
    pub fn duplicate(&self) -> (r: Self)
        ensures
            r.id_view() == self.id_view(),
            r.protocol_view() == self.protocol_view(),
            same_inputs(r.inputs_view(), self.inputs_view()),
            r.phase_view() == self.phase_view(),
            r.evidence_view().same(self.evidence_view()),
            same_resolution(r.resolution_view(), self.resolution_view()),
    {
        AttemptCheckpoint {
            checkpoint_id: self.checkpoint_id.clone(),
            protocol: self.protocol.clone(),
            inputs: self.inputs.duplicate(),
            phase: self.phase,
            evidence: self.evidence.duplicate(),
            resolution: match &self.resolution {
                Some(x) => Some(x.duplicate()),
                None => None,
            },
        }
    }
}


/// The checkpoint bound holds every retained exact document at its own
/// bound together with the fixed overhead.
pub proof fn lemma_retained_documents_fit()
    ensures
        MAX_RETAINED_EXACT_JSON_DOCUMENTS * MAX_EXACT_JSON_BYTES + MAX_CHECKPOINT_FIXED_OVERHEAD <= MAX_CHECKPOINT_BYTES,
{
}

/// A terminal phase has no successor.
pub proof fn lemma_terminal_is_final(from: AttemptPhase, to: AttemptPhase)
    requires
        terminal(from),
    ensures
        !valid_transition(from, to),
{
}

/// An armed phase, where a runtime may be executing, can never be resolved
/// as unable: its only successor is its capture.
pub proof fn lemma_armed_cannot_be_unable(phase: AttemptPhase)
    requires
        phase == AttemptPhase::ProviderArmed || phase == AttemptPhase::AttesterArmed,
    ensures
        !valid_transition(phase, AttemptPhase::Unable),
        forall|to: AttemptPhase| #[trigger] valid_transition(phase, to) ==> to == (if phase == AttemptPhase::ProviderArmed {
            AttemptPhase::ProviderCaptured
        } else {
            AttemptPhase::AttesterCaptured
        }),
{
}

/// A restart takes an action exactly when the attempt is not terminal.
pub proof fn lemma_recovery_only_before_terminal(phase: AttemptPhase)
    ensures
        (recovery_for(phase) == RecoveryAction::NoAction) <==> terminal(phase),
{
}

/// Every non-unable transition keeps every evidence document the source
/// phase holds.
pub proof fn lemma_transitions_keep_evidence(from: AttemptPhase, to: AttemptPhase)
    requires
        valid_transition(from, to),
        to != AttemptPhase::Unable,
    ensures
        presence_of(from).0 ==> presence_of(to).0,
        presence_of(from).1 ==> presence_of(to).1,
        presence_of(from).2 ==> presence_of(to).2,
        presence_of(from).3 ==> presence_of(to).3,
        presence_of(from).4 ==> presence_of(to).4,
{
}

/// A valid unable checkpoint names the non-running phase it was resolved
/// from and holds exactly that phase's evidence.
pub proof fn lemma_unable_names_origin(c: AttemptCheckpoint)
    requires
        c.wf(),
        c.phase_view() == AttemptPhase::Unable,
    ensures
        c.resolution_view() matches Some(AttemptResolution::Unable { from, .. }) && unable_origin(from)
            && c.evidence_view().presence() == presence_of(from),
{
}

/// A valid checkpoint carries a resolution exactly when its phase is
/// terminal.
pub proof fn lemma_resolution_iff_terminal(c: AttemptCheckpoint)
    requires
        c.wf(),
    ensures
        (c.resolution_view() is Some) <==> terminal(c.phase_view()),
{
}

/// A permitted step from a valid checkpoint never drops or alters a
/// retained document, and keeps the inputs.
pub proof fn lemma_step_is_monotonic(
    c: AttemptCheckpoint,
    next: AttemptCheckpoint,
    phase: AttemptPhase,
    evidence: AttemptEvidence,
    resolution: Option<AttemptResolution>,
)
    requires
        c.steps_to(phase, evidence, resolution),
        c.stepped(next, phase, evidence, resolution),
    ensures
        next.wf(),
        same_inputs(next.inputs_view(), c.inputs_view()),
        evidence_extends(c.evidence_view(), next.evidence_view()),
        valid_transition(c.phase_view(), next.phase_view()),
{
    let a = c.evidence_view();
    let b = next.evidence_view();
    assert(evidence_extends(a, b));
}


// ---- the journal's decisions ----

impl AttemptCheckpoint {
    /// The stored document of this checkpoint, identity first.
    pub open spec fn stored_doc(&self) -> Json {
        checkpoint_doc(
            self.id_view(),
            self.protocol_view(),
            self.inputs_view(),
            self.phase_view(),
            self.evidence_view(),
            self.resolution_view(),
        )
    }

    /// The canonical bytes of the stored document, as a journal writes
    /// them, or nothing where it has no canonical form.
    pub fn canonical_bytes(&self) -> (r: Option<Vec<u8>>)
        ensures
            r matches Some(b) ==> canonical_bytes_of(self.stored_doc()) == Some(b@),
            r is None ==> canonical_bytes_of(self.stored_doc()) is None,
    {
        let doc = self.stored_json();
        canonical_bytes(&doc)
    }
}

fn bytes_equal(a: &[u8], b: &Vec<u8>) -> (r: bool)
    ensures
        r == (a@ == b@),
{
    if a.len() != b.len() {
        return false;
    }
    let mut i: usize = 0;
    while i < a.len()
        invariant
            i <= a.len(),
            a@.len() == b@.len(),
            forall|k: int| 0 <= k < i ==> a@[k] == b@[k],
        decreases a.len() - i,
    {
        if a[i] != b[i] {
            return false;
        }
        i = i + 1;
    }
    assert(a@ =~= b@);
    true
}

fn same_exact_exec(a: &ExactJson, b: &ExactJson) -> (r: bool)
    ensures
        r == same_exact(*a, *b),
{
    str_eq(a.digest.as_str(), b.digest.as_str()) && crate::json::json_equal(&a.value, &b.value)
}

fn same_lock_exec(a: &DeploymentLock, b: &DeploymentLock) -> (r: bool)
    ensures
        r == same_lock(*a, *b),
{
    str_eq(a.implementation.as_str(), b.implementation.as_str()) && str_eq(a.package.as_str(), b.package.as_str())
        && str_eq(a.package_digest.as_str(), b.package_digest.as_str()) && str_eq(a.resource.as_str(), b.resource.as_str())
        && str_eq(a.resource_digest.as_str(), b.resource_digest.as_str())
}

/// Whether two bound inputs are the same, field by field.
pub fn inputs_equal(a: &AttemptInputs, b: &AttemptInputs) -> (r: bool)
    ensures
        r == same_inputs(*a, *b),
{
    str_eq(a.attempt_id.as_str(), b.attempt_id.as_str()) && same_exact_exec(&a.semantic_plan, &b.semantic_plan)
        && same_exact_exec(&a.invocation, &b.invocation) && same_exact_exec(&a.baseline_snapshot, &b.baseline_snapshot)
        && str_eq(a.conformance_suite.as_str(), b.conformance_suite.as_str()) && same_lock_exec(&a.provider, &b.provider)
        && same_lock_exec(&a.attester, &b.attester) && same_exact_exec(&a.execution_policy, &b.execution_policy)
        && same_exact_exec(&a.admission_policy, &b.admission_policy)
}

/// The first checkpoint of a journal, decided against what loading the
/// journal found: the prepared checkpoint of the inputs where nothing is
/// stored, `AlreadyExists` where a checkpoint is, and the load's own
/// refusal otherwise. Invalid inputs are refused before the store is
/// consulted.
pub fn creation(inputs: AttemptInputs, loaded: Result<AttemptCheckpoint, JournalError>, path: &str) -> (r: Result<
    AttemptCheckpoint,
    JournalError,
>)
    ensures
        !assembles(inputs, AttemptPhase::Prepared, AttemptEvidence::empty(), None) ==> r is Err,
        assembles(inputs, AttemptPhase::Prepared, AttemptEvidence::empty(), None) ==> match loaded {
            Err(JournalError::Missing(_)) => (r matches Ok(c) && c.wf() && c.inputs_view() == inputs && c.phase_view()
                == AttemptPhase::Prepared && c.evidence_view() == AttemptEvidence::empty() && c.resolution_view() is None),
            Ok(_) => (r matches Err(JournalError::AlreadyExists(p)) && p@ == path@),
            Err(e) => r == Err::<AttemptCheckpoint, JournalError>(e),
        },
{
    let checkpoint = match AttemptCheckpoint::prepared(inputs) {
        Ok(c) => c,
        Err(e) => {
            return Err(e);
        },
    };
    match loaded {
        Err(JournalError::Missing(_)) => Ok(checkpoint),
        Ok(_) => Err(JournalError::AlreadyExists(owned(path))),
        Err(e) => Err(e),
    }
}

/// When a journal holding `current` accepts `next` from a caller that read
/// the checkpoint `expected`: the stored checkpoint is the one read, the
/// inputs are the same, and `next` is a valid checkpoint one permitted
/// transition on that keeps every retained document.
pub open spec fn replaceable(current: AttemptCheckpoint, expected: Seq<char>, next: AttemptCheckpoint) -> bool {
    &&& current.id_view() == expected
    &&& same_inputs(current.inputs_view(), next.inputs_view())
    &&& next.wf()
    &&& valid_transition(current.phase_view(), next.phase_view())
    &&& evidence_extends(current.evidence_view(), next.evidence_view())
}

/// Every step a checkpoint takes is one its journal accepts: the checkpoint
/// a successful transition yields replaces the one it was made from.
pub proof fn lemma_steps_are_replaceable(
    current: AttemptCheckpoint,
    next: AttemptCheckpoint,
    phase: AttemptPhase,
    evidence: AttemptEvidence,
    resolution: Option<AttemptResolution>,
)
    requires
        current.steps_to(phase, evidence, resolution),
        current.stepped(next, phase, evidence, resolution),
    ensures
        replaceable(current, current.id_view(), next),
{
    lemma_same_parts(
        current.evidence_view(),
        next.inputs_view(),
        current.inputs_view(),
        phase,
        next.evidence_view(),
        evidence,
        next.resolution_view(),
        resolution,
    );
}

/// The compare-and-swap of a journal: the stored checkpoint must be the
/// one the caller read, the inputs cannot change, and the next checkpoint
/// must be valid, a permitted transition, and keep every retained
/// document.
pub fn replacement(current: &AttemptCheckpoint, expected_checkpoint_id: &str, next: &AttemptCheckpoint) -> (r: Result<
    (),
    JournalError,
>)
    ensures
        current.id_view() != expected_checkpoint_id@ ==> (r matches Err(JournalError::StaleCheckpoint { expected, actual })
            && expected@ == expected_checkpoint_id@ && actual@ == current.id_view()),
        current.id_view() == expected_checkpoint_id@ && !same_inputs(current.inputs_view(), next.inputs_view()) ==> r
            matches Err(JournalError::ImmutableInputsChanged),
        current.id_view() == expected_checkpoint_id@ && same_inputs(current.inputs_view(), next.inputs_view()) && next.wf()
            && !valid_transition(current.phase_view(), next.phase_view()) ==> r == Err::<(), JournalError>(
            JournalError::InvalidTransition { from: current.phase_view(), to: next.phase_view() },
        ),
        current.id_view() == expected_checkpoint_id@ && same_inputs(current.inputs_view(), next.inputs_view()) && next.wf()
            && valid_transition(current.phase_view(), next.phase_view()) && !evidence_extends(
            current.evidence_view(),
            next.evidence_view(),
        ) ==> r matches Err(JournalError::EvidenceChanged),
        r is Ok <==> replaceable(*current, expected_checkpoint_id@, *next),
{
    if !str_eq(current.checkpoint_id.as_str(), expected_checkpoint_id) {
        return Err(JournalError::StaleCheckpoint {
            expected: owned(expected_checkpoint_id),
            actual: current.checkpoint_id.clone(),
        });
    }
    if !inputs_equal(&current.inputs, &next.inputs) {
        return Err(JournalError::ImmutableInputsChanged);
    }
    next.validate()?;
    validate_transition(current.phase, next.phase)?;
    if !current.evidence.extended_by(&next.evidence) {
        return Err(JournalError::EvidenceChanged);
    }
    Ok(())
}

/// The checkpoint a journal finds stored as these bytes, whose decoded
/// parts are given: the bytes must be exactly the canonical bytes of the
/// stored document of those parts (else `NonCanonical`), and the parts
/// must then form a valid checkpoint.
pub fn stored_checkpoint(
    bytes: &[u8],
    checkpoint_id: String,
    protocol: String,
    inputs: AttemptInputs,
    phase: AttemptPhase,
    evidence: AttemptEvidence,
    resolution: Option<AttemptResolution>,
    path: &str,
) -> (r: Result<AttemptCheckpoint, JournalError>)
    ensures
        canonical_bytes_of(checkpoint_doc(checkpoint_id@, protocol@, inputs, phase, evidence, resolution)) is None ==> r matches Err(
            JournalError::Canonicalization(_),
        ),
        canonical_bytes_of(checkpoint_doc(checkpoint_id@, protocol@, inputs, phase, evidence, resolution)) matches Some(b) && b
            != bytes@ ==> (r matches Err(JournalError::NonCanonical(p)) && p@ == path@),
        canonical_bytes_of(checkpoint_doc(checkpoint_id@, protocol@, inputs, phase, evidence, resolution)) == Some(bytes@) ==> (r
            is Ok <==> ({
            &&& protocol@ == CHECKPOINT_PROTOCOL@
            &&& parts_ok(inputs, phase, evidence, resolution)
            &&& is_sha256_text(checkpoint_id@)
            &&& derived_checkpoint_id(inputs, phase, evidence, resolution) == Some(checkpoint_id@)
            &&& size_ok(checkpoint_id@, inputs, phase, evidence, resolution)
        })),
        r matches Ok(c) ==> c.wf() && c.id_view() == checkpoint_id@ && c.inputs_view() == inputs && c.phase_view() == phase
            && c.evidence_view() == evidence && c.resolution_view() == resolution
            && canonical_bytes_of(c.stored_doc()) == Some(bytes@),
{
    let c = AttemptCheckpoint { checkpoint_id, protocol, inputs, phase, evidence, resolution };
    match c.canonical_bytes() {
        None => Err(JournalError::Canonicalization(owned("canonical JSON serialization failed"))),
        Some(b) => {
            if !bytes_equal(bytes, &b) {
                return Err(JournalError::NonCanonical(owned(path)));
            }
            c.validate()?;
            Ok(c)
        },
    }
}

/// The bytes a journal publishes for a checkpoint: those of its canonical
/// stored document, once the checkpoint is valid.
pub fn publication_bytes(checkpoint: &AttemptCheckpoint) -> (r: Result<Vec<u8>, JournalError>)
    ensures
        r is Ok <==> checkpoint.wf(),
        r matches Ok(b) ==> canonical_bytes_of(checkpoint.stored_doc()) == Some(b@) && b@.len() <= MAX_CHECKPOINT_BYTES,
{
    checkpoint.validate()?;
    match checkpoint.canonical_bytes() {
        None => Err(JournalError::Canonicalization(owned("canonical JSON serialization failed"))),
        Some(b) => {
            if b.len() > MAX_CHECKPOINT_BYTES {
                return Err(inputs_invalid("checkpoint length exceeds the checkpoint bound"));
            }
            Ok(b)
        },
    }
}

fn same_opt_exec(a: &Option<ExactJson>, b: &Option<ExactJson>) -> (r: bool)
    ensures
        r == same_opt(*a, *b),
{
    match (a, b) {
        (Some(x), Some(y)) => same_exact_exec(x, y),
        (None, None) => true,
        _ => false,
    }
}

fn same_resolution_exec(a: &Option<AttemptResolution>, b: &Option<AttemptResolution>) -> (r: bool)
    ensures
        r == same_resolution(*a, *b),
{
    match (a, b) {
        (Some(AttemptResolution::Admitted { admission_snapshot: x }), Some(AttemptResolution::Admitted { admission_snapshot: y })) => {
            same_exact_exec(x, y)
        },
        (Some(AttemptResolution::Withheld { decision: x }), Some(AttemptResolution::Withheld { decision: y })) => same_exact_exec(
            x,
            y,
        ),
        (Some(AttemptResolution::Unable { from: f, failure: x }), Some(AttemptResolution::Unable { from: g, failure: y })) => {
            *f == *g && same_exact_exec(x, y)
        },
        (None, None) => true,
        _ => false,
    }
}

/// Two checkpoints with the same identity, protocol, inputs, phase,
/// evidence and resolution.
pub open spec fn same_checkpoint(a: AttemptCheckpoint, b: AttemptCheckpoint) -> bool {
    &&& a.id_view() == b.id_view()
    &&& a.protocol_view() == b.protocol_view()
    &&& same_inputs(a.inputs_view(), b.inputs_view())
    &&& a.phase_view() == b.phase_view()
    &&& a.evidence_view().same(b.evidence_view())
    &&& same_resolution(a.resolution_view(), b.resolution_view())
}

/// What a journal reads back after publishing must be what it published.
pub fn published(expected: &AttemptCheckpoint, actual: &AttemptCheckpoint) -> (r: Result<(), JournalError>)
    ensures
        r is Ok <==> same_checkpoint(*expected, *actual),
        r matches Err(e) ==> (e matches JournalError::PublishedCheckpointMismatch { expected: x, actual: y } && x@
            == expected.id_view() && y@ == actual.id_view()),
{
    let same = str_eq(expected.checkpoint_id.as_str(), actual.checkpoint_id.as_str()) && str_eq(
        expected.protocol.as_str(),
        actual.protocol.as_str(),
    ) && inputs_equal(&expected.inputs, &actual.inputs) && expected.phase == actual.phase && same_opt_exec(
        &expected.evidence.provider_receipt,
        &actual.evidence.provider_receipt,
    ) && same_opt_exec(&expected.evidence.candidate, &actual.evidence.candidate) && same_opt_exec(
        &expected.evidence.assessment_request,
        &actual.evidence.assessment_request,
    ) && same_opt_exec(&expected.evidence.attester_receipt, &actual.evidence.attester_receipt) && same_opt_exec(
        &expected.evidence.assessment,
        &actual.evidence.assessment,
    ) && same_resolution_exec(&expected.resolution, &actual.resolution);
    if same {
        Ok(())
    } else {
        Err(JournalError::PublishedCheckpointMismatch {
            expected: expected.checkpoint_id.clone(),
            actual: actual.checkpoint_id.clone(),
        })
    }
}
} // verus!
