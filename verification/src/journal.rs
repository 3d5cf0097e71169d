//! Durable, monotonic attempt evidence for one external capability attempt:
//! a closed lifecycle, the evidence each phase must hold, content-identified
//! checkpoints, and the only recovery action a restart may take.

use vstd::prelude::*;
use crate::json::{Json, JsonValue, JsonMember, copy_json, is_object, json_object, json_text, key_views, value_views, push_member};
use crate::digest::{canonical_bytes, canonical_bytes_of, canonical_form, canonical_text, content_id, json_content_id, sha256_identity, sha256_text};
use crate::json::{document, from_str, json_equal, normalize, normalize_json, render, item_views, lemma_array_view, lemma_object_view};
use crate::identity::{is_sha256_identity, is_sha256_text, utf8_len, utf8_len_at_most};
use crate::text::{chars_of, char_is_whitespace, has_char, is_unicode_whitespace, owned, digits_value, is_ascii_digit, all_digits, lemma_digits_grow};

verus! {

/// Exact proof-local checkpoint protocol.
pub const CHECKPOINT_PROTOCOL: &'static str = "org.gooi.proof.data-model-external-host-attempt-checkpoint/v2";

/// Largest canonical form of one retained exact JSON document, in bytes.
pub const MAX_EXACT_JSON_BYTES: usize = 4194304;

/// Largest opaque coordinate, in UTF-8 bytes.
pub const MAX_OPAQUE_ID_BYTES: usize = 4096;

/// Closed errors of the attempt journal.
#[derive(Debug)]
pub enum JournalError {
    InvalidDocument(String),
    ContentIdentityMismatch { document: String, expected: String, actual: String },
    InvalidTransition { from: AttemptPhase, to: AttemptPhase },
    EvidenceChanged,
    ImmutableInputsChanged,
    StaleCheckpoint { expected: String, actual: String },
    PublishedCheckpointMismatch { expected: String, actual: String },
    Missing(String),
    AlreadyExists(String),
    NonCanonical(String),
    Decode { path: String, detail: String },
    Canonicalization(String),
    InvalidFilesystemState { path: String, detail: String },
    Filesystem { action: String, path: String, detail: String },
    Io { action: String, path: String, detail: String },
}

fn invalid(detail: &str) -> (e: JournalError)
    ensures
        e matches JournalError::InvalidDocument(m) && m@ == detail@,
{
    JournalError::InvalidDocument(owned(detail))
}

/// The largest integer every JSON reader holds exactly (I-JSON).
pub const MAX_SAFE_JSON_INTEGER: u64 = 9007199254740991;

/// Number text with no fraction and no exponent.
pub open spec fn is_integer_text(t: Seq<char>) -> bool {
    forall|i: int| 0 <= i < t.len() ==> t[i] != '.' && t[i] != 'e' && t[i] != 'E'
}

/// An integer that a JSON reader holds as a 64-bit integer but that lies
/// outside the exact I-JSON domain. Integers beyond 64 bits are read as
/// finite floating-point values, which the domain admits.
pub open spec fn unsafe_integer(t: Seq<char>) -> bool {
    let neg = t.len() > 0 && t[0] == '-';
    let digits = if neg { t.drop_first() } else { t };
    let mag = digits_value(digits);
    &&& is_integer_text(t)
    &&& digits.len() > 0
    &&& all_digits(digits)
    &&& (if neg { mag <= 9223372036854775808 } else { mag <= u64::MAX })
    &&& mag > MAX_SAFE_JSON_INTEGER
}

/// The first number, in document order, outside the exact integer domain.
pub open spec fn domain_fault(v: Json) -> Option<Seq<char>>
    decreases v, 0nat,
{
    match v {
        Json::Number(t) => if unsafe_integer(t) { Some(t) } else { None },
        Json::Array(items) => items_domain_fault(items, 0),
        Json::Object(_, vals) => items_domain_fault(vals, 0),
        _ => None,
    }
}

pub open spec fn items_domain_fault(items: Seq<Json>, i: nat) -> Option<Seq<char>>
    decreases items, items.len() - i,
{
    if i >= items.len() {
        None
    } else {
        match domain_fault(items[i as int]) {
            Some(t) => Some(t),
            None => items_domain_fault(items, i + 1),
        }
    }
}

pub open spec fn domain_msg(t: Seq<char>) -> Seq<char> {
    "JSON integer "@ + t + " exceeds the I-JSON exact integer domain"@
}

fn unsafe_integer_exec(t: &String) -> (r: bool)
    ensures
        r == unsafe_integer(t@),
{
    let s = chars_of(t.as_str());
    let mut k: usize = 0;
    while k < s.len()
        invariant
            k <= s.len(),
            s@ == t@,
            forall|i: int| 0 <= i < k ==> s@[i] != '.' && s@[i] != 'e' && s@[i] != 'E',
        decreases s.len() - k,
    {
        if s[k] == '.' || s[k] == 'e' || s[k] == 'E' {
            return false;
        }
        k = k + 1;
    }
    let neg = s.len() > 0 && s[0] == '-';
    let start: usize = if neg { 1 } else { 0 };
    let ghost digits = if neg { t@.drop_first() } else { t@ };
    assert(digits =~= s@.subrange(start as int, s@.len() as int));
    let limit: u128 = if neg { 9223372036854775808 } else { 18446744073709551615 };
    let mut acc: u128 = 0;
    let mut i: usize = start;
    while i < s.len()
        invariant
            start <= i <= s.len(),
            s@ == t@,
            digits == s@.subrange(start as int, s@.len() as int),
            limit == (if neg { 9223372036854775808u128 } else { 18446744073709551615u128 }),
            is_integer_text(t@),
            neg == (t@.len() > 0 && t@[0] == '-'),
            digits == (if neg { t@.drop_first() } else { t@ }),
            forall|k: int| start <= k < i ==> is_ascii_digit(#[trigger] s@[k]),
            acc as nat == digits_value(s@.subrange(start as int, i as int)),
            acc <= limit,
        decreases s.len() - i,
    {
        let c = s[i];
        let d: u128 = if '0' <= c && c <= '9' { (c as u32 - 48) as u128 } else { 0 };
        let ghost prefix = s@.subrange(start as int, i + 1);
        assert(prefix.drop_last() =~= s@.subrange(start as int, i as int));
        if !('0' <= c && c <= '9') {
            assert(!is_ascii_digit(digits[i - start]));
            return false;
        }
        let next = acc * 10 + d;
        if next > limit {
            proof {
                assert(digits_value(prefix) == next);
                if all_digits(digits) {
                    lemma_digits_grow(digits, i + 1 - start);
                    assert(digits.subrange(0, i + 1 - start) =~= prefix);
                } else {
                }
            }
            return false;
        }
        acc = next;
        i = i + 1;
    }
    assert(s@.subrange(start as int, s@.len() as int) =~= digits);
    assert(all_digits(digits));
    if start >= s.len() {
        return false;
    }
    acc > MAX_SAFE_JSON_INTEGER as u128
}

fn items_domain_check(items: &Vec<JsonValue>) -> (r: Option<String>)
    ensures
        r matches Some(t) ==> items_domain_fault(item_views(items@), 0) == Some(t@),
        r is None ==> items_domain_fault(item_views(items@), 0) is None,
    decreases items@, 1nat,
{
    let ghost iv = item_views(items@);
    let mut i: usize = 0;
    while i < items.len()
        invariant
            i <= items.len(),
            iv == item_views(items@),
            items_domain_fault(iv, 0) == items_domain_fault(iv, i as nat),
        decreases items.len() - i,
    {
        proof {
            assert(decreases_to!(items@ => items@[i as int]));
        }
        match domain_check(&items[i]) {
            Some(t) => return Some(t),
            None => {},
        }
        i = i + 1;
    }
    None
}

fn members_domain_check(members: &Vec<JsonMember>) -> (r: Option<String>)
    ensures
        r matches Some(t) ==> items_domain_fault(value_views(members@), 0) == Some(t@),
        r is None ==> items_domain_fault(value_views(members@), 0) is None,
    decreases members@, 1nat,
{
    let ghost vv = value_views(members@);
    let mut i: usize = 0;
    while i < members.len()
        invariant
            i <= members.len(),
            vv == value_views(members@),
            items_domain_fault(vv, 0) == items_domain_fault(vv, i as nat),
        decreases members.len() - i,
    {
        proof {
            assert(decreases_to!(members@ => members@[i as int]));
            assert(decreases_to!(members@[i as int] => members@[i as int].value));
        }
        match domain_check(&members[i].value) {
            Some(t) => return Some(t),
            None => {},
        }
        i = i + 1;
    }
    None
}

/// The first number, in document order, outside the exact integer domain.
fn domain_check(v: &JsonValue) -> (r: Option<String>)
    ensures
        r matches Some(t) ==> domain_fault(v@) == Some(t@),
        r is None ==> domain_fault(v@) is None,
    decreases v, 0nat,
{
    match v {
        JsonValue::Number(t) => {
            if unsafe_integer_exec(t) {
                Some(t.clone())
            } else {
                None
            }
        },
        JsonValue::Array(items) => {
            proof {
                lemma_array_view(*items);
                let ghost whole = *v;
                assert(decreases_to!(whole => whole->Array_0));
                assert(decreases_to!(whole->Array_0 => whole->Array_0@));
            }
            items_domain_check(items)
        },
        JsonValue::Object(members) => {
            proof {
                lemma_object_view(*members);
                let ghost whole = *v;
                assert(decreases_to!(whole => whole->Object_0));
                assert(decreases_to!(whole->Object_0 => whole->Object_0@));
            }
            members_domain_check(members)
        },
        _ => None,
    }
}

/// The value a JSON reader holds after reading the canonical text back.
pub open spec fn reparsed(v: Json) -> Option<Json> {
    match canonical_text(render(v)) {
        Some(c) => match document(c) {
            Ok(j) => Some(j),
            Err(_) => None,
        },
        None => None,
    }
}

/// A canonical JSON object bound to its RFC 8785 / SHA-256 identity.
#[derive(Debug, PartialEq, Eq)]
pub struct ExactJson {
    pub digest: String,
    pub value: JsonValue,
}

/// A value may be bound: an object whose integers are exact, whose
/// canonical form fits the bound and reads back.
pub open spec fn bindable(value: Json) -> bool {
    &&& value is Object
    &&& domain_fault(normalize(value)) is None
    &&& canonical_bytes_of(value) is Some
    &&& canonical_bytes_of(value).unwrap().len() <= MAX_EXACT_JSON_BYTES
    &&& reparsed(value) is Some
}

/// A retained document: bindable, in canonical-normal form (it equals what
/// its canonical form reads back as), and identified by the SHA-256
/// identity of its canonical form.
pub open spec fn exact_ok(digest: Seq<char>, value: Json) -> bool {
    &&& bindable(value)
    &&& normalize(value) == normalize(reparsed(value).unwrap())
    &&& digest == sha256_text(canonical_bytes_of(value).unwrap())
}

pub open spec fn size_msg() -> Seq<char> {
    "exact JSON payload exceeds 4194304 bytes"@
}

impl ExactJson {
    pub open spec fn valid(&self) -> bool {
        exact_ok(self.digest@, self.value@)
    }

    /// Checks the payload up to its canonical read-back; the read-back.
    fn bind_checks(value: &JsonValue) -> (r: Result<(Vec<u8>, JsonValue), JournalError>)
        ensures
            r is Ok <==> bindable(value@),
            r matches Ok((bytes, normal)) ==> canonical_bytes_of(value@) == Some(bytes@) && reparsed(value@) == Some(normal@),
            r matches Err(e) ==> value@ is Object && domain_fault(normalize(value@)) is Some ==> (e matches JournalError::InvalidDocument(m) && m@
                == domain_msg(domain_fault(normalize(value@)).unwrap())),
    {
        if !is_object(value) {
            return Err(invalid("exact JSON payload must be an object"));
        }
        let normal_view = normalize_json(value);
        match domain_check(&normal_view) {
            Some(t) => {
                let mut m = owned("JSON integer ");
                m.append(t.as_str());
                m.append(" exceeds the I-JSON exact integer domain");
                return Err(JournalError::InvalidDocument(m));
            },
            None => {},
        }
        let bytes = match canonical_bytes(value) {
            Some(b) => b,
            None => return Err(JournalError::Canonicalization(owned("canonical JSON serialization failed"))),
        };
        if bytes.len() > MAX_EXACT_JSON_BYTES {
            return Err(invalid("exact JSON payload exceeds 4194304 bytes"));
        }
        let text = match canonical_form(value) {
            Some(t) => t,
            None => return Err(JournalError::Canonicalization(owned("canonical JSON serialization failed"))),
        };
        let normal = match from_str(text.as_str()) {
            Ok(v) => v,
            Err(_) => return Err(invalid("canonical JSON could not be reparsed")),
        };
        Ok((bytes, normal))
    }

    /// Normalizes and content-identifies one bounded JSON object: refuses
    /// non-objects, integers outside the exact I-JSON domain, oversized or
    /// unreadable canonical forms; keeps the canonical read-back.
    pub fn new(value: JsonValue) -> (r: Result<Self, JournalError>)
        ensures
            r is Ok <==> bindable(value@) && exact_ok(sha256_text(canonical_bytes_of(value@).unwrap()), reparsed(value@).unwrap()),
            r matches Ok(e) ==> e.valid() && Some(e.value@) == reparsed(value@) && e.digest@ == sha256_text(
                canonical_bytes_of(value@).unwrap(),
            ),
            r matches Err(e) ==> value@ is Object && domain_fault(normalize(value@)) is Some ==> (e matches JournalError::InvalidDocument(m) && m@
                == domain_msg(domain_fault(normalize(value@)).unwrap())),
    {
        let (bytes, normal) = ExactJson::bind_checks(&value)?;
        let exact = ExactJson { digest: sha256_identity(bytes.as_slice()), value: normal };
        exact.validate()?;
        Ok(exact)
    }

    /// Revalidates object form, the exact integer domain, the size bound,
    /// canonical-normal form and content identity.
    pub fn validate(&self) -> (r: Result<(), JournalError>)
        ensures
            r is Ok <==> self.valid(),
            r matches Err(e) ==> self.value@ is Object && domain_fault(normalize(self.value@)) is Some ==> (e matches JournalError::InvalidDocument(m)
                && m@ == domain_msg(domain_fault(normalize(self.value@)).unwrap())),
            r matches Err(e) ==> bindable(self.value@) && normalize(self.value@) != normalize(reparsed(self.value@).unwrap())
                ==> (e matches JournalError::InvalidDocument(m) && m@ == "exact JSON payload is not in canonical-normal form"@),
    {
        let (bytes, normal) = ExactJson::bind_checks(&self.value)?;
        let a = normalize_json(&self.value);
        let b = normalize_json(&normal);
        if !json_equal(&a, &b) {
            return Err(invalid("exact JSON payload is not in canonical-normal form"));
        }
        let actual = sha256_identity(bytes.as_slice());
        if !is_sha256_identity(self.digest.as_str()) {
            if crate::text::str_starts_with(self.digest.as_str(), "sha256:") {
                return Err(invalid("exact JSON digest must contain 64 lowercase hexadecimal digits"));
            }
            return Err(invalid("exact JSON digest must use sha256 identity syntax"));
        }
        if !(self.digest == actual) {
            return Err(JournalError::ContentIdentityMismatch {
                document: owned("exact JSON payload"),
                expected: self.digest.clone(),
                actual,
            });
        }
        Ok(())
    }

    /// An equal, separately owned document.
    pub fn duplicate(&self) -> (r: Self)
        ensures
            r.digest@ == self.digest@,
            r.value@ == self.value@,
    {
        ExactJson { digest: self.digest.clone(), value: copy_json(&self.value) }
    }
}

/// The document form of an exact JSON payload: `{"digest", "value"}`.
pub open spec fn exact_doc(digest: Seq<char>, value: Json) -> Json {
    Json::Object(seq!["digest"@, "value"@], seq![Json::Str(digest), value])
}

pub fn exact_json_doc(e: &ExactJson) -> (r: JsonValue)
    ensures
        r@ == exact_doc(e.digest@, e.value@),
{
    let mut m: Vec<JsonMember> = Vec::new();
    assert(key_views(m@) =~= Seq::<Seq<char>>::empty());
    assert(value_views(m@) =~= Seq::<Json>::empty());
    push_member(&mut m, "digest", json_text(e.digest.as_str()));
    push_member(&mut m, "value", copy_json(&e.value));
    assert(key_views(m@) =~= seq!["digest"@, "value"@]);
    assert(value_views(m@) =~= seq![Json::Str(e.digest@), e.value@]);
    json_object(m)
}

/// One non-empty exact opaque identifier: at most 4096 UTF-8 bytes and no
/// whitespace anywhere.
pub open spec fn valid_opaque_id(s: Seq<char>) -> bool {
    s.len() > 0 && utf8_len(s) <= MAX_OPAQUE_ID_BYTES
        && forall|i: int| 0 <= i < s.len() ==> !is_unicode_whitespace(#[trigger] s[i])
}

pub fn validate_opaque_id(value: &str) -> (r: bool)
    ensures
        r == valid_opaque_id(value@),
{
    let chars = chars_of(value);
    if chars.len() == 0 || !utf8_len_at_most(&chars, MAX_OPAQUE_ID_BYTES) {
        return false;
    }
    let mut i: usize = 0;
    while i < chars.len()
        invariant
            i <= chars.len(),
            chars@ == value@,
            forall|k: int| 0 <= k < i ==> !is_unicode_whitespace(#[trigger] chars@[k]),
        decreases chars.len() - i,
    {
        if char_is_whitespace(chars[i]) {
            return false;
        }
        i = i + 1;
    }
    true
}

/// Host-owned lock to one exact installed runtime resource.
#[derive(Debug)]
pub struct DeploymentLock {
    pub implementation: String,
    pub package: String,
    pub package_digest: String,
    pub resource: String,
    pub resource_digest: String,
}

impl DeploymentLock {
    pub open spec fn valid(&self) -> bool {
        valid_opaque_id(self.implementation@) && valid_opaque_id(self.package@)
            && is_sha256_text(self.package_digest@) && valid_opaque_id(self.resource@)
            && is_sha256_text(self.resource_digest@)
    }

    /// One exact opaque deployment coordinate; refuses empty or spaced
    /// coordinates and malformed SHA-256 identities.
    pub fn new(
        implementation: String,
        package: String,
        package_digest: String,
        resource: String,
        resource_digest: String,
    ) -> (r: Result<Self, JournalError>)
        ensures
            r matches Ok(l) ==> l.valid() && l.implementation@ == implementation@ && l.package@
                == package@ && l.package_digest@ == package_digest@ && l.resource@ == resource@
                && l.resource_digest@ == resource_digest@,
            r is Err <==> !(valid_opaque_id(implementation@) && valid_opaque_id(package@)
                && is_sha256_text(package_digest@) && valid_opaque_id(resource@) && is_sha256_text(
                resource_digest@,
            )),
            r matches Err(e) ==> e is InvalidDocument,
    {
        let lock = DeploymentLock { implementation, package, package_digest, resource, resource_digest };
        match lock.validate() {
            Ok(()) => Ok(lock),
            Err(e) => Err(e),
        }
    }

    pub fn validate(&self) -> (r: Result<(), JournalError>)
        ensures
            r is Ok <==> self.valid(),
            r matches Err(e) ==> e is InvalidDocument,
    {
        if !validate_opaque_id(self.implementation.as_str()) {
            return Err(invalid("implementation must be one non-empty exact opaque identifier"));
        }
        if !validate_opaque_id(self.package.as_str()) {
            return Err(invalid("package must be one non-empty exact opaque identifier"));
        }
        if !is_sha256_identity(self.package_digest.as_str()) {
            return Err(invalid("package digest must use sha256 identity syntax"));
        }
        if !validate_opaque_id(self.resource.as_str()) {
            return Err(invalid("resource must be one non-empty exact opaque identifier"));
        }
        if !is_sha256_identity(self.resource_digest.as_str()) {
            return Err(invalid("resource digest must use sha256 identity syntax"));
        }
        Ok(())
    }

    pub fn duplicate(&self) -> (r: Self)
        ensures
            r.implementation@ == self.implementation@,
            r.package@ == self.package@,
            r.package_digest@ == self.package_digest@,
            r.resource@ == self.resource@,
            r.resource_digest@ == self.resource_digest@,
    {
        DeploymentLock {
            implementation: self.implementation.clone(),
            package: self.package.clone(),
            package_digest: self.package_digest.clone(),
            resource: self.resource.clone(),
            resource_digest: self.resource_digest.clone(),
        }
    }
}

/// Closed durable lifecycle of one external attempt.
#[derive(Clone, Copy, Debug, PartialEq, Eq, Structural)]
pub enum AttemptPhase {
    Prepared,
    ProviderArmed,
    ProviderCaptured,
    CandidateReady,
    AttesterArmed,
    AttesterCaptured,
    AssessmentReady,
    Admitted,
    Withheld,
    Unable,
}

pub open spec fn terminal(phase: AttemptPhase) -> bool {
    phase == AttemptPhase::Admitted || phase == AttemptPhase::Withheld || phase == AttemptPhase::Unable
}

impl AttemptPhase {
    /// Whether no later transition is permitted.
    pub fn is_terminal(self) -> (r: bool)
        ensures
            r == terminal(self),
    {
        match self {
            AttemptPhase::Admitted | AttemptPhase::Withheld | AttemptPhase::Unable => true,
            _ => false,
        }
    }
}

/// The permitted transitions. An armed phase may only be captured: once a
/// runtime may be executing, nothing but its capture can follow, so an
/// armed attempt can never be resolved as unable.
pub open spec fn valid_transition(from: AttemptPhase, to: AttemptPhase) -> bool {
    match from {
        AttemptPhase::Prepared => to == AttemptPhase::ProviderArmed || to == AttemptPhase::Unable,
        AttemptPhase::ProviderArmed => to == AttemptPhase::ProviderCaptured,
        AttemptPhase::ProviderCaptured => to == AttemptPhase::CandidateReady || to == AttemptPhase::Unable,
        AttemptPhase::CandidateReady => to == AttemptPhase::AttesterArmed || to == AttemptPhase::Unable,
        AttemptPhase::AttesterArmed => to == AttemptPhase::AttesterCaptured,
        AttemptPhase::AttesterCaptured => to == AttemptPhase::AssessmentReady || to == AttemptPhase::Unable,
        AttemptPhase::AssessmentReady => to == AttemptPhase::Admitted || to == AttemptPhase::Withheld,
        _ => false,
    }
}

pub fn validate_transition(from: AttemptPhase, to: AttemptPhase) -> (r: Result<(), JournalError>)
    ensures
        r is Ok <==> valid_transition(from, to),
        r matches Err(e) ==> e == (JournalError::InvalidTransition { from, to }),
{
    let valid = match from {
        AttemptPhase::Prepared => to == AttemptPhase::ProviderArmed || to == AttemptPhase::Unable,
        AttemptPhase::ProviderArmed => to == AttemptPhase::ProviderCaptured,
        AttemptPhase::ProviderCaptured => to == AttemptPhase::CandidateReady || to == AttemptPhase::Unable,
        AttemptPhase::CandidateReady => to == AttemptPhase::AttesterArmed || to == AttemptPhase::Unable,
        AttemptPhase::AttesterArmed => to == AttemptPhase::AttesterCaptured,
        AttemptPhase::AttesterCaptured => to == AttemptPhase::AssessmentReady || to == AttemptPhase::Unable,
        AttemptPhase::AssessmentReady => to == AttemptPhase::Admitted || to == AttemptPhase::Withheld,
        _ => false,
    };
    if valid {
        Ok(())
    } else {
        Err(JournalError::InvalidTransition { from, to })
    }
}

/// Deterministic restart action. There is deliberately no generic retry.
#[derive(Clone, Copy, Debug, PartialEq, Eq, Structural)]
pub enum RecoveryAction {
    RetryProvider,
    ParkProviderUncertain,
    BuildCandidateFromCapture,
    ArmAttester,
    ParkAttesterUncertain,
    BuildAssessmentFromCapture,
    EvaluateAdmission,
    NoAction,
}

/// The one action a restart takes for a loaded phase.
pub open spec fn recovery_for(phase: AttemptPhase) -> RecoveryAction {
    match phase {
        AttemptPhase::Prepared => RecoveryAction::RetryProvider,
        AttemptPhase::ProviderArmed => RecoveryAction::ParkProviderUncertain,
        AttemptPhase::ProviderCaptured => RecoveryAction::BuildCandidateFromCapture,
        AttemptPhase::CandidateReady => RecoveryAction::ArmAttester,
        AttemptPhase::AttesterArmed => RecoveryAction::ParkAttesterUncertain,
        AttemptPhase::AttesterCaptured => RecoveryAction::BuildAssessmentFromCapture,
        AttemptPhase::AssessmentReady => RecoveryAction::EvaluateAdmission,
        _ => RecoveryAction::NoAction,
    }
}

pub fn recovery_action_for(phase: AttemptPhase) -> (r: RecoveryAction)
    ensures
        r == recovery_for(phase),
{
    match phase {
        AttemptPhase::Prepared => RecoveryAction::RetryProvider,
        AttemptPhase::ProviderArmed => RecoveryAction::ParkProviderUncertain,
        AttemptPhase::ProviderCaptured => RecoveryAction::BuildCandidateFromCapture,
        AttemptPhase::CandidateReady => RecoveryAction::ArmAttester,
        AttemptPhase::AttesterArmed => RecoveryAction::ParkAttesterUncertain,
        AttemptPhase::AttesterCaptured => RecoveryAction::BuildAssessmentFromCapture,
        AttemptPhase::AssessmentReady => RecoveryAction::EvaluateAdmission,
        _ => RecoveryAction::NoAction,
    }
}

/// The snake-case name of a phase, as checkpoints record it.
pub open spec fn phase_name(phase: AttemptPhase) -> Seq<char> {
    match phase {
        AttemptPhase::Prepared => "prepared"@,
        AttemptPhase::ProviderArmed => "provider_armed"@,
        AttemptPhase::ProviderCaptured => "provider_captured"@,
        AttemptPhase::CandidateReady => "candidate_ready"@,
        AttemptPhase::AttesterArmed => "attester_armed"@,
        AttemptPhase::AttesterCaptured => "attester_captured"@,
        AttemptPhase::AssessmentReady => "assessment_ready"@,
        AttemptPhase::Admitted => "admitted"@,
        AttemptPhase::Withheld => "withheld"@,
        AttemptPhase::Unable => "unable"@,
    }
}

pub fn phase_name_exec(phase: AttemptPhase) -> (r: &'static str)
    ensures
        r@ == phase_name(phase),
{
    match phase {
        AttemptPhase::Prepared => "prepared",
        AttemptPhase::ProviderArmed => "provider_armed",
        AttemptPhase::ProviderCaptured => "provider_captured",
        AttemptPhase::CandidateReady => "candidate_ready",
        AttemptPhase::AttesterArmed => "attester_armed",
        AttemptPhase::AttesterCaptured => "attester_captured",
        AttemptPhase::AssessmentReady => "assessment_ready",
        AttemptPhase::Admitted => "admitted",
        AttemptPhase::Withheld => "withheld",
        AttemptPhase::Unable => "unable",
    }
}

/// A restart resumes an attempt where it stopped: the action it takes is
/// the one that carries out the forward transition the loaded phase
/// permits (parking instead of re-running where a runtime may still be
/// executing), and a terminal phase takes no action.
pub proof fn lemma_recovery_resumes_next_transition(phase: AttemptPhase)
    ensures
        recovery_for(phase) == RecoveryAction::RetryProvider <==> valid_transition(phase, AttemptPhase::ProviderArmed),
        recovery_for(phase) == RecoveryAction::ParkProviderUncertain <==> valid_transition(
            phase,
            AttemptPhase::ProviderCaptured,
        ),
        recovery_for(phase) == RecoveryAction::BuildCandidateFromCapture <==> valid_transition(
            phase,
            AttemptPhase::CandidateReady,
        ),
        recovery_for(phase) == RecoveryAction::ArmAttester <==> valid_transition(phase, AttemptPhase::AttesterArmed),
        recovery_for(phase) == RecoveryAction::ParkAttesterUncertain <==> valid_transition(
            phase,
            AttemptPhase::AttesterCaptured,
        ),
        recovery_for(phase) == RecoveryAction::BuildAssessmentFromCapture <==> valid_transition(
            phase,
            AttemptPhase::AssessmentReady,
        ),
        recovery_for(phase) == RecoveryAction::EvaluateAdmission <==> valid_transition(phase, AttemptPhase::Admitted),
        recovery_for(phase) == RecoveryAction::NoAction <==> terminal(phase),
{
}

/// Distinct phases that are not terminal are recovered by distinct
/// actions: no two stopping points of an attempt are resumed alike.
pub proof fn lemma_recovery_distinguishes_phases(p: AttemptPhase, q: AttemptPhase)
    requires
        !terminal(p),
        !terminal(q),
        p != q,
    ensures
        recovery_for(p) != recovery_for(q),
{
}

/// An attempt may be resolved as unable exactly from the phases before an
/// arming (prepared, candidate ready) and right after a capture (provider
/// captured, attester captured): never while a runtime may be executing,
/// never after the assessment, never twice.
pub proof fn lemma_unable_permitted_phases(phase: AttemptPhase)
    ensures
        valid_transition(phase, AttemptPhase::Unable) <==> (phase == AttemptPhase::Prepared || phase
            == AttemptPhase::ProviderCaptured || phase == AttemptPhase::CandidateReady || phase
            == AttemptPhase::AttesterCaptured),
{
}

} // verus!
