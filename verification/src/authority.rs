//! The local admission decision: how named conformance checks combine into
//! one assessment outcome, which verdict a policy owes an assessment or an
//! observation, and the closed errors of the authority layer.

use vstd::prelude::*;
use crate::identity::{FactId, PortName, utf8_len, utf8_len_at_most};
use crate::json::{JsonMember, key_views};
use crate::protocol::{AdmittedFactRef, ProtocolError, Sha256Digest};
use crate::text::{chars_of, has_control, has_control_chars, is_trimmed, is_trimmed_chars, owned, str_eq};

verus! {

/// The outcome of one check, or of a whole assessment.
#[derive(Clone, Copy, Debug, PartialEq, Eq, Structural)]
pub enum AssessmentOutcome {
    Passed,
    Failed,
    Indeterminate,
}

/// Why a policy withholds admission.
#[derive(Clone, Copy, Debug, PartialEq, Eq, Structural)]
pub enum AdmissionDenial {
    AssessmentFailed,
    AssessmentIndeterminate,
    AuthorityNotAccepted,
}

/// Whether a policy admits, and if not, its denial.
#[derive(Clone, Copy, Debug, PartialEq, Eq, Structural)]
pub enum VerdictKind {
    Admit,
    Withhold(AdmissionDenial),
}

/// A check name: non-empty, at most 256 UTF-8 bytes, trimmed, and free of
/// control characters.
pub open spec fn valid_check_name(s: Seq<char>) -> bool {
    s.len() > 0 && utf8_len(s) <= 256 && is_trimmed(s) && !has_control(s)
}

/// The first check, from `i` on, whose name is invalid.
pub open spec fn first_bad_check_name(checks: Seq<(Seq<char>, AssessmentOutcome)>, i: int) -> Option<int>
    decreases checks.len() - i,
{
    if i < 0 || i >= checks.len() {
        None
    } else if !valid_check_name(checks[i].0) {
        Some(i)
    } else {
        first_bad_check_name(checks, i + 1)
    }
}

/// Any failed check fails the assessment; otherwise any indeterminate
/// check makes it indeterminate; otherwise it passed.
pub open spec fn combine_outcomes(checks: Seq<(Seq<char>, AssessmentOutcome)>) -> AssessmentOutcome {
    if exists|i: int| 0 <= i < checks.len() && #[trigger] checks[i].1 == AssessmentOutcome::Failed {
        AssessmentOutcome::Failed
    } else if exists|i: int| 0 <= i < checks.len() && #[trigger] checks[i].1 == AssessmentOutcome::Indeterminate {
        AssessmentOutcome::Indeterminate
    } else {
        AssessmentOutcome::Passed
    }
}

pub open spec fn check_views(checks: Seq<(String, AssessmentOutcome)>) -> Seq<(Seq<char>, AssessmentOutcome)> {
    Seq::new(checks.len(), |i: int| (checks[i].0@, checks[i].1))
}

/// The closed errors of the authority layer.
#[derive(Debug)]
pub enum AuthorityError {
    Protocol(ProtocolError),
    InvalidDigest(String),
    InvalidIdentity { field: String, value: String },
    ProtocolMismatch { expected: String, actual: String },
    ReservedExtension { scope: String, key: String },
    Serialization(String),
    ContentIdentityMismatch { document: String, expected: String, actual: String },
    InvalidDocument { document: String, detail: String },
    EmptyAssessmentChecks,
    InvalidCheckName(String),
    ObservationValueKindMismatch,
    ObservationEvidenceKindMismatch,
    AssessmentOutcomeMismatch,
    AssessmentCorrelationMismatch,
    ConformanceSuiteMismatch,
    AttesterNotIndependent,
    DuplicateAcceptedAuthority,
    ResultCandidateMismatch,
    DecisionCorrelationMismatch,
    DecisionOutputMismatch,
    DecisionVerdictMismatch,
    WithheldRecord,
    AuthorityOutputMismatch,
    StagedAdmissionMismatch,
    UnknownAuthority(Sha256Digest),
    MissingFact(FactId),
    MissingDecision(Sha256Digest),
    FactReferenceMismatch,
    StoredFactMismatch(FactId),
    StoredDecisionMismatch(Sha256Digest),
    LinkedInputMismatch(PortName),
    FactCollision(FactId),
    DecisionCollision(Sha256Digest),
    AuthorityCollision(Sha256Digest),
    OrphanFact(FactId),
    OrphanDecision(Sha256Digest),
}

/// The outcome of named checks, in the order of the assessment's check map
/// (name order): refused when there are none or a name is invalid.
pub fn derive_assessment_outcome(checks: &Vec<(String, AssessmentOutcome)>) -> (r: Result<AssessmentOutcome, AuthorityError>)
    ensures
        checks@.len() == 0 ==> r matches Err(AuthorityError::EmptyAssessmentChecks),
        checks@.len() > 0 && first_bad_check_name(check_views(checks@), 0) is Some ==> (r matches Err(
            AuthorityError::InvalidCheckName(n),
        ) && n@ == check_views(checks@)[first_bad_check_name(check_views(checks@), 0).unwrap()].0),
        checks@.len() > 0 && first_bad_check_name(check_views(checks@), 0) is None ==> r == Ok::<
            AssessmentOutcome,
            AuthorityError,
        >(combine_outcomes(check_views(checks@))),
{
    let ghost cv = check_views(checks@);
    if checks.len() == 0 {
        return Err(AuthorityError::EmptyAssessmentChecks);
    }
    let mut outcome = AssessmentOutcome::Passed;
    let mut i: usize = 0;
    while i < checks.len()
        invariant
            i <= checks.len(),
            cv == check_views(checks@),
            first_bad_check_name(cv, 0) == first_bad_check_name(cv, i as int),
            outcome == combine_outcomes(cv.subrange(0, i as int)),
        decreases checks.len() - i,
    {
        let name = &checks[i].0;
        let chars = chars_of(name.as_str());
        if chars.len() == 0 || !utf8_len_at_most(&chars, 256) || !is_trimmed_chars(&chars) || has_control_chars(&chars) {
            return Err(AuthorityError::InvalidCheckName(name.clone()));
        }
        let ghost prefix = cv.subrange(0, i + 1);
        assert(prefix.subrange(0, i as int) =~= cv.subrange(0, i as int));
        match checks[i].1 {
            AssessmentOutcome::Failed => {
                assert(prefix[i as int].1 == AssessmentOutcome::Failed);
                outcome = AssessmentOutcome::Failed;
            },
            AssessmentOutcome::Indeterminate => {
                assert(prefix[i as int].1 == AssessmentOutcome::Indeterminate);
                if outcome == AssessmentOutcome::Passed {
                    outcome = AssessmentOutcome::Indeterminate;
                }
            },
            AssessmentOutcome::Passed => {},
        }
        proof {
            let old_prefix = cv.subrange(0, i as int);
            if exists|k: int| 0 <= k < prefix.len() && #[trigger] prefix[k].1 == AssessmentOutcome::Failed {
                let k = choose|k: int| 0 <= k < prefix.len() && #[trigger] prefix[k].1 == AssessmentOutcome::Failed;
                if k < i {
                    assert(old_prefix[k].1 == AssessmentOutcome::Failed);
                }
            }
            if exists|k: int| 0 <= k < prefix.len() && #[trigger] prefix[k].1 == AssessmentOutcome::Indeterminate {
                let k = choose|k: int| 0 <= k < prefix.len() && #[trigger] prefix[k].1 == AssessmentOutcome::Indeterminate;
                if k < i {
                    assert(old_prefix[k].1 == AssessmentOutcome::Indeterminate);
                }
            }
            if exists|k: int| 0 <= k < old_prefix.len() && #[trigger] old_prefix[k].1 == AssessmentOutcome::Failed {
                let k = choose|k: int| 0 <= k < old_prefix.len() && #[trigger] old_prefix[k].1 == AssessmentOutcome::Failed;
                assert(prefix[k].1 == AssessmentOutcome::Failed);
            }
            if exists|k: int| 0 <= k < old_prefix.len() && #[trigger] old_prefix[k].1 == AssessmentOutcome::Indeterminate {
                let k = choose|k: int| 0 <= k < old_prefix.len() && #[trigger] old_prefix[k].1 == AssessmentOutcome::Indeterminate;
                assert(prefix[k].1 == AssessmentOutcome::Indeterminate);
            }
        }
        i = i + 1;
    }
    assert(cv.subrange(0, cv.len() as int) =~= cv);
    Ok(outcome)
}

/// The verdict a policy owes an assessment: withheld for a failed or
/// indeterminate outcome, withheld when the policy does not accept the
/// assessing authority, admitted otherwise.
pub open spec fn candidate_verdict(outcome: AssessmentOutcome, authority_accepted: bool) -> VerdictKind {
    match outcome {
        AssessmentOutcome::Failed => VerdictKind::Withhold(AdmissionDenial::AssessmentFailed),
        AssessmentOutcome::Indeterminate => VerdictKind::Withhold(AdmissionDenial::AssessmentIndeterminate),
        AssessmentOutcome::Passed => if authority_accepted {
            VerdictKind::Admit
        } else {
            VerdictKind::Withhold(AdmissionDenial::AuthorityNotAccepted)
        },
    }
}

pub fn expected_candidate_verdict(outcome: AssessmentOutcome, authority_accepted: bool) -> (r: VerdictKind)
    ensures
        r == candidate_verdict(outcome, authority_accepted),
{
    match outcome {
        AssessmentOutcome::Failed => VerdictKind::Withhold(AdmissionDenial::AssessmentFailed),
        AssessmentOutcome::Indeterminate => VerdictKind::Withhold(AdmissionDenial::AssessmentIndeterminate),
        AssessmentOutcome::Passed => if authority_accepted {
            VerdictKind::Admit
        } else {
            VerdictKind::Withhold(AdmissionDenial::AuthorityNotAccepted)
        },
    }
}

/// An observation is admitted exactly when the policy accepts its
/// observing authority.
pub fn expected_observation_verdict(authority_accepted: bool) -> (r: VerdictKind)
    ensures
        r == (if authority_accepted { VerdictKind::Admit } else { VerdictKind::Withhold(AdmissionDenial::AuthorityNotAccepted) }),
{
    if authority_accepted {
        VerdictKind::Admit
    } else {
        VerdictKind::Withhold(AdmissionDenial::AuthorityNotAccepted)
    }
}

/// A recorded verdict agrees with the expected one: both admit, or both
/// withhold for the same reason.
pub fn same_verdict_kind(actual: VerdictKind, expected: VerdictKind) -> (r: bool)
    ensures
        r == (actual == expected),
{
    match (actual, expected) {
        (VerdictKind::Admit, VerdictKind::Admit) => true,
        (VerdictKind::Withhold(a), VerdictKind::Withhold(b)) => a == b,
        _ => false,
    }
}

/// A candidate is admitted only when its assessment passed and the policy
/// accepts the assessing authority.
pub proof fn lemma_admit_needs_pass_and_acceptance(outcome: AssessmentOutcome, accepted: bool)
    ensures
        (candidate_verdict(outcome, accepted) == VerdictKind::Admit) <==> (outcome == AssessmentOutcome::Passed && accepted),
{
}

/// One failed check fails the whole assessment, and an assessment passes
/// only when every check passed.
pub proof fn lemma_outcome_is_worst_check(checks: Seq<(Seq<char>, AssessmentOutcome)>, i: int)
    requires
        0 <= i < checks.len(),
    ensures
        checks[i].1 == AssessmentOutcome::Failed ==> combine_outcomes(checks) == AssessmentOutcome::Failed,
        combine_outcomes(checks) == AssessmentOutcome::Passed ==> checks[i].1 == AssessmentOutcome::Passed,
{
}

/// The first extension key, in key order, that shadows a known field.
pub open spec fn first_shadowing_key(keys: Seq<Seq<char>>, reserved: Seq<Seq<char>>, i: int) -> Option<Seq<char>>
    decreases keys.len() - i,
{
    if i < 0 || i >= keys.len() {
        None
    } else if reserved.contains(keys[i]) {
        Some(keys[i])
    } else {
        first_shadowing_key(keys, reserved, i + 1)
    }
}

/// Refuses the first extension key that shadows a known field of the
/// document.
pub fn validate_extensions(scope: &str, extensions: &Vec<JsonMember>, reserved: &[&str]) -> (r: Result<(), AuthorityError>)
    ensures
        r is Ok <==> first_shadowing_key(key_views(extensions@), Seq::new(reserved@.len(), |i: int| reserved@[i]@), 0) is None,
        r matches Err(e) ==> e matches AuthorityError::ReservedExtension { scope: s, key } && s@ == scope@ && Some(key@)
            == first_shadowing_key(key_views(extensions@), Seq::new(reserved@.len(), |i: int| reserved@[i]@), 0),
{
    let ghost keys = key_views(extensions@);
    let ghost rv = Seq::new(reserved@.len(), |i: int| reserved@[i]@);
    let mut i: usize = 0;
    while i < extensions.len()
        invariant
            i <= extensions.len(),
            keys == key_views(extensions@),
            rv == Seq::new(reserved@.len(), |i: int| reserved@[i]@),
            first_shadowing_key(keys, rv, 0) == first_shadowing_key(keys, rv, i as int),
        decreases extensions.len() - i,
    {
        let key = &extensions[i].key;
        let mut j: usize = 0;
        let mut found = false;
        while j < reserved.len()
            invariant
                j <= reserved.len(),
                rv == Seq::new(reserved@.len(), |i: int| reserved@[i]@),
                found == exists|k: int| 0 <= k < j && rv[k] == key@,
            decreases reserved.len() - j,
        {
            if str_eq(reserved[j], key.as_str()) {
                assert(rv[j as int] == key@);
                found = true;
            }
            j = j + 1;
        }
        if found {
            assert(rv.contains(key@));
            return Err(AuthorityError::ReservedExtension { scope: owned(scope), key: key.clone() });
        }
        assert(!rv.contains(key@));
        i = i + 1;
    }
    Ok(())
}

/// One explicit link created by an atomic admission. Derived links keep
/// their output port; source links have none.
#[derive(Clone, Debug, PartialEq, Eq)]
pub struct AdmittedLink {
    pub port: Option<PortName>,
    pub reference: AdmittedFactRef,
}

} // verus!
