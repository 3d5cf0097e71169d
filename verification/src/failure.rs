//! The durable record of why an external attempt could not complete: which
//! stage failed, for which reason, and the evidence and detail it keeps.

use vstd::prelude::*;
use crate::identity::{is_sha256_identity, is_sha256_text};
use crate::journal::AttemptPhase;
use crate::text::owned;

verus! {

/// The protocol of an external-host failure document.
pub const FAILURE_PROTOCOL: &'static str = "org.gooi.proof.data-model-external-host-failure/v1";

/// The stage of an attempt that failed.
#[derive(Clone, Copy, Debug, PartialEq, Eq, Structural)]
pub enum FailureStage {
    ProviderPreparation,
    ProviderExecution,
    ProviderResult,
    AttesterPreparation,
    AttesterExecution,
    AttesterAssessment,
}

/// Why a stage failed.
#[derive(Clone, Copy, Debug, PartialEq, Eq, Structural)]
pub enum FailureReason {
    PreparationRefused,
    ExecutionDidNotSucceed,
    InvalidOutput,
    SemanticUnable,
    AuthoritySubstituted,
}

/// One failure of an external attempt, kept as its unable resolution.
#[derive(Clone, Debug)]
pub struct HostFailure {
    pub protocol: String,
    pub stage: FailureStage,
    pub reason: FailureReason,
    pub evidence_digest: Option<String>,
    pub detail: Option<String>,
}

/// A stage can fail only from the durable phase that runs it: preparing
/// the provider from `Prepared`, running it or reading its result from
/// `ProviderCaptured`, preparing the attester from `CandidateReady`, and
/// running it or reading its assessment from `AttesterCaptured`.
pub open spec fn stage_fits(phase: AttemptPhase, stage: FailureStage) -> bool {
    match (phase, stage) {
        (AttemptPhase::Prepared, FailureStage::ProviderPreparation) => true,
        (AttemptPhase::ProviderCaptured, FailureStage::ProviderExecution) => true,
        (AttemptPhase::ProviderCaptured, FailureStage::ProviderResult) => true,
        (AttemptPhase::CandidateReady, FailureStage::AttesterPreparation) => true,
        (AttemptPhase::AttesterCaptured, FailureStage::AttesterExecution) => true,
        (AttemptPhase::AttesterCaptured, FailureStage::AttesterAssessment) => true,
        _ => false,
    }
}

/// The reasons each stage can give: preparation is refused, execution
/// does not succeed, a result is invalid or semantically unable, and an
/// assessment is invalid or substitutes its authority.
pub open spec fn reason_fits(stage: FailureStage, reason: FailureReason) -> bool {
    match (stage, reason) {
        (FailureStage::ProviderPreparation, FailureReason::PreparationRefused) => true,
        (FailureStage::AttesterPreparation, FailureReason::PreparationRefused) => true,
        (FailureStage::ProviderExecution, FailureReason::ExecutionDidNotSucceed) => true,
        (FailureStage::AttesterExecution, FailureReason::ExecutionDidNotSucceed) => true,
        (FailureStage::ProviderResult, FailureReason::InvalidOutput) => true,
        (FailureStage::ProviderResult, FailureReason::SemanticUnable) => true,
        (FailureStage::AttesterAssessment, FailureReason::InvalidOutput) => true,
        (FailureStage::AttesterAssessment, FailureReason::AuthoritySubstituted) => true,
        _ => false,
    }
}

/// Why a failure cannot stand as the resolution of an attempt left in
/// `phase`, or nothing: its protocol, a stage the phase does not run, a
/// reason the stage cannot give, an evidence digest that is not an exact
/// SHA-256 identity, or a missing or empty detail.
pub open spec fn failure_fault(f: HostFailure, phase: AttemptPhase) -> Option<Seq<char>> {
    if f.protocol@ != FAILURE_PROTOCOL@ {
        Some("unsupported external-host failure protocol"@)
    } else if !stage_fits(phase, f.stage) {
        Some("failure stage does not match its durable phase"@)
    } else if !reason_fits(f.stage, f.reason) {
        Some("failure reason does not match its stage"@)
    } else if f.evidence_digest matches Some(d) && !is_sha256_text(d@) {
        Some("`"@ + f.evidence_digest.unwrap()@ + "` is not an exact SHA-256 identity"@)
    } else if f.detail is None || f.detail.unwrap()@.len() == 0 {
        Some("external-host failure lacks bounded diagnostic detail"@)
    } else {
        None
    }
}

fn phase_runs(phase: AttemptPhase, stage: FailureStage) -> (r: bool)
    ensures
        r == stage_fits(phase, stage),
{
    match (phase, stage) {
        (AttemptPhase::Prepared, FailureStage::ProviderPreparation) => true,
        (AttemptPhase::ProviderCaptured, FailureStage::ProviderExecution) => true,
        (AttemptPhase::ProviderCaptured, FailureStage::ProviderResult) => true,
        (AttemptPhase::CandidateReady, FailureStage::AttesterPreparation) => true,
        (AttemptPhase::AttesterCaptured, FailureStage::AttesterExecution) => true,
        (AttemptPhase::AttesterCaptured, FailureStage::AttesterAssessment) => true,
        _ => false,
    }
}

fn stage_gives(stage: FailureStage, reason: FailureReason) -> (r: bool)
    ensures
        r == reason_fits(stage, reason),
{
    match (stage, reason) {
        (FailureStage::ProviderPreparation, FailureReason::PreparationRefused) => true,
        (FailureStage::AttesterPreparation, FailureReason::PreparationRefused) => true,
        (FailureStage::ProviderExecution, FailureReason::ExecutionDidNotSucceed) => true,
        (FailureStage::AttesterExecution, FailureReason::ExecutionDidNotSucceed) => true,
        (FailureStage::ProviderResult, FailureReason::InvalidOutput) => true,
        (FailureStage::ProviderResult, FailureReason::SemanticUnable) => true,
        (FailureStage::AttesterAssessment, FailureReason::InvalidOutput) => true,
        (FailureStage::AttesterAssessment, FailureReason::AuthoritySubstituted) => true,
        _ => false,
    }
}

impl HostFailure {
    /// A failure of the current protocol.
    pub fn new(stage: FailureStage, reason: FailureReason, evidence_digest: Option<String>, detail: Option<String>) -> (r:
        Self)
        ensures
            r.protocol@ == FAILURE_PROTOCOL@,
            r.stage == stage,
            r.reason == reason,
            r.evidence_digest == evidence_digest,
            r.detail == detail,
    {
        HostFailure { protocol: owned(FAILURE_PROTOCOL), stage, reason, evidence_digest, detail }
    }

    /// Checks that this failure can stand as the resolution of an attempt
    /// left in `phase`; a refusal carries its message.
    pub fn validate_for(&self, phase: AttemptPhase) -> (r: Result<(), String>)
        ensures
            r is Ok <==> failure_fault(*self, phase) is None,
            r matches Err(m) ==> failure_fault(*self, phase) == Some(m@),
    {
        if !crate::text::str_eq(self.protocol.as_str(), FAILURE_PROTOCOL) {
            return Err(owned("unsupported external-host failure protocol"));
        }
        if !phase_runs(phase, self.stage) {
            return Err(owned("failure stage does not match its durable phase"));
        }
        if !stage_gives(self.stage, self.reason) {
            return Err(owned("failure reason does not match its stage"));
        }
        if let Some(digest) = &self.evidence_digest {
            if !is_sha256_identity(digest.as_str()) {
                let mut m = owned("`");
                m.append(digest.as_str());
                m.append("` is not an exact SHA-256 identity");
                return Err(m);
            }
        }
        match &self.detail {
            None => {
                return Err(owned("external-host failure lacks bounded diagnostic detail"));
            },
            Some(d) => {
                if crate::text::chars_of(d.as_str()).len() == 0 {
                    return Err(owned("external-host failure lacks bounded diagnostic detail"));
                }
            },
        }
        Ok(())
    }
}

} // verus!
