use gooir::failure::{FailureReason, FailureStage, HostFailure, FAILURE_PROTOCOL};
use gooir::journal::AttemptPhase;

fn digest(byte: u8) -> String {
    format!("sha256:{}", format!("{byte:02x}").repeat(32))
}

fn failure(stage: FailureStage, reason: FailureReason) -> HostFailure {
    HostFailure::new(stage, reason, Some(digest(7)), Some("provider exited with status 3".to_owned()))
}

#[test]
fn each_stage_fails_only_from_the_phase_that_runs_it() {
    let cases = [
        (AttemptPhase::Prepared, FailureStage::ProviderPreparation, FailureReason::PreparationRefused),
        (AttemptPhase::ProviderCaptured, FailureStage::ProviderExecution, FailureReason::ExecutionDidNotSucceed),
        (AttemptPhase::ProviderCaptured, FailureStage::ProviderResult, FailureReason::InvalidOutput),
        (AttemptPhase::ProviderCaptured, FailureStage::ProviderResult, FailureReason::SemanticUnable),
        (AttemptPhase::CandidateReady, FailureStage::AttesterPreparation, FailureReason::PreparationRefused),
        (AttemptPhase::AttesterCaptured, FailureStage::AttesterExecution, FailureReason::ExecutionDidNotSucceed),
        (AttemptPhase::AttesterCaptured, FailureStage::AttesterAssessment, FailureReason::InvalidOutput),
        (AttemptPhase::AttesterCaptured, FailureStage::AttesterAssessment, FailureReason::AuthoritySubstituted),
    ];
    for (phase, stage, reason) in cases {
        let f = failure(stage, reason);
        assert_eq!(f.protocol, FAILURE_PROTOCOL);
        assert_eq!(f.validate_for(phase), Ok(()));
    }
    assert_eq!(
        failure(FailureStage::ProviderExecution, FailureReason::ExecutionDidNotSucceed).validate_for(AttemptPhase::Prepared),
        Err("failure stage does not match its durable phase".to_owned())
    );
}

#[test]
fn a_failure_refuses_a_foreign_reason_digest_detail_or_protocol() {
    assert_eq!(
        failure(FailureStage::ProviderPreparation, FailureReason::InvalidOutput).validate_for(AttemptPhase::Prepared),
        Err("failure reason does not match its stage".to_owned())
    );
    let mut bad_digest = failure(FailureStage::ProviderPreparation, FailureReason::PreparationRefused);
    bad_digest.evidence_digest = Some("sha256:zz".to_owned());
    assert_eq!(
        bad_digest.validate_for(AttemptPhase::Prepared),
        Err("`sha256:zz` is not an exact SHA-256 identity".to_owned())
    );
    let mut no_digest = failure(FailureStage::ProviderPreparation, FailureReason::PreparationRefused);
    no_digest.evidence_digest = None;
    assert_eq!(no_digest.validate_for(AttemptPhase::Prepared), Ok(()));
    let mut empty_detail = failure(FailureStage::ProviderPreparation, FailureReason::PreparationRefused);
    empty_detail.detail = Some(String::new());
    assert_eq!(
        empty_detail.validate_for(AttemptPhase::Prepared),
        Err("external-host failure lacks bounded diagnostic detail".to_owned())
    );
    empty_detail.detail = None;
    assert!(empty_detail.validate_for(AttemptPhase::Prepared).is_err());
    let mut foreign = failure(FailureStage::ProviderPreparation, FailureReason::PreparationRefused);
    foreign.protocol = "org.gooi.proof.other/v1".to_owned();
    assert_eq!(
        foreign.validate_for(AttemptPhase::Prepared),
        Err("unsupported external-host failure protocol".to_owned())
    );
}
