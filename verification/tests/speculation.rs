//! The speculation vocabulary: phases, policy bases, straddle policies,
//! verdicts and observations.

use meridian::error::Error;
use meridian::speculation::{
    attribute_step, check_merge, check_proposal_bounds, claim_gate, decide_policy, verdict_of,
    AcceptanceObservation, HypothesisVerdict, PolicyBasis, SpeculationPhase, StraddlePolicy,
};
use meridian::types::ThinkPhase;

#[test]
fn think_phase_maps_from_the_router_state_machine() {
    assert_eq!(SpeculationPhase::from(&ThinkPhase::Prefill), SpeculationPhase::Prefill);
    assert_eq!(
        SpeculationPhase::from(&ThinkPhase::ThinkDecode {
            tokens_so_far: 12,
            force_in_progress: false,
        }),
        SpeculationPhase::Think,
    );
    assert_eq!(
        SpeculationPhase::from(&ThinkPhase::OutputDecode { think_tokens_used: 12 }),
        SpeculationPhase::Output,
    );
    assert_eq!(SpeculationPhase::from(&ThinkPhase::Complete), SpeculationPhase::Complete);
}

#[test]
fn only_decode_phases_run_speculation() {
    assert!(SpeculationPhase::Think.is_decoding());
    assert!(SpeculationPhase::Output.is_decoding());
    assert!(!SpeculationPhase::Prefill.is_decoding());
    assert!(!SpeculationPhase::Complete.is_decoding());
}

#[test]
fn default_straddle_policy_is_exclude() {
    assert_eq!(StraddlePolicy::default(), StraddlePolicy::Exclude);
}

#[test]
fn labels_are_stable() {
    assert_eq!(SpeculationPhase::Prefill.as_label(), "prefill");
    assert_eq!(SpeculationPhase::Think.as_label(), "think");
    assert_eq!(SpeculationPhase::Output.as_label(), "output");
    assert_eq!(SpeculationPhase::Complete.as_label(), "complete");
    assert_eq!(StraddlePolicy::Exclude.as_label(), "exclude");
    assert_eq!(StraddlePolicy::AttributeToThink.as_label(), "attribute_to_think");
    assert_eq!(StraddlePolicy::AttributeToOutput.as_label(), "attribute_to_output");
    assert_eq!(PolicyBasis::Baseline.as_label(), "baseline");
    assert_eq!(PolicyBasis::NotDecoding.as_label(), "not_decoding");
    assert_eq!(PolicyBasis::EntropyCeiling.as_label(), "entropy_ceiling");
    assert_eq!(PolicyBasis::MeasuredPrior.as_label(), "measured_prior");
    assert_eq!(
        PolicyBasis::MeasuredPriorCappedByEntropy.as_label(),
        "measured_prior_capped_by_entropy"
    );
    assert_eq!(HypothesisVerdict::Supported.as_label(), "supported");
    assert_eq!(HypothesisVerdict::WithinDomainVariation.as_label(), "within_domain_variation");
    assert_eq!(HypothesisVerdict::NoResolvableGap.as_label(), "no_resolvable_gap");
    assert_eq!(HypothesisVerdict::OppositeDirection.as_label(), "opposite_direction");
    assert_eq!(HypothesisVerdict::InsufficientData.as_label(), "insufficient_data");
}

#[test]
fn only_measured_bases_are_measured() {
    assert!(PolicyBasis::MeasuredPrior.is_measured());
    assert!(PolicyBasis::MeasuredPriorCappedByEntropy.is_measured());
    assert!(!PolicyBasis::Baseline.is_measured());
    assert!(!PolicyBasis::NotDecoding.is_measured());
    assert!(!PolicyBasis::EntropyCeiling.is_measured());
}

#[test]
fn observations_record_their_boundary() {
    let inside = AcceptanceObservation::new(SpeculationPhase::Output, 6, 7);
    assert_eq!(inside.phase, SpeculationPhase::Output);
    assert_eq!(inside.accepted_length, 6);
    assert_eq!(inside.proposal_length, 7);
    assert!(!inside.straddles_boundary);
    let across = AcceptanceObservation::straddling(3, 7);
    assert_eq!(across.phase, SpeculationPhase::Think);
    assert!(across.straddles_boundary);
}

#[test]
fn decide_keeps_the_baseline_outside_decoding() {
    for phase in [SpeculationPhase::Prefill, SpeculationPhase::Complete] {
        assert_eq!(decide_policy(phase, 7, true, true, true, true, 2), (7, PolicyBasis::NotDecoding));
    }
}

#[test]
fn decide_without_prior_or_ceiling_keeps_the_baseline() {
    assert_eq!(
        decide_policy(SpeculationPhase::Think, 7, false, false, false, false, 16),
        (7, PolicyBasis::Baseline)
    );
}

#[test]
fn decide_without_measurement_only_shrinks() {
    for phase in [SpeculationPhase::Think, SpeculationPhase::Output] {
        for optimal in 1..=16 {
            let (len, basis) = decide_policy(phase, 4, false, false, true, false, optimal);
            assert!(len <= 4, "optimal {optimal} gave {len}");
            assert_eq!(len, optimal.min(4));
            assert_eq!(basis, PolicyBasis::EntropyCeiling);
        }
    }
}

#[test]
fn decide_with_measurement_takes_the_optimum() {
    assert_eq!(
        decide_policy(SpeculationPhase::Output, 4, true, true, false, false, 9),
        (9, PolicyBasis::MeasuredPrior)
    );
    assert_eq!(
        decide_policy(SpeculationPhase::Think, 4, true, true, true, false, 6),
        (6, PolicyBasis::MeasuredPrior)
    );
    assert_eq!(
        decide_policy(SpeculationPhase::Think, 4, true, true, true, true, 2),
        (2, PolicyBasis::MeasuredPriorCappedByEntropy)
    );
}

#[test]
fn proposal_bounds_are_checked_in_order() {
    assert!(check_proposal_bounds(1, 7, 7, 151_936).is_ok());
    match check_proposal_bounds(8, 7, 7, 1) {
        Err(Error::ConfigValidation { field, .. }) => assert_eq!(field, "speculation.min_proposal_len"),
        other => panic!("expected min error, got {other:?}"),
    }
    match check_proposal_bounds(1, 7, 9, 1) {
        Err(Error::ConfigValidation { field, .. }) => assert_eq!(field, "speculation.baseline_proposal_len"),
        other => panic!("expected baseline error, got {other:?}"),
    }
    match check_proposal_bounds(1, 7, 4, 1) {
        Err(Error::ConfigValidation { field, reason }) => {
            assert_eq!(field, "speculation.vocab_size");
            assert_eq!(reason, "must be >= 2");
        }
        other => panic!("expected vocab error, got {other:?}"),
    }
}

#[test]
fn steps_are_attributed_by_phase_and_straddle_policy() {
    let think = AcceptanceObservation::new(SpeculationPhase::Think, 3, 7);
    let output = AcceptanceObservation::new(SpeculationPhase::Output, 6, 7);
    let prefill = AcceptanceObservation::new(SpeculationPhase::Prefill, 1, 7);
    let across = AcceptanceObservation::straddling(4, 7);
    for policy in [StraddlePolicy::Exclude, StraddlePolicy::AttributeToThink, StraddlePolicy::AttributeToOutput] {
        assert_eq!(attribute_step(think, policy), Some(SpeculationPhase::Think));
        assert_eq!(attribute_step(output, policy), Some(SpeculationPhase::Output));
        assert_eq!(attribute_step(prefill, policy), None);
    }
    assert_eq!(attribute_step(across, StraddlePolicy::Exclude), None);
    assert_eq!(attribute_step(across, StraddlePolicy::AttributeToThink), Some(SpeculationPhase::Think));
    assert_eq!(attribute_step(across, StraddlePolicy::AttributeToOutput), Some(SpeculationPhase::Output));
}

#[test]
fn merge_refuses_provenance_before_policy() {
    assert!(check_merge(true, "measured", "measured", StraddlePolicy::Exclude, StraddlePolicy::Exclude).is_ok());
    match check_merge(false, "measured", "synthetic", StraddlePolicy::Exclude, StraddlePolicy::AttributeToThink) {
        Err(Error::ProvenanceMismatch { left, right }) => {
            assert_eq!(left, "measured");
            assert_eq!(right, "synthetic");
        }
        other => panic!("expected provenance mismatch, got {other:?}"),
    }
    match check_merge(true, "synthetic", "synthetic", StraddlePolicy::Exclude, StraddlePolicy::AttributeToOutput) {
        Err(Error::StraddlePolicyMismatch { left, right }) => {
            assert_eq!(left, "exclude");
            assert_eq!(right, "attribute_to_output");
        }
        other => panic!("expected policy mismatch, got {other:?}"),
    }
}

#[test]
fn claims_refuse_synthetic_data_before_thin_data() {
    match claim_gate(Some("clean_boundary".to_string()), false) {
        Err(Error::SyntheticProvenance { fixture }) => assert_eq!(fixture, "clean_boundary"),
        other => panic!("expected synthetic refusal, got {other:?}"),
    }
    match claim_gate(None, false) {
        Err(Error::InsufficientObservations { phase }) => assert_eq!(phase, "think|output"),
        other => panic!("expected insufficient data, got {other:?}"),
    }
    assert!(claim_gate(None, true).is_ok());
}

#[test]
fn verdicts_follow_the_decision_order() {
    assert_eq!(verdict_of(false, true, false, false), HypothesisVerdict::InsufficientData);
    assert_eq!(verdict_of(true, false, true, true), HypothesisVerdict::NoResolvableGap);
    assert_eq!(verdict_of(true, true, true, true), HypothesisVerdict::OppositeDirection);
    assert_eq!(verdict_of(true, true, false, true), HypothesisVerdict::WithinDomainVariation);
    assert_eq!(verdict_of(true, true, false, false), HypothesisVerdict::Supported);
}
