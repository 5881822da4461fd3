//! The discrete vocabulary of phase-conditioned speculative decoding: which
//! side of the `</think>` boundary a verification step landed on, how a
//! boundary-spanning step is attributed, why a draft policy was chosen, and
//! the verdict on the phase-gap hypothesis.

use vstd::prelude::*;

use crate::error::{Error, Result};
use crate::types::ThinkPhase;

verus! {

/// Coarsening of [`ThinkPhase`] for the speculation path: only which side
/// of the `</think>` boundary a verification step landed on.
#[derive(Debug, Clone, Copy, PartialEq, Eq, Hash, Structural)]
pub enum SpeculationPhase {
    /// Prompt is still being consumed; no draft/verify cycles yet.
    Prefill,
    /// Inside the reasoning span.
    Think,
    /// Producing user-visible output.
    Output,
    /// Request has terminated.
    Complete,
}

/// The speculation phase of a router phase.
pub open spec fn speculation_phase_of(p: ThinkPhase) -> SpeculationPhase {
    match p {
        ThinkPhase::Prefill => SpeculationPhase::Prefill,
        ThinkPhase::ThinkDecode { .. } => SpeculationPhase::Think,
        ThinkPhase::OutputDecode { .. } => SpeculationPhase::Output,
        ThinkPhase::Complete => SpeculationPhase::Complete,
    }
}

/// The stable telemetry label of a speculation phase.
pub open spec fn speculation_label(p: SpeculationPhase) -> Seq<char> {
    match p {
        SpeculationPhase::Prefill => "prefill"@,
        SpeculationPhase::Think => "think"@,
        SpeculationPhase::Output => "output"@,
        SpeculationPhase::Complete => "complete"@,
    }
}

impl SpeculationPhase {
    /// Stable telemetry label.
    pub fn as_label(self) -> (label: &'static str)
        ensures
            label@ == speculation_label(self),
    {
        match self {
            SpeculationPhase::Prefill => "prefill",
            SpeculationPhase::Think => "think",
            SpeculationPhase::Output => "output",
            SpeculationPhase::Complete => "complete",
        }
    }

    /// `true` for the two phases that run draft/verify cycles.
    pub fn is_decoding(self) -> (b: bool)
        ensures
            b == (self is Think || self is Output),
    {
        match self {
            SpeculationPhase::Think | SpeculationPhase::Output => true,
            _ => false,
        }
    }
}

impl<'a> From<&'a ThinkPhase> for SpeculationPhase {
    fn from(phase: &'a ThinkPhase) -> (s: Self) {
        match phase {
            ThinkPhase::Prefill => SpeculationPhase::Prefill,
            ThinkPhase::ThinkDecode { .. } => SpeculationPhase::Think,
            ThinkPhase::OutputDecode { .. } => SpeculationPhase::Output,
            ThinkPhase::Complete => SpeculationPhase::Complete,
        }
    }
}

impl<'a> vstd::std_specs::convert::FromSpecImpl<&'a ThinkPhase> for SpeculationPhase {
    open spec fn obeys_from_spec() -> bool {
        true
    }

    open spec fn from_spec(phase: &'a ThinkPhase) -> Self {
        speculation_phase_of(*phase)
    }
}

/// Why the draft hook returned the proposal length it did.
#[derive(Debug, Clone, Copy, PartialEq, Eq, Hash, Structural)]
pub enum PolicyBasis {
    /// No entropy sample and no measurement: baseline returned untouched.
    Baseline,
    /// The request is not in a decoding phase; speculation does not apply.
    NotDecoding,
    /// The entropy ceiling justified a shallower draft.
    EntropyCeiling,
    /// A measured phase prior set the depth.
    MeasuredPrior,
    /// A measured prior, further capped by the entropy ceiling at this step.
    MeasuredPriorCappedByEntropy,
}

/// The stable telemetry label of a policy basis.
pub open spec fn policy_basis_label(b: PolicyBasis) -> Seq<char> {
    match b {
        PolicyBasis::Baseline => "baseline"@,
        PolicyBasis::NotDecoding => "not_decoding"@,
        PolicyBasis::EntropyCeiling => "entropy_ceiling"@,
        PolicyBasis::MeasuredPrior => "measured_prior"@,
        PolicyBasis::MeasuredPriorCappedByEntropy => "measured_prior_capped_by_entropy"@,
    }
}

impl PolicyBasis {
    /// Stable telemetry label.
    pub fn as_label(self) -> (label: &'static str)
        ensures
            label@ == policy_basis_label(self),
    {
        match self {
            PolicyBasis::Baseline => "baseline",
            PolicyBasis::NotDecoding => "not_decoding",
            PolicyBasis::EntropyCeiling => "entropy_ceiling",
            PolicyBasis::MeasuredPrior => "measured_prior",
            PolicyBasis::MeasuredPriorCappedByEntropy => "measured_prior_capped_by_entropy",
        }
    }

    /// `true` when the basis rests on measured data rather than a bound.
    pub fn is_measured(self) -> (b: bool)
        ensures
            b == (self is MeasuredPrior || self is MeasuredPriorCappedByEntropy),
    {
        match self {
            PolicyBasis::MeasuredPrior | PolicyBasis::MeasuredPriorCappedByEntropy => true,
            _ => false,
        }
    }
}

/// One verification step, as the speculative-decoding harness reports it.
#[derive(Debug, Clone, Copy, PartialEq, Eq, Structural)]
pub struct AcceptanceObservation {
    /// Which side of the `</think>` boundary the committed span landed on.
    pub phase: SpeculationPhase,
    /// Tokens committed by this step, including the bonus token.
    pub accepted_length: u32,
    /// Tokens the drafter proposed for this step.
    pub proposal_length: u32,
    /// `true` when the committed span contains the phase boundary itself.
    pub straddles_boundary: bool,
}

impl AcceptanceObservation {
    /// A step wholly inside one phase.
    pub fn new(phase: SpeculationPhase, accepted_length: u32, proposal_length: u32) -> (o: Self)
        ensures
            o == (AcceptanceObservation { phase, accepted_length, proposal_length, straddles_boundary: false }),
    {
        AcceptanceObservation { phase, accepted_length, proposal_length, straddles_boundary: false }
    }

    /// A step whose committed span crosses the `</think>` boundary; its phase
    /// is nominally `Think`, and the straddle policy decides its attribution.
    pub fn straddling(accepted_length: u32, proposal_length: u32) -> (o: Self)
        ensures
            o == (AcceptanceObservation {
                phase: SpeculationPhase::Think,
                accepted_length,
                proposal_length,
                straddles_boundary: true,
            }),
    {
        AcceptanceObservation {
            phase: SpeculationPhase::Think,
            accepted_length,
            proposal_length,
            straddles_boundary: true,
        }
    }
}

/// How to attribute a verification step that spans the phase boundary.
#[derive(Debug, Clone, Copy, PartialEq, Eq, Structural)]
pub enum StraddlePolicy {
    /// Drop the step from both phases (the default).
    Exclude,
    /// Count it as a think-phase step.
    AttributeToThink,
    /// Count it as an output-phase step.
    AttributeToOutput,
}

impl Default for StraddlePolicy {
    /// `Exclude`: a straddling step biases neither arm.
    fn default() -> (p: Self)
        ensures
            p == StraddlePolicy::Exclude,
    {
        StraddlePolicy::Exclude
    }
}

/// The stable telemetry label of a straddle policy.
pub open spec fn straddle_label(p: StraddlePolicy) -> Seq<char> {
    match p {
        StraddlePolicy::Exclude => "exclude"@,
        StraddlePolicy::AttributeToThink => "attribute_to_think"@,
        StraddlePolicy::AttributeToOutput => "attribute_to_output"@,
    }
}

impl StraddlePolicy {
    /// Stable telemetry label.
    pub fn as_label(self) -> (label: &'static str)
        ensures
            label@ == straddle_label(self),
    {
        match self {
            StraddlePolicy::Exclude => "exclude",
            StraddlePolicy::AttributeToThink => "attribute_to_think",
            StraddlePolicy::AttributeToOutput => "attribute_to_output",
        }
    }
}

/// The verdict on the phase-gap hypothesis.
#[derive(Debug, Clone, Copy, PartialEq, Eq, Structural)]
pub enum HypothesisVerdict {
    /// Think-phase accepted length is lower, the interval excludes zero, and
    /// the gap exceeds the between-domain baseline.
    Supported,
    /// A resolvable gap in the predicted direction, but smaller than the
    /// variation already seen between task domains.
    WithinDomainVariation,
    /// The interval includes zero: no resolvable gap.
    NoResolvableGap,
    /// A resolvable gap in the opposite direction to the prediction.
    OppositeDirection,
    /// Not enough data on one or both arms to compute the statistic.
    InsufficientData,
}

/// The stable telemetry label of a verdict.
pub open spec fn verdict_label(v: HypothesisVerdict) -> Seq<char> {
    match v {
        HypothesisVerdict::Supported => "supported"@,
        HypothesisVerdict::WithinDomainVariation => "within_domain_variation"@,
        HypothesisVerdict::NoResolvableGap => "no_resolvable_gap"@,
        HypothesisVerdict::OppositeDirection => "opposite_direction"@,
        HypothesisVerdict::InsufficientData => "insufficient_data"@,
    }
}

impl HypothesisVerdict {
    /// Stable telemetry label.
    pub fn as_label(self) -> (label: &'static str)
        ensures
            label@ == verdict_label(self),
    {
        match self {
            HypothesisVerdict::Supported => "supported",
            HypothesisVerdict::WithinDomainVariation => "within_domain_variation",
            HypothesisVerdict::NoResolvableGap => "no_resolvable_gap",
            HypothesisVerdict::OppositeDirection => "opposite_direction",
            HypothesisVerdict::InsufficientData => "insufficient_data",
        }
    }
}

/// The proposal length and basis the draft hook settles on, once the
/// floating-point work is done: whether a measured prior exists for the
/// phase, whether an entropy ceiling was computed, whether that ceiling lies
/// below the prior, and the throughput-optimal length for the acceptance
/// rate so chosen. A phase that does not decode, or one with neither a prior
/// nor a ceiling, keeps the baseline. Without a measurement (`calibrated`
/// false) the hook may only shrink the proposal.
pub fn decide_policy(
    phase: SpeculationPhase,
    baseline: u32,
    calibrated: bool,
    has_prior: bool,
    has_ceiling: bool,
    ceiling_below_prior: bool,
    optimal: u32,
) -> (r: (u32, PolicyBasis))
    ensures
        !(phase is Think || phase is Output) ==> r == (baseline, PolicyBasis::NotDecoding),
        (phase is Think || phase is Output) && !has_prior && !has_ceiling ==> r == (baseline, PolicyBasis::Baseline),
        (phase is Think || phase is Output) && has_prior && has_ceiling && ceiling_below_prior
            ==> r.1 == PolicyBasis::MeasuredPriorCappedByEntropy,
        (phase is Think || phase is Output) && has_prior && !(has_ceiling && ceiling_below_prior)
            ==> r.1 == PolicyBasis::MeasuredPrior,
        (phase is Think || phase is Output) && !has_prior && has_ceiling ==> r.1 == PolicyBasis::EntropyCeiling,
        (phase is Think || phase is Output) && (has_prior || has_ceiling) ==> r.0 == (if calibrated {
            optimal
        } else if optimal < baseline {
            optimal
        } else {
            baseline
        }),
        !calibrated ==> r.0 <= baseline,
{
    if !phase.is_decoding() {
        return (baseline, PolicyBasis::NotDecoding);
    }
    let basis = if has_prior && has_ceiling && ceiling_below_prior {
        PolicyBasis::MeasuredPriorCappedByEntropy
    } else if has_prior {
        PolicyBasis::MeasuredPrior
    } else if has_ceiling {
        PolicyBasis::EntropyCeiling
    } else {
        return (baseline, PolicyBasis::Baseline);
    };
    let proposal_len = if calibrated {
        optimal
    } else if optimal < baseline {
        optimal
    } else {
        baseline
    };
    (proposal_len, basis)
}

/// Checks the integer bounds of the draft hook's configuration: the minimum
/// proposal length is at most the maximum, the baseline lies between them,
/// and the vocabulary has at least two tokens; checked in that order.
pub fn check_proposal_bounds(min_len: u32, max_len: u32, baseline: u32, vocab_size: u32) -> (r: Result<()>)
    ensures
        r is Ok <==> (min_len <= max_len && min_len <= baseline <= max_len && vocab_size >= 2),
        min_len > max_len ==> (r matches Err(Error::ConfigValidation { field, reason })
            && field@ == "speculation.min_proposal_len"@
            && reason@ == "must be <= speculation.max_proposal_len"@),
        min_len <= max_len && !(min_len <= baseline <= max_len) ==> (r matches Err(
            Error::ConfigValidation { field, reason },
        ) && field@ == "speculation.baseline_proposal_len"@
            && reason@ == "must lie within [min_proposal_len, max_proposal_len]"@),
        min_len <= baseline <= max_len && vocab_size < 2 ==> (r matches Err(Error::ConfigValidation { field, reason })
            && field@ == "speculation.vocab_size"@ && reason@ == "must be >= 2"@),
{
    if min_len > max_len {
        return Err(
            Error::ConfigValidation {
                field: "speculation.min_proposal_len",
                reason: "must be <= speculation.max_proposal_len".to_owned(),
            },
        );
    }
    if baseline > max_len || baseline < min_len {
        return Err(
            Error::ConfigValidation {
                field: "speculation.baseline_proposal_len",
                reason: "must lie within [min_proposal_len, max_proposal_len]".to_owned(),
            },
        );
    }
    if vocab_size < 2 {
        return Err(Error::ConfigValidation { field: "speculation.vocab_size", reason: "must be >= 2".to_owned() });
    }
    Ok(())
}

/// The arm a verification step is recorded in, if any. A step that spans
/// the phase boundary goes where the straddle policy sends it (nowhere under
/// `Exclude`); any other step goes to its own phase. Only the two decoding
/// phases have arms: a step attributed elsewhere is discarded.
pub fn attribute_step(obs: AcceptanceObservation, policy: StraddlePolicy) -> (arm: Option<SpeculationPhase>)
    ensures
        obs.straddles_boundary && policy is Exclude ==> arm is None,
        obs.straddles_boundary && policy is AttributeToThink ==> arm == Some(SpeculationPhase::Think),
        obs.straddles_boundary && policy is AttributeToOutput ==> arm == Some(SpeculationPhase::Output),
        !obs.straddles_boundary ==> arm == (if obs.phase is Think || obs.phase is Output {
            Some(obs.phase)
        } else {
            None
        }),
{
    let phase = if obs.straddles_boundary {
        match policy {
            StraddlePolicy::Exclude => {
                return None;
            },
            StraddlePolicy::AttributeToThink => SpeculationPhase::Think,
            StraddlePolicy::AttributeToOutput => SpeculationPhase::Output,
        }
    } else {
        obs.phase
    };
    match phase {
        SpeculationPhase::Think | SpeculationPhase::Output => Some(phase),
        _ => None,
    }
}

/// Whether two ledgers may be merged: their provenance must match, and then
/// their straddle policies; a provenance mismatch is reported first. The
/// labels name the ledger merged into (`left`) and the one merged from.
pub fn check_merge(
    provenance_matches: bool,
    left_provenance: &'static str,
    right_provenance: &'static str,
    left_policy: StraddlePolicy,
    right_policy: StraddlePolicy,
) -> (r: Result<()>)
    ensures
        r is Ok <==> provenance_matches && left_policy == right_policy,
        !provenance_matches ==> (r matches Err(Error::ProvenanceMismatch { left, right })
            && left == left_provenance && right == right_provenance),
        provenance_matches && left_policy != right_policy ==> (r matches Err(Error::StraddlePolicyMismatch { left, right })
            && left@ == straddle_label(left_policy) && right@ == straddle_label(right_policy)),
{
    if !provenance_matches {
        return Err(Error::ProvenanceMismatch { left: left_provenance, right: right_provenance });
    }
    let same = match (left_policy, right_policy) {
        (StraddlePolicy::Exclude, StraddlePolicy::Exclude) => true,
        (StraddlePolicy::AttributeToThink, StraddlePolicy::AttributeToThink) => true,
        (StraddlePolicy::AttributeToOutput, StraddlePolicy::AttributeToOutput) => true,
        _ => false,
    };
    if !same {
        return Err(Error::StraddlePolicyMismatch { left: left_policy.as_label(), right: right_policy.as_label() });
    }
    Ok(())
}

/// Whether a comparison may be turned into a measured result: data from a
/// named fixture is refused first (a fixture can never become a
/// measurement), then a comparison with no statistic.
pub fn claim_gate(synthetic_fixture: Option<String>, has_statistic: bool) -> (r: Result<()>)
    ensures
        r is Ok <==> synthetic_fixture is None && has_statistic,
        synthetic_fixture matches Some(f) ==> (r matches Err(Error::SyntheticProvenance { fixture })
            && fixture@ == f@),
        synthetic_fixture is None && !has_statistic ==> (r matches Err(Error::InsufficientObservations { phase })
            && phase@ == "think|output"@),
{
    match synthetic_fixture {
        Some(fixture) => Err(Error::SyntheticProvenance { fixture }),
        None => if has_statistic {
            Ok(())
        } else {
            Err(Error::InsufficientObservations { phase: "think|output" })
        },
    }
}

/// The verdict on the phase-gap hypothesis from the comparison's outcome:
/// no statistic is insufficient data; an interval containing zero is no
/// resolvable gap; a think-minus-output difference above zero is the
/// opposite direction; a gap no larger than the between-domain variation is
/// within that variation; otherwise the hypothesis is supported.
pub fn verdict_of(
    has_statistic: bool,
    interval_excludes_zero: bool,
    difference_positive: bool,
    within_domain_variation: bool,
) -> (v: HypothesisVerdict)
    ensures
        !has_statistic ==> v == HypothesisVerdict::InsufficientData,
        has_statistic && !interval_excludes_zero ==> v == HypothesisVerdict::NoResolvableGap,
        has_statistic && interval_excludes_zero && difference_positive ==> v == HypothesisVerdict::OppositeDirection,
        has_statistic && interval_excludes_zero && !difference_positive && within_domain_variation
            ==> v == HypothesisVerdict::WithinDomainVariation,
        has_statistic && interval_excludes_zero && !difference_positive && !within_domain_variation
            ==> v == HypothesisVerdict::Supported,
{
    if !has_statistic {
        HypothesisVerdict::InsufficientData
    } else if !interval_excludes_zero {
        HypothesisVerdict::NoResolvableGap
    } else if difference_positive {
        HypothesisVerdict::OppositeDirection
    } else if within_domain_variation {
        HypothesisVerdict::WithinDomainVariation
    } else {
        HypothesisVerdict::Supported
    }
}

} // verus!
