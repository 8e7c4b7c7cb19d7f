//! Verbosity levels of decision explanations and which parts of an
//! explanation each level includes.
use crate::confidence_viz::{CalibrationStatus, ConfidenceBadge, GateStatus, SafetyBadge};
use vstd::prelude::*;

verus! {

/// Explanation verbosity level, from least to most detailed.
#[derive(Debug, Clone, Copy, PartialEq, Eq, PartialOrd, Ord, Structural)]
pub enum ExplanationVerbosity {
    /// Just summary and recommendation.
    Brief,
    /// Summary, evidence breakdown, counterfactuals.
    Normal,
    /// Everything including confidence analysis.
    Verbose,
    /// Full mathematical derivation.
    GalaxyBrain,
}

/// Rank of a verbosity level (0 = brief).
pub open spec fn verbosity_rank(v: ExplanationVerbosity) -> nat {
    match v {
        ExplanationVerbosity::Brief => 0,
        ExplanationVerbosity::Normal => 1,
        ExplanationVerbosity::Verbose => 2,
        ExplanationVerbosity::GalaxyBrain => 3,
    }
}

impl ExplanationVerbosity {
    /// Rank of the level, in declaration order.
    pub fn rank(&self) -> (r: u8)
        ensures
            r == verbosity_rank(*self),
    {
        match self {
            ExplanationVerbosity::Brief => 0,
            ExplanationVerbosity::Normal => 1,
            ExplanationVerbosity::Verbose => 2,
            ExplanationVerbosity::GalaxyBrain => 3,
        }
    }
}

/// Confidence analysis section.
#[derive(Debug, Clone, Copy)]
pub struct ConfidenceAnalysis {
    pub confidence_badge: ConfidenceBadge,
    pub safety_badge: SafetyBadge,
    pub calibration: CalibrationStatus,
    pub gate_status: GateStatus,
    pub knife_edge: bool,
}

/// Configuration for explanation API.
#[derive(Debug, Clone, Copy)]
pub struct ExplainApiConfig {
    pub verbosity: ExplanationVerbosity,
    pub max_evidence_factors: usize,
    pub max_counterfactuals: usize,
}

impl Default for ExplainApiConfig {
    fn default() -> (c: Self)
        ensures
            c.verbosity == ExplanationVerbosity::Normal,
            c.max_evidence_factors == 10,
            c.max_counterfactuals == 5,
    {
        ExplainApiConfig {
            verbosity: ExplanationVerbosity::Normal,
            max_evidence_factors: 10,
            max_counterfactuals: 5,
        }
    }
}

/// Which optional parts an explanation holds.
#[derive(Debug, Clone, Copy, PartialEq, Eq, Structural)]
pub struct ExplanationSections {
    /// Detail text, evidence breakdown, contributing and countervailing
    /// factors, and counterfactuals.
    pub detail: bool,
    /// Confidence analysis.
    pub confidence_analysis: bool,
    /// Mathematical trace.
    pub math_trace: bool,
}

/// Normal and above add the detail parts, verbose and above the confidence
/// analysis, and galaxy-brain the mathematical trace.
pub open spec fn sections_spec(v: ExplanationVerbosity) -> ExplanationSections {
    ExplanationSections {
        detail: verbosity_rank(v) >= 1,
        confidence_analysis: verbosity_rank(v) >= 2,
        math_trace: verbosity_rank(v) >= 3,
    }
}

impl ExplanationSections {
    /// The parts included at a verbosity level.
    pub fn for_verbosity(v: ExplanationVerbosity) -> (s: ExplanationSections)
        ensures
            s == sections_spec(v),
            v == ExplanationVerbosity::Brief ==> !s.detail && !s.confidence_analysis
                && !s.math_trace,
            v == ExplanationVerbosity::Normal ==> s.detail && !s.confidence_analysis
                && !s.math_trace,
            v == ExplanationVerbosity::Verbose ==> s.detail && s.confidence_analysis
                && !s.math_trace,
            v == ExplanationVerbosity::GalaxyBrain ==> s.detail && s.confidence_analysis
                && s.math_trace,
    {
        let r = v.rank();
        ExplanationSections { detail: r >= 1, confidence_analysis: r >= 2, math_trace: r >= 3 }
    }
}

/// A more verbose level includes every part that a less verbose one does.
pub proof fn lemma_sections_monotone(a: ExplanationVerbosity, b: ExplanationVerbosity)
    requires
        verbosity_rank(a) <= verbosity_rank(b),
    ensures
        sections_spec(a).detail ==> sections_spec(b).detail,
        sections_spec(a).confidence_analysis ==> sections_spec(b).confidence_analysis,
        sections_spec(a).math_trace ==> sections_spec(b).math_trace,
{
}

/// Which parts each level holds: brief none; normal the detail parts;
/// verbose also the confidence analysis; galaxy-brain also the mathematical
/// trace.  So every level but brief holds the detail parts.
pub proof fn lemma_sections_by_level(v: ExplanationVerbosity)
    ensures
        v == ExplanationVerbosity::Brief ==> !sections_spec(v).detail
            && !sections_spec(v).confidence_analysis && !sections_spec(v).math_trace,
        v == ExplanationVerbosity::Normal ==> sections_spec(v).detail
            && !sections_spec(v).confidence_analysis && !sections_spec(v).math_trace,
        v == ExplanationVerbosity::Verbose ==> sections_spec(v).detail
            && sections_spec(v).confidence_analysis && !sections_spec(v).math_trace,
        v == ExplanationVerbosity::GalaxyBrain ==> sections_spec(v).detail
            && sections_spec(v).confidence_analysis && sections_spec(v).math_trace,
        sections_spec(v).detail <==> v != ExplanationVerbosity::Brief,
{
}
} // verus!
