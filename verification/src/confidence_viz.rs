//! Discrete badges for decision display: how confident the posterior is and
//! how safe the recommendation is, given calibration and robustness gates.
use crate::ledger::{classification_name, Classification, Confidence};
use crate::text::{join_with, push_joined};
use vstd::prelude::*;

verus! {

/// Safety badge indicating overall recommendation risk.
#[derive(Debug, Clone, Copy, PartialEq, Eq, Structural)]
pub enum SafetyBadge {
    Safe,
    Caution,
    Danger,
}

/// Label of a safety badge.
pub open spec fn safety_label(b: SafetyBadge) -> Seq<char> {
    match b {
        SafetyBadge::Safe => "SAFE"@,
        SafetyBadge::Caution => "CAUTION"@,
        SafetyBadge::Danger => "DANGER"@,
    }
}

/// Glyph of a safety badge.
pub open spec fn safety_glyph(b: SafetyBadge) -> Seq<char> {
    match b {
        SafetyBadge::Safe => "✓"@,
        SafetyBadge::Caution => "⚠"@,
        SafetyBadge::Danger => "✗"@,
    }
}

impl SafetyBadge {
    /// Upper-case label ("SAFE", "CAUTION", "DANGER").
    pub fn label(&self) -> (s: &'static str)
        ensures
            s@ == safety_label(*self),
    {
        match self {
            SafetyBadge::Safe => "SAFE",
            SafetyBadge::Caution => "CAUTION",
            SafetyBadge::Danger => "DANGER",
        }
    }

    /// Display glyph (check mark, warning sign, cross).
    pub fn glyph(&self) -> (s: &'static str)
        ensures
            s@ == safety_glyph(*self),
    {
        match self {
            SafetyBadge::Safe => "✓",
            SafetyBadge::Caution => "⚠",
            SafetyBadge::Danger => "✗",
        }
    }
}

/// Confidence badge for posterior concentration.
#[derive(Debug, Clone, Copy, PartialEq, Eq, Structural)]
pub enum ConfidenceBadge {
    High,
    Med,
    Low,
}

/// Label of a confidence badge.
pub open spec fn confidence_label(b: ConfidenceBadge) -> Seq<char> {
    match b {
        ConfidenceBadge::High => "HIGH"@,
        ConfidenceBadge::Med => "MED"@,
        ConfidenceBadge::Low => "LOW"@,
    }
}

impl ConfidenceBadge {
    /// Upper-case label ("HIGH", "MED", "LOW").
    pub fn label(&self) -> (s: &'static str)
        ensures
            s@ == confidence_label(*self),
    {
        match self {
            ConfidenceBadge::High => "HIGH",
            ConfidenceBadge::Med => "MED",
            ConfidenceBadge::Low => "LOW",
        }
    }
}

/// Calibration status indicator.
#[derive(Debug, Clone, Copy, PartialEq, Eq, Structural)]
pub enum CalibrationStatus {
    /// Model is in a calibrated regime.
    Calibrated,
    /// Outside calibrated regime: exercise caution.
    Uncalibrated,
    /// No calibration data available.
    Unknown,
}

impl Default for CalibrationStatus {
    fn default() -> (s: Self)
        ensures
            s == CalibrationStatus::Unknown,
    {
        CalibrationStatus::Unknown
    }
}

/// Robustness gate status.
#[derive(Debug, Clone, Copy, PartialEq, Eq, Structural)]
pub enum GateStatus {
    /// All gates passed.
    Clear,
    /// Some gates raised warnings.
    Warning,
    /// Gates are blocking the recommendation.
    Blocked,
}

impl Default for GateStatus {
    fn default() -> (s: Self)
        ensures
            s == GateStatus::Clear,
    {
        GateStatus::Clear
    }
}

/// Where the top-class posterior lies relative to the badge thresholds:
/// above 0.95, above 0.80 (but not above 0.95), or at most 0.80.
#[derive(Debug, Clone, Copy, PartialEq, Eq, Structural)]
pub enum PosteriorBand {
    AboveHigh,
    AboveMedium,
    AtMostMedium,
}

/// The inputs of the badge decisions.
#[derive(Debug, Clone, Copy)]
pub struct BadgeInput {
    /// Confidence from the ledger, when known.
    pub confidence: Option<Confidence>,
    /// Band of the top-class posterior.
    pub posterior_band: PosteriorBand,
    /// Whether the decision is knife-edge (sensitive to small changes).
    pub knife_edge: bool,
    /// Calibration status for this host/profile.
    pub calibration: CalibrationStatus,
    /// Robustness gate status.
    pub gate_status: GateStatus,
}

/// Confidence badge: the ledger's confidence when present (very high and
/// high both map to HIGH), otherwise derived from the posterior band.
pub open spec fn confidence_badge_spec(input: BadgeInput) -> ConfidenceBadge {
    match input.confidence {
        Some(Confidence::VeryHigh) | Some(Confidence::High) => ConfidenceBadge::High,
        Some(Confidence::Medium) => ConfidenceBadge::Med,
        Some(Confidence::Low) => ConfidenceBadge::Low,
        None => match input.posterior_band {
            PosteriorBand::AboveHigh => ConfidenceBadge::High,
            PosteriorBand::AboveMedium => ConfidenceBadge::Med,
            PosteriorBand::AtMostMedium => ConfidenceBadge::Low,
        },
    }
}

/// Safety badge: blocking gates give DANGER; knife-edge decisions, an
/// uncalibrated model, gate warnings or low confidence give CAUTION;
/// otherwise SAFE.
pub open spec fn safety_badge_spec(input: BadgeInput, confidence: ConfidenceBadge) -> SafetyBadge {
    if input.gate_status == GateStatus::Blocked {
        SafetyBadge::Danger
    } else if input.knife_edge || input.calibration == CalibrationStatus::Uncalibrated
        || input.gate_status == GateStatus::Warning || confidence == ConfidenceBadge::Low {
        SafetyBadge::Caution
    } else {
        SafetyBadge::Safe
    }
}

/// Compute the confidence badge.
pub fn compute_confidence_badge(input: &BadgeInput) -> (b: ConfidenceBadge)
    ensures
        b == confidence_badge_spec(*input),
        input.confidence == Some(Confidence::VeryHigh) ==> b == ConfidenceBadge::High,
        input.confidence == Some(Confidence::High) ==> b == ConfidenceBadge::High,
        input.confidence == Some(Confidence::Medium) ==> b == ConfidenceBadge::Med,
        input.confidence == Some(Confidence::Low) ==> b == ConfidenceBadge::Low,
        input.confidence is None ==> (b == ConfidenceBadge::High <==> input.posterior_band
            == PosteriorBand::AboveHigh),
        input.confidence is None ==> (b == ConfidenceBadge::Low <==> input.posterior_band
            == PosteriorBand::AtMostMedium),
{
    if let Some(conf) = input.confidence {
        return match conf {
            Confidence::VeryHigh | Confidence::High => ConfidenceBadge::High,
            Confidence::Medium => ConfidenceBadge::Med,
            Confidence::Low => ConfidenceBadge::Low,
        };
    }
    match input.posterior_band {
        PosteriorBand::AboveHigh => ConfidenceBadge::High,
        PosteriorBand::AboveMedium => ConfidenceBadge::Med,
        PosteriorBand::AtMostMedium => ConfidenceBadge::Low,
    }
}

/// Compute the safety badge.
pub fn compute_safety_badge(input: &BadgeInput, confidence: ConfidenceBadge) -> (b: SafetyBadge)
    ensures
        b == safety_badge_spec(*input, confidence),
{
    // Gates override everything.
    if input.gate_status == GateStatus::Blocked {
        return SafetyBadge::Danger;
    }
    // Knife-edge decisions are always cautionary.
    if input.knife_edge {
        return SafetyBadge::Caution;
    }
    // Uncalibrated models get a caution.
    if input.calibration == CalibrationStatus::Uncalibrated {
        return SafetyBadge::Caution;
    }
    // Gate warnings + low confidence -> caution.
    if input.gate_status == GateStatus::Warning || confidence == ConfidenceBadge::Low {
        return SafetyBadge::Caution;
    }
    SafetyBadge::Safe
}

/// The confidence badge follows the ledger's confidence when there is one
/// (very high and high show HIGH, medium MED, low LOW) and otherwise the
/// posterior: HIGH above 0.95, MED above 0.80, LOW at most 0.80.  So the badge
/// is LOW exactly when the ledger says low or, without a ledger confidence,
/// the posterior is at most 0.80; and with clear gates, a calibrated model
/// and no knife edge, a medium ledger confidence is SAFE.
pub proof fn lemma_confidence_badge_levels(input: BadgeInput)
    ensures
        input.confidence == Some(Confidence::VeryHigh) ==> confidence_badge_spec(input)
            == ConfidenceBadge::High,
        input.confidence == Some(Confidence::High) ==> confidence_badge_spec(input)
            == ConfidenceBadge::High,
        input.confidence == Some(Confidence::Medium) ==> confidence_badge_spec(input)
            == ConfidenceBadge::Med,
        input.confidence == Some(Confidence::Low) ==> confidence_badge_spec(input)
            == ConfidenceBadge::Low,
        input.confidence is None ==> (confidence_badge_spec(input) == ConfidenceBadge::High
            <==> input.posterior_band == PosteriorBand::AboveHigh),
        input.confidence is None ==> (confidence_badge_spec(input) == ConfidenceBadge::Med
            <==> input.posterior_band == PosteriorBand::AboveMedium),
        (confidence_badge_spec(input) == ConfidenceBadge::Low) <==> (input.confidence == Some(
            Confidence::Low,
        ) || (input.confidence is None && input.posterior_band == PosteriorBand::AtMostMedium)),
        input.confidence == Some(Confidence::Medium) && input.gate_status == GateStatus::Clear
            && !input.knife_edge && input.calibration != CalibrationStatus::Uncalibrated
            ==> safety_badge_spec(input, confidence_badge_spec(input)) == SafetyBadge::Safe,
{
}

/// Gates override everything: the safety badge is DANGER exactly when the
/// gates block, and SAFE only with clear gates, a calibrated (or unknown)
/// model, no knife edge and confidence above LOW.
pub proof fn lemma_safety_precedence(input: BadgeInput, confidence: ConfidenceBadge)
    ensures
        (safety_badge_spec(input, confidence) == SafetyBadge::Danger) <==> (input.gate_status
            == GateStatus::Blocked),
        safety_badge_spec(input, confidence) == SafetyBadge::Safe ==> {
            &&& input.gate_status == GateStatus::Clear
            &&& !input.knife_edge
            &&& input.calibration != CalibrationStatus::Uncalibrated
            &&& confidence != ConfidenceBadge::Low
        },
{
}

/// Expected loss of each action, as the text shown.
#[derive(Debug, Clone)]
pub struct LossTexts {
    pub keep: String,
    pub pause: String,
    pub kill: String,
}

/// A list with `part` when `present` holds, else empty.
pub open spec fn part_if(present: bool, part: Seq<char>) -> Seq<Seq<char>> {
    if present {
        seq![part]
    } else {
        Seq::empty()
    }
}

/// The parts of a status line, in order: badge and classification with the
/// top posterior (as a percentage text), confidence, expected losses when
/// known, knife-edge warning, calibration note, gate note.
pub open spec fn status_parts(
    safety: SafetyBadge,
    confidence: ConfidenceBadge,
    input: BadgeInput,
    classification: Classification,
    posterior_percent: Seq<char>,
    losses: Option<LossTexts>,
) -> Seq<Seq<char>> {
    seq![
        safety_glyph(safety) + " "@ + classification_name(classification) + " (P="@
            + posterior_percent + "%)"@,
        "Confidence: "@ + confidence_label(confidence),
    ] + match losses {
        Some(l) => seq!["E[loss]: keep="@ + l.keep@ + " pause="@ + l.pause@ + " kill="@ + l.kill@],
        None => Seq::empty(),
    } + part_if(input.knife_edge, "⚠ knife-edge"@) + part_if(
        input.calibration == CalibrationStatus::Uncalibrated,
        "⚠ uncalibrated"@,
    ) + part_if(input.calibration == CalibrationStatus::Unknown, "calibration: n/a"@) + part_if(
        input.gate_status == GateStatus::Warning,
        "gates: warning"@,
    ) + part_if(input.gate_status == GateStatus::Blocked, "gates: BLOCKED"@)
}

/// Law: the status line has the badge-and-classification part and the
/// confidence part first, then one part for each of: the expected losses when
/// known, a knife-edge decision, an uncalibrated model, unknown calibration,
/// gate warnings and blocking gates, in that order; the knife-edge warning
/// comes right after the losses, and a blocked gate is always the last part.
pub proof fn lemma_status_parts(
    safety: SafetyBadge,
    confidence: ConfidenceBadge,
    input: BadgeInput,
    classification: Classification,
    posterior_percent: Seq<char>,
    losses: Option<LossTexts>,
)
    ensures
        ({
            let p = status_parts(safety, confidence, input, classification, posterior_percent, losses);
            let nl: int = if losses is Some { 1 } else { 0 };
            let flags: int = (if input.knife_edge { 1int } else { 0 }) + (if input.calibration
                == CalibrationStatus::Uncalibrated { 1int } else { 0 }) + (if input.calibration
                == CalibrationStatus::Unknown { 1int } else { 0 }) + (if input.gate_status
                == GateStatus::Warning { 1int } else { 0 }) + (if input.gate_status
                == GateStatus::Blocked { 1int } else { 0 });
            &&& p.len() == 2 + nl + flags
            &&& p[0] == safety_glyph(safety) + " "@ + classification_name(classification) + " (P="@
                + posterior_percent + "%)"@
            &&& p[1] == "Confidence: "@ + confidence_label(confidence)
            &&& losses matches Some(l) ==> p[2] == "E[loss]: keep="@ + l.keep@ + " pause="@ + l.pause@
                + " kill="@ + l.kill@
            &&& input.knife_edge ==> p[2 + nl] == "⚠ knife-edge"@
            &&& input.gate_status == GateStatus::Blocked ==> p.last() == "gates: BLOCKED"@
            &&& input.gate_status == GateStatus::Warning ==> p.last() == "gates: warning"@
        }),
{
    let head = seq![
        safety_glyph(safety) + " "@ + classification_name(classification) + " (P="@
            + posterior_percent + "%)"@,
        "Confidence: "@ + confidence_label(confidence),
    ];
    let ls: Seq<Seq<char>> = match losses {
        Some(l) => seq!["E[loss]: keep="@ + l.keep@ + " pause="@ + l.pause@ + " kill="@ + l.kill@],
        None => Seq::empty(),
    };
    let k = part_if(input.knife_edge, "⚠ knife-edge"@);
    let u = part_if(input.calibration == CalibrationStatus::Uncalibrated, "⚠ uncalibrated"@);
    let n = part_if(input.calibration == CalibrationStatus::Unknown, "calibration: n/a"@);
    let w = part_if(input.gate_status == GateStatus::Warning, "gates: warning"@);
    let b = part_if(input.gate_status == GateStatus::Blocked, "gates: BLOCKED"@);
    let p = status_parts(safety, confidence, input, classification, posterior_percent, losses);
    assert(p == head + ls + k + u + n + w + b);
    assert((head + ls)[0] == head[0]);
    assert((head + ls)[1] == head[1]);
    assert((head + ls + k)[2 + ls.len() as int] == k[0] || !input.knife_edge);
}

/// Human-readable one-line status: the status parts joined by "  |  ".
/// `posterior_percent` is the top posterior as a percentage, as it is to be
/// shown; `losses` the expected losses, when known, as they are to be shown.
pub fn build_status_line(
    safety: SafetyBadge,
    confidence: ConfidenceBadge,
    input: &BadgeInput,
    classification: Classification,
    posterior_percent: &str,
    losses: Option<&LossTexts>,
) -> (s: String)
    ensures
        s@ == join_with(
            status_parts(
                safety,
                confidence,
                *input,
                classification,
                posterior_percent@,
                match losses {
                    Some(l) => Some(*l),
                    None => None,
                },
            ),
            "  |  "@,
        ),
{
    let sep = "  |  ";
    let mut out = String::new();
    let ghost mut parts: Seq<Seq<char>> = Seq::empty();
    let mut p = String::new();
    p.append(safety.glyph());
    p.append(" ");
    p.append(classification.name());
    p.append(" (P=");
    p.append(posterior_percent);
    p.append("%)");
    push_joined(&mut out, true, sep, p.as_str(), Ghost(parts));
    proof {
        parts = parts.push(p@);
    }
    let mut p = String::new();
    p.append("Confidence: ");
    p.append(confidence.label());
    push_joined(&mut out, false, sep, p.as_str(), Ghost(parts));
    proof {
        parts = parts.push(p@);
    }
    let ghost head = parts;
    match losses {
        Some(l) => {
            let mut p = String::new();
            p.append("E[loss]: keep=");
            p.append(l.keep.as_str());
            p.append(" pause=");
            p.append(l.pause.as_str());
            p.append(" kill=");
            p.append(l.kill.as_str());
            push_joined(&mut out, false, sep, p.as_str(), Ghost(parts));
            proof {
                parts = parts.push(p@);
            }
        },
        None => {},
    }
    let ghost with_losses = parts;
    if input.knife_edge {
        push_joined(&mut out, false, sep, "⚠ knife-edge", Ghost(parts));
        proof {
            parts = parts.push("⚠ knife-edge"@);
        }
    }
    let ghost with_knife = parts;
    match input.calibration {
        CalibrationStatus::Uncalibrated => {
            push_joined(&mut out, false, sep, "⚠ uncalibrated", Ghost(parts));
            proof {
                parts = parts.push("⚠ uncalibrated"@);
            }
        },
        CalibrationStatus::Unknown => {
            push_joined(&mut out, false, sep, "calibration: n/a", Ghost(parts));
            proof {
                parts = parts.push("calibration: n/a"@);
            }
        },
        CalibrationStatus::Calibrated => {},
    }
    let ghost with_calibration = parts;
    if input.gate_status == GateStatus::Warning {
        push_joined(&mut out, false, sep, "gates: warning", Ghost(parts));
        proof {
            parts = parts.push("gates: warning"@);
        }
    } else if input.gate_status == GateStatus::Blocked {
        push_joined(&mut out, false, sep, "gates: BLOCKED", Ghost(parts));
        proof {
            parts = parts.push("gates: BLOCKED"@);
        }
    }
    proof {
        let lo = match losses {
            Some(l) => Some(*l),
            None => None,
        };
        let l_part: Seq<Seq<char>> = match lo {
            Some(l) => seq!["E[loss]: keep="@ + l.keep@ + " pause="@ + l.pause@ + " kill="@ + l.kill@],
            None => Seq::empty(),
        };
        let k_part = part_if(input.knife_edge, "⚠ knife-edge"@);
        let c_part = part_if(input.calibration == CalibrationStatus::Uncalibrated, "⚠ uncalibrated"@)
            + part_if(input.calibration == CalibrationStatus::Unknown, "calibration: n/a"@);
        let g_part = part_if(input.gate_status == GateStatus::Warning, "gates: warning"@) + part_if(
            input.gate_status == GateStatus::Blocked,
            "gates: BLOCKED"@,
        );
        assert(with_losses =~= head + l_part);
        assert(with_knife =~= head + l_part + k_part);
        assert(with_calibration =~= head + l_part + k_part + c_part);
        assert(parts =~= head + l_part + k_part + c_part + g_part);
        assert(parts =~= status_parts(
            safety,
            confidence,
            *input,
            classification,
            posterior_percent@,
            lo,
        ));
    }
    out
}

/// The decided part of a confidence visualization: badges, calibration and
/// gate indicators, knife-edge flag and status line.
#[derive(Debug, Clone)]
pub struct ConfidenceViz {
    /// Overall safety badge.
    pub safety: SafetyBadge,
    /// Posterior confidence badge.
    pub confidence: ConfidenceBadge,
    /// Calibration indicator.
    pub calibration: CalibrationStatus,
    /// Gate status.
    pub gates: GateStatus,
    /// Human-readable status line.
    pub status_line: String,
    /// Whether the decision is knife-edge.
    pub knife_edge: bool,
}

/// Compute the confidence visualization of a decision: the confidence badge,
/// the safety badge that follows from it, and the status line.
pub fn compute_confidence_viz(
    input: &BadgeInput,
    classification: Classification,
    posterior_percent: &str,
    losses: Option<&LossTexts>,
) -> (viz: ConfidenceViz)
    ensures
        viz.confidence == confidence_badge_spec(*input),
        viz.safety == safety_badge_spec(*input, viz.confidence),
        viz.calibration == input.calibration,
        viz.gates == input.gate_status,
        viz.knife_edge == input.knife_edge,
        viz.status_line@ == join_with(
            status_parts(
                viz.safety,
                viz.confidence,
                *input,
                classification,
                posterior_percent@,
                match losses {
                    Some(l) => Some(*l),
                    None => None,
                },
            ),
            "  |  "@,
        ),
{
    let confidence = compute_confidence_badge(input);
    let safety = compute_safety_badge(input, confidence);
    let status_line = build_status_line(
        safety,
        confidence,
        input,
        classification,
        posterior_percent,
        losses,
    );
    ConfidenceViz {
        safety,
        confidence,
        calibration: input.calibration,
        gates: input.gate_status,
        status_line,
        knife_edge: input.knife_edge,
    }
}


/// The safety badge in full: DANGER exactly when the gates block; otherwise
/// SAFE exactly when the gates are clear, the decision is not knife-edge, the
/// model is not known to be uncalibrated and the confidence is above LOW;
/// CAUTION in every other case.
pub proof fn lemma_safety_badge_cases(input: BadgeInput, confidence: ConfidenceBadge)
    ensures
        (safety_badge_spec(input, confidence) == SafetyBadge::Safe) <==> (input.gate_status
            == GateStatus::Clear && !input.knife_edge && input.calibration
            != CalibrationStatus::Uncalibrated && confidence != ConfidenceBadge::Low),
        (safety_badge_spec(input, confidence) == SafetyBadge::Caution) <==> (input.gate_status
            != GateStatus::Blocked && (input.knife_edge || input.calibration
            == CalibrationStatus::Uncalibrated || input.gate_status == GateStatus::Warning
            || confidence == ConfidenceBadge::Low)),
{
}

} // verus!
