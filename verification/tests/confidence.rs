use pt_core::confidence_viz::{
    build_status_line, compute_confidence_badge, compute_confidence_viz, compute_safety_badge,
    BadgeInput, CalibrationStatus, ConfidenceBadge, GateStatus, LossTexts, PosteriorBand,
    SafetyBadge,
};
use pt_core::explain_api::{ExplanationSections, ExplanationVerbosity};
use pt_core::flip_conditions::{is_supporting, EvidenceSign};
use pt_core::ledger::{Classification, Confidence};

fn input(posterior_band: PosteriorBand, confidence: Option<Confidence>) -> BadgeInput {
    BadgeInput {
        confidence,
        posterior_band,
        knife_edge: false,
        calibration: CalibrationStatus::default(),
        gate_status: GateStatus::default(),
    }
}

#[test]
fn test_badge_labels() {
    assert_eq!(SafetyBadge::Safe.label(), "SAFE");
    assert_eq!(SafetyBadge::Caution.label(), "CAUTION");
    assert_eq!(SafetyBadge::Danger.label(), "DANGER");
    assert_eq!(ConfidenceBadge::High.label(), "HIGH");
    assert_eq!(ConfidenceBadge::Med.label(), "MED");
    assert_eq!(ConfidenceBadge::Low.label(), "LOW");
}

// top posterior 0.87
#[test]
fn test_safe_high_confidence() {
    let i = input(PosteriorBand::AboveMedium, Some(Confidence::High));
    let viz = compute_confidence_viz(&i, Classification::Abandoned, "87", None);

    assert_eq!(viz.safety, SafetyBadge::Safe);
    assert_eq!(viz.confidence, ConfidenceBadge::High);
    assert!(!viz.knife_edge);
}

// top posterior 0.55
#[test]
fn test_caution_low_confidence() {
    let i = input(PosteriorBand::AtMostMedium, Some(Confidence::Low));
    let viz = compute_confidence_viz(&i, Classification::Abandoned, "55", None);

    assert_eq!(viz.safety, SafetyBadge::Caution);
    assert_eq!(viz.confidence, ConfidenceBadge::Low);
}

// top posterior 0.99
#[test]
fn test_danger_gates_blocked() {
    let mut i = input(PosteriorBand::AboveHigh, Some(Confidence::VeryHigh));
    i.gate_status = GateStatus::Blocked;
    let viz = compute_confidence_viz(&i, Classification::Abandoned, "99", None);

    assert_eq!(viz.safety, SafetyBadge::Danger);
    assert!(viz.status_line.contains("BLOCKED"));
}

// top posterior 0.92
#[test]
fn test_caution_knife_edge() {
    let mut i = input(PosteriorBand::AboveMedium, Some(Confidence::High));
    i.knife_edge = true;
    let viz = compute_confidence_viz(&i, Classification::Abandoned, "92", None);

    assert_eq!(viz.safety, SafetyBadge::Caution);
    assert!(viz.knife_edge);
    assert!(viz.status_line.contains("knife-edge"));
}

#[test]
fn test_caution_uncalibrated() {
    let mut i = input(PosteriorBand::AboveMedium, Some(Confidence::High));
    i.calibration = CalibrationStatus::Uncalibrated;
    let viz = compute_confidence_viz(&i, Classification::Abandoned, "92", None);

    assert_eq!(viz.safety, SafetyBadge::Caution);
    assert!(viz.status_line.contains("uncalibrated"));
}

// expected losses keep=28.2 pause=15.1 kill=6.4, shown with one decimal
#[test]
fn test_expected_losses_in_status() {
    let i = input(PosteriorBand::AboveMedium, Some(Confidence::High));
    let losses = LossTexts {
        keep: "28.2".to_string(),
        pause: "15.1".to_string(),
        kill: "6.4".to_string(),
    };
    let viz = compute_confidence_viz(&i, Classification::Abandoned, "87", Some(&losses));

    assert!(viz.status_line.contains("keep=28.2"));
    assert!(viz.status_line.contains("kill=6.4"));
}

// top posterior 0.97, no explicit confidence
#[test]
fn test_confidence_from_posterior() {
    let i = input(PosteriorBand::AboveHigh, None);
    let viz = compute_confidence_viz(&i, Classification::Abandoned, "97", None);
    assert_eq!(viz.confidence, ConfidenceBadge::High);
}

// top posterior 0.85, no explicit confidence
#[test]
fn test_medium_confidence_from_posterior() {
    let i = input(PosteriorBand::AboveMedium, None);
    let viz = compute_confidence_viz(&i, Classification::Abandoned, "85", None);
    assert_eq!(viz.confidence, ConfidenceBadge::Med);
}

#[test]
fn test_gate_warning_in_status() {
    let mut i = input(PosteriorBand::AboveMedium, Some(Confidence::High));
    i.gate_status = GateStatus::Warning;
    let viz = compute_confidence_viz(&i, Classification::Abandoned, "87", None);
    assert_eq!(viz.safety, SafetyBadge::Caution);
    assert!(viz.status_line.contains("gates: warning"));
}

#[test]
fn status_line_is_exact() {
    let i = input(PosteriorBand::AboveMedium, Some(Confidence::High));
    let conf = compute_confidence_badge(&i);
    let safety = compute_safety_badge(&i, conf);
    let line = build_status_line(safety, conf, &i, Classification::Abandoned, "87", None);
    assert_eq!(
        line,
        format!(
            "{} Abandoned (P=87%)  |  Confidence: HIGH  |  calibration: n/a",
            SafetyBadge::Safe.glyph()
        )
    );
}

#[test]
fn blocked_gates_always_give_danger() {
    for conf in [None, Some(Confidence::Low), Some(Confidence::VeryHigh)] {
        let mut i = input(PosteriorBand::AtMostMedium, conf);
        i.gate_status = GateStatus::Blocked;
        let c = compute_confidence_badge(&i);
        assert_eq!(compute_safety_badge(&i, c), SafetyBadge::Danger);
    }
}

#[test]
fn sections_grow_with_verbosity() {
    let brief = ExplanationSections::for_verbosity(ExplanationVerbosity::Brief);
    assert!(!brief.detail && !brief.confidence_analysis && !brief.math_trace);
    let full = ExplanationSections::for_verbosity(ExplanationVerbosity::GalaxyBrain);
    assert!(full.detail && full.confidence_analysis && full.math_trace);
    let verbose = ExplanationSections::for_verbosity(ExplanationVerbosity::Verbose);
    assert!(verbose.confidence_analysis && !verbose.math_trace);
}

#[test]
fn supporting_evidence_follows_the_sign() {
    assert!(is_supporting(EvidenceSign::Positive, Classification::Abandoned));
    assert!(is_supporting(EvidenceSign::Negative, Classification::Useful));
    assert!(!is_supporting(EvidenceSign::Zero, Classification::Zombie));
    assert!(!is_supporting(EvidenceSign::Positive, Classification::UsefulBad));
}
