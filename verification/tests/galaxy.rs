use pt_core::bocpd::default_max_run_length;
use pt_core::galaxy_brain::{
    evidence_terms_shown, render, section_header, sym, BayesFactorTexts, EvidenceTermTexts,
    GalaxyBrainConfig, MathMode, RenderTexts, ScoreTexts, Verbosity,
};
use pt_core::ledger::Classification;

#[test]
fn galaxy_config_defaults() {
    let c = GalaxyBrainConfig::default();
    assert_eq!(c.verbosity, Verbosity::Detail);
    assert_eq!(c.math_mode, MathMode::Unicode);
    assert_eq!(c.max_evidence_terms, 10);
}

#[test]
fn symbols_follow_the_math_mode() {
    assert_eq!(sym(MathMode::Unicode, "→", "->"), "→");
    assert_eq!(sym(MathMode::Ascii, "→", "->"), "->");
}

#[test]
fn section_headers_use_the_mode_bullet() {
    let mut c = GalaxyBrainConfig::default();
    assert_eq!(section_header("Prior Distribution", &c), "▸ Prior Distribution");
    c.math_mode = MathMode::Ascii;
    assert_eq!(section_header("Prior Distribution", &c), "> Prior Distribution");
}

#[test]
fn evidence_list_is_capped_by_the_config() {
    let mut c = GalaxyBrainConfig::default();
    c.max_evidence_terms = 1;
    assert_eq!(evidence_terms_shown(2, &c), (1, 1));
    assert_eq!(evidence_terms_shown(0, &c), (0, 0));
    c.max_evidence_terms = 10;
    assert_eq!(evidence_terms_shown(2, &c), (2, 0));
}

#[test]
fn change_point_default_run_length() {
    assert_eq!(default_max_run_length(), 1000);
}

fn scores(v: [f64; 4], decimals: usize) -> ScoreTexts {
    ScoreTexts {
        useful: format!("{:.*}", decimals, v[0]),
        useful_bad: format!("{:.*}", decimals, v[1]),
        abandoned: format!("{:.*}", decimals, v[2]),
        zombie: format!("{:.*}", decimals, v[3]),
    }
}

fn bayes_factor(feature: &str, bf: f64, log_bf: f64, delta_bits: f64, strength: &str) -> BayesFactorTexts {
    BayesFactorTexts {
        feature: feature.to_string(),
        favours_abandoned: log_bf > 0.0,
        bf: format!("{:>8.2}", bf),
        bits: format!("{:.1}", delta_bits.abs()),
        log_bf_full: format!("{:>8.4}", log_bf),
        bf_full: format!("{:>10.4}", bf),
        bits_full: format!("{:.4}", delta_bits.abs()),
        strength: strength.to_string(),
    }
}

fn texts(
    posterior: [f64; 4],
    log_posterior: [f64; 4],
    log_odds: f64,
    terms: Vec<(&str, [f64; 4])>,
    bfs: Vec<BayesFactorTexts>,
    classification: Classification,
    confidence: &str,
) -> RenderTexts {
    let prior = [0.25, 0.25, 0.25, 0.25];
    RenderTexts {
        summary_posterior: scores(posterior, 3),
        prior: scores(prior, 4),
        posterior: scores(posterior, 4),
        prior_full: scores(prior, 6),
        posterior_full: scores(posterior, 6),
        log_posterior_full: scores(log_posterior, 6),
        log_odds: format!("{:.3}", log_odds),
        log_odds_full: format!("{:.6}", log_odds),
        evidence_terms: terms
            .into_iter()
            .map(|(f, ll)| EvidenceTermTexts { feature: f.to_string(), log_likelihood: scores(ll, 4) })
            .collect(),
        bayes_factors: bfs,
        classification,
        confidence: confidence.to_string(),
    }
}

fn mock_texts() -> RenderTexts {
    texts(
        [0.05, 0.03, 0.87, 0.05],
        [-3.0, -3.5, -0.14, -3.0],
        2.86,
        vec![
            ("cpu_occupancy", [-2.0, -1.5, -0.1, -0.5]),
            ("age_elapsed", [-1.8, -1.0, -0.2, -0.8]),
        ],
        vec![
            bayes_factor("cpu_occupancy", 6.69, 1.9, 2.74, "strong"),
            bayes_factor("age_elapsed", 4.95, 1.6, 2.31, "strong"),
        ],
        Classification::Abandoned,
        "high",
    )
}

#[test]
fn test_summary_mode() {
    let config = GalaxyBrainConfig { verbosity: Verbosity::Summary, ..Default::default() };
    let output = render(&mock_texts(), &config);
    assert!(output.contains("P(C|x)"));
    assert!(output.contains("0.870"));
    assert!(output.contains("Abandoned"));
}

#[test]
fn test_detail_mode() {
    let config = GalaxyBrainConfig { verbosity: Verbosity::Detail, ..Default::default() };
    let output = render(&mock_texts(), &config);
    assert!(output.contains("Prior Distribution"));
    assert!(output.contains("Posterior Distribution"));
    assert!(output.contains("Evidence"));
    assert!(output.contains("cpu_occupancy"));
    assert!(output.contains("log-odds"));
}

#[test]
fn test_full_mode() {
    let config = GalaxyBrainConfig { verbosity: Verbosity::Full, ..Default::default() };
    let output = render(&mock_texts(), &config);
    assert!(output.contains("Step 1"));
    assert!(output.contains("Step 2"));
    assert!(output.contains("Step 3"));
    assert!(output.contains("Step 4"));
    assert!(output.contains("Step 5"));
    assert!(output.contains("Step 6"));
    assert!(output.contains("log P(f|U)"));
}

#[test]
fn test_ascii_mode() {
    let config = GalaxyBrainConfig {
        verbosity: Verbosity::Detail,
        math_mode: MathMode::Ascii,
        ..Default::default()
    };
    let output = render(&mock_texts(), &config);
    assert!(output.contains("[*]"));
    assert!(!output.contains("🧠"));
    assert!(output.contains("^A"));
}

#[test]
fn test_unicode_mode() {
    let config = GalaxyBrainConfig {
        verbosity: Verbosity::Detail,
        math_mode: MathMode::Unicode,
        ..Default::default()
    };
    let output = render(&mock_texts(), &config);
    assert!(output.contains("🧠"));
    assert!(output.contains("↑A"));
}

#[test]
fn test_max_evidence_terms() {
    let config = GalaxyBrainConfig {
        verbosity: Verbosity::Detail,
        max_evidence_terms: 1,
        ..Default::default()
    };
    let output = render(&mock_texts(), &config);
    assert!(output.contains("1 more terms"));
}

#[test]
fn galaxy_brain_test_empty_evidence() {
    let t = texts(
        [0.25, 0.25, 0.25, 0.25],
        [0.0, 0.0, 0.0, 0.0],
        0.0,
        vec![],
        vec![],
        Classification::Useful,
        "low",
    );
    let config = GalaxyBrainConfig::default();
    let output = render(&t, &config);
    assert!(output.contains("Posterior Distribution"));
}

#[test]
fn summary_line_is_exact() {
    let config = GalaxyBrainConfig { verbosity: Verbosity::Summary, ..Default::default() };
    assert_eq!(
        render(&mock_texts(), &config),
        "P(C|x): U=0.050 UB=0.030 A=0.870 Z=0.050 → Abandoned (high)"
    );
    let ascii = GalaxyBrainConfig { math_mode: MathMode::Ascii, ..config };
    assert!(render(&mock_texts(), &ascii).contains(" -> Abandoned"));
}

#[test]
fn detail_display_lines_are_exact() {
    let config = GalaxyBrainConfig {
        verbosity: Verbosity::Detail,
        math_mode: MathMode::Ascii,
        max_evidence_terms: 1,
    };
    let output = render(&mock_texts(), &config);
    let lines: Vec<&str> = output.split('\n').collect();
    assert_eq!(lines[0], format!("[*] Galaxy-Brain Mode {}", "=".repeat(50)));
    assert_eq!(lines[1], "");
    assert_eq!(lines[2], "> Prior Distribution");
    assert_eq!(lines[3], "  P(C)  ~ [0.2500, 0.2500, 0.2500, 0.2500]  (U, UB, A, Z)");
    assert_eq!(lines[8], "  Classification: Abandoned  |  Confidence: high");
    assert_eq!(lines[11], "  cpu_occupancy        BF=    6.69  ^A2.7 bits  [strong]");
    assert_eq!(lines[12], "  ... and 1 more terms");
    assert_eq!(lines[14], "  log-odds(A/U) = 2.860");
    assert_eq!(lines[15], "=".repeat(50));
    assert_eq!(lines.len(), 16);
}

#[test]
fn full_trace_numbers_the_evidence_terms() {
    let config = GalaxyBrainConfig { verbosity: Verbosity::Full, ..Default::default() };
    let output = render(&mock_texts(), &config);
    assert!(output.contains("  π(1) Feature: cpu_occupancy"));
    assert!(output.contains("  π(2) Feature: age_elapsed"));
    assert!(output.contains("  P(Abandoned)  = 0.870000"));
    assert!(output.ends_with(&"━".repeat(60)));
}
