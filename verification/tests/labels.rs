use pt_core::compound_poisson::CompoundPoissonError;
use pt_core::evt::{EvtError, TailType};
use pt_core::hawkes::BurstLevel;
use pt_core::hazard::Regime as HazardRegime;
use pt_core::hsmm::{dominant_state, DwellSwitch, DwellTracker, HsmmError, HsmmState};
use pt_core::imm::{ImmError, Regime as ImmRegime};
use pt_core::kl_surprisal::{
    default_min_samples, default_use_log_domain, AbnormalitySeverity, DeviationDirection,
};
use pt_core::text::decimal_string;

#[test]
fn test_tail_type_pathological() {
    assert!(!TailType::Light.is_pathological());
    assert!(!TailType::Exponential.is_pathological());
    assert!(TailType::Heavy.is_pathological());
    assert!(TailType::VeryHeavy.is_pathological());
}

#[test]
fn test_burst_level_display() {
    assert_eq!(BurstLevel::VeryLow.to_string(), "very_low");
    assert_eq!(BurstLevel::High.to_string(), "high");
}

#[test]
fn test_regime_display() {
    assert_eq!(HazardRegime::Normal.to_string(), "normal");
    assert_eq!(HazardRegime::TtyLost.to_string(), "tty_lost");
    assert_eq!(HazardRegime::Custom(42).to_string(), "custom_42");
}

#[test]
fn custom_hazard_regime_of_zero_and_large_ids() {
    assert_eq!(HazardRegime::Custom(0).to_string(), "custom_0");
    assert_eq!(HazardRegime::Custom(4294967295).to_string(), "custom_4294967295");
}

#[test]
fn test_hsmm_state_properties() {
    assert_eq!(HsmmState::NUM_STATES, 4);
    assert_eq!(HsmmState::Useful.index(), 0);
    assert_eq!(HsmmState::UsefulBad.index(), 1);
    assert_eq!(HsmmState::Abandoned.index(), 2);
    assert_eq!(HsmmState::Zombie.index(), 3);

    // Round-trip
    for s in HsmmState::ALL {
        assert_eq!(HsmmState::from_index(s.index()), Some(s));
    }
}

#[test]
fn hsmm_state_display() {
    assert_eq!(HsmmState::Useful.to_string(), "useful");
    assert_eq!(HsmmState::UsefulBad.to_string(), "useful_bad");
    assert_eq!(HsmmState::Abandoned.to_string(), "abandoned");
    assert_eq!(HsmmState::Zombie.to_string(), "zombie");
}

#[test]
fn hsmm_state_from_index_out_of_bounds() {
    assert!(HsmmState::from_index(4).is_none());
    assert!(HsmmState::from_index(99).is_none());
}

#[test]
fn hsmm_state_to_classification_roundtrip() {
    for s in HsmmState::ALL {
        let cls = s.to_classification();
        assert_eq!(cls.label(), s.name());
    }
}

#[test]
fn hsmm_error_display_all_variants() {
    let e1 = HsmmError::InvalidConfig("bad".to_string());
    assert!(e1.to_string().contains("Invalid HSMM config"));

    let e2 = HsmmError::DimensionMismatch {
        expected: 4,
        got: 2,
    };
    assert!(e2.to_string().contains("expected 4"));
    assert!(e2.to_string().contains("got 2"));

    let e3 = HsmmError::NoObservations;
    assert!(e3.to_string().contains("No observations"));

    let e4 = HsmmError::NumericalInstability("overflow".to_string());
    assert!(e4.to_string().contains("Numerical instability"));
}

#[test]
fn hsmm_error_texts_are_exact() {
    assert_eq!(
        HsmmError::InvalidConfig("bad".to_string()).to_string(),
        "Invalid HSMM config: bad"
    );
    assert_eq!(
        HsmmError::DimensionMismatch { expected: 4, got: 2 }.to_string(),
        "Dimension mismatch: expected 4, got 2"
    );
    assert_eq!(HsmmError::NoObservations.to_string(), "No observations provided");
}

#[test]
fn dominant_state_takes_the_largest_total_and_the_first_on_ties() {
    assert_eq!(dominant_state(&[1, 5, 3, 0]), HsmmState::UsefulBad);
    assert_eq!(dominant_state(&[2, 2, 9, 9]), HsmmState::Abandoned);
    assert_eq!(dominant_state(&[0, 0, 0, 0]), HsmmState::Useful);
}

#[test]
fn test_regime_from_index_roundtrip() {
    for idx in 0..10 {
        let regime = ImmRegime::from_index(idx);
        assert_eq!(regime.index(), idx);
    }
}

#[test]
fn imm_regime_names() {
    assert_eq!(ImmRegime::Idle.name(), "idle");
    assert_eq!(ImmRegime::from_index(3), ImmRegime::Stuck);
    assert_eq!(ImmRegime::from_index(7), ImmRegime::Custom(7));
    assert_eq!(ImmRegime::Custom(7).name(), "custom");
}

#[test]
fn imm_error_text_names_the_variant() {
    assert_eq!(ImmError::NoObservations.to_string(), "No observations processed yet");
}

#[test]
fn evt_error_texts() {
    assert_eq!(
        EvtError::InsufficientData { needed: 20, have: 3 }.to_string(),
        "insufficient data: need 20, have 3"
    );
    assert_eq!(
        EvtError::MleNotConverged { iterations: 100 }.to_string(),
        "MLE did not converge after 100 iterations"
    );
}

#[test]
fn compound_poisson_error_text() {
    assert_eq!(
        CompoundPoissonError::InsufficientEvents { got: 1, need: 3 }.to_string(),
        "Insufficient events: got 1, need 3"
    );
}

#[test]
fn kl_defaults_and_labels() {
    assert_eq!(default_min_samples(), 10);
    assert!(default_use_log_domain());
    assert!(AbnormalitySeverity::Normal.rank() < AbnormalitySeverity::Critical.rank());
    assert_eq!(DeviationDirection::Higher.to_string(), "higher");
}

#[test]
fn decimal_text_of_numbers() {
    assert_eq!(decimal_string(0), "0");
    assert_eq!(decimal_string(42), "42");
    assert_eq!(decimal_string(18446744073709551615), "18446744073709551615");
}

#[test]
fn dwell_tracker_records_switches_after_the_first_observation() {
    let mut t = DwellTracker::new(HsmmState::Useful);
    // the first observation never counts as a switch
    assert_eq!(t.observe(HsmmState::Abandoned), None);
    assert_eq!(t.current_duration(), 1);
    assert_eq!(t.observe(HsmmState::Abandoned), None);
    let w = t.observe(HsmmState::Zombie);
    assert_eq!(
        w,
        Some(DwellSwitch {
            time_index: 2,
            from_state: HsmmState::Abandoned,
            to_state: HsmmState::Zombie,
            previous_duration: 3,
        })
    );
    assert_eq!(t.current_duration(), 0);
    assert_eq!(t.current_state(), HsmmState::Zombie);
    assert_eq!(t.num_observations(), 3);
    assert_eq!(t.state_duration(2), 2);
    assert_eq!(t.state_duration(3), 1);
    assert_eq!(t.state_entry_count(0), 1);
    assert_eq!(t.state_entry_count(3), 1);
    assert_eq!(t.switches().len(), 1);
    let total: usize = (0..4).map(|i| t.state_duration(i)).sum();
    assert_eq!(total, t.num_observations());
}

#[test]
fn dwell_tracker_credits_the_first_entry_to_the_starting_state() {
    let mut t = DwellTracker::new(HsmmState::Zombie);
    assert_eq!(t.observe(HsmmState::Zombie), None);
    assert_eq!(t.state_entry_count(3), 1);
    assert_eq!(t.state_entry_count(0), 0);
    assert_eq!(t.state_duration(3), 1);
}
