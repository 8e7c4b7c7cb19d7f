//! Tail classification of extreme-value fits and the fitting errors.
use crate::text::{decimal, push_decimal};
use vstd::prelude::*;

verus! {

/// Method for selecting the threshold u0.
#[derive(Debug, Clone, Copy, PartialEq, Eq, Structural)]
pub enum ThresholdMethod {
    /// Use a fixed threshold value.
    Fixed,
    /// Use a quantile of the data.
    Quantile,
    /// Automatic selection using mean residual life plot.
    MeanResidualLife,
}

/// Parameter estimation method.
#[derive(Debug, Clone, Copy, PartialEq, Eq, Structural)]
pub enum EstimationMethod {
    /// Probability Weighted Moments (faster, more stable).
    Pwm,
    /// Maximum Likelihood Estimation (more efficient for large n).
    Mle,
}

/// Classification of tail behavior.
#[derive(Debug, Clone, Copy, PartialEq, Eq, Structural)]
pub enum TailType {
    /// Light tail: bounded support.
    Light,
    /// Exponential tail: moderate decay.
    Exponential,
    /// Heavy tail: power law decay.
    Heavy,
    /// Very heavy tail: very slow decay.
    VeryHeavy,
}

impl TailType {
    /// Whether this tail type indicates pathological behavior (heavy or
    /// very heavy tails).
    pub fn is_pathological(&self) -> (b: bool)
        ensures
            b <==> (*self == TailType::Heavy || *self == TailType::VeryHeavy),
    {
        match self {
            TailType::Heavy | TailType::VeryHeavy => true,
            _ => false,
        }
    }
}

/// Errors from EVT fitting.
#[derive(Debug)]
pub enum EvtError {
    InsufficientData { needed: usize, have: usize },
    InsufficientExceedances { needed: usize, have: usize },
    InvalidThreshold { message: String },
    MleNotConverged { iterations: usize },
    InvalidEstimate { message: String },
}

/// Display text of an error.
pub open spec fn evt_error_text(e: EvtError) -> Seq<char> {
    match e {
        EvtError::InsufficientData { needed, have } => "insufficient data: need "@ + decimal(
            needed as nat,
        ) + ", have "@ + decimal(have as nat),
        EvtError::InsufficientExceedances { needed, have } => "insufficient exceedances: need "@
            + decimal(needed as nat) + ", have "@ + decimal(have as nat),
        EvtError::InvalidThreshold { message } => "invalid threshold: "@ + message@,
        EvtError::MleNotConverged { iterations } => "MLE did not converge after "@ + decimal(
            iterations as nat,
        ) + " iterations"@,
        EvtError::InvalidEstimate { message } => "invalid parameter estimate: "@ + message@,
    }
}

impl EvtError {
    /// Display text of the error.
    pub fn to_string(&self) -> (s: String)
        ensures
            s@ == evt_error_text(*self),
    {
        match self {
            EvtError::InsufficientData { needed, have } => {
                let mut s = String::from_str("insufficient data: need ");
                push_decimal(&mut s, *needed as u64);
                s.append(", have ");
                push_decimal(&mut s, *have as u64);
                s
            },
            EvtError::InsufficientExceedances { needed, have } => {
                let mut s = String::from_str("insufficient exceedances: need ");
                push_decimal(&mut s, *needed as u64);
                s.append(", have ");
                push_decimal(&mut s, *have as u64);
                s
            },
            EvtError::InvalidThreshold { message } => String::from_str(
                "invalid threshold: ",
            ).concat(message.as_str()),
            EvtError::MleNotConverged { iterations } => {
                let mut s = String::from_str("MLE did not converge after ");
                push_decimal(&mut s, *iterations as u64);
                s.append(" iterations");
                s
            },
            EvtError::InvalidEstimate { message } => String::from_str(
                "invalid parameter estimate: ",
            ).concat(message.as_str()),
        }
    }
}

} // verus!
