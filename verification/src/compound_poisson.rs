//! Burst-pattern classes of the compound Poisson analysis and its errors.
use crate::text::{decimal, push_decimal};
use vstd::prelude::*;

verus! {

/// Classification of CPU burst patterns.
#[derive(Debug, Clone, Copy, PartialEq, Eq, Structural)]
pub enum Classification {
    /// Insufficient data to classify.
    Unknown,
    /// Normal/expected burst pattern.
    Benign,
    /// Potentially concerning pattern requiring attention.
    Suspicious,
    /// Anomalous pattern indicating problem.
    Malign,
}

/// Errors from compound Poisson analysis.
#[derive(Debug)]
pub enum CompoundPoissonError {
    InsufficientEvents { got: usize, need: usize },
    InvalidParameter(String),
    ZeroDuration,
    RegimeNotFound(usize),
}

/// Display text of an error.
pub open spec fn compound_poisson_error_text(e: CompoundPoissonError) -> Seq<char> {
    match e {
        CompoundPoissonError::InsufficientEvents { got, need } => "Insufficient events: got "@
            + decimal(got as nat) + ", need "@ + decimal(need as nat),
        CompoundPoissonError::InvalidParameter(msg) => "Invalid parameter: "@ + msg@,
        CompoundPoissonError::ZeroDuration => "Zero observation duration"@,
        CompoundPoissonError::RegimeNotFound(r) => "Regime "@ + decimal(r as nat) + " not found"@,
    }
}

impl CompoundPoissonError {
    /// Display text of the error.
    pub fn to_string(&self) -> (s: String)
        ensures
            s@ == compound_poisson_error_text(*self),
    {
        match self {
            CompoundPoissonError::InsufficientEvents { got, need } => {
                let mut s = String::from_str("Insufficient events: got ");
                push_decimal(&mut s, *got as u64);
                s.append(", need ");
                push_decimal(&mut s, *need as u64);
                s
            },
            CompoundPoissonError::InvalidParameter(msg) => String::from_str(
                "Invalid parameter: ",
            ).concat(msg.as_str()),
            CompoundPoissonError::ZeroDuration => String::from_str("Zero observation duration"),
            CompoundPoissonError::RegimeNotFound(r) => {
                let mut s = String::from_str("Regime ");
                push_decimal(&mut s, *r as u64);
                s.append(" not found");
                s
            },
        }
    }
}

} // verus!
