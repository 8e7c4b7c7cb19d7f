//! Regimes of the interacting-multiple-model filter and its errors.
use crate::text::{decimal, push_decimal};
use vstd::prelude::*;

verus! {

/// Regime states for process behavior modeling.
#[derive(Debug, Clone, Copy, PartialEq, Eq, Hash, Structural)]
pub enum Regime {
    /// Low activity, stable state
    Idle,
    /// Normal/expected activity levels
    Active,
    /// Elevated activity, potentially problematic
    Elevated,
    /// Process appears stuck or unresponsive
    Stuck,
    /// Custom regime with numeric identifier
    Custom(u8),
}

/// Matrix index of a regime.
pub open spec fn regime_index(r: Regime) -> nat {
    match r {
        Regime::Idle => 0,
        Regime::Active => 1,
        Regime::Elevated => 2,
        Regime::Stuck => 3,
        Regime::Custom(i) => i as nat,
    }
}

/// The regime for an index: the four named regimes for 0-3, otherwise a
/// custom regime carrying the index truncated to 8 bits.
pub open spec fn regime_at(idx: usize) -> Regime {
    if idx == 0 {
        Regime::Idle
    } else if idx == 1 {
        Regime::Active
    } else if idx == 2 {
        Regime::Elevated
    } else if idx == 3 {
        Regime::Stuck
    } else {
        Regime::Custom(idx as u8)
    }
}

/// Name of a regime.
pub open spec fn regime_name(r: Regime) -> Seq<char> {
    match r {
        Regime::Idle => "idle"@,
        Regime::Active => "active"@,
        Regime::Elevated => "elevated"@,
        Regime::Stuck => "stuck"@,
        Regime::Custom(_) => "custom"@,
    }
}

impl Regime {
    /// Returns the index of this regime for matrix indexing.
    pub fn index(&self) -> (i: usize)
        ensures
            i == regime_index(*self),
    {
        match self {
            Regime::Idle => 0,
            Regime::Active => 1,
            Regime::Elevated => 2,
            Regime::Stuck => 3,
            Regime::Custom(i) => *i as usize,
        }
    }

    /// Creates a regime from an index.
    pub fn from_index(idx: usize) -> (r: Self)
        ensures
            r == regime_at(idx),
    {
        match idx {
            0 => Regime::Idle,
            1 => Regime::Active,
            2 => Regime::Elevated,
            3 => Regime::Stuck,
            i => Regime::Custom(i as u8),
        }
    }

    /// Returns a human-readable name for this regime.
    pub fn name(&self) -> (n: &'static str)
        ensures
            n@ == regime_name(*self),
    {
        match self {
            Regime::Idle => "idle",
            Regime::Active => "active",
            Regime::Elevated => "elevated",
            Regime::Stuck => "stuck",
            Regime::Custom(_) => "custom",
        }
    }

    /// Display text: the regime's name.
    pub fn to_string(&self) -> (s: String)
        ensures
            s@ == regime_name(*self),
    {
        String::from_str(self.name())
    }
}

/// An index below 256 survives the trip to a regime and back.  (From 256 on
/// the custom identifier is truncated: index 256 comes back as 0.)
pub proof fn lemma_regime_index_roundtrip(idx: usize)
    requires
        idx < 256,
    ensures
        regime_index(regime_at(idx)) == idx,
{
    if idx >= 4 {
        assert((idx as u8) == idx) by (bit_vector)
            requires
                idx < 256,
        ;
    }
}

/// Errors that can occur during IMM processing.
#[derive(Debug, Clone)]
pub enum ImmError {
    /// Configuration is invalid
    InvalidConfig(String),
    /// Transition matrix rows don't sum to 1
    InvalidTransitionMatrix(String),
    /// Numerical instability detected
    NumericalInstability(String),
    /// Dimension mismatch in matrices
    DimensionMismatch { expected: usize, got: usize },
    /// No observations processed yet
    NoObservations,
}

/// Display text of an error.
pub open spec fn imm_error_text(e: ImmError) -> Seq<char> {
    match e {
        ImmError::InvalidConfig(msg) => "Invalid IMM config: "@ + msg@,
        ImmError::InvalidTransitionMatrix(msg) => "Invalid transition matrix: "@ + msg@,
        ImmError::NumericalInstability(msg) => "Numerical instability: "@ + msg@,
        ImmError::DimensionMismatch { expected, got } => "Dimension mismatch: expected "@
            + decimal(expected as nat) + ", got "@ + decimal(got as nat),
        ImmError::NoObservations => "No observations processed yet"@,
    }
}

impl ImmError {
    /// Display text of the error.
    pub fn to_string(&self) -> (s: String)
        ensures
            s@ == imm_error_text(*self),
    {
        match self {
            ImmError::InvalidConfig(msg) => String::from_str("Invalid IMM config: ").concat(
                msg.as_str(),
            ),
            ImmError::InvalidTransitionMatrix(msg) => String::from_str(
                "Invalid transition matrix: ",
            ).concat(msg.as_str()),
            ImmError::NumericalInstability(msg) => String::from_str(
                "Numerical instability: ",
            ).concat(msg.as_str()),
            ImmError::DimensionMismatch { expected, got } => {
                let mut s = String::from_str("Dimension mismatch: expected ");
                push_decimal(&mut s, *expected as u64);
                s.append(", got ");
                push_decimal(&mut s, *got as u64);
                s
            },
            ImmError::NoObservations => String::from_str("No observations processed yet"),
        }
    }
}

} // verus!
