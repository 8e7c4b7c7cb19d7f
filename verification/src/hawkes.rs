//! Burst intensity levels of the self-exciting event model.
use vstd::prelude::*;

verus! {

/// Burst intensity level classification.
#[derive(Debug, Clone, Copy, PartialEq, Eq, Structural)]
pub enum BurstLevel {
    /// Very low burst activity (n < 0.1).
    VeryLow,
    /// Low burst activity (0.1 <= n < 0.3).
    Low,
    /// Moderate burst activity (0.3 <= n < 0.5).
    Moderate,
    /// High burst activity (0.5 <= n < 0.7).
    High,
    /// Very high burst activity (n >= 0.7).
    VeryHigh,
}

/// Display text of a burst level.
pub open spec fn burst_level_text(b: BurstLevel) -> Seq<char> {
    match b {
        BurstLevel::VeryLow => "very_low"@,
        BurstLevel::Low => "low"@,
        BurstLevel::Moderate => "moderate"@,
        BurstLevel::High => "high"@,
        BurstLevel::VeryHigh => "very_high"@,
    }
}

impl BurstLevel {
    /// Display text ("very_low", "low", "moderate", "high", "very_high").
    pub fn to_string(&self) -> (s: String)
        ensures
            s@ == burst_level_text(*self),
    {
        let t = match self {
            BurstLevel::VeryLow => "very_low",
            BurstLevel::Low => "low",
            BurstLevel::Moderate => "moderate",
            BurstLevel::High => "high",
            BurstLevel::VeryHigh => "very_high",
        };
        String::from_str(t)
    }
}

} // verus!
