//! Vocabulary of KL-surprisal abnormality reports: reference classes,
//! deviation kinds, severities and directions.
use vstd::prelude::*;

verus! {

/// Default minimum number of samples before a comparison is made.
pub fn default_min_samples() -> (n: usize)
    ensures
        n == 10,
{
    10
}

/// Computations use the log domain by default.
pub fn default_use_log_domain() -> (b: bool)
    ensures
        b,
{
    true
}

/// Reference class for comparison.
#[derive(Debug, Clone, Copy, PartialEq, Eq, Structural)]
pub enum ReferenceClass {
    /// Global baseline across all processes.
    Global,
    /// Per-category baseline (e.g., all dev servers).
    Category,
    /// Per-signature baseline (e.g., all "jest" processes).
    Signature,
    /// Historical baseline for this specific process.
    Historical,
}

/// Display text of a reference class.
pub open spec fn reference_class_text(r: ReferenceClass) -> Seq<char> {
    match r {
        ReferenceClass::Global => "global"@,
        ReferenceClass::Category => "category"@,
        ReferenceClass::Signature => "signature"@,
        ReferenceClass::Historical => "historical"@,
    }
}

impl ReferenceClass {
    /// Display text.
    pub fn to_string(&self) -> (s: String)
        ensures
            s@ == reference_class_text(*self),
    {
        let t = match self {
            ReferenceClass::Global => "global",
            ReferenceClass::Category => "category",
            ReferenceClass::Signature => "signature",
            ReferenceClass::Historical => "historical",
        };
        String::from_str(t)
    }
}

/// Type of deviation detected.
#[derive(Debug, Clone, Copy, PartialEq, Eq, Structural)]
pub enum DeviationType {
    CpuUsage,
    MemoryUsage,
    IoPattern,
    NetworkActivity,
    Timing,
    General,
}

/// Display text of a deviation type.
pub open spec fn deviation_type_text(d: DeviationType) -> Seq<char> {
    match d {
        DeviationType::CpuUsage => "CPU usage"@,
        DeviationType::MemoryUsage => "memory usage"@,
        DeviationType::IoPattern => "I/O pattern"@,
        DeviationType::NetworkActivity => "network activity"@,
        DeviationType::Timing => "timing"@,
        DeviationType::General => "general"@,
    }
}

impl DeviationType {
    /// Display text.
    pub fn to_string(&self) -> (s: String)
        ensures
            s@ == deviation_type_text(*self),
    {
        let t = match self {
            DeviationType::CpuUsage => "CPU usage",
            DeviationType::MemoryUsage => "memory usage",
            DeviationType::IoPattern => "I/O pattern",
            DeviationType::NetworkActivity => "network activity",
            DeviationType::Timing => "timing",
            DeviationType::General => "general",
        };
        String::from_str(t)
    }
}

/// Severity of detected abnormality, from least to most severe.
#[derive(Debug, Clone, Copy, PartialEq, Eq, PartialOrd, Ord, Structural)]
pub enum AbnormalitySeverity {
    Normal,
    Mild,
    Moderate,
    Severe,
    Critical,
}

/// Rank of a severity (0 = normal, 4 = critical).
pub open spec fn severity_rank(s: AbnormalitySeverity) -> nat {
    match s {
        AbnormalitySeverity::Normal => 0,
        AbnormalitySeverity::Mild => 1,
        AbnormalitySeverity::Moderate => 2,
        AbnormalitySeverity::Severe => 3,
        AbnormalitySeverity::Critical => 4,
    }
}

/// Display text of a severity.
pub open spec fn severity_text(s: AbnormalitySeverity) -> Seq<char> {
    match s {
        AbnormalitySeverity::Normal => "normal"@,
        AbnormalitySeverity::Mild => "mild"@,
        AbnormalitySeverity::Moderate => "moderate"@,
        AbnormalitySeverity::Severe => "severe"@,
        AbnormalitySeverity::Critical => "critical"@,
    }
}

impl AbnormalitySeverity {
    /// Rank of the severity, in declaration order.
    pub fn rank(&self) -> (r: u8)
        ensures
            r == severity_rank(*self),
    {
        match self {
            AbnormalitySeverity::Normal => 0,
            AbnormalitySeverity::Mild => 1,
            AbnormalitySeverity::Moderate => 2,
            AbnormalitySeverity::Severe => 3,
            AbnormalitySeverity::Critical => 4,
        }
    }

    /// Display text.
    pub fn to_string(&self) -> (s: String)
        ensures
            s@ == severity_text(*self),
    {
        let t = match self {
            AbnormalitySeverity::Normal => "normal",
            AbnormalitySeverity::Mild => "mild",
            AbnormalitySeverity::Moderate => "moderate",
            AbnormalitySeverity::Severe => "severe",
            AbnormalitySeverity::Critical => "critical",
        };
        String::from_str(t)
    }
}

/// Direction of deviation from reference.
#[derive(Debug, Clone, Copy, PartialEq, Eq, Structural)]
pub enum DeviationDirection {
    Higher,
    Lower,
    Match,
}

/// Display text of a direction.
pub open spec fn direction_text(d: DeviationDirection) -> Seq<char> {
    match d {
        DeviationDirection::Higher => "higher"@,
        DeviationDirection::Lower => "lower"@,
        DeviationDirection::Match => "match"@,
    }
}

impl DeviationDirection {
    /// Display text.
    pub fn to_string(&self) -> (s: String)
        ensures
            s@ == direction_text(*self),
    {
        let t = match self {
            DeviationDirection::Higher => "higher",
            DeviationDirection::Lower => "lower",
            DeviationDirection::Match => "match",
        };
        String::from_str(t)
    }
}

} // verus!
