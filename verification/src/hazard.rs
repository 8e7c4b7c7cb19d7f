//! Hazard regimes: the conditions under which a process's hazard rate is
//! tracked separately.
use crate::text::{decimal, push_decimal};
use vstd::prelude::*;

verus! {

/// Regime types representing different process states.
#[derive(Debug, Clone, Copy, PartialEq, Eq, Hash, Structural)]
pub enum Regime {
    /// No abnormal conditions - baseline hazard.
    Normal,
    /// Process lost its controlling terminal.
    TtyLost,
    /// Process was reparented to init (PPID became 1).
    Orphaned,
    /// No I/O activity for extended period.
    IoFlatline,
    /// Sustained high CPU usage (potential runaway).
    CpuRunaway,
    /// High memory consumption.
    MemoryPressure,
    /// Process is running under nohup/disown.
    Backgrounded,
    /// Custom user-defined regime.
    Custom(u32),
}

/// Display text of a regime.
pub open spec fn hazard_regime_text(r: Regime) -> Seq<char> {
    match r {
        Regime::Normal => "normal"@,
        Regime::TtyLost => "tty_lost"@,
        Regime::Orphaned => "orphaned"@,
        Regime::IoFlatline => "io_flatline"@,
        Regime::CpuRunaway => "cpu_runaway"@,
        Regime::MemoryPressure => "memory_pressure"@,
        Regime::Backgrounded => "backgrounded"@,
        Regime::Custom(id) => "custom_"@ + decimal(id as nat),
    }
}

impl Regime {
    /// Display text ("normal", "tty_lost", ..., "custom_<id>").
    pub fn to_string(&self) -> (s: String)
        ensures
            s@ == hazard_regime_text(*self),
    {
        match self {
            Regime::Normal => String::from_str("normal"),
            Regime::TtyLost => String::from_str("tty_lost"),
            Regime::Orphaned => String::from_str("orphaned"),
            Regime::IoFlatline => String::from_str("io_flatline"),
            Regime::CpuRunaway => String::from_str("cpu_runaway"),
            Regime::MemoryPressure => String::from_str("memory_pressure"),
            Regime::Backgrounded => String::from_str("backgrounded"),
            Regime::Custom(id) => {
                let mut s = String::from_str("custom_");
                push_decimal(&mut s, *id as u64);
                s
            },
        }
    }
}

} // verus!
