//! The four process states of the POMDP belief model and their indices.
use vstd::prelude::*;

verus! {

/// Number of states in the POMDP model.
pub const NUM_STATES: usize = 4;

/// Process state for the 4-class POMDP model.
#[derive(Debug, Clone, Copy, PartialEq, Eq, Hash, Structural)]
pub enum ProcessState {
    /// Active process doing productive work.
    Useful,
    /// Active but consuming excessive resources (CPU hog, memory leak).
    UsefulBad,
    /// No longer needed but still consuming resources.
    Abandoned,
    /// Defunct/zombie process state.
    Zombie,
}

/// Index of a state (0-3).
pub open spec fn process_state_index(s: ProcessState) -> nat {
    match s {
        ProcessState::Useful => 0,
        ProcessState::UsefulBad => 1,
        ProcessState::Abandoned => 2,
        ProcessState::Zombie => 3,
    }
}

/// The state with a given index, if any.
pub open spec fn process_state_at(i: nat) -> Option<ProcessState> {
    if i == 0 {
        Some(ProcessState::Useful)
    } else if i == 1 {
        Some(ProcessState::UsefulBad)
    } else if i == 2 {
        Some(ProcessState::Abandoned)
    } else if i == 3 {
        Some(ProcessState::Zombie)
    } else {
        None
    }
}

/// Display name of a state.
pub open spec fn process_state_name(s: ProcessState) -> Seq<char> {
    match s {
        ProcessState::Useful => "Useful"@,
        ProcessState::UsefulBad => "UsefulBad"@,
        ProcessState::Abandoned => "Abandoned"@,
        ProcessState::Zombie => "Zombie"@,
    }
}

/// Human-readable description of a state.
pub open spec fn process_state_description(s: ProcessState) -> Seq<char> {
    match s {
        ProcessState::Useful => "Active and productive"@,
        ProcessState::UsefulBad => "Active but resource-heavy"@,
        ProcessState::Abandoned => "No longer needed"@,
        ProcessState::Zombie => "Defunct process"@,
    }
}

impl ProcessState {
    /// All possible states in order.
    pub const ALL: [ProcessState; 4] = [
        ProcessState::Useful,
        ProcessState::UsefulBad,
        ProcessState::Abandoned,
        ProcessState::Zombie,
    ];

    /// Convert from index to state.
    pub fn from_index(idx: usize) -> (s: Option<ProcessState>)
        ensures
            s == process_state_at(idx as nat),
    {
        match idx {
            0 => Some(ProcessState::Useful),
            1 => Some(ProcessState::UsefulBad),
            2 => Some(ProcessState::Abandoned),
            3 => Some(ProcessState::Zombie),
            _ => None,
        }
    }

    /// Convert state to index.
    pub fn to_index(self) -> (i: usize)
        ensures
            i == process_state_index(self),
    {
        match self {
            ProcessState::Useful => 0,
            ProcessState::UsefulBad => 1,
            ProcessState::Abandoned => 2,
            ProcessState::Zombie => 3,
        }
    }

    /// Check if this is a "bad" state (candidate for action).
    pub fn is_actionable(self) -> (b: bool)
        ensures
            b == (self != ProcessState::Useful),
    {
        match self {
            ProcessState::Useful => false,
            _ => true,
        }
    }

    /// Human-readable description.
    pub fn description(self) -> (d: &'static str)
        ensures
            d@ == process_state_description(self),
    {
        match self {
            ProcessState::Useful => "Active and productive",
            ProcessState::UsefulBad => "Active but resource-heavy",
            ProcessState::Abandoned => "No longer needed",
            ProcessState::Zombie => "Defunct process",
        }
    }

    /// Display text of the state ("Useful", "UsefulBad", "Abandoned", "Zombie").
    pub fn to_string(&self) -> (s: String)
        ensures
            s@ == process_state_name(*self),
    {
        let name = match self {
            ProcessState::Useful => "Useful",
            ProcessState::UsefulBad => "UsefulBad",
            ProcessState::Abandoned => "Abandoned",
            ProcessState::Zombie => "Zombie",
        };
        String::from_str(name)
    }
}

/// Index and state are inverse: every state's index is below the number of
/// states and names the state again, and every index below it names a state
/// with that index.  Exactly the non-useful states are actionable.
pub proof fn lemma_process_state_index(s: ProcessState, i: nat)
    ensures
        process_state_index(s) < NUM_STATES,
        process_state_at(process_state_index(s)) == Some(s),
        process_state_at(i) is Some <==> i < NUM_STATES,
        process_state_at(i) matches Some(t) ==> process_state_index(t) == i,
        (s != ProcessState::Useful) <==> process_state_index(s) != 0,
{
}

} // verus!
