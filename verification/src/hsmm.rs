//! Hidden states of the semi-Markov process model, their names and the
//! errors reported by the model.
use crate::ledger::{classification_label_spec, Classification};
use crate::text::{decimal, push_decimal};
use vstd::prelude::*;

verus! {

/// The four hidden states representing process classification categories.
#[derive(Debug, Clone, Copy, PartialEq, Eq, Hash, Structural)]
pub enum HsmmState {
    /// Process is useful and functioning normally.
    Useful,
    /// Process is useful but consuming excessive resources.
    UsefulBad,
    /// Process appears to be abandoned by the user.
    Abandoned,
    /// Process is stuck/unresponsive (zombie-like behavior).
    Zombie,
}

/// Matrix index of a state.
pub open spec fn hsmm_index(s: HsmmState) -> nat {
    match s {
        HsmmState::Useful => 0,
        HsmmState::UsefulBad => 1,
        HsmmState::Abandoned => 2,
        HsmmState::Zombie => 3,
    }
}

/// The state with a given index, if any.
pub open spec fn hsmm_at(i: nat) -> Option<HsmmState> {
    if i == 0 {
        Some(HsmmState::Useful)
    } else if i == 1 {
        Some(HsmmState::UsefulBad)
    } else if i == 2 {
        Some(HsmmState::Abandoned)
    } else if i == 3 {
        Some(HsmmState::Zombie)
    } else {
        None
    }
}

/// Snake-case name of a state.
pub open spec fn hsmm_name(s: HsmmState) -> Seq<char> {
    match s {
        HsmmState::Useful => "useful"@,
        HsmmState::UsefulBad => "useful_bad"@,
        HsmmState::Abandoned => "abandoned"@,
        HsmmState::Zombie => "zombie"@,
    }
}

/// The decision-core classification of a state.
pub open spec fn hsmm_classification(s: HsmmState) -> Classification {
    match s {
        HsmmState::Useful => Classification::Useful,
        HsmmState::UsefulBad => Classification::UsefulBad,
        HsmmState::Abandoned => Classification::Abandoned,
        HsmmState::Zombie => Classification::Zombie,
    }
}

impl HsmmState {
    /// Number of states in the model.
    pub const NUM_STATES: usize = 4;

    /// All states in order.
    pub const ALL: [HsmmState; 4] = [
        HsmmState::Useful,
        HsmmState::UsefulBad,
        HsmmState::Abandoned,
        HsmmState::Zombie,
    ];

    /// Get the index of this state (for matrix operations).
    pub fn index(&self) -> (i: usize)
        ensures
            i == hsmm_index(*self),
    {
        match self {
            HsmmState::Useful => 0,
            HsmmState::UsefulBad => 1,
            HsmmState::Abandoned => 2,
            HsmmState::Zombie => 3,
        }
    }

    /// Create a state from an index.
    pub fn from_index(idx: usize) -> (s: Option<Self>)
        ensures
            s == hsmm_at(idx as nat),
    {
        match idx {
            0 => Some(HsmmState::Useful),
            1 => Some(HsmmState::UsefulBad),
            2 => Some(HsmmState::Abandoned),
            3 => Some(HsmmState::Zombie),
            _ => None,
        }
    }

    /// Get human-readable name.
    pub fn name(&self) -> (n: &'static str)
        ensures
            n@ == hsmm_name(*self),
    {
        match self {
            HsmmState::Useful => "useful",
            HsmmState::UsefulBad => "useful_bad",
            HsmmState::Abandoned => "abandoned",
            HsmmState::Zombie => "zombie",
        }
    }

    /// Map to the decision core Classification type.
    pub fn to_classification(&self) -> (c: Classification)
        ensures
            c == hsmm_classification(*self),
    {
        match self {
            HsmmState::Useful => Classification::Useful,
            HsmmState::UsefulBad => Classification::UsefulBad,
            HsmmState::Abandoned => Classification::Abandoned,
            HsmmState::Zombie => Classification::Zombie,
        }
    }

    /// Display text: the state's name.
    pub fn to_string(&self) -> (s: String)
        ensures
            s@ == hsmm_name(*self),
    {
        String::from_str(self.name())
    }
}

/// Index and state are inverse; a state's classification carries the same
/// label as the state's name.
pub proof fn lemma_hsmm_state(s: HsmmState, i: nat)
    ensures
        hsmm_index(s) < 4,
        hsmm_at(hsmm_index(s)) == Some(s),
        hsmm_at(i) is Some <==> i < 4,
        hsmm_at(i) matches Some(t) ==> hsmm_index(t) == i,
        classification_label_spec(hsmm_classification(s)) == hsmm_name(s),
{
}

/// The state in which most time was spent, given the time spent in each
/// state in index order; the earliest such state wins ties, and `Useful` is
/// reported when no time was recorded.
pub open spec fn dominant_spec(totals: Seq<usize>) -> HsmmState
    recommends
        totals.len() == 4,
{
    let best = dominant_index(totals, 4);
    if totals[best] == 0 {
        HsmmState::Useful
    } else {
        hsmm_at(best as nat).unwrap()
    }
}

/// Index of the first maximum among the first `n` totals.
pub open spec fn dominant_index(totals: Seq<usize>, n: int) -> int
    decreases n,
{
    if n <= 1 {
        0
    } else {
        let b = dominant_index(totals, n - 1);
        if totals[n - 1] > totals[b] {
            n - 1
        } else {
            b
        }
    }
}

proof fn lemma_dominant_index(totals: Seq<usize>, n: int)
    requires
        1 <= n <= totals.len(),
    ensures
        0 <= dominant_index(totals, n) < n,
        forall|k: int| 0 <= k < n ==> #[trigger] totals[k] <= totals[dominant_index(totals, n)],
        forall|k: int| 0 <= k < dominant_index(totals, n) ==> #[trigger] totals[k] < totals[dominant_index(totals, n)],
    decreases n,
{
    if n > 1 {
        lemma_dominant_index(totals, n - 1);
    }
}

/// The dominant state is one with the largest total time, the earliest such
/// state in index order, and it has a positive total whenever any state does
/// (with no time recorded at all, `Useful`).
pub proof fn lemma_dominant_state(totals: Seq<usize>)
    requires
        totals.len() == 4,
    ensures
        forall|k: int| 0 <= k < 4 ==> #[trigger] totals[k] <= totals[hsmm_index(dominant_spec(totals)) as int],
        forall|k: int|
            0 <= k < hsmm_index(dominant_spec(totals)) ==> #[trigger] totals[k] < totals[hsmm_index(
                dominant_spec(totals),
            ) as int],
        (exists|k: int| 0 <= k < 4 && #[trigger] totals[k] > 0) ==> totals[hsmm_index(
            dominant_spec(totals),
        ) as int] > 0,
        (forall|k: int| 0 <= k < 4 ==> #[trigger] totals[k] == 0) ==> dominant_spec(totals)
            == HsmmState::Useful,
{
    lemma_dominant_index(totals, 4);
    let b = dominant_index(totals, 4);
    let s = dominant_spec(totals);
    if totals[b] != 0 {
        lemma_hsmm_state(s, b as nat);
        assert(hsmm_at(b as nat) == Some(s));
        assert(hsmm_index(s) == b);
    } else {
        assert(hsmm_index(s) == 0);
        assert forall|k: int| 0 <= k < 4 implies #[trigger] totals[k] <= totals[hsmm_index(s) as int] by {
            assert(totals[k] <= totals[b]);
        }
    }
}

/// Dominant state (most time spent) from the total time in each state, in
/// index order.
pub fn dominant_state(totals: &[usize; 4]) -> (s: HsmmState)
    ensures
        s == dominant_spec(totals@),
        forall|k: int| 0 <= k < 4 ==> #[trigger] totals@[k] <= totals@[dominant_index(totals@, 4)],
        forall|k: int| 0 <= k < 4 ==> #[trigger] totals@[k] <= totals@[hsmm_index(s) as int],
        (exists|k: int| 0 <= k < 4 && #[trigger] totals@[k] > 0) ==> totals@[hsmm_index(s) as int] > 0,
        forall|k: int| 0 <= k < hsmm_index(s) ==> #[trigger] totals@[k] < totals@[hsmm_index(s) as int],
{
    proof {
        lemma_dominant_index(totals@, 4);
        lemma_dominant_state(totals@);
    }
    let mut max_time: usize = 0;
    let mut dominant = HsmmState::Useful;
    let mut best: usize = 0;
    for i in 0..4
        invariant
            i <= 4,
            best < 4,
            i > 0 ==> best == dominant_index(totals@, i as int),
            i == 0 ==> best == 0,
            max_time == if i == 0 { 0 } else { totals@[best as int] },
            (max_time == 0 ==> dominant == HsmmState::Useful),
            (max_time > 0 ==> hsmm_at(best as nat) == Some(dominant)),
    {
        let t = totals[i];
        if t > max_time {
            max_time = t;
            dominant = match HsmmState::from_index(i) {
                Some(s) => s,
                None => HsmmState::Useful,
            };
            best = i;
        }
        proof {
            if i == 0 {
                if t > 0 {
                    assert(best == 0);
                }
            }
        }
    }
    dominant
}

/// Errors from HSMM processing.
#[derive(Debug, Clone)]
pub enum HsmmError {
    /// Configuration is invalid.
    InvalidConfig(String),
    /// Observation dimension mismatch.
    DimensionMismatch { expected: usize, got: usize },
    /// No observations provided.
    NoObservations,
    /// Numerical instability detected.
    NumericalInstability(String),
}

/// Display text of an error.
pub open spec fn hsmm_error_text(e: HsmmError) -> Seq<char> {
    match e {
        HsmmError::InvalidConfig(msg) => "Invalid HSMM config: "@ + msg@,
        HsmmError::DimensionMismatch { expected, got } => "Dimension mismatch: expected "@
            + decimal(expected as nat) + ", got "@ + decimal(got as nat),
        HsmmError::NoObservations => "No observations provided"@,
        HsmmError::NumericalInstability(msg) => "Numerical instability: "@ + msg@,
    }
}

impl HsmmError {
    /// Display text of the error.
    pub fn to_string(&self) -> (s: String)
        ensures
            s@ == hsmm_error_text(*self),
    {
        match self {
            HsmmError::InvalidConfig(msg) => {
                let mut s = String::from_str("Invalid HSMM config: ");
                s.append(msg.as_str());
                s
            },
            HsmmError::DimensionMismatch { expected, got } => {
                let mut s = String::from_str("Dimension mismatch: expected ");
                push_decimal(&mut s, *expected as u64);
                s.append(", got ");
                push_decimal(&mut s, *got as u64);
                s
            },
            HsmmError::NoObservations => String::from_str("No observations provided"),
            HsmmError::NumericalInstability(msg) => {
                let mut s = String::from_str("Numerical instability: ");
                s.append(msg.as_str());
                s
            },
        }
    }
}

/// Sum of a sequence of counts.
pub open spec fn count_sum(s: Seq<usize>) -> nat
    decreases s.len(),
{
    if s.len() == 0 {
        0
    } else {
        count_sum(s.drop_last()) + s.last() as nat
    }
}

proof fn lemma_count_sum_update(s: Seq<usize>, i: int, v: usize)
    requires
        0 <= i < s.len(),
    ensures
        count_sum(s.update(i, v)) == count_sum(s) - s[i] + v,
        s[i] <= count_sum(s),
    decreases s.len(),
{
    if i < s.len() - 1 {
        lemma_count_sum_update(s.drop_last(), i, v);
        assert(s.update(i, v).drop_last() =~= s.drop_last().update(i, v));
    } else {
        assert(s.update(i, v).drop_last() =~= s.drop_last());
    }
}

/// A change of the most likely state, as the dwell bookkeeping records it.
#[derive(Debug, Clone, Copy, PartialEq, Eq, Structural)]
pub struct DwellSwitch {
    /// Time index (0-based observation number) of the switch.
    pub time_index: usize,
    /// State before the switch.
    pub from_state: HsmmState,
    /// State after the switch.
    pub to_state: HsmmState,
    /// Dwell counted in the previous state when it was left.
    pub previous_duration: usize,
}

/// Dwell bookkeeping of the semi-Markov analyzer: the most likely state, how
/// long it has been held, time spent in and entries into each state, and
/// the switches between states.
pub struct DwellTracker {
    current_state: HsmmState,
    current_duration: usize,
    state_durations: Vec<usize>,
    state_entries: Vec<usize>,
    num_observations: usize,
    switches: Vec<DwellSwitch>,
}

impl DwellTracker {
    /// Most likely state.
    pub closed spec fn state(&self) -> HsmmState {
        self.current_state
    }

    /// Dwell counter of the current state.
    pub closed spec fn duration(&self) -> nat {
        self.current_duration as nat
    }

    /// Observations spent in each state, by state index.
    pub closed spec fn durations(&self) -> Seq<usize> {
        self.state_durations@
    }

    /// Entries into each state, by state index.
    pub closed spec fn entries(&self) -> Seq<usize> {
        self.state_entries@
    }

    /// Number of observations.
    pub closed spec fn observations(&self) -> nat {
        self.num_observations as nat
    }

    /// Recorded switches, oldest first.
    pub closed spec fn switch_log(&self) -> Seq<DwellSwitch> {
        self.switches@
    }

    /// The counts add up: time in states is the number of observations,
    /// entries are one (the start) plus the switches, and the first
    /// observation never switches.
    pub closed spec fn wf(&self) -> bool {
        &&& self.state_durations@.len() == 4
        &&& self.state_entries@.len() == 4
        &&& count_sum(self.state_durations@) == self.num_observations
        &&& count_sum(self.state_entries@) == self.switches@.len() + 1
        &&& (self.switches@.len() < self.num_observations || self.switches@.len() == 0)
        &&& self.current_duration <= self.num_observations
    }

    /// Start in `initial`, the most likely state: that state is entered
    /// once, no time has been spent anywhere.
    pub fn new(initial: HsmmState) -> (t: Self)
        ensures
            t.wf(),
            t.state() == initial,
            t.duration() == 0,
            t.durations() == seq![0usize, 0, 0, 0],
            t.entries() == seq![0usize, 0, 0, 0].update(hsmm_index(initial) as int, 1usize),
            t.observations() == 0,
            t.switch_log() == Seq::<DwellSwitch>::empty(),
    {
        let mut entries: Vec<usize> = vec![0, 0, 0, 0];
        entries.set(initial.index(), 1);
        let t = DwellTracker {
            current_state: initial,
            current_duration: 0,
            state_durations: vec![0, 0, 0, 0],
            state_entries: entries,
            num_observations: 0,
            switches: Vec::new(),
        };
        proof {
            assert(t.state_durations@ =~= seq![0usize, 0, 0, 0]);
            assert(count_sum(t.state_durations@) == 0) by {
                reveal_with_fuel(count_sum, 5);
            }
            assert(count_sum(seq![0usize, 0, 0, 0]) == 0) by {
                reveal_with_fuel(count_sum, 5);
            }
            lemma_count_sum_update(seq![0usize, 0, 0, 0], hsmm_index(initial) as int, 1usize);
        }
        t
    }

    /// Account for one observation whose most likely state is `new_state`.
    /// A change of state after the first observation is a switch: it is
    /// recorded and returned, the dwell counter restarts and the new state's
    /// entries grow; in every case the new state's time grows by one.
    pub fn observe(&mut self, new_state: HsmmState) -> (switch: Option<DwellSwitch>)
        requires
            old(self).wf(),
            old(self).observations() < usize::MAX,
        ensures
            final(self).wf(),
            final(self).observations() == old(self).observations() + 1,
            final(self).state() == new_state,
            final(self).durations() == old(self).durations().update(
                hsmm_index(new_state) as int,
                (old(self).durations()[hsmm_index(new_state) as int] + 1) as usize,
            ),
            switch == (if new_state != old(self).state() && old(self).observations() >= 1 {
                Some(
                    DwellSwitch {
                        time_index: old(self).observations() as usize,
                        from_state: old(self).state(),
                        to_state: new_state,
                        previous_duration: (old(self).duration() + 1) as usize,
                    },
                )
            } else {
                None
            }),
            switch matches Some(w) ==> {
                &&& final(self).switch_log() == old(self).switch_log().push(w)
                &&& final(self).duration() == 0
                &&& final(self).entries() == old(self).entries().update(
                    hsmm_index(new_state) as int,
                    (old(self).entries()[hsmm_index(new_state) as int] + 1) as usize,
                )
            },
            switch is None ==> {
                &&& final(self).switch_log() == old(self).switch_log()
                &&& final(self).duration() == old(self).duration() + 1
                &&& final(self).entries() == old(self).entries()
            },
    {
        let prev_state = self.current_state;
        self.num_observations = self.num_observations + 1;
        self.current_duration = self.current_duration + 1;
        let ni = new_state.index();
        let mut result: Option<DwellSwitch> = None;
        if new_state != prev_state && self.num_observations > 1 {
            let w = DwellSwitch {
                time_index: self.num_observations - 1,
                from_state: prev_state,
                to_state: new_state,
                previous_duration: self.current_duration,
            };
            self.switches.push(w);
            self.current_duration = 0;
            proof {
                lemma_count_sum_update(self.state_entries@, ni as int, (self.state_entries@[ni as int] + 1) as usize);
            }
            let e = self.state_entries[ni];
            self.state_entries.set(ni, e + 1);
            result = Some(w);
        }
        proof {
            lemma_count_sum_update(self.state_durations@, ni as int, (self.state_durations@[ni as int] + 1) as usize);
        }
        let d = self.state_durations[ni];
        self.state_durations.set(ni, d + 1);
        self.current_state = new_state;
        result
    }

    /// Most likely state.
    pub fn current_state(&self) -> (s: HsmmState)
        ensures
            s == self.state(),
    {
        self.current_state
    }

    /// Dwell counter of the current state.
    pub fn current_duration(&self) -> (d: usize)
        ensures
            d == self.duration(),
    {
        self.current_duration
    }

    /// Number of observations.
    pub fn num_observations(&self) -> (n: usize)
        ensures
            n == self.observations(),
    {
        self.num_observations
    }

    /// Observations spent in the state with index `i`.
    pub fn state_duration(&self, i: usize) -> (d: usize)
        requires
            self.wf(),
            i < 4,
        ensures
            d == self.durations()[i as int],
    {
        self.state_durations[i]
    }

    /// Entries into the state with index `i`.
    pub fn state_entry_count(&self, i: usize) -> (e: usize)
        requires
            self.wf(),
            i < 4,
        ensures
            e == self.entries()[i as int],
    {
        self.state_entries[i]
    }

    /// Recorded switches, oldest first.
    pub fn switches(&self) -> (w: &Vec<DwellSwitch>)
        ensures
            w@ == self.switch_log(),
    {
        &self.switches
    }
}

/// Dwell accounting: the time spent in the four states adds up to the
/// number of observations, the entries into states are the start plus one
/// per recorded switch, and there are fewer switches than observations.
pub proof fn lemma_dwell_accounting(t: DwellTracker)
    requires
        t.wf(),
    ensures
        t.durations().len() == 4,
        t.entries().len() == 4,
        count_sum(t.durations()) == t.observations(),
        count_sum(t.entries()) == t.switch_log().len() + 1,
        t.switch_log().len() < t.observations() || t.switch_log().len() == 0,
{
}

} // verus!
