//! Synthesis of the telemetry vector.
//!
//! Every numeric entry of the vector is a value in hundredths: the integer
//! `q` stands for `q / 100`, a number in `[0.00, 100.00]` rounded to exactly
//! two decimal places. The density and queue-length curves themselves are
//! closed-form sinusoids of simulated time, sampled by the caller; this
//! module assembles them with the phase fields into the fixed field order of
//! the wire vector and carries the range invariant.

use vstd::prelude::*;
use crate::phase::{
    sim_seconds, phase_index_of, min_green_of, current_time_seconds, phase_state,
};

verus! {

/// Number of telemetry lanes; each lane contributes one density and one
/// queue-length value.
pub const LANE_COUNT: usize = 19;

/// Which fields the vector carries: the full form with phase and
/// minimum-green fields, or the reduced form with the curves alone.
#[derive(Clone, Copy, PartialEq, Eq, Structural, Debug)]
pub enum Mode {
    Full,
    Reduced,
}

/// A telemetry value in hundredths: at most `100.00`.
pub open spec fn value_wf(q: u32) -> bool {
    q <= 10000
}

pub open spec fn all_values_wf(vs: Seq<u32>) -> bool {
    forall|i: int| 0 <= i < vs.len() ==> value_wf(vs[i])
}

/// One-hot encoding of the active phase: `1.00` at the phase index, `0.00`
/// elsewhere.
pub open spec fn one_hot_of(p: int) -> Seq<u32> {
    seq![
        if p == 0 { 100u32 } else { 0u32 },
        if p == 1 { 100u32 } else { 0u32 },
        if p == 2 { 100u32 } else { 0u32 },
        if p == 3 { 100u32 } else { 0u32 },
    ]
}

/// The minimum-green flag as a vector entry: `1.00` or `0.00`.
pub open spec fn min_green_value(cts: int) -> u32 {
    if min_green_of(cts) { 100u32 } else { 0u32 }
}

/// The field order of the vector: in full mode the one-hot phase fields,
/// then the minimum-green flag, then the density and queue-length curves;
/// in reduced mode the two curves alone.
pub open spec fn state_values(mode: Mode, cts: int, density: Seq<u32>, queue: Seq<u32>) -> Seq<u32> {
    match mode {
        Mode::Full => one_hot_of(phase_index_of(cts)) + seq![min_green_value(cts)] + density
            + queue,
        Mode::Reduced => density + queue,
    }
}

/// The telemetry vector of one cycle.
pub struct StateVector {
    pub mode: Mode,
    pub values: Vec<u32>,
}

impl StateVector {
    /// Well-formedness: every entry is in range, the length fits the mode,
    /// and in full mode exactly one of the four phase fields is `1.00` and
    /// the minimum-green field is `0.00` or `1.00`.
    pub open spec fn wf(self) -> bool {
        &&& all_values_wf(self.values@)
        &&& match self.mode {
            Mode::Full => {
                &&& self.values@.len() == 43
                &&& exists|j: int|
                    0 <= j < 4 && self.values@[j] == 100 && (forall|k: int|
                        0 <= k < 4 && k != j ==> self.values@[k] == 0)
                &&& (self.values@[4] == 0 || self.values@[4] == 100)
            }
            Mode::Reduced => self.values@.len() == 38,
        }
    }
}

/// In full mode exactly one entry of the one-hot phase fields is `1.00`:
/// one index holds it and every other holds `0.00`.
pub proof fn lemma_one_hot_exactly_one(sv: StateVector)
    requires
        sv.wf(),
        sv.mode == Mode::Full,
    ensures
        exists|j: int|
            0 <= j < 4 && sv.values@[j] == 100 && (forall|k: int|
                0 <= k < 4 && k != j ==> sv.values@[k] == 0),
{
}

/// The vector's length is fixed by the mode: forty-three values with the
/// phase fields, thirty-eight without.
pub proof fn lemma_state_values_len(mode: Mode, cts: int, density: Seq<u32>, queue: Seq<u32>)
    requires
        density.len() == LANE_COUNT,
        queue.len() == LANE_COUNT,
    ensures
        state_values(mode, cts, density, queue).len() == match mode {
            Mode::Full => 43int,
            Mode::Reduced => 38int,
        },
{
}

/// Assembles the vector for one cycle of simulated time from the sampled
/// density and queue-length curves.
pub fn generate(mode: Mode, t_tenths: u64, density: &Vec<u32>, queue: &Vec<u32>) -> (sv: StateVector)
    requires
        t_tenths <= u64::MAX / 3,
        density@.len() == LANE_COUNT,
        queue@.len() == LANE_COUNT,
        all_values_wf(density@),
        all_values_wf(queue@),
    ensures
        sv.mode == mode,
        sv.values@ == state_values(mode, sim_seconds(t_tenths as int), density@, queue@),
        sv.wf(),
{
    let ghost cts: int = sim_seconds(t_tenths as int);
    let mut values: Vec<u32> = Vec::new();
    match mode {
        Mode::Full => {
            let seconds = current_time_seconds(t_tenths);
            let p = phase_state(seconds);
            values.push(if p.phase_index == 0 { 100 } else { 0 });
            values.push(if p.phase_index == 1 { 100 } else { 0 });
            values.push(if p.phase_index == 2 { 100 } else { 0 });
            values.push(if p.phase_index == 3 { 100 } else { 0 });
            values.push(if p.min_green { 100 } else { 0 });
            proof {
                assert(values@ =~= one_hot_of(phase_index_of(cts)) + seq![min_green_value(cts)]);
            }
        }
        Mode::Reduced => {},
    }
    let ghost header: Seq<u32> = values@;
    let mut i: usize = 0;
    while i < density.len()
        invariant
            0 <= i <= density@.len(),
            values@ == header + density@.take(i as int),
        decreases density@.len() - i,
    {
        values.push(density[i]);
        proof {
            assert(values@ =~= header + density@.take(i + 1));
        }
        i = i + 1;
    }
    proof {
        assert(density@.take(density@.len() as int) =~= density@);
    }
    let mut i: usize = 0;
    while i < queue.len()
        invariant
            0 <= i <= queue@.len(),
            values@ == header + density@ + queue@.take(i as int),
        decreases queue@.len() - i,
    {
        values.push(queue[i]);
        proof {
            assert(values@ =~= header + density@ + queue@.take(i + 1));
        }
        i = i + 1;
    }
    proof {
        assert(queue@.take(queue@.len() as int) =~= queue@);
        assert(values@ =~= state_values(mode, cts, density@, queue@));
    }
    let sv = StateVector { mode, values };
    proof {
        if mode == Mode::Full {
            let j = phase_index_of(cts);
            assert(0 <= j < 4);
            assert(sv.values@[j] == 100);
        }
    }
    sv
}

} // verus!
