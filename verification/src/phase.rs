//! The time-to-phase mapping of the signal clock.
//!
//! Simulated time is counted in tenths of a logical unit; one logical unit
//! stands for thirty seconds of signal time, so each tenth is three seconds.
//! Four phases rotate, thirty seconds each, and a phase satisfies the
//! minimum-green policy once it has held for ten seconds.

use vstd::prelude::*;

verus! {

/// Seconds of signal time that have passed after `t_tenths` steps of the
/// simulated clock: three seconds per step.
pub open spec fn sim_seconds(t_tenths: int) -> int {
    3 * t_tenths
}

/// Index of the active phase: four phases rotate, thirty seconds each.
pub open spec fn phase_index_of(cts: int) -> int {
    (cts / 30) % 4
}

/// Seconds the active phase has already held.
pub open spec fn time_in_phase_of(cts: int) -> int {
    cts % 30
}

/// The minimum-green policy holds once the phase has held ten seconds.
pub open spec fn min_green_of(cts: int) -> bool {
    time_in_phase_of(cts) >= 10
}

/// Signal state derived from a moment of simulated time; recomputed every
/// cycle and never stored.
#[derive(Clone, Copy, PartialEq, Eq, Structural, Debug)]
pub struct PhaseState {
    pub phase_index: u8,
    pub time_in_phase: u8,
    pub min_green: bool,
}

/// Seconds of signal time for a simulated clock reading.
pub fn current_time_seconds(t_tenths: u64) -> (cts: u64)
    requires
        t_tenths <= u64::MAX / 3,
    ensures
        cts == sim_seconds(t_tenths as int),
{
    3 * t_tenths
}

/// Derives the phase index, the time spent in the phase, and the
/// minimum-green flag from the current second of signal time.
pub fn phase_state(cts: u64) -> (p: PhaseState)
    ensures
        p.phase_index == phase_index_of(cts as int),
        p.time_in_phase == time_in_phase_of(cts as int),
        p.min_green == min_green_of(cts as int),
{
    let phase_index: u8 = ((cts / 30) % 4) as u8;
    let time_in_phase: u8 = (cts % 30) as u8;
    PhaseState { phase_index, time_in_phase, min_green: time_in_phase >= 10 }
}

/// The phase index cycles: thirty seconds later the next of the four phases
/// is active, wrapping from the last back to the first.
pub proof fn lemma_phase_cycles(cts: int)
    requires
        cts >= 0,
    ensures
        phase_index_of(cts + 30) == (phase_index_of(cts) + 1) % 4,
{
    assert((cts + 30) / 30 == cts / 30 + 1) by (nonlinear_arith);
    assert((cts / 30 + 1) % 4 == ((cts / 30) % 4 + 1) % 4) by (nonlinear_arith);
}

/// Within one thirty-second window the phase index does not change: every
/// moment shares the index of the second at which its phase began.
pub proof fn lemma_phase_constant_within(cts: int)
    requires
        cts >= 0,
    ensures
        phase_index_of(cts) == phase_index_of(cts - time_in_phase_of(cts)),
{
    assert((cts - cts % 30) / 30 == cts / 30) by (nonlinear_arith);
}

} // verus!
