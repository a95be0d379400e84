//! Per-cycle decisions of the telemetry client.
//!
//! The client drives the generator on a fixed cadence: each cycle it tries
//! to connect, and on success sends the encoded vector for the current
//! simulated time. The logical clock advances by one tenth every cycle,
//! whether or not the connection succeeded; failure is never fatal.

use vstd::prelude::*;
use crate::phase::sim_seconds;
use crate::state_vector::{Mode, LANE_COUNT, all_values_wf, state_values, generate};
use crate::wire::{enc_payload, encode_values};

verus! {

/// The telemetry client's whole state between cycles: its mode and the
/// simulated clock, counted in tenths.
pub struct Detector {
    pub mode: Mode,
    pub t_tenths: u64,
}

impl Detector {
    pub fn new(mode: Mode) -> (d: Detector)
        ensures
            d.mode == mode,
            d.t_tenths == 0,
    {
        Detector { mode, t_tenths: 0 }
    }

    /// One cycle: when the connection attempt succeeded, the payload for the
    /// current simulated time is produced to be written; when it failed,
    /// nothing is sent. Either way the logical clock advances by one step.
    pub fn cycle(&mut self, connected: bool, density: &Vec<u32>, queue: &Vec<u32>) -> (payload:
        Option<Vec<u8>>)
        requires
            old(self).t_tenths < u64::MAX / 3,
            density@.len() == LANE_COUNT,
            queue@.len() == LANE_COUNT,
            all_values_wf(density@),
            all_values_wf(queue@),
        ensures
            final(self).mode == old(self).mode,
            final(self).t_tenths == old(self).t_tenths + 1,
            connected ==> (payload matches Some(p) && p@ == enc_payload(
                state_values(
                    old(self).mode,
                    sim_seconds(old(self).t_tenths as int),
                    density@,
                    queue@,
                ),
            )),
            !connected ==> payload is None,
    {
        let payload = if connected {
            let sv = generate(self.mode, self.t_tenths, density, queue);
            Some(encode_values(&sv.values))
        } else {
            None
        };
        self.t_tenths = self.t_tenths + 1;
        payload
    }
}

} // verus!
