//! The shared record of when the last control command was executed.
//!
//! The controller keeps a single timestamp, counted in milliseconds. Each
//! successfully parsed command reads the previous value, computes the
//! interval since it, and overwrites it with the current time — as one unit,
//! so that concurrent handlers can never lose an update.

use vstd::prelude::*;

verus! {

/// Interval since the previous command, floored at zero when clock skew
/// would make it negative.
pub open spec fn interval_of(last_ms: u64, now_ms: u64) -> u64 {
    if now_ms >= last_ms {
        (now_ms - last_ms) as u64
    } else {
        0u64
    }
}

/// The single shared timestamp cell, constructed once at server startup and
/// handed to every connection handler.
pub struct LastExecution {
    pub last_ms: u64,
}

/// The timestamp left behind by a run of commands: the initial value if none
/// arrived, else the time of the last one.
pub open spec fn last_after(initial_ms: u64, times: Seq<u64>) -> u64 {
    if times.len() == 0 {
        initial_ms
    } else {
        times.last()
    }
}

/// The intervals logged when commands are processed strictly one after
/// another: each command is paired with the time of its predecessor.
pub open spec fn intervals_of(initial_ms: u64, times: Seq<u64>) -> Seq<u64> {
    Seq::new(
        times.len(),
        |i: int| interval_of(if i == 0 { initial_ms } else { times[i - 1] }, times[i]),
    )
}

impl LastExecution {
    pub fn new(now_ms: u64) -> (s: Self)
        ensures
            s.last_ms == now_ms,
    {
        LastExecution { last_ms: now_ms }
    }

    /// Read-and-overwrite as one unit: returns the interval since the
    /// previous command and stores the new time.
    pub fn record(&mut self, now_ms: u64) -> (interval_ms: u64)
        ensures
            final(self).last_ms == now_ms,
            interval_ms == interval_of(old(self).last_ms, now_ms),
    {
        let previous = self.last_ms;
        self.last_ms = now_ms;
        if now_ms >= previous {
            now_ms - previous
        } else {
            0
        }
    }

    /// Commands serialized one after another: every command yields exactly
    /// one interval and one timestamp update, none lost and none duplicated,
    /// and the cell ends at the time of the last command.
    pub fn record_all(&mut self, times: &Vec<u64>) -> (intervals: Vec<u64>)
        ensures
            intervals@.len() == times@.len(),
            intervals@ == intervals_of(old(self).last_ms, times@),
            final(self).last_ms == last_after(old(self).last_ms, times@),
    {
        let mut intervals: Vec<u64> = Vec::new();
        let mut i: usize = 0;
        while i < times.len()
            invariant
                0 <= i <= times@.len(),
                intervals@.len() == i,
                intervals@ == intervals_of(old(self).last_ms, times@).take(i as int),
                self.last_ms == last_after(old(self).last_ms, times@.take(i as int)),
            decreases times@.len() - i,
        {
            let iv = self.record(times[i]);
            intervals.push(iv);
            i += 1;
            proof {
                assert(times@.take(i as int).last() == times@[i - 1]);
                assert(intervals@ =~= intervals_of(old(self).last_ms, times@).take(i as int));
            }
        }
        proof {
            assert(times@.take(times@.len() as int) =~= times@);
            assert(intervals_of(old(self).last_ms, times@).take(times@.len() as int)
                =~= intervals_of(old(self).last_ms, times@));
        }
        intervals
    }
}

} // verus!
