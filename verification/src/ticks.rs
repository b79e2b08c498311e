//! Pacing of the simulation: how long to rest before the next tick.

use vstd::prelude::*;

verus! {

/// Nanoseconds of the default tick: thirty ticks fill a second, counted in
/// whole milliseconds.
pub const DEFAULT_TICK_NANOS: u64 = 33_000_000;

/// A pace of so many nanoseconds from one tick to the next.
#[derive(Debug, PartialEq, Eq, Clone, Copy)]
pub struct TPSTicker {
    pub(crate) tps: u64,
}

impl TPSTicker {
    /// The nanoseconds from one tick to the next.
    pub open(crate) spec fn period(self) -> u64 {
        self.tps
    }

    /// A ticker that lets `tps` nanoseconds pass from one tick to the next.
    pub fn new(tps: u64) -> (t: Self)
        ensures
            t.period() == tps,
    {
        TPSTicker { tps }
    }

    /// The nanoseconds from one tick to the next.
    pub fn tick_nanos(&self) -> (n: u64)
        ensures
            n == self.period(),
    {
        self.tps
    }

    /// The rest that is left of a tick of which `elapsed` nanoseconds have passed.
    pub open spec fn rest(self, elapsed: u64) -> Option<u64> {
        if elapsed <= self.period() {
            Some((self.period() - elapsed) as u64)
        } else {
            None
        }
    }

    /// How long to rest before the next tick when `elapsed` nanoseconds
    /// have passed since the last one; nothing when the tick has already
    /// taken longer than its period.
    pub fn time_until_next_tick(&self, elapsed: u64) -> (wait: Option<u64>)
        ensures
            wait == self.rest(elapsed),
    {
        if elapsed <= self.tps {
            Some(self.tps - elapsed)
        } else {
            None
        }
    }
}

} // verus!
