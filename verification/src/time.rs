use vstd::prelude::*;

verus! {

/// Largest number of nanoseconds the clock can show.
pub const CLOCK_LIMIT: u64 = 0xFFFF_FFFF_FFFF_FFFF;

/// The clock of the frame loop, in nanoseconds.
#[derive(Clone, Copy, Debug, PartialEq, Eq, Structural)]
pub struct Time {
    /// Time that passed between the last two cycles.
    pub delta_nanos: u64,
    /// Time that passed since the clock was started. Stays at the largest
    /// value it can show once that is reached.
    pub elapsed_nanos: u64,
}

impl Time {
    /// The clock after a cycle that took `delta_nanos`.
    pub open spec fn advanced(self, delta_nanos: u64) -> Time {
        Time {
            delta_nanos,
            elapsed_nanos: if self.elapsed_nanos + delta_nanos > CLOCK_LIMIT {
                CLOCK_LIMIT
            } else {
                (self.elapsed_nanos + delta_nanos) as u64
            },
        }
    }

    /// Clock on which no time has passed.
    pub fn new() -> (time: Time)
        ensures
            time == (Time { delta_nanos: 0, elapsed_nanos: 0 }),
    {
        Time { delta_nanos: 0, elapsed_nanos: 0 }
    }

    /// Moves the clock on by one cycle that took `delta_nanos`.
    pub fn advance(&mut self, delta_nanos: u64)
        ensures
            *final(self) == old(self).advanced(delta_nanos),
    {
        let elapsed = if self.elapsed_nanos > CLOCK_LIMIT - delta_nanos {
            CLOCK_LIMIT
        } else {
            self.elapsed_nanos + delta_nanos
        };
        self.delta_nanos = delta_nanos;
        self.elapsed_nanos = elapsed;
    }
}

} // verus!
