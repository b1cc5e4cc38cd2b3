//! A timing note: a lane marker at a fixed millisecond offset.

use vstd::prelude::*;

verus! {

pub struct Note {
    ms: i32,
    lane: u8,
}

impl Note {
    pub fn new(ms: i32, lane: u8) -> (r: Self)
        ensures
            r.ms() == ms,
            r.lane() == lane,
    {
        Self { ms, lane }
    }

    pub closed spec fn ms(&self) -> i32 {
        self.ms
    }

    pub closed spec fn lane(&self) -> u8 {
        self.lane
    }

    /// Signed distance in milliseconds from this note to the given time,
    /// with the time first truncated to `i32` and the difference wrapping on
    /// overflow, as two's-complement subtraction of timestamps does.
    pub fn delta(&self, time_ms: u128) -> (r: i32)
        ensures
            r == (time_ms as i32).wrapping_sub(self.ms()),
    {
        let t: i32 = #[verifier::truncate] (time_ms as i32);
        t.wrapping_sub(self.ms)
    }
}

} // verus!
