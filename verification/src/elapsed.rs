//! The play-time clock shown beside the board.

use vstd::prelude::*;

verus! {

/// The moment a game started, in milliseconds of the caller's clock.
pub struct Elapsed(pub u64);

impl Elapsed {
    /// A clock started at `now`.
    pub fn new(now: u64) -> (r: Elapsed)
        ensures
            r.0 == now,
    {
        Elapsed(now)
    }

    /// Whole minutes and leftover seconds elapsed at `now`.
    pub fn minutes_seconds(&self, now: u64) -> (r: (u64, u64))
        requires
            self.0 <= now,
        ensures
            r.0 == ((now - self.0) / 1000) / 60,
            r.1 == ((now - self.0) / 1000) % 60,
    {
        let secs = (now - self.0) / 1000;
        (secs / 60, secs % 60)
    }
}

} // verus!
