//! The last-activity timestamp of an active unit.
//!
//! The crate never reads a clock itself: the host samples its monotonic
//! clock once per evaluation step and hands the reading in as milliseconds.

use vstd::prelude::*;

verus! {

/// When the owning unit last saw activity: a point was recorded or a stroke
/// committed. Compared against the host's clock reading to detect the
/// stickiness timeout.
#[derive(Debug, Clone, Copy, PartialEq)]
pub struct LastUpdate {
    pub millis: u64,
}

impl LastUpdate {
    /// A timestamp at the host's current clock reading.
    pub fn now(millis: u64) -> (r: LastUpdate)
        ensures
            r.millis == millis,
    {
        LastUpdate { millis }
    }

    /// Refresh to the host's current clock reading.
    pub fn update(&mut self, millis: u64)
        ensures
            final(self).millis == millis,
    {
        self.millis = millis;
    }
}

} // verus!
