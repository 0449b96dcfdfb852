//! Coordination for timed auto-dismiss effects: a monotonically
//! increasing epoch counter.  A scheduled effect captures the counter's
//! value at schedule time and, when its timer fires, acts only if the
//! counter still equals the captured value — otherwise a newer event
//! superseded it.

use vstd::prelude::*;

verus! {

/// The epoch counter behind an ephemeral effect's auto-dismiss timer.
pub struct EpochCounter {
    pub count: u64,
}

impl EpochCounter {
    /// A counter at epoch zero.
    pub fn new() -> (c: EpochCounter)
        ensures
            c.count == 0,
    {
        EpochCounter { count: 0 }
    }

    /// Open a new epoch and capture it: every earlier capture is now
    /// superseded.
    pub fn schedule(&mut self) -> (g: u64)
        requires
            old(self).count < u64::MAX,
        ensures
            final(self).count == old(self).count + 1,
            g == final(self).count,
    {
        self.count = self.count + 1;
        self.count
    }

    /// Whether a captured epoch is still the current one: exactly then
    /// may the deferred effect act.
    pub fn should_fire(&self, captured: u64) -> (b: bool)
        ensures
            b == (captured == self.count),
    {
        captured == self.count
    }
}

} // verus!
