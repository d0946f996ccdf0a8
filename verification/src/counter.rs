use vstd::prelude::*;

verus! {

/// The shared collision counter: a single integer that collision workers
/// accumulate into. It is never reset on its own; a fresh per-pass total is
/// had by calling `reset` before the pass.
#[derive(Debug, Copy, Clone, PartialEq, Eq, Structural)]
pub struct CollisionCounter {
    pub total: u64,
}

impl CollisionCounter {
    pub fn new() -> (c: CollisionCounter)
        ensures
            c.total == 0,
    {
        CollisionCounter { total: 0 }
    }

    /// Accumulate a worker's count; the counter only ever grows.
    pub fn add(&mut self, n: u64)
        requires
            old(self).total + n <= u64::MAX,
        ensures
            final(self).total == old(self).total + n,
    {
        self.total = self.total + n;
    }

    pub fn get(&self) -> (r: u64)
        ensures
            r == self.total,
    {
        self.total
    }

    /// Drop the running total, for callers that want a fresh per-pass count.
    pub fn reset(&mut self)
        ensures
            final(self).total == 0,
    {
        self.total = 0;
    }
}

} // verus!
