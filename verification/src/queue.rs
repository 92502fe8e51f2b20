//! The work queue of sample points, identified by their position in the
//! sampling order. Each point is handed out exactly once: `pop` returns the
//! indices 0, 1, ... in order and then `None` forever. The vectorised
//! evaluators pull from one such queue — several workers share it behind a
//! mutex held only for the pull, which this type's single-step interface
//! makes possible.

use vstd::prelude::*;

verus! {

/// A queue holding the not-yet-handed-out points `next ..= total - 1` of a
/// run over `total` points.
pub struct PointQueue {
    pub next: u64,
    pub total: u64,
}

impl PointQueue {
    /// Is every index in bounds?
    pub open spec fn wf(&self) -> bool {
        self.next <= self.total
    }

    /// A full queue over `total` points.
    pub fn new(total: u64) -> (queue: Self)
        ensures
            queue.wf(),
            queue.next == 0,
            queue.total == total,
    {
        PointQueue { next: 0, total }
    }

    /// Hand out the next point index, exactly once each: the lowest index
    /// not yet handed out, or `None` once the queue is exhausted.
    pub fn pop(&mut self) -> (point: Option<u64>)
        requires
            old(self).wf(),
        ensures
            final(self).wf(),
            final(self).total == old(self).total,
            old(self).next < old(self).total ==> point == Some(old(self).next)
                && final(self).next == old(self).next + 1,
            old(self).next == old(self).total ==> point is None && final(self).next == old(
                self,
            ).next,
    {
        if self.next < self.total {
            let point = self.next;
            self.next = self.next + 1;
            Some(point)
        } else {
            None
        }
    }

    /// Whether every point has been handed out.
    pub fn is_exhausted(&self) -> (exhausted: bool)
        requires
            self.wf(),
        ensures
            exhausted == (self.next == self.total),
    {
        self.next == self.total
    }
}

} // verus!
