//! Write-back scheduling: how many dirty sectors a frame flushes, and the
//! auto-save timer that drains the dirty queue.

use vstd::prelude::*;

use crate::storage::coord::SectorCoord;
use crate::storage::dirty::DirtyTracker;

verus! {

/// Default per-frame flush budget, in sectors.
pub const DEFAULT_PER_FRAME_BUDGET: usize = 8;

/// Default auto-save interval: five minutes, in nanoseconds.
pub const DEFAULT_AUTO_SAVE_INTERVAL_NANOS: u64 = 300_000_000_000;

/// Drains the dirty queue a budget of sectors at a time. Past
/// `backpressure_threshold` queued sectors the budget rises to `max_budget`
/// so a backlog does not stall.
#[derive(Clone, Copy, Debug)]
pub struct FlushScheduler {
    /// Sectors flushed per frame under normal load.
    pub per_frame_budget: usize,
    /// Budget while the queue is past the threshold.
    pub max_budget: usize,
    /// Queue depth past which the budget rises.
    pub backpressure_threshold: usize,
    /// Time since the last auto-save tick, in nanoseconds.
    pub elapsed_nanos: u64,
}

impl Default for FlushScheduler {
    fn default() -> (r: FlushScheduler)
        ensures
            r.per_frame_budget == DEFAULT_PER_FRAME_BUDGET,
            r.max_budget == 64,
            r.backpressure_threshold == 256,
            r.elapsed_nanos == 0,
    {
        FlushScheduler {
            per_frame_budget: DEFAULT_PER_FRAME_BUDGET,
            max_budget: 64,
            backpressure_threshold: 256,
            elapsed_nanos: 0,
        }
    }
}

impl FlushScheduler {
    pub open spec fn spec_effective_budget(&self, queue_depth: usize) -> usize {
        if queue_depth > self.backpressure_threshold {
            self.max_budget
        } else {
            self.per_frame_budget
        }
    }

    /// The per-frame budget for a queue of `queue_depth` sectors.
    pub fn effective_budget(&self, queue_depth: usize) -> (r: usize)
        ensures
            r == self.spec_effective_budget(queue_depth),
    {
        if queue_depth > self.backpressure_threshold {
            self.max_budget
        } else {
            self.per_frame_budget
        }
    }

    /// One auto-save tick: add `delta_nanos` to the elapsed time (saturating);
    /// once it reaches `interval_nanos`, restart the timer and take a budget's
    /// worth of coordinates from the dirty queue. Returns the coordinates to
    /// save, oldest first; their flags stay set until cleared after commit.
    pub fn auto_save_step(&mut self, tracker: &mut DirtyTracker, delta_nanos: u64, interval_nanos: u64) -> (r:
        Vec<SectorCoord>)
        requires
            old(tracker).wf(),
        ensures
            final(tracker).wf(),
            final(self).per_frame_budget == old(self).per_frame_budget,
            final(self).max_budget == old(self).max_budget,
            final(self).backpressure_threshold == old(self).backpressure_threshold,
            final(tracker).words() == old(tracker).words(),
            ({
                let e = if old(self).elapsed_nanos + delta_nanos > u64::MAX {
                    u64::MAX as int
                } else {
                    old(self).elapsed_nanos + delta_nanos
                };
                let q = old(tracker).queued();
                let budget = old(self).spec_effective_budget(q.len() as usize);
                let m = if budget < q.len() {
                    budget as int
                } else {
                    q.len() as int
                };
                if e < interval_nanos {
                    &&& final(self).elapsed_nanos == e
                    &&& r@ == Seq::<SectorCoord>::empty()
                    &&& final(tracker).queued() == q
                } else {
                    &&& final(self).elapsed_nanos == 0
                    &&& r@ == q.take(m)
                    &&& final(tracker).queued() == q.skip(m)
                }
            }),
    {
        self.elapsed_nanos = self.elapsed_nanos.saturating_add(delta_nanos);
        if self.elapsed_nanos < interval_nanos {
            return Vec::new();
        }
        self.elapsed_nanos = 0;
        let depth = tracker.pending();
        if depth == 0 {
            assert(old(tracker).queued().take(0) =~= Seq::<SectorCoord>::empty());
            assert(old(tracker).queued().skip(0) =~= old(tracker).queued());
            return Vec::new();
        }
        let budget = self.effective_budget(depth);
        tracker.consume_dirty_batch(budget)
    }
}

} // verus!
