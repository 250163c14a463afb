//! The bounded worker pool: concurrency accounting and the optional
//! linear ramp from the initial to the maximum pool size.
//!
//! The pool is the engine's concurrency governor.  Its accounting
//! keeps, at every step, `active <= capacity <= limit`: no more
//! exchanges run than permits exist, and the capacity only grows, one
//! permit per ramp step, never past the configured maximum.

use vstd::prelude::*;

verus! {

/// Default length of the worker ramp when the run is unbounded, in
/// nanoseconds (60 seconds).
pub const DEFAULT_RAMP_NANOS: u64 = 60_000_000_000;

/// The worker pool's accounting: permits in existence (`capacity`),
/// permits held by running exchanges (`active`), and the bound the
/// ramp may grow the capacity to (`limit`).
#[derive(Clone, Copy, Debug)]
pub struct PoolState {
    /// Exchanges currently holding a permit
    pub active: u64,
    /// Permits currently in existence
    pub capacity: u64,
    /// Upper bound the ramp grows the capacity toward
    pub limit: u64,
}

impl PoolState {
    /// The permit invariant: at every moment the active exchanges fit
    /// the capacity, and the capacity never exceeds the ramp's bound.
    pub open spec fn wf(&self) -> bool {
        self.active <= self.capacity <= self.limit
    }

    /// A fresh pool: `workers` permits, no exchange running, bounded
    /// by `max_workers` when that is set and larger.
    pub fn new(workers: u64, max_workers: Option<u64>) -> (r: PoolState)
        ensures
            r.wf(),
            r.active == 0,
            r.capacity == workers,
            r.limit == match max_workers {
                Some(m) => if m > workers { m as int } else { workers as int },
                None => workers as int,
            },
    {
        let limit = match max_workers {
            Some(m) => if m > workers { m } else { workers },
            None => workers,
        };
        PoolState { active: 0, capacity: workers, limit }
    }

    /// Whether a dispatch can acquire a permit right now; when it
    /// cannot, the dispatcher must wait, never drop the request.
    pub fn can_acquire(&self) -> (r: bool)
        ensures
            r == (self.active < self.capacity),
    {
        self.active < self.capacity
    }

    /// Acquire one permit for an exchange.
    pub fn acquire(&mut self)
        requires
            old(self).wf(),
            old(self).active < old(self).capacity,
        ensures
            final(self).wf(),
            final(self).active == old(self).active + 1,
            final(self).capacity == old(self).capacity,
            final(self).limit == old(self).limit,
    {
        self.active = self.active + 1;
    }

    /// Release the permit of a finished exchange.
    pub fn release(&mut self)
        requires
            old(self).wf(),
            old(self).active > 0,
        ensures
            final(self).wf(),
            final(self).active == old(self).active - 1,
            final(self).capacity == old(self).capacity,
            final(self).limit == old(self).limit,
    {
        self.active = self.active - 1;
    }

    /// One ramp step: grow the capacity by one permit, never past the
    /// bound.  The ramp is monotonic; nothing ever shrinks the pool.
    pub fn ramp_step(&mut self)
        requires
            old(self).wf(),
        ensures
            final(self).wf(),
            final(self).active == old(self).active,
            final(self).limit == old(self).limit,
            old(self).capacity < old(self).limit
                ==> final(self).capacity == old(self).capacity + 1,
            old(self).capacity == old(self).limit
                ==> final(self).capacity == old(self).capacity,
    {
        if self.capacity < self.limit {
            self.capacity = self.capacity + 1;
        }
    }
}

/// The number of ramp steps a configuration calls for: one per permit
/// between the initial and the maximum pool size, none when the
/// maximum is absent or not larger.
pub open spec fn spec_ramp_steps(workers: u64, max_workers: Option<u64>) -> int {
    match max_workers {
        Some(m) => if m > workers { m - workers } else { 0 },
        None => 0,
    }
}

/// Compute the ramp's step count.
pub fn ramp_steps(workers: u64, max_workers: Option<u64>) -> (r: u64)
    ensures
        r == spec_ramp_steps(workers, max_workers),
{
    match max_workers {
        Some(m) => if m > workers { m - workers } else { 0 },
        None => 0,
    }
}

/// The pause between ramp steps: the run duration (or a 60-second
/// default when the run is unbounded) split evenly over the steps.
pub fn ramp_interval(duration: Option<u64>, steps: u64) -> (r: u64)
    requires
        steps > 0,
    ensures
        r == match duration {
            Some(d) => d as int / steps as int,
            None => DEFAULT_RAMP_NANOS as int / steps as int,
        },
{
    match duration {
        Some(d) => d / steps,
        None => DEFAULT_RAMP_NANOS / steps,
    }
}

/// With `max_workers` no larger than the initial worker count the
/// ramp is a no-op: it has no steps to take, so the pool keeps its
/// initial capacity for the whole run.
pub proof fn lemma_ramp_noop_when_equal(workers: u64, max_workers: u64)
    requires
        max_workers <= workers,
    ensures
        spec_ramp_steps(workers, Some(max_workers)) == 0,
{
}

} // verus!
