//! The metrics aggregator: the live counters the engine maintains as
//! outcomes complete, the snapshot it hands to a telemetry publisher,
//! and the delta computation between two snapshots.
//!
//! Each counter is also characterized as a fold over the outcome
//! stream, so that re-deriving the aggregate from a recorded stream
//! provably yields the counters the live run kept.

use vstd::prelude::*;
use crate::models::{AttackResult, AttackResultView};
use crate::outcome::{spec_classify_view, OutcomeClass};

verus! {

/// The mathematical value of an outcome stream.
pub open spec fn results_view(s: Seq<AttackResult>) -> Seq<AttackResultView> {
    s.map_values(|r: AttackResult| r@)
}

/// Whether a record counts into the success counter: it classifies as
/// a 2xx success.
pub open spec fn counts_success(r: AttackResultView) -> bool {
    spec_classify_view(r) == OutcomeClass::Success
}

/// Whether a record counts into the timeout counter.
pub open spec fn counts_timeout(r: AttackResultView) -> bool {
    spec_classify_view(r) == OutcomeClass::Timeout
}

/// Whether a record counts into the failure counter: a non-2xx status
/// or a transport error, anything neither success nor timeout.
pub open spec fn counts_failure(r: AttackResultView) -> bool {
    spec_classify_view(r) == OutcomeClass::Failure || spec_classify_view(r)
        == OutcomeClass::Error
}

/// How many records of the stream satisfy the predicate.
pub open spec fn spec_count(s: Seq<AttackResultView>, pred: spec_fn(AttackResultView) -> bool)
    -> int
    decreases s.len(),
{
    if s.len() == 0 {
        0
    } else {
        spec_count(s.drop_last(), pred) + if pred(s.last()) {
            1int
        } else {
            0int
        }
    }
}

/// The success predicate as one named function value, so that every
/// statement about the success count speaks of the same fold.
pub open spec fn success_pred() -> spec_fn(AttackResultView) -> bool {
    |r: AttackResultView| counts_success(r)
}

/// The failure predicate as one named function value.
pub open spec fn failure_pred() -> spec_fn(AttackResultView) -> bool {
    |r: AttackResultView| counts_failure(r)
}

/// The timeout predicate as one named function value.
pub open spec fn timeout_pred() -> spec_fn(AttackResultView) -> bool {
    |r: AttackResultView| counts_timeout(r)
}

/// The stream's success count.
pub open spec fn spec_success_count(s: Seq<AttackResultView>) -> int {
    spec_count(s, success_pred())
}

/// The stream's failure count (failures by status and errors).
pub open spec fn spec_failure_count(s: Seq<AttackResultView>) -> int {
    spec_count(s, failure_pred())
}

/// The stream's timeout count.
pub open spec fn spec_timeout_count(s: Seq<AttackResultView>) -> int {
    spec_count(s, timeout_pred())
}

/// The summed response-body bytes of the stream.
pub open spec fn spec_sum_bytes_in(s: Seq<AttackResultView>) -> int
    decreases s.len(),
{
    if s.len() == 0 {
        0
    } else {
        spec_sum_bytes_in(s.drop_last()) + s.last().bytes_in
    }
}

/// The summed request-body bytes of the stream.
pub open spec fn spec_sum_bytes_out(s: Seq<AttackResultView>) -> int
    decreases s.len(),
{
    if s.len() == 0 {
        0
    } else {
        spec_sum_bytes_out(s.drop_last()) + s.last().bytes_out
    }
}

/// The stream's latency samples, in completion order.
pub open spec fn spec_latencies(s: Seq<AttackResultView>) -> Seq<u64> {
    s.map_values(|r: AttackResultView| r.latency)
}

/// A count never exceeds the stream's length.
pub proof fn lemma_count_le_len(s: Seq<AttackResultView>, pred: spec_fn(AttackResultView) -> bool)
    ensures
        0 <= spec_count(s, pred) <= s.len(),
    decreases s.len(),
{
    if s.len() > 0 {
        lemma_count_le_len(s.drop_last(), pred);
    }
}

/// The live counters of a run.  `request_durations` holds one latency
/// sample per completed exchange, in nanoseconds, in completion order.
#[derive(Debug)]
pub struct AttackMetrics {
    /// Exchanges started
    pub total_requests: u64,
    /// Outcomes classified as success
    pub success_requests: u64,
    /// Outcomes classified as failure or error
    pub failure_requests: u64,
    /// Outcomes classified as timeout
    pub timeout_requests: u64,
    /// Summed response-body bytes
    pub bytes_in: u64,
    /// Summed request-body bytes
    pub bytes_out: u64,
    /// Exchanges holding a worker permit right now
    pub active_workers: u64,
    /// Latency samples, nanoseconds, completion order
    pub request_durations: Vec<u64>,
}

impl Clone for AttackMetrics {
    /// A snapshot clone: scalars plus the latency-sample vector.
    fn clone(&self) -> (r: AttackMetrics)
        ensures
            r.total_requests == self.total_requests,
            r.success_requests == self.success_requests,
            r.failure_requests == self.failure_requests,
            r.timeout_requests == self.timeout_requests,
            r.bytes_in == self.bytes_in,
            r.bytes_out == self.bytes_out,
            r.active_workers == self.active_workers,
            r.request_durations@ == self.request_durations@,
    {
        let ds = self.request_durations.clone();
        proof {
            assert(ds@ =~= self.request_durations@);
        }
        AttackMetrics {
            total_requests: self.total_requests,
            success_requests: self.success_requests,
            failure_requests: self.failure_requests,
            timeout_requests: self.timeout_requests,
            bytes_in: self.bytes_in,
            bytes_out: self.bytes_out,
            active_workers: self.active_workers,
            request_durations: ds,
        }
    }
}

impl AttackMetrics {
    /// Fresh counters, everything zero.
    pub fn new() -> (r: AttackMetrics)
        ensures
            r.total_requests == 0,
            r.success_requests == 0,
            r.failure_requests == 0,
            r.timeout_requests == 0,
            r.bytes_in == 0,
            r.bytes_out == 0,
            r.active_workers == 0,
            r.request_durations@ == Seq::<u64>::empty(),
    {
        let r = AttackMetrics {
            total_requests: 0,
            success_requests: 0,
            failure_requests: 0,
            timeout_requests: 0,
            bytes_in: 0,
            bytes_out: 0,
            active_workers: 0,
            request_durations: Vec::new(),
        };
        proof {
            assert(r.request_durations@ =~= Seq::<u64>::empty());
        }
        r
    }

    /// Count one started exchange.
    pub fn increment_requests(&mut self)
        requires
            old(self).total_requests < u64::MAX,
        ensures
            *final(self) == (AttackMetrics {
                total_requests: (old(self).total_requests + 1) as u64,
                ..*old(self)
            }),
    {
        self.total_requests = self.total_requests + 1;
    }

    /// Count one successful outcome.
    pub fn increment_success(&mut self)
        requires
            old(self).success_requests < u64::MAX,
        ensures
            *final(self) == (AttackMetrics {
                success_requests: (old(self).success_requests + 1) as u64,
                ..*old(self)
            }),
    {
        self.success_requests = self.success_requests + 1;
    }

    /// Count one failed outcome.
    pub fn increment_failure(&mut self)
        requires
            old(self).failure_requests < u64::MAX,
        ensures
            *final(self) == (AttackMetrics {
                failure_requests: (old(self).failure_requests + 1) as u64,
                ..*old(self)
            }),
    {
        self.failure_requests = self.failure_requests + 1;
    }

    /// Count one timed-out outcome.
    pub fn increment_timeout(&mut self)
        requires
            old(self).timeout_requests < u64::MAX,
        ensures
            *final(self) == (AttackMetrics {
                timeout_requests: (old(self).timeout_requests + 1) as u64,
                ..*old(self)
            }),
    {
        self.timeout_requests = self.timeout_requests + 1;
    }

    /// Add received bytes.
    pub fn add_bytes_in(&mut self, bytes: u64)
        requires
            old(self).bytes_in + bytes <= u64::MAX,
        ensures
            *final(self) == (AttackMetrics {
                bytes_in: (old(self).bytes_in + bytes) as u64,
                ..*old(self)
            }),
    {
        self.bytes_in = self.bytes_in + bytes;
    }

    /// Add sent bytes.
    pub fn add_bytes_out(&mut self, bytes: u64)
        requires
            old(self).bytes_out + bytes <= u64::MAX,
        ensures
            *final(self) == (AttackMetrics {
                bytes_out: (old(self).bytes_out + bytes) as u64,
                ..*old(self)
            }),
    {
        self.bytes_out = self.bytes_out + bytes;
    }

    /// One more exchange holds a permit.
    pub fn increment_active_workers(&mut self)
        requires
            old(self).active_workers < u64::MAX,
        ensures
            *final(self) == (AttackMetrics {
                active_workers: (old(self).active_workers + 1) as u64,
                ..*old(self)
            }),
    {
        self.active_workers = self.active_workers + 1;
    }

    /// One exchange released its permit.
    pub fn decrement_active_workers(&mut self)
        requires
            old(self).active_workers > 0,
        ensures
            *final(self) == (AttackMetrics {
                active_workers: (old(self).active_workers - 1) as u64,
                ..*old(self)
            }),
    {
        self.active_workers = self.active_workers - 1;
    }

    /// Append one latency sample.
    pub fn record_duration(&mut self, duration: u64)
        ensures
            *final(self) == (AttackMetrics {
                request_durations: final(self).request_durations,
                ..*old(self)
            }),
            final(self).request_durations@ == old(self).request_durations@.push(duration),
    {
        self.request_durations.push(duration);
    }

    /// The completion-side update for one outcome: record its latency,
    /// count it into exactly one of the success, failure and timeout
    /// counters (errors count as failures), add its bytes, and release
    /// its worker from the gauge.
    pub fn apply_outcome(&mut self, r: &AttackResult)
        requires
            old(self).success_requests < u64::MAX,
            old(self).failure_requests < u64::MAX,
            old(self).timeout_requests < u64::MAX,
            old(self).bytes_in + r.bytes_in <= u64::MAX,
            old(self).bytes_out + r.bytes_out <= u64::MAX,
            old(self).active_workers > 0,
        ensures
            final(self).total_requests == old(self).total_requests,
            final(self).success_requests == old(self).success_requests + if counts_success(
                r@,
            ) {
                1int
            } else {
                0int
            },
            final(self).timeout_requests == old(self).timeout_requests + if counts_timeout(
                r@,
            ) {
                1int
            } else {
                0int
            },
            final(self).failure_requests == old(self).failure_requests + if counts_failure(
                r@,
            ) {
                1int
            } else {
                0int
            },
            final(self).bytes_in == old(self).bytes_in + r.bytes_in,
            final(self).bytes_out == old(self).bytes_out + r.bytes_out,
            final(self).active_workers == old(self).active_workers - 1,
            final(self).request_durations@ == old(self).request_durations@.push(r.latency),
    {
        self.record_duration(r.latency);
        if r.timed_out {
            self.increment_timeout();
        } else if 200 <= r.status_code && r.status_code < 300 {
            self.increment_success();
        } else {
            self.increment_failure();
        }
        self.add_bytes_in(r.bytes_in as u64);
        self.add_bytes_out(r.bytes_out as u64);
        self.decrement_active_workers();
    }
}

/// Re-derive the counters from a recorded outcome stream: folding the
/// per-outcome update over the stream yields exactly the stream's
/// counts and sums.  This is how a reader of the durable log arrives
/// at the same aggregate the live run kept.
pub fn aggregate_outcomes(results: &Vec<AttackResult>) -> (m: AttackMetrics)
    requires
        results@.len() <= u64::MAX,
        spec_sum_bytes_in(results_view(results@)) <= u64::MAX,
        spec_sum_bytes_out(results_view(results@)) <= u64::MAX,
    ensures
        m.total_requests == results@.len(),
        m.success_requests == spec_success_count(results_view(results@)),
        m.failure_requests == spec_failure_count(results_view(results@)),
        m.timeout_requests == spec_timeout_count(results_view(results@)),
        m.bytes_in == spec_sum_bytes_in(results_view(results@)),
        m.bytes_out == spec_sum_bytes_out(results_view(results@)),
        m.active_workers == 0,
        m.request_durations@ == spec_latencies(results_view(results@)),
{
    let ghost whole = results_view(results@);
    let mut m = AttackMetrics::new();
    let mut i: usize = 0;
    while i < results.len()
        invariant
            i <= results@.len(),
            results@.len() <= u64::MAX,
            spec_sum_bytes_in(whole) <= u64::MAX,
            spec_sum_bytes_out(whole) <= u64::MAX,
            whole == results_view(results@),
            m.total_requests == i,
            m.success_requests == spec_success_count(whole.take(i as int)),
            m.failure_requests == spec_failure_count(whole.take(i as int)),
            m.timeout_requests == spec_timeout_count(whole.take(i as int)),
            m.bytes_in == spec_sum_bytes_in(whole.take(i as int)),
            m.bytes_out == spec_sum_bytes_out(whole.take(i as int)),
            m.active_workers == 0,
            m.request_durations@ == spec_latencies(whole.take(i as int)),
        decreases results@.len() - i,
    {
        proof {
            lemma_prefix_counts_bounded(whole, i as int);
        }
        m.increment_requests();
        m.increment_active_workers();
        m.apply_outcome(&results[i]);
        proof {
            assert(whole.take(i + 1).drop_last() =~= whole.take(i as int));
            assert(whole.take(i + 1).last() == results@[i as int]@);
            assert(spec_latencies(whole.take(i + 1)) =~= spec_latencies(
                whole.take(i as int),
            ).push(results@[i as int]@.latency));
        }
        i = i + 1;
    }
    proof {
        assert(whole.take(results@.len() as int) =~= whole);
        assert(spec_latencies(whole.take(results@.len() as int)) =~= spec_latencies(whole));
    }
    m
}

/// Every prefix's counts and byte sums stay within the whole stream's
/// bounds, so the fold never overflows its counters.
proof fn lemma_prefix_counts_bounded(s: Seq<AttackResultView>, i: int)
    requires
        0 <= i < s.len(),
    ensures
        spec_success_count(s.take(i)) <= i,
        spec_failure_count(s.take(i)) <= i,
        spec_timeout_count(s.take(i)) <= i,
        spec_sum_bytes_in(s.take(i)) + s[i].bytes_in <= spec_sum_bytes_in(s),
        spec_sum_bytes_out(s.take(i)) + s[i].bytes_out <= spec_sum_bytes_out(s),
        spec_success_count(s.take(i)) >= 0,
        spec_failure_count(s.take(i)) >= 0,
        spec_timeout_count(s.take(i)) >= 0,
        spec_sum_bytes_in(s.take(i)) >= 0,
        spec_sum_bytes_out(s.take(i)) >= 0,
{
    lemma_count_le_len(s.take(i), success_pred());
    lemma_count_le_len(s.take(i), failure_pred());
    lemma_count_le_len(s.take(i), timeout_pred());
    lemma_sum_take_step(s, i);
}

/// Byte sums grow monotonically along the stream's prefixes.
proof fn lemma_sum_take_step(s: Seq<AttackResultView>, i: int)
    requires
        0 <= i < s.len(),
    ensures
        spec_sum_bytes_in(s.take(i)) + s[i].bytes_in <= spec_sum_bytes_in(s),
        spec_sum_bytes_out(s.take(i)) + s[i].bytes_out <= spec_sum_bytes_out(s),
        spec_sum_bytes_in(s.take(i)) >= 0,
        spec_sum_bytes_out(s.take(i)) >= 0,
    decreases s.len() - i,
{
    assert(s.take(i + 1).drop_last() =~= s.take(i));
    if i + 1 == s.len() {
        assert(s.take(i + 1) =~= s);
    } else {
        lemma_sum_take_step(s, i + 1);
        assert(s.take(i + 1)[i + 1 - 1] == s[i]);
    }
    lemma_sum_nonneg(s.take(i));
}

/// Byte sums are never negative.
proof fn lemma_sum_nonneg(s: Seq<AttackResultView>)
    ensures
        spec_sum_bytes_in(s) >= 0,
        spec_sum_bytes_out(s) >= 0,
    decreases s.len(),
{
    if s.len() > 0 {
        lemma_sum_nonneg(s.drop_last());
    }
}

/// What a telemetry tick publishes: the counter movement since the
/// previous snapshot, the current worker gauge, and where the fresh
/// latency samples start.
#[derive(PartialEq, Eq, Structural, Clone, Copy, Debug)]
pub struct MetricsDelta {
    /// New exchanges started since the previous snapshot
    pub requests: u64,
    /// New successes
    pub success_requests: u64,
    /// New failures
    pub failure_requests: u64,
    /// New bytes received
    pub bytes_in: u64,
    /// New bytes sent
    pub bytes_out: u64,
    /// The worker gauge right now
    pub active_workers: u64,
    /// Index of the first latency sample not yet published
    pub samples_from: usize,
}

/// Compute what one telemetry tick publishes, as the difference of the
/// current snapshot against the previous one.  Counters only grow, so
/// the previous snapshot plus the delta is exactly the current one.
pub fn snapshot_delta(prev: &AttackMetrics, cur: &AttackMetrics) -> (d: MetricsDelta)
    requires
        prev.total_requests <= cur.total_requests,
        prev.success_requests <= cur.success_requests,
        prev.failure_requests <= cur.failure_requests,
        prev.bytes_in <= cur.bytes_in,
        prev.bytes_out <= cur.bytes_out,
        prev.request_durations@.len() <= cur.request_durations@.len(),
    ensures
        prev.total_requests + d.requests == cur.total_requests,
        prev.success_requests + d.success_requests == cur.success_requests,
        prev.failure_requests + d.failure_requests == cur.failure_requests,
        prev.bytes_in + d.bytes_in == cur.bytes_in,
        prev.bytes_out + d.bytes_out == cur.bytes_out,
        d.active_workers == cur.active_workers,
        d.samples_from == prev.request_durations@.len(),
{
    MetricsDelta {
        requests: cur.total_requests - prev.total_requests,
        success_requests: cur.success_requests - prev.success_requests,
        failure_requests: cur.failure_requests - prev.failure_requests,
        bytes_in: cur.bytes_in - prev.bytes_in,
        bytes_out: cur.bytes_out - prev.bytes_out,
        active_workers: cur.active_workers,
        samples_from: prev.request_durations.len(),
    }
}

} // verus!
