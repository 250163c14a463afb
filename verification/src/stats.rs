//! The final report: latency order statistics and the aggregate
//! metrics derived from a recorded outcome stream.
//!
//! Latencies are sorted by a verified selection sort whose result is
//! pinned to the canonical mathematical sort of the sample sequence,
//! so every percentile is an exact function of the recorded stream.

use vstd::prelude::*;
use vstd::relations::{sorted_by, total_ordering};
use vstd::seq_lib::lemma_sorted_unique;
use crate::models::{AttackResult, AttackResultView, Metrics};
use crate::metrics::{
    results_view, spec_latencies, spec_success_count, spec_sum_bytes_in, spec_sum_bytes_out,
    spec_timeout_count,
};

verus! {

broadcast use
    vstd::seq_lib::group_to_multiset_ensures,
    vstd::multiset::group_multiset_axioms;

/// The order the latency statistics use.
pub open spec fn le_u64() -> spec_fn(u64, u64) -> bool {
    |x: u64, y: u64| x <= y
}

/// The canonical ascending ordering of a sample sequence.
pub open spec fn spec_sorted(s: Seq<u64>) -> Seq<u64> {
    s.sort_by(le_u64())
}

/// `<=` on the samples is a total ordering.
pub proof fn lemma_le_u64_total_ordering()
    ensures
        total_ordering(le_u64()),
{
}

/// Sort the latency samples ascending.  The result is exactly the
/// mathematical sort of the input: same multiset, ascending order.
pub fn sort_latencies(v: &Vec<u64>) -> (r: Vec<u64>)
    ensures
        r@ == spec_sorted(v@),
        r@.to_multiset() == v@.to_multiset(),
        sorted_by(r@, le_u64()),
        r@.len() == v@.len(),
{
    let mut work: Vec<u64> = Vec::new();
    let mut i: usize = 0;
    while i < v.len()
        invariant
            i <= v@.len(),
            work@ == v@.take(i as int),
        decreases v@.len() - i,
    {
        work.push(v[i]);
        proof {
            assert(work@ =~= v@.take(i + 1));
        }
        i = i + 1;
    }
    proof {
        assert(work@ =~= v@);
    }
    let mut r: Vec<u64> = Vec::new();
    while work.len() > 0
        invariant
            r@.to_multiset().add(work@.to_multiset()) =~= v@.to_multiset(),
            sorted_by(r@, le_u64()),
            forall|k: int|
                0 <= k < work@.len() && r@.len() > 0 ==> r@.last() <= #[trigger] work@[k],
            r@.len() + work@.len() == v@.len(),
        decreases work@.len(),
    {
        let mut m: usize = 0;
        let mut j: usize = 1;
        while j < work.len()
            invariant
                work@.len() > 0,
                m < j <= work@.len(),
                forall|k: int| 0 <= k < j ==> work@[m as int] <= #[trigger] work@[k],
            decreases work@.len() - j,
        {
            if work[j] < work[m] {
                m = j;
            }
            j = j + 1;
        }
        let ghost work_before = work@;
        let ghost r_before = r@;
        let x = work.remove(m);
        r.push(x);
        proof {
            assert(work_before.contains(x));
            assert(work_before.to_multiset().count(x) > 0);
            assert(r@ == r_before.push(x));
            assert(r_before.push(x).to_multiset() =~= r_before.to_multiset().insert(x));
            assert(work@ == work_before.remove(m as int));
            assert(work_before.remove(m as int).to_multiset() =~= work_before.to_multiset()
                .remove(x));
            assert(r@.to_multiset().add(work@.to_multiset()) =~= v@.to_multiset());
            assert forall|a: int, b: int| 0 <= a < b < r@.len() implies le_u64()(
                r@[a],
                r@[b],
            ) by {
                if b == r@.len() - 1 {
                    assert(r@[b] == x);
                    assert(r@[a] == r_before[a]);
                    if a < r_before.len() - 1 {
                        assert(le_u64()(r_before[a], r_before[r_before.len() - 1]));
                    }
                    assert(r_before.last() <= work_before[m as int]);
                } else {
                    assert(le_u64()(r_before[a], r_before[b]));
                }
            }
            assert(sorted_by(r@, le_u64()));
            assert forall|k: int| 0 <= k < work@.len() implies r@.last()
                <= #[trigger] work@[k] by {
                if k < m {
                    assert(work@[k] == work_before[k]);
                    assert(work_before[m as int] <= work_before[k]);
                } else {
                    assert(work@[k] == work_before[k + 1]);
                    assert(work_before[m as int] <= work_before[k + 1]);
                }
            }
        }
    }
    proof {
        assert(r@.to_multiset() =~= v@.to_multiset());
        lemma_le_u64_total_ordering();
        v@.lemma_sort_by_ensures(le_u64());
        lemma_sorted_unique(r@, spec_sorted(v@), le_u64());
        assert(r@ == spec_sorted(v@));
        assert(spec_sorted(v@).to_multiset().len() == v@.to_multiset().len());
    }
    r
}

/// The latency at a percentile of a sorted sample sequence: the
/// element at index `floor(len * num / den)`, clamped to the last.
pub open spec fn spec_percentile(sorted: Seq<u64>, num: int, den: int) -> u64
    recommends
        sorted.len() > 0,
        den > 0,
{
    let idx = sorted.len() * num / den;
    if idx < sorted.len() {
        sorted[idx]
    } else {
        sorted.last()
    }
}

/// Read the latency at the percentile `num / den` from a sorted
/// sample sequence.
pub fn percentile_sorted(sorted: &Vec<u64>, num: u64, den: u64) -> (r: u64)
    requires
        sorted@.len() > 0,
        den > 0,
        num <= den,
        den <= 100,
    ensures
        r == spec_percentile(sorted@, num as int, den as int),
{
    let n = sorted.len();
    proof {
        vstd::arithmetic::mul::lemma_mul_upper_bound(n as int, usize::MAX as int, num as int, 100);
        vstd::arithmetic::div_mod::lemma_div_basics_4(n as int * num as int, den as int);
        vstd::arithmetic::mul::lemma_mul_inequality(num as int, den as int, n as int);
        vstd::arithmetic::mul::lemma_mul_is_commutative(num as int, n as int);
        vstd::arithmetic::mul::lemma_mul_is_commutative(den as int, n as int);
        vstd::arithmetic::div_mod::lemma_div_is_ordered(
            n as int * num as int,
            n as int * den as int,
            den as int,
        );
        vstd::arithmetic::div_mod::lemma_div_multiples_vanish(n as int, den as int);
        vstd::arithmetic::mul::lemma_mul_is_commutative(n as int, den as int);
        assert(n as int * num as int / (den as int) <= n as int);
    }
    let idx = ((n as u128 * num as u128) / (den as u128)) as u64;
    if idx < n as u64 {
        sorted[idx as usize]
    } else {
        sorted[n - 1]
    }
}

/// The earliest dispatch timestamp of the stream.
pub open spec fn spec_min_ts(s: Seq<AttackResultView>) -> u64
    recommends
        s.len() > 0,
    decreases s.len(),
{
    if s.len() <= 1 {
        s[0].timestamp
    } else if s.last().timestamp < spec_min_ts(s.drop_last()) {
        s.last().timestamp
    } else {
        spec_min_ts(s.drop_last())
    }
}

/// The latest dispatch timestamp of the stream.
pub open spec fn spec_max_ts(s: Seq<AttackResultView>) -> u64
    recommends
        s.len() > 0,
    decreases s.len(),
{
    if s.len() <= 1 {
        s[0].timestamp
    } else if s.last().timestamp > spec_max_ts(s.drop_last()) {
        s.last().timestamp
    } else {
        spec_max_ts(s.drop_last())
    }
}

/// The summed samples of a sequence.
pub open spec fn spec_sum(s: Seq<u64>) -> int
    decreases s.len(),
{
    if s.len() == 0 {
        0
    } else {
        spec_sum(s.drop_last()) + s.last()
    }
}

/// A sum of samples stays below the sample count times the largest
/// machine word.
proof fn lemma_sum_bound(s: Seq<u64>)
    ensures
        0 <= spec_sum(s) <= s.len() * u64::MAX,
    decreases s.len(),
{
    if s.len() == 0 {
    } else {
        lemma_sum_bound(s.drop_last());
        assert(s.len() * u64::MAX == (s.len() - 1) * u64::MAX + u64::MAX) by (nonlinear_arith);
    }
}

/// The mean of the samples, rounded down; zero for an empty sequence.
pub open spec fn spec_mean(s: Seq<u64>) -> int {
    if s.len() == 0 {
        0
    } else {
        spec_sum(s) / (s.len() as int)
    }
}

/// Compute the mean of the samples.
pub fn mean_latency(samples: &Vec<u64>) -> (r: u64)
    ensures
        r == spec_mean(samples@),
{
    let n = samples.len();
    proof {
        lemma_sum_bound(samples@);
        vstd::arithmetic::mul::lemma_mul_upper_bound(
            n as int,
            usize::MAX as int,
            u64::MAX as int,
            u64::MAX as int,
        );
        assert((usize::MAX as int) * (u64::MAX as int) < (u128::MAX as int)) by (nonlinear_arith);
    }
    let mut sum: u128 = 0;
    let mut i: usize = 0;
    while i < samples.len()
        invariant
            i <= samples@.len(),
            sum == spec_sum(samples@.take(i as int)),
            sum <= i * (u64::MAX as int),
            samples@.len() * (u64::MAX as int) < u128::MAX,
        decreases samples@.len() - i,
    {
        proof {
            assert(samples@.take(i + 1).drop_last() =~= samples@.take(i as int));
            assert((i + 1) * (u64::MAX as int) == i * (u64::MAX as int) + u64::MAX)
                by (nonlinear_arith);
            vstd::arithmetic::mul::lemma_mul_inequality(
                i + 1,
                samples@.len() as int,
                u64::MAX as int,
            );
        }
        sum = sum + samples[i] as u128;
        i = i + 1;
    }
    proof {
        assert(samples@.take(samples@.len() as int) =~= samples@);
    }
    if samples.len() == 0 {
        0
    } else {
        proof {
            lemma_sum_bound(samples@);
            vstd::arithmetic::div_mod::lemma_div_multiples_vanish(
                u64::MAX as int,
                samples@.len() as int,
            );
            vstd::arithmetic::div_mod::lemma_div_is_ordered(
                spec_sum(samples@),
                samples@.len() * (u64::MAX as int),
                samples@.len() as int,
            );
            vstd::arithmetic::mul::lemma_mul_is_commutative(
                samples@.len() as int,
                u64::MAX as int,
            );
            vstd::arithmetic::div_mod::lemma_div_basics_4(
                spec_sum(samples@),
                samples@.len() as int,
            );
        }
        (sum / (samples.len() as u128)) as u64
    }
}

/// The achieved request rate in thousandths of a request per second:
/// requests divided by the wall-clock span, zero when the span is.
pub open spec fn spec_rate_milli(requests: int, duration_ms: int) -> int {
    if duration_ms > 0 {
        requests * 1_000_000 / duration_ms
    } else {
        0
    }
}

/// Derive the aggregate metrics from a recorded outcome stream: the
/// counters and byte sums as the aggregator keeps them, the wall-clock
/// span between first and last dispatch, the latency order statistics
/// over the sorted samples, the achieved rate and the success ratio.
/// An empty stream has no metrics.
pub fn calculate_metrics(results: &Vec<AttackResult>) -> (r: Option<Metrics>)
    requires
        spec_sum_bytes_in(results_view(results@)) <= u64::MAX,
        spec_sum_bytes_out(results_view(results@)) <= u64::MAX,
        results@.len() * 1_000_000 <= u64::MAX,
    ensures
        r is Some <==> results@.len() > 0,
        r matches Some(m) ==> ({
            let views = results_view(results@);
            let sorted = spec_sorted(spec_latencies(views));
            &&& m.requests == results@.len()
            &&& m.success == spec_success_count(views)
            &&& m.timeouts == spec_timeout_count(views)
            &&& m.duration == spec_max_ts(views) - spec_min_ts(views)
            &&& m.min == sorted[0]
            &&& m.max == sorted.last()
            &&& m.mean == spec_mean(spec_latencies(views))
            &&& m.p50 == spec_percentile(sorted, 1, 2)
            &&& m.p90 == spec_percentile(sorted, 9, 10)
            &&& m.p95 == spec_percentile(sorted, 19, 20)
            &&& m.p99 == spec_percentile(sorted, 99, 100)
            &&& m.rate == spec_rate_milli(m.requests as int, m.duration as int)
            &&& m.bytes_in == spec_sum_bytes_in(views)
            &&& m.bytes_out == spec_sum_bytes_out(views)
            &&& m.success_rate == m.success * 1000 / (m.requests as int)
        }),
{
    if results.len() == 0 {
        return None;
    }
    let ghost views = results_view(results@);
    let agg = crate::metrics::aggregate_outcomes(results);
    let requests = results.len();
    let sorted = sort_latencies(&agg.request_durations);
    let mean = mean_latency(&agg.request_durations);
    let (min_ts, max_ts) = timestamp_range(results);
    let duration = max_ts - min_ts;
    proof {
        crate::metrics::lemma_count_le_len(views, crate::metrics::success_pred());
        crate::metrics::lemma_count_le_len(views, crate::metrics::timeout_pred());
        vstd::arithmetic::mul::lemma_mul_inequality(
            spec_success_count(views),
            requests as int,
            1000,
        );
        vstd::arithmetic::mul::lemma_mul_inequality(requests as int, requests as int, 1_000_000);
        if duration > 0 {
            vstd::arithmetic::div_mod::lemma_div_is_ordered_by_denominator(
                requests as int * 1_000_000,
                1,
                duration as int,
            );
            vstd::arithmetic::div_mod::lemma_div_basics(duration as int);
            vstd::arithmetic::div_mod::lemma_div_basics_2(requests as int * 1_000_000);
            vstd::arithmetic::div_mod::lemma_div_basics_4(
                requests as int * 1_000_000,
                duration as int,
            );
        }
        vstd::arithmetic::div_mod::lemma_div_is_ordered_by_denominator(
            spec_success_count(views) * 1000,
            1,
            requests as int,
        );
        vstd::arithmetic::div_mod::lemma_div_basics(requests as int);
        vstd::arithmetic::div_mod::lemma_div_basics_2(spec_success_count(views) * 1000);
        vstd::arithmetic::div_mod::lemma_div_basics_4(
            spec_success_count(views) * 1000,
            requests as int,
        );
    }
    let rate: u64 = if duration > 0 {
        ((requests as u128 * 1_000_000) / (duration as u128)) as u64
    } else {
        0
    };
    let success_rate: u64 = ((agg.success_requests as u128 * 1000) / (requests as u128)) as u64;
    Some(
        Metrics {
            requests,
            success: agg.success_requests as usize,
            timeouts: agg.timeout_requests as usize,
            duration,
            min: sorted[0],
            max: sorted[sorted.len() - 1],
            mean,
            p50: percentile_sorted(&sorted, 1, 2),
            p90: percentile_sorted(&sorted, 9, 10),
            p95: percentile_sorted(&sorted, 19, 20),
            p99: percentile_sorted(&sorted, 99, 100),
            rate,
            bytes_in: agg.bytes_in,
            bytes_out: agg.bytes_out,
            success_rate,
        },
    )
}

/// The earliest and latest dispatch timestamps of the stream.
pub fn timestamp_range(results: &Vec<AttackResult>) -> (r: (u64, u64))
    requires
        results@.len() > 0,
    ensures
        r.0 == spec_min_ts(results_view(results@)),
        r.1 == spec_max_ts(results_view(results@)),
        r.0 <= r.1,
{
    let ghost views = results_view(results@);
    let mut min_ts = results[0].timestamp;
    let mut max_ts = results[0].timestamp;
    let mut i: usize = 1;
    proof {
        assert(views.take(1).drop_last() =~= views.take(0));
        assert(views.take(1)[0] == results@[0]@);
    }
    while i < results.len()
        invariant
            1 <= i <= views.len(),
            views == results_view(results@),
            views.len() == results@.len(),
            min_ts == spec_min_ts(views.take(i as int)),
            max_ts == spec_max_ts(views.take(i as int)),
            min_ts <= max_ts,
        decreases views.len() - i,
    {
        proof {
            assert(views.take(i + 1).drop_last() =~= views.take(i as int));
            assert(views.take(i + 1).last() == results@[i as int]@);
        }
        let t = results[i].timestamp;
        if t < min_ts {
            min_ts = t;
        }
        if t > max_ts {
            max_ts = t;
        }
        i = i + 1;
    }
    proof {
        assert(views.take(views.len() as int) =~= views);
    }
    (min_ts, max_ts)
}

} // verus!
