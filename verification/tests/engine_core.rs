//! The engine's scheduling, classification, accounting and metrics,
//! exercised on concrete values.

use culverin::builder::{target, AttackBuilder, BuildError};
use culverin::engine::{
    drain_deadline, drain_poll, effective_workers, next_target_index, prepare_target,
    under_delivered, EngineState,
};
use culverin::metrics::{aggregate_outcomes, snapshot_delta, AttackMetrics};
use culverin::models::{AttackResult, Header, Target};
use culverin::outcome::{build_outcome, capped_bytes_in, classify, ExchangeEvent, OutcomeClass};
use culverin::pacer::{expected_count, should_stop, tick_delay};
use culverin::pool::{ramp_interval, ramp_steps, PoolState};
use culverin::stats::{calculate_metrics, mean_latency, percentile_sorted, sort_latencies};

fn get_target(url: &str) -> Target {
    Target {
        method: "GET".to_string(),
        url: url.to_string(),
        headers: Vec::new(),
        body: None,
    }
}

fn ok_outcome(ts: u64, latency: u64, status: u16, body_len: usize) -> AttackResult {
    build_outcome(
        ts,
        latency,
        get_target("http://a/"),
        ExchangeEvent::Response {
            status,
            body_len,
        },
        -1,
    )
}

#[test]
fn expected_count_matches_rate_times_duration() {
    // 10 requests per second for one second promises 10 requests.
    assert_eq!(expected_count(10, 1_000_000_000, 1_000_000_000), 10);
    // 50 per second for 2.5 seconds promises 125.
    assert_eq!(expected_count(50, 1_000_000_000, 2_500_000_000), 125);
    // 3 per 2 seconds for 3 seconds promises floor(4.5) = 4.
    assert_eq!(expected_count(3, 2_000_000_000, 3_000_000_000), 4);
}

#[test]
fn zero_duration_promises_nothing_and_stops_at_once() {
    assert_eq!(expected_count(50, 1_000_000_000, 0), 0);
    assert!(should_stop(0, Some(0), 0, None));
}

#[test]
fn zero_rate_means_no_pacing_delay() {
    assert_eq!(tick_delay(0, 1_000_000_000), 0);
    assert_eq!(tick_delay(10, 1_000_000_000), 100_000_000);
}

#[test]
fn pacing_stops_exactly_at_the_promise() {
    let expected = 10u64;
    let mut scheduled = 0u64;
    while !should_stop(scheduled, Some(expected), 0, None) {
        scheduled += 1;
    }
    assert_eq!(scheduled, expected);
}

#[test]
fn wall_clock_fallback_when_no_expected_count() {
    assert!(!should_stop(5, None, 99, Some(100)));
    assert!(should_stop(5, None, 100, Some(100)));
    assert!(!should_stop(1_000_000, None, 1_000_000, None));
}

#[test]
fn classification_covers_all_four_kinds() {
    let t = get_target("http://a/");
    let timeout = build_outcome(
        1,
        10,
        t.clone(),
        ExchangeEvent::SendTimeout { message: "request timed out".to_string() },
        -1,
    );
    assert_eq!(classify(&timeout), OutcomeClass::Timeout);
    assert!(timeout.timed_out);
    assert_eq!(timeout.status_code, 0);

    let success = ok_outcome(1, 10, 200, 0);
    assert_eq!(classify(&success), OutcomeClass::Success);

    let failure = ok_outcome(1, 10, 503, 0);
    assert_eq!(classify(&failure), OutcomeClass::Failure);

    let error = build_outcome(
        1,
        10,
        t,
        ExchangeEvent::TransportFailure {
            message: "connection reset".to_string(),
            was_timeout: false,
        },
        -1,
    );
    assert_eq!(classify(&error), OutcomeClass::Error);
    assert_eq!(error.status_code, 0);
    assert!(error.error.is_some());
}

#[test]
fn body_read_timeout_keeps_the_status_and_classifies_as_timeout() {
    let o = build_outcome(
        1,
        10,
        get_target("http://a/"),
        ExchangeEvent::BodyReadTimeout {
            status: 200,
            message: "body read timed out".to_string(),
        },
        -1,
    );
    assert_eq!(o.status_code, 200);
    assert!(o.timed_out);
    assert_eq!(classify(&o), OutcomeClass::Timeout);
}

#[test]
fn bytes_out_equals_request_body_length() {
    let mut t = get_target("http://a/");
    t.body = Some(vec![1, 2, 3, 4, 5]);
    let o = build_outcome(1, 10, t, ExchangeEvent::Response { status: 200, body_len: 0 }, -1);
    assert_eq!(o.bytes_out, 5);
}

#[test]
fn bytes_in_is_capped_by_max_body() {
    // A 10 KB response under a 128-byte cap accounts 128 bytes.
    let o = ok_outcome(1, 10, 200, 10_240);
    assert_eq!(o.bytes_in, 10_240);
    let capped = build_outcome(
        1,
        10,
        get_target("http://a/"),
        ExchangeEvent::Response { status: 200, body_len: 10_240 },
        128,
    );
    assert_eq!(capped.bytes_in, 128);
    assert_eq!(capped_bytes_in(100, 128), 100);
    assert_eq!(capped_bytes_in(200, 128), 128);
    assert_eq!(capped_bytes_in(200, -1), 200);
}

#[test]
fn round_robin_rotates_and_degenerates_with_one_target() {
    assert_eq!(next_target_index(0, 2), 0);
    assert_eq!(next_target_index(1, 2), 1);
    assert_eq!(next_target_index(2, 2), 0);
    assert_eq!(next_target_index(3, 2), 1);
    for scheduled in 0..10 {
        assert_eq!(next_target_index(scheduled, 1), 0);
    }
}

#[test]
fn worker_pool_keeps_the_permit_invariant() {
    let mut pool = PoolState::new(2, Some(4));
    assert!(pool.can_acquire());
    pool.acquire();
    pool.acquire();
    assert!(!pool.can_acquire());
    pool.ramp_step();
    assert!(pool.can_acquire());
    pool.acquire();
    pool.release();
    pool.release();
    pool.release();
    assert_eq!(pool.active, 0);
    assert_eq!(pool.capacity, 3);
    assert_eq!(pool.limit, 4);
}

#[test]
fn ramp_is_a_noop_when_bounds_are_equal() {
    assert_eq!(ramp_steps(8, Some(8)), 0);
    assert_eq!(ramp_steps(8, Some(4)), 0);
    assert_eq!(ramp_steps(8, None), 0);
    assert_eq!(ramp_steps(4, Some(10)), 6);
    assert_eq!(ramp_interval(Some(60_000_000_000), 6), 10_000_000_000);
    assert_eq!(ramp_interval(None, 6), 10_000_000_000);
}

#[test]
fn drained_engine_has_delivered_every_scheduled_request() {
    let mut e = EngineState::new(2, None);
    e.dispatch();
    e.dispatch();
    e.complete();
    e.dispatch();
    e.complete();
    e.complete();
    assert_eq!(e.pool.active, 0);
    assert_eq!(e.scheduled, 3);
    assert_eq!(e.completed, 3);
}

#[test]
fn drain_poll_and_deadline() {
    assert_eq!(drain_deadline(30, 10), 30);
    assert_eq!(drain_deadline(10, 30), 30);
    assert_eq!(drain_poll(0, 5, 100), (true, false));
    assert_eq!(drain_poll(3, 5, 100), (false, false));
    assert_eq!(drain_poll(3, 101, 100), (true, true));
}

#[test]
fn under_delivery_honours_the_tolerance() {
    assert!(!under_delivered(10, 10, 0));
    assert!(under_delivered(9, 10, 0));
    assert!(!under_delivered(9, 10, 100));
    assert!(under_delivered(8, 10, 100));
    assert!(!under_delivered(0, 10, 1000));
}

#[test]
fn prepare_target_merges_body_and_headers_in_order() {
    let base = Target {
        method: "POST".to_string(),
        url: "http://a/".to_string(),
        headers: vec![Header::new("X-First".to_string(), "1".to_string())],
        body: None,
    };
    let global_body = Some(vec![9u8, 9, 9]);
    let proxy = vec![Header::new("X-Proxy".to_string(), "p".to_string())];
    let t = prepare_target(&base, &global_body, true, &proxy);
    assert_eq!(t.body, Some(vec![9u8, 9, 9]));
    assert_eq!(t.headers.len(), 3);
    assert_eq!(t.headers[0].name, "X-First");
    assert_eq!(t.headers[1].name, "Transfer-Encoding");
    assert_eq!(t.headers[1].value, "chunked");
    assert_eq!(t.headers[2].name, "X-Proxy");

    // A target with its own body keeps it, and without chunked no
    // transfer-encoding header appears.
    let mut own = base.clone();
    own.body = Some(vec![1u8]);
    let t2 = prepare_target(&own, &global_body, false, &Vec::new());
    assert_eq!(t2.body, Some(vec![1u8]));
    assert_eq!(t2.headers.len(), 1);
}

#[test]
fn aggregator_counts_every_class_once() {
    let mut m = AttackMetrics::new();
    let outcomes = vec![
        ok_outcome(1, 10, 200, 4),
        ok_outcome(2, 20, 503, 2),
        build_outcome(
            3,
            30,
            get_target("http://a/"),
            ExchangeEvent::SendTimeout { message: "t".to_string() },
            -1,
        ),
        build_outcome(
            4,
            40,
            get_target("http://a/"),
            ExchangeEvent::TransportFailure { message: "e".to_string(), was_timeout: false },
            -1,
        ),
    ];
    for o in &outcomes {
        m.increment_requests();
        m.increment_active_workers();
        m.apply_outcome(o);
    }
    assert_eq!(m.total_requests, 4);
    assert_eq!(m.success_requests, 1);
    assert_eq!(m.timeout_requests, 1);
    // Transport errors count into the failure counter.
    assert_eq!(m.failure_requests, 2);
    assert_eq!(m.bytes_in, 6);
    assert_eq!(m.active_workers, 0);
    assert_eq!(m.request_durations, vec![10, 20, 30, 40]);

    let agg = aggregate_outcomes(&outcomes);
    assert_eq!(agg.total_requests, m.total_requests);
    assert_eq!(agg.success_requests, m.success_requests);
    assert_eq!(agg.failure_requests, m.failure_requests);
    assert_eq!(agg.timeout_requests, m.timeout_requests);
    assert_eq!(agg.bytes_in, m.bytes_in);
    assert_eq!(agg.bytes_out, m.bytes_out);
    assert_eq!(agg.request_durations, m.request_durations);
}

#[test]
fn snapshot_delta_is_the_counter_movement() {
    let prev = AttackMetrics::new();
    let mut cur = prev.clone();
    cur.increment_requests();
    cur.increment_requests();
    cur.increment_success();
    cur.add_bytes_in(100);
    cur.increment_active_workers();
    let d = snapshot_delta(&prev, &cur);
    assert_eq!(d.requests, 2);
    assert_eq!(d.success_requests, 1);
    assert_eq!(d.failure_requests, 0);
    assert_eq!(d.bytes_in, 100);
    assert_eq!(d.active_workers, 1);
    assert_eq!(d.samples_from, 0);
}

#[test]
fn sort_and_percentiles_follow_the_formulas() {
    let samples = vec![50u64, 10, 40, 20, 30];
    let sorted = sort_latencies(&samples);
    assert_eq!(sorted, vec![10, 20, 30, 40, 50]);
    // Index is floor(len * p), clamped: p50 of 5 -> index 2.
    assert_eq!(percentile_sorted(&sorted, 1, 2), 30);
    assert_eq!(percentile_sorted(&sorted, 9, 10), 50);
    assert_eq!(percentile_sorted(&sorted, 99, 100), 50);
    assert_eq!(mean_latency(&samples), 30);
    assert_eq!(mean_latency(&Vec::new()), 0);
}

#[test]
fn metrics_of_a_uniform_success_run() {
    // Ten 200-OK outcomes with empty bodies: all succeed.
    let mut outcomes = Vec::new();
    for i in 0..10u64 {
        outcomes.push(ok_outcome(1000 + i * 100, 1_000_000 + i, 200, 0));
    }
    let m = calculate_metrics(&outcomes).unwrap();
    assert_eq!(m.requests, 10);
    assert_eq!(m.success, 10);
    assert_eq!(m.timeouts, 0);
    assert_eq!(m.success_rate, 1000);
    assert_eq!(m.bytes_in, 0);
    assert_eq!(m.duration, 900);
    assert_eq!(m.min, 1_000_000);
    assert_eq!(m.max, 1_000_009);
}

#[test]
fn metrics_of_a_uniform_failure_run() {
    // Twenty 503 outcomes: no success.
    let mut outcomes = Vec::new();
    for i in 0..20u64 {
        outcomes.push(ok_outcome(1000 + i, 5_000_000, 503, 10));
    }
    let m = calculate_metrics(&outcomes).unwrap();
    assert_eq!(m.requests, 20);
    assert_eq!(m.success, 0);
    assert_eq!(m.success_rate, 0);
    assert_eq!(m.bytes_in, 200);
}

#[test]
fn metrics_of_an_all_timeout_run() {
    let mut outcomes = Vec::new();
    for i in 0..5u64 {
        outcomes.push(build_outcome(
            100 + i,
            500_000_000 + i,
            get_target("http://slow/"),
            ExchangeEvent::SendTimeout { message: "request timed out".to_string() },
            -1,
        ));
    }
    let m = calculate_metrics(&outcomes).unwrap();
    assert_eq!(m.requests, 5);
    assert_eq!(m.success, 0);
    assert_eq!(m.timeouts, 5);
    for o in &outcomes {
        assert!(o.latency >= 500_000_000);
        assert_eq!(o.status_code, 0);
        assert!(o.timed_out);
        assert!(o.error.is_some());
    }
}

#[test]
fn empty_stream_has_no_metrics() {
    assert!(calculate_metrics(&Vec::new()).is_none());
}

#[test]
fn builder_defaults_and_build() {
    let b = AttackBuilder::new();
    assert_eq!(b.rate.requests, 50);
    assert_eq!(b.rate.window, 1_000_000_000);
    assert_eq!(b.duration, Some(30_000_000_000));
    assert_eq!(b.workers, 10);
    assert_eq!(b.max_body, -1);
    assert_eq!(b.laddr, "0.0.0.0");
    assert_eq!(b.redirects, 10);

    let empty = AttackBuilder::new().build();
    assert!(matches!(empty, Err(BuildError::NoTargets)));

    let t = target("GET", "https://example.com").unwrap();
    assert_eq!(t.url, "https://example.com/");
    let plan = AttackBuilder::new()
        .workers(4)
        .max_workers(8)
        .duration(1_000_000_000)
        .add_target(t)
        .add_header("User-Agent", "culverin")
        .build()
        .unwrap();
    assert_eq!(plan.config.workers, 4);
    assert_eq!(plan.config.max_workers, Some(8));
    assert_eq!(plan.config.duration, Some(1_000_000_000));
    assert_eq!(plan.targets.len(), 1);
    assert_eq!(plan.headers.len(), 1);
}

#[test]
fn effective_workers_defaults_to_cpus() {
    assert_eq!(effective_workers(10, 16), 16);
    assert_eq!(effective_workers(4, 16), 4);
}
