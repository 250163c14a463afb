//! The textual formats: the rate string, header and target lists, the
//! multi-line target file, the result-log codec, the human-readable
//! rendering, and the report helpers.

use culverin::codec::{encode_outcome, parse_outcome};
use culverin::display::{format_duration, format_size};
use culverin::metrics::aggregate_outcomes;
use culverin::models::{AttackResult, Header, Target};
use culverin::outcome::{build_outcome, ExchangeEvent};
use culverin::parse::{
    parse_buckets, parse_headers, parse_http_targets, parse_rate, HeaderError, Rate, RateError,
    TargetError,
};
use culverin::report::{csv_field, csv_record, downsample, histogram_counts, percentile_ceil};
use culverin::targets_file::{parse_file_targets, FileTargetError, RawBody};

#[test]
fn rate_strings_parse_exactly() {
    assert_eq!(parse_rate("50/1s"), Ok(Rate { requests: 50, window: 1_000_000_000 }));
    assert_eq!(parse_rate("10/500ms"), Ok(Rate { requests: 10, window: 500_000_000 }));
    assert_eq!(parse_rate("1/2m"), Ok(Rate { requests: 1, window: 120_000_000_000 }));
    assert_eq!(parse_rate("50"), Err(RateError::BadShape));
    assert_eq!(parse_rate("50/1s/2s"), Err(RateError::BadShape));
    assert_eq!(parse_rate("007/1s"), Ok(Rate { requests: 7, window: 1_000_000_000 }));
    assert_eq!(parse_rate("abc/1s"), Err(RateError::BadCount));
    assert_eq!(parse_rate("1e3/1s"), Err(RateError::BadCount));
    assert_eq!(parse_rate("./1s"), Err(RateError::BadCount));
    assert_eq!(parse_rate("50/banana"), Err(RateError::BadDuration));
    assert_eq!(parse_rate("50/0s"), Err(RateError::ZeroDuration));
    assert_eq!(
        parse_rate("99999999999999999999/1s"),
        Err(RateError::OutOfRange)
    );
}

#[test]
fn fractional_counts_scale_the_window() {
    // Half a request per second is five requests per ten seconds.
    assert_eq!(parse_rate("0.5/1s"), Ok(Rate { requests: 5, window: 10_000_000_000 }));
    assert_eq!(parse_rate(".5/1s"), Ok(Rate { requests: 5, window: 10_000_000_000 }));
    assert_eq!(parse_rate("5./1s"), Ok(Rate { requests: 5, window: 1_000_000_000 }));
    assert_eq!(
        parse_rate("1.25/2s"),
        Ok(Rate { requests: 125, window: 200_000_000_000 })
    );
    assert_eq!(parse_rate("0.0/1s"), Ok(Rate { requests: 0, window: 10_000_000_000 }));
    // A fraction too fine for the clock's window is out of range.
    assert_eq!(
        parse_rate("0.000000000000000000001/1s"),
        Err(RateError::OutOfRange)
    );
}

#[test]
fn astronomical_durations_are_turned_away_without_aborting() {
    // At the seconds counter's maximum with exactly one billion
    // nanoseconds, the outside duration parser would abort; the
    // screen turns such spans away first.
    assert_eq!(
        parse_rate("1/18446744073709551615s 1000000000ns"),
        Err(RateError::DurationTooLarge)
    );
    assert_eq!(
        parse_rate("1/18446744073709551615s 1000ms"),
        Err(RateError::DurationTooLarge)
    );
    assert_eq!(parse_buckets("[0,18446744073709551615s 1000000000ns]"), Err(1));
    // The grammar joins digits across whitespace into one number; the
    // screen values the joined span, so the split spelling of the
    // same abort is turned away too.
    assert_eq!(
        parse_rate("1/1 8446744073709551615s 999999999ns 1ns"),
        Err(RateError::DurationTooLarge)
    );
    // A small joined number is an ordinary duration.
    assert_eq!(parse_rate("1/1 0s"), Ok(Rate { requests: 1, window: 10_000_000_000 }));
    // Long but real spans still pass the screen: the engine's clock
    // itself caps them afterwards.
    assert_eq!(
        parse_rate("1/10000000000000000000ns"),
        Ok(Rate { requests: 1, window: 10_000_000_000_000_000_000 })
    );
    assert_eq!(parse_rate("1/600000000000s"), Err(RateError::DurationTooLarge));
}

#[test]
fn header_lines_split_at_the_first_colon_and_trim() {
    let hs = parse_headers(&vec![
        "Content-Type: application/json".to_string(),
        "  X-Odd :  a:b:c  ".to_string(),
    ])
    .unwrap();
    assert_eq!(hs.len(), 2);
    assert_eq!(hs[0].name, "Content-Type");
    assert_eq!(hs[0].value, "application/json");
    assert_eq!(hs[1].name, "X-Odd");
    assert_eq!(hs[1].value, "a:b:c");

    let bad = parse_headers(&vec!["ok: yes".to_string(), "nocolon".to_string()]);
    assert!(matches!(bad, Err(HeaderError::MissingColon { index: 1 })));
}

#[test]
fn plain_target_lines_parse_with_comments_skipped() {
    let lines = vec![
        "# comment".to_string(),
        "".to_string(),
        "GET https://example.com".to_string(),
        "POST https://example.com/things".to_string(),
    ];
    let ts = parse_http_targets(&lines).unwrap();
    assert_eq!(ts.len(), 2);
    assert_eq!(ts[0].method, "GET");
    assert_eq!(ts[0].url, "https://example.com/");
    assert_eq!(ts[1].method, "POST");
    assert_eq!(ts[1].url, "https://example.com/things");

    let bad_shape = parse_http_targets(&vec!["JUSTONETOKEN".to_string()]);
    assert!(matches!(bad_shape, Err(TargetError::BadShape { line: 0 })));
    let bad_url = parse_http_targets(&vec!["GET notaurl".to_string()]);
    assert!(matches!(bad_url, Err(TargetError::BadUrl { line: 0 })));
}

#[test]
fn file_targets_simple_form_with_body_path() {
    let lines = vec![
        "POST http://goku:9090/things".to_string(),
        "Header1: asdasd".to_string(),
        "Body: some/file/path".to_string(),
    ];
    let ts = parse_file_targets(&lines).unwrap();
    assert_eq!(ts.len(), 1);
    assert_eq!(ts[0].method, "POST");
    assert_eq!(ts[0].url, "http://goku:9090/things");
    assert_eq!(ts[0].headers.len(), 1);
    assert_eq!(ts[0].headers[0].name, "Header1");
    match &ts[0].body {
        RawBody::FromFile(p) => assert_eq!(p, "some/file/path"),
        _ => panic!("expected a body file reference"),
    }
}

#[test]
fn file_targets_http_form_builds_the_url_from_host() {
    let lines = vec![
        "POST /api/things HTTP/1.1".to_string(),
        "Host: goku:9090".to_string(),
        "Content-Type: application/json".to_string(),
        "".to_string(),
        "{\"key\": \"value\"}".to_string(),
    ];
    let ts = parse_file_targets(&lines).unwrap();
    assert_eq!(ts.len(), 1);
    assert_eq!(ts[0].method, "POST");
    assert_eq!(ts[0].url, "http://goku:9090/api/things");
    assert_eq!(ts[0].headers.len(), 2);
    match &ts[0].body {
        RawBody::Inline(t) => assert_eq!(t, "{\"key\": \"value\"}"),
        _ => panic!("expected an inline body"),
    }
}

#[test]
fn file_targets_two_requests_separated_by_a_blank_line() {
    let lines = vec![
        "GET http://a:1/x".to_string(),
        "".to_string(),
        "DELETE http://a:1/y".to_string(),
    ];
    let ts = parse_file_targets(&lines).unwrap();
    assert_eq!(ts.len(), 2);
    assert_eq!(ts[0].method, "GET");
    assert_eq!(ts[1].method, "DELETE");
}

#[test]
fn file_targets_http_form_without_host_fails() {
    let lines = vec!["POST /api/things HTTP/1.1".to_string()];
    let r = parse_file_targets(&lines);
    assert_eq!(r.unwrap_err().0, FileTargetError::MissingHost);
}

#[test]
fn file_targets_unexpected_line_fails() {
    let lines = vec!["justoneword".to_string()];
    let r = parse_file_targets(&lines);
    assert_eq!(r.unwrap_err(), (FileTargetError::UnexpectedLine, 0));
}

fn sample_outcome() -> AttackResult {
    build_outcome(
        1700000000123,
        2_500_000,
        Target {
            method: "POST".to_string(),
            url: "http://a/\"x\"".to_string(),
            headers: vec![Header::new("K".to_string(), "v1,v2".to_string())],
            body: Some(vec![0, 127, 255]),
        },
        ExchangeEvent::Response { status: 200, body_len: 42 },
        -1,
    )
}

#[test]
fn log_line_has_the_canonical_shape() {
    let o = sample_outcome();
    let line = encode_outcome(&o);
    assert_eq!(
        line,
        "{\"timestamp\":1700000000123,\"latency\":2500000,\"status_code\":200,\
         \"bytes_in\":42,\"bytes_out\":3,\"timed_out\":false,\"error\":null,\
         \"target\":{\"method\":\"POST\",\"url\":\"http://a/\\\"x\\\"\",\
         \"headers\":[[\"K\",\"v1,v2\"]],\"body\":[0,127,255]}}"
    );
}

#[test]
fn log_line_round_trips() {
    let o = sample_outcome();
    let line = encode_outcome(&o);
    let back = parse_outcome(&line).unwrap();
    assert_eq!(back.timestamp, o.timestamp);
    assert_eq!(back.latency, o.latency);
    assert_eq!(back.status_code, o.status_code);
    assert_eq!(back.error, o.error);
    assert_eq!(back.bytes_in, o.bytes_in);
    assert_eq!(back.bytes_out, o.bytes_out);
    assert_eq!(back.timed_out, o.timed_out);
    assert_eq!(back.target.method, o.target.method);
    assert_eq!(back.target.url, o.target.url);
    assert_eq!(back.target.headers.len(), 1);
    assert_eq!(back.target.headers[0].name, "K");
    assert_eq!(back.target.headers[0].value, "v1,v2");
    assert_eq!(back.target.body, Some(vec![0, 127, 255]));
}

#[test]
fn control_characters_survive_the_round_trip() {
    let o = build_outcome(
        7,
        9,
        Target {
            method: "GET".to_string(),
            url: "http://a/".to_string(),
            headers: Vec::new(),
            body: None,
        },
        ExchangeEvent::TransportFailure {
            message: "line1\nline2\ttabbed \\ quoted \"x\"".to_string(),
            was_timeout: false,
        },
        -1,
    );
    let line = encode_outcome(&o);
    assert!(line.contains("\\u000a"));
    let back = parse_outcome(&line).unwrap();
    assert_eq!(back.error, o.error);
}

#[test]
fn mangled_lines_are_rejected() {
    assert!(parse_outcome("").is_none());
    assert!(parse_outcome("{}").is_none());
    assert!(parse_outcome("{\"timestamp\":x}").is_none());
    let o = sample_outcome();
    let line = encode_outcome(&o);
    let mut chopped = line.clone();
    chopped.pop();
    assert!(parse_outcome(&chopped).is_none());
    let trailing = format!("{} ", line);
    assert!(parse_outcome(&trailing).is_none());
}

#[test]
fn rereading_the_log_rederives_the_same_counters() {
    let outcomes = vec![
        sample_outcome(),
        build_outcome(
            1700000000456,
            1_000_000,
            Target {
                method: "GET".to_string(),
                url: "http://a/".to_string(),
                headers: Vec::new(),
                body: None,
            },
            ExchangeEvent::SendTimeout { message: "request timed out".to_string() },
            -1,
        ),
        build_outcome(
            1700000000789,
            3_000_000,
            Target {
                method: "GET".to_string(),
                url: "http://a/".to_string(),
                headers: Vec::new(),
                body: None,
            },
            ExchangeEvent::Response { status: 500, body_len: 7 },
            -1,
        ),
    ];
    let live = aggregate_outcomes(&outcomes);
    let mut reread = Vec::new();
    for o in &outcomes {
        let line = encode_outcome(o);
        reread.push(parse_outcome(&line).unwrap());
    }
    let derived = aggregate_outcomes(&reread);
    assert_eq!(derived.total_requests, live.total_requests);
    assert_eq!(derived.success_requests, live.success_requests);
    assert_eq!(derived.failure_requests, live.failure_requests);
    assert_eq!(derived.timeout_requests, live.timeout_requests);
    assert_eq!(derived.bytes_in, live.bytes_in);
    assert_eq!(derived.bytes_out, live.bytes_out);
    assert_eq!(derived.request_durations, live.request_durations);
}

#[test]
fn durations_format_with_rounded_fractions() {
    assert_eq!(format_duration(500), "0µs");
    assert_eq!(format_duration(999_000), "999µs");
    assert_eq!(format_duration(1_500_000), "1.50ms");
    assert_eq!(format_duration(1_996_000), "2.00ms");
    assert_eq!(format_duration(2_518_000_000), "2.52s");
    assert_eq!(format_duration(90_000_000_000), "1m30.00s");
}

#[test]
fn sizes_format_in_kibibyte_steps() {
    assert_eq!(format_size(512), "512B");
    assert_eq!(format_size(1024), "1.00KB");
    assert_eq!(format_size(1535), "1.50KB");
    assert_eq!(format_size(1536), "1.50KB");
    assert_eq!(format_size(3 * 1024 * 1024), "3.00MB");
    assert_eq!(format_size(5 * 1024 * 1024 * 1024), "5.00GB");
}

#[test]
fn histogram_counts_split_at_the_bucket_bounds() {
    let samples = vec![5u64, 10, 15, 100, 200];
    let buckets = vec![10u64, 100];
    let counts = histogram_counts(&samples, &buckets);
    assert_eq!(counts, vec![1, 2, 2]);
    let no_buckets = histogram_counts(&samples, &Vec::new());
    assert_eq!(no_buckets, vec![5]);
}

#[test]
fn report_percentiles_use_the_ceiling_rule() {
    let sorted = vec![10u64, 20, 30, 40, 50, 60, 70, 80, 90, 100];
    // ceil(10 * 0.5) - 1 = 4.
    assert_eq!(percentile_ceil(&sorted, 1, 2), 50);
    assert_eq!(percentile_ceil(&sorted, 99, 100), 100);
    assert_eq!(percentile_ceil(&sorted, 0, 100), 10);
}

#[test]
fn downsampling_keeps_every_factor_th_record() {
    let mut outcomes = Vec::new();
    for i in 0..10u64 {
        outcomes.push(build_outcome(
            i,
            1 + i,
            Target {
                method: "GET".to_string(),
                url: "http://a/".to_string(),
                headers: Vec::new(),
                body: None,
            },
            ExchangeEvent::Response { status: 200, body_len: 0 },
            -1,
        ));
    }
    let kept = downsample(&outcomes, 4);
    // factor = 10 / 4 = 2: records 0, 2, 4, 6, 8.
    assert_eq!(kept.len(), 5);
    for (k, o) in kept.iter().enumerate() {
        assert_eq!(o.timestamp, (k as u64) * 2);
    }
    let all = downsample(&outcomes, 100);
    assert_eq!(all.len(), 10);
}

#[test]
fn csv_fields_quote_when_needed() {
    assert_eq!(csv_field("plain"), "plain");
    assert_eq!(csv_field("a,b"), "\"a,b\"");
    assert_eq!(csv_field("say \"hi\""), "\"say \"\"hi\"\"\"");
    assert_eq!(csv_field("line\nbreak"), "\"line\nbreak\"");
}

#[test]
fn csv_record_renders_every_field() {
    let o = sample_outcome();
    let fields = csv_record(&o);
    assert_eq!(
        fields,
        vec![
            "1700000000123".to_string(),
            "2.50ms".to_string(),
            "200".to_string(),
            "".to_string(),
            "POST".to_string(),
            "http://a/\"x\"".to_string(),
            "42".to_string(),
            "3".to_string(),
        ]
    );
}

#[test]
fn bucket_strings_parse_with_brackets_stripped() {
    assert_eq!(parse_buckets("[0,1ms,10ms]"), Ok(vec![0, 1_000_000, 10_000_000]));
    assert_eq!(parse_buckets("2s"), Ok(vec![2_000_000_000]));
    assert_eq!(parse_buckets("[0, 5us ]"), Ok(vec![0, 5_000]));
    assert_eq!(parse_buckets("[0,notime]"), Err(1));
    assert_eq!(parse_buckets(""), Err(0));
}

#[test]
fn file_targets_every_block_keeps_its_inline_body() {
    // Two blocks with inline bodies separated by a blank line: each
    // target keeps its own body, not only the final one.
    let lines = vec![
        "POST http://a:1/x".to_string(),
        "Body:".to_string(),
        "{\"first\": 1}".to_string(),
        "".to_string(),
        "POST /api/y HTTP/1.1".to_string(),
        "Host: a:1".to_string(),
        "".to_string(),
        "{\"second\": 2}".to_string(),
        "".to_string(),
        "GET http://a:1/z".to_string(),
    ];
    let ts = parse_file_targets(&lines).unwrap();
    assert_eq!(ts.len(), 3);
    match &ts[0].body {
        RawBody::Inline(t) => assert_eq!(t, "{\"first\": 1}"),
        _ => panic!("expected the first block's inline body"),
    }
    match &ts[1].body {
        RawBody::Inline(t) => assert_eq!(t, "{\"second\": 2}"),
        _ => panic!("expected the second block's inline body"),
    }
    assert!(matches!(ts[2].body, RawBody::Absent));
}
