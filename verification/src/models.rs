//! Data model of the engine: request templates, per-request outcome
//! records, aggregate metrics, and the attack configuration.
//!
//! Durations are carried as integer nanoseconds and timestamps as
//! integer milliseconds since the epoch, so that every rule about them
//! can be stated and checked exactly.

use vstd::prelude::*;

verus! {

/// An HTTP header: free-form name and value, order preserved, no
/// deduplication.
#[derive(Debug)]
pub struct Header {
    /// Header name
    pub name: String,
    /// Header value
    pub value: String,
}

impl View for Header {
    type V = (Seq<char>, Seq<char>);

    open spec fn view(&self) -> (Seq<char>, Seq<char>) {
        (self.name@, self.value@)
    }
}

impl Clone for Header {
    fn clone(&self) -> (r: Header)
        ensures
            r@ == self@,
    {
        Header { name: self.name.clone(), value: self.value.clone() }
    }
}

impl Header {
    /// Build a header from its two parts.
    pub fn new(name: String, value: String) -> (r: Header)
        ensures
            r@ == (name@, value@),
    {
        Header { name, value }
    }
}

/// Whether a character value is a Unicode scalar, as every character
/// of a real Rust string is.
pub open spec fn char_ok(c: char) -> bool {
    0 <= c as int <= 0x10FFFF && !(0xD800 <= c as int <= 0xDFFF)
}

/// Whether every character of a text is a Unicode scalar.
pub open spec fn text_ok(s: Seq<char>) -> bool {
    forall|k: int| 0 <= k < s.len() ==> char_ok(#[trigger] s[k])
}

/// The mathematical value of a header list: its sequence of
/// name/value pairs.
pub open spec fn headers_view(hs: Seq<Header>) -> Seq<(Seq<char>, Seq<char>)> {
    hs.map_values(|h: Header| h@)
}

/// The mathematical value of a request template.
#[verifier::ext_equal]
pub struct TargetView {
    /// The method token
    pub method: Seq<char>,
    /// The serialized URL
    pub url: Seq<char>,
    /// The ordered header pairs
    pub headers: Seq<(Seq<char>, Seq<char>)>,
    /// The body blob
    pub body: Option<Seq<u8>>,
}

/// An HTTP request template: method token, absolute URL (held as its
/// serialized text), ordered headers, and an optional body blob.
/// Immutable once the attack starts.
#[derive(Debug)]
pub struct Target {
    /// The HTTP method (GET, POST, etc.)
    pub method: String,
    /// The URL to request, in serialized form
    pub url: String,
    /// HTTP headers to include in the request
    pub headers: Vec<Header>,
    /// Request body
    pub body: Option<Vec<u8>>,
}

impl View for Target {
    type V = TargetView;

    open spec fn view(&self) -> TargetView {
        TargetView {
            method: self.method@,
            url: self.url@,
            headers: headers_view(self.headers@),
            body: match self.body {
                Some(b) => Some(b@),
                None => None,
            },
        }
    }
}

impl Clone for Target {
    fn clone(&self) -> (r: Target)
        ensures
            r@ == self@,
    {
        let r = Target {
            method: self.method.clone(),
            url: self.url.clone(),
            headers: clone_headers(&self.headers),
            body: clone_body(&self.body),
        };
        proof {
            assert(r@.headers =~= self@.headers);
            assert(r@ =~= self@);
        }
        r
    }
}

/// Clone a header list, keeping every pair.
pub fn clone_headers(hs: &Vec<Header>) -> (r: Vec<Header>)
    ensures
        headers_view(r@) == headers_view(hs@),
{
    let mut r: Vec<Header> = Vec::new();
    let mut i: usize = 0;
    while i < hs.len()
        invariant
            i <= hs.len(),
            r@.len() == i,
            forall|k: int| 0 <= k < i ==> r@[k]@ == hs@[k]@,
        decreases hs.len() - i,
    {
        r.push(hs[i].clone());
        i = i + 1;
    }
    proof {
        assert(headers_view(r@) =~~= headers_view(hs@));
    }
    r
}

/// Clone an optional body blob, keeping its bytes.
pub fn clone_body(b: &Option<Vec<u8>>) -> (r: Option<Vec<u8>>)
    ensures
        match b {
            Some(v) => r matches Some(w) && w@ == v@,
            None => r is None,
        },
{
    match b {
        Some(v) => {
            let w = v.clone();
            proof {
                assert(w@ =~= v@);
            }
            Some(w)
        },
        None => None,
    }
}

impl Target {
    /// The number of bytes the request body will send: the body length,
    /// or zero when there is none.
    pub open spec fn spec_body_len(&self) -> nat {
        match self.body {
            Some(b) => b@.len(),
            None => 0,
        }
    }

    /// Length of the body blob, 0 if absent.
    pub fn body_len(&self) -> (r: usize)
        ensures
            r == self.spec_body_len(),
    {
        match &self.body {
            Some(b) => b.len(),
            None => 0,
        }
    }
}

/// The mathematical value of an outcome record.
#[verifier::ext_equal]
pub struct AttackResultView {
    /// Milliseconds since the epoch at dispatch
    pub timestamp: u64,
    /// Nanoseconds from start to completion or timeout
    pub latency: u64,
    /// HTTP status, 0 when none was received
    pub status_code: u16,
    /// Failure description
    pub error: Option<Seq<char>>,
    /// The attempted target
    pub target: TargetView,
    /// Response-body bytes accounted
    pub bytes_in: usize,
    /// Request-body bytes sent
    pub bytes_out: usize,
    /// Whether the per-request deadline was the cause of failure
    pub timed_out: bool,
}

/// The record produced for every dispatched request.
///
/// Exactly one of {timeout, success, failure-by-status, error}
/// classifies a well-formed record; see `classify`.
#[derive(Clone, Debug)]
pub struct AttackResult {
    /// Wall-clock instant when the exchange began, in milliseconds
    /// since the epoch.
    pub timestamp: u64,
    /// Monotonic duration from request start to completion or timeout,
    /// in nanoseconds.
    pub latency: u64,
    /// Numeric HTTP status, or 0 if no response was received.
    pub status_code: u16,
    /// Human-readable failure description; present whenever the
    /// exchange did not yield a usable HTTP status.
    pub error: Option<String>,
    /// The target that was attempted.
    pub target: Target,
    /// Bytes of response body received, after the `max_body` cap.
    pub bytes_in: usize,
    /// Bytes of request body sent.
    pub bytes_out: usize,
    /// True iff the failure cause was the per-request deadline.
    pub timed_out: bool,
}

impl View for AttackResult {
    type V = AttackResultView;

    open spec fn view(&self) -> AttackResultView {
        AttackResultView {
            timestamp: self.timestamp,
            latency: self.latency,
            status_code: self.status_code,
            error: match self.error {
                Some(e) => Some(e@),
                None => None,
            },
            target: self.target@,
            bytes_in: self.bytes_in,
            bytes_out: self.bytes_out,
            timed_out: self.timed_out,
        }
    }
}

impl AttackResult {
    /// Well-formedness: a record with no status carries an error
    /// description (or is a timeout), and its latency is nonzero.
    pub open spec fn wf(&self) -> bool {
        &&& self.status_code == 0 ==> self.error is Some
        &&& self.latency > 0
    }

    /// Copy the record, keeping its value.
    pub fn clone_record(&self) -> (r: AttackResult)
        ensures
            r@ == self@,
    {
        let error = match &self.error {
            Some(e) => {
                let c = e.clone();
                proof {
                    assert(c@ =~= e@);
                }
                Some(c)
            },
            None => None,
        };
        let r = AttackResult {
            timestamp: self.timestamp,
            latency: self.latency,
            status_code: self.status_code,
            error,
            target: self.target.clone(),
            bytes_in: self.bytes_in,
            bytes_out: self.bytes_out,
            timed_out: self.timed_out,
        };
        proof {
            assert(r@ =~~= self@);
        }
        r
    }
}

/// Aggregate metrics of a recorded run, derived from the outcome
/// stream.  Latency figures are nanoseconds; the achieved rate is in
/// requests per 1000 seconds (milli-requests per second) and the
/// success ratio in parts per thousand, both rounded down.
#[derive(Clone, Debug, PartialEq, Eq)]
pub struct Metrics {
    /// Total number of requests
    pub requests: usize,
    /// Number of successful requests (2xx status)
    pub success: usize,
    /// Number of timed out requests
    pub timeouts: usize,
    /// Wall-clock span between first and last outcome, milliseconds
    pub duration: u64,
    /// Minimum latency observed, nanoseconds
    pub min: u64,
    /// Maximum latency observed, nanoseconds
    pub max: u64,
    /// Mean latency, nanoseconds, rounded down
    pub mean: u64,
    /// 50th percentile latency, nanoseconds
    pub p50: u64,
    /// 90th percentile latency, nanoseconds
    pub p90: u64,
    /// 95th percentile latency, nanoseconds
    pub p95: u64,
    /// 99th percentile latency, nanoseconds
    pub p99: u64,
    /// Achieved requests per second, in thousandths
    pub rate: u64,
    /// Total bytes received
    pub bytes_in: u64,
    /// Total bytes sent
    pub bytes_out: u64,
    /// Success ratio in parts per thousand
    pub success_rate: u64,
}

/// Scheduling and client parameters, immutable once the engine starts.
///
/// `rate` is a rational: `rate_requests` requests per `rate_window`
/// nanoseconds; `rate_requests == 0` means unbounded.  The reserved
/// `tolerance` is in parts per thousand.
#[derive(Clone, Debug)]
pub struct AttackConfig {
    /// Requests per window; 0 means as fast as possible
    pub rate_requests: u64,
    /// Rate window in nanoseconds; must be positive
    pub rate_window: u64,
    /// Duration of the attack in nanoseconds; absence means unbounded
    pub duration: Option<u64>,
    /// Reserved drain-phase cap, nanoseconds
    pub timeout: u64,
    /// Per-request deadline, nanoseconds
    pub http_timeout: u64,
    /// Initial number of workers
    pub workers: u64,
    /// Upper bound of the worker pool
    pub max_workers: Option<u64>,
    /// Whether to keep idle connections pooled
    pub keepalive: bool,
    /// Idle-connection-pool size per host
    pub connections: usize,
    /// Maximum connections per host
    pub max_connections: Option<usize>,
    /// HTTP/2 negotiation
    pub http2: bool,
    /// Name of the attack
    pub name: Option<String>,
    /// Byte cap on response-body accounting; negative means uncapped
    pub max_body: i64,
    /// DNS cache TTL, nanoseconds (reserved)
    pub dns_ttl: u64,
    /// Local bind address; "0.0.0.0" means any
    pub laddr: String,
    /// Read targets lazily (reserved)
    pub lazy: bool,
    /// Telemetry exporter address (reserved)
    pub opentelemetry_addr: Option<String>,
    /// Under-delivery tolerance in parts per thousand
    pub tolerance: Option<u64>,
}

impl AttackConfig {
    /// Configuration well-formedness: the rate window is a real span
    /// of time and the tolerance, when given, is a ratio.
    pub open spec fn wf(&self) -> bool {
        &&& self.rate_window > 0
        &&& match self.tolerance {
                Some(t) => t <= 1000,
                None => true,
            }
    }
}

} // verus!
