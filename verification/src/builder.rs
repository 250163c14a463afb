//! Configuring an attack: the builder the library's users assemble a
//! run from, and the helpers for making targets.

use vstd::prelude::*;
use crate::models::{AttackConfig, Header, Target};
use crate::parse::Rate;
use crate::wrappers::{parse_url_text, parsed_url};

verus! {

/// Everything a run needs: the scheduling parameters, the targets,
/// the global headers, and the client options.
pub struct AttackPlan {
    /// Scheduling and client parameters
    pub config: AttackConfig,
    /// The request templates, round-robin order
    pub targets: Vec<Target>,
    /// Headers attached to every request
    pub headers: Vec<Header>,
    /// Skip TLS certificate verification
    pub insecure: bool,
    /// HTTP/2 without TLS
    pub h2c: bool,
    /// Redirects to follow; negative means do not follow
    pub redirects: i32,
}

/// Builder for configuring an attack.  Defaults: 50 requests per
/// second for 30 seconds, 10 workers, keepalive on, HTTP/2 on, 10
/// redirects, no body cap.
pub struct AttackBuilder {
    /// Request rate
    pub rate: Rate,
    /// Run duration in nanoseconds; absence means unbounded
    pub duration: Option<u64>,
    /// Per-request deadline, nanoseconds
    pub timeout: u64,
    /// Initial workers
    pub workers: u64,
    /// Worker-pool upper bound
    pub max_workers: Option<u64>,
    /// Keep idle connections pooled
    pub keepalive: bool,
    /// Idle connections per host
    pub connections: usize,
    /// Maximum connections per host
    pub max_connections: Option<usize>,
    /// HTTP/2 negotiation
    pub http2: bool,
    /// Attack name
    pub name: Option<String>,
    /// Response-body accounting cap; negative means uncapped
    pub max_body: i64,
    /// DNS cache TTL, nanoseconds
    pub dns_ttl: u64,
    /// Local bind address
    pub laddr: String,
    /// Read targets lazily (reserved)
    pub lazy: bool,
    /// Telemetry exporter address (reserved)
    pub opentelemetry_addr: Option<String>,
    /// The request templates
    pub targets: Vec<Target>,
    /// Headers attached to every request
    pub headers: Vec<Header>,
    /// Skip TLS certificate verification
    pub insecure: bool,
    /// HTTP/2 without TLS
    pub h2c: bool,
    /// Redirects to follow
    pub redirects: i32,
}

/// Why a plan cannot be built.
#[derive(PartialEq, Eq, Structural, Clone, Copy, Debug)]
pub enum BuildError {
    /// No targets were given
    NoTargets,
}

impl AttackBuilder {
    /// Create a builder with the default settings.
    pub fn new() -> (r: AttackBuilder)
        ensures
            r.rate == (Rate { requests: 50, window: 1_000_000_000 }),
            r.duration == Some(30_000_000_000u64),
            r.timeout == 30_000_000_000u64,
            r.workers == 10u64,
            r.max_workers is None,
            r.keepalive,
            r.connections == 10000usize,
            r.max_connections is None,
            r.http2,
            r.name is None,
            r.max_body == -1int,
            r.dns_ttl == 0u64,
            r.laddr@ == "0.0.0.0"@,
            !r.lazy,
            r.opentelemetry_addr is None,
            r.targets@.len() == 0,
            r.headers@.len() == 0,
            !r.insecure,
            !r.h2c,
            r.redirects == 10int,
    {
        AttackBuilder {
            rate: Rate { requests: 50, window: 1_000_000_000 },
            duration: Some(30_000_000_000),
            timeout: 30_000_000_000,
            workers: 10,
            max_workers: None,
            keepalive: true,
            connections: 10000,
            max_connections: None,
            http2: true,
            name: None,
            max_body: -1,
            dns_ttl: 0,
            laddr: "0.0.0.0".to_owned(),
            lazy: false,
            opentelemetry_addr: None,
            targets: Vec::new(),
            headers: Vec::new(),
            insecure: false,
            h2c: false,
            redirects: 10,
        }
    }

    /// Set the request rate.
    pub fn rate(self, rate: Rate) -> (r: AttackBuilder)
        ensures
            r == (AttackBuilder { rate, ..self }),
    {
        AttackBuilder { rate, ..self }
    }

    /// Set the attack duration, in nanoseconds.
    pub fn duration(self, duration: u64) -> (r: AttackBuilder)
        ensures
            r == (AttackBuilder { duration: Some(duration), ..self }),
    {
        AttackBuilder { duration: Some(duration), ..self }
    }

    /// Set the per-request deadline, in nanoseconds.
    pub fn timeout(self, timeout: u64) -> (r: AttackBuilder)
        ensures
            r == (AttackBuilder { timeout, ..self }),
    {
        AttackBuilder { timeout, ..self }
    }

    /// Set the initial worker count.
    pub fn workers(self, workers: u64) -> (r: AttackBuilder)
        ensures
            r == (AttackBuilder { workers, ..self }),
    {
        AttackBuilder { workers, ..self }
    }

    /// Set the worker-pool upper bound.
    pub fn max_workers(self, max_workers: u64) -> (r: AttackBuilder)
        ensures
            r == (AttackBuilder { max_workers: Some(max_workers), ..self }),
    {
        AttackBuilder { max_workers: Some(max_workers), ..self }
    }

    /// Set whether idle connections stay pooled.
    pub fn keepalive(self, keepalive: bool) -> (r: AttackBuilder)
        ensures
            r == (AttackBuilder { keepalive, ..self }),
    {
        AttackBuilder { keepalive, ..self }
    }

    /// Set the idle-connection count per host.
    pub fn connections(self, connections: usize) -> (r: AttackBuilder)
        ensures
            r == (AttackBuilder { connections, ..self }),
    {
        AttackBuilder { connections, ..self }
    }

    /// Set the maximum connections per host.
    pub fn max_connections(self, max_connections: usize) -> (r: AttackBuilder)
        ensures
            r == (AttackBuilder { max_connections: Some(max_connections), ..self }),
    {
        AttackBuilder { max_connections: Some(max_connections), ..self }
    }

    /// Set HTTP/2 negotiation.
    pub fn http2(self, http2: bool) -> (r: AttackBuilder)
        ensures
            r == (AttackBuilder { http2, ..self }),
    {
        AttackBuilder { http2, ..self }
    }

    /// Set the attack name.
    pub fn name(self, name: String) -> (r: AttackBuilder)
        ensures
            r == (AttackBuilder { name: Some(name), ..self }),
    {
        AttackBuilder { name: Some(name), ..self }
    }

    /// Set the response-body accounting cap.
    pub fn max_body(self, max_body: i64) -> (r: AttackBuilder)
        ensures
            r == (AttackBuilder { max_body, ..self }),
    {
        AttackBuilder { max_body, ..self }
    }

    /// Set the DNS cache TTL, in nanoseconds.
    pub fn dns_ttl(self, dns_ttl: u64) -> (r: AttackBuilder)
        ensures
            r == (AttackBuilder { dns_ttl, ..self }),
    {
        AttackBuilder { dns_ttl, ..self }
    }

    /// Set the local bind address.
    pub fn laddr(self, laddr: String) -> (r: AttackBuilder)
        ensures
            r == (AttackBuilder { laddr, ..self }),
    {
        AttackBuilder { laddr, ..self }
    }

    /// Set lazy target reading (reserved).
    pub fn lazy(self, lazy: bool) -> (r: AttackBuilder)
        ensures
            r == (AttackBuilder { lazy, ..self }),
    {
        AttackBuilder { lazy, ..self }
    }

    /// Set the telemetry exporter address (reserved).
    pub fn opentelemetry_addr(self, addr: String) -> (r: AttackBuilder)
        ensures
            r == (AttackBuilder { opentelemetry_addr: Some(addr), ..self }),
    {
        AttackBuilder { opentelemetry_addr: Some(addr), ..self }
    }

    /// Set the targets.
    pub fn targets(self, targets: Vec<Target>) -> (r: AttackBuilder)
        ensures
            r == (AttackBuilder { targets, ..self }),
    {
        AttackBuilder { targets, ..self }
    }

    /// Add a single target.
    pub fn add_target(self, target: Target) -> (r: AttackBuilder)
        ensures
            r.targets@ == self.targets@.push(target),
            r == (AttackBuilder { targets: r.targets, ..self }),
    {
        let mut ts = self.targets;
        ts.push(target);
        let r = AttackBuilder { targets: ts, ..self };
        r
    }

    /// Set the global headers.
    pub fn headers(self, headers: Vec<Header>) -> (r: AttackBuilder)
        ensures
            r == (AttackBuilder { headers, ..self }),
    {
        AttackBuilder { headers, ..self }
    }

    /// Add a single global header.
    pub fn add_header(self, name: &str, value: &str) -> (r: AttackBuilder)
        ensures
            r.headers@.len() == self.headers@.len() + 1,
            r.headers@.last()@ == (name@, value@),
            forall|k: int| 0 <= k < self.headers@.len() ==> r.headers@[k] == self.headers@[k],
            r == (AttackBuilder { headers: r.headers, ..self }),
    {
        let mut hs = self.headers;
        hs.push(Header::new(name.to_owned(), value.to_owned()));
        let r = AttackBuilder { headers: hs, ..self };
        r
    }

    /// Set whether invalid server TLS certificates are accepted.
    pub fn insecure(self, insecure: bool) -> (r: AttackBuilder)
        ensures
            r == (AttackBuilder { insecure, ..self }),
    {
        AttackBuilder { insecure, ..self }
    }

    /// Set HTTP/2 without TLS.
    pub fn h2c(self, h2c: bool) -> (r: AttackBuilder)
        ensures
            r == (AttackBuilder { h2c, ..self }),
    {
        AttackBuilder { h2c, ..self }
    }

    /// Set the number of redirects to follow; negative means none.
    pub fn redirects(self, redirects: i32) -> (r: AttackBuilder)
        ensures
            r == (AttackBuilder { redirects, ..self }),
    {
        AttackBuilder { redirects, ..self }
    }

    /// Turn the builder into a runnable plan.  Fails exactly when no
    /// target was given.
    pub fn build(self) -> (r: Result<AttackPlan, BuildError>)
        ensures
            match r {
                Ok(p) => {
                    &&& self.targets@.len() > 0
                    &&& p.config.rate_requests == self.rate.requests
                    &&& p.config.rate_window == self.rate.window
                    &&& p.config.duration == self.duration
                    &&& p.config.timeout == self.timeout
                    &&& p.config.http_timeout == self.timeout
                    &&& p.config.workers == self.workers
                    &&& p.config.max_workers == self.max_workers
                    &&& p.config.keepalive == self.keepalive
                    &&& p.config.connections == self.connections
                    &&& p.config.max_connections == self.max_connections
                    &&& p.config.http2 == self.http2
                    &&& p.config.name == self.name
                    &&& p.config.max_body == self.max_body
                    &&& p.config.dns_ttl == self.dns_ttl
                    &&& p.config.laddr == self.laddr
                    &&& p.config.lazy == self.lazy
                    &&& p.config.opentelemetry_addr == self.opentelemetry_addr
                    &&& p.config.tolerance is None
                    &&& p.targets == self.targets
                    &&& p.headers == self.headers
                    &&& p.insecure == self.insecure
                    &&& p.h2c == self.h2c
                    &&& p.redirects == self.redirects
                },
                Err(e) => e == BuildError::NoTargets && self.targets@.len() == 0,
            },
    {
        if self.targets.len() == 0 {
            return Err(BuildError::NoTargets);
        }
        let AttackBuilder {
            rate,
            duration,
            timeout,
            workers,
            max_workers,
            keepalive,
            connections,
            max_connections,
            http2,
            name,
            max_body,
            dns_ttl,
            laddr,
            lazy,
            opentelemetry_addr,
            targets,
            headers,
            insecure,
            h2c,
            redirects,
        } = self;
        Ok(
            AttackPlan {
                config: AttackConfig {
                    rate_requests: rate.requests,
                    rate_window: rate.window,
                    duration,
                    timeout,
                    http_timeout: timeout,
                    workers,
                    max_workers,
                    keepalive,
                    connections,
                    max_connections,
                    http2,
                    name,
                    max_body,
                    dns_ttl,
                    laddr,
                    lazy,
                    opentelemetry_addr,
                    tolerance: None,
                },
                targets,
                headers,
                insecure,
                h2c,
                redirects,
            },
        )
    }
}

/// Make a target with the given method and URL; the URL must be an
/// absolute URL, and comes back normalized.
pub fn target(method: &str, url: &str) -> (r: Option<Target>)
    ensures
        match r {
            Some(t) => {
                &&& parsed_url(url@) == Some(t@.url)
                &&& t@.method == method@
                &&& t@.headers.len() == 0
                &&& t@.body is None
            },
            None => parsed_url(url@) is None,
        },
{
    match parse_url_text(url) {
        None => None,
        Some(u) => {
            let t = Target { method: method.to_owned(), url: u, headers: Vec::new(), body: None };
            proof {
                assert(t@.headers =~= Seq::<(Seq<char>, Seq<char>)>::empty());
            }
            Some(t)
        },
    }
}

/// Make a GET target.
pub fn get(url: &str) -> (r: Option<Target>)
    ensures
        match r {
            Some(t) => {
                &&& parsed_url(url@) == Some(t@.url)
                &&& t@.method == "GET"@
                &&& t@.headers.len() == 0
                &&& t@.body is None
            },
            None => parsed_url(url@) is None,
        },
{
    target("GET", url)
}

/// Make a POST target with a body.
pub fn post(url: &str, body: Vec<u8>) -> (r: Option<Target>)
    ensures
        match r {
            Some(t) => {
                &&& parsed_url(url@) == Some(t@.url)
                &&& t@.method == "POST"@
                &&& t@.headers.len() == 0
                &&& t@.body == Some(body@)
            },
            None => parsed_url(url@) is None,
        },
{
    match target("POST", url) {
        None => None,
        Some(mut t) => {
            t.body = Some(body);
            Some(t)
        },
    }
}

} // verus!
