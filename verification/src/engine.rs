//! The dispatcher's bookkeeping: one state record tying the pacer,
//! the worker pool and the result stream together, the per-tick target
//! preparation, the drain phase, and the end-of-run rate check.
//!
//! The accounting invariant is the engine's central promise: every
//! scheduled request is attributed to exactly one outcome, so once the
//! drain phase sees no exchange in flight, the sink has received as
//! many outcomes as the pacer scheduled dispatches.

use vstd::prelude::*;
use crate::models::{Header, Target, TargetView};
use crate::pool::PoolState;

verus! {

/// The engine's run-time accounting: dispatches made, outcomes
/// delivered to the sink, and the worker pool.
#[derive(Clone, Copy, Debug)]
pub struct EngineState {
    /// Requests scheduled (dispatched) so far
    pub scheduled: u64,
    /// Outcomes delivered to the result sink so far
    pub completed: u64,
    /// The worker pool's accounting
    pub pool: PoolState,
}

impl EngineState {
    /// The accounting invariant: the pool is well formed, and every
    /// scheduled request is either finished or holds a permit right
    /// now — none is ever dropped.
    pub open spec fn wf(&self) -> bool {
        &&& self.pool.wf()
        &&& self.scheduled == self.completed + self.pool.active
    }

    /// A fresh engine around a fresh pool.
    pub fn new(workers: u64, max_workers: Option<u64>) -> (r: EngineState)
        ensures
            r.wf(),
            r.scheduled == 0,
            r.completed == 0,
            r.pool.capacity == workers,
    {
        EngineState { scheduled: 0, completed: 0, pool: PoolState::new(workers, max_workers) }
    }

    /// Dispatch one request: the acquired permit and the scheduled
    /// count move together.
    pub fn dispatch(&mut self)
        requires
            old(self).wf(),
            old(self).pool.active < old(self).pool.capacity,
            old(self).scheduled < u64::MAX,
        ensures
            final(self).wf(),
            final(self).scheduled == old(self).scheduled + 1,
            final(self).completed == old(self).completed,
            final(self).pool.active == old(self).pool.active + 1,
            final(self).pool.capacity == old(self).pool.capacity,
            final(self).pool.limit == old(self).pool.limit,
    {
        self.pool.acquire();
        self.scheduled = self.scheduled + 1;
    }

    /// One exchange finished: its outcome reached the sink and its
    /// permit is released.
    pub fn complete(&mut self)
        requires
            old(self).wf(),
            old(self).pool.active > 0,
        ensures
            final(self).wf(),
            final(self).scheduled == old(self).scheduled,
            final(self).completed == old(self).completed + 1,
            final(self).pool.active == old(self).pool.active - 1,
            final(self).pool.capacity == old(self).pool.capacity,
            final(self).pool.limit == old(self).pool.limit,
    {
        self.pool.release();
        self.completed = self.completed + 1;
    }

    /// One ramp step on the engine's pool.
    pub fn ramp_step(&mut self)
        requires
            old(self).wf(),
        ensures
            final(self).wf(),
            final(self).scheduled == old(self).scheduled,
            final(self).completed == old(self).completed,
            final(self).pool.active == old(self).pool.active,
            final(self).pool.limit == old(self).pool.limit,
            final(self).pool.capacity == if old(self).pool.capacity < old(self).pool.limit {
                old(self).pool.capacity + 1
            } else {
                old(self).pool.capacity as int
            },
    {
        self.pool.ramp_step();
    }
}

/// A drained engine delivered everything: when no exchange is in
/// flight, the sink has received exactly one outcome per scheduled
/// request.
pub proof fn lemma_drained_engine_delivered_all(s: EngineState)
    requires
        s.wf(),
        s.pool.active == 0,
    ensures
        s.completed == s.scheduled,
{
}

/// Round-robin target selection: the next dispatch goes to the target
/// at `scheduled % n` where `n` is the number of targets.  With a
/// single target the rotation degenerates to repeated issuance.
pub fn next_target_index(scheduled: u64, n: usize) -> (r: usize)
    requires
        n > 0,
    ensures
        r == scheduled as int % n as int,
        r < n,
        n == 1 ==> r == 0,
{
    (scheduled % (n as u64)) as usize
}

/// The worker count a run starts with: the detected CPU count when
/// the caller left the default in place, else the caller's choice.
pub fn effective_workers(workers: u64, cpus: u64) -> (r: u64)
    ensures
        r == if workers == 10 {
            cpus as int
        } else {
            workers as int
        },
{
    if workers == 10 {
        cpus
    } else {
        workers
    }
}

/// The header sequence one request goes out with: the target's own
/// headers first, then the global headers, duplicates permitted.
pub fn request_headers(target_headers: &Vec<Header>, global_headers: &Vec<Header>) -> (r: Vec<
    Header,
>)
    ensures
        crate::models::headers_view(r@) == crate::models::headers_view(target_headers@)
            + crate::models::headers_view(global_headers@),
{
    let mut r = crate::models::clone_headers(target_headers);
    let ghost base = crate::models::headers_view(target_headers@);
    let ghost n = base.len();
    proof {
        assert(crate::models::headers_view(r@).len() == n);
    }
    let mut i: usize = 0;
    while i < global_headers.len()
        invariant
            i <= global_headers@.len(),
            crate::models::headers_view(r@).len() == n + i,
            forall|k: int|
                0 <= k < n ==> #[trigger] crate::models::headers_view(r@)[k] == base[k],
            forall|k: int|
                0 <= k < i ==> #[trigger] crate::models::headers_view(r@)[n + k]
                    == crate::models::headers_view(global_headers@)[k],
        decreases global_headers@.len() - i,
    {
        let h = global_headers[i].clone();
        let ghost before = r@;
        r.push(h);
        proof {
            assert forall|k: int| 0 <= k < n implies #[trigger] crate::models::headers_view(
                r@,
            )[k] == base[k] by {
                assert(r@[k] == before[k]);
                assert(crate::models::headers_view(before)[k] == base[k]);
            }
            assert forall|k: int| 0 <= k <= i implies #[trigger] crate::models::headers_view(
                r@,
            )[n + k] == crate::models::headers_view(global_headers@)[k] by {
                if k < i {
                    assert(r@[n + k] == before[n + k]);
                    assert(crate::models::headers_view(before)[n + k]
                        == crate::models::headers_view(global_headers@)[k]);
                } else {
                    assert(r@[n + k] == h);
                    assert(h@ == global_headers@[i as int]@);
                }
            }
        }
        i = i + 1;
    }
    proof {
        let mapped = crate::models::headers_view(global_headers@);
        assert forall|k: int| 0 <= k < crate::models::headers_view(r@).len() implies
            crate::models::headers_view(r@)[k] == (base + mapped)[k] by {
            if k >= n {
                assert(crate::models::headers_view(r@)[n + (k - n)] == mapped[k - n]);
            }
        }
        assert(crate::models::headers_view(r@) =~~= base + mapped);
    }
    r
}

/// The drain deadline: the configured timeout or the per-request
/// deadline, whichever is larger.
pub fn drain_deadline(timeout: u64, http_timeout: u64) -> (r: u64)
    ensures
        r == if timeout >= http_timeout { timeout as int } else { http_timeout as int },
        r >= timeout,
        r >= http_timeout,
{
    if timeout >= http_timeout {
        timeout
    } else {
        http_timeout
    }
}

/// The drain phase's polling decision: done when nothing is in
/// flight; forced (with a warning, outcomes possibly lost) when the
/// wait has outlived the deadline.  `r.0` says to stop; `r.1` says
/// the stop was forced.
pub fn drain_poll(active: u64, waited: u64, deadline: u64) -> (r: (bool, bool))
    ensures
        r.0 == (active == 0 || waited > deadline),
        r.1 == (active > 0 && waited > deadline),
{
    if active == 0 {
        (true, false)
    } else if waited > deadline {
        (true, true)
    } else {
        (false, false)
    }
}

/// The end-of-run rate check: the run failed when the achieved
/// dispatch count fell short of the tolerated share of the promise,
/// `achieved < (1000 - tolerance) * expected / 1000` with the
/// tolerance in parts per thousand.
pub open spec fn spec_under_delivered(achieved: u64, expected: u64, tolerance: u64) -> bool {
    (achieved * 1000) < (1000 - tolerance) * expected
}

/// Decide whether the run under-delivered.
pub fn under_delivered(achieved: u64, expected: u64, tolerance: u64) -> (r: bool)
    requires
        tolerance <= 1000,
    ensures
        r == spec_under_delivered(achieved, expected, tolerance),
        achieved >= expected ==> !r,
        tolerance == 1000 ==> !r,
{
    proof {
        vstd::arithmetic::mul::lemma_mul_upper_bound(
            1000 - tolerance as int,
            1000,
            expected as int,
            u64::MAX as int,
        );
        if achieved >= expected {
            vstd::arithmetic::mul::lemma_mul_inequality(
                1000 - tolerance as int,
                1000,
                expected as int,
            );
            vstd::arithmetic::mul::lemma_mul_inequality(
                expected as int,
                achieved as int,
                1000,
            );
            vstd::arithmetic::mul::lemma_mul_is_commutative(expected as int, 1000);
            vstd::arithmetic::mul::lemma_mul_is_commutative(achieved as int, 1000);
        }
        if tolerance == 1000 {
            vstd::arithmetic::mul::lemma_mul_basics(expected as int);
            vstd::arithmetic::mul::lemma_mul_basics(achieved as int * 1000);
        }
    }
    (achieved as u128 * 1000) < ((1000 - tolerance) as u128 * expected as u128)
}

/// Prepare the target for one dispatch, in order: start from the
/// round-robin choice; attach the global body when the target has
/// none; append a chunked transfer-encoding header when requested and
/// a body is present; append every proxy header.
pub open spec fn spec_prepared_body(
    base: TargetView,
    global_body: Option<Seq<u8>>,
) -> Option<Seq<u8>> {
    if base.body is Some {
        base.body
    } else {
        global_body
    }
}

/// The chunked transfer-encoding header pair, appended when requested
/// and a body is present.
pub open spec fn spec_chunked_headers(chunked: bool, body: Option<Seq<u8>>) -> Seq<
    (Seq<char>, Seq<char>),
> {
    if chunked && body is Some {
        seq![("Transfer-Encoding"@, "chunked"@)]
    } else {
        Seq::empty()
    }
}

pub fn prepare_target(
    base: &Target,
    global_body: &Option<Vec<u8>>,
    chunked: bool,
    proxy_headers: &Vec<Header>,
) -> (r: Target)
    ensures
        r@.method == base@.method,
        r@.url == base@.url,
        r@.body == spec_prepared_body(base@, global_body.deep_view()),
        r@.headers == base@.headers + spec_chunked_headers(chunked, r@.body)
            + crate::models::headers_view(proxy_headers@),
{
    let mut t = base.clone();
    if t.body.is_none() && global_body.is_some() {
        t.body = crate::models::clone_body(global_body);
    }
    let ghost body_view = t@.body;
    let ghost headers_after_chunk = base@.headers + spec_chunked_headers(chunked, t@.body);
    if chunked && t.body.is_some() {
        t.headers.push(Header {
            name: "Transfer-Encoding".to_owned(),
            value: "chunked".to_owned(),
        });
    }
    proof {
        assert(t@.headers =~= headers_after_chunk);
    }
    let ghost n = headers_after_chunk.len();
    let mut i: usize = 0;
    while i < proxy_headers.len()
        invariant
            i <= proxy_headers.len(),
            t@.body == body_view,
            t@.method == base@.method,
            t@.url == base@.url,
            t@.headers.len() == n + i,
            forall|k: int| 0 <= k < n ==> #[trigger] t@.headers[k] == headers_after_chunk[k],
            forall|k: int|
                0 <= k < i ==> #[trigger] t@.headers[n + k] == crate::models::headers_view(
                    proxy_headers@,
                )[k],
        decreases proxy_headers.len() - i,
    {
        let h = proxy_headers[i].clone();
        let ghost before = t.headers@;
        t.headers.push(h);
        proof {
            assert forall|k: int| 0 <= k < n implies #[trigger] t@.headers[k]
                == headers_after_chunk[k] by {
                assert(t.headers@[k] == before[k]);
                assert(crate::models::headers_view(before)[k] == headers_after_chunk[k]);
            }
            assert forall|k: int| 0 <= k <= i implies #[trigger] t@.headers[n + k]
                == crate::models::headers_view(proxy_headers@)[k] by {
                if k < i {
                    assert(t.headers@[n + k] == before[n + k]);
                    assert(crate::models::headers_view(before)[n + k]
                        == crate::models::headers_view(proxy_headers@)[k]);
                } else {
                    assert(t.headers@[n + k] == h);
                    assert(h@ == proxy_headers@[i as int]@);
                }
            }
        }
        i = i + 1;
    }
    proof {
        let mapped = crate::models::headers_view(proxy_headers@);
        assert forall|k: int| 0 <= k < t@.headers.len() implies t@.headers[k]
            == (headers_after_chunk + mapped)[k] by {
            if k >= n {
                assert(t@.headers[n + (k - n)] == mapped[k - n]);
            }
        }
        assert(t@.headers =~~= headers_after_chunk + mapped);
    }
    t
}

} // verus!
