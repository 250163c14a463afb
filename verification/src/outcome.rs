//! The HTTP exchanger's decision logic: building the outcome record
//! for one dispatched request from what the transport reported, and
//! classifying a record.
//!
//! The send itself, the body read and their deadlines run outside the
//! library; they report back one `ExchangeEvent`, and `build_outcome`
//! turns it into the definitive record.

use vstd::prelude::*;
use crate::models::{AttackResult, AttackResultView, Target};

verus! {

/// What the transport reported for one exchange, with the failure
/// descriptions already rendered.
pub enum ExchangeEvent {
    /// The send-and-receive-headers step hit the per-request deadline.
    SendTimeout { message: String },
    /// The transport failed before any usable status was obtained.
    TransportFailure { message: String, was_timeout: bool },
    /// Headers arrived, but the body read hit a fresh deadline.
    BodyReadTimeout { status: u16, message: String },
    /// Headers arrived, but reading the body failed.
    BodyReadFailure { status: u16, message: String },
    /// A full response: status and the length of the body received.
    Response { status: u16, body_len: usize },
}

/// How one outcome record classifies; exactly one class applies to a
/// well-formed record.
#[derive(PartialEq, Eq, Structural, Clone, Copy, Debug)]
pub enum OutcomeClass {
    /// The failure cause was the per-request deadline.
    Timeout,
    /// A 2xx status was received.
    Success,
    /// A non-2xx status was received.
    Failure,
    /// No usable status; a transport-level error description is set.
    Error,
}

/// The classification rule on the record's mathematical value,
/// checked in this order: timeout, then 2xx success, then failure by
/// status, else error.
pub open spec fn spec_classify_view(r: AttackResultView) -> OutcomeClass {
    if r.timed_out {
        OutcomeClass::Timeout
    } else if 200 <= r.status_code && r.status_code < 300 {
        OutcomeClass::Success
    } else if r.status_code > 0 {
        OutcomeClass::Failure
    } else {
        OutcomeClass::Error
    }
}

/// The classification rule, checked in this order: timeout, then 2xx
/// success, then failure by status, else error.
pub open spec fn spec_classify(r: &AttackResult) -> OutcomeClass {
    spec_classify_view(r@)
}

/// Classify one outcome record under the priority rule.
pub fn classify(r: &AttackResult) -> (c: OutcomeClass)
    ensures
        c == spec_classify(r),
{
    if r.timed_out {
        OutcomeClass::Timeout
    } else if 200 <= r.status_code && r.status_code < 300 {
        OutcomeClass::Success
    } else if r.status_code > 0 {
        OutcomeClass::Failure
    } else {
        OutcomeClass::Error
    }
}

/// Every well-formed outcome is classified by exactly one of the four
/// classes, and the class it gets carries its defining evidence: a
/// timeout record has `timed_out` set, a success a 2xx status, a
/// failure another positive status, and an error no status but an
/// error description.
pub proof fn lemma_classification_exclusive(r: &AttackResult)
    requires
        r.wf(),
    ensures
        spec_classify(r) == OutcomeClass::Timeout <==> r.timed_out,
        spec_classify(r) == OutcomeClass::Success
            <==> (!r.timed_out && 200 <= r.status_code < 300),
        spec_classify(r) == OutcomeClass::Failure
            <==> (!r.timed_out && !(200 <= r.status_code < 300) && r.status_code > 0),
        spec_classify(r) == OutcomeClass::Error
            <==> (!r.timed_out && r.status_code == 0),
        spec_classify(r) == OutcomeClass::Error ==> r.error is Some,
{
}

/// The number of response-body bytes accounted: the full length, or
/// the `max_body` cap when that cap is non-negative.
pub open spec fn spec_capped_bytes_in(body_len: usize, max_body: i64) -> usize {
    if max_body >= 0 && body_len > max_body {
        max_body as usize
    } else {
        body_len
    }
}

/// Apply the `max_body` cap to a received body length.
pub fn capped_bytes_in(body_len: usize, max_body: i64) -> (r: usize)
    ensures
        r == spec_capped_bytes_in(body_len, max_body),
        max_body >= 0 ==> r <= max_body,
        max_body < 0 ==> r == body_len,
        r <= body_len,
{
    if max_body >= 0 && (body_len as u64) > (max_body as u64) {
        max_body as usize
    } else {
        body_len
    }
}

/// Build the one outcome record for a dispatched request from what the
/// transport reported.
///
/// Whatever the event: `bytes_out` equals the length of the target's
/// body; the latency and timestamp are carried through; `timed_out` is
/// set exactly on the deadline paths; an error description is present
/// whenever no usable status was obtained; and `bytes_in` is the
/// received body length under the `max_body` cap, zero on every
/// failure path.
pub fn build_outcome(
    timestamp: u64,
    latency: u64,
    target: Target,
    event: ExchangeEvent,
    max_body: i64,
) -> (r: AttackResult)
    requires
        latency > 0,
        event matches ExchangeEvent::Response { status, .. } ==> status > 0,
    ensures
        r.wf(),
        r.timestamp == timestamp,
        r.latency == latency,
        r.bytes_out == target.spec_body_len(),
        r.target == target,
        max_body >= 0 ==> r.bytes_in <= max_body,
        match event {
            ExchangeEvent::SendTimeout { message } => {
                &&& r.status_code == 0
                &&& r.timed_out
                &&& r.error == Some(message)
                &&& r.bytes_in == 0
            },
            ExchangeEvent::TransportFailure { message, was_timeout } => {
                &&& r.status_code == 0
                &&& r.timed_out == was_timeout
                &&& r.error == Some(message)
                &&& r.bytes_in == 0
            },
            ExchangeEvent::BodyReadTimeout { status, message } => {
                &&& r.status_code == status
                &&& r.timed_out
                &&& r.error == Some(message)
                &&& r.bytes_in == 0
            },
            ExchangeEvent::BodyReadFailure { status, message } => {
                &&& r.status_code == status
                &&& !r.timed_out
                &&& r.error == Some(message)
                &&& r.bytes_in == 0
            },
            ExchangeEvent::Response { status, body_len } => {
                &&& r.status_code == status
                &&& !r.timed_out
                &&& r.error is None
                &&& r.bytes_in == spec_capped_bytes_in(body_len, max_body)
            },
        },
{
    let bytes_out = target.body_len();
    match event {
        ExchangeEvent::SendTimeout { message } => AttackResult {
            timestamp,
            latency,
            status_code: 0,
            error: Some(message),
            target,
            bytes_in: 0,
            bytes_out,
            timed_out: true,
        },
        ExchangeEvent::TransportFailure { message, was_timeout } => AttackResult {
            timestamp,
            latency,
            status_code: 0,
            error: Some(message),
            target,
            bytes_in: 0,
            bytes_out,
            timed_out: was_timeout,
        },
        ExchangeEvent::BodyReadTimeout { status, message } => AttackResult {
            timestamp,
            latency,
            status_code: status,
            error: Some(message),
            target,
            bytes_in: 0,
            bytes_out,
            timed_out: true,
        },
        ExchangeEvent::BodyReadFailure { status, message } => AttackResult {
            timestamp,
            latency,
            status_code: status,
            error: Some(message),
            target,
            bytes_in: 0,
            bytes_out,
            timed_out: false,
        },
        ExchangeEvent::Response { status, body_len } => AttackResult {
            timestamp,
            latency,
            status_code: status,
            error: None,
            target,
            bytes_in: capped_bytes_in(body_len, max_body),
            bytes_out,
            timed_out: false,
        },
    }
}

} // verus!
