//! What comes of forwarding a request to an endpoint.

use vstd::prelude::*;
use vstd::string::*;

use crate::balancer::{
    cooldown_of, find_endpoint, position_of, rate_limited_state, recorded, unhealthy_state,
    LoadBalancer, LoadBalancerView,
};
use crate::endpoint::{averages, ErrorKind, LoadBalancerError, RequestOutcome, Smoothing};
use crate::scan::{is_likely_batch, looks_like_batch, scan_from, Scan, Scanner};
use crate::text;

verus! {

/// The bytes of `"error":`.
pub const ERROR_KEY: [u8; 8] = [0x22, 0x65, 0x72, 0x72, 0x6f, 0x72, 0x22, 0x3a];

/// The bytes of `null`.
pub const NULL_VALUE: [u8; 4] = [0x6e, 0x75, 0x6c, 0x6c];

/// `pattern` stands in `bytes` from the position `i` on.
pub open spec fn occurs_at(bytes: Seq<u8>, pattern: Seq<u8>, i: int) -> bool {
    &&& 0 <= i
    &&& i + pattern.len() <= bytes.len()
    &&& bytes.subrange(i, i + pattern.len()) == pattern
}

/// The first position from `i` on that does not hold white space, each byte read as a character.
pub open spec fn after_white_space(bytes: Seq<u8>, i: int) -> int
    decreases bytes.len() - i,
{
    if 0 <= i < bytes.len() && text::white_space(bytes[i] as char) {
        after_white_space(bytes, i + 1)
    } else {
        i
    }
}

/// The number of the reply that the position `i` of `bytes` belongs to. In an array the replies are
/// the objects that stand directly in it; anything else is one reply.
pub open spec fn reply_of(bytes: Seq<u8>, i: int) -> nat {
    if looks_like_batch(bytes) {
        scan_from(Scan::start(), bytes.take(i)).objects
    } else {
        0
    }
}

/// `"error":` stands in `bytes` from the position `i` on, for the first time in its reply.
pub open spec fn first_key_at(bytes: Seq<u8>, i: int) -> bool {
    &&& occurs_at(bytes, ERROR_KEY@, i)
    &&& forall|k: int|
        0 <= k < i && #[trigger] occurs_at(bytes, ERROR_KEY@, k) ==> reply_of(bytes, k) != reply_of(
            bytes,
            i,
        )
}

/// The value that follows the `"error":` at the position `i` of `bytes` is not `null`.
pub open spec fn value_not_null(bytes: Seq<u8>, i: int) -> bool {
    !occurs_at(bytes, NULL_VALUE@, after_white_space(bytes, i + ERROR_KEY@.len()))
}

/// A value other than `null` follows the first `"error":` of some reply in `bytes`.
pub open spec fn reports_error(bytes: Seq<u8>) -> bool {
    exists|i: int| #[trigger] first_key_at(bytes, i) && value_not_null(bytes, i)
}

/// Tells whether `pattern` stands in `bytes` from the position `i` on.
fn matches_at(bytes: &[u8], pattern: &[u8], i: usize) -> (r: bool)
    requires
        i <= bytes@.len(),
    ensures
        r == occurs_at(bytes@, pattern@, i as int),
{
    if pattern.len() > bytes.len() - i {
        return false;
    }
    let mut k: usize = 0;
    while k < pattern.len()
        invariant
            i + pattern@.len() <= bytes@.len() <= usize::MAX,
            k <= pattern@.len(),
            forall|j: int| 0 <= j < k ==> bytes@[i + j] == #[trigger] pattern@[j],
        decreases pattern@.len() - k,
    {
        if bytes[i + k] != pattern[k] {
            assert(bytes@.subrange(i as int, i + pattern@.len())[k as int] != pattern@[k as int]);
            return false;
        }
        k = k + 1;
    }
    assert(bytes@.subrange(i as int, i + pattern@.len()) =~= pattern@);
    true
}

/// Tells whether a value other than `null` follows the `"error":` that stands at `start`.
fn value_is_not_null(bytes: &[u8], start: usize) -> (r: bool)
    requires
        occurs_at(bytes@, ERROR_KEY@, start as int),
    ensures
        r == value_not_null(bytes@, start as int),
{
    let key: [u8; 8] = ERROR_KEY;
    let null_value: [u8; 4] = NULL_VALUE;
    let len: usize = bytes.len();
    assert(start + key@.len() <= len);
    let mut idx: usize = start + key.len();
    let ghost value = after_white_space(bytes@, start + ERROR_KEY@.len());
    while idx < len && text::is_white_space(bytes[idx] as char)
        invariant
            idx <= len,
            len == bytes@.len(),
            value == after_white_space(bytes@, idx as int),
        decreases bytes@.len() - idx,
    {
        idx = idx + 1;
    }
    assert(value == idx);
    !matches_at(bytes, &null_value, idx)
}

/// Tells, without parsing it, whether the body of a JSON-RPC response contains an error: the first
/// `"error":` of some reply is followed by a value other than `null`.
pub fn response_has_error(bytes: &[u8]) -> (r: bool)
    ensures
        r == reports_error(bytes@),
{
    let key: [u8; 8] = ERROR_KEY;
    let len: usize = bytes.len();
    let batch: bool = is_likely_batch(bytes);
    let mut scanner = Scanner::new();
    // The reply that the last key before `start` belongs to.
    let mut seen: Option<usize> = None;
    let mut start: usize = 0;
    assert(bytes@.take(0) == Seq::<u8>::empty());
    while start < len
        invariant
            key@ == ERROR_KEY@,
            len == bytes@.len(),
            batch == looks_like_batch(bytes@),
            start <= len,
            scanner.within(start as nat),
            scanner@ == scan_from(Scan::start(), bytes@.take(start as int)),
            seen matches Some(last) ==> {
                &&& last <= reply_of(bytes@, start as int)
                &&& exists|k: int|
                    0 <= k < start && #[trigger] occurs_at(bytes@, ERROR_KEY@, k) && reply_of(
                        bytes@,
                        k,
                    ) == last
            },
            forall|k: int|
                0 <= k < start && #[trigger] occurs_at(bytes@, ERROR_KEY@, k) ==> (
                seen matches Some(last) && reply_of(bytes@, k) <= last),
            forall|k: int|
                0 <= k < start && #[trigger] first_key_at(bytes@, k) ==> !value_not_null(bytes@, k),
        decreases len - start,
    {
        let reply: usize = if batch {
            scanner.objects
        } else {
            0
        };
        assert(reply == reply_of(bytes@, start as int));
        if matches_at(bytes, &key, start) {
            let first: bool = match seen {
                Some(last) => last != reply,
                None => true,
            };
            assert(first == first_key_at(bytes@, start as int));
            if first && value_is_not_null(bytes, start) {
                return true;
            }
            seen = Some(reply);
        }
        proof {
            assert(bytes@.take(start + 1).drop_last() == bytes@.take(start as int));
            assert(bytes@.take(start + 1).last() == bytes@[start as int]);
        }
        scanner.read(bytes[start]);
        start = start + 1;
    }
    assert forall|i: int| #[trigger] first_key_at(bytes@, i) implies !value_not_null(bytes@, i) by {
        assert(i < start);
    }
    false
}

/// The HTTP status of a request that the client sent too many of.
pub const TOO_MANY_REQUESTS: u16 = 429;

/// `code` is an HTTP status that says the request succeeded.
pub open spec fn success_status(code: u16) -> bool {
    200 <= code < 300
}

/// Tells whether `code` is an HTTP status that says the request succeeded.
pub fn is_success_status(code: u16) -> (r: bool)
    ensures
        r == success_status(code),
{
    200 <= code && code < 300
}

/// What came back when a request was sent.
#[derive(Debug)]
pub enum Reply {
    /// A response with an HTTP status.
    Status(u16),
    /// Nothing in time, with what the HTTP client says of it.
    TimedOut(String),
    /// No response for another reason, with what the HTTP client says of it.
    Failed(String),
}

/// How a request ended that came back with `reply` after `elapsed_ms`. Statuses that name no
/// success, no server error and no client error count as connection errors, and what timed out
/// took all the time it had.
pub open spec fn outcome_of(reply: Reply, elapsed_ms: u64, timeout_secs: u64) -> RequestOutcome {
    match reply {
        Reply::Status(code) => if success_status(code) {
            RequestOutcome::Success { latency_ms: elapsed_ms }
        } else {
            RequestOutcome::Failure {
                error_kind: if code == TOO_MANY_REQUESTS {
                    ErrorKind::RateLimit
                } else if 500 <= code < 600 {
                    ErrorKind::Http5xx
                } else if 400 <= code < 500 {
                    ErrorKind::Http4xx
                } else {
                    ErrorKind::ConnectionError
                },
                latency_ms: elapsed_ms,
            }
        },
        Reply::TimedOut(_) => RequestOutcome::Failure {
            error_kind: ErrorKind::Timeout,
            latency_ms: (timeout_secs * 1000) as u64,
        },
        Reply::Failed(_) => RequestOutcome::Failure {
            error_kind: ErrorKind::ConnectionError,
            latency_ms: elapsed_ms,
        },
    }
}

/// How a request ended that came back with `reply` after `elapsed_ms`.
pub fn classify_reply(reply: &Reply, elapsed_ms: u64, timeout_secs: u64) -> (r: RequestOutcome)
    requires
        reply is TimedOut ==> timeout_secs * 1000 <= u64::MAX,
    ensures
        r == outcome_of(*reply, elapsed_ms, timeout_secs),
{
    match reply {
        Reply::Status(code) => {
            if is_success_status(*code) {
                return RequestOutcome::Success { latency_ms: elapsed_ms };
            }
            let error_kind = if *code == TOO_MANY_REQUESTS {
                ErrorKind::RateLimit
            } else if 500 <= *code && *code < 600 {
                ErrorKind::Http5xx
            } else if 400 <= *code && *code < 500 {
                ErrorKind::Http4xx
            } else {
                ErrorKind::ConnectionError
            };
            RequestOutcome::Failure { error_kind, latency_ms: elapsed_ms }
        },
        Reply::TimedOut(_) => RequestOutcome::Failure {
            error_kind: ErrorKind::Timeout,
            latency_ms: timeout_secs * 1000,
        },
        Reply::Failed(_) => RequestOutcome::Failure {
            error_kind: ErrorKind::ConnectionError,
            latency_ms: elapsed_ms,
        },
    }
}

/// What `reqwest::StatusCode` shows for an HTTP status.
pub uninterp spec fn status_text(code: u16) -> Seq<char>;

/// Calls `to_string` of `reqwest::StatusCode`, which gives the number and the standard reason of an
/// HTTP status, or says that the reason is not known. `StatusCode::from_u16` takes exactly the
/// numbers of three digits.
#[verifier::external_body]
fn show_status(code: u16) -> (r: String)
    requires
        100 <= code < 1000,
    ensures
        r@ == status_text(code),
{
    reqwest::StatusCode::from_u16(code).unwrap().to_string()
}

/// The start of the message for a response that says the request did not succeed.
pub const NON_SUCCESS_STATUS: &'static str = "Upstream returned non-success status: ";

/// The error for a response whose status, shown as `shown`, says that the request did not succeed.
pub fn non_success_error(shown: &String) -> (r: LoadBalancerError)
    ensures
        r matches LoadBalancerError::UpstreamError(reason) && reason@ == NON_SUCCESS_STATUS@
            + shown@,
{
    LoadBalancerError::UpstreamError(NON_SUCCESS_STATUS.to_owned().concat(shown.as_str()))
}

/// What came of one step of forwarding a request.
#[derive(Debug)]
pub struct ForwardStep<T> {
    /// What is handed on, or why the request failed.
    pub result: Result<T, LoadBalancerError>,
    /// The seconds of the cooldown that the step started.
    pub cooldown_secs: Option<u64>,
}

/// What a balancer in the state `before` becomes when the endpoint at `url` comes back with
/// `reply`, the outcome being noted already.
pub open spec fn state_after_reply(
    before: LoadBalancerView,
    url: Seq<char>,
    reply: Reply,
    now: u64,
) -> LoadBalancerView {
    match reply {
        Reply::Status(code) if success_status(code) => before,
        Reply::Status(code) if code == TOO_MANY_REQUESTS => rate_limited_state(before, url, now),
        _ => unhealthy_state(before, url, now),
    }
}

/// The seconds of the cooldown that starts when the endpoint at `url` comes back with `reply`.
pub open spec fn cooldown_after_reply(
    before: LoadBalancerView,
    url: Seq<char>,
    reply: Reply,
) -> Option<u64> {
    match (reply, position_of(before.endpoints, url)) {
        (Reply::Status(code), _) if success_status(code) => None,
        (Reply::Status(code), Some(i)) if code == TOO_MANY_REQUESTS => Some(
            cooldown_of(before, i) as u64,
        ),
        (_, Some(i)) if before.endpoints[i].healthy => Some(cooldown_of(before, i) as u64),
        _ => None,
    }
}

/// `result` is what is answered when the endpoint at `url` comes back with `reply`: the body can
/// be read if the status says that the request succeeded.
pub open spec fn reply_result(
    url: Seq<char>,
    reply: Reply,
    result: Result<(), LoadBalancerError>,
) -> bool {
    match (reply, result) {
        (Reply::Status(code), Ok(_)) => success_status(code),
        (Reply::Status(code), Err(LoadBalancerError::RateLimited(at))) => {
            &&& code == TOO_MANY_REQUESTS
            &&& at@ == url
        },
        (Reply::Status(code), Err(LoadBalancerError::UpstreamError(reason))) => {
            &&& !success_status(code)
            &&& code != TOO_MANY_REQUESTS
            &&& reason@ == NON_SUCCESS_STATUS@ + status_text(code)
        },
        (Reply::TimedOut(shown), Err(LoadBalancerError::UpstreamError(reason))) => reason@
            == shown@,
        (Reply::Failed(shown), Err(LoadBalancerError::UpstreamError(reason))) => reason@ == shown@,
        _ => false,
    }
}

/// `after` is the state `before` once the endpoint at `url` came back with `reply` after
/// `elapsed_ms` and the outcome was noted, the moving averages taken by `average`, and
/// `cooldown_secs` the seconds of the cooldown that this started.
pub open spec fn reply_noted<F: Fn(u64, u64, Smoothing) -> u64>(
    before: LoadBalancerView,
    url: Seq<char>,
    reply: Reply,
    elapsed_ms: u64,
    now: u64,
    average: F,
    cooldown_secs: Option<u64>,
    after: LoadBalancerView,
) -> bool {
    exists|noted: LoadBalancerView|
        {
            &&& #[trigger] recorded(
                before,
                url,
                outcome_of(reply, elapsed_ms, before.client.timeout_secs),
                average,
                noted,
            )
            &&& after == state_after_reply(noted, url, reply, now)
            &&& cooldown_secs == cooldown_after_reply(noted, url, reply)
        }
}

/// `step` is what comes of the `body` of a response from the endpoint at `url`, and `after` what
/// the balancer `before` becomes.
pub open spec fn body_noted(
    before: LoadBalancer,
    url: Seq<char>,
    body: Result<Vec<u8>, String>,
    now: u64,
    step: ForwardStep<(Vec<u8>, bool)>,
    after: LoadBalancer,
) -> bool {
    match (body, step.result) {
        (Ok(bytes), Ok((handed_on, succeeded))) => {
            &&& handed_on == bytes
            &&& succeeded == !reports_error(bytes@)
            &&& step.cooldown_secs is None
            &&& after == before
        },
        (Err(shown), Err(LoadBalancerError::UpstreamError(reason))) => {
            &&& reason@ == shown@
            &&& after@ == unhealthy_state(before@, url, now)
            &&& step.cooldown_secs == match position_of(before@.endpoints, url) {
                Some(i) if before@.endpoints[i].healthy => Some(cooldown_of(before@, i) as u64),
                _ => None,
            }
        },
        _ => false,
    }
}

impl LoadBalancer {
    /// Takes note of what came back from the endpoint at `url`: updates its metrics and, unless the
    /// request succeeded, starts a cooldown.
    pub fn on_reply<F: Fn(u64, u64, Smoothing) -> u64>(
        &mut self,
        url: &String,
        reply: Reply,
        elapsed_ms: u64,
        now: u64,
        average: &F,
    ) -> (r: ForwardStep<()>)
        requires
            averages(*average),
            reply matches Reply::Status(code) ==> 100 <= code < 1000,
            reply is TimedOut && position_of(old(self)@.endpoints, url@) is Some
                ==> old(self)@.client.timeout_secs * 1000 <= u64::MAX,
        ensures
            reply_noted(
                old(self)@,
                url@,
                reply,
                elapsed_ms,
                now,
                *average,
                r.cooldown_secs,
                final(self)@,
            ),
            reply_result(url@, reply, r.result),
            old(self).wf() ==> final(self).wf(),
    {
        let ghost before = self@;
        let ghost outcome = outcome_of(reply, elapsed_ms, self@.client.timeout_secs);
        if find_endpoint(&self.endpoints, url).is_some() {
            let outcome = classify_reply(&reply, elapsed_ms, self.client.timeout_secs);
            self.record_outcome(url, &outcome, average);
        }
        assert(recorded(before, url@, outcome, *average, self@));
        match reply {
            Reply::Status(code) => {
                if is_success_status(code) {
                    ForwardStep { result: Ok(()), cooldown_secs: None }
                } else if code == TOO_MANY_REQUESTS {
                    let cooldown_secs = self.mark_rate_limited(url, now);
                    ForwardStep {
                        result: Err(LoadBalancerError::RateLimited(url.clone())),
                        cooldown_secs,
                    }
                } else {
                    let cooldown_secs = self.mark_unhealthy(url, now);
                    let shown = show_status(code);
                    ForwardStep { result: Err(non_success_error(&shown)), cooldown_secs }
                }
            },
            Reply::TimedOut(shown) => {
                let cooldown_secs = self.mark_unhealthy(url, now);
                ForwardStep { result: Err(LoadBalancerError::UpstreamError(shown)), cooldown_secs }
            },
            Reply::Failed(shown) => {
                let cooldown_secs = self.mark_unhealthy(url, now);
                ForwardStep { result: Err(LoadBalancerError::UpstreamError(shown)), cooldown_secs }
            },
        }
    }

    /// Takes note of the body of a response from the endpoint at `url`, or of what the HTTP client
    /// says of why it could not be read. Hands the body on, with whether it reports no error.
    pub fn on_body(
        &mut self,
        url: &String,
        body: Result<Vec<u8>, String>,
        now: u64,
    ) -> (r: ForwardStep<(Vec<u8>, bool)>)
        ensures
            body_noted(*old(self), url@, body, now, r, *final(self)),
            old(self).wf() ==> final(self).wf(),
    {
        match body {
            Ok(bytes) => {
                let succeeded: bool = !response_has_error(bytes.as_slice());
                ForwardStep { result: Ok((bytes, succeeded)), cooldown_secs: None }
            },
            Err(shown) => {
                let cooldown_secs = self.mark_unhealthy(url, now);
                ForwardStep { result: Err(LoadBalancerError::UpstreamError(shown)), cooldown_secs }
            },
        }
    }
}

} // verus!
