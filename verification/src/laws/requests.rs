//! Which requests are accepted, what is made of replies, and what is reported.

use vstd::prelude::*;
use vstd::string::*;

use crate::balancer::{
    cooldown_of, handed_out, next_selected, position_of, recorded, BalancerSettings, LoadBalancer,
    LoadBalancerView,
};
use crate::config::ConfigError;
use crate::endpoint::{ErrorKind, LoadBalancerError, RequestOutcome, RpcEndpointView, Smoothing};
use crate::forwarder::{
    after_white_space, body_noted, classify_reply, cooldown_after_reply, first_key_at, occurs_at,
    outcome_of, reply_noted, reply_of, reply_result, reports_error, state_after_reply, status_text,
    success_status, value_not_null, ForwardStep, Reply, ERROR_KEY, NULL_VALUE, TOO_MANY_REQUESTS,
};
use crate::laws::cooldown::law_cooldown_bounded;
use crate::laws::endpoints::{
    cooldown_started, law_marked_endpoint, law_recorded_outcome, same_but_endpoint,
};
use crate::laws::health::{law_rate_limited_takes_out, law_unhealthy_takes_out};
use crate::laws::reload::{in_use_at, lemma_endpoint_in_use, not_in_use};
use crate::laws::selection::{
    in_service, law_refused_only_without_room, law_selected_is_best, law_selection_leaves_the_rest,
    may_refuse,
};
use crate::limiter::NANOS_PER_SEC;
use crate::order::{lemma_ordered_no_duplicates, lemma_ordered_unique};
use crate::rpc::{
    batch_requests, error_json, error_payload, error_reply, member_named, member_of, precheck,
    quoted_json, read_answers, read_request, reply_to, request_of, routed, Document, DocumentView,
    ErrorCode, ErrorReply, MemberView, Rejection, Route, RpcRequest,
};
use crate::scan::{ascii_white_space, looks_like_batch, OPENING_BRACKET};
use crate::status::{is_priority_order, priority, reports_in_order, PriorityStat};
use crate::strategy::Selection;
use crate::utils::cooldown::next_attempts;
use crate::utils::health::check_passed;

verus! {

/// A request that is accepted counts for at least one and for no more than the largest batch; one
/// that is no batch counts for one.
pub proof fn law_accepted_batch_bounded(
    parsed: Result<DocumentView, Seq<char>>,
    max_batch_size: usize,
    request: RpcRequest,
)
    requires
        read_answers(parsed, max_batch_size, Ok(request)),
    ensures
        1 <= request.batch_size <= max_batch_size,
        !request.is_batch ==> request.batch_size == 1,
        parsed matches Ok(document) && request.is_batch == (document is Array),
{
}

/// A JSON document that is no batch is always accepted.
pub proof fn law_single_request_accepted(
    document: DocumentView,
    max_batch_size: usize,
    r: Result<RpcRequest, Rejection>,
)
    requires
        read_answers(Ok(document), max_batch_size, r),
        !(document is Array),
        max_batch_size >= 1,
    ensures
        r matches Ok(request) && !request.is_batch,
{
}

/// A batch is accepted exactly if it is not empty and not larger than the largest batch.
pub proof fn law_batch_accepted(
    items: Seq<Seq<char>>,
    max_batch_size: usize,
    r: Result<RpcRequest, Rejection>,
)
    requires
        read_answers(Ok(DocumentView::Array(items)), max_batch_size, r),
    ensures
        r is Ok <==> 1 <= items.len() <= max_batch_size,
        r matches Ok(request) ==> request.is_batch && request.batch_size == items.len(),
        r matches Err(Rejection::BadRequest(_)) <==> items.len() == 0,
        r matches Err(Rejection::BatchTooLarge) <==> items.len() > 0 && items.len()
            > max_batch_size,
{
}

/// A request that fails is answered under its own identifier, and a batch that fails under none.
/// Only a request that the endpoint refused as one too many is answered with the code for that.
pub proof fn law_failure_names_request(document: DocumentView, err: LoadBalancerError)
    ensures
        ({
            let reply = reply_to(err, request_of(document));
            &&& reply.id == match member_of(document, "id"@) {
                Some(member) => Some(member.json),
                None => None,
            }
            &&& document is Array ==> reply.id is None
            &&& reply.code == ErrorCode::RateLimited <==> err is RateLimited
        }),
{
}

/// A response without the key `"error":` reports no error.
pub proof fn law_no_key_no_error(bytes: Seq<u8>)
    requires
        forall|i: int| !#[trigger] occurs_at(bytes, ERROR_KEY@, i),
    ensures
        !reports_error(bytes),
{
}

/// Of a response that is no array only the first key `"error":` counts: it reports an error exactly
/// if the value after that key is not `null`.
pub proof fn law_first_key_decides(bytes: Seq<u8>, i: int)
    requires
        !looks_like_batch(bytes),
        occurs_at(bytes, ERROR_KEY@, i),
        forall|k: int| 0 <= k < i ==> !#[trigger] occurs_at(bytes, ERROR_KEY@, k),
    ensures
        reports_error(bytes) == value_not_null(bytes, i),
{
    assert(first_key_at(bytes, i));
    assert forall|k: int| #[trigger] first_key_at(bytes, k) implies k == i by {
        if k > i {
            assert(reply_of(bytes, i) == reply_of(bytes, k));
        }
    }
}

/// The body of a response is read exactly if the request counts as a success, and that is the case
/// exactly for a status that says so.
pub proof fn law_only_success_is_read(
    url: Seq<char>,
    reply: Reply,
    result: Result<(), LoadBalancerError>,
    elapsed_ms: u64,
    timeout_secs: u64,
)
    requires
        reply_result(url, reply, result),
    ensures
        result is Ok <==> (reply matches Reply::Status(code) && success_status(code)),
        result is Ok <==> outcome_of(reply, elapsed_ms, timeout_secs) is Success,
        result matches Err(LoadBalancerError::RateLimited(_)) <==> reply == Reply::Status(
            TOO_MANY_REQUESTS,
        ),
{
}

/// An endpoint that does not answer a request with success is taken out of use: until the end of a
/// cooldown if it was sent too many requests, and until it passes a health check otherwise.
pub proof fn law_failed_reply_takes_out(
    noted: LoadBalancerView,
    url: Seq<char>,
    reply: Reply,
    now: u64,
    i: int,
    later: u64,
)
    requires
        position_of(noted.endpoints, url) == Some(i),
        !(reply matches Reply::Status(code) && success_status(code)),
    ensures
        reply != Reply::Status(TOO_MANY_REQUESTS) ==> !state_after_reply(
            noted,
            url,
            reply,
            now,
        ).endpoints[i].available(later),
        reply == Reply::Status(TOO_MANY_REQUESTS) && later < now + cooldown_of(noted, i) * NANOS_PER_SEC
            ==> !state_after_reply(noted, url, reply, now).endpoints[i].available(later),
{
    law_unhealthy_takes_out(noted, url, now, i, later);
    law_rate_limited_takes_out(noted, url, now, i, later);
}

/// There is only one order of priority, and the priority report names each endpoint exactly once in
/// that order, with ranks from one on.
pub proof fn law_priority_report_complete(
    endpoints: Seq<RpcEndpointView>,
    now: u64,
    now_secs: u64,
    order: Seq<usize>,
    other: Seq<usize>,
    stats: Seq<PriorityStat>,
)
    requires
        is_priority_order(endpoints, now_secs, order),
        is_priority_order(endpoints, now_secs, other),
        reports_in_order(endpoints, now, now_secs, order, stats),
    ensures
        other == order,
        stats.len() == endpoints.len(),
        order.no_duplicates(),
        forall|i: usize| i < endpoints.len() ==> #[trigger] order.contains(i),
        forall|p: int|
            0 <= p < stats.len() ==> (#[trigger] stats[p]).priority_rank == p + 1 && stats[p].url@
                == endpoints[order[p] as int].url,
{
    assert forall|i: usize| #[trigger] order.contains(i) == other.contains(i) by {
        if order.contains(i) {
            let p = choose|p: int| 0 <= p < order.len() && order[p] == i;
            assert(order[p] < endpoints.len());
        }
        if other.contains(i) {
            let p = choose|p: int| 0 <= p < other.len() && other[p] == i;
            assert(other[p] < endpoints.len());
        }
    }
    lemma_ordered_unique(priority(endpoints, now_secs), order, other);
    lemma_ordered_no_duplicates(priority(endpoints, now_secs), order);
    assert forall|p: int| 0 <= p < stats.len() implies (#[trigger] stats[p]).priority_rank == p + 1
        && stats[p].url@ == endpoints[order[p] as int].url by {
        assert(stats[p]@.priority_rank == p + 1);
        assert(stats[p]@.url == endpoints[order[p] as int].url);
    }
}

/// The `i`th of `members` is the first whose key is `key`.
pub open spec fn first_named(members: Seq<MemberView>, key: Seq<char>, i: int) -> bool {
    &&& 0 <= i < members.len()
    &&& members[i].key == key
    &&& forall|k: int| 0 <= k < i ==> (#[trigger] members[k]).key != key
}

proof fn lemma_member_named(members: Seq<MemberView>, key: Seq<char>, i: int)
    ensures
        first_named(members, key, i) ==> member_named(members, key) == Some(members[i]),
        (forall|k: int| 0 <= k < members.len() ==> (#[trigger] members[k]).key != key)
            ==> member_named(members, key) is None,
    decreases members.len(),
{
    if members.len() > 0 {
        let rest = members.drop_first();
        assert(members.first() == members[0]);
        assert forall|k: int| 0 <= k < rest.len() implies #[trigger] rest[k] == members[k + 1] by {}
        lemma_member_named(rest, key, i - 1);
        if first_named(members, key, i) && i > 0 {
            assert(first_named(rest, key, i - 1));
        }
    }
}

/// A request that is an object is counted under the text of its first member `method`, and under
/// `unknown` if it has no such member or that is no text; its identifier is its first member `id`
/// as it stands there.
pub proof fn law_request_named_by_members(members: Seq<MemberView>, i: int)
    ensures
        ({
            let request = request_of(DocumentView::Object(members));
            &&& !request.is_batch
            &&& request.batch_size == 1
            &&& first_named(members, "method"@, i) ==> request.method_label == match members[i].text {
                Some(text) => text,
                None => "unknown"@,
            }
            &&& first_named(members, "id"@, i) ==> request.id == Some(members[i].json)
            &&& (forall|k: int|
                0 <= k < members.len() ==> (#[trigger] members[k]).key != "method"@)
                ==> request.method_label == "unknown"@
            &&& (forall|k: int| 0 <= k < members.len() ==> (#[trigger] members[k]).key != "id"@)
                ==> request.id is None
        }),
{
    lemma_member_named(members, "method"@, i);
    lemma_member_named(members, "id"@, i);
}

/// A batch is counted under `batch`, for as many requests as it has items, and has no identifier.
/// What is neither a batch nor an object counts as one request without a method and an identifier.
pub proof fn law_other_requests_named(document: DocumentView, items: Seq<Seq<char>>)
    ensures
        ({
            let request = request_of(DocumentView::Array(items));
            &&& request.is_batch
            &&& request.batch_size == items.len()
            &&& request.method_label == "batch"@
            &&& request.id is None
        }),
        !(document is Array) && !(document is Object) ==> {
            let request = request_of(document);
            &&& !request.is_batch
            &&& request.batch_size == 1
            &&& request.method_label == "unknown"@
            &&& request.id is None
        },
{
}

/// The body is refused as no request, for the given reason.
pub open spec fn bad_request(r: Result<RpcRequest, Rejection>, why: Seq<char>) -> bool {
    r matches Err(Rejection::BadRequest(LoadBalancerError::BadRequest(reason))) && reason@ == why
}

/// What is answered for a body once it was parsed, by what [`read_request`] returns: a body that is
/// no JSON is refused with the reason, an array without items as an empty batch, one with more
/// items than accepted as too large; any other body becomes a request with the fields of its
/// document.
pub proof fn law_request_read(
    parsed: Result<Document, String>,
    max_batch_size: usize,
    r: Result<RpcRequest, Rejection>,
)
    requires
        call_ensures(read_request, (parsed, max_batch_size), r),
        max_batch_size >= 1,
    ensures
        parsed matches Err(shown) ==> bad_request(r, "Failed to parse JSON body: "@ + shown@),
        parsed matches Ok(Document::Array(items)) ==> {
            &&& items@.len() == 0 ==> bad_request(r, "Empty batch is not allowed"@)
            &&& items@.len() > max_batch_size ==> r is Err && r->Err_0 is BatchTooLarge
            &&& 1 <= items@.len() <= max_batch_size ==> {
                &&& r is Ok
                &&& r->Ok_0.is_batch
                &&& r->Ok_0.batch_size == items@.len()
                &&& r->Ok_0.method_label@ == "batch"@
                &&& r->Ok_0.id is None
            }
        },
        parsed matches Ok(document) ==> !(document is Array) ==> {
            &&& r is Ok
            &&& !r->Ok_0.is_batch
            &&& r->Ok_0.batch_size == 1
            &&& r->Ok_0@ == request_of(document@)
        },
{
    if let Ok(Document::Array(items)) = parsed {
        if let Ok(request) = r {
            assert(request@.id is None);
        }
    }
}

/// A failure is answered with the code -32000 and the address of the endpoint if the endpoint
/// refused the request as one too many, and with -32603 otherwise: with the reason if the endpoint
/// failed, and without one else. A single request is answered under its identifier, a batch under
/// none. So says what [`error_reply`] returns.
pub proof fn law_error_replied(err: LoadBalancerError, request: RpcRequest, reply: ErrorReply)
    requires
        call_ensures(error_reply, (&err, &request), reply),
    ensures
        err matches LoadBalancerError::RateLimited(url) ==> reply.code.value() == -32000
            && reply.message@ == url@,
        err matches LoadBalancerError::UpstreamError(reason) ==> reply.code.value() == -32603
            && reply.message@ == reason@,
        err is ConfigError || err is BadRequest ==> reply.code.value() == -32603 && reply.message@
            == "Internal server error"@,
        request.is_batch || request.id is None ==> reply.id is None,
        !request.is_batch && request.id is Some ==> reply.id is Some && reply.id.unwrap()@
            == request.id.unwrap()@,
{
    assert(reply@ == reply_to(err, request@));
}

/// The JSON text of an error holds its code, its message and its identifier, or `null` where there
/// is none.
pub proof fn law_error_written(message: Seq<char>, id: Seq<char>)
    ensures
        error_json(ErrorCode::RateLimited, message, Some(id))
            == "{\"error\":{\"code\":-32000,\"message\":"@ + message + "},\"id\":"@ + id
            + ",\"jsonrpc\":\"2.0\"}"@,
        error_json(ErrorCode::Internal, message, Some(id))
            == "{\"error\":{\"code\":-32603,\"message\":"@ + message + "},\"id\":"@ + id
            + ",\"jsonrpc\":\"2.0\"}"@,
        error_json(ErrorCode::RateLimited, message, None)
            == "{\"error\":{\"code\":-32000,\"message\":"@ + message
            + "},\"id\":null,\"jsonrpc\":\"2.0\"}"@,
        error_json(ErrorCode::Internal, message, None)
            == "{\"error\":{\"code\":-32603,\"message\":"@ + message
            + "},\"id\":null,\"jsonrpc\":\"2.0\"}"@,
{
    reveal_strlit("{\"error\":{\"code\":");
    reveal_strlit("-32000");
    reveal_strlit("-32603");
    reveal_strlit(",\"message\":");
    reveal_strlit("},\"id\":");
    reveal_strlit("null");
    reveal_strlit(",\"jsonrpc\":\"2.0\"}");
    reveal_strlit("{\"error\":{\"code\":-32000,\"message\":");
    reveal_strlit("{\"error\":{\"code\":-32603,\"message\":");
    reveal_strlit("},\"id\":null,\"jsonrpc\":\"2.0\"}");
    assert("{\"error\":{\"code\":"@ + "-32000"@ + ",\"message\":"@
        =~= "{\"error\":{\"code\":-32000,\"message\":"@);
    assert("{\"error\":{\"code\":"@ + "-32603"@ + ",\"message\":"@
        =~= "{\"error\":{\"code\":-32603,\"message\":"@);
    assert("},\"id\":"@ + "null"@ + ",\"jsonrpc\":\"2.0\"}"@
        =~= "},\"id\":null,\"jsonrpc\":\"2.0\"}"@);
    let limited = "{\"error\":{\"code\":-32000,\"message\":"@ + message;
    let internal = "{\"error\":{\"code\":-32603,\"message\":"@ + message;
    assert(limited + "},\"id\":"@ + "null"@ + ",\"jsonrpc\":\"2.0\"}"@ =~= limited
        + "},\"id\":null,\"jsonrpc\":\"2.0\"}"@);
    assert(internal + "},\"id\":"@ + "null"@ + ",\"jsonrpc\":\"2.0\"}"@ =~= internal
        + "},\"id\":null,\"jsonrpc\":\"2.0\"}"@);
}

/// What a rejection is answered with: 413 for what is too large, 400 for what is no request, with
/// the reason, and 503 where no endpoint takes the request.
pub proof fn law_rejection_answered(rejection: Rejection, status: u16, message: Option<String>)
    requires
        call_ensures(Rejection::status, (&rejection,), status),
        call_ensures(Rejection::message, (&rejection,), message),
    ensures
        rejection is BodyTooLarge || rejection is BatchTooLarge ==> status == 413 && message is None,
        rejection is NoEndpoint ==> status == 503 && message is None,
        rejection matches Rejection::BadRequest(err) ==> status == 400 && message is Some
            && message.unwrap()@ == err.text(),
{
}

/// The text of an error is what kind of error it is, and its reason or the address it speaks of.
pub proof fn law_errors_shown(
    err: LoadBalancerError,
    shown: String,
    other: ConfigError,
    told: String,
)
    requires
        call_ensures(LoadBalancerError::message, (&err,), shown),
        call_ensures(ConfigError::message, (&other,), told),
    ensures
        err matches LoadBalancerError::RateLimited(url) ==> shown@
            == "Rate limit exceeded for endpoint: "@ + url@,
        err matches LoadBalancerError::UpstreamError(reason) ==> shown@ == "Upstream error: "@
            + reason@,
        err matches LoadBalancerError::ConfigError(reason) ==> shown@ == "Configuration error: "@
            + reason@,
        err matches LoadBalancerError::BadRequest(reason) ==> shown@ == "Bad request: "@ + reason@,
        other matches ConfigError::ConfigError(reason) ==> told@ == "Configuration error: "@
            + reason@,
{
}

/// A body is refused before it is parsed exactly if it has more than ten mebibytes, or if it has an
/// opening bracket behind nothing but white space and more requests than accepted in one batch.
pub proof fn law_prechecked(
    body: &[u8],
    max_batch_size: usize,
    r: Result<(), Rejection>,
    i: int,
)
    requires
        call_ensures(precheck, (body, max_batch_size), r),
        0 <= i < body@.len(),
        body@[i] != 0x20 && body@[i] != 0x09 && body@[i] != 0x0a && body@[i] != 0x0c && body@[i]
            != 0x0d,
        forall|k: int|
            0 <= k < i ==> {
                let b = #[trigger] body@[k];
                b == 0x20 || b == 0x09 || b == 0x0a || b == 0x0c || b == 0x0d
            },
    ensures
        r matches Err(Rejection::BodyTooLarge) <==> body@.len() > 10 * 1024 * 1024,
        r matches Err(Rejection::BatchTooLarge) <==> body@.len() <= 10 * 1024 * 1024 && body@[i]
            == 0x5b && batch_requests(body@) > max_batch_size,
        r is Err ==> r->Err_0 is BodyTooLarge || r->Err_0 is BatchTooLarge,
{
    lemma_first_byte_decides(body@, i);
}

proof fn lemma_first_byte_decides(bytes: Seq<u8>, i: int)
    requires
        0 <= i < bytes.len(),
        bytes[i] != 0x20 && bytes[i] != 0x09 && bytes[i] != 0x0a && bytes[i] != 0x0c && bytes[i]
            != 0x0d,
        forall|k: int|
            0 <= k < i ==> {
                let b = #[trigger] bytes[k];
                b == 0x20 || b == 0x09 || b == 0x0a || b == 0x0c || b == 0x0d
            },
    ensures
        looks_like_batch(bytes) <==> bytes[i] == 0x5b,
{
    if looks_like_batch(bytes) {
        let j = choose|j: int|
            0 <= j < bytes.len() && #[trigger] bytes[j] == OPENING_BRACKET && forall|k: int|
                0 <= k < j ==> ascii_white_space(#[trigger] bytes[k]);
        if i < j {
            assert(ascii_white_space(bytes[i]));
        }
        if j < i {
            assert(bytes[j] == 0x5b);
        }
    }
    if bytes[i] == 0x5b {
        assert(bytes[i] == OPENING_BRACKET);
    }
}

/// The bytes `"error":` stand in `bytes` from `i` on.
pub open spec fn error_key_at(bytes: Seq<u8>, i: int) -> bool {
    &&& 0 <= i
    &&& i + 8 <= bytes.len()
    &&& bytes[i] == 0x22
    &&& bytes[i + 1] == 0x65
    &&& bytes[i + 2] == 0x72
    &&& bytes[i + 3] == 0x72
    &&& bytes[i + 4] == 0x6f
    &&& bytes[i + 5] == 0x72
    &&& bytes[i + 6] == 0x22
    &&& bytes[i + 7] == 0x3a
}

/// The byte stands for a white space character.
pub open spec fn blank(b: u8) -> bool {
    0x09 <= b <= 0x0d || b == 0x20 || b == 0x85 || b == 0xa0
}

proof fn lemma_error_key(bytes: Seq<u8>, i: int)
    ensures
        error_key_at(bytes, i) <==> occurs_at(bytes, ERROR_KEY@, i),
{
    if occurs_at(bytes, ERROR_KEY@, i) {
        let part = bytes.subrange(i, i + 8);
        assert(ERROR_KEY@.len() == 8);
        assert(part[0] == 0x22 && part[1] == 0x65 && part[2] == 0x72 && part[3] == 0x72);
        assert(part[4] == 0x6f && part[5] == 0x72 && part[6] == 0x22 && part[7] == 0x3a);
    }
    if error_key_at(bytes, i) {
        assert(bytes.subrange(i, i + 8) =~= ERROR_KEY@);
    }
}

proof fn lemma_blanks_skipped(bytes: Seq<u8>, i: int, j: int)
    requires
        0 <= i <= j <= bytes.len(),
        forall|k: int| i <= k < j ==> blank(#[trigger] bytes[k]),
        j < bytes.len() ==> !blank(bytes[j]),
    ensures
        after_white_space(bytes, i) == j,
    decreases j - i,
{
    if i < j {
        assert(blank(bytes[i]));
        lemma_blanks_skipped(bytes, i + 1, j);
    }
}

/// A response that is no array reports an error exactly if it has the key `"error":` somewhere and
/// what follows the first one, behind any white space, does not start with `null`.
pub proof fn law_error_read_behind_key(bytes: Seq<u8>, i: int, j: int)
    requires
        !looks_like_batch(bytes),
        error_key_at(bytes, i),
        forall|k: int| 0 <= k < i ==> !#[trigger] error_key_at(bytes, k),
        i + 8 <= j <= bytes.len(),
        forall|k: int| i + 8 <= k < j ==> blank(#[trigger] bytes[k]),
        j < bytes.len() ==> !blank(bytes[j]),
    ensures
        reports_error(bytes) <==> !(j + 4 <= bytes.len() && bytes[j] == 0x6e && bytes[j + 1] == 0x75
            && bytes[j + 2] == 0x6c && bytes[j + 3] == 0x6c),
{
    lemma_error_key(bytes, i);
    assert forall|k: int| 0 <= k < i implies !#[trigger] occurs_at(bytes, ERROR_KEY@, k) by {
        lemma_error_key(bytes, k);
        assert(!error_key_at(bytes, k));
    }
    law_first_key_decides(bytes, i);
    lemma_blanks_skipped(bytes, i + 8, j);
    assert(ERROR_KEY@.len() == 8);
    assert(NULL_VALUE@.len() == 4);
    if occurs_at(bytes, NULL_VALUE@, j) {
        let part = bytes.subrange(j, j + 4);
        assert(part[0] == 0x6e && part[1] == 0x75 && part[2] == 0x6c && part[3] == 0x6c);
    }
    if j + 4 <= bytes.len() && bytes[j] == 0x6e && bytes[j + 1] == 0x75 && bytes[j + 2] == 0x6c
        && bytes[j + 3] == 0x6c {
        assert(bytes.subrange(j, j + 4) =~= NULL_VALUE@);
    }
}

/// A response without the bytes `"error":` reports no error, be it an array or not.
pub proof fn law_no_key_bytes_no_error(bytes: Seq<u8>)
    requires
        forall|i: int| !#[trigger] error_key_at(bytes, i),
    ensures
        !reports_error(bytes),
{
    assert forall|i: int| !#[trigger] occurs_at(bytes, ERROR_KEY@, i) by {
        lemma_error_key(bytes, i);
        assert(!error_key_at(bytes, i));
    }
}

/// How a request ended, by what came back: a status from 200 to 299 is a success; 429 a refused
/// rate; any other from 400 to 499 a fault of the client; one from 500 to 599 a fault of the
/// server; any other status, and no response at all, a failed connection. It counts for the time
/// that it took. What timed out is a timeout and counts for the whole time that the client waits.
pub proof fn law_outcome_by_status(
    code: u16,
    reply: Reply,
    elapsed_ms: u64,
    timeout_secs: u64,
    r: RequestOutcome,
)
    requires
        call_ensures(classify_reply, (&reply, elapsed_ms, timeout_secs), r),
        timeout_secs * 1000 <= u64::MAX,
    ensures
        reply == Reply::Status(code) && 200 <= code <= 299 ==> r == (RequestOutcome::Success {
            latency_ms: elapsed_ms,
        }),
        reply == Reply::Status(code) && code == 429 ==> r == (RequestOutcome::Failure {
            error_kind: ErrorKind::RateLimit,
            latency_ms: elapsed_ms,
        }),
        reply == Reply::Status(code) && 400 <= code <= 499 && code != 429 ==> r == (
        RequestOutcome::Failure { error_kind: ErrorKind::Http4xx, latency_ms: elapsed_ms }),
        reply == Reply::Status(code) && 500 <= code <= 599 ==> r == (RequestOutcome::Failure {
            error_kind: ErrorKind::Http5xx,
            latency_ms: elapsed_ms,
        }),
        reply == Reply::Status(code) && (code < 200 || 300 <= code <= 399 || code >= 600) ==> r == (
        RequestOutcome::Failure { error_kind: ErrorKind::ConnectionError, latency_ms: elapsed_ms }),
        reply is Failed ==> r == (RequestOutcome::Failure {
            error_kind: ErrorKind::ConnectionError,
            latency_ms: elapsed_ms,
        }),
        reply is TimedOut ==> (r matches RequestOutcome::Failure { error_kind, latency_ms }
            && error_kind == ErrorKind::Timeout && latency_ms == timeout_secs * 1000),
{
    assert(r == outcome_of(reply, elapsed_ms, timeout_secs));
}

/// An endpoint passes a check exactly if it answers in time with a status from 200 to 299.
pub proof fn law_check_passed_by_status(status: Option<u16>, r: bool)
    requires
        call_ensures(check_passed, (status,), r),
    ensures
        status is None ==> !r,
        status matches Some(code) ==> r == (200 <= code <= 299),
{
}

/// What a reply makes of the endpoint that sent it, once its outcome was noted. A success changes
/// nothing. A refused rate starts a cooldown and leaves the health as it is. Anything else makes
/// the endpoint unhealthy and starts a cooldown if it was healthy. The seconds of a cooldown that
/// starts are reported. Nothing else of the balancer changes.
pub proof fn law_endpoint_after_reply(
    noted: LoadBalancerView,
    url: Seq<char>,
    reply: Reply,
    code: u16,
    now: u64,
    k: int,
)
    requires
        in_use_at(noted.endpoints, url, k),
    ensures
        reply == Reply::Status(code) && 200 <= code <= 299 ==> state_after_reply(
            noted,
            url,
            reply,
            now,
        ) == noted && cooldown_after_reply(noted, url, reply) is None,
        ({
            let before = noted.endpoints[k];
            let state = state_after_reply(noted, url, reply, now);
            let after = state.endpoints[k];
            let secs = cooldown_after_reply(noted, url, reply);
            &&& same_but_endpoint(noted, state, k)
            &&& after.metrics == before.metrics
            &&& reply == Reply::Status(429) ==> after.healthy == before.healthy
            &&& reply is Failed || reply is TimedOut || (reply == Reply::Status(code) && code != 429
                && !(200 <= code <= 299)) ==> !after.healthy
            &&& reply == Reply::Status(429) || (before.healthy && !after.healthy) ==> {
                &&& cooldown_started(
                    before,
                    noted.settings.base_cooldown_secs,
                    noted.settings.max_cooldown_secs,
                    now,
                    after,
                )
                &&& secs is Some
                &&& after.cooldown_until.unwrap() == now + secs.unwrap() * 1_000_000_000
            }
            &&& reply != Reply::Status(429) && before.healthy == after.healthy ==> after == before
                && secs is None
        }),
{
    lemma_endpoint_in_use(noted.endpoints, url, k);
    law_marked_endpoint(noted, url, now, k);
    law_cooldown_bounded(
        noted.settings.base_cooldown_secs,
        noted.settings.max_cooldown_secs,
        next_attempts(noted.endpoints[k].cooldown_attempts),
    );
}

/// What is answered when an endpoint comes back with a reply: the body is read for a status from
/// 200 to 299; 429 is answered as a refused rate of that endpoint; another status by its text; and
/// no response by what the HTTP client says of it.
pub proof fn law_answer_by_status(
    url: Seq<char>,
    reply: Reply,
    code: u16,
    result: Result<(), LoadBalancerError>,
)
    requires
        reply_result(url, reply, result),
    ensures
        reply == Reply::Status(code) && 200 <= code <= 299 ==> result is Ok,
        reply == Reply::Status(429) ==> (result matches Err(LoadBalancerError::RateLimited(at))
            && at@ == url),
        reply == Reply::Status(code) && code != 429 && !(200 <= code <= 299) ==> (result matches Err(
            LoadBalancerError::UpstreamError(reason),
        ) && reason@ == "Upstream returned non-success status: "@ + status_text(code)),
        reply matches Reply::TimedOut(shown) ==> (result matches Err(
            LoadBalancerError::UpstreamError(reason),
        ) && reason@ == shown@),
        reply matches Reply::Failed(shown) ==> (result matches Err(
            LoadBalancerError::UpstreamError(reason),
        ) && reason@ == shown@),
{
}

/// `after` is what a reply with the status `code`, or another reply, makes of the endpoint
/// `before`: it is in a cooldown that started now if it was refused a rate, or if it was healthy
/// and no longer is, and `secs` are the seconds of that cooldown.
pub open spec fn taken_out(
    before: RpcEndpointView,
    settings: BalancerSettings,
    reply: Reply,
    now: u64,
    secs: Option<u64>,
    after: RpcEndpointView,
) -> bool {
    let succeeded = reply matches Reply::Status(code) && 200 <= code <= 299;
    let refused = reply == Reply::Status(429);
    &&& after.healthy == (before.healthy && (succeeded || refused))
    &&& refused || (before.healthy && !succeeded) ==> {
        &&& cooldown_started(
            before,
            settings.base_cooldown_secs,
            settings.max_cooldown_secs,
            now,
            after,
        )
        &&& secs is Some
        &&& after.cooldown_until.unwrap() == now + secs.unwrap() * 1_000_000_000
    }
    &&& !refused && (!before.healthy || succeeded) ==> {
        &&& secs is None
        &&& after.last_check == before.last_check
        &&& after.cooldown_until == before.cooldown_until
        &&& after.cooldown_attempts == before.cooldown_attempts
    }
}

/// What a reply makes of the endpoint that sent it, from before the request was noted to after: its
/// metrics follow how the request ended, with the client's timeout for what timed out; a success
/// changes nothing else, and anything else takes the endpoint out. Nothing else of the balancer
/// changes.
pub proof fn law_reply_noted<F: Fn(u64, u64, Smoothing) -> u64>(
    before: LoadBalancerView,
    url: Seq<char>,
    reply: Reply,
    elapsed_ms: u64,
    now: u64,
    average: F,
    secs: Option<u64>,
    after: LoadBalancerView,
    k: int,
    outcome: RequestOutcome,
)
    requires
        reply_noted(before, url, reply, elapsed_ms, now, average, secs, after),
        in_use_at(before.endpoints, url, k),
        before.client.timeout_secs * 1000 <= u64::MAX,
        outcome == match reply {
            Reply::Status(code) => if 200 <= code <= 299 {
                RequestOutcome::Success { latency_ms: elapsed_ms }
            } else {
                RequestOutcome::Failure {
                    error_kind: if code == 429 {
                        ErrorKind::RateLimit
                    } else if 400 <= code <= 499 {
                        ErrorKind::Http4xx
                    } else if 500 <= code <= 599 {
                        ErrorKind::Http5xx
                    } else {
                        ErrorKind::ConnectionError
                    },
                    latency_ms: elapsed_ms,
                }
            },
            Reply::TimedOut(_) => RequestOutcome::Failure {
                error_kind: ErrorKind::Timeout,
                latency_ms: (before.client.timeout_secs * 1000) as u64,
            },
            Reply::Failed(_) => RequestOutcome::Failure {
                error_kind: ErrorKind::ConnectionError,
                latency_ms: elapsed_ms,
            },
        },
    ensures
        same_but_endpoint(before, after, k),
        before.endpoints[k].metrics.updated(outcome, average, after.endpoints[k].metrics),
        after.endpoints[k].url == before.endpoints[k].url,
        after.endpoints[k].rate_limit_per_sec == before.endpoints[k].rate_limit_per_sec,
        after.endpoints[k].burst_size == before.endpoints[k].burst_size,
        after.endpoints[k].weight == before.endpoints[k].weight,
        taken_out(before.endpoints[k], before.settings, reply, now, secs, after.endpoints[k]),
{
    let noted = choose|noted: LoadBalancerView|
        {
            &&& #[trigger] recorded(
                before,
                url,
                outcome_of(reply, elapsed_ms, before.client.timeout_secs),
                average,
                noted,
            )
            &&& after == state_after_reply(noted, url, reply, now)
            &&& secs == cooldown_after_reply(noted, url, reply)
        };
    assert(outcome == outcome_of(reply, elapsed_ms, before.client.timeout_secs));
    law_recorded_outcome(before, url, outcome, average, noted, k);
    assert(in_use_at(noted.endpoints, url, k)) by {
        assert forall|m: int| 0 <= m < k implies (#[trigger] noted.endpoints[m]).url != url by {
            assert(noted.endpoints[m] == before.endpoints[m]);
        }
    }
    let code: u16 = match reply {
        Reply::Status(code) => code,
        _ => 0,
    };
    law_endpoint_after_reply(noted, url, reply, code, now, k);
    assert forall|j: int| 0 <= j < before.endpoints.len() && j != k implies (
    #[trigger] after.endpoints[j]) == before.endpoints[j] by {
        assert(noted.endpoints[j] == before.endpoints[j]);
    }
}

/// A body that was read is handed on as it is, with whether it reports no error, and changes
/// nothing. One that could not be read is answered with why, makes the endpoint unhealthy and
/// starts a cooldown if it was healthy; its metrics stay as they are.
pub proof fn law_body_noted(
    before: LoadBalancer,
    url: Seq<char>,
    body: Result<Vec<u8>, String>,
    now: u64,
    step: ForwardStep<(Vec<u8>, bool)>,
    after: LoadBalancer,
    k: int,
)
    requires
        body_noted(before, url, body, now, step, after),
        in_use_at(before@.endpoints, url, k),
    ensures
        body matches Ok(bytes) ==> {
            &&& step.result is Ok
            &&& step.result->Ok_0.0@ == bytes@
            &&& step.result->Ok_0.1 == !reports_error(bytes@)
            &&& step.cooldown_secs is None
            &&& after == before
        },
        body matches Err(shown) ==> {
            let old_one = before@.endpoints[k];
            let new_one = after@.endpoints[k];
            &&& step.result is Err
            &&& step.result->Err_0 is UpstreamError
            &&& step.result->Err_0->UpstreamError_0@ == shown@
            &&& same_but_endpoint(before@, after@, k)
            &&& !new_one.healthy
            &&& new_one.metrics == old_one.metrics
            &&& !old_one.healthy ==> new_one == old_one && step.cooldown_secs is None
            &&& old_one.healthy ==> cooldown_started(
                old_one,
                before@.settings.base_cooldown_secs,
                before@.settings.max_cooldown_secs,
                now,
                new_one,
            ) && step.cooldown_secs is Some && new_one.cooldown_until.unwrap() == now
                + step.cooldown_secs.unwrap() * 1_000_000_000
        },
{
    lemma_endpoint_in_use(before@.endpoints, url, k);
    law_marked_endpoint(before@, url, now, k);
    law_cooldown_bounded(
        before@.settings.base_cooldown_secs,
        before@.settings.max_cooldown_secs,
        next_attempts(before@.endpoints[k].cooldown_attempts),
    );
}

/// A request goes to an endpoint in service, whose limiter it counts against for as many requests
/// as it has and which counts as selected now; it goes to none only if every endpoint in service
/// can refuse that many requests, and then nothing changes.
pub proof fn law_request_routed(
    before: LoadBalancerView,
    request: RpcRequest,
    now: u64,
    now_secs: u64,
    route: Route,
    after: LoadBalancerView,
)
    requires
        before.endpoints.len() <= usize::MAX,
        routed(before, request, now, now_secs, route, after),
    ensures
        route.endpoint matches Ok(url) ==> goes_to(
            before,
            request.batch_size,
            now,
            now_secs,
            url@,
            after,
        ),
        route.endpoint is Err ==> {
            &&& route.endpoint->Err_0 is NoEndpoint
            &&& all_refuse(before, request.batch_size, now)
            &&& after == before
        },
{
    lemma_selected(before, request.batch_size, now, now_secs, route.selection, after);
}

/// The address that [`LoadBalancer::get_next_endpoint`] hands out is that of an endpoint in
/// service, and as for any request its limiter and when it was selected take note of it. None is
/// handed out only if every endpoint in service can refuse the batch, and then nothing changes.
pub proof fn law_endpoint_handed_out(
    before: LoadBalancerView,
    batch_size: usize,
    now: u64,
    now_secs: u64,
    r: Option<String>,
    after: LoadBalancerView,
)
    requires
        before.endpoints.len() <= usize::MAX,
        handed_out(before, batch_size, now, now_secs, r, after),
    ensures
        r matches Some(url) ==> goes_to(before, batch_size, now, now_secs, url@, after),
        r is None ==> all_refuse(before, batch_size, now) && after == before,
{
    let selection = choose|selection: Selection|
        {
            &&& #[trigger] next_selected(before, batch_size, now, now_secs, selection, after)
            &&& match (selection.selected, r) {
                (Some(i), Some(url)) => url@ == before.endpoints[i as int].url,
                (None, None) => true,
                _ => false,
            }
        };
    lemma_selected(before, batch_size, now, now_secs, selection, after);
}

/// Some endpoint with the address `url` is in service and took the batch.
pub open spec fn goes_to(
    before: LoadBalancerView,
    batch_size: usize,
    now: u64,
    now_secs: u64,
    url: Seq<char>,
    after: LoadBalancerView,
) -> bool {
    &&& exists|i: int|
        {
            &&& 0 <= i < before.endpoints.len()
            &&& (#[trigger] before.endpoints[i]).url == url
            &&& in_service(before.endpoints[i], now)
            &&& after.endpoints[i].metrics.last_selected == now_secs
        }
    &&& before.rate_limiters.contains_key(url) ==> after.rate_limiters.contains_key(url)
        && after.rate_limiters[url].granted == before.rate_limiters[url].granted + batch_size
}

/// Every endpoint in service can refuse the batch.
pub open spec fn all_refuse(state: LoadBalancerView, batch_size: usize, now: u64) -> bool {
    forall|j: usize|
        j < state.endpoints.len() && in_service(#[trigger] state.endpoints[j as int], now)
            ==> may_refuse(state.rate_limiters, state.endpoints[j as int].url, batch_size)
}

proof fn lemma_selected(
    before: LoadBalancerView,
    batch_size: usize,
    now: u64,
    now_secs: u64,
    selection: Selection,
    after: LoadBalancerView,
)
    requires
        before.endpoints.len() <= usize::MAX,
        next_selected(before, batch_size, now, now_secs, selection, after),
    ensures
        selection.selected matches Some(i) ==> goes_to(
            before,
            batch_size,
            now,
            now_secs,
            before.endpoints[i as int].url,
            after,
        ),
        selection.selected is None ==> all_refuse(before, batch_size, now) && after == before,
{
    law_refused_only_without_room(
        before.endpoints,
        now,
        batch_size,
        before.rate_limiters,
        after.rate_limiters,
        selection,
    );
    if let Some(i) = selection.selected {
        law_selected_is_best(
            before.endpoints,
            now,
            batch_size,
            before.rate_limiters,
            after.rate_limiters,
            selection,
            i,
        );
        law_selection_leaves_the_rest(
            before,
            batch_size,
            now,
            now_secs,
            selection,
            after,
            before.endpoints[i as int].url,
            i as int,
        );
        assert(in_service(before.endpoints[i as int], now));
    }
}

/// The JSON text that an error is sent as holds its message as a JSON string.
pub proof fn law_error_sent(reply: ErrorReply, text: String)
    requires
        call_ensures(error_payload, (&reply,), text),
    ensures
        reply.id matches Some(id) ==> text@ == error_json(
            reply.code,
            quoted_json(reply.message@),
            Some(id@),
        ),
        reply.id is None ==> text@ == error_json(reply.code, quoted_json(reply.message@), None),
        reply.code.value() == -32000 || reply.code.value() == -32603,
{
}

/// A reply from an address that is not in use any more changes nothing and starts no cooldown.
pub proof fn law_reply_from_unknown_address<F: Fn(u64, u64, Smoothing) -> u64>(
    before: LoadBalancerView,
    url: Seq<char>,
    reply: Reply,
    elapsed_ms: u64,
    now: u64,
    average: F,
    secs: Option<u64>,
    after: LoadBalancerView,
)
    requires
        reply_noted(before, url, reply, elapsed_ms, now, average, secs, after),
        not_in_use(before.endpoints, url),
    ensures
        after == before,
        secs is None,
{
    lemma_endpoint_in_use(before.endpoints, url, 0);
}

} // verus!
