//! The requests that clients send: what is accepted, and how a failure is answered.

use serde_json::Value;
use vstd::prelude::*;
use vstd::string::*;

use crate::balancer::{next_selected, LoadBalancer, LoadBalancerView};
use crate::endpoint::LoadBalancerError;
use crate::scan::{is_likely_batch, looks_like_batch, scan_from, Scan, Scanner};
use crate::strategy::Selection;

verus! {

/// The largest accepted body of a request, in bytes.
pub const MAX_JSON_SIZE: usize = 10_485_760;

/// Why a request is not forwarded.
#[derive(Debug)]
pub enum Rejection {
    /// The body is larger than any that is accepted.
    BodyTooLarge,
    /// The batch holds more requests than are accepted in one.
    BatchTooLarge,
    /// The body is not a request.
    BadRequest(LoadBalancerError),
    /// No endpoint can take the request.
    NoEndpoint,
}

impl Rejection {
    /// The HTTP status that the rejection is answered with.
    pub open spec fn code(self) -> u16 {
        match self {
            Rejection::BodyTooLarge => 413,
            Rejection::BatchTooLarge => 413,
            Rejection::BadRequest(_) => 400,
            Rejection::NoEndpoint => 503,
        }
    }

    /// The HTTP status that the rejection is answered with.
    pub fn status(&self) -> (r: u16)
        ensures
            r == self.code(),
    {
        match self {
            Rejection::BodyTooLarge => 413,
            Rejection::BatchTooLarge => 413,
            Rejection::BadRequest(_) => 400,
            Rejection::NoEndpoint => 503,
        }
    }

    /// The body that the rejection is answered with, if it has one.
    pub fn message(&self) -> (r: Option<String>)
        ensures
            match (*self, r) {
                (Rejection::BadRequest(err), Some(message)) => message@ == err.text(),
                (Rejection::BadRequest(_), None) => false,
                (_, r) => r is None,
            },
    {
        match self {
            Rejection::BadRequest(err) => Some(err.message()),
            _ => None,
        }
    }
}

/// The number of requests in the batch `body`: the objects that stand directly in the outermost
/// array. What is nested in a request, or stands in a string, does not count.
pub open spec fn batch_requests(body: Seq<u8>) -> nat {
    scan_from(Scan::start(), body).objects
}

/// The number of requests in the batch `body`.
fn count_batch_requests(body: &[u8]) -> (r: usize)
    ensures
        r == batch_requests(body@),
{
    let len: usize = body.len();
    let mut scanner = Scanner::new();
    let mut i: usize = 0;
    assert(body@.take(0) == Seq::<u8>::empty());
    while i < len
        invariant
            i <= len,
            len == body@.len(),
            scanner.within(i as nat),
            scanner@ == scan_from(Scan::start(), body@.take(i as int)),
        decreases len - i,
    {
        proof {
            assert(body@.take(i + 1).drop_last() == body@.take(i as int));
            assert(body@.take(i + 1).last() == body@[i as int]);
        }
        scanner.read(body[i]);
        i = i + 1;
    }
    assert(body@.take(i as int) == body@);
    scanner.objects
}

/// Rejects a body that is too large, or that looks like a batch of too many requests, before it is
/// parsed.
pub fn precheck(body: &[u8], max_batch_size: usize) -> (r: Result<(), Rejection>)
    ensures
        match r {
            Ok(_) => {
                &&& body@.len() <= MAX_JSON_SIZE
                &&& !(looks_like_batch(body@) && batch_requests(body@) > max_batch_size)
            },
            Err(Rejection::BodyTooLarge) => body@.len() > MAX_JSON_SIZE,
            Err(Rejection::BatchTooLarge) => {
                &&& body@.len() <= MAX_JSON_SIZE
                &&& looks_like_batch(body@)
                &&& batch_requests(body@) > max_batch_size
            },
            Err(_) => false,
        },
{
    if body.len() > MAX_JSON_SIZE {
        return Err(Rejection::BodyTooLarge);
    }
    if is_likely_batch(body) && count_batch_requests(body) > max_batch_size {
        return Err(Rejection::BatchTooLarge);
    }
    Ok(())
}

/// A member of a JSON object: its key, its value as compact JSON, and its value itself if that is
/// a string.
#[derive(Debug, Clone)]
pub struct Member {
    pub key: String,
    pub json: String,
    pub text: Option<String>,
}

/// A JSON document. Numbers and the items of an array are kept as compact JSON.
#[derive(Debug, Clone)]
pub enum Document {
    Null,
    Bool(bool),
    Number(String),
    Text(String),
    Array(Vec<String>),
    Object(Vec<Member>),
}

/// What a [`Member`] says.
pub struct MemberView {
    pub key: Seq<char>,
    pub json: Seq<char>,
    pub text: Option<Seq<char>>,
}

/// What a [`Document`] says.
pub enum DocumentView {
    Null,
    Bool(bool),
    Number(Seq<char>),
    Text(Seq<char>),
    Array(Seq<Seq<char>>),
    Object(Seq<MemberView>),
}

/// The text that `s` holds, if any.
pub open spec fn text_of(s: Option<String>) -> Option<Seq<char>> {
    match s {
        Some(s) => Some(s@),
        None => None,
    }
}

impl View for Member {
    type V = MemberView;

    open spec fn view(&self) -> MemberView {
        MemberView { key: self.key@, json: self.json@, text: text_of(self.text) }
    }
}

impl View for Document {
    type V = DocumentView;

    open spec fn view(&self) -> DocumentView {
        match self {
            Document::Null => DocumentView::Null,
            Document::Bool(b) => DocumentView::Bool(*b),
            Document::Number(json) => DocumentView::Number(json@),
            Document::Text(text) => DocumentView::Text(text@),
            Document::Array(items) => DocumentView::Array(items@.map_values(|s: String| s@)),
            Document::Object(members) => DocumentView::Object(
                members@.map_values(|m: Member| m@),
            ),
        }
    }
}

/// What parsing gave: a document, or why there is none.
pub open spec fn parse_view(parsed: Result<Document, String>) -> Result<DocumentView, Seq<char>> {
    match parsed {
        Ok(document) => Ok(document@),
        Err(reason) => Err(reason@),
    }
}

/// What `serde_json::from_slice` makes of `body`: a document, or the text of its error.
pub uninterp spec fn parsed_document(body: Seq<u8>) -> Result<DocumentView, Seq<char>>;

/// Calls `serde_json::from_slice`, which parses a JSON document, and hands the document over with
/// what is nested in it as compact JSON. What comes back depends on the bytes alone.
#[verifier::external_body]
fn parse_document(body: &[u8]) -> (r: Result<Document, String>)
    ensures
        parse_view(r) == parsed_document(body@),
{
    let value: Value = serde_json::from_slice(body).map_err(|e| e.to_string())?;
    let member = |(key, v): (String, Value)| Member {
        key,
        json: v.to_string(),
        text: v.as_str().map(|s| s.to_string()),
    };
    Ok(match value {
        Value::Null => Document::Null,
        Value::Bool(b) => Document::Bool(b),
        Value::Number(n) => Document::Number(n.to_string()),
        Value::String(s) => Document::Text(s),
        Value::Array(items) => Document::Array(items.iter().map(|v| v.to_string()).collect()),
        Value::Object(map) => Document::Object(map.into_iter().map(member).collect()),
    })
}

/// A request that can be forwarded.
#[derive(Debug)]
pub struct RpcRequest {
    /// The request is a batch.
    pub is_batch: bool,
    /// The number of requests in the batch; one if it is no batch.
    pub batch_size: usize,
    /// The method that the request is counted under.
    pub method_label: String,
    /// The identifier of the request as compact JSON, if it has one.
    pub id: Option<String>,
}

/// What a [`RpcRequest`] says.
pub struct RpcRequestView {
    pub is_batch: bool,
    pub batch_size: nat,
    pub method_label: Seq<char>,
    pub id: Option<Seq<char>>,
}

impl View for RpcRequest {
    type V = RpcRequestView;

    open spec fn view(&self) -> RpcRequestView {
        RpcRequestView {
            is_batch: self.is_batch,
            batch_size: self.batch_size as nat,
            method_label: self.method_label@,
            id: text_of(self.id),
        }
    }
}

/// The label of a batch.
pub const BATCH_LABEL: &'static str = "batch";

/// The label of a request that names no method.
pub const UNKNOWN_LABEL: &'static str = "unknown";

/// The first member of an object with the given key.
pub open spec fn member_named(members: Seq<MemberView>, key: Seq<char>) -> Option<MemberView>
    decreases members.len(),
{
    if members.len() == 0 {
        None
    } else if members.first().key == key {
        Some(members.first())
    } else {
        member_named(members.drop_first(), key)
    }
}

/// The member of `document` with the given key, if it is an object and has one.
pub open spec fn member_of(document: DocumentView, key: Seq<char>) -> Option<MemberView> {
    match document {
        DocumentView::Object(members) => member_named(members, key),
        _ => None,
    }
}

/// The request that `document` stands for.
pub open spec fn request_of(document: DocumentView) -> RpcRequestView {
    match document {
        DocumentView::Array(items) => RpcRequestView {
            is_batch: true,
            batch_size: items.len(),
            method_label: BATCH_LABEL@,
            id: None,
        },
        _ => RpcRequestView {
            is_batch: false,
            batch_size: 1,
            method_label: match member_of(document, "method"@) {
                Some(member) => member.text.unwrap_or(UNKNOWN_LABEL@),
                None => UNKNOWN_LABEL@,
            },
            id: match member_of(document, "id"@) {
                Some(member) => Some(member.json),
                None => None,
            },
        },
    }
}

/// The first member of an object with the given key.
fn find_member(members: &Vec<Member>, key: &String) -> (r: Option<usize>)
    ensures
        match r {
            Some(i) => {
                &&& i < members@.len()
                &&& member_named(members@.map_values(|m: Member| m@), key@) == Some(
                    members@[i as int]@,
                )
            },
            None => member_named(members@.map_values(|m: Member| m@), key@) is None,
        },
{
    let ghost views = members@.map_values(|m: Member| m@);
    let mut i: usize = 0;
    assert(views.skip(0) == views);
    while i < members.len()
        invariant
            views == members@.map_values(|m: Member| m@),
            i <= members@.len(),
            member_named(views, key@) == member_named(views.skip(i as int), key@),
        decreases members@.len() - i,
    {
        assert(views.skip(i as int).first() == members@[i as int]@);
        assert(views.skip(i as int).drop_first() == views.skip(i + 1));
        if members[i].key == *key {
            return Some(i);
        }
        i = i + 1;
    }
    None
}

/// The start of the message for a body that is not JSON.
pub const PARSE_FAILED: &'static str = "Failed to parse JSON body: ";

/// The message for a batch without requests.
pub const EMPTY_BATCH: &'static str = "Empty batch is not allowed";

/// `r` is what is said of a body that was `parsed`, with at most `max_batch_size` requests in one
/// batch.
pub open spec fn read_answers(
    parsed: Result<DocumentView, Seq<char>>,
    max_batch_size: usize,
    r: Result<RpcRequest, Rejection>,
) -> bool {
    match (parsed, r) {
        (Err(shown), Err(Rejection::BadRequest(LoadBalancerError::BadRequest(reason)))) => reason@
            == PARSE_FAILED@ + shown,
        (Ok(document), Err(Rejection::BadRequest(LoadBalancerError::BadRequest(reason)))) => {
            &&& request_of(document).batch_size == 0
            &&& reason@ == EMPTY_BATCH@
        },
        (Ok(document), Err(Rejection::BatchTooLarge)) => {
            &&& request_of(document).batch_size > 0
            &&& request_of(document).batch_size > max_batch_size
        },
        (Ok(document), Ok(request)) => {
            &&& 0 < request_of(document).batch_size <= max_batch_size
            &&& request@ == request_of(document)
        },
        _ => false,
    }
}

/// The request in a body that was `parsed`, or why it is not forwarded.
pub fn read_request(parsed: Result<Document, String>, max_batch_size: usize) -> (r: Result<
    RpcRequest,
    Rejection,
>)
    ensures
        read_answers(parse_view(parsed), max_batch_size, r),
{
    let document = match parsed {
        Ok(document) => document,
        Err(shown) => {
            let reason = PARSE_FAILED.to_owned().concat(shown.as_str());
            return Err(Rejection::BadRequest(LoadBalancerError::BadRequest(reason)));
        },
    };
    let request = match &document {
        Document::Array(items) => RpcRequest {
            is_batch: true,
            batch_size: items.len(),
            method_label: BATCH_LABEL.to_owned(),
            id: None,
        },
        Document::Object(members) => {
            let method_label = match find_member(members, &"method".to_owned()) {
                Some(i) => match &members[i].text {
                    Some(text) => text.clone(),
                    None => UNKNOWN_LABEL.to_owned(),
                },
                None => UNKNOWN_LABEL.to_owned(),
            };
            let id = match find_member(members, &"id".to_owned()) {
                Some(i) => Some(members[i].json.clone()),
                None => None,
            };
            RpcRequest { is_batch: false, batch_size: 1, method_label, id }
        },
        _ => RpcRequest {
            is_batch: false,
            batch_size: 1,
            method_label: UNKNOWN_LABEL.to_owned(),
            id: None,
        },
    };
    assert(request@ == request_of(document@));
    if request.batch_size == 0 {
        return Err(
            Rejection::BadRequest(LoadBalancerError::BadRequest(EMPTY_BATCH.to_owned())),
        );
    }
    if request.batch_size > max_batch_size {
        return Err(Rejection::BatchTooLarge);
    }
    Ok(request)
}

/// The request in `body`, or why it is not forwarded.
pub fn parse_request(body: &[u8], max_batch_size: usize) -> (r: Result<RpcRequest, Rejection>)
    ensures
        read_answers(parsed_document(body@), max_batch_size, r),
{
    read_request(parse_document(body), max_batch_size)
}

/// Where a request goes.
#[derive(Debug)]
pub struct Route {
    /// What came of selecting an endpoint.
    pub selection: Selection,
    /// The address of the endpoint that takes the request, or why none does.
    pub endpoint: Result<String, Rejection>,
}

/// `after` is the state `before` once an endpoint was selected for `request`, and `route` where the
/// request goes.
pub open spec fn routed(
    before: LoadBalancerView,
    request: RpcRequest,
    now: u64,
    now_secs: u64,
    route: Route,
    after: LoadBalancerView,
) -> bool {
    &&& next_selected(before, request.batch_size, now, now_secs, route.selection, after)
    &&& match (route.selection.selected, route.endpoint) {
        (Some(i), Ok(url)) => url@ == before.endpoints[i as int].url,
        (None, Err(Rejection::NoEndpoint)) => true,
        _ => false,
    }
}

impl LoadBalancer {
    /// Selects the endpoint that takes `request` and takes note that it was selected at `now_secs`
    /// seconds since the Unix epoch.
    pub fn route(&mut self, request: &RpcRequest, now: u64, now_secs: u64) -> (r: Route)
        ensures
            routed(old(self)@, *request, now, now_secs, r, final(self)@),
            old(self).wf() ==> final(self).wf(),
    {
        let selection = self.select_next(request.batch_size, now, now_secs);
        let endpoint = match selection.selected {
            Some(i) => {
                assert(self@.endpoints.len() == self.endpoints@.len());
                assert(self@.endpoints[i as int] == self.endpoints@[i as int]@);
                Ok(self.endpoints[i].url.clone())
            },
            None => Err(Rejection::NoEndpoint),
        };
        Route { selection, endpoint }
    }
}

/// The code of a JSON-RPC error.
#[derive(Clone, Copy, Debug, PartialEq, Eq, Structural)]
pub enum ErrorCode {
    /// The upstream endpoint refused the request as one too many.
    RateLimited,
    /// Any other failure.
    Internal,
}

impl ErrorCode {
    /// The number of this code.
    pub open spec fn value(self) -> int {
        match self {
            ErrorCode::RateLimited => -32000,
            ErrorCode::Internal => -32603,
        }
    }

    /// The number of this code in decimal digits.
    pub open spec fn digits(self) -> Seq<char> {
        match self {
            ErrorCode::RateLimited => "-32000"@,
            ErrorCode::Internal => "-32603"@,
        }
    }

    /// The number of this code.
    pub fn number(self) -> (r: i64)
        ensures
            r == self.value(),
    {
        match self {
            ErrorCode::RateLimited => -32000,
            ErrorCode::Internal => -32603,
        }
    }

    /// The number of this code in decimal digits.
    pub fn to_decimal(self) -> (r: String)
        ensures
            r@ == self.digits(),
    {
        match self {
            ErrorCode::RateLimited => "-32000".to_owned(),
            ErrorCode::Internal => "-32603".to_owned(),
        }
    }
}

/// The message for a failure that clients are told nothing else of.
pub const INTERNAL_ERROR: &'static str = "Internal server error";

/// The JSON-RPC error that a request is answered with.
#[derive(Debug)]
pub struct ErrorReply {
    pub code: ErrorCode,
    pub message: String,
    /// The identifier of the request as compact JSON, if it has one.
    pub id: Option<String>,
}

/// What an [`ErrorReply`] says.
pub struct ErrorReplyView {
    pub code: ErrorCode,
    pub message: Seq<char>,
    pub id: Option<Seq<char>>,
}

impl View for ErrorReply {
    type V = ErrorReplyView;

    open spec fn view(&self) -> ErrorReplyView {
        ErrorReplyView { code: self.code, message: self.message@, id: text_of(self.id) }
    }
}

/// The JSON-RPC error that `request` is answered with when forwarding it failed with `err`. A batch
/// has no identifier to name.
pub open spec fn reply_to(err: LoadBalancerError, request: RpcRequestView) -> ErrorReplyView {
    ErrorReplyView {
        code: match err {
            LoadBalancerError::RateLimited(_) => ErrorCode::RateLimited,
            _ => ErrorCode::Internal,
        },
        message: match err {
            LoadBalancerError::RateLimited(url) => url@,
            LoadBalancerError::UpstreamError(reason) => reason@,
            _ => INTERNAL_ERROR@,
        },
        id: if request.is_batch {
            None
        } else {
            request.id
        },
    }
}

/// The JSON-RPC error that `request` is answered with when forwarding it failed with `err`.
pub fn error_reply(err: &LoadBalancerError, request: &RpcRequest) -> (r: ErrorReply)
    ensures
        r@ == reply_to(*err, request@),
{
    let (code, message): (ErrorCode, String) = match err {
        LoadBalancerError::RateLimited(url) => (ErrorCode::RateLimited, url.clone()),
        LoadBalancerError::UpstreamError(reason) => (ErrorCode::Internal, reason.clone()),
        _ => (ErrorCode::Internal, INTERNAL_ERROR.to_owned()),
    };
    let id = if request.is_batch {
        None
    } else {
        match &request.id {
            Some(id) => Some(id.clone()),
            None => None,
        }
    };
    ErrorReply { code, message, id }
}

/// The hexadecimal digit for a number below sixteen, in lower case.
pub open spec fn hex_digit(n: int) -> char {
    if n < 10 {
        (0x30 + n) as char
    } else {
        (0x57 + n) as char
    }
}

/// What stands for `c` in a JSON string: an escape for a quote, a backslash and a control character
/// of ASCII, and `c` itself otherwise.
pub open spec fn escaped_char(c: char) -> Seq<char> {
    if c == '"' || c == '\\' {
        seq!['\\', c]
    } else if c == '\u{8}' {
        seq!['\\', 'b']
    } else if c == '\t' {
        seq!['\\', 't']
    } else if c == '\n' {
        seq!['\\', 'n']
    } else if c == '\u{c}' {
        seq!['\\', 'f']
    } else if c == '\r' {
        seq!['\\', 'r']
    } else if 0x20 > c as int {
        seq!['\\', 'u', '0', '0', hex_digit(c as int / 16), hex_digit(c as int % 16)]
    } else {
        seq![c]
    }
}

/// `text` with each character as it stands in a JSON string.
pub open spec fn escaped_text(text: Seq<char>) -> Seq<char>
    decreases text.len(),
{
    if text.len() == 0 {
        Seq::empty()
    } else {
        escaped_text(text.drop_last()) + escaped_char(text.last())
    }
}

/// `text` as a JSON string.
pub open spec fn quoted_json(text: Seq<char>) -> Seq<char> {
    seq!['"'] + escaped_text(text) + seq!['"']
}

/// Calls `serde_json::to_string`, which writes a string as a JSON string: with quotes around it,
/// short escapes for the quote, the backslash and five control characters, escapes of four
/// hexadecimal digits for the other control characters of ASCII, and everything else as it is. For
/// a string it does not fail.
#[verifier::external_body]
fn quote_json(text: &String) -> (r: String)
    ensures
        r@ == quoted_json(text@),
{
    serde_json::to_string(text).unwrap()
}

/// The JSON text of an error with the given code, message and identifier, the latter two in JSON.
/// The members of each object are in alphabetical order.
pub open spec fn error_json(code: ErrorCode, message: Seq<char>, id: Option<Seq<char>>) -> Seq<
    char,
> {
    "{\"error\":{\"code\":"@ + code.digits() + ",\"message\":"@ + message + "},\"id\":"@ + (match id {
        Some(id) => id,
        None => "null"@,
    }) + ",\"jsonrpc\":\"2.0\"}"@
}

/// The JSON text of an error with the given code, message and identifier, the latter two in JSON.
pub fn write_error(code: ErrorCode, message: &String, id: &Option<String>) -> (r: String)
    ensures
        r@ == error_json(code, message@, text_of(*id)),
{
    let start = "{\"error\":{\"code\":".to_owned().concat(code.to_decimal().as_str());
    let with_message = start.concat(",\"message\":").concat(message.as_str());
    let with_id_key = with_message.concat("},\"id\":");
    let with_id = match id {
        Some(id) => with_id_key.concat(id.as_str()),
        None => with_id_key.concat("null"),
    };
    with_id.concat(",\"jsonrpc\":\"2.0\"}")
}

/// The JSON text that `reply` is sent as.
pub fn error_payload(reply: &ErrorReply) -> (r: String)
    ensures
        r@ == error_json(reply.code, quoted_json(reply.message@), text_of(reply.id)),
{
    write_error(reply.code, &quote_json(&reply.message), &reply.id)
}

} // verus!
