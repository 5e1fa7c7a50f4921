//! Requests from clients, replies from endpoints, and the end of the program.

use azoth_balancer::balancer::LoadBalancer;
use azoth_balancer::config::{BalancerConfig, Config, EndpointConfig};
use azoth_balancer::endpoint::{ErrorKind, LoadBalancerError, RequestOutcome, Smoothing};
use azoth_balancer::forwarder::{
    classify_reply, is_success_status, non_success_error, response_has_error, Reply,
};
use azoth_balancer::rpc::{
    error_payload, error_reply, parse_request, precheck, read_request, write_error, Document,
    ErrorCode, ErrorReply, Member, Rejection, RpcRequest,
};
use azoth_balancer::shutdown::{
    on_task_event, timeout_message, ShutdownError, SignalEvent, SignalState, TaskAction, TaskEvent,
    Timeout, FORCE_WINDOW_SECS, GRACE_SECS,
};

const START: u64 = 100_000_000_000;

fn average(current: u64, new_value: u64, smoothing: Smoothing) -> u64 {
    let alpha = match smoothing {
        Smoothing::Configured => 0.1,
        Smoothing::FastDecay => 0.5,
        Smoothing::FastAttack => 0.8,
    };
    ((alpha * new_value as f64) + ((1.0 - alpha) * current as f64)).round() as u64
}

fn balancer() -> LoadBalancer {
    let endpoint = EndpointConfig {
        url: "http://a.com".to_string(),
        rate_limit_per_sec: 10,
        burst_size: 5,
        weight: None,
    };
    let config = Config {
        server: None,
        balancer: Some(BalancerConfig { endpoints: Some(vec![endpoint]), ..Default::default() }),
    };
    LoadBalancer::new(Some(config), "config.toml".to_string(), START)
}

fn url() -> String {
    "http://a.com".to_string()
}

#[test]
fn error_members_are_found_without_parsing() {
    assert!(!response_has_error(b""));
    assert!(!response_has_error(b"{\"jsonrpc\":\"2.0\",\"id\":1,\"result\":\"0x1\"}"));
    assert!(response_has_error(b"{\"id\":1,\"error\":{\"code\":-32000}}"));
    assert!(!response_has_error(b"{\"id\":1,\"error\":null}"));
    assert!(!response_has_error(b"{\"error\": \t\r\n null,\"result\":1}"));
    assert!(!response_has_error(b"{\"error\":\xa0\x85null}"));
    assert!(response_has_error(b"\"error\":"));
    assert!(response_has_error(b"\"error\": nul"));
    assert!(response_has_error(b"{\"error\" \"error\":1}"));
    assert!(!response_has_error(b"{\"error\" : 1}"));
    // In a reply the first one counts.
    assert!(!response_has_error(b"{\"error\":null,\"result\":{\"error\":1}}"));
    assert!(response_has_error(b"{\"error\":1,\"result\":{\"error\":null}}"));
    assert!(!response_has_error(b"{\"a\":[{\"error\":null},{\"error\":1}]}"));
    // Any of the replies to a batch counts, each by its first one.
    assert!(!response_has_error(b"[{\"error\":null,\"result\":{\"error\":1}}]"));
    assert!(!response_has_error(b" [{\"a\":\"[{\",\"error\":null,\"b\":[{\"error\":1}]},{\"id\":2}]"));
    assert!(response_has_error(b"[{\"id\":1,\"result\":{}},{\"id\":2,\"error\":{}}]"));
    assert!(response_has_error(b"[{\"error\":null},{\"error\":1}]"));
    assert!(response_has_error(
        b"[{\"id\":1,\"error\":null},{\"id\":2,\"error\":{\"code\":-32000}}]"
    ));
    assert!(!response_has_error(b"[{\"error\":null},{\"error\": null}]"));
    assert!(!response_has_error(b"error:"));
}

#[test]
fn success_is_the_two_hundreds() {
    assert!(!is_success_status(199));
    assert!(is_success_status(200));
    assert!(is_success_status(299));
    assert!(!is_success_status(300));
}

#[test]
fn replies_are_classified() {
    let kind = |code: u16| match classify_reply(&Reply::Status(code), 12, 5) {
        RequestOutcome::Failure { error_kind, latency_ms } => {
            assert_eq!(latency_ms, 12);
            Some(error_kind)
        }
        RequestOutcome::Success { latency_ms } => {
            assert_eq!(latency_ms, 12);
            None
        }
    };
    assert_eq!(kind(204), None);
    assert_eq!(kind(429), Some(ErrorKind::RateLimit));
    assert_eq!(kind(500), Some(ErrorKind::Http5xx));
    assert_eq!(kind(599), Some(ErrorKind::Http5xx));
    assert_eq!(kind(404), Some(ErrorKind::Http4xx));
    assert_eq!(kind(301), Some(ErrorKind::ConnectionError));
    assert_eq!(kind(600), Some(ErrorKind::ConnectionError));
    assert_eq!(
        classify_reply(&Reply::TimedOut("t".to_string()), 12, 5),
        RequestOutcome::Failure { error_kind: ErrorKind::Timeout, latency_ms: 5000 }
    );
    assert_eq!(
        classify_reply(&Reply::Failed("f".to_string()), 12, 5),
        RequestOutcome::Failure { error_kind: ErrorKind::ConnectionError, latency_ms: 12 }
    );
}

#[test]
fn successful_replies_lower_the_latency() {
    let mut balancer = balancer();
    let step = balancer.on_reply(&url(), Reply::Status(200), 100, START, &average);
    assert!(step.result.is_ok());
    assert!(step.cooldown_secs.is_none());
    assert_eq!(balancer.endpoints[0].metrics.ema_latency_ms, 4510);
    assert!(balancer.endpoints[0].is_available(START));
}

#[test]
fn refusals_start_a_cooldown() {
    let mut balancer = balancer();
    let step = balancer.on_reply(&url(), Reply::Status(429), 100, START, &average);
    assert!(matches!(
        step.result,
        Err(LoadBalancerError::RateLimited(at)) if at == "http://a.com"
    ));
    assert_eq!(step.cooldown_secs, Some(6));
    assert!(balancer.endpoints[0].healthy);
    assert!(balancer.endpoints[0].is_in_cooldown(START));
    assert_eq!(balancer.endpoints[0].metrics.ema_error_penalty_ms, 8000);
}

#[test]
fn failures_mark_the_endpoint_as_unhealthy() {
    let mut balancer = balancer();
    let step = balancer.on_reply(&url(), Reply::Status(404), 100, START, &average);
    assert_eq!(
        step.result.unwrap_err().message(),
        "Upstream error: Upstream returned non-success status: 404 Not Found"
    );
    assert_eq!(step.cooldown_secs, Some(6));
    assert!(!balancer.endpoints[0].healthy);
    // It is unhealthy already, so no other cooldown starts.
    let step = balancer.on_reply(&url(), Reply::Status(599), 100, START, &average);
    assert_eq!(
        step.result.unwrap_err().message(),
        "Upstream error: Upstream returned non-success status: 599 <unknown status code>"
    );
    assert_eq!(step.cooldown_secs, None);
}

#[test]
fn network_errors_are_handed_on() {
    let mut balancer = balancer();
    let timed_out = Reply::TimedOut("operation timed out".to_string());
    let step = balancer.on_reply(&url(), timed_out, 1, START, &average);
    assert!(matches!(
        step.result,
        Err(LoadBalancerError::UpstreamError(reason)) if reason == "operation timed out"
    ));
    assert_eq!(balancer.endpoints[0].metrics.ema_error_penalty_ms, 24_000);
    let failed = Reply::Failed("connection refused".to_string());
    let step = balancer.on_reply(&url(), failed, 1, START, &average);
    assert!(matches!(
        step.result,
        Err(LoadBalancerError::UpstreamError(reason)) if reason == "connection refused"
    ));
    assert_eq!(balancer.endpoints[0].metrics.consecutive_failures, 2);
}

#[test]
fn replies_from_endpoints_that_are_gone_change_nothing() {
    let mut balancer = balancer();
    let before = format!("{:?}", balancer.endpoints);
    let gone = "http://gone.com".to_string();
    let step = balancer.on_reply(&gone, Reply::Status(500), 1, START, &average);
    assert!(step.result.is_err());
    assert!(step.cooldown_secs.is_none());
    assert_eq!(format!("{:?}", balancer.endpoints), before);
}

#[test]
fn bodies_are_handed_on() {
    let mut balancer = balancer();
    let body = b"{\"result\":1}".to_vec();
    let step = balancer.on_body(&url(), Ok(body.clone()), START);
    assert_eq!(step.result.unwrap(), (body, true));
    let body = b"{\"error\":1}".to_vec();
    let step = balancer.on_body(&url(), Ok(body.clone()), START);
    assert_eq!(step.result.unwrap(), (body, false));
    assert!(balancer.endpoints[0].healthy);
    let step = balancer.on_body(&url(), Err("cut off".to_string()), START);
    assert_eq!(step.result.unwrap_err().message(), "Upstream error: cut off");
    assert_eq!(step.cooldown_secs, Some(6));
    assert!(!balancer.endpoints[0].healthy);
}

#[test]
fn statuses_are_shown_in_errors() {
    let err = non_success_error(&"418 I'm a teapot".to_string());
    assert_eq!(
        err.message(),
        "Upstream error: Upstream returned non-success status: 418 I'm a teapot"
    );
}

#[test]
fn large_bodies_are_rejected_unread() {
    let limit = 10 * 1024 * 1024;
    assert!(precheck(&vec![b' '; limit], 1).is_ok());
    let rejection = precheck(&vec![b' '; limit + 1], 1).unwrap_err();
    assert!(matches!(rejection, Rejection::BodyTooLarge));
    assert_eq!(rejection.status(), 413);
    assert!(rejection.message().is_none());
}

#[test]
fn large_batches_are_rejected_unread() {
    assert!(precheck(b" \t\r\n\x0c[{},{}]", 2).is_ok());
    let rejection = precheck(b" \t\r\n\x0c[{},{},{}]", 2).unwrap_err();
    assert!(matches!(rejection, Rejection::BatchTooLarge));
    assert_eq!(rejection.status(), 413);
    // What is nested in a request or stands in a string does not count.
    assert!(precheck(b"[{\"id\":1,\"method\":\"eth_call\",\"params\":[{}]}]", 1).is_ok());
    assert!(precheck(b"[{\"a\":{\"b\":{}}},{\"c\":[[{}]]}]", 2).is_ok());
    assert!(precheck(b"[{\"a\":\"{\\\"{[\"},\"{{\"]", 1).is_ok());
    assert!(precheck(b"[{\"a\":\"\\\\\"},{}]", 1).is_err());
    assert!(precheck(b"[[{},{}],1,{}]", 1).is_ok());
    let calls = vec!["{\"id\":1,\"params\":[{\"to\":\"0x0\"}]}"; 60].join(",");
    assert!(precheck(format!("[{}]", calls).as_bytes(), 100).is_ok());
    assert!(precheck(format!("[{}]", calls).as_bytes(), 60).is_ok());
    assert!(precheck(format!("[{}]", calls).as_bytes(), 59).is_err());
    // Requests are counted in batches only.
    assert!(precheck(b"{{{{{{", 2).is_ok());
    assert!(precheck(b"", 2).is_ok());
    assert!(precheck(b"x[{{{", 2).is_ok());
    assert!(precheck(b"\x0b[{{{", 2).is_ok());
}

#[test]
fn single_requests_are_read() {
    let body = b"{\"jsonrpc\":\"2.0\",\"method\":\"eth_call\",\"params\":[{\"a\":1}],\"id\":\"x\\u0041\"}";
    let request = parse_request(body, 1).unwrap();
    assert!(!request.is_batch);
    assert_eq!(request.batch_size, 1);
    assert_eq!(request.method_label, "eth_call");
    assert_eq!(request.id.unwrap(), "\"xA\"");

    let request = parse_request(b"{\"method\":7,\"id\":[1, 2]}", 1).unwrap();
    assert_eq!(request.method_label, "unknown");
    assert_eq!(request.id.unwrap(), "[1,2]");

    let request = parse_request(b"{}", 1).unwrap();
    assert_eq!(request.method_label, "unknown");
    assert!(request.id.is_none());
}

#[test]
fn other_documents_count_as_one_request() {
    for body in ["null", "true", "12.5", "\"method\""] {
        let request = parse_request(body.as_bytes(), 1).unwrap();
        assert!(!request.is_batch);
        assert_eq!(request.batch_size, 1);
        assert_eq!(request.method_label, "unknown");
        assert!(request.id.is_none());
    }
}

#[test]
fn batches_are_read() {
    let request = parse_request(b"[{\"id\":1},{\"id\":2}]", 2).unwrap();
    assert!(request.is_batch);
    assert_eq!(request.batch_size, 2);
    assert_eq!(request.method_label, "batch");
    assert!(request.id.is_none());

    let rejection = parse_request(b"[1,2,3]", 2).unwrap_err();
    assert!(matches!(rejection, Rejection::BatchTooLarge));

    let rejection = parse_request(b"[]", 2).unwrap_err();
    assert_eq!(rejection.status(), 400);
    assert_eq!(rejection.message().unwrap(), "Bad request: Empty batch is not allowed");
}

#[test]
fn text_that_is_not_json_is_rejected() {
    let rejection = parse_request(b"{\"a\":", 2).unwrap_err();
    assert_eq!(rejection.status(), 400);
    assert_eq!(
        rejection.message().unwrap(),
        "Bad request: Failed to parse JSON body: EOF while parsing a value at line 1 column 5"
    );
}

#[test]
fn parsed_documents_are_read() {
    let member = |key: &str, json: &str, text: Option<&str>| Member {
        key: key.to_string(),
        json: json.to_string(),
        text: text.map(|t| t.to_string()),
    };
    let document = Document::Object(vec![
        member("id", "7", None),
        member("method", "\"m\"", Some("m")),
        member("method", "\"n\"", Some("n")),
    ]);
    let request = read_request(Ok(document), 1).unwrap();
    assert_eq!(request.method_label, "m");
    assert_eq!(request.id.unwrap(), "7");
    let rejection = read_request(Err("why".to_string()), 1).unwrap_err();
    assert_eq!(rejection.message().unwrap(), "Bad request: Failed to parse JSON body: why");
    let items = Document::Array(vec!["1".to_string(), "2".to_string()]);
    assert_eq!(read_request(Ok(items), 2).unwrap().batch_size, 2);
    for document in [
        Document::Null,
        Document::Bool(false),
        Document::Number("1".to_string()),
        Document::Text("method".to_string()),
    ] {
        assert_eq!(read_request(Ok(document), 1).unwrap().method_label, "unknown");
    }
}

#[test]
fn requests_go_to_an_endpoint() {
    let mut balancer = balancer();
    let request = parse_request(b"[1,2,3]", 5).unwrap();
    let route = balancer.route(&request, START, 12);
    assert_eq!(route.endpoint.unwrap(), "http://a.com");
    assert_eq!(route.selection.selected, Some(0));
    assert_eq!(balancer.endpoints[0].metrics.last_selected, 12);
    // The limiter has no room for three more.
    let route = balancer.route(&request, START, 13);
    assert!(matches!(route.endpoint, Err(Rejection::NoEndpoint)));
    assert_eq!(route.selection.attempts.len(), 1);
    assert_eq!(balancer.endpoints[0].metrics.last_selected, 12);
    balancer.mark_unhealthy(&url(), START);
    let single = parse_request(b"{}", 5).unwrap();
    let route = balancer.route(&single, START, 14);
    assert!(matches!(route.endpoint, Err(Rejection::NoEndpoint)));
    assert!(route.selection.attempts.is_empty());
}

#[test]
fn no_endpoint_means_service_unavailable() {
    assert_eq!(Rejection::NoEndpoint.status(), 503);
    assert!(Rejection::NoEndpoint.message().is_none());
}

#[test]
fn failures_are_answered_with_an_error() {
    let request = RpcRequest {
        is_batch: false,
        batch_size: 1,
        method_label: "m".to_string(),
        id: Some("7".to_string()),
    };
    let reply = error_reply(&LoadBalancerError::RateLimited(url()), &request);
    assert_eq!(reply.code.number(), -32000);
    assert_eq!(reply.message, "http://a.com");
    assert_eq!(reply.id.unwrap(), "7");
    let reply = error_reply(&LoadBalancerError::UpstreamError("broken".to_string()), &request);
    assert_eq!(reply.code.number(), -32603);
    assert_eq!(reply.message, "broken");
    let reply = error_reply(&LoadBalancerError::ConfigError("secret".to_string()), &request);
    assert_eq!(reply.code.number(), -32603);
    assert_eq!(reply.message, "Internal server error");
    let batch = RpcRequest { is_batch: true, ..request };
    assert!(error_reply(&LoadBalancerError::BadRequest("x".to_string()), &batch).id.is_none());
}

fn object(members: Vec<(&str, serde_json::Value)>) -> serde_json::Value {
    members.into_iter().map(|(key, value)| (key.to_string(), value)).collect()
}

#[test]
fn errors_are_written_as_json() {
    let replies = [
        (ErrorCode::RateLimited, "http://a.com", Some("7")),
        (ErrorCode::Internal, "line\n \"quoted\" \\ \u{1} \u{e9}", Some("\"x\"")),
        (ErrorCode::Internal, "", None),
        (ErrorCode::RateLimited, "m", Some("{\"a\":[1,null]}")),
    ];
    for (code, message, id) in replies {
        let reply = ErrorReply {
            code,
            message: message.to_string(),
            id: id.map(|id| id.to_string()),
        };
        let id = match id {
            Some(id) => serde_json::from_str(id).unwrap(),
            None => serde_json::Value::Null,
        };
        let error = object(vec![
            ("code", serde_json::Value::from(code.number())),
            ("message", serde_json::Value::from(message)),
        ]);
        let expected = object(vec![
            ("jsonrpc", serde_json::Value::from("2.0")),
            ("error", error),
            ("id", id),
        ]);
        assert_eq!(error_payload(&reply), expected.to_string());
        assert_eq!(code.to_decimal(), code.number().to_string());
    }
    let reply = ErrorReply {
        code: ErrorCode::Internal,
        message: "\"\\/\u{0}\u{7}\u{8}\t\n\u{b}\u{c}\r\u{e}\u{1f} ~\u{7f}\u{80}\u{1f600}".to_string(),
        id: None,
    };
    let quoted = "\"\\\"\\\\/\\u0000\\u0007\\b\\t\\n\\u000b\\f\\r\\u000e\\u001f ~\u{7f}\u{80}\u{1f600}\"";
    assert_eq!(
        error_payload(&reply),
        format!("{{\"error\":{{\"code\":-32603,\"message\":{}}},\"id\":null,\"jsonrpc\":\"2.0\"}}", quoted)
    );
    assert_eq!(
        write_error(ErrorCode::Internal, &"\"m\"".to_string(), &None),
        "{\"error\":{\"code\":-32603,\"message\":\"m\"},\"id\":null,\"jsonrpc\":\"2.0\"}"
    );
}

const TIMEOUT: Timeout = Timeout { secs: 0, nanos: 100_000_000 };

#[test]
fn tasks_are_waited_for_until_none_is_left() {
    assert!(matches!(on_task_event(TaskEvent::Finished, TIMEOUT), TaskAction::Wait));
    assert!(matches!(on_task_event(TaskEvent::NoneLeft, TIMEOUT), TaskAction::Stop(Ok(()))));
}

#[test]
fn panics_are_propagated() {
    let action = on_task_event(TaskEvent::Failed("boom".to_string()), TIMEOUT);
    let TaskAction::Stop(Err(err)) = action else { panic!("waiting goes on") };
    assert!(matches!(&err, ShutdownError::Panic(shown) if shown == "boom"));
    assert_eq!(err.message(), "A background task panicked during shutdown");
}

#[test]
fn timeouts_abort_the_tasks() {
    let TaskAction::Abort(err) = on_task_event(TaskEvent::TimedOut, TIMEOUT) else {
        panic!("waiting goes on")
    };
    assert!(matches!(err, ShutdownError::Timeout(TIMEOUT)));
    assert_eq!(err.message(), "Graceful shutdown timed out after 100ms");
    let long = ShutdownError::Timeout(Timeout { secs: GRACE_SECS, nanos: 0 });
    assert_eq!(long.message(), "Graceful shutdown timed out after 30s");
    assert_eq!(timeout_message(&"ages".to_string()), "Graceful shutdown timed out after ages");
}

#[test]
fn a_second_interrupt_forces_the_end() {
    let once = SignalState::Running.on_signal(SignalEvent::Interrupt);
    assert_eq!(once, SignalState::Interrupted);
    assert_eq!(once.on_signal(SignalEvent::Terminate), SignalState::Interrupted);
    let forced = once.on_signal(SignalEvent::Interrupt);
    assert_eq!(forced, SignalState::Ending { force: true });
    assert_eq!(forced.on_signal(SignalEvent::WindowClosed), forced);
    assert_eq!(FORCE_WINDOW_SECS, 10);
}

#[test]
fn other_signals_end_gracefully() {
    let graceful = SignalState::Ending { force: false };
    let once = SignalState::Running.on_signal(SignalEvent::Interrupt);
    assert_eq!(once.on_signal(SignalEvent::WindowClosed), graceful);
    assert_eq!(SignalState::Running.on_signal(SignalEvent::Terminate), graceful);
    assert_eq!(SignalState::Running.on_signal(SignalEvent::WindowClosed), SignalState::Running);
    // A request to terminate while the window is open changes nothing.
    let events = [SignalEvent::Interrupt, SignalEvent::Terminate, SignalEvent::WindowClosed];
    let told = events.iter().fold(SignalState::Running, |state, event| state.on_signal(*event));
    assert_eq!(told, graceful);
    // Two interrupts with the window closed in between do not force the end.
    let events = [SignalEvent::Interrupt, SignalEvent::WindowClosed, SignalEvent::Interrupt];
    let told = events.iter().fold(SignalState::Running, |state, event| state.on_signal(*event));
    assert_eq!(told, graceful);
}
