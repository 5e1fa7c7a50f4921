//! The balancer: its start, its endpoints' health and cooldowns, its reloads and its status.

use azoth_balancer::balancer::{ClientSettings, LoadBalancer};
use azoth_balancer::config::{BalancerConfig, Config, ConfigError, EndpointConfig, ServerConfig};
use azoth_balancer::config_reloader::{create_rate_limiter, reload, reload_failure};
use azoth_balancer::cooldown::{backoff_secs, trigger_cooldown};
use azoth_balancer::endpoint::{
    EndpointMetrics, ErrorKind, LoadBalancerError, RequestOutcome, RpcEndpoint, Smoothing,
};
use azoth_balancer::health::{
    check_passed, CheckResult, CheckerAction, CheckerEvent, HealthChecker,
};

const SECOND: u64 = 1_000_000_000;
const START: u64 = 100 * SECOND;

/// The moving average with the configured weight of one fifth.
fn average(current: u64, new_value: u64, smoothing: Smoothing) -> u64 {
    let alpha = match smoothing {
        Smoothing::Configured => 0.2,
        Smoothing::FastDecay => 0.5,
        Smoothing::FastAttack => 0.8,
    };
    ((alpha * new_value as f64) + ((1.0 - alpha) * current as f64)).round() as u64
}

fn endpoint(url: &str, weight: u32) -> EndpointConfig {
    EndpointConfig {
        url: url.to_string(),
        rate_limit_per_sec: 10,
        burst_size: 5,
        weight: Some(weight),
    }
}

fn config(endpoints: Vec<EndpointConfig>) -> Config {
    Config {
        server: Some(ServerConfig { bind_addr: Some("127.0.0.1:9000".to_string()) }),
        balancer: Some(BalancerConfig {
            endpoints: Some(endpoints),
            base_cooldown_secs: Some(3),
            max_cooldown_secs: Some(60),
            timeout_secs: Some(7),
            ..Default::default()
        }),
    }
}

fn two_endpoints() -> LoadBalancer {
    let list = vec![endpoint("http://a.com", 100), endpoint("http://b.com", 60)];
    LoadBalancer::new(Some(config(list)), "config.toml".to_string(), START)
}

fn url(text: &str) -> String {
    text.to_string()
}

#[test]
fn a_balancer_starts_with_healthy_endpoints() {
    let balancer = two_endpoints();
    assert_eq!(balancer.bind_addr, "127.0.0.1:9000");
    assert_eq!(balancer.config_path, "config.toml");
    assert_eq!(balancer.max_concurrency, 50);
    assert_eq!(balancer.endpoints.len(), 2);
    let first = &balancer.endpoints[0];
    assert_eq!(first.url, "http://a.com");
    assert_eq!(first.weight, 100);
    assert_eq!(first.metrics.ema_latency_ms, 7000);
    assert_eq!(first.cooldown_attempts, 0);
    assert!(first.is_available(START));
    assert_eq!(balancer.update_healthy_count(START), 2);
}

#[test]
fn a_balancer_starts_without_configuration() {
    let balancer = LoadBalancer::new(None, url("missing.toml"), START);
    assert_eq!(balancer.bind_addr, "0.0.0.0:8549");
    assert_eq!(balancer.endpoints.len(), 4);
    assert_eq!(balancer.endpoints[3].url, "https://arbitrum.drpc.org");
    assert_eq!(balancer.endpoints[3].weight, 20);
}

#[test]
fn the_next_endpoint_is_noted_as_selected() {
    let mut balancer = two_endpoints();
    assert_eq!(balancer.get_next_endpoint(1, START, 1234), Some(url("http://a.com")));
    assert_eq!(balancer.endpoints[0].metrics.last_selected, 1234);
    assert_eq!(balancer.endpoints[1].metrics.last_selected, 0);
}

#[test]
fn batches_up_to_the_burst_size_find_room() {
    let mut balancer = two_endpoints();
    // A batch over the burst size fits nowhere.
    assert_eq!(balancer.get_next_endpoint(6, START, 1), None);
    // One of the burst size fits once into each limiter.
    assert_eq!(balancer.get_next_endpoint(5, START, 1), Some(url("http://a.com")));
    assert_eq!(balancer.get_next_endpoint(5, START, 1), Some(url("http://b.com")));
    assert_eq!(balancer.get_next_endpoint(5, START, 1), None);
    let selection = balancer.select_next(5, START, 1);
    assert_eq!(selection.attempts.len(), 2);
    assert!(selection.selected.is_none());
}

#[test]
fn rate_limited_endpoints_cool_down_for_longer_each_time() {
    let mut balancer = two_endpoints();
    assert_eq!(balancer.mark_rate_limited(&url("http://a.com"), START), Some(6));
    assert!(balancer.endpoints[0].healthy);
    assert!(!balancer.endpoints[0].is_available(START + 6 * SECOND - 1));
    assert!(balancer.endpoints[0].is_available(START + 6 * SECOND));
    assert_eq!(balancer.endpoints[0].cooldown_remaining_secs(START), 6);
    assert_eq!(balancer.endpoints[0].cooldown_remaining_secs(START + 1), 5);
    assert_eq!(balancer.endpoints[0].cooldown_remaining_secs(START + 6 * SECOND), 0);
    assert_eq!(balancer.mark_rate_limited(&url("http://a.com"), START), Some(12));
    assert_eq!(balancer.mark_rate_limited(&url("http://a.com"), START), Some(24));
    assert_eq!(balancer.mark_rate_limited(&url("http://a.com"), START), Some(48));
    assert_eq!(balancer.mark_rate_limited(&url("http://a.com"), START), Some(60));
    assert_eq!(balancer.endpoints[0].cooldown_attempts, 5);
    assert_eq!(balancer.mark_rate_limited(&url("http://other.com"), START), None);
    assert_eq!(balancer.update_healthy_count(START), 1);
    assert_eq!(balancer.get_next_endpoint(1, START, 1), Some(url("http://b.com")));
}

#[test]
fn unhealthy_endpoints_are_marked_once() {
    let mut balancer = two_endpoints();
    assert_eq!(balancer.mark_unhealthy(&url("http://a.com"), START), Some(6));
    assert_eq!(balancer.mark_unhealthy(&url("http://a.com"), START + SECOND), None);
    assert_eq!(balancer.endpoints[0].cooldown_attempts, 1);
    assert_eq!(balancer.endpoints[0].last_check, START);
    assert!(!balancer.endpoints[0].is_available(u64::MAX));
    assert_eq!(balancer.mark_unhealthy(&url("http://other.com"), START), None);
    assert_eq!(balancer.get_next_endpoint(1, u64::MAX, 1), Some(url("http://b.com")));
}

#[test]
fn backoff_is_capped() {
    assert_eq!(backoff_secs(3, 60, 1), 6);
    assert_eq!(backoff_secs(3, 60, 4), 48);
    assert_eq!(backoff_secs(3, 60, 5), 60);
    assert_eq!(backoff_secs(3, u64::MAX, 63), u64::MAX);
    assert_eq!(backoff_secs(1, u64::MAX, 63), 1 << 63);
    assert_eq!(backoff_secs(3, 60, 64), 60);
    assert_eq!(backoff_secs(3, 60, u32::MAX), 60);
    assert_eq!(backoff_secs(0, 60, 1000), 0);
    assert_eq!(backoff_secs(3, 0, 1), 0);
}

#[test]
fn attempts_do_not_overflow() {
    let mut balancer = two_endpoints();
    let ep: &mut RpcEndpoint = &mut balancer.endpoints[0];
    ep.cooldown_attempts = u32::MAX;
    assert_eq!(trigger_cooldown(ep, 3, 60, START), 60);
    assert_eq!(ep.cooldown_attempts, u32::MAX);
    assert_eq!(trigger_cooldown(ep, u64::MAX, u64::MAX, u64::MAX), u64::MAX);
    assert_eq!(ep.cooldown_remaining_secs(u64::MAX), i64::MAX);
}

#[test]
fn metrics_follow_outcomes() {
    let mut metrics = EndpointMetrics { ema_latency_ms: 1000, ..Default::default() };
    metrics.update(
        &RequestOutcome::Failure { error_kind: ErrorKind::RateLimit, latency_ms: 50 },
        &average,
    );
    assert_eq!(metrics.ema_latency_ms, 1000);
    assert_eq!(metrics.ema_error_penalty_ms, 8000);
    assert_eq!(metrics.consecutive_failures, 1);
    assert_eq!(metrics.get_total_cost(), 9000);
    metrics.update(&RequestOutcome::Success { latency_ms: 500 }, &average);
    assert_eq!(metrics.ema_latency_ms, 900);
    assert_eq!(metrics.ema_error_penalty_ms, 4000);
    assert_eq!(metrics.consecutive_failures, 0);
    metrics.recover(&average);
    assert_eq!(metrics.ema_error_penalty_ms, 2000);
}

#[test]
fn penalties_and_costs_have_floors() {
    let kinds = [
        (ErrorKind::Timeout, 30_000),
        (ErrorKind::ConnectionError, 20_000),
        (ErrorKind::Http5xx, 15_000),
        (ErrorKind::Http4xx, 5_000),
        (ErrorKind::RateLimit, 10_000),
    ];
    for (kind, base) in kinds {
        assert_eq!(EndpointMetrics::calculate_penalty(kind, 1), base);
        assert_eq!(EndpointMetrics::calculate_penalty(kind, 40_000), 40_000);
    }
    assert_eq!(EndpointMetrics::default().get_total_cost(), 1000);
    let full = EndpointMetrics {
        ema_latency_ms: u64::MAX,
        ema_error_penalty_ms: 1,
        consecutive_failures: u32::MAX,
        last_selected: 0,
    };
    assert_eq!(full.get_total_cost(), u64::MAX);
    let mut wrapped = full;
    wrapped.update(
        &RequestOutcome::Failure { error_kind: ErrorKind::Timeout, latency_ms: 0 },
        &average,
    );
    assert_eq!(wrapped.consecutive_failures, 0);
}

#[test]
fn failed_checks_take_endpoints_out_and_passed_ones_bring_them_back() {
    let mut balancer = two_endpoints();
    let round = vec![
        (url("http://a.com"), false),
        (url("http://b.com"), true),
        (url("http://gone.com"), false),
    ];
    let results = balancer.apply_health_checks(&round, START, &average);
    assert_eq!(
        results,
        vec![CheckResult::Failed { cooldown_secs: 6 }, CheckResult::Passed, CheckResult::Gone]
    );
    let a = &balancer.endpoints[0];
    assert!(!a.healthy);
    assert_eq!(a.metrics.ema_error_penalty_ms, 24_000);
    assert_eq!(a.metrics.consecutive_failures, 1);
    assert_eq!(a.cooldown_attempts, 1);

    let later = START + 30 * SECOND;
    let again = balancer.apply_health_check(&url("http://a.com"), false, later, &average);
    assert_eq!(again, CheckResult::StillFailing);
    assert_eq!(balancer.endpoints[0].cooldown_attempts, 1);
    assert_eq!(balancer.endpoints[0].metrics.consecutive_failures, 2);
    assert_eq!(balancer.endpoints[0].last_check, later);
    assert!(!balancer.endpoints[0].is_available(u64::MAX));

    let back = balancer.apply_health_check(&url("http://a.com"), true, later, &average);
    assert_eq!(back, CheckResult::Recovered);
    let a = &balancer.endpoints[0];
    assert!(a.is_available(later));
    assert_eq!(a.cooldown_attempts, 0);
    assert_eq!(a.metrics.consecutive_failures, 0);
    assert_eq!(a.metrics.ema_error_penalty_ms, 14_400);
}

#[test]
fn passed_checks_do_not_end_a_cooldown() {
    let mut balancer = two_endpoints();
    balancer.mark_rate_limited(&url("http://a.com"), START);
    let result = balancer.apply_health_check(&url("http://a.com"), true, START + 1, &average);
    assert_eq!(result, CheckResult::Passed);
    assert!(!balancer.endpoints[0].is_available(START + 1));
}

#[test]
fn checks_pass_on_success_only() {
    assert!(check_passed(Some(200)));
    assert!(check_passed(Some(299)));
    assert!(!check_passed(Some(199)));
    assert!(!check_passed(Some(300)));
    assert!(!check_passed(Some(429)));
    assert!(!check_passed(None));
}

#[test]
fn the_checker_follows_the_configured_interval() {
    let mut checker = HealthChecker { interval_secs: 30 };
    assert_eq!(checker.step(CheckerEvent::Tick, 30), CheckerAction::Check);
    assert_eq!(
        checker.step(CheckerEvent::Tick, 10),
        CheckerAction::RestartTicker { interval_secs: 10 }
    );
    assert_eq!(checker.step(CheckerEvent::Tick, 10), CheckerAction::Check);
    assert_eq!(checker.step(CheckerEvent::Shutdown, 5), CheckerAction::Exit);
    assert_eq!(checker.interval_secs, 10);
}

#[test]
fn addresses_are_listed_in_order() {
    assert_eq!(two_endpoints().endpoint_urls(), vec![url("http://a.com"), url("http://b.com")]);
}

#[test]
fn a_reload_keeps_state_and_reports_changes() {
    let mut balancer = two_endpoints();
    assert_eq!(balancer.get_next_endpoint(5, START, 77), Some(url("http://a.com")));
    balancer.mark_unhealthy(&url("http://b.com"), START);

    let mut changed = endpoint("http://b.com", 60);
    changed.burst_size = 8;
    let list = vec![endpoint("http://c.com", 10), changed, endpoint("http://a.com/", 100)];
    let response = balancer.reload_config(Ok(Some(config(list))), START + SECOND).unwrap();

    assert!(response.success);
    assert_eq!(response.message, "Configuration reloaded successfully");
    assert!(response.error.is_none());
    assert_eq!(response.changes.endpoints_added, vec![url("http://c.com")]);
    assert!(response.changes.endpoints_removed.is_empty());
    assert_eq!(response.changes.endpoints_modified, vec![url("http://b.com")]);
    assert!(response.changes.config_updated);
    assert!(!response.changes.client_rebuilt);

    let urls = balancer.endpoint_urls();
    assert_eq!(urls, vec![url("http://c.com"), url("http://b.com"), url("http://a.com")]);
    assert_eq!(balancer.endpoints[0].last_check, START + SECOND);
    assert!(!balancer.endpoints[1].healthy);
    assert_eq!(balancer.endpoints[1].burst_size, 8);
    assert_eq!(balancer.endpoints[2].metrics.last_selected, 77);
    // The limiter of the first endpoint is kept, so it has no room for another full batch, and
    // neither the second one, which is unhealthy, nor any but the new one can take it.
    assert_eq!(balancer.get_next_endpoint(5, START + SECOND, 78), Some(url("http://c.com")));
}

#[test]
fn a_reload_drops_what_is_not_configured() {
    let mut balancer = two_endpoints();
    let list = vec![endpoint("http://b.com", 60)];
    let response = reload(&mut balancer, Ok(Some(config(list))), START).unwrap();
    assert_eq!(response.changes.endpoints_removed, vec![url("http://a.com")]);
    assert_eq!(balancer.endpoints.len(), 1);
    assert_eq!(balancer.rate_limiters.check_n(&url("http://a.com"), 1), None);
    assert_eq!(balancer.rate_limiters.check_n(&url("http://b.com"), 1), Some(true));
}

#[test]
fn a_removed_address_is_named_once() {
    let mut balancer = two_endpoints();
    let again = balancer.endpoints[0].clone();
    balancer.endpoints.push(again);
    let list = vec![endpoint("http://b.com", 60)];
    let response = balancer.reload_config(Ok(Some(config(list))), START).unwrap();
    assert_eq!(response.changes.endpoints_removed, vec![url("http://a.com")]);
}

#[test]
fn a_reload_rebuilds_the_client_when_its_settings_change() {
    let mut balancer = two_endpoints();
    let mut next = config(vec![endpoint("http://a.com", 100), endpoint("http://b.com", 60)]);
    if let Some(settings) = next.balancer.as_mut() {
        settings.timeout_secs = Some(9);
        settings.max_batch_size = Some(3);
    }
    let response = balancer.reload_config(Ok(Some(next)), START).unwrap();
    assert!(response.changes.client_rebuilt);
    assert!(response.changes.endpoints_modified.is_empty());
    assert_eq!(
        balancer.client,
        ClientSettings {
            connect_timeout_ms: 500,
            timeout_secs: 9,
            pool_idle_timeout_secs: 20,
            pool_max_idle_per_host: 50,
        }
    );
    assert_eq!(balancer.settings.max_batch_size, 3);
    assert_eq!(balancer.bind_addr, "127.0.0.1:9000");
}

#[test]
fn reloading_the_same_configuration_changes_nothing() {
    let mut balancer = two_endpoints();
    balancer.mark_rate_limited(&url("http://a.com"), START);
    let before = format!("{:?}", balancer.endpoints);
    let list = vec![endpoint("http://a.com", 100), endpoint("http://b.com", 60)];
    let response = balancer.reload_config(Ok(Some(config(list))), START + SECOND).unwrap();
    assert_eq!(format!("{:?}", balancer.endpoints), before);
    assert!(response.changes.endpoints_added.is_empty());
    assert!(response.changes.endpoints_removed.is_empty());
    assert!(response.changes.endpoints_modified.is_empty());
    assert!(!response.changes.client_rebuilt);
}

#[test]
fn a_reload_without_a_file_takes_the_defaults() {
    let mut balancer = two_endpoints();
    let response = balancer.reload_config(Ok(None), START).unwrap();
    assert_eq!(response.changes.endpoints_added.len(), 4);
    assert_eq!(response.changes.endpoints_removed.len(), 2);
    assert_eq!(balancer.endpoints.len(), 4);
}

#[test]
fn a_failed_reload_changes_nothing() {
    let mut balancer = two_endpoints();
    let before = format!("{:?}", balancer.endpoints);
    let unreadable = Err(ConfigError::ConfigError("no such luck".to_string()));
    let err = balancer.reload_config(unreadable, START + 1).unwrap_err();
    assert_eq!(err.message(), "Configuration error: Configuration error: no such luck");
    let unusable = Ok(Some(config(vec![endpoint("ftp://a.com", 1)])));
    let err = balancer.reload_config(unusable, START + 1).unwrap_err();
    assert_eq!(
        err.message(),
        "Configuration error: Configuration error: No valid endpoints configured"
    );
    assert_eq!(format!("{:?}", balancer.endpoints), before);

    let response = reload_failure(&err);
    assert!(!response.success);
    assert_eq!(response.message, "Configuration reload failed");
    assert_eq!(
        response.error.unwrap(),
        "Configuration error: Configuration error: No valid endpoints configured"
    );
    assert!(!response.changes.config_updated);
    assert!(response.changes.endpoints_added.is_empty());
}

#[test]
fn limiters_hold_the_burst_and_no_more() {
    let mut limiter = create_rate_limiter(5, 1);
    assert!(!limiter.check_n(6));
    assert!(limiter.check_n(3));
    assert!(limiter.check_n(2));
    assert!(!limiter.check_n(1));
    let mut fast = create_rate_limiter(10_000, 100_000);
    assert!(!fast.check_n(10_001));
    assert!(fast.check_n(10_000));
}

#[test]
fn errors_have_texts() {
    let texts = [
        (LoadBalancerError::RateLimited(url("u")), "Rate limit exceeded for endpoint: u"),
        (LoadBalancerError::UpstreamError(url("r")), "Upstream error: r"),
        (LoadBalancerError::ConfigError(url("r")), "Configuration error: r"),
        (LoadBalancerError::BadRequest(url("r")), "Bad request: r"),
    ];
    for (err, text) in texts {
        assert_eq!(err.message(), text);
    }
    let err = LoadBalancerError::from(ConfigError::ConfigError(url("x")));
    assert!(matches!(
        err,
        LoadBalancerError::ConfigError(msg) if msg == "Configuration error: x"
    ));
}

#[test]
fn the_status_reports_everything() {
    let list = vec![
        endpoint("http://low.com", 10),
        endpoint("http://dear.com", 60),
        endpoint("http://cheap.com", 60),
        endpoint("http://recent.com", 60),
    ];
    let mut balancer = LoadBalancer::new(Some(config(list)), url("c.toml"), START);
    balancer.endpoints[1].metrics.ema_latency_ms = 9000;
    balancer.endpoints[2].metrics.last_selected = 50;
    balancer.endpoints[3].metrics.last_selected = 90;
    balancer.mark_rate_limited(&url("http://low.com"), START);

    let now = START + 3 * SECOND + 1;
    let status = balancer.get_status(now, 100);
    assert_eq!(status.bind_addr, "127.0.0.1:9000");
    assert_eq!(status.config_path, "c.toml");
    assert_eq!(status.total_endpoints, 4);
    assert_eq!(status.healthy_endpoints, 3);
    assert_eq!(status.balancer_settings, balancer.settings);
    assert_eq!(status.client_settings, balancer.client);

    let order: Vec<&str> = status.priority_info.iter().map(|s| s.url.as_str()).collect();
    assert_eq!(
        order,
        vec!["http://cheap.com", "http://recent.com", "http://dear.com", "http://low.com"]
    );
    let ranks: Vec<usize> = status.priority_info.iter().map(|s| s.priority_rank).collect();
    assert_eq!(ranks, vec![1, 2, 3, 4]);
    assert_eq!(status.priority_info[0].last_selected_secs_ago, 50);
    assert_eq!(status.priority_info[0].total_cost_ms, 7000);
    assert_eq!(status.priority_info[2].last_selected_secs_ago, 100);
    assert!(status.priority_info[3].in_cooldown);
    assert!(status.priority_info[3].healthy);
    assert!(!status.priority_info[3].available);
    assert_eq!(status.priority_info[3].cooldown_remaining_secs, 2);

    let low = &status.endpoints_details[0];
    assert_eq!(low.url, "http://low.com");
    assert_eq!(low.cooldown_attempts, 1);
    assert_eq!(low.last_check_secs_ago, 3);
    assert_eq!(low.rate_limit_per_sec, 10);
    assert_eq!(low.burst_size, 5);
    assert_eq!(low.weight, 10);
    let recent = &status.endpoints_details[3];
    assert_eq!(recent.last_selected_timestamp, 90);
    assert_eq!(recent.ema_latency_ms, 7000);
    assert_eq!(recent.ema_error_penalty_ms, 0);
    assert_eq!(recent.consecutive_failures, 0);
    // A clock that went back counts as no time.
    assert_eq!(balancer.get_status(0, 10).priority_info[0].last_selected_secs_ago, 0);
    assert_eq!(balancer.get_status(0, 10).endpoints_details[0].last_check_secs_ago, 0);
}
