//! What happens to one endpoint, field by field.

use vstd::arithmetic::power2::{lemma_pow2_unfold, pow2};
use vstd::prelude::*;

use crate::balancer::{
    available_count, cooldown_of, rate_limited_state, recorded, unhealthy_state, LoadBalancerView,
};
use crate::endpoint::{
    penalty, EndpointMetrics, ErrorKind, RequestOutcome, RpcEndpointView, Smoothing,
};
use crate::laws::cooldown::law_cooldown_bounded;
use crate::laws::reload::{in_use_at, lemma_endpoint_in_use, not_in_use};
use crate::utils::cooldown::{backoff, cooled_down};
use crate::utils::health::{health_checked, CheckResult};

verus! {

/// An endpoint is in a cooldown until the time at which the cooldown ends, and can be used if it is
/// healthy and in no cooldown. What remains of a cooldown is counted in whole seconds.
pub proof fn law_cooldown_by_clock(endpoint: RpcEndpointView, now: u64)
    ensures
        endpoint.cooldown_until is None ==> !endpoint.in_cooldown(now)
            && endpoint.cooldown_remaining(now) == 0,
        endpoint.cooldown_until matches Some(until) ==> {
            &&& endpoint.in_cooldown(now) <==> now < until
            &&& now >= until ==> endpoint.cooldown_remaining(now) == 0
            &&& now < until ==> endpoint.cooldown_remaining(now) * 1_000_000_000 <= until - now < (
            endpoint.cooldown_remaining(now) + 1) * 1_000_000_000
        },
        endpoint.available(now) <==> endpoint.healthy && (endpoint.cooldown_until is None
            || endpoint.cooldown_until.unwrap() <= now),
{
}

/// The number of endpoints that can be used counts each that is healthy and in no cooldown once.
pub proof fn law_available_are_counted(
    endpoints: Seq<RpcEndpointView>,
    endpoint: RpcEndpointView,
    now: u64,
)
    ensures
        available_count(Seq::empty(), now) == 0,
        available_count(endpoints.push(endpoint), now) == available_count(endpoints, now) + (
        if endpoint.healthy && (endpoint.cooldown_until is None || endpoint.cooldown_until.unwrap()
            <= now) {
            1int
        } else {
            0
        }),
{
    reveal(Seq::filter);
    assert(endpoints.push(endpoint).drop_last() == endpoints);
}

/// Using an endpoint costs its latency and its penalty added up: the sum itself where it is at
/// least 1000 and fits, so that one millisecond more of either costs one millisecond more.
pub proof fn law_cost_adds_up(metrics: EndpointMetrics)
    ensures
        metrics.ema_latency_ms + metrics.ema_error_penalty_ms <= 1000 ==> metrics.total_cost()
            == 1000,
        1000 <= metrics.ema_latency_ms + metrics.ema_error_penalty_ms <= u64::MAX
            ==> metrics.total_cost() == metrics.ema_latency_ms + metrics.ema_error_penalty_ms,
        metrics.ema_latency_ms + metrics.ema_error_penalty_ms >= u64::MAX ==> metrics.total_cost()
            == u64::MAX,
{
}

/// A failure is penalized by the seconds that its kind counts for, or by its latency if that is
/// longer: 30 for a timeout, 20 for a failed connection, 15 for a fault of the server, 10 for a
/// refused rate and 5 for a fault of the client.
pub proof fn law_penalty_by_kind(error_kind: ErrorKind, latency_ms: u64)
    ensures
        ({
            let base: int = match error_kind {
                ErrorKind::Timeout => 30_000,
                ErrorKind::ConnectionError => 20_000,
                ErrorKind::Http5xx => 15_000,
                ErrorKind::RateLimit => 10_000,
                ErrorKind::Http4xx => 5_000,
            };
            &&& latency_ms <= base ==> penalty(error_kind, latency_ms) == base
            &&& latency_ms >= base ==> penalty(error_kind, latency_ms) == latency_ms
        }),
{
}

/// How a request ended changes the metrics: a success moves the latency toward its own with the
/// configured weight, lets the penalty fade by the fast decay and ends the row of failures; a
/// failure moves the penalty toward its own by the fast attack, leaves the latency as it is and
/// adds one to the row of failures. When the endpoint was selected stays as it is.
pub proof fn law_metrics_by_outcome<F: Fn(u64, u64, Smoothing) -> u64>(
    metrics: EndpointMetrics,
    outcome: RequestOutcome,
    average: F,
    next: EndpointMetrics,
)
    requires
        metrics.updated(outcome, average, next),
    ensures
        next.last_selected == metrics.last_selected,
        outcome matches RequestOutcome::Success { latency_ms } ==> {
            &&& next.consecutive_failures == 0
            &&& call_ensures(
                average,
                (metrics.ema_latency_ms, latency_ms, Smoothing::Configured),
                next.ema_latency_ms,
            )
            &&& call_ensures(
                average,
                (metrics.ema_error_penalty_ms, 0u64, Smoothing::FastDecay),
                next.ema_error_penalty_ms,
            )
        },
        outcome matches RequestOutcome::Failure { error_kind, latency_ms } ==> {
            &&& next.ema_latency_ms == metrics.ema_latency_ms
            &&& metrics.consecutive_failures < u32::MAX ==> next.consecutive_failures
                == metrics.consecutive_failures + 1
            &&& metrics.consecutive_failures == u32::MAX ==> next.consecutive_failures == 0
            &&& ({
                let base: u64 = match error_kind {
                    ErrorKind::Timeout => 30_000,
                    ErrorKind::ConnectionError => 20_000,
                    ErrorKind::Http5xx => 15_000,
                    ErrorKind::RateLimit => 10_000,
                    ErrorKind::Http4xx => 5_000,
                };
                let value: u64 = if latency_ms > base {
                    latency_ms
                } else {
                    base
                };
                call_ensures(
                    average,
                    (metrics.ema_error_penalty_ms, value, Smoothing::FastAttack),
                    next.ema_error_penalty_ms,
                )
            })
        },
{
}

/// Without a cooldown before it a cooldown lasts the base, and each further one in a row twice as
/// long as the one before, all of them no longer than the maximum.
pub proof fn law_backoff_by_row(base_secs: u64, max_secs: u64, attempts: u32)
    ensures
        backoff(base_secs, max_secs, 0) == (if base_secs < max_secs {
            base_secs
        } else {
            max_secs
        }),
        attempts < u32::MAX ==> backoff(base_secs, max_secs, (attempts + 1) as u32) == (if 2
            * backoff(base_secs, max_secs, attempts) < max_secs {
            2 * backoff(base_secs, max_secs, attempts)
        } else {
            max_secs as int
        }),
{
    vstd::arithmetic::power2::lemma2_to64();
    assert(base_secs * pow2(0) == base_secs);
    if attempts < u32::MAX {
        lemma_pow2_unfold((attempts + 1) as nat);
        let a = pow2(attempts as nat);
        assert(base_secs * (2 * a) == 2 * (base_secs * a)) by (nonlinear_arith);
        assert(0 <= base_secs * a) by (nonlinear_arith);
    }
}

/// `after` is the endpoint `before` with a cooldown that started at the time `now`, one more in a
/// row, of twice the base for the first in a row.
pub open spec fn cooldown_started(
    before: RpcEndpointView,
    base_secs: u64,
    max_secs: u64,
    now: u64,
    after: RpcEndpointView,
) -> bool {
    &&& after.last_check == now
    &&& before.cooldown_attempts < u32::MAX ==> after.cooldown_attempts == before.cooldown_attempts
        + 1
    &&& before.cooldown_attempts == u32::MAX ==> after.cooldown_attempts == u32::MAX
    &&& after.cooldown_until is Some
    &&& after.cooldown_until.unwrap() == now + backoff(
        base_secs,
        max_secs,
        after.cooldown_attempts,
    ) * 1_000_000_000
    &&& before.cooldown_attempts == 0 ==> after.cooldown_until.unwrap() == now + (if 2 * base_secs
        < max_secs {
        2 * base_secs
    } else {
        max_secs as int
    }) * 1_000_000_000
    &&& after.url == before.url
    &&& after.rate_limit_per_sec == before.rate_limit_per_sec
    &&& after.burst_size == before.burst_size
    &&& after.weight == before.weight
}

/// A cooldown starts at the time it is asked for, counts as one more in a row, and leaves the
/// health, the metrics and the configuration of the endpoint as they are.
pub proof fn law_cooldown_starts(
    endpoint: RpcEndpointView,
    base_secs: u64,
    max_secs: u64,
    now: u64,
)
    ensures
        cooldown_started(
            endpoint,
            base_secs,
            max_secs,
            now,
            cooled_down(endpoint, base_secs, max_secs, now),
        ),
        cooled_down(endpoint, base_secs, max_secs, now).healthy == endpoint.healthy,
        cooled_down(endpoint, base_secs, max_secs, now).metrics == endpoint.metrics,
{
    let after = cooled_down(endpoint, base_secs, max_secs, now);
    law_cooldown_bounded(base_secs, max_secs, after.cooldown_attempts);
    law_backoff_by_row(base_secs, max_secs, 0);
    let secs = backoff(base_secs, max_secs, after.cooldown_attempts);
    assert(now + secs * 1_000_000_000 <= u128::MAX);
}

/// The two states have the same settings and the same limiters, and the same endpoints but for the
/// `k`th.
pub open spec fn same_but_endpoint(
    before: LoadBalancerView,
    after: LoadBalancerView,
    k: int,
) -> bool {
    &&& after.endpoints.len() == before.endpoints.len()
    &&& forall|j: int|
        0 <= j < before.endpoints.len() && j != k ==> (#[trigger] after.endpoints[j])
            == before.endpoints[j]
    &&& after.rate_limiters == before.rate_limiters
    &&& after.bind_addr == before.bind_addr
    &&& after.settings == before.settings
    &&& after.client == before.client
    &&& after.max_concurrency == before.max_concurrency
    &&& after.config_path == before.config_path
}

/// An endpoint that refused a request because it was sent too many starts a cooldown and stays as
/// healthy as it was. One that was found unhealthy is unhealthy from then on and starts a cooldown,
/// unless it was known to be unhealthy: then nothing changes. Nothing else of the balancer changes.
pub proof fn law_marked_endpoint(state: LoadBalancerView, url: Seq<char>, now: u64, k: int)
    requires
        in_use_at(state.endpoints, url, k),
    ensures
        ({
            let before = state.endpoints[k];
            let after = rate_limited_state(state, url, now);
            &&& same_but_endpoint(state, after, k)
            &&& cooldown_started(
                before,
                state.settings.base_cooldown_secs,
                state.settings.max_cooldown_secs,
                now,
                after.endpoints[k],
            )
            &&& after.endpoints[k].healthy == before.healthy
            &&& after.endpoints[k].metrics == before.metrics
            &&& after.endpoints[k].cooldown_until.unwrap() == now + cooldown_of(state, k)
                * 1_000_000_000
        }),
        ({
            let before = state.endpoints[k];
            let after = unhealthy_state(state, url, now);
            &&& same_but_endpoint(state, after, k)
            &&& !after.endpoints[k].healthy
            &&& after.endpoints[k].metrics == before.metrics
            &&& before.healthy ==> cooldown_started(
                before,
                state.settings.base_cooldown_secs,
                state.settings.max_cooldown_secs,
                now,
                after.endpoints[k],
            )
            &&& !before.healthy ==> after.endpoints[k] == before
        }),
{
    lemma_endpoint_in_use(state.endpoints, url, k);
    law_cooldown_starts(
        state.endpoints[k],
        state.settings.base_cooldown_secs,
        state.settings.max_cooldown_secs,
        now,
    );
}

/// Nothing that is said of an address that is not in use changes anything.
pub proof fn law_unknown_address_ignored<F: Fn(u64, u64, Smoothing) -> u64>(
    state: LoadBalancerView,
    url: Seq<char>,
    now: u64,
    outcome: RequestOutcome,
    healthy: bool,
    average: F,
    result: CheckResult,
    after: LoadBalancerView,
)
    requires
        not_in_use(state.endpoints, url),
    ensures
        rate_limited_state(state, url, now) == state,
        unhealthy_state(state, url, now) == state,
        recorded(state, url, outcome, average, after) ==> after == state,
        health_checked(state, url, healthy, now, average, result, after) ==> after == state && result
            == CheckResult::Gone,
{
    lemma_endpoint_in_use(state.endpoints, url, 0);
}

/// Taking note of how a request ended changes the metrics of the endpoint that it went to, and
/// nothing else.
pub proof fn law_recorded_outcome<F: Fn(u64, u64, Smoothing) -> u64>(
    state: LoadBalancerView,
    url: Seq<char>,
    outcome: RequestOutcome,
    average: F,
    after: LoadBalancerView,
    k: int,
)
    requires
        recorded(state, url, outcome, average, after),
        in_use_at(state.endpoints, url, k),
    ensures
        same_but_endpoint(state, after, k),
        state.endpoints[k].metrics.updated(outcome, average, after.endpoints[k].metrics),
        after.endpoints[k].url == state.endpoints[k].url,
        after.endpoints[k].healthy == state.endpoints[k].healthy,
        after.endpoints[k].last_check == state.endpoints[k].last_check,
        after.endpoints[k].cooldown_until == state.endpoints[k].cooldown_until,
        after.endpoints[k].cooldown_attempts == state.endpoints[k].cooldown_attempts,
        after.endpoints[k].rate_limit_per_sec == state.endpoints[k].rate_limit_per_sec,
        after.endpoints[k].burst_size == state.endpoints[k].burst_size,
        after.endpoints[k].weight == state.endpoints[k].weight,
{
    lemma_endpoint_in_use(state.endpoints, url, k);
}

/// What a health check makes of an endpoint and what it comes to. The endpoint is as healthy as it
/// was found and counts as checked now. One that fails gets the penalty of a timeout of as many
/// milliseconds as the check waits, and starts a cooldown only if it was healthy before, of the
/// seconds that are reported. One that recovers is in no cooldown, with no row of failures or
/// cooldowns, and its penalty fades by the fast decay. One that stays healthy keeps its metrics and
/// its cooldown. Nothing else of the balancer changes.
pub proof fn law_health_check_by_fields<F: Fn(u64, u64, Smoothing) -> u64>(
    state: LoadBalancerView,
    url: Seq<char>,
    healthy: bool,
    now: u64,
    average: F,
    result: CheckResult,
    after: LoadBalancerView,
    k: int,
)
    requires
        health_checked(state, url, healthy, now, average, result, after),
        in_use_at(state.endpoints, url, k),
    ensures
        same_but_endpoint(state, after, k),
        ({
            let old_one = state.endpoints[k];
            let new_one = after.endpoints[k];
            &&& new_one.healthy == healthy
            &&& new_one.last_check == now
            &&& new_one.url == old_one.url
            &&& new_one.rate_limit_per_sec == old_one.rate_limit_per_sec
            &&& new_one.burst_size == old_one.burst_size
            &&& new_one.weight == old_one.weight
            &&& new_one.metrics.last_selected == old_one.metrics.last_selected
            &&& old_one.healthy && healthy ==> {
                &&& result == CheckResult::Passed
                &&& new_one.metrics == old_one.metrics
                &&& new_one.cooldown_until == old_one.cooldown_until
                &&& new_one.cooldown_attempts == old_one.cooldown_attempts
            }
            &&& !old_one.healthy && healthy ==> {
                &&& result == CheckResult::Recovered
                &&& new_one.metrics.consecutive_failures == 0
                &&& new_one.metrics.ema_latency_ms == old_one.metrics.ema_latency_ms
                &&& call_ensures(
                    average,
                    (old_one.metrics.ema_error_penalty_ms, 0u64, Smoothing::FastDecay),
                    new_one.metrics.ema_error_penalty_ms,
                )
                &&& new_one.cooldown_until is None
                &&& new_one.cooldown_attempts == 0
            }
            &&& !healthy && state.settings.health_check_timeout_secs * 1000 <= u64::MAX
                ==> old_one.metrics.updated(
                RequestOutcome::Failure {
                    error_kind: ErrorKind::Timeout,
                    latency_ms: (state.settings.health_check_timeout_secs * 1000) as u64,
                },
                average,
                new_one.metrics,
            )
            &&& old_one.healthy && !healthy ==> {
                &&& cooldown_started(
                    old_one,
                    state.settings.base_cooldown_secs,
                    state.settings.max_cooldown_secs,
                    now,
                    new_one,
                )
                &&& result matches CheckResult::Failed { cooldown_secs }
                    && new_one.cooldown_until.unwrap() == now + cooldown_secs * 1_000_000_000
            }
            &&& !old_one.healthy && !healthy ==> {
                &&& result == CheckResult::StillFailing
                &&& new_one.cooldown_until == old_one.cooldown_until
                &&& new_one.cooldown_attempts == old_one.cooldown_attempts
            }
        }),
{
    lemma_endpoint_in_use(state.endpoints, url, k);
    let base: u64 = state.settings.base_cooldown_secs;
    let max: u64 = state.settings.max_cooldown_secs;
    let old_one = state.endpoints[k];
    let new_one = after.endpoints[k];
    law_cooldown_starts(
        RpcEndpointView { healthy, last_check: now, metrics: new_one.metrics, ..old_one },
        base,
        max,
        now,
    );
    law_cooldown_bounded(base, max, new_one.cooldown_attempts);
}

} // verus!
