//! Cooldowns grow, stay bounded and end; costs have a floor.

use vstd::arithmetic::power2::{lemma_pow2_strictly_increases, lemma_pow2_unfold, pow2};
use vstd::prelude::*;

use crate::endpoint::{
    penalty, EndpointMetrics, ErrorKind, RpcEndpointView, MIN_TOTAL_COST_MS,
};
use crate::limiter::NANOS_PER_SEC;
use crate::utils::cooldown::{backoff, cooled_down, next_attempts};

verus! {

/// A cooldown never lasts longer than the configured maximum.
pub proof fn law_cooldown_bounded(base_secs: u64, max_secs: u64, attempts: u32)
    ensures
        0 <= backoff(base_secs, max_secs, attempts) <= max_secs,
{
    assert(0 <= base_secs * pow2(attempts as nat)) by (nonlinear_arith);
}

/// The more cooldowns in a row, the longer they last.
pub proof fn law_cooldown_grows(base_secs: u64, max_secs: u64, fewer: u32, more: u32)
    requires
        fewer <= more,
    ensures
        backoff(base_secs, max_secs, fewer) <= backoff(base_secs, max_secs, more),
{
    if fewer < more {
        lemma_pow2_strictly_increases(fewer as nat, more as nat);
    }
    let a = pow2(fewer as nat);
    let b = pow2(more as nat);
    assert(base_secs * a <= base_secs * b) by (nonlinear_arith)
        requires
            a <= b,
    ;
}

/// Until it reaches the maximum, a cooldown lasts twice as long as the one before.
pub proof fn law_cooldown_doubles(base_secs: u64, max_secs: u64, attempts: u32)
    requires
        attempts < u32::MAX,
        backoff(base_secs, max_secs, (attempts + 1) as u32) < max_secs,
    ensures
        backoff(base_secs, max_secs, (attempts + 1) as u32) == 2 * backoff(
            base_secs,
            max_secs,
            attempts,
        ),
{
    lemma_pow2_unfold((attempts + 1) as nat);
    let a = pow2(attempts as nat);
    assert(base_secs * (2 * a) == 2 * (base_secs * a)) by (nonlinear_arith);
    assert(0 <= base_secs * a) by (nonlinear_arith);
}

/// An endpoint whose cooldown started at the time `now` is not used before the cooldown ends, and
/// from then on it is used if it is healthy. Starting the cooldown changes neither its health nor
/// its metrics.
pub proof fn law_cooldown_ends(
    endpoint: RpcEndpointView,
    base_secs: u64,
    max_secs: u64,
    now: u64,
    later: u64,
)
    ensures
        ({
            let secs = backoff(base_secs, max_secs, next_attempts(endpoint.cooldown_attempts));
            let after = cooled_down(endpoint, base_secs, max_secs, now);
            &&& after.in_cooldown(later) <==> later < now + secs * NANOS_PER_SEC
            &&& after.available(later) <==> endpoint.healthy && later >= now + secs * NANOS_PER_SEC
            &&& after.healthy == endpoint.healthy
            &&& after.metrics == endpoint.metrics
        }),
{
    let attempts = next_attempts(endpoint.cooldown_attempts);
    law_cooldown_bounded(base_secs, max_secs, attempts);
}

/// No endpoint is ever cheaper than the least cost, and more latency or more penalty never makes
/// one cheaper.
pub proof fn law_total_cost(a: EndpointMetrics, b: EndpointMetrics)
    ensures
        a.total_cost() >= MIN_TOTAL_COST_MS,
        a.ema_latency_ms <= b.ema_latency_ms && a.ema_error_penalty_ms <= b.ema_error_penalty_ms
            ==> a.total_cost() <= b.total_cost(),
{
}

/// A failure is never penalized by less than its latency, nor by less than any failure of its
/// kind.
pub proof fn law_penalty(error_kind: ErrorKind, latency_ms: u64)
    ensures
        penalty(error_kind, latency_ms) >= latency_ms,
        penalty(error_kind, latency_ms) >= penalty(error_kind, 0),
        penalty(error_kind, latency_ms) == latency_ms || penalty(error_kind, latency_ms) == penalty(
            error_kind,
            0,
        ),
{
}

} // verus!
