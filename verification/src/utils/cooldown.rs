//! Cooldowns with exponential backoff: an endpoint that fails or is rate-limited is left alone for
//! a while, and for longer each time in a row.

use vstd::arithmetic::power2::{lemma_pow2_strictly_increases, pow2};
use vstd::prelude::*;

use crate::endpoint::{RpcEndpoint, RpcEndpointView};
use crate::limiter::NANOS_PER_SEC;

verus! {

/// The seconds of the cooldown that is the `attempts`th in a row: the base doubled `attempts`
/// times, and no more than the maximum.
pub open spec fn backoff(base_secs: u64, max_secs: u64, attempts: u32) -> int {
    let doubled = base_secs * pow2(attempts as nat);
    if doubled < max_secs {
        doubled
    } else {
        max_secs as int
    }
}

/// The seconds of the cooldown that is the `attempts`th in a row.
pub fn backoff_secs(base_secs: u64, max_secs: u64, attempts: u32) -> (r: u64)
    ensures
        r == backoff(base_secs, max_secs, attempts),
{
    if attempts < 64 {
        let shift: u64 = attempts as u64;
        let factor: u64 = 1u64 << shift;
        proof {
            vstd::bits::lemma_u64_pow2_no_overflow(attempts as nat);
            vstd::bits::lemma_u64_shl_is_mul(1u64, shift);
            assert(factor == pow2(attempts as nat));
        }
        match base_secs.checked_mul(factor) {
            Some(doubled) => {
                if doubled < max_secs {
                    doubled
                } else {
                    max_secs
                }
            },
            None => max_secs,
        }
    } else if base_secs == 0 {
        assert(base_secs * pow2(attempts as nat) == 0) by (nonlinear_arith)
            requires
                base_secs == 0,
        ;
        0
    } else {
        proof {
            vstd::arithmetic::power2::lemma2_to64();
            if attempts > 64 {
                lemma_pow2_strictly_increases(64, attempts as nat);
            }
            assert(base_secs * pow2(attempts as nat) >= pow2(attempts as nat)) by (nonlinear_arith)
                requires
                    base_secs >= 1,
            ;
        }
        max_secs
    }
}

/// The number of cooldowns in a row after one more.
pub open spec fn next_attempts(attempts: u32) -> u32 {
    if attempts == u32::MAX {
        u32::MAX
    } else {
        (attempts + 1) as u32
    }
}

/// `endpoint` after a cooldown started at the time `now`.
pub open spec fn cooled_down(
    endpoint: RpcEndpointView,
    base_secs: u64,
    max_secs: u64,
    now: u64,
) -> RpcEndpointView {
    let attempts = next_attempts(endpoint.cooldown_attempts);
    RpcEndpointView {
        cooldown_attempts: attempts,
        cooldown_until: Some(
            (now + backoff(base_secs, max_secs, attempts) * NANOS_PER_SEC) as u128,
        ),
        last_check: now,
        ..endpoint
    }
}

/// Starts a cooldown and returns its seconds.
pub fn trigger_cooldown(
    ep: &mut RpcEndpoint,
    base_cooldown_secs: u64,
    max_cooldown_secs: u64,
    now: u64,
) -> (secs: u64)
    ensures
        final(ep)@ == cooled_down(old(ep)@, base_cooldown_secs, max_cooldown_secs, now),
        secs == backoff(base_cooldown_secs, max_cooldown_secs, final(ep).cooldown_attempts),
{
    ep.cooldown_attempts = ep.cooldown_attempts.saturating_add(1);
    let secs: u64 = backoff_secs(base_cooldown_secs, max_cooldown_secs, ep.cooldown_attempts);
    let until: u128 = now as u128 + secs as u128 * NANOS_PER_SEC as u128;
    ep.cooldown_until = Some(until);
    ep.last_check = now;
    secs
}

} // verus!
