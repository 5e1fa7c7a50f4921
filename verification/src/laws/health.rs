//! How failures take endpoints out of use, and how they come back.

use vstd::prelude::*;

use crate::balancer::{
    cooldown_of, lemma_position_of, next_selected, position_of, rate_limited_state, recorded,
    unhealthy_state, LoadBalancerView,
};
use crate::config::ConfigView;
use crate::endpoint::{RequestOutcome, RpcEndpointView, Smoothing};
use crate::laws::cooldown::{law_cooldown_bounded, law_cooldown_ends};
use crate::laws::reload::configured_by;
use crate::laws::selection::{law_only_selected_is_charged, law_selected_is_best};
use crate::limiter::NANOS_PER_SEC;
use crate::strategy::Selection;
use crate::utils::cooldown::next_attempts;
use crate::utils::health::{
    addresses, health_checked, health_trace, stepped, CheckResult, CheckerAction, CheckerEvent,
    HealthChecker,
};

verus! {

/// An endpoint that failed a health check is not used until it passes one.
pub proof fn law_failed_check_takes_out<F: Fn(u64, u64, Smoothing) -> u64>(
    before: LoadBalancerView,
    url: Seq<char>,
    now: u64,
    average: F,
    result: CheckResult,
    after: LoadBalancerView,
    i: int,
    later: u64,
)
    requires
        health_checked(before, url, false, now, average, result, after),
        position_of(before.endpoints, url) == Some(i),
    ensures
        !after.endpoints[i].available(later),
{
}

/// An endpoint that was unhealthy and passes a health check is used again at once, with its
/// failures forgotten.
pub proof fn law_recovery_brings_back<F: Fn(u64, u64, Smoothing) -> u64>(
    before: LoadBalancerView,
    url: Seq<char>,
    now: u64,
    average: F,
    result: CheckResult,
    after: LoadBalancerView,
    i: int,
    later: u64,
)
    requires
        health_checked(before, url, true, now, average, result, after),
        position_of(before.endpoints, url) == Some(i),
        !before.endpoints[i].healthy,
    ensures
        after.endpoints[i].available(later),
        after.endpoints[i].cooldown_attempts == 0,
        after.endpoints[i].metrics.consecutive_failures == 0,
{
}

/// An endpoint that was healthy and passes a health check stays as it was, but for the time of
/// the check; a cooldown that it is in does not end.
pub proof fn law_passed_check_changes_nothing<F: Fn(u64, u64, Smoothing) -> u64>(
    before: LoadBalancerView,
    url: Seq<char>,
    now: u64,
    average: F,
    result: CheckResult,
    after: LoadBalancerView,
    i: int,
    later: u64,
)
    requires
        health_checked(before, url, true, now, average, result, after),
        position_of(before.endpoints, url) == Some(i),
        before.endpoints[i].healthy,
    ensures
        after.endpoints[i].available(later) == before.endpoints[i].available(later),
        after.endpoints[i].metrics == before.endpoints[i].metrics,
        after.endpoints[i].cooldown_attempts == before.endpoints[i].cooldown_attempts,
{
    lemma_position_of(before.endpoints, url);
}

/// A health check changes no endpoint but the one that was checked.
pub proof fn law_check_leaves_others<F: Fn(u64, u64, Smoothing) -> u64>(
    before: LoadBalancerView,
    url: Seq<char>,
    healthy: bool,
    now: u64,
    average: F,
    result: CheckResult,
    after: LoadBalancerView,
    k: int,
)
    requires
        health_checked(before, url, healthy, now, average, result, after),
        0 <= k < before.endpoints.len(),
        position_of(before.endpoints, url) != Some(k),
    ensures
        after.endpoints[k] == before.endpoints[k],
{
    lemma_position_of(before.endpoints, url);
}

proof fn lemma_same_addresses_same_position(
    a: Seq<RpcEndpointView>,
    b: Seq<RpcEndpointView>,
    url: Seq<char>,
)
    requires
        a.len() == b.len(),
        forall|k: int| 0 <= k < a.len() ==> (#[trigger] a[k]).url == b[k].url,
    ensures
        position_of(a, url) == position_of(b, url),
    decreases a.len(),
{
    if a.len() > 0 {
        assert forall|k: int| 0 <= k < a.len() - 1 implies (#[trigger] a.drop_last()[k]).url
            == b.drop_last()[k].url by {
            assert(a[k].url == b[k].url);
        }
        lemma_same_addresses_same_position(a.drop_last(), b.drop_last(), url);
        assert(a[a.len() - 1].url == b[a.len() - 1].url);
    }
}

proof fn lemma_round_keeps_addresses<F: Fn(u64, u64, Smoothing) -> u64>(
    before: LoadBalancerView,
    updates: Seq<(String, bool)>,
    now: u64,
    average: F,
    results: Seq<CheckResult>,
    after: LoadBalancerView,
    trace: Seq<LoadBalancerView>,
    m: int,
)
    requires
        health_trace(before, updates, now, average, results, after, trace),
        0 <= m <= updates.len(),
    ensures
        trace[m].endpoints.len() == before.endpoints.len(),
        forall|i: int|
            0 <= i < before.endpoints.len() ==> (#[trigger] trace[m].endpoints[i]).url
                == before.endpoints[i].url,
    decreases m,
{
    if m > 0 {
        lemma_round_keeps_addresses(
            before,
            updates,
            now,
            average,
            results,
            after,
            trace,
            m - 1,
        );
        let url = updates[m - 1].0@;
        lemma_position_of(trace[m - 1].endpoints, url);
        assert forall|i: int| 0 <= i < before.endpoints.len() implies (
        #[trigger] trace[m].endpoints[i]).url == before.endpoints[i].url by {
            assert(trace[m - 1].endpoints[i].url == before.endpoints[i].url);
        }
    }
}

proof fn lemma_health_after<F: Fn(u64, u64, Smoothing) -> u64>(
    before: LoadBalancerView,
    updates: Seq<(String, bool)>,
    now: u64,
    average: F,
    results: Seq<CheckResult>,
    after: LoadBalancerView,
    trace: Seq<LoadBalancerView>,
    k: int,
    i: int,
    m: int,
)
    requires
        health_trace(before, updates, now, average, results, after, trace),
        forall|a: int, b: int|
            0 <= a < b < updates.len() ==> (#[trigger] updates[a]).0@ != (#[trigger] updates[b]).0@,
        0 <= k < m <= updates.len(),
        position_of(before.endpoints, updates[k].0@) == Some(i),
    ensures
        trace[m].endpoints[i].healthy == updates[k].1,
    decreases m,
{
    let last = updates[m - 1];
    lemma_round_keeps_addresses(before, updates, now, average, results, after, trace, m - 1);
    lemma_same_addresses_same_position(trace[m - 1].endpoints, before.endpoints, last.0@);
    lemma_position_of(before.endpoints, last.0@);
    lemma_position_of(before.endpoints, updates[k].0@);
    if k < m - 1 {
        lemma_health_after(
            before,
            updates,
            now,
            average,
            results,
            after,
            trace,
            k,
            i,
            m - 1,
        );
        assert(updates[k].0@ != last.0@);
    }
}

/// After a round of checks each endpoint that was checked is healthy exactly if it passed, and the
/// endpoints still have the same addresses.
pub proof fn law_round_sets_health<F: Fn(u64, u64, Smoothing) -> u64>(
    before: LoadBalancerView,
    updates: Seq<(String, bool)>,
    now: u64,
    average: F,
    results: Seq<CheckResult>,
    after: LoadBalancerView,
    trace: Seq<LoadBalancerView>,
)
    requires
        health_trace(before, updates, now, average, results, after, trace),
        forall|a: int, b: int|
            0 <= a < b < updates.len() ==> (#[trigger] updates[a]).0@ != (#[trigger] updates[b]).0@,
    ensures
        addresses(after.endpoints) == addresses(before.endpoints),
        forall|k: int, i: int|
            0 <= k < updates.len() && position_of(before.endpoints, (#[trigger] updates[k]).0@)
                == Some(i) ==> (#[trigger] after.endpoints[i]).healthy == updates[k].1,
{
    let n = updates.len() as int;
    lemma_round_keeps_addresses(before, updates, now, average, results, after, trace, n);
    assert(addresses(after.endpoints) =~= addresses(before.endpoints));
    assert forall|k: int, i: int|
        0 <= k < updates.len() && position_of(before.endpoints, (#[trigger] updates[k]).0@) == Some(
            i,
        ) implies (#[trigger] after.endpoints[i]).healthy == updates[k].1 by {
        lemma_health_after(before, updates, now, average, results, after, trace, k, i, n);
    }
}

/// Marking an endpoint as unhealthy takes it out of use, whatever the time.
pub proof fn law_unhealthy_takes_out(
    state: LoadBalancerView,
    url: Seq<char>,
    now: u64,
    i: int,
    later: u64,
)
    requires
        position_of(state.endpoints, url) == Some(i),
    ensures
        !unhealthy_state(state, url, now).endpoints[i].available(later),
{
    lemma_position_of(state.endpoints, url);
}

/// Marking an endpoint as unhealthy twice is the same as doing it once: its cooldown is not
/// prolonged.
pub proof fn law_unhealthy_once(state: LoadBalancerView, url: Seq<char>, now: u64, later: u64)
    ensures
        unhealthy_state(unhealthy_state(state, url, now), url, later) == unhealthy_state(
            state,
            url,
            now,
        ),
{
    let once = unhealthy_state(state, url, now);
    lemma_position_of(state.endpoints, url);
    lemma_position_of(once.endpoints, url);
    match position_of(state.endpoints, url) {
        Some(i) => {
            assert(once.endpoints[i].url == url);
            match position_of(once.endpoints, url) {
                Some(k) => {
                    if k < i {
                        assert(state.endpoints[k].url != url);
                    }
                    if i < k {
                        assert(once.endpoints[i].url != url);
                    }
                },
                None => {},
            }
        },
        None => {},
    }
}

/// An endpoint that was found to be rate-limited is not used before its cooldown ends; from then
/// on it is used if it is healthy.
pub proof fn law_rate_limited_takes_out(
    state: LoadBalancerView,
    url: Seq<char>,
    now: u64,
    i: int,
    later: u64,
)
    requires
        position_of(state.endpoints, url) == Some(i),
    ensures
        rate_limited_state(state, url, now).endpoints[i].available(later) <==> (
        state.endpoints[i].healthy && later >= now + cooldown_of(state, i) * NANOS_PER_SEC),
        0 <= cooldown_of(state, i) <= state.settings.max_cooldown_secs,
{
    lemma_position_of(state.endpoints, url);
    law_cooldown_ends(
        state.endpoints[i],
        state.settings.base_cooldown_secs,
        state.settings.max_cooldown_secs,
        now,
        later,
    );
    law_cooldown_bounded(
        state.settings.base_cooldown_secs,
        state.settings.max_cooldown_secs,
        next_attempts(state.endpoints[i].cooldown_attempts),
    );
}

/// No request goes to an endpoint that was marked as unhealthy.
pub proof fn law_unhealthy_not_selected(
    state: LoadBalancerView,
    url: Seq<char>,
    now: u64,
    i: int,
    batch_size: usize,
    later: u64,
    later_secs: u64,
    selection: Selection,
    after: LoadBalancerView,
)
    requires
        state.endpoints.len() <= usize::MAX,
        position_of(state.endpoints, url) == Some(i),
        next_selected(
            unhealthy_state(state, url, now),
            batch_size,
            later,
            later_secs,
            selection,
            after,
        ),
    ensures
        selection.selected matches Some(k) ==> k != i,
{
    let marked = unhealthy_state(state, url, now);
    lemma_position_of(state.endpoints, url);
    assert(marked.endpoints.len() == state.endpoints.len());
    law_unhealthy_takes_out(state, url, now, i, later);
    if let Some(k) = selection.selected {
        law_selected_is_best(
            marked.endpoints,
            later,
            batch_size,
            marked.rate_limiters,
            after.rate_limiters,
            selection,
            k,
        );
    }
}

/// Failures, cooldowns, health checks and requests leave the configuration as it is: the endpoints,
/// their limits and weights, and the settings.
pub proof fn law_configuration_kept<F: Fn(u64, u64, Smoothing) -> u64>(
    state: LoadBalancerView,
    config: ConfigView,
    url: Seq<char>,
    now: u64,
    now_secs: u64,
    outcome: RequestOutcome,
    healthy: bool,
    average: F,
    result: CheckResult,
    batch_size: usize,
    selection: Selection,
    after: LoadBalancerView,
)
    requires
        configured_by(state, config),
    ensures
        configured_by(rate_limited_state(state, url, now), config),
        configured_by(unhealthy_state(state, url, now), config),
        recorded(state, url, outcome, average, after) ==> configured_by(after, config),
        health_checked(state, url, healthy, now, average, result, after) ==> configured_by(
            after,
            config,
        ),
        next_selected(state, batch_size, now, now_secs, selection, after) ==> configured_by(
            after,
            config,
        ),
{
    lemma_position_of(state.endpoints, url);
    lemma_same_shape(state, rate_limited_state(state, url, now), config);
    lemma_same_shape(state, unhealthy_state(state, url, now), config);
    if recorded(state, url, outcome, average, after) {
        lemma_same_shape(state, after, config);
    }
    if health_checked(state, url, healthy, now, average, result, after) {
        lemma_same_shape(state, after, config);
    }
    if next_selected(state, batch_size, now, now_secs, selection, after) {
        law_only_selected_is_charged(
            state.endpoints,
            now,
            batch_size,
            state.rate_limiters,
            after.rate_limiters,
            selection,
        );
        assert forall|u: Seq<char>| #[trigger]
            after.rate_limiters.contains_key(u) implies state.rate_limiters.contains_key(u) by {
            assert(after.rate_limiters.dom().contains(u));
        }
        lemma_same_shape(state, after, config);
    }
}

proof fn lemma_same_shape(state: LoadBalancerView, after: LoadBalancerView, config: ConfigView)
    requires
        configured_by(state, config),
        after.endpoints.len() == state.endpoints.len(),
        forall|k: int|
            0 <= k < state.endpoints.len() ==> {
                let endpoint = #[trigger] after.endpoints[k];
                &&& endpoint.url == state.endpoints[k].url
                &&& endpoint.rate_limit_per_sec == state.endpoints[k].rate_limit_per_sec
                &&& endpoint.burst_size == state.endpoints[k].burst_size
                &&& endpoint.weight == state.endpoints[k].weight
            },
        forall|url: Seq<char>| #[trigger]
            after.rate_limiters.contains_key(url) ==> state.rate_limiters.contains_key(url),
        after.settings == state.settings,
        after.client == state.client,
    ensures
        configured_by(after, config),
{
    let list = config.finalized().balancer.unwrap().endpoints.unwrap();
    assert forall|k: int| 0 <= k < list.len() implies {
        let endpoint = #[trigger] after.endpoints[k];
        &&& endpoint.url == list[k].url
        &&& endpoint.rate_limit_per_sec == list[k].rate_limit_per_sec
        &&& endpoint.burst_size == list[k].burst_size
        &&& endpoint.weight == list[k].weight.unwrap()
    } by {
        let endpoint = state.endpoints[k];
        assert(endpoint.url == list[k].url);
    }
}

/// The task that checks the endpoints ends on a shutdown and at no other time. On each tick it
/// checks them, and from then on its ticker runs at the configured interval: the ticker starts over
/// exactly if that is another one than before, be it longer or shorter. So a second tick with the
/// same configuration leaves the ticker alone.
pub proof fn law_checker_follows_interval(
    before: HealthChecker,
    event: CheckerEvent,
    configured_secs: u64,
    action: CheckerAction,
    after: HealthChecker,
    second: CheckerAction,
    end: HealthChecker,
)
    requires
        stepped(before, event, configured_secs, action, after),
        stepped(after, CheckerEvent::Tick, configured_secs, second, end),
    ensures
        event == CheckerEvent::Shutdown <==> action == CheckerAction::Exit,
        event == CheckerEvent::Shutdown ==> after.interval_secs == before.interval_secs,
        event == CheckerEvent::Tick ==> {
            &&& after.interval_secs == configured_secs
            &&& configured_secs == before.interval_secs <==> action == CheckerAction::Check
            &&& configured_secs != before.interval_secs <==> action
                == (CheckerAction::RestartTicker { interval_secs: configured_secs })
            &&& second == CheckerAction::Check
        },
        end.interval_secs == configured_secs,
{
}

} // verus!
