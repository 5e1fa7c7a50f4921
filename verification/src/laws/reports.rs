//! What the balancer reports of itself, field by field.

use vstd::prelude::*;

use crate::balancer::{available_count, LoadBalancer};
use crate::config_reloader::{reload_failure, texts, ConfigChanges, ReloadResponse};
use crate::endpoint::{LoadBalancerError, RpcEndpoint};
use crate::status::{
    endpoint_details, is_priority_order, priority, priority_stat, reports_in_order, EndpointDetails,
    PriorityStat, Status,
};

use crate::strategy::endpoint_states;
use crate::utils::health::addresses;

verus! {

/// The endpoint is in a cooldown at the time `now`.
pub open spec fn cooling(endpoint: RpcEndpoint, now: u64) -> bool {
    endpoint.cooldown_until matches Some(until) && until > now
}

/// What using the endpoint costs: its latency and its penalty together, one second at the least,
/// and no more than a `u64` holds.
pub open spec fn cost_of(endpoint: RpcEndpoint) -> int {
    let sum = endpoint.metrics.ema_latency_ms + endpoint.metrics.ema_error_penalty_ms;
    if sum < 1000 {
        1000
    } else if sum > u64::MAX {
        u64::MAX as int
    } else {
        sum
    }
}

/// `secs` are the whole seconds that are left of the endpoint's cooldown at the time `now`, or the
/// most that an `i64` holds.
pub open spec fn cooldown_left(endpoint: RpcEndpoint, now: u64, secs: i64) -> bool {
    match endpoint.cooldown_until {
        Some(until) if until > now => {
            &&& 0 <= secs
            &&& secs * 1_000_000_000 <= until - now
            &&& until - now < (secs + 1) * 1_000_000_000 || secs == i64::MAX
        },
        _ => secs == 0,
    }
}

/// `stat` says of the endpoint what its fields hold.
pub open spec fn stat_of(
    stat: PriorityStat,
    endpoint: RpcEndpoint,
    now: u64,
    now_secs: u64,
) -> bool {
    &&& stat.url@ == endpoint.url@
    &&& stat.weight == endpoint.weight
    &&& stat.healthy == endpoint.healthy
    &&& stat.available == (endpoint.healthy && !cooling(endpoint, now))
    &&& stat.in_cooldown == cooling(endpoint, now)
    &&& cooldown_left(endpoint, now, stat.cooldown_remaining_secs)
    &&& stat.total_cost_ms == cost_of(endpoint)
    &&& stat.last_selected_secs_ago == (if now_secs >= endpoint.metrics.last_selected {
        now_secs - endpoint.metrics.last_selected
    } else {
        0
    })
}

/// `details` says of the endpoint what its fields hold.
pub open spec fn details_of(details: EndpointDetails, endpoint: RpcEndpoint, now: u64) -> bool {
    &&& details.url@ == endpoint.url@
    &&& details.healthy == endpoint.healthy
    &&& details.available == (endpoint.healthy && !cooling(endpoint, now))
    &&& details.in_cooldown == cooling(endpoint, now)
    &&& cooldown_left(endpoint, now, details.cooldown_remaining_secs)
    &&& details.cooldown_attempts == endpoint.cooldown_attempts
    &&& details.consecutive_failures == endpoint.metrics.consecutive_failures
    &&& details.ema_latency_ms == endpoint.metrics.ema_latency_ms
    &&& details.ema_error_penalty_ms == endpoint.metrics.ema_error_penalty_ms
    &&& details.total_cost_ms == cost_of(endpoint)
    &&& details.last_selected_timestamp == endpoint.metrics.last_selected
    &&& now >= endpoint.last_check ==> details.last_check_secs_ago * 1_000_000_000 <= now
        - endpoint.last_check < (details.last_check_secs_ago + 1) * 1_000_000_000
    &&& now < endpoint.last_check ==> details.last_check_secs_ago == 0
    &&& details.rate_limit_per_sec == endpoint.rate_limit_per_sec
    &&& details.burst_size == endpoint.burst_size
    &&& details.weight == endpoint.weight
}

/// The status names the address, the path, the settings and the number of endpoints of the
/// balancer, and the details of each endpoint in the order of the endpoints.
pub proof fn law_status_by_fields(
    balancer: LoadBalancer,
    now: u64,
    now_secs: u64,
    status: Status,
    i: int,
)
    requires
        call_ensures(LoadBalancer::get_status, (&balancer, now, now_secs), status),
    ensures
        status.bind_addr@ == balancer.bind_addr@,
        status.config_path@ == balancer.config_path@,
        status.total_endpoints == balancer.endpoints@.len(),
        status.balancer_settings.health_check_interval_secs
            == balancer.settings.health_check_interval_secs,
        status.balancer_settings.health_check_timeout_secs
            == balancer.settings.health_check_timeout_secs,
        status.balancer_settings.base_cooldown_secs == balancer.settings.base_cooldown_secs,
        status.balancer_settings.max_cooldown_secs == balancer.settings.max_cooldown_secs,
        status.balancer_settings.max_batch_size == balancer.settings.max_batch_size,
        status.balancer_settings.latency_smoothing_factor
            == balancer.settings.latency_smoothing_factor,
        status.client_settings.connect_timeout_ms == balancer.client.connect_timeout_ms,
        status.client_settings.timeout_secs == balancer.client.timeout_secs,
        status.client_settings.pool_idle_timeout_secs == balancer.client.pool_idle_timeout_secs,
        status.client_settings.pool_max_idle_per_host == balancer.client.pool_max_idle_per_host,
        status.endpoints_details@.len() == balancer.endpoints@.len(),
        0 <= i < balancer.endpoints@.len() ==> details_of(
            status.endpoints_details@[i],
            balancer.endpoints@[i],
            now,
        ),
{
    if 0 <= i < balancer.endpoints@.len() {
        assert(balancer@.endpoints[i] == balancer.endpoints@[i]@);
        let details = status.endpoints_details@[i];
        assert(details@ == endpoint_details(balancer@.endpoints[i], now));
    }
}

/// `place` says where in `stats` each endpoint is reported: every one at its own place.
pub open spec fn all_reported(
    endpoints: Seq<RpcEndpoint>,
    stats: Seq<PriorityStat>,
    place: Seq<int>,
    now: u64,
    now_secs: u64,
) -> bool {
    &&& place.len() == endpoints.len()
    &&& stats.len() == endpoints.len()
    &&& forall|i: int|
        0 <= i < place.len() ==> 0 <= (#[trigger] place[i]) < stats.len() && stat_of(
            stats[place[i]],
            endpoints[i],
            now,
            now_secs,
        )
    &&& forall|i: int, j: int|
        0 <= i < j < place.len() ==> #[trigger] place[i] != #[trigger] place[j]
}

/// The priority report has every endpoint once, with what its fields hold, and ranks from one on.
/// The larger weight comes first; of equal weights the lower cost; of equal costs the one that was
/// not selected for longer; and of those that are alike in all this the one that is listed first.
pub proof fn law_priority_report_by_fields(
    balancer: LoadBalancer,
    now: u64,
    now_secs: u64,
    stats: Vec<PriorityStat>,
) -> (place: Seq<int>)
    requires
        call_ensures(
            LoadBalancer::get_endpoint_priority_stats,
            (&balancer, now, now_secs),
            stats,
        ),
    ensures
        all_reported(balancer.endpoints@, stats@, place, now, now_secs),
        forall|p: int| 0 <= p < stats@.len() ==> (#[trigger] stats@[p]).priority_rank == p + 1,
        forall|p: int, q: int|
            #![trigger stats@[p], stats@[q]]
            0 <= p < q < stats@.len() ==> {
                ||| stats@[p].weight > stats@[q].weight
                ||| {
                    &&& stats@[p].weight == stats@[q].weight
                    &&& stats@[p].total_cost_ms < stats@[q].total_cost_ms
                }
                ||| {
                    &&& stats@[p].weight == stats@[q].weight
                    &&& stats@[p].total_cost_ms == stats@[q].total_cost_ms
                    &&& stats@[p].last_selected_secs_ago >= stats@[q].last_selected_secs_ago
                }
            },
        forall|i: int, j: int|
            #![trigger place[i], place[j]]
            0 <= i < j < place.len() && stats@[place[i]].weight == stats@[place[j]].weight
                && stats@[place[i]].total_cost_ms == stats@[place[j]].total_cost_ms
                && stats@[place[i]].last_selected_secs_ago == stats@[place[j]].last_selected_secs_ago
                ==> place[i] < place[j],
{
    let endpoints = balancer@.endpoints;
    let order = choose|order: Seq<usize>|
        #[trigger] is_priority_order(endpoints, now_secs, order) && reports_in_order(
            endpoints,
            now,
            now_secs,
            order,
            stats@,
        );
    assert(endpoints.len() == balancer.endpoints@.len());
    assert(balancer.endpoints@.len() == balancer.endpoints.len());
    let place = Seq::new(
        endpoints.len(),
        |i: int| choose|p: int| 0 <= p < order.len() && order[p] == i as usize,
    );
    assert forall|i: int| 0 <= i < place.len() implies 0 <= (#[trigger] place[i]) < stats@.len()
        && order[place[i]] == i && stat_of(
        stats@[place[i]],
        balancer.endpoints@[i],
        now,
        now_secs,
    ) by {
        assert(order.contains(i as usize));
        let p = choose|p: int| 0 <= p < order.len() && order[p] == i as usize;
        assert(place[i] == p);
        assert(endpoints[i] == balancer.endpoints@[i]@);
        assert(stats@[p]@ == priority_stat(endpoints[i], p + 1, now, now_secs));
    }
    assert forall|p: int| 0 <= p < stats@.len() implies (#[trigger] stats@[p]).priority_rank == p
        + 1 by {
        assert(stats@[p]@.priority_rank == p + 1);
    }
    assert forall|p: int, q: int|
        #![trigger stats@[p], stats@[q]]
        0 <= p < q < stats@.len() implies {
        ||| stats@[p].weight > stats@[q].weight
        ||| {
            &&& stats@[p].weight == stats@[q].weight
            &&& stats@[p].total_cost_ms < stats@[q].total_cost_ms
        }
        ||| {
            &&& stats@[p].weight == stats@[q].weight
            &&& stats@[p].total_cost_ms == stats@[q].total_cost_ms
            &&& stats@[p].last_selected_secs_ago >= stats@[q].last_selected_secs_ago
        }
    } by {
        assert(priority(endpoints, now_secs)(order[p] as int, order[q] as int));
        assert(stats@[p]@ == priority_stat(endpoints[order[p] as int], p + 1, now, now_secs));
        assert(stats@[q]@ == priority_stat(endpoints[order[q] as int], q + 1, now, now_secs));
        assert(stats@[p].last_selected_secs_ago == stats@[p]@.last_selected_secs_ago);
        assert(stats@[q].last_selected_secs_ago == stats@[q]@.last_selected_secs_ago);
    }
    assert forall|i: int, j: int|
        #![trigger place[i], place[j]]
        0 <= i < j < place.len() && stats@[place[i]].weight == stats@[place[j]].weight
            && stats@[place[i]].total_cost_ms == stats@[place[j]].total_cost_ms
            && stats@[place[i]].last_selected_secs_ago == stats@[place[j]].last_selected_secs_ago
            implies place[i] < place[j] by {
        let p = place[i];
        let q = place[j];
        assert(order[p] == i && order[q] == j);
        if q < p {
            assert(priority(endpoints, now_secs)(order[q] as int, order[p] as int));
            assert(stats@[p]@ == priority_stat(endpoints[i], p + 1, now, now_secs));
            assert(stats@[q]@ == priority_stat(endpoints[j], q + 1, now, now_secs));
            assert(stats@[p].last_selected_secs_ago == stats@[p]@.last_selected_secs_ago);
            assert(stats@[q].last_selected_secs_ago == stats@[q]@.last_selected_secs_ago);
        }
    }
    place
}

/// The addresses that are checked are those of all endpoints, in their order.
pub proof fn law_addresses_of_all(balancer: LoadBalancer, urls: Vec<String>, i: int)
    requires
        call_ensures(LoadBalancer::endpoint_urls, (&balancer,), urls),
    ensures
        urls@.len() == balancer.endpoints@.len(),
        0 <= i < urls@.len() ==> urls@[i]@ == balancer.endpoints@[i].url@,
{
    let wanted = addresses(balancer@.endpoints);
    assert(texts(urls@).len() == wanted.len());
    if 0 <= i < urls@.len() {
        assert(texts(urls@)[i] == wanted[i]);
        assert(balancer@.endpoints[i] == balancer.endpoints@[i]@);
    }
}

/// The number of usable endpoints in the status is the number that is counted.
pub proof fn law_status_counts_usable(
    balancer: LoadBalancer,
    now: u64,
    now_secs: u64,
    status: Status,
    count: usize,
)
    requires
        call_ensures(LoadBalancer::get_status, (&balancer, now, now_secs), status),
        call_ensures(LoadBalancer::update_healthy_count, (&balancer, now), count),
    ensures
        status.healthy_endpoints == count,
        count == balancer.endpoints@.filter(
            |e: RpcEndpoint| e.healthy && !cooling(e, now),
        ).len(),
{
    lemma_usable_counted(balancer.endpoints@, now);
}

proof fn lemma_usable_counted(endpoints: Seq<RpcEndpoint>, now: u64)
    ensures
        available_count(endpoint_states(endpoints), now) == endpoints.filter(
            |e: RpcEndpoint| e.healthy && !cooling(e, now),
        ).len(),
    decreases endpoints.len(),
{
    reveal(Seq::filter);
    if endpoints.len() > 0 {
        lemma_usable_counted(endpoints.drop_last(), now);
        assert(endpoint_states(endpoints).drop_last() == endpoint_states(endpoints.drop_last()));
        assert(endpoint_states(endpoints).last() == endpoints.last()@);
    }
}

/// What contracts say of the changes that a reload reports is what the fields hold, each under its
/// own name.
pub proof fn law_changes_read_by_field(changes: ConfigChanges, i: int)
    ensures
        changes@.endpoints_added.len() == changes.endpoints_added@.len(),
        changes@.endpoints_removed.len() == changes.endpoints_removed@.len(),
        changes@.endpoints_modified.len() == changes.endpoints_modified@.len(),
        0 <= i < changes.endpoints_added@.len() ==> changes@.endpoints_added[i]
            == changes.endpoints_added@[i]@,
        0 <= i < changes.endpoints_removed@.len() ==> changes@.endpoints_removed[i]
            == changes.endpoints_removed@[i]@,
        0 <= i < changes.endpoints_modified@.len() ==> changes@.endpoints_modified[i]
            == changes.endpoints_modified@[i]@,
        changes@.config_updated == changes.config_updated,
        changes@.client_rebuilt == changes.client_rebuilt,
{
}

/// A reload that failed is answered with the text of the error and with no changes.
pub proof fn law_failed_reload_answered(err: LoadBalancerError, response: ReloadResponse)
    requires
        call_ensures(reload_failure, (&err,), response),
    ensures
        !response.success,
        response.message@ == "Configuration reload failed"@,
        response.error is Some,
        response.error.unwrap()@ == err.text(),
        response.changes.endpoints_added@.len() == 0,
        response.changes.endpoints_removed@.len() == 0,
        response.changes.endpoints_modified@.len() == 0,
        !response.changes.config_updated,
        !response.changes.client_rebuilt,
{
    law_changes_read_by_field(response.changes, 0);
}

} // verus!
