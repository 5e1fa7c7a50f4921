//! What the balancer reports of itself.

use vstd::prelude::*;

use crate::balancer::{available_count, BalancerSettings, ClientSettings, LoadBalancer};
use crate::endpoint::{RpcEndpoint, RpcEndpointView};
use crate::limiter::NANOS_PER_SEC;
use crate::order::{lemma_insert_ordered, ordered_by};
use crate::strategy::endpoint_states;

verus! {

/// The name of the rule that the priority report orders endpoints by.
pub const PRIORITY_STRATEGY: &'static str = "priority_based_with_lru_tie_breaking";

/// The place of one endpoint in the priority report.
#[derive(Debug)]
pub struct PriorityStat {
    pub url: String,
    pub weight: u32,
    pub healthy: bool,
    pub available: bool,
    pub in_cooldown: bool,
    pub cooldown_remaining_secs: i64,
    pub total_cost_ms: u64,
    pub last_selected_secs_ago: u64,
    /// The place of the endpoint, counted from one.
    pub priority_rank: usize,
}

/// What a [`PriorityStat`] says.
pub struct PriorityStatView {
    pub url: Seq<char>,
    pub weight: u32,
    pub healthy: bool,
    pub available: bool,
    pub in_cooldown: bool,
    pub cooldown_remaining_secs: int,
    pub total_cost_ms: u64,
    pub last_selected_secs_ago: int,
    pub priority_rank: int,
}

impl View for PriorityStat {
    type V = PriorityStatView;

    open spec fn view(&self) -> PriorityStatView {
        PriorityStatView {
            url: self.url@,
            weight: self.weight,
            healthy: self.healthy,
            available: self.available,
            in_cooldown: self.in_cooldown,
            cooldown_remaining_secs: self.cooldown_remaining_secs as int,
            total_cost_ms: self.total_cost_ms,
            last_selected_secs_ago: self.last_selected_secs_ago as int,
            priority_rank: self.priority_rank as int,
        }
    }
}

/// The state of one endpoint as it is reported.
#[derive(Debug)]
pub struct EndpointDetails {
    pub url: String,
    pub healthy: bool,
    pub available: bool,
    pub in_cooldown: bool,
    pub cooldown_remaining_secs: i64,
    pub cooldown_attempts: u32,
    pub consecutive_failures: u32,
    pub ema_latency_ms: u64,
    pub ema_error_penalty_ms: u64,
    pub total_cost_ms: u64,
    pub last_selected_timestamp: u64,
    pub last_check_secs_ago: u64,
    pub rate_limit_per_sec: u32,
    pub burst_size: u32,
    pub weight: u32,
}

/// What an [`EndpointDetails`] says.
pub struct EndpointDetailsView {
    pub url: Seq<char>,
    pub healthy: bool,
    pub available: bool,
    pub in_cooldown: bool,
    pub cooldown_remaining_secs: int,
    pub cooldown_attempts: u32,
    pub consecutive_failures: u32,
    pub ema_latency_ms: u64,
    pub ema_error_penalty_ms: u64,
    pub total_cost_ms: u64,
    pub last_selected_timestamp: u64,
    pub last_check_secs_ago: int,
    pub rate_limit_per_sec: u32,
    pub burst_size: u32,
    pub weight: u32,
}

impl View for EndpointDetails {
    type V = EndpointDetailsView;

    open spec fn view(&self) -> EndpointDetailsView {
        EndpointDetailsView {
            url: self.url@,
            healthy: self.healthy,
            available: self.available,
            in_cooldown: self.in_cooldown,
            cooldown_remaining_secs: self.cooldown_remaining_secs as int,
            cooldown_attempts: self.cooldown_attempts,
            consecutive_failures: self.consecutive_failures,
            ema_latency_ms: self.ema_latency_ms,
            ema_error_penalty_ms: self.ema_error_penalty_ms,
            total_cost_ms: self.total_cost_ms,
            last_selected_timestamp: self.last_selected_timestamp,
            last_check_secs_ago: self.last_check_secs_ago as int,
            rate_limit_per_sec: self.rate_limit_per_sec,
            burst_size: self.burst_size,
            weight: self.weight,
        }
    }
}

/// What the balancer reports of itself.
#[derive(Debug)]
pub struct Status {
    pub bind_addr: String,
    pub config_path: String,
    pub total_endpoints: usize,
    pub healthy_endpoints: usize,
    pub balancer_settings: BalancerSettings,
    pub client_settings: ClientSettings,
    /// The endpoints in the order of their priority.
    pub priority_info: Vec<PriorityStat>,
    /// The endpoints in the order in which they are configured.
    pub endpoints_details: Vec<EndpointDetails>,
}

/// `a - b`, or zero if `b` is larger.
pub open spec fn minus(a: u64, b: u64) -> int {
    if b > a {
        0
    } else {
        a - b
    }
}

/// The seconds from the last selection of `endpoint` to `now_secs`; zero if the clock went back.
pub open spec fn secs_since_selected(endpoint: RpcEndpointView, now_secs: u64) -> int {
    minus(now_secs, endpoint.metrics.last_selected)
}

/// The seconds of the cooldown that are left, as far as an `i64` can count.
pub open spec fn reported_cooldown(endpoint: RpcEndpointView, now: u64) -> int {
    if endpoint.cooldown_remaining(now) > i64::MAX {
        i64::MAX as int
    } else {
        endpoint.cooldown_remaining(now)
    }
}

/// The `i`th endpoint has priority over the `j`th: the larger weight goes first, then the lower
/// cost, then the one that was not selected for longer, then the one that is configured first.
pub open spec fn outranks(
    endpoints: Seq<RpcEndpointView>,
    now_secs: u64,
    i: int,
    j: int,
) -> bool {
    let a = endpoints[i];
    let b = endpoints[j];
    if a.weight != b.weight {
        a.weight > b.weight
    } else if a.metrics.total_cost() != b.metrics.total_cost() {
        a.metrics.total_cost() < b.metrics.total_cost()
    } else if secs_since_selected(a, now_secs) != secs_since_selected(b, now_secs) {
        secs_since_selected(a, now_secs) > secs_since_selected(b, now_secs)
    } else {
        i < j
    }
}

/// The relation between the positions of endpoints that says which has priority over which.
pub open spec fn priority(
    endpoints: Seq<RpcEndpointView>,
    now_secs: u64,
) -> spec_fn(int, int) -> bool {
    |i: int, j: int| outranks(endpoints, now_secs, i, j)
}

/// `order` lists the endpoints below `bound`, each before those that it has priority over.
pub open spec fn prioritized_below(
    endpoints: Seq<RpcEndpointView>,
    now_secs: u64,
    bound: int,
    order: Seq<usize>,
) -> bool {
    &&& order.len() == bound
    &&& forall|p: int| 0 <= p < order.len() ==> (#[trigger] order[p]) < bound
    &&& forall|i: usize| i < bound ==> #[trigger] order.contains(i)
    &&& ordered_by(priority(endpoints, now_secs), order)
}

/// `order` lists all endpoints in the order of their priority.
pub open spec fn is_priority_order(
    endpoints: Seq<RpcEndpointView>,
    now_secs: u64,
    order: Seq<usize>,
) -> bool {
    prioritized_below(endpoints, now_secs, endpoints.len() as int, order)
}

/// The report of `endpoint`, which comes `rank`th by priority, counted from one.
pub open spec fn priority_stat(
    endpoint: RpcEndpointView,
    rank: int,
    now: u64,
    now_secs: u64,
) -> PriorityStatView {
    PriorityStatView {
        url: endpoint.url,
        weight: endpoint.weight,
        healthy: endpoint.healthy,
        available: endpoint.available(now),
        in_cooldown: endpoint.in_cooldown(now),
        cooldown_remaining_secs: reported_cooldown(endpoint, now),
        total_cost_ms: endpoint.metrics.total_cost(),
        last_selected_secs_ago: secs_since_selected(endpoint, now_secs),
        priority_rank: rank,
    }
}

/// The report of the state of `endpoint`.
pub open spec fn endpoint_details(endpoint: RpcEndpointView, now: u64) -> EndpointDetailsView {
    EndpointDetailsView {
        url: endpoint.url,
        healthy: endpoint.healthy,
        available: endpoint.available(now),
        in_cooldown: endpoint.in_cooldown(now),
        cooldown_remaining_secs: reported_cooldown(endpoint, now),
        cooldown_attempts: endpoint.cooldown_attempts,
        consecutive_failures: endpoint.metrics.consecutive_failures,
        ema_latency_ms: endpoint.metrics.ema_latency_ms,
        ema_error_penalty_ms: endpoint.metrics.ema_error_penalty_ms,
        total_cost_ms: endpoint.metrics.total_cost(),
        last_selected_timestamp: endpoint.metrics.last_selected,
        last_check_secs_ago: minus(now, endpoint.last_check) / NANOS_PER_SEC as int,
        rate_limit_per_sec: endpoint.rate_limit_per_sec,
        burst_size: endpoint.burst_size,
        weight: endpoint.weight,
    }
}

/// `stats` reports on the endpoints in the order `order`.
pub open spec fn reports_in_order(
    endpoints: Seq<RpcEndpointView>,
    now: u64,
    now_secs: u64,
    order: Seq<usize>,
    stats: Seq<PriorityStat>,
) -> bool {
    &&& stats.len() == order.len()
    &&& forall|p: int|
        0 <= p < stats.len() ==> (#[trigger] stats[p])@ == priority_stat(
            endpoints[order[p] as int],
            p + 1,
            now,
            now_secs,
        )
}

/// Tells whether the `i`th endpoint has priority over the `j`th.
fn has_priority(endpoints: &Vec<RpcEndpoint>, now_secs: u64, i: usize, j: usize) -> (r: bool)
    requires
        i < endpoints@.len(),
        j < endpoints@.len(),
    ensures
        r == outranks(endpoint_states(endpoints@), now_secs, i as int, j as int),
{
    let a = &endpoints[i];
    let b = &endpoints[j];
    assert(endpoint_states(endpoints@)[i as int] == a@);
    assert(endpoint_states(endpoints@)[j as int] == b@);
    let cost_a: u64 = a.metrics.get_total_cost();
    let cost_b: u64 = b.metrics.get_total_cost();
    let since_a: u64 = now_secs.saturating_sub(a.metrics.last_selected);
    let since_b: u64 = now_secs.saturating_sub(b.metrics.last_selected);
    if a.weight != b.weight {
        a.weight > b.weight
    } else if cost_a != cost_b {
        cost_a < cost_b
    } else if since_a != since_b {
        since_a > since_b
    } else {
        i < j
    }
}

proof fn lemma_insert_prioritized(
    states: Seq<RpcEndpointView>,
    now_secs: u64,
    k: usize,
    before: Seq<usize>,
    p: int,
)
    requires
        k < states.len(),
        prioritized_below(states, now_secs, k as int, before),
        0 <= p <= before.len(),
        forall|q: int|
            0 <= q < p ==> !outranks(states, now_secs, k as int, #[trigger] before[q] as int),
        p < before.len() ==> outranks(states, now_secs, k as int, before[p] as int),
    ensures
        prioritized_below(states, now_secs, k + 1, before.insert(p, k)),
{
    let after = before.insert(p, k);
    if before.contains(k) {
        let q = choose|q: int| 0 <= q < before.len() && before[q] == k;
        assert(before[q] < k);
    }
    lemma_insert_ordered(priority(states, now_secs), before, p, k);
    assert forall|i: usize| i < k + 1 implies #[trigger] after.contains(i) by {
        if i < k {
            assert(before.contains(i));
        }
    }
    assert forall|q: int| 0 <= q < after.len() implies (#[trigger] after[q]) < k + 1 by {
        if q != p {
            assert(after[q] == before[if q < p { q } else { q - 1 }]);
        }
    }
}

/// All endpoints in the order of their priority.
pub fn prioritize_endpoints(endpoints: &Vec<RpcEndpoint>, now_secs: u64) -> (order: Vec<usize>)
    ensures
        is_priority_order(endpoint_states(endpoints@), now_secs, order@),
{
    let ghost states = endpoint_states(endpoints@);
    let mut order: Vec<usize> = Vec::new();
    let mut k: usize = 0;
    while k < endpoints.len()
        invariant
            states == endpoint_states(endpoints@),
            k <= endpoints@.len(),
            prioritized_below(states, now_secs, k as int, order@),
        decreases endpoints@.len() - k,
    {
        let ghost before = order@;
        let mut p: usize = 0;
        while p < order.len() && !has_priority(endpoints, now_secs, k, order[p])
            invariant
                states == endpoint_states(endpoints@),
                k < endpoints@.len(),
                order@ == before,
                p <= order@.len(),
                prioritized_below(states, now_secs, k as int, before),
                forall|q: int|
                    0 <= q < p ==> !outranks(
                        states,
                        now_secs,
                        k as int,
                        #[trigger] before[q] as int,
                    ),
            decreases order@.len() - p,
        {
            p = p + 1;
        }
        order.insert(p, k);
        proof {
            lemma_insert_prioritized(states, now_secs, k, before, p as int);
        }
        k = k + 1;
    }
    order
}

impl LoadBalancer {
    /// The endpoints in the order of their priority.
    pub fn get_endpoint_priority_stats(&self, now: u64, now_secs: u64) -> (r: Vec<PriorityStat>)
        ensures
            exists|order: Seq<usize>|
                #[trigger] is_priority_order(self@.endpoints, now_secs, order) && reports_in_order(
                    self@.endpoints,
                    now,
                    now_secs,
                    order,
                    r@,
                ),
    {
        let order = prioritize_endpoints(&self.endpoints, now_secs);
        let ghost states = self@.endpoints;
        let mut stats: Vec<PriorityStat> = Vec::new();
        let mut p: usize = 0;
        while p < order.len()
            invariant
                states == self@.endpoints,
                is_priority_order(states, now_secs, order@),
                p <= order@.len(),
                stats@.len() == p,
                forall|q: int|
                    0 <= q < p ==> (#[trigger] stats@[q])@ == priority_stat(
                        states[order@[q] as int],
                        q + 1,
                        now,
                        now_secs,
                    ),
            decreases order@.len() - p,
        {
            assert(states.len() == self.endpoints@.len());
            assert(order@[p as int] < states.len());
            let endpoint = &self.endpoints[order[p]];
            assert(states[order@[p as int] as int] == endpoint@);
            stats.push(
                PriorityStat {
                    url: endpoint.url.clone(),
                    weight: endpoint.weight,
                    healthy: endpoint.healthy,
                    available: endpoint.is_available(now),
                    in_cooldown: endpoint.is_in_cooldown(now),
                    cooldown_remaining_secs: endpoint.cooldown_remaining_secs(now),
                    total_cost_ms: endpoint.metrics.get_total_cost(),
                    last_selected_secs_ago: now_secs.saturating_sub(endpoint.metrics.last_selected),
                    priority_rank: p + 1,
                },
            );
            p = p + 1;
        }
        stats
    }

    /// The state of each endpoint, in the order in which they are configured.
    fn get_endpoint_details(&self, now: u64) -> (r: Vec<EndpointDetails>)
        ensures
            r@.len() == self@.endpoints.len(),
            forall|i: int|
                0 <= i < r@.len() ==> (#[trigger] r@[i])@ == endpoint_details(
                    self@.endpoints[i],
                    now,
                ),
    {
        let ghost states = self@.endpoints;
        let mut details: Vec<EndpointDetails> = Vec::new();
        let mut i: usize = 0;
        while i < self.endpoints.len()
            invariant
                states == self@.endpoints,
                i <= self.endpoints@.len(),
                details@.len() == i,
                forall|k: int|
                    0 <= k < i ==> (#[trigger] details@[k])@ == endpoint_details(states[k], now),
            decreases self.endpoints@.len() - i,
        {
            let endpoint = &self.endpoints[i];
            assert(states[i as int] == endpoint@);
            let checked_nanos_ago: u64 = now.saturating_sub(endpoint.last_check);
            details.push(
                EndpointDetails {
                    url: endpoint.url.clone(),
                    healthy: endpoint.healthy,
                    available: endpoint.is_available(now),
                    in_cooldown: endpoint.is_in_cooldown(now),
                    cooldown_remaining_secs: endpoint.cooldown_remaining_secs(now),
                    cooldown_attempts: endpoint.cooldown_attempts,
                    consecutive_failures: endpoint.metrics.consecutive_failures,
                    ema_latency_ms: endpoint.metrics.ema_latency_ms,
                    ema_error_penalty_ms: endpoint.metrics.ema_error_penalty_ms,
                    total_cost_ms: endpoint.metrics.get_total_cost(),
                    last_selected_timestamp: endpoint.metrics.last_selected,
                    last_check_secs_ago: checked_nanos_ago / NANOS_PER_SEC,
                    rate_limit_per_sec: endpoint.rate_limit_per_sec,
                    burst_size: endpoint.burst_size,
                    weight: endpoint.weight,
                },
            );
            i = i + 1;
        }
        details
    }

    /// What the balancer reports of itself at the time `now`, which is `now_secs` seconds after the
    /// Unix epoch.
    pub fn get_status(&self, now: u64, now_secs: u64) -> (r: Status)
        ensures
            r.bind_addr@ == self@.bind_addr,
            r.config_path@ == self@.config_path,
            r.total_endpoints == self@.endpoints.len(),
            r.healthy_endpoints == available_count(self@.endpoints, now),
            r.balancer_settings == self@.settings,
            r.client_settings == self@.client,
            exists|order: Seq<usize>|
                #[trigger] is_priority_order(self@.endpoints, now_secs, order) && reports_in_order(
                    self@.endpoints,
                    now,
                    now_secs,
                    order,
                    r.priority_info@,
                ),
            r.endpoints_details@.len() == self@.endpoints.len(),
            forall|i: int|
                0 <= i < self@.endpoints.len() ==> (#[trigger] r.endpoints_details@[i])@
                    == endpoint_details(self@.endpoints[i], now),
    {
        Status {
            bind_addr: self.bind_addr.clone(),
            config_path: self.config_path.clone(),
            total_endpoints: self.endpoints.len(),
            healthy_endpoints: self.update_healthy_count(now),
            balancer_settings: self.settings,
            client_settings: self.client,
            priority_info: self.get_endpoint_priority_stats(now, now_secs),
            endpoints_details: self.get_endpoint_details(now),
        }
    }
}

} // verus!
