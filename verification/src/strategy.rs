//! The choice of the endpoint that a request goes to.
//!
//! Endpoints form three tiers by weight. A tier is tried only when no endpoint of the tiers above
//! it can take the request.

use vstd::prelude::*;
use vstd::string::*;

use crate::endpoint::{LoadBalancerError, RpcEndpoint, RpcEndpointView};
use crate::limiter::{answered, BucketView, RateLimiters};
use crate::order::{lemma_insert_ordered, lemma_ordered_unique, ordered_by};

verus! {

/// The least weight of a Tier 1 endpoint.
pub const TIER1_MIN_WEIGHT: u32 = 100;

/// The least weight of a Tier 2 endpoint.
pub const TIER2_MIN_WEIGHT: u32 = 50;

/// The least weight of a Tier 3 endpoint. An endpoint without weight is in no tier.
pub const TIER3_MIN_WEIGHT: u32 = 1;

/// The tier of an endpoint of the given weight; zero for none.
pub open spec fn tier_of(weight: u32) -> u8 {
    if weight >= TIER1_MIN_WEIGHT {
        1
    } else if weight >= TIER2_MIN_WEIGHT {
        2
    } else if weight >= TIER3_MIN_WEIGHT {
        3
    } else {
        0
    }
}

/// What the endpoints hold.
pub open spec fn endpoint_states(endpoints: Seq<RpcEndpoint>) -> Seq<RpcEndpointView> {
    endpoints.map_values(|e: RpcEndpoint| e@)
}

/// At the time `now` the endpoint can be selected.
pub open spec fn eligible(endpoint: RpcEndpointView, now: u64) -> bool {
    endpoint.available(now) && tier_of(endpoint.weight) != 0
}

/// The `i`th endpoint is tried before the `j`th. The larger weight goes first; among equal weights
/// of Tier 2 the lower cost; then the endpoint that was selected more recently; then the one that
/// is listed first.
pub open spec fn precedes(endpoints: Seq<RpcEndpointView>, i: int, j: int) -> bool {
    let a = endpoints[i];
    let b = endpoints[j];
    let by_cost = tier_of(a.weight) == 2;
    if a.weight != b.weight {
        a.weight > b.weight
    } else if by_cost && a.metrics.total_cost() != b.metrics.total_cost() {
        a.metrics.total_cost() < b.metrics.total_cost()
    } else if a.metrics.last_selected != b.metrics.last_selected {
        a.metrics.last_selected > b.metrics.last_selected
    } else {
        i < j
    }
}

/// The relation between the positions of endpoints that says which is tried before which.
pub open spec fn precedence(endpoints: Seq<RpcEndpointView>) -> spec_fn(int, int) -> bool {
    |i: int, j: int| precedes(endpoints, i, j)
}

/// `order` lists the endpoints below `bound` that can be selected, each before those that it
/// precedes.
pub open spec fn ranks_below(
    endpoints: Seq<RpcEndpointView>,
    now: u64,
    bound: int,
    order: Seq<usize>,
) -> bool {
    &&& forall|p: int|
        0 <= p < order.len() ==> (#[trigger] order[p]) < bound && eligible(
            endpoints[order[p] as int],
            now,
        )
    &&& forall|i: usize|
        i < bound && eligible(#[trigger] endpoints[i as int], now) ==> order.contains(i)
    &&& ordered_by(precedence(endpoints), order)
}

/// `order` lists the endpoints that can be selected in the order in which they are tried.
pub open spec fn is_ranking(endpoints: Seq<RpcEndpointView>, now: u64, order: Seq<usize>) -> bool {
    ranks_below(endpoints, now, endpoints.len() as int, order)
}

/// The endpoints that can be selected, in the order in which they are tried.
pub open spec fn ranking(endpoints: Seq<RpcEndpointView>, now: u64) -> Seq<usize> {
    choose|order: Seq<usize>| is_ranking(endpoints, now, order)
}

/// Tells whether the `i`th endpoint is tried before the `j`th.
fn goes_before(endpoints: &Vec<RpcEndpoint>, i: usize, j: usize) -> (r: bool)
    requires
        i < endpoints@.len(),
        j < endpoints@.len(),
    ensures
        r == precedes(endpoint_states(endpoints@), i as int, j as int),
{
    let a = &endpoints[i];
    let b = &endpoints[j];
    assert(endpoint_states(endpoints@)[i as int] == a@);
    assert(endpoint_states(endpoints@)[j as int] == b@);
    let by_cost: bool = TIER2_MIN_WEIGHT <= a.weight && a.weight < TIER1_MIN_WEIGHT;
    let cost_a: u64 = a.metrics.get_total_cost();
    let cost_b: u64 = b.metrics.get_total_cost();
    if a.weight != b.weight {
        a.weight > b.weight
    } else if by_cost && cost_a != cost_b {
        cost_a < cost_b
    } else if a.metrics.last_selected != b.metrics.last_selected {
        a.metrics.last_selected > b.metrics.last_selected
    } else {
        i < j
    }
}

/// The endpoints that can be selected, in the order in which they are tried.
pub fn rank_endpoints(endpoints: &Vec<RpcEndpoint>, now: u64) -> (order: Vec<usize>)
    ensures
        is_ranking(endpoint_states(endpoints@), now, order@),
        order@ == ranking(endpoint_states(endpoints@), now),
{
    let ghost states = endpoint_states(endpoints@);
    let mut order: Vec<usize> = Vec::new();
    let mut k: usize = 0;
    while k < endpoints.len()
        invariant
            states == endpoint_states(endpoints@),
            k <= endpoints@.len(),
            ranks_below(states, now, k as int, order@),
        decreases endpoints@.len() - k,
    {
        let ghost before = order@;
        assert(states[k as int] == endpoints@[k as int]@);
        if endpoints[k].is_available(now) && endpoints[k].weight > 0 {
            let mut p: usize = 0;
            while p < order.len() && !goes_before(endpoints, k, order[p])
                invariant
                    states == endpoint_states(endpoints@),
                    k < endpoints@.len(),
                    order@ == before,
                    p <= order@.len(),
                    ranks_below(states, now, k as int, before),
                    forall|q: int|
                        0 <= q < p ==> !precedes(states, k as int, #[trigger] before[q] as int),
                decreases order@.len() - p,
            {
                p = p + 1;
            }
            order.insert(p, k);
            proof {
                lemma_insert_ranked(states, now, k, before, p as int);
            }
        }
        k = k + 1;
    }
    proof {
        assert(is_ranking(states, now, order@));
        lemma_ranking_unique(states, now, order@, ranking(states, now));
    }
    order
}

/// Putting the next endpoint before the first of `before` that it precedes keeps the order.
pub proof fn lemma_insert_ranked(
    states: Seq<RpcEndpointView>,
    now: u64,
    k: usize,
    before: Seq<usize>,
    p: int,
)
    requires
        k < states.len(),
        eligible(states[k as int], now),
        ranks_below(states, now, k as int, before),
        0 <= p <= before.len(),
        forall|q: int| 0 <= q < p ==> !precedes(states, k as int, #[trigger] before[q] as int),
        p < before.len() ==> precedes(states, k as int, before[p] as int),
    ensures
        ranks_below(states, now, k + 1, before.insert(p, k)),
{
    let after = before.insert(p, k);
    if before.contains(k) {
        let q = choose|q: int| 0 <= q < before.len() && before[q] == k;
        assert(before[q] < k);
    }
    lemma_insert_ordered(precedence(states), before, p, k);
    assert forall|i: usize| i < k + 1 && eligible(#[trigger] states[i as int], now) implies after.contains(
        i,
    ) by {
        if i < k {
            assert(before.contains(i));
        }
    }
    assert forall|q: int| 0 <= q < after.len() implies (#[trigger] after[q]) < k + 1 && eligible(
        states[after[q] as int],
        now,
    ) by {
        if q != p {
            assert(after[q] == before[if q < p { q } else { q - 1 }]);
        }
    }
}

/// There is at most one order in which the endpoints are tried.
pub proof fn lemma_ranking_unique(
    endpoints: Seq<RpcEndpointView>,
    now: u64,
    a: Seq<usize>,
    b: Seq<usize>,
)
    requires
        is_ranking(endpoints, now, a),
        is_ranking(endpoints, now, b),
    ensures
        a == b,
{
    assert forall|i: usize| #[trigger] a.contains(i) == b.contains(i) by {
        if a.contains(i) {
            let p = choose|p: int| 0 <= p < a.len() && a[p] == i;
            assert(eligible(endpoints[a[p] as int], now));
        }
        if b.contains(i) {
            let p = choose|p: int| 0 <= p < b.len() && b[p] == i;
            assert(eligible(endpoints[b[p] as int], now));
        }
    }
    lemma_ordered_unique(precedence(endpoints), a, b);
}

/// The order in which the `p`th endpoint of `order` stands among those of its own tier, counted
/// from zero.
pub open spec fn rank_in_tier(
    endpoints: Seq<RpcEndpointView>,
    order: Seq<usize>,
    p: int,
) -> nat
    decreases p,
{
    if p > 0 && tier_of(endpoints[order[p - 1] as int].weight) == tier_of(
        endpoints[order[p] as int].weight,
    ) {
        rank_in_tier(endpoints, order, p - 1) + 1
    } else {
        0
    }
}

/// One endpoint that was asked to take a request.
#[derive(Clone, Copy, Debug, PartialEq, Eq, Structural)]
pub struct Attempt {
    /// The position of the endpoint in the list of endpoints.
    pub index: usize,
    /// The tier of the endpoint.
    pub tier: u8,
    /// The order of the endpoint within its tier, counted from zero.
    pub rank: usize,
}

/// What came of a selection: the endpoints that were asked, in order, and the one that takes the
/// request. All others of those asked were rate-limited.
#[derive(Debug)]
pub struct Selection {
    pub attempts: Vec<Attempt>,
    pub selected: Option<usize>,
}

/// `after` is what the limiters `before` become when room for `batch_size` requests to `url` is
/// asked for, and `granted` whether there is room. Without requests or without a limiter there
/// always is; for more requests than a limiter can count there never is.
pub open spec fn reservation(
    before: Map<Seq<char>, BucketView>,
    url: Seq<char>,
    batch_size: usize,
    granted: bool,
    after: Map<Seq<char>, BucketView>,
) -> bool {
    if batch_size > u32::MAX {
        !granted && after == before
    } else if batch_size == 0 || !before.contains_key(url) {
        granted && after == before
    } else {
        &&& answered(before[url], batch_size as nat, granted, after[url])
        &&& after == before.insert(url, after[url])
    }
}

/// The message of the error that a batch too large for any limiter is answered with.
pub const BATCH_TOO_LARGE: &'static str = "Batch size too large";

/// Asks the limiter of the endpoint `endpoint_url` for room for `batch_size` requests.
pub fn reserve_tokens(
    limiters: &mut RateLimiters,
    endpoint_url: &String,
    batch_size: usize,
) -> (r: Result<(), LoadBalancerError>)
    ensures
        reservation(old(limiters)@, endpoint_url@, batch_size, r is Ok, final(limiters)@),
        match r {
            Ok(_) => true,
            Err(LoadBalancerError::UpstreamError(reason)) => {
                &&& batch_size > u32::MAX
                &&& reason@ == BATCH_TOO_LARGE@
            },
            Err(LoadBalancerError::RateLimited(url)) => {
                &&& batch_size <= u32::MAX
                &&& url@ == endpoint_url@
            },
            Err(_) => false,
        },
{
    if batch_size > u32::MAX as usize {
        return Err(LoadBalancerError::UpstreamError(BATCH_TOO_LARGE.to_owned()));
    }
    if batch_size == 0 {
        return Ok(());
    }
    match limiters.check_n(endpoint_url, batch_size as u32) {
        Some(granted) => {
            if granted {
                Ok(())
            } else {
                Err(LoadBalancerError::RateLimited(endpoint_url.clone()))
            }
        },
        None => Ok(()),
    }
}

/// `selection` is what comes of selecting an endpoint for `batch_size` requests at the time `now`,
/// with the limiters `before` and `after`: the endpoints are asked in the order of their ranking,
/// and the first that has room takes the requests.
pub open spec fn selects(
    endpoints: Seq<RpcEndpointView>,
    now: u64,
    batch_size: usize,
    before: Map<Seq<char>, BucketView>,
    after: Map<Seq<char>, BucketView>,
    selection: Selection,
) -> bool {
    let order = ranking(endpoints, now);
    let asked = selection.attempts@.len();
    let refused = if selection.selected is Some {
        asked - 1
    } else {
        asked as int
    };
    &&& asked <= order.len()
    &&& forall|p: int|
        0 <= p < asked ==> (#[trigger] selection.attempts@[p]) == (Attempt {
            index: order[p],
            tier: tier_of(endpoints[order[p] as int].weight),
            rank: rank_in_tier(endpoints, order, p) as usize,
        })
    &&& forall|p: int|
        0 <= p < refused ==> reservation(
            before,
            endpoints[#[trigger] order[p] as int].url,
            batch_size,
            false,
            before,
        )
    &&& match selection.selected {
        Some(i) => {
            &&& asked > 0
            &&& i == order[asked - 1]
            &&& reservation(before, endpoints[i as int].url, batch_size, true, after)
        },
        None => asked == order.len() && after == before,
    }
}

/// The tier of an endpoint of the given weight; zero for none.
fn tier(weight: u32) -> (r: u8)
    ensures
        r == tier_of(weight),
{
    if weight >= TIER1_MIN_WEIGHT {
        1
    } else if weight >= TIER2_MIN_WEIGHT {
        2
    } else if weight >= TIER3_MIN_WEIGHT {
        3
    } else {
        0
    }
}

/// Selects the endpoint that takes a batch of `batch_size` requests.
pub fn select_best_endpoint(
    endpoints: &Vec<RpcEndpoint>,
    rate_limiters: &mut RateLimiters,
    batch_size: usize,
    now: u64,
) -> (selection: Selection)
    ensures
        is_ranking(
            endpoint_states(endpoints@),
            now,
            ranking(endpoint_states(endpoints@), now),
        ),
        selects(
            endpoint_states(endpoints@),
            now,
            batch_size,
            old(rate_limiters)@,
            final(rate_limiters)@,
            selection,
        ),
{
    let order = rank_endpoints(endpoints, now);
    let ghost states = endpoint_states(endpoints@);
    let ghost before = rate_limiters@;
    let mut attempts: Vec<Attempt> = Vec::new();
    let mut p: usize = 0;
    while p < order.len()
        invariant
            states == endpoint_states(endpoints@),
            is_ranking(states, now, order@),
            order@ == ranking(states, now),
            p <= order@.len(),
            attempts@.len() == p,
            before == old(rate_limiters)@,
            rate_limiters@ == before,
            forall|q: int|
                0 <= q < p ==> (#[trigger] attempts@[q]) == (Attempt {
                    index: order@[q],
                    tier: tier_of(states[order@[q] as int].weight),
                    rank: rank_in_tier(states, order@, q) as usize,
                }),
            forall|q: int|
                0 <= q < p ==> reservation(
                    before,
                    states[#[trigger] order@[q] as int].url,
                    batch_size,
                    false,
                    before,
                ),
            p > 0 ==> rank_in_tier(states, order@, p - 1) < p,
        decreases order@.len() - p,
    {
        let index: usize = order[p];
        assert(eligible(states[order@[p as int] as int], now));
        let endpoint = &endpoints[index];
        assert(states[index as int] == endpoint@);
        let tier: u8 = tier(endpoint.weight);
        let mut rank: usize = 0;
        if p > 0 {
            let last = attempts[p - 1];
            if last.tier == tier {
                rank = last.rank + 1;
            }
        }
        attempts.push(Attempt { index, tier, rank });
        if reserve_tokens(rate_limiters, &endpoint.url, batch_size).is_ok() {
            return Selection { attempts, selected: Some(index) };
        }
        assert(rate_limiters@ =~= before);
        p = p + 1;
    }
    Selection { attempts, selected: None }
}

} // verus!
