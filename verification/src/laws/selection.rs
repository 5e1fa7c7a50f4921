//! Which endpoint takes a request.

use vstd::prelude::*;

use crate::balancer::{next_selected, LoadBalancerView};
use crate::config::{MAX_BURST_SIZE, MAX_RATE_LIMIT};
use crate::config_reloader::fresh_bucket;
use crate::endpoint::RpcEndpointView;
use crate::limiter::{BucketView, NANOS_PER_SEC};
use crate::order::lemma_ordered_no_duplicates;
use crate::strategy::{
    eligible, is_ranking, lemma_insert_ranked, lemma_ranking_unique, precedence, precedes, rank_in_tier,
    ranking, ranks_below, reservation, selects, tier_of, Attempt, Selection,
};

verus! {

proof fn lemma_insert_position(
    endpoints: Seq<RpcEndpointView>,
    k: int,
    order: Seq<usize>,
    p: int,
) -> (r: int)
    requires
        0 <= p <= order.len(),
        forall|q: int| 0 <= q < p ==> !precedes(endpoints, k, #[trigger] order[q] as int),
    ensures
        p <= r <= order.len(),
        forall|q: int| 0 <= q < r ==> !precedes(endpoints, k, #[trigger] order[q] as int),
        r < order.len() ==> precedes(endpoints, k, order[r] as int),
    decreases order.len() - p,
{
    if p < order.len() && !precedes(endpoints, k, order[p] as int) {
        lemma_insert_position(endpoints, k, order, p + 1)
    } else {
        p
    }
}

proof fn lemma_ranking_below(endpoints: Seq<RpcEndpointView>, now: u64, bound: usize) -> (order: Seq<
    usize,
>)
    requires
        bound <= endpoints.len(),
    ensures
        ranks_below(endpoints, now, bound as int, order),
    decreases bound,
{
    if bound == 0 {
        Seq::empty()
    } else {
        let k = (bound - 1) as usize;
        let shorter = lemma_ranking_below(endpoints, now, k);
        if eligible(endpoints[k as int], now) {
            let p = lemma_insert_position(endpoints, k as int, shorter, 0);
            lemma_insert_ranked(endpoints, now, k, shorter, p);
            shorter.insert(p, k)
        } else {
            shorter
        }
    }
}

/// There is exactly one order in which the endpoints are tried, and it holds each endpoint that
/// can be selected once.
pub proof fn law_ranking_exists_once(endpoints: Seq<RpcEndpointView>, now: u64)
    requires
        endpoints.len() <= usize::MAX,
    ensures
        is_ranking(endpoints, now, ranking(endpoints, now)),
        ranking(endpoints, now).no_duplicates(),
        forall|order: Seq<usize>| #[trigger]
            is_ranking(endpoints, now, order) ==> order == ranking(endpoints, now),
        forall|i: usize|
            i < endpoints.len() ==> (#[trigger] ranking(endpoints, now).contains(i) <==> eligible(
                endpoints[i as int],
                now,
            )),
{
    let order = lemma_ranking_below(endpoints, now, endpoints.len() as usize);
    assert(is_ranking(endpoints, now, order));
    let chosen = ranking(endpoints, now);
    assert(is_ranking(endpoints, now, chosen));
    assert forall|other: Seq<usize>| #[trigger] is_ranking(endpoints, now, other) implies other
        == chosen by {
        lemma_ranking_unique(endpoints, now, other, chosen);
    }
    assert forall|i: usize| i < endpoints.len() && #[trigger] chosen.contains(i) implies eligible(
        endpoints[i as int],
        now,
    ) by {
        let p = choose|p: int| 0 <= p < chosen.len() && chosen[p] == i;
        assert(eligible(endpoints[chosen[p] as int], now));
    }
    lemma_ordered_no_duplicates(precedence(endpoints), chosen);
}

/// The endpoint that takes a request can be used and has weight. Every endpoint that goes before
/// it, of its own tier or of one above, was asked and has no room; those of a tier above all go
/// before it.
pub proof fn law_selected_is_best(
    endpoints: Seq<RpcEndpointView>,
    now: u64,
    batch_size: usize,
    before: Map<Seq<char>, BucketView>,
    after: Map<Seq<char>, BucketView>,
    selection: Selection,
    i: usize,
)
    requires
        endpoints.len() <= usize::MAX,
        selects(endpoints, now, batch_size, before, after, selection),
        selection.selected == Some(i),
    ensures
        i < endpoints.len(),
        endpoints[i as int].available(now),
        endpoints[i as int].weight > 0,
        reservation(before, endpoints[i as int].url, batch_size, true, after),
        forall|j: usize|
            j < endpoints.len() && eligible(#[trigger] endpoints[j as int], now) && precedes(
                endpoints,
                j as int,
                i as int,
            ) ==> reservation(before, endpoints[j as int].url, batch_size, false, before),
        forall|j: usize|
            j < endpoints.len() && eligible(#[trigger] endpoints[j as int], now) && tier_of(
                endpoints[j as int].weight,
            ) < tier_of(endpoints[i as int].weight) ==> precedes(endpoints, j as int, i as int),
{
    law_ranking_exists_once(endpoints, now);
    let order = ranking(endpoints, now);
    let last = selection.attempts@.len() - 1;
    assert(eligible(endpoints[order[last] as int], now));
    assert forall|j: usize|
        j < endpoints.len() && eligible(#[trigger] endpoints[j as int], now) && precedes(
            endpoints,
            j as int,
            i as int,
        ) implies reservation(before, endpoints[j as int].url, batch_size, false, before) by {
        assert(order.contains(j));
        let p = choose|p: int| 0 <= p < order.len() && order[p] == j;
        if p > last {
            assert(precedes(endpoints, order[last] as int, order[p] as int));
        }
        assert(p < last);
        assert(reservation(
            before,
            endpoints[order[p] as int].url,
            batch_size,
            false,
            before,
        ));
    }
}

/// If no endpoint takes a request, then none that can be used has room for it.
pub proof fn law_none_selected(
    endpoints: Seq<RpcEndpointView>,
    now: u64,
    batch_size: usize,
    before: Map<Seq<char>, BucketView>,
    after: Map<Seq<char>, BucketView>,
    selection: Selection,
)
    requires
        endpoints.len() <= usize::MAX,
        selects(endpoints, now, batch_size, before, after, selection),
        selection.selected is None,
    ensures
        after == before,
        forall|j: usize|
            j < endpoints.len() && eligible(#[trigger] endpoints[j as int], now) ==> reservation(
                before,
                endpoints[j as int].url,
                batch_size,
                false,
                before,
            ),
{
    law_ranking_exists_once(endpoints, now);
    let order = ranking(endpoints, now);
    assert forall|j: usize|
        j < endpoints.len() && eligible(#[trigger] endpoints[j as int], now) implies reservation(
        before,
        endpoints[j as int].url,
        batch_size,
        false,
        before,
    ) by {
        assert(order.contains(j));
        let p = choose|p: int| 0 <= p < order.len() && order[p] == j;
        assert(reservation(
            before,
            endpoints[order[p] as int].url,
            batch_size,
            false,
            before,
        ));
    }
}

/// Some endpoint takes a request if one can be used whose limiter has room for it for certain, or
/// that has no limiter, or if the request counts for nothing.
pub proof fn law_room_is_found(
    endpoints: Seq<RpcEndpointView>,
    now: u64,
    batch_size: usize,
    before: Map<Seq<char>, BucketView>,
    after: Map<Seq<char>, BucketView>,
    selection: Selection,
    j: usize,
)
    requires
        endpoints.len() <= usize::MAX,
        selects(endpoints, now, batch_size, before, after, selection),
        j < endpoints.len(),
        eligible(endpoints[j as int], now),
        batch_size <= u32::MAX,
        batch_size == 0 || !before.contains_key(endpoints[j as int].url)
            || before[endpoints[j as int].url].surely_fits(batch_size as nat),
    ensures
        selection.selected is Some,
{
    if selection.selected is None {
        law_none_selected(endpoints, now, batch_size, before, after, selection);
        assert(reservation(before, endpoints[j as int].url, batch_size, false, before));
    }
}

/// Without an endpoint that can be used and has weight, no endpoint is asked and none selected.
pub proof fn law_unusable_endpoints_not_asked(
    endpoints: Seq<RpcEndpointView>,
    now: u64,
    batch_size: usize,
    before: Map<Seq<char>, BucketView>,
    after: Map<Seq<char>, BucketView>,
    selection: Selection,
)
    requires
        endpoints.len() <= usize::MAX,
        selects(endpoints, now, batch_size, before, after, selection),
        forall|j: usize| j < endpoints.len() ==> !eligible(#[trigger] endpoints[j as int], now),
    ensures
        selection.selected is None,
        selection.attempts@.len() == 0,
        after == before,
{
    law_ranking_exists_once(endpoints, now);
    let order = ranking(endpoints, now);
    if order.len() > 0 {
        assert(eligible(endpoints[order[0] as int], now));
    }
}

/// A batch that no limiter can count is never taken.
pub proof fn law_oversized_batch_not_taken(
    endpoints: Seq<RpcEndpointView>,
    now: u64,
    batch_size: usize,
    before: Map<Seq<char>, BucketView>,
    after: Map<Seq<char>, BucketView>,
    selection: Selection,
)
    requires
        selects(endpoints, now, batch_size, before, after, selection),
        batch_size > u32::MAX,
    ensures
        selection.selected is None,
        after == before,
{
}

/// Taking a request uses up room of the limiter of the endpoint that takes it, as much as the
/// request counts for, and of no other.
pub proof fn law_only_selected_is_charged(
    endpoints: Seq<RpcEndpointView>,
    now: u64,
    batch_size: usize,
    before: Map<Seq<char>, BucketView>,
    after: Map<Seq<char>, BucketView>,
    selection: Selection,
)
    requires
        selects(endpoints, now, batch_size, before, after, selection),
    ensures
        after.dom() == before.dom(),
        forall|url: Seq<char>|
            before.contains_key(url) ==> #[trigger] after[url] == match selection.selected {
                Some(i) if endpoints[i as int].url == url => before[url].grant(batch_size as nat),
                _ => before[url],
            },
{
    assert(after.dom() =~= before.dom());
}

/// The endpoint is healthy, is in no cooldown at the time `now`, and has weight.
pub open spec fn in_service(endpoint: RpcEndpointView, now: u64) -> bool {
    &&& endpoint.healthy
    &&& endpoint.cooldown_until matches Some(until) ==> until <= now
    &&& endpoint.weight >= 1
}

/// What a request to the endpoint costs: its latency and its penalty together, one second at the
/// least, and no more than a `u64` holds.
pub open spec fn request_cost(endpoint: RpcEndpointView) -> int {
    let sum = endpoint.metrics.ema_latency_ms + endpoint.metrics.ema_error_penalty_ms;
    if sum < 1000 {
        1000
    } else if sum > u64::MAX {
        u64::MAX as int
    } else {
        sum
    }
}

/// The endpoint at `url` can refuse `batch_size` requests: there are too many to count, or there is
/// a limiter in which they do not fit beside everything that it has let through.
pub open spec fn may_refuse(
    limiters: Map<Seq<char>, BucketView>,
    url: Seq<char>,
    batch_size: usize,
) -> bool {
    ||| batch_size > 0xffff_ffff
    ||| {
        &&& batch_size > 0
        &&& limiters.contains_key(url)
        &&& (limiters[url].granted + batch_size) * (limiters[url].period / limiters[url].capacity)
            > limiters[url].period
    }
}

proof fn lemma_refused(limiters: Map<Seq<char>, BucketView>, url: Seq<char>, batch_size: usize)
    requires
        reservation(limiters, url, batch_size, false, limiters),
    ensures
        may_refuse(limiters, url, batch_size),
{
}

/// The endpoint that takes a request is in service. Every endpoint in service that has a larger
/// weight can refuse the request. Of those of its own weight, if that is 50 to 99, every one that
/// costs less can refuse it, and of those that cost the same every one that was selected more
/// recently. If its weight is another one, then every one of the same weight that was selected more
/// recently can, whatever it costs. Of those that are alike in all this, the ones listed before it
/// can.
pub proof fn law_selected_by_weight_cost_and_use(
    endpoints: Seq<RpcEndpointView>,
    now: u64,
    batch_size: usize,
    before: Map<Seq<char>, BucketView>,
    after: Map<Seq<char>, BucketView>,
    selection: Selection,
    i: usize,
    j: usize,
)
    requires
        endpoints.len() <= usize::MAX,
        selects(endpoints, now, batch_size, before, after, selection),
        selection.selected == Some(i),
        j < endpoints.len(),
        in_service(endpoints[j as int], now),
    ensures
        i < endpoints.len(),
        in_service(endpoints[i as int], now),
        endpoints[j as int].weight > endpoints[i as int].weight ==> may_refuse(
            before,
            endpoints[j as int].url,
            batch_size,
        ),
        endpoints[j as int].weight == endpoints[i as int].weight && 50
            <= endpoints[i as int].weight <= 99 && request_cost(endpoints[j as int])
            < request_cost(endpoints[i as int]) ==> may_refuse(
            before,
            endpoints[j as int].url,
            batch_size,
        ),
        endpoints[j as int].weight == endpoints[i as int].weight && 50
            <= endpoints[i as int].weight <= 99 && request_cost(endpoints[j as int])
            == request_cost(endpoints[i as int]) && endpoints[j as int].metrics.last_selected
            > endpoints[i as int].metrics.last_selected ==> may_refuse(
            before,
            endpoints[j as int].url,
            batch_size,
        ),
        endpoints[j as int].weight == endpoints[i as int].weight && !(50
            <= endpoints[i as int].weight <= 99) && endpoints[j as int].metrics.last_selected
            > endpoints[i as int].metrics.last_selected ==> may_refuse(
            before,
            endpoints[j as int].url,
            batch_size,
        ),
        endpoints[j as int].weight == endpoints[i as int].weight && (50
            <= endpoints[i as int].weight <= 99 ==> request_cost(endpoints[j as int])
            == request_cost(endpoints[i as int])) && endpoints[j as int].metrics.last_selected
            == endpoints[i as int].metrics.last_selected && j < i ==> may_refuse(
            before,
            endpoints[j as int].url,
            batch_size,
        ),
{
    law_selected_is_best(endpoints, now, batch_size, before, after, selection, i);
    assert(eligible(endpoints[j as int], now));
    if precedes(endpoints, j as int, i as int) {
        lemma_refused(before, endpoints[j as int].url, batch_size);
    }
}

/// If no endpoint takes a request, then every endpoint in service can refuse it; if one takes it,
/// then the request does not count for more than a limiter can count, nor for more than the
/// limiter of that endpoint holds when it is empty.
pub proof fn law_refused_only_without_room(
    endpoints: Seq<RpcEndpointView>,
    now: u64,
    batch_size: usize,
    before: Map<Seq<char>, BucketView>,
    after: Map<Seq<char>, BucketView>,
    selection: Selection,
)
    requires
        endpoints.len() <= usize::MAX,
        selects(endpoints, now, batch_size, before, after, selection),
    ensures
        selection.selected is None ==> forall|j: usize|
            j < endpoints.len() && in_service(#[trigger] endpoints[j as int], now) ==> may_refuse(
                before,
                endpoints[j as int].url,
                batch_size,
            ),
        selection.selected matches Some(i) ==> {
            let url = endpoints[i as int].url;
            &&& batch_size <= 0xffff_ffff
            &&& batch_size > 0 && before.contains_key(url) ==> batch_size * (before[url].period
                / before[url].capacity) <= before[url].period
        },
{
    if selection.selected is None {
        law_none_selected(endpoints, now, batch_size, before, after, selection);
        assert forall|j: usize|
            j < endpoints.len() && in_service(#[trigger] endpoints[j as int], now) implies may_refuse(
            before,
            endpoints[j as int].url,
            batch_size,
        ) by {
            assert(eligible(endpoints[j as int], now));
            lemma_refused(before, endpoints[j as int].url, batch_size);
        }
    }
}

/// A selection changes the limiter of the selected endpoint alone, and of it only that it has let
/// through the requests of the batch; where none is selected, it changes no limiter. Of the
/// endpoints it changes only when the selected one was last selected, and nothing else of the
/// balancer.
pub proof fn law_selection_leaves_the_rest(
    before: LoadBalancerView,
    batch_size: usize,
    now: u64,
    now_secs: u64,
    selection: Selection,
    after: LoadBalancerView,
    url: Seq<char>,
    j: int,
)
    requires
        next_selected(before, batch_size, now, now_secs, selection, after),
        0 <= j < before.endpoints.len(),
    ensures
        after.rate_limiters.contains_key(url) == before.rate_limiters.contains_key(url),
        before.rate_limiters.contains_key(url) ==> {
            let old_bucket = before.rate_limiters[url];
            let new_bucket = after.rate_limiters[url];
            &&& new_bucket.capacity == old_bucket.capacity
            &&& new_bucket.period == old_bucket.period
            &&& new_bucket.granted == old_bucket.granted + (match selection.selected {
                Some(i) if before.endpoints[i as int].url == url => batch_size as int,
                _ => 0,
            })
        },
        after.endpoints.len() == before.endpoints.len(),
        after.endpoints[j].metrics.last_selected == (if selection.selected == Some(j as usize)
            && j <= usize::MAX {
            now_secs
        } else {
            before.endpoints[j].metrics.last_selected
        }),
        after.endpoints[j].metrics.ema_latency_ms == before.endpoints[j].metrics.ema_latency_ms,
        after.endpoints[j].metrics.ema_error_penalty_ms
            == before.endpoints[j].metrics.ema_error_penalty_ms,
        after.endpoints[j].metrics.consecutive_failures
            == before.endpoints[j].metrics.consecutive_failures,
        after.endpoints[j].url == before.endpoints[j].url,
        after.endpoints[j].healthy == before.endpoints[j].healthy,
        after.endpoints[j].last_check == before.endpoints[j].last_check,
        after.endpoints[j].cooldown_until == before.endpoints[j].cooldown_until,
        after.endpoints[j].cooldown_attempts == before.endpoints[j].cooldown_attempts,
        after.endpoints[j].rate_limit_per_sec == before.endpoints[j].rate_limit_per_sec,
        after.endpoints[j].burst_size == before.endpoints[j].burst_size,
        after.endpoints[j].weight == before.endpoints[j].weight,
        after.bind_addr == before.bind_addr,
        after.settings == before.settings,
        after.client == before.client,
        after.max_concurrency == before.max_concurrency,
        after.config_path == before.config_path,
{
    law_only_selected_is_charged(
        before.endpoints,
        now,
        batch_size,
        before.rate_limiters,
        after.rate_limiters,
        selection,
    );
    assert(after.rate_limiters.dom().contains(url) == before.rate_limiters.dom().contains(url));
}

/// The endpoints that were asked are all different and in service, and come by falling weight. Each
/// is reported with its tier: the first from weight 100 on, the second from 50 on, the third below;
/// and with the number of endpoints of that tier that were asked before it. All but the last can
/// refuse the request; the last is the selected one if there is one.
pub proof fn law_attempts_reported(
    endpoints: Seq<RpcEndpointView>,
    now: u64,
    batch_size: usize,
    before: Map<Seq<char>, BucketView>,
    after: Map<Seq<char>, BucketView>,
    selection: Selection,
    p: int,
)
    requires
        endpoints.len() <= usize::MAX,
        selects(endpoints, now, batch_size, before, after, selection),
        0 <= p < selection.attempts@.len(),
    ensures
        selection.attempts@[p].index < endpoints.len(),
        in_service(endpoints[selection.attempts@[p].index as int], now),
        forall|q: int|
            0 <= q < p ==> (#[trigger] selection.attempts@[q]).index != selection.attempts@[p].index
                && endpoints[selection.attempts@[q].index as int].weight
                >= endpoints[selection.attempts@[p].index as int].weight,
        selection.attempts@[p].tier == (if endpoints[selection.attempts@[p].index as int].weight
            >= 100 {
            1u8
        } else if endpoints[selection.attempts@[p].index as int].weight >= 50 {
            2u8
        } else {
            3u8
        }),
        selection.attempts@[p].rank == selection.attempts@.take(p).filter(
            |a: Attempt| a.tier == selection.attempts@[p].tier,
        ).len(),
        selection.selected == Some(selection.attempts@[p].index) || may_refuse(
            before,
            endpoints[selection.attempts@[p].index as int].url,
            batch_size,
        ),
        selection.selected is Some && p == selection.attempts@.len() - 1 ==> selection.selected
            == Some(selection.attempts@[p].index),
{
    law_ranking_exists_once(endpoints, now);
    let order = ranking(endpoints, now);
    let attempts = selection.attempts@;
    assert(attempts[p].index == order[p]);
    assert(eligible(endpoints[order[p] as int], now));
    assert forall|q: int| 0 <= q < p implies (#[trigger] attempts[q]).index != attempts[p].index
        && endpoints[attempts[q].index as int].weight >= endpoints[attempts[p].index as int].weight by {
        assert(precedence(endpoints)(order[q] as int, order[p] as int));
    }
    law_rank_counts_tier(endpoints, now, order, p);
    lemma_attempts_of_tier(endpoints, order, attempts, attempts[p].tier, p);
    assert(rank_in_tier(endpoints, order, p) <= p) by {
        reveal(Seq::filter);
        lemma_of_tier_len(endpoints, order, attempts[p].tier, p);
    }
    assert(p < selection.attempts.len());
    if selection.selected is None || p < attempts.len() - 1 {
        assert(reservation(before, endpoints[order[p] as int].url, batch_size, false, before));
        lemma_refused(before, endpoints[order[p] as int].url, batch_size);
    }
}

proof fn lemma_of_tier_len(endpoints: Seq<RpcEndpointView>, order: Seq<usize>, tier: u8, p: int)
    requires
        0 <= p <= order.len(),
    ensures
        of_tier(endpoints, order.take(p), tier).len() <= p,
    decreases p,
{
    reveal(Seq::filter);
    if p > 0 {
        lemma_of_tier_len(endpoints, order, tier, p - 1);
        assert(order.take(p).drop_last() == order.take(p - 1));
    }
}

proof fn lemma_attempts_of_tier(
    endpoints: Seq<RpcEndpointView>,
    order: Seq<usize>,
    attempts: Seq<Attempt>,
    tier: u8,
    p: int,
)
    requires
        0 <= p <= attempts.len() <= order.len(),
        forall|q: int|
            0 <= q < attempts.len() ==> (#[trigger] attempts[q]).tier == tier_of(
                endpoints[order[q] as int].weight,
            ),
    ensures
        attempts.take(p).filter(|a: Attempt| a.tier == tier).len() == of_tier(
            endpoints,
            order.take(p),
            tier,
        ).len(),
    decreases p,
{
    reveal(Seq::filter);
    if p > 0 {
        lemma_attempts_of_tier(endpoints, order, attempts, tier, p - 1);
        assert(order.take(p).drop_last() == order.take(p - 1));
        assert(order.take(p).last() == order[p - 1]);
        assert(attempts.take(p).drop_last() == attempts.take(p - 1));
        assert(attempts.take(p).last() == attempts[p - 1]);
    }
}

/// Outside of Tier 2 what an endpoint costs has no part in the order: endpoints that differ only in
/// their averages are tried in the same order.
pub proof fn law_cost_counts_in_tier_two_only(
    a: Seq<RpcEndpointView>,
    b: Seq<RpcEndpointView>,
    i: int,
    j: int,
)
    requires
        tier_of(a[i].weight) != 2,
        a[i].weight == b[i].weight,
        a[j].weight == b[j].weight,
        a[i].metrics.last_selected == b[i].metrics.last_selected,
        a[j].metrics.last_selected == b[j].metrics.last_selected,
    ensures
        precedes(a, i, j) == precedes(b, i, j),
{
}

/// The endpoints of `order` that are of the given tier.
pub open spec fn of_tier(
    endpoints: Seq<RpcEndpointView>,
    order: Seq<usize>,
    tier: u8,
) -> Seq<usize> {
    order.filter(|i: usize| tier_of(endpoints[i as int].weight) == tier)
}

proof fn lemma_tiers_in_order(
    endpoints: Seq<RpcEndpointView>,
    now: u64,
    order: Seq<usize>,
    p: int,
    q: int,
)
    requires
        is_ranking(endpoints, now, order),
        0 <= p <= q < order.len(),
    ensures
        tier_of(endpoints[order[p] as int].weight) <= tier_of(endpoints[order[q] as int].weight),
{
    assert(eligible(endpoints[order[p] as int], now));
    assert(eligible(endpoints[order[q] as int], now));
    if p < q {
        assert(precedence(endpoints)(order[p] as int, order[q] as int));
    }
}

proof fn lemma_none_of_tier(
    endpoints: Seq<RpcEndpointView>,
    order: Seq<usize>,
    tier: u8,
    p: int,
)
    requires
        0 <= p <= order.len(),
        forall|q: int| 0 <= q < p ==> tier_of(endpoints[#[trigger] order[q] as int].weight) != tier,
    ensures
        of_tier(endpoints, order.take(p), tier).len() == 0,
    decreases p,
{
    reveal(Seq::filter);
    if p > 0 {
        lemma_none_of_tier(endpoints, order, tier, p - 1);
        assert(order.take(p).drop_last() == order.take(p - 1));
        assert(order.take(p).last() == order[p - 1]);
    }
}

/// The tiers come one after the other in the order in which endpoints are tried, and the rank of an
/// endpoint is the number of endpoints of its tier that are tried before it.
pub proof fn law_rank_counts_tier(
    endpoints: Seq<RpcEndpointView>,
    now: u64,
    order: Seq<usize>,
    p: int,
)
    requires
        is_ranking(endpoints, now, order),
        0 <= p < order.len(),
    ensures
        forall|q: int|
            0 <= q <= p ==> tier_of(endpoints[#[trigger] order[q] as int].weight) <= tier_of(
                endpoints[order[p] as int].weight,
            ),
        rank_in_tier(endpoints, order, p) == of_tier(
            endpoints,
            order.take(p),
            tier_of(endpoints[order[p] as int].weight),
        ).len(),
    decreases p,
{
    reveal(Seq::filter);
    let tier = tier_of(endpoints[order[p] as int].weight);
    assert forall|q: int| 0 <= q <= p implies tier_of(endpoints[#[trigger] order[q] as int].weight)
        <= tier by {
        lemma_tiers_in_order(endpoints, now, order, q, p);
    }
    if p > 0 {
        assert(order.take(p).drop_last() == order.take(p - 1));
        assert(order.take(p).last() == order[p - 1]);
        if tier_of(endpoints[order[p - 1] as int].weight) == tier {
            law_rank_counts_tier(endpoints, now, order, p - 1);
        } else {
            assert forall|q: int| 0 <= q < p implies tier_of(
                endpoints[#[trigger] order[q] as int].weight,
            ) != tier by {
                lemma_tiers_in_order(endpoints, now, order, q, p - 1);
            }
            lemma_none_of_tier(endpoints, order, tier, p);
        }
    }
}

/// A limiter that has let nothing through yet has room for any batch up to its burst size.
pub proof fn law_fresh_limiter_takes_burst(burst_size: u32, rate_limit_per_sec: u32, batch_size: u32)
    requires
        burst_size > 0,
        rate_limit_per_sec > 0,
        batch_size <= burst_size,
    ensures
        fresh_bucket(burst_size, rate_limit_per_sec).surely_fits(batch_size as nat),
{
    let bucket = fresh_bucket(burst_size, rate_limit_per_sec);
    let n = batch_size as int;
    let c = bucket.capacity as int;
    let p = bucket.period as int;
    vstd::arithmetic::div_mod::lemma_fundamental_div_mod(p, c);
    assert(n * (p / c) <= c * (p / c)) by (nonlinear_arith)
        requires
            0 <= n <= c,
            0 < c,
            0 <= p,
    ;
}

/// Whatever a limiter with accepted limits has let through, it never lets through a batch larger
/// than its burst size.
pub proof fn law_batch_over_burst_never_taken(
    burst_size: u32,
    rate_limit_per_sec: u32,
    granted: nat,
    batch_size: nat,
)
    requires
        1 <= burst_size <= MAX_BURST_SIZE,
        1 <= rate_limit_per_sec <= MAX_RATE_LIMIT,
        batch_size > burst_size,
    ensures
        (BucketView { granted, ..fresh_bucket(burst_size, rate_limit_per_sec) }).never_fits(
            batch_size,
        ),
{
    let bucket = fresh_bucket(burst_size, rate_limit_per_sec);
    let n = batch_size as int;
    let c = bucket.capacity as int;
    let p = bucket.period as int;
    let total = burst_size * NANOS_PER_SEC;
    let rate = rate_limit_per_sec as int;
    let interval = p / c;
    vstd::arithmetic::div_mod::lemma_fundamental_div_mod(total, rate);
    vstd::arithmetic::div_mod::lemma_fundamental_div_mod(p, c);
    vstd::arithmetic::div_mod::lemma_mod_bound(total, rate);
    vstd::arithmetic::div_mod::lemma_mod_bound(p, c);
    assert(p >= c * 10_000) by (nonlinear_arith)
        requires
            c * 1_000_000_000 == rate * p + total % rate,
            0 <= total % rate < rate,
            1 <= rate <= 100_000,
            1 <= c,
    ;
    assert(interval >= 10_000) by (nonlinear_arith)
        requires
            p >= c * 10_000,
            p == c * interval + p % c,
            0 <= p % c < c,
            1 <= c,
    ;
    assert(n * interval >= c * interval + interval) by (nonlinear_arith)
        requires
            n >= c + 1,
            interval >= 0,
    ;
}

/// What a limiter is asked and what it answers, in numbers. More requests than it can count are
/// refused. No requests at all, and requests to an address without a limiter, are always let
/// through and counted nowhere. Otherwise the requests that are let through are counted, all of
/// them, and none that are refused; what fits beside everything counted so far is let through, and
/// what does not fit into the empty limiter is refused. Other limiters are left alone.
pub proof fn law_reservation_in_numbers(
    before: Map<Seq<char>, BucketView>,
    url: Seq<char>,
    batch_size: usize,
    granted: bool,
    after: Map<Seq<char>, BucketView>,
    other: Seq<char>,
)
    requires
        reservation(before, url, batch_size, granted, after),
    ensures
        batch_size > 0xffff_ffff ==> !granted,
        batch_size == 0 ==> granted && after == before,
        batch_size <= 0xffff_ffff && !before.contains_key(url) ==> granted && after == before,
        !granted ==> after == before,
        other != url ==> after.contains_key(other) == before.contains_key(other) && (
        before.contains_key(other) ==> after[other] == before[other]),
        before.contains_key(url) && 0 < batch_size <= 0xffff_ffff ==> {
            let interval = before[url].period / before[url].capacity;
            &&& after.contains_key(url)
            &&& after[url].capacity == before[url].capacity
            &&& after[url].period == before[url].period
            &&& granted ==> after[url].granted == before[url].granted + batch_size
            &&& !granted ==> after[url].granted == before[url].granted
            &&& (before[url].granted + batch_size) * interval <= before[url].period ==> granted
            &&& batch_size * interval > before[url].period ==> !granted
        },
{
    if !granted && before.contains_key(url) {
        assert(after =~= before);
    }
}

} // verus!
