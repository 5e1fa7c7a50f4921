//! Starting the balancer and giving it another configuration.

use vstd::prelude::*;

use crate::balancer::{
    addresses_distinct, client_settings_of, fresh_limiters, initial_state, lemma_position_of,
    new_endpoint, position_of, settings_of, LoadBalancerView,
};
use crate::config::{
    lemma_finalized_endpoints, lists_url, urls_distinct, ConfigView, EndpointConfigView,
};
use crate::config_reloader::{
    endpoint_at, fresh_bucket, modifies, reload_changes, reloaded_limiter, reloaded_limiters,
    reloaded_state, same_limits, urls_added, urls_modified, urls_removed,
    ConfigChangesView,
};
use crate::endpoint::RpcEndpointView;
use crate::laws::selection::{law_fresh_limiter_takes_burst, law_room_is_found};
use crate::limiter::BucketView;
use crate::strategy::{eligible, selects, Selection};

verus! {

/// The endpoints that a final configuration names.
pub open spec fn endpoints_of(config: ConfigView) -> Seq<EndpointConfigView> {
    config.finalized().balancer.unwrap().endpoints.unwrap()
}

proof fn lemma_distinct_drop_last(list: Seq<EndpointConfigView>)
    requires
        urls_distinct(list),
        list.len() > 0,
    ensures
        urls_distinct(list.drop_last()),
{
    let shorter = list.drop_last();
    assert forall|i: int, j: int| 0 <= i < j < shorter.len() implies (#[trigger] shorter[i]).url
        != (#[trigger] shorter[j]).url by {
        assert(list[i].url != list[j].url);
    }
}

proof fn lemma_fresh_limiters(list: Seq<EndpointConfigView>)
    requires
        urls_distinct(list),
    ensures
        forall|url: Seq<char>| #[trigger]
            fresh_limiters(list).contains_key(url) <==> lists_url(list, url),
        forall|i: int|
            0 <= i < list.len() ==> fresh_limiters(list)[(#[trigger] list[i]).url] == fresh_bucket(
                list[i].burst_size,
                list[i].rate_limit_per_sec,
            ),
    decreases list.len(),
{
    if list.len() > 0 {
        let shorter = list.drop_last();
        let n = list.len() - 1;
        lemma_distinct_drop_last(list);
        lemma_fresh_limiters(shorter);
        assert forall|url: Seq<char>| #[trigger]
            fresh_limiters(list).contains_key(url) <==> lists_url(list, url) by {
            lemma_lists_url_push(list, url);
            assert(fresh_limiters(shorter).contains_key(url) <==> lists_url(shorter, url));
        }
        assert forall|i: int| 0 <= i < list.len() implies fresh_limiters(list)[(
        #[trigger] list[i]).url] == fresh_bucket(
            list[i].burst_size,
            list[i].rate_limit_per_sec,
        ) by {
            if i < n {
                assert(list[i].url != list[n].url);
                assert(shorter[i] == list[i]);
            }
        }
    }
}

proof fn lemma_reloaded_limiters(
    current: Seq<RpcEndpointView>,
    limiters: Map<Seq<char>, BucketView>,
    list: Seq<EndpointConfigView>,
)
    requires
        urls_distinct(list),
    ensures
        forall|url: Seq<char>| #[trigger]
            reloaded_limiters(current, limiters, list).contains_key(url) ==> lists_url(list, url),
        forall|i: int|
            0 <= i < list.len() ==> reloaded_limiters(current, limiters, list).contains_key(
                (#[trigger] list[i]).url,
            ) == (reloaded_limiter(current, limiters, list[i]) is Some),
        forall|i: int|
            0 <= i < list.len() && reloaded_limiter(current, limiters, list[i]) is Some
                ==> reloaded_limiters(current, limiters, list)[(#[trigger] list[i]).url]
                == reloaded_limiter(current, limiters, list[i]).unwrap(),
    decreases list.len(),
{
    if list.len() > 0 {
        let shorter = list.drop_last();
        let n = list.len() - 1;
        lemma_distinct_drop_last(list);
        lemma_reloaded_limiters(current, limiters, shorter);
        let all = reloaded_limiters(current, limiters, list);
        assert(list[n] == list.last());
        assert forall|url: Seq<char>| #[trigger] all.contains_key(url) implies lists_url(
            list,
            url,
        ) by {
            if reloaded_limiters(current, limiters, shorter).contains_key(url) {
                let i = choose|i: int| 0 <= i < shorter.len() && (#[trigger] shorter[i]).url == url;
                assert(list[i].url == url);
            } else {
                assert(list[n].url == url);
            }
        }
        assert forall|i: int| 0 <= i < list.len() implies all.contains_key((#[trigger] list[i]).url)
            == (reloaded_limiter(current, limiters, list[i]) is Some) && (reloaded_limiter(
            current,
            limiters,
            list[i],
        ) is Some ==> all[list[i].url] == reloaded_limiter(
            current,
            limiters,
            list[i],
        ).unwrap()) by {
            if i < n {
                assert(list[i].url != list[n].url);
                assert(shorter[i] == list[i]);
            } else {
                if reloaded_limiters(current, limiters, shorter).contains_key(list[n].url) {
                    let k = choose|k: int|
                        0 <= k < shorter.len() && (#[trigger] shorter[k]).url == list[n].url;
                    assert(list[k].url != list[n].url);
                }
            }
        }
    }
}

proof fn lemma_position_in(endpoints: Seq<RpcEndpointView>, list: Seq<EndpointConfigView>, i: int)
    requires
        urls_distinct(list),
        endpoints.len() == list.len(),
        forall|k: int| 0 <= k < list.len() ==> (#[trigger] endpoints[k]).url == list[k].url,
        0 <= i < list.len(),
    ensures
        position_of(endpoints, list[i].url) == Some(i),
{
    lemma_position_of(endpoints, list[i].url);
    match position_of(endpoints, list[i].url) {
        Some(k) => {
            assert(endpoints[k].url == list[k].url);
            if k < i {
                assert(list[k].url != list[i].url);
            }
            if i < k {
                assert(endpoints[i].url != list[i].url);
            }
        },
        None => {
            assert(endpoints[i].url == list[i].url);
        },
    }
}

/// A balancer starts with the configured endpoints, all of them healthy and in no cooldown, and
/// any of them that has weight makes sure that a batch up to its burst size finds an endpoint.
pub proof fn law_fresh_balancer_serves(
    config: ConfigView,
    config_path: Seq<char>,
    now: u64,
    later: u64,
    batch_size: usize,
    after: Map<Seq<char>, BucketView>,
    selection: Selection,
    j: usize,
)
    requires
        ({
            let state = initial_state(config, config_path, now);
            &&& state.endpoints.len() <= usize::MAX
            &&& j < state.endpoints.len()
            &&& state.endpoints[j as int].weight > 0
            &&& batch_size <= state.endpoints[j as int].burst_size
            &&& selects(
                state.endpoints,
                later,
                batch_size,
                state.rate_limiters,
                after,
                selection,
            )
        }),
    ensures
        forall|i: int|
            0 <= i < initial_state(config, config_path, now).endpoints.len() ==> (
            #[trigger] initial_state(config, config_path, now).endpoints[i]).available(later),
        selection.selected is Some,
{
    let state = initial_state(config, config_path, now);
    let list = endpoints_of(config);
    lemma_finalized_endpoints(config.balancer_settings());
    lemma_fresh_limiters(list);
    let endpoint = state.endpoints[j as int];
    assert(list[j as int].url == endpoint.url);
    law_fresh_limiter_takes_burst(
        endpoint.burst_size,
        endpoint.rate_limit_per_sec,
        batch_size as u32,
    );
    assert(eligible(endpoint, later));
    law_room_is_found(
        state.endpoints,
        later,
        batch_size,
        state.rate_limiters,
        after,
        selection,
        j,
    );
}

/// After a reload the balancer has exactly the configured endpoints, in the order in which they
/// are configured, with the configured limits and weights.
pub proof fn law_reload_follows_configuration(state: LoadBalancerView, config: ConfigView, now: u64)
    ensures
        reloaded_state(state, config, now).endpoints.len() == endpoints_of(config).len(),
        forall|i: int|
            0 <= i < endpoints_of(config).len() ==> {
                let endpoint = #[trigger] reloaded_state(state, config, now).endpoints[i];
                let asked = endpoints_of(config)[i];
                &&& endpoint.url == asked.url
                &&& endpoint.rate_limit_per_sec == asked.rate_limit_per_sec
                &&& endpoint.burst_size == asked.burst_size
                &&& endpoint.weight == asked.weight.unwrap()
            },
{
    assert forall|i: int| 0 <= i < endpoints_of(config).len() implies {
        let endpoint = #[trigger] reloaded_state(state, config, now).endpoints[i];
        let asked = endpoints_of(config)[i];
        &&& endpoint.url == asked.url
        &&& endpoint.rate_limit_per_sec == asked.rate_limit_per_sec
        &&& endpoint.burst_size == asked.burst_size
        &&& endpoint.weight == asked.weight.unwrap()
    } by {
        lemma_position_of(state.endpoints, endpoints_of(config)[i].url);
    }
}

/// A reload keeps what is known of an endpoint that was in use already: its health, its cooldown
/// and its metrics. Its limiter is kept as well unless its limits change.
pub proof fn law_reload_keeps_state(
    state: LoadBalancerView,
    config: ConfigView,
    now: u64,
    i: int,
    endpoint: RpcEndpointView,
)
    requires
        0 <= i < endpoints_of(config).len(),
        endpoint_at(state.endpoints, endpoints_of(config)[i].url) == Some(endpoint),
    ensures
        ({
            let kept = reloaded_state(state, config, now).endpoints[i];
            &&& kept.healthy == endpoint.healthy
            &&& kept.last_check == endpoint.last_check
            &&& kept.cooldown_until == endpoint.cooldown_until
            &&& kept.cooldown_attempts == endpoint.cooldown_attempts
            &&& kept.metrics == endpoint.metrics
        }),
        ({
            let before = state.rate_limiters;
            let after = reloaded_state(state, config, now).rate_limiters;
            let url = endpoints_of(config)[i].url;
            if same_limits(endpoint, endpoints_of(config)[i]) {
                &&& after.contains_key(url) == before.contains_key(url)
                &&& before.contains_key(url) ==> after[url] == before[url]
            } else {
                &&& after.contains_key(url)
                &&& after[url] == fresh_bucket(
                    endpoints_of(config)[i].burst_size,
                    endpoints_of(config)[i].rate_limit_per_sec,
                )
            }
        }),
{
    lemma_finalized_endpoints(config.balancer_settings());
    lemma_reloaded_limiters(state.endpoints, state.rate_limiters, endpoints_of(config));
    let asked = endpoints_of(config)[i];
    assert(reloaded_state(state, config, now).rate_limiters.contains_key(asked.url) == (
    reloaded_limiter(state.endpoints, state.rate_limiters, asked) is Some));
}

/// A reload brings in an endpoint that was not in use as a new one: healthy, in no cooldown and
/// with a limiter that has let nothing through.
pub proof fn law_reload_adds_fresh_endpoint(
    state: LoadBalancerView,
    config: ConfigView,
    now: u64,
    i: int,
    later: u64,
)
    requires
        0 <= i < endpoints_of(config).len(),
        endpoint_at(state.endpoints, endpoints_of(config)[i].url) is None,
    ensures
        reloaded_state(state, config, now).endpoints[i].available(later),
        reloaded_state(state, config, now).endpoints[i] == new_endpoint(
            endpoints_of(config)[i],
            config.finalized().balancer.unwrap().timeout_secs.unwrap(),
            now,
        ),
        reloaded_state(state, config, now).rate_limiters.contains_key(endpoints_of(config)[i].url),
        reloaded_state(state, config, now).rate_limiters[endpoints_of(config)[i].url]
            == fresh_bucket(
            endpoints_of(config)[i].burst_size,
            endpoints_of(config)[i].rate_limit_per_sec,
        ),
{
    lemma_finalized_endpoints(config.balancer_settings());
    lemma_reloaded_limiters(state.endpoints, state.rate_limiters, endpoints_of(config));
    let asked = endpoints_of(config)[i];
    assert(reloaded_state(state, config, now).rate_limiters.contains_key(asked.url) == (
    reloaded_limiter(state.endpoints, state.rate_limiters, asked) is Some));
}

/// No limiter outlives its endpoint: after a reload only configured addresses have one.
pub proof fn law_reload_drops_limiters(
    state: LoadBalancerView,
    config: ConfigView,
    now: u64,
    url: Seq<char>,
)
    ensures
        reloaded_state(state, config, now).rate_limiters.contains_key(url) ==> lists_url(
            endpoints_of(config),
            url,
        ),
{
    lemma_finalized_endpoints(config.balancer_settings());
    lemma_reloaded_limiters(state.endpoints, state.rate_limiters, endpoints_of(config));
}

/// What a reload reports: an address is added if it is configured and was not in use, removed if
/// it was in use and is not configured, and modified if it was in use and is configured with
/// other limits or another weight. No address is named twice as removed.
pub proof fn law_reload_reports_changes(
    state: LoadBalancerView,
    config: ConfigView,
    url: Seq<char>,
)
    ensures
        ({
            let list = endpoints_of(config);
            let changes = reload_changes(state, config);
            let in_use = endpoint_at(state.endpoints, url);
            &&& changes.endpoints_added.contains(url) <==> lists_url(list, url) && in_use is None
            &&& changes.endpoints_removed.contains(url) <==> in_use is Some && !lists_url(list, url)
            &&& changes.endpoints_modified.contains(url) <==> exists|i: int|
                0 <= i < list.len() && (#[trigger] list[i]).url == url && in_use is Some
                    && modifies(in_use.unwrap(), list[i])
            &&& changes.endpoints_removed.no_duplicates()
        }),
{
    let list = endpoints_of(config);
    lemma_removed_once(state.endpoints, list);
    lemma_urls_added(state.endpoints, list, url);
    lemma_urls_removed(state.endpoints, list, url);
    lemma_urls_modified(state.endpoints, list, url);
    lemma_position_of(state.endpoints, url);
    if exists|k: int| 0 <= k < state.endpoints.len() && (#[trigger] state.endpoints[k]).url == url {
        let k = choose|k: int|
            0 <= k < state.endpoints.len() && (#[trigger] state.endpoints[k]).url == url;
        assert(state.endpoints[k].url == url);
    }
}

proof fn lemma_push_contains(s: Seq<Seq<char>>, last: Seq<char>, url: Seq<char>)
    ensures
        s.push(last).contains(url) <==> s.contains(url) || last == url,
{
    if s.contains(url) {
        let i = choose|i: int| 0 <= i < s.len() && s[i] == url;
        assert(s.push(last)[i] == url);
    }
    if last == url {
        assert(s.push(last)[s.len() as int] == url);
    }
    if s.push(last).contains(url) {
        let i = choose|i: int| 0 <= i < s.push(last).len() && s.push(last)[i] == url;
        if i < s.len() {
            assert(s[i] == url);
        }
    }
}

proof fn lemma_lists_url_push(list: Seq<EndpointConfigView>, url: Seq<char>)
    requires
        list.len() > 0,
    ensures
        lists_url(list, url) <==> lists_url(list.drop_last(), url) || list.last().url == url,
{
    let shorter = list.drop_last();
    let n = list.len() - 1;
    if lists_url(shorter, url) {
        let i = choose|i: int| 0 <= i < shorter.len() && (#[trigger] shorter[i]).url == url;
        assert(list[i].url == url);
    }
    if lists_url(list, url) {
        let i = choose|i: int| 0 <= i < list.len() && (#[trigger] list[i]).url == url;
        if i < n {
            assert(shorter[i].url == url);
        }
    }
    assert(list[n] == list.last());
}

proof fn lemma_urls_added(
    current: Seq<RpcEndpointView>,
    list: Seq<EndpointConfigView>,
    url: Seq<char>,
)
    ensures
        urls_added(current, list).contains(url) <==> lists_url(list, url) && endpoint_at(
            current,
            url,
        ) is None,
    decreases list.len(),
{
    if list.len() > 0 {
        lemma_urls_added(current, list.drop_last(), url);
        lemma_push_contains(urls_added(current, list.drop_last()), list.last().url, url);
        lemma_lists_url_push(list, url);
    }
}

proof fn lemma_urls_removed(
    current: Seq<RpcEndpointView>,
    list: Seq<EndpointConfigView>,
    url: Seq<char>,
)
    ensures
        urls_removed(current, list).contains(url) <==> !lists_url(list, url) && exists|k: int|
            0 <= k < current.len() && (#[trigger] current[k]).url == url,
    decreases current.len(),
{
    if current.len() > 0 {
        let shorter = current.drop_last();
        let n = current.len() - 1;
        lemma_urls_removed(shorter, list, url);
        lemma_push_contains(urls_removed(shorter, list), current.last().url, url);
        if exists|k: int| 0 <= k < shorter.len() && (#[trigger] shorter[k]).url == url {
            let k = choose|k: int| 0 <= k < shorter.len() && (#[trigger] shorter[k]).url == url;
            assert(current[k].url == url);
        }
        if exists|k: int| 0 <= k < current.len() && (#[trigger] current[k]).url == url {
            let k = choose|k: int| 0 <= k < current.len() && (#[trigger] current[k]).url == url;
            if k < n {
                assert(shorter[k].url == url);
            }
        }
        assert(current[n] == current.last());
    }
}

proof fn lemma_removed_once(current: Seq<RpcEndpointView>, list: Seq<EndpointConfigView>)
    ensures
        urls_removed(current, list).no_duplicates(),
    decreases current.len(),
{
    if current.len() > 0 {
        let rest = urls_removed(current.drop_last(), list);
        let all = urls_removed(current, list);
        lemma_removed_once(current.drop_last(), list);
        assert forall|i: int, j: int| 0 <= i < all.len() && 0 <= j < all.len() && i
            != j implies all[i] != all[j] by {
            if i < rest.len() {
                assert(all[i] == rest[i]);
            }
            if j < rest.len() {
                assert(all[j] == rest[j]);
            }
        }
    }
}

proof fn lemma_urls_modified(
    current: Seq<RpcEndpointView>,
    list: Seq<EndpointConfigView>,
    url: Seq<char>,
)
    ensures
        urls_modified(current, list).contains(url) <==> exists|i: int|
            0 <= i < list.len() && (#[trigger] list[i]).url == url && endpoint_at(
                current,
                url,
            ) is Some && modifies(endpoint_at(current, url).unwrap(), list[i]),
    decreases list.len(),
{
    if list.len() > 0 {
        let shorter = list.drop_last();
        let n = list.len() - 1;
        lemma_urls_modified(current, shorter, url);
        lemma_push_contains(urls_modified(current, shorter), list.last().url, url);
        if exists|i: int|
            0 <= i < shorter.len() && (#[trigger] shorter[i]).url == url && endpoint_at(
                current,
                url,
            ) is Some && modifies(endpoint_at(current, url).unwrap(), shorter[i]) {
            let i = choose|i: int|
                0 <= i < shorter.len() && (#[trigger] shorter[i]).url == url && endpoint_at(
                    current,
                    url,
                ) is Some && modifies(endpoint_at(current, url).unwrap(), shorter[i]);
            assert(list[i].url == url);
        }
        if exists|i: int|
            0 <= i < list.len() && (#[trigger] list[i]).url == url && endpoint_at(
                current,
                url,
            ) is Some && modifies(endpoint_at(current, url).unwrap(), list[i]) {
            let i = choose|i: int|
                0 <= i < list.len() && (#[trigger] list[i]).url == url && endpoint_at(
                    current,
                    url,
                ) is Some && modifies(endpoint_at(current, url).unwrap(), list[i]);
            if i < n {
                assert(shorter[i].url == url);
            }
        }
        assert(list[n] == list.last());
    }
}

/// The endpoints, settings and client settings of `state` are those that `config` asks for.
pub open spec fn configured_by(state: LoadBalancerView, config: ConfigView) -> bool {
    let settings = config.finalized().balancer.unwrap();
    let list = settings.endpoints.unwrap();
    &&& state.endpoints.len() == list.len()
    &&& forall|i: int|
        0 <= i < list.len() ==> {
            let endpoint = #[trigger] state.endpoints[i];
            &&& endpoint.url == list[i].url
            &&& endpoint.rate_limit_per_sec == list[i].rate_limit_per_sec
            &&& endpoint.burst_size == list[i].burst_size
            &&& endpoint.weight == list[i].weight.unwrap()
        }
    &&& forall|url: Seq<char>| #[trigger]
        state.rate_limiters.contains_key(url) ==> lists_url(list, url)
    &&& state.settings == settings_of(settings)
    &&& state.client == client_settings_of(settings)
}

/// A balancer that was just started, or just reloaded, is configured as asked.
pub proof fn law_start_and_reload_configure(
    state: LoadBalancerView,
    config: ConfigView,
    config_path: Seq<char>,
    now: u64,
)
    ensures
        configured_by(initial_state(config, config_path, now), config),
        configured_by(reloaded_state(state, config, now), config),
{
    lemma_finalized_endpoints(config.balancer_settings());
    lemma_fresh_limiters(endpoints_of(config));
    lemma_reloaded_limiters(state.endpoints, state.rate_limiters, endpoints_of(config));
    law_reload_follows_configuration(state, config, now);
}

proof fn lemma_nothing_changes(current: Seq<RpcEndpointView>, list: Seq<EndpointConfigView>, n: int)
    requires
        0 <= n <= list.len(),
        forall|i: int|
            0 <= i < list.len() ==> endpoint_at(current, (#[trigger] list[i]).url) is Some
                && !modifies(endpoint_at(current, list[i].url).unwrap(), list[i]),
    ensures
        urls_added(current, list.take(n)) == Seq::<Seq<char>>::empty(),
        urls_modified(current, list.take(n)) == Seq::<Seq<char>>::empty(),
    decreases n,
{
    if n > 0 {
        lemma_nothing_changes(current, list, n - 1);
        assert(list.take(n).drop_last() == list.take(n - 1));
        assert(list.take(n).last() == list[n - 1]);
    }
}

proof fn lemma_nothing_removed(current: Seq<RpcEndpointView>, list: Seq<EndpointConfigView>, n: int)
    requires
        0 <= n <= current.len(),
        forall|k: int| 0 <= k < current.len() ==> lists_url(list, (#[trigger] current[k]).url),
    ensures
        urls_removed(current.take(n), list) == Seq::<Seq<char>>::empty(),
    decreases n,
{
    if n > 0 {
        lemma_nothing_removed(current, list, n - 1);
        assert(current.take(n).drop_last() == current.take(n - 1));
        assert(current.take(n).last() == current[n - 1]);
    }
}

/// Giving the balancer the configuration that it has already changes nothing, whatever happened to
/// its endpoints in the meantime, and reports no change of an endpoint or of the HTTP client.
pub proof fn law_reload_same_configuration(state: LoadBalancerView, config: ConfigView, now: u64)
    requires
        configured_by(state, config),
    ensures
        reloaded_state(state, config, now) == state,
        reload_changes(state, config) == (ConfigChangesView {
            config_updated: true,
            ..ConfigChangesView::none()
        }),
{
    let list = endpoints_of(config);
    let current = state.endpoints;
    lemma_finalized_endpoints(config.balancer_settings());
    lemma_reloaded_limiters(current, state.rate_limiters, list);
    assert forall|i: int| 0 <= i < list.len() implies endpoint_at(current, (#[trigger] list[i]).url)
        == Some(current[i]) by {
        lemma_position_in(current, list, i);
    }
    assert forall|i: int| 0 <= i < list.len() implies endpoint_at(current, (#[trigger] list[i]).url)
        is Some && !modifies(endpoint_at(current, list[i].url).unwrap(), list[i]) by {
        assert(current[i].url == list[i].url);
    }
    let next = reloaded_state(state, config, now);
    assert forall|i: int| 0 <= i < current.len() implies #[trigger] next.endpoints[i]
        == current[i] by {
        assert(endpoint_at(current, list[i].url) == Some(current[i]));
    }
    assert(next.endpoints =~= current);
    assert forall|url: Seq<char>| #[trigger]
        next.rate_limiters.contains_key(url) == state.rate_limiters.contains_key(url) && (
        next.rate_limiters.contains_key(url) ==> next.rate_limiters[url]
            == state.rate_limiters[url]) by {
        if next.rate_limiters.contains_key(url) || state.rate_limiters.contains_key(url) {
            assert(lists_url(list, url));
            let i = choose|i: int| 0 <= i < list.len() && (#[trigger] list[i]).url == url;
            assert(endpoint_at(current, list[i].url) == Some(current[i]));
            assert(!modifies(current[i], list[i]));
        }
    }
    assert(next.rate_limiters =~= state.rate_limiters);
    assert forall|k: int| 0 <= k < current.len() implies lists_url(
        list,
        (#[trigger] current[k]).url,
    ) by {
        assert(list[k].url == current[k].url);
    }
    lemma_nothing_changes(current, list, list.len() as int);
    lemma_nothing_removed(current, list, current.len() as int);
    assert(list.take(list.len() as int) == list);
    assert(current.take(current.len() as int) == current);
}

/// `bucket` has let nothing through, lets `burst_size` requests through at once, and lets them
/// drain at `rate_limit_per_sec` requests per second, in whole nanoseconds.
pub open spec fn unused_limiter(
    bucket: BucketView,
    burst_size: u32,
    rate_limit_per_sec: u32,
) -> bool {
    &&& bucket.granted == 0
    &&& bucket.capacity == burst_size
    &&& bucket.period * rate_limit_per_sec <= burst_size * 1_000_000_000
    &&& burst_size * 1_000_000_000 < (bucket.period + 1) * rate_limit_per_sec
}

/// A limiter that was just made lets the burst size through at once and the rate limit per second.
pub proof fn law_new_limiter_by_limits(burst_size: u32, rate_limit_per_sec: u32)
    requires
        burst_size > 0,
        rate_limit_per_sec > 0,
    ensures
        unused_limiter(
            fresh_bucket(burst_size, rate_limit_per_sec),
            burst_size,
            rate_limit_per_sec,
        ),
{
    let nanos = burst_size * 1_000_000_000;
    let rate = rate_limit_per_sec as int;
    let period = nanos / rate;
    vstd::arithmetic::div_mod::lemma_fundamental_div_mod(nanos, rate);
    vstd::arithmetic::div_mod::lemma_mod_bound(nanos, rate);
    vstd::arithmetic::div_mod::lemma_div_pos_is_pos(nanos, rate);
    assert(period * rate == rate * period) by (nonlinear_arith);
    assert((period + 1) * rate == rate * period + rate) by (nonlinear_arith);
}

/// The `k`th endpoint of `endpoints` is the one in use at the address `url`.
pub open spec fn in_use_at(endpoints: Seq<RpcEndpointView>, url: Seq<char>, k: int) -> bool {
    &&& 0 <= k < endpoints.len()
    &&& endpoints[k].url == url
    &&& forall|m: int| 0 <= m < k ==> (#[trigger] endpoints[m]).url != url
}

/// No endpoint of `endpoints` has the address `url`.
pub open spec fn not_in_use(endpoints: Seq<RpcEndpointView>, url: Seq<char>) -> bool {
    forall|k: int| 0 <= k < endpoints.len() ==> (#[trigger] endpoints[k]).url != url
}

/// The endpoint in use at an address is the first one with that address.
pub proof fn lemma_endpoint_in_use(endpoints: Seq<RpcEndpointView>, url: Seq<char>, k: int)
    ensures
        in_use_at(endpoints, url, k) ==> position_of(endpoints, url) == Some(k) && endpoint_at(
            endpoints,
            url,
        ) == Some(endpoints[k]),
        not_in_use(endpoints, url) <==> endpoint_at(endpoints, url) is None,
        endpoint_at(endpoints, url) is Some ==> exists|m: int| in_use_at(endpoints, url, m),
{
    lemma_position_of(endpoints, url);
    if let Some(i) = position_of(endpoints, url) {
        assert(in_use_at(endpoints, url, i));
        if in_use_at(endpoints, url, k) {
            if i < k {
                assert(endpoints[i].url != url);
            }
            if k < i {
                assert(endpoints[k].url != url);
            }
        }
    }
}

/// What a reload makes of an endpoint whose address is in use and stays configured. It gets the
/// configured limits and weight, and keeps its health, its cooldown and its metrics. Its limiter
/// stays the one it was if the rate limit and the burst size are both as before; if either differs,
/// it is a new one for the new limits.
pub proof fn law_reload_limiter_follows_limits(
    state: LoadBalancerView,
    config: ConfigView,
    now: u64,
    i: int,
    k: int,
)
    requires
        0 <= i < endpoints_of(config).len(),
        in_use_at(state.endpoints, endpoints_of(config)[i].url, k),
    ensures
        ({
            let asked = endpoints_of(config)[i];
            let before = state.endpoints[k];
            let after = reloaded_state(state, config, now).endpoints[i];
            &&& after.url == asked.url
            &&& after.rate_limit_per_sec == asked.rate_limit_per_sec
            &&& after.burst_size == asked.burst_size
            &&& Some(after.weight) == asked.weight
            &&& after.healthy == before.healthy
            &&& after.last_check == before.last_check
            &&& after.cooldown_until == before.cooldown_until
            &&& after.cooldown_attempts == before.cooldown_attempts
            &&& after.metrics.ema_latency_ms == before.metrics.ema_latency_ms
            &&& after.metrics.ema_error_penalty_ms == before.metrics.ema_error_penalty_ms
            &&& after.metrics.consecutive_failures == before.metrics.consecutive_failures
            &&& after.metrics.last_selected == before.metrics.last_selected
        }),
        ({
            let asked = endpoints_of(config)[i];
            let before = state.rate_limiters;
            let after = reloaded_state(state, config, now).rate_limiters;
            if asked.rate_limit_per_sec == state.endpoints[k].rate_limit_per_sec && asked.burst_size
                == state.endpoints[k].burst_size {
                &&& after.contains_key(asked.url) == before.contains_key(asked.url)
                &&& before.contains_key(asked.url) ==> after[asked.url] == before[asked.url]
            } else {
                &&& after.contains_key(asked.url)
                &&& unused_limiter(
                    after[asked.url],
                    asked.burst_size,
                    asked.rate_limit_per_sec,
                )
            }
        }),
{
    let asked = endpoints_of(config)[i];
    lemma_endpoint_in_use(state.endpoints, asked.url, k);
    lemma_finalized_endpoints(config.balancer_settings());
    lemma_reloaded_limiters(state.endpoints, state.rate_limiters, endpoints_of(config));
    assert(reloaded_state(state, config, now).rate_limiters.contains_key(asked.url) == (
    reloaded_limiter(state.endpoints, state.rate_limiters, asked) is Some));
    law_new_limiter_by_limits(asked.burst_size, asked.rate_limit_per_sec);
}

/// An endpoint that was just configured, at the start or by a reload that brings its address in: it
/// is healthy, in no cooldown and never failed, its latency counts as the whole timeout in
/// milliseconds, and its limiter is a new one for its limits.
pub open spec fn starts_as(
    endpoint: RpcEndpointView,
    limiters: Map<Seq<char>, BucketView>,
    asked: EndpointConfigView,
    timeout_secs: u64,
    now: u64,
) -> bool {
    &&& endpoint.url == asked.url
    &&& endpoint.healthy
    &&& endpoint.last_check == now
    &&& endpoint.cooldown_until is None
    &&& endpoint.cooldown_attempts == 0
    &&& endpoint.rate_limit_per_sec == asked.rate_limit_per_sec
    &&& endpoint.burst_size == asked.burst_size
    &&& Some(endpoint.weight) == asked.weight
    &&& endpoint.metrics.ema_latency_ms == timeout_secs * 1000
    &&& endpoint.metrics.ema_error_penalty_ms == 0
    &&& endpoint.metrics.consecutive_failures == 0
    &&& endpoint.metrics.last_selected == 0
    &&& limiters.contains_key(asked.url)
    &&& unused_limiter(limiters[asked.url], asked.burst_size, asked.rate_limit_per_sec)
}

/// At the start every configured endpoint is a new one, in the order of the configuration, and no
/// other address has a limiter.
pub proof fn law_start_makes_configured_endpoints(
    config: ConfigView,
    config_path: Seq<char>,
    now: u64,
    i: int,
    url: Seq<char>,
)
    requires
        0 <= i < endpoints_of(config).len(),
        config.finalized().balancer.unwrap().timeout_secs.unwrap() * 1000 <= u64::MAX,
    ensures
        initial_state(config, config_path, now).endpoints.len() == endpoints_of(config).len(),
        starts_as(
            initial_state(config, config_path, now).endpoints[i],
            initial_state(config, config_path, now).rate_limiters,
            endpoints_of(config)[i],
            config.finalized().balancer.unwrap().timeout_secs.unwrap(),
            now,
        ),
        initial_state(config, config_path, now).rate_limiters.contains_key(url) ==> exists|j: int|
            0 <= j < endpoints_of(config).len() && (#[trigger] endpoints_of(config)[j]).url == url,
{
    let list = endpoints_of(config);
    lemma_finalized_endpoints(config.balancer_settings());
    lemma_fresh_limiters(list);
    assert(fresh_limiters(list).contains_key(list[i].url) <==> lists_url(list, list[i].url));
    assert(fresh_limiters(list).contains_key(url) <==> lists_url(list, url));
    law_new_limiter_by_limits(list[i].burst_size, list[i].rate_limit_per_sec);
}

/// A reload brings in an endpoint whose address was not in use as a new one, leaves the number and
/// the order of the endpoints to the configuration, and keeps no limiter of another address.
pub proof fn law_reload_makes_missing_endpoints(
    state: LoadBalancerView,
    config: ConfigView,
    now: u64,
    i: int,
    url: Seq<char>,
)
    requires
        0 <= i < endpoints_of(config).len(),
        not_in_use(state.endpoints, endpoints_of(config)[i].url),
        config.finalized().balancer.unwrap().timeout_secs.unwrap() * 1000 <= u64::MAX,
    ensures
        reloaded_state(state, config, now).endpoints.len() == endpoints_of(config).len(),
        starts_as(
            reloaded_state(state, config, now).endpoints[i],
            reloaded_state(state, config, now).rate_limiters,
            endpoints_of(config)[i],
            config.finalized().balancer.unwrap().timeout_secs.unwrap(),
            now,
        ),
        reloaded_state(state, config, now).rate_limiters.contains_key(url) ==> exists|j: int|
            0 <= j < endpoints_of(config).len() && (#[trigger] endpoints_of(config)[j]).url == url,
{
    let asked = endpoints_of(config)[i];
    lemma_endpoint_in_use(state.endpoints, asked.url, 0);
    lemma_finalized_endpoints(config.balancer_settings());
    lemma_reloaded_limiters(state.endpoints, state.rate_limiters, endpoints_of(config));
    assert(reloaded_state(state, config, now).rate_limiters.contains_key(asked.url) == (
    reloaded_limiter(state.endpoints, state.rate_limiters, asked) is Some));
    law_new_limiter_by_limits(asked.burst_size, asked.rate_limit_per_sec);
}

/// A configured endpoint is in use at `k` with another rate limit, burst size or weight.
pub open spec fn differs_at(
    endpoints: Seq<RpcEndpointView>,
    asked: EndpointConfigView,
    k: int,
) -> bool {
    &&& in_use_at(endpoints, asked.url, k)
    &&& endpoints[k].rate_limit_per_sec != asked.rate_limit_per_sec || endpoints[k].burst_size
        != asked.burst_size || Some(endpoints[k].weight) != asked.weight
}

/// What a reload reports, in the order of the configuration: as added the configured addresses that
/// were not in use, and as modified those that were in use with another rate limit, burst size or
/// weight. As removed it reports, in the order of the endpoints, the addresses in use that are not
/// configured. The client is rebuilt exactly if one of its four settings is another one than
/// before.
pub proof fn law_reload_reports_by_fields(state: LoadBalancerView, config: ConfigView)
    requires
        addresses_distinct(state.endpoints),
    ensures
        reload_changes(state, config).endpoints_added == endpoints_of(config).filter(
            |e: EndpointConfigView| not_in_use(state.endpoints, e.url),
        ).map_values(|e: EndpointConfigView| e.url),
        reload_changes(state, config).endpoints_modified == endpoints_of(config).filter(
            |e: EndpointConfigView| exists|k: int| differs_at(state.endpoints, e, k),
        ).map_values(|e: EndpointConfigView| e.url),
        reload_changes(state, config).endpoints_removed == state.endpoints.filter(
            |e: RpcEndpointView|
                forall|i: int|
                    0 <= i < endpoints_of(config).len() ==> (#[trigger] endpoints_of(config)[i]).url
                        != e.url,
        ).map_values(|e: RpcEndpointView| e.url),
        reload_changes(state, config).config_updated,
        ({
            let asked = config.finalized().balancer.unwrap();
            reload_changes(state, config).client_rebuilt <==> {
                ||| Some(state.client.connect_timeout_ms) != asked.connect_timeout_ms
                ||| Some(state.client.timeout_secs) != asked.timeout_secs
                ||| Some(state.client.pool_idle_timeout_secs) != asked.pool_idle_timeout_secs
                ||| Some(state.client.pool_max_idle_per_host) != asked.pool_max_idle_per_host
            }
        }),
{
    lemma_finalized_endpoints(config.balancer_settings());
    lemma_reported_in_order(state.endpoints, endpoints_of(config));
    lemma_removed_in_order(state.endpoints, endpoints_of(config));
}

/// An address is reported as modified exactly if it was in use and is configured with another rate
/// limit, another burst size or another weight.
pub proof fn law_modified_by_fields(
    state: LoadBalancerView,
    config: ConfigView,
    i: int,
    k: int,
)
    requires
        0 <= i < endpoints_of(config).len(),
        in_use_at(state.endpoints, endpoints_of(config)[i].url, k),
    ensures
        reload_changes(state, config).endpoints_modified.contains(endpoints_of(config)[i].url) <==> {
            ||| state.endpoints[k].rate_limit_per_sec != endpoints_of(config)[i].rate_limit_per_sec
            ||| state.endpoints[k].burst_size != endpoints_of(config)[i].burst_size
            ||| Some(state.endpoints[k].weight) != endpoints_of(config)[i].weight
        },
        !reload_changes(state, config).endpoints_added.contains(endpoints_of(config)[i].url),
        !reload_changes(state, config).endpoints_removed.contains(endpoints_of(config)[i].url),
{
    let list = endpoints_of(config);
    let url = list[i].url;
    lemma_finalized_endpoints(config.balancer_settings());
    lemma_endpoint_in_use(state.endpoints, url, k);
    law_reload_reports_changes(state, config, url);
    assert(lists_url(list, url));
    if exists|j: int|
        0 <= j < list.len() && (#[trigger] list[j]).url == url && modifies(
            state.endpoints[k],
            list[j],
        ) {
        let j = choose|j: int|
            0 <= j < list.len() && (#[trigger] list[j]).url == url && modifies(
                state.endpoints[k],
                list[j],
            );
        if j < i {
            assert(list[j].url != list[i].url);
        }
        if i < j {
            assert(list[i].url != list[j].url);
        }
    }
    assert(list[i].url == url);
}

proof fn lemma_reported_in_order(current: Seq<RpcEndpointView>, list: Seq<EndpointConfigView>)
    requires
        forall|i: int| 0 <= i < list.len() ==> (#[trigger] list[i]).weight is Some,
    ensures
        urls_added(current, list) == list.filter(
            |e: EndpointConfigView| not_in_use(current, e.url),
        ).map_values(|e: EndpointConfigView| e.url),
        urls_modified(current, list) == list.filter(
            |e: EndpointConfigView| exists|k: int| differs_at(current, e, k),
        ).map_values(|e: EndpointConfigView| e.url),
    decreases list.len(),
{
    reveal(Seq::filter);
    if list.len() > 0 {
        let shorter = list.drop_last();
        assert forall|i: int| 0 <= i < shorter.len() implies (#[trigger] shorter[i]).weight is Some by {
            assert(shorter[i] == list[i]);
        }
        lemma_reported_in_order(current, shorter);
        let last = list.last();
        assert(last == list[list.len() - 1]);
        lemma_endpoint_in_use(current, last.url, 0);
        let url_of = |e: EndpointConfigView| e.url;
        let is_new = |e: EndpointConfigView| not_in_use(current, e.url);
        let is_changed = |e: EndpointConfigView| exists|k: int| differs_at(current, e, k);
        assert(shorter.filter(is_new).push(last).map_values(url_of) == shorter.filter(
            is_new,
        ).map_values(url_of).push(last.url));
        assert(shorter.filter(is_changed).push(last).map_values(url_of) == shorter.filter(
            is_changed,
        ).map_values(url_of).push(last.url));
        if endpoint_at(current, last.url) is Some {
            let m = choose|m: int| in_use_at(current, last.url, m);
            lemma_endpoint_in_use(current, last.url, m);
            if is_changed(last) {
                let k = choose|k: int| differs_at(current, last, k);
                lemma_endpoint_in_use(current, last.url, k);
            }
            if modifies(current[m], last) {
                assert(differs_at(current, last, m));
            }
        } else {
            if is_changed(last) {
                let k = choose|k: int| differs_at(current, last, k);
                assert(in_use_at(current, last.url, k));
                assert(current[k].url != last.url);
            }
        }
    }
}

proof fn lemma_removed_in_order(current: Seq<RpcEndpointView>, list: Seq<EndpointConfigView>)
    requires
        addresses_distinct(current),
    ensures
        urls_removed(current, list) == current.filter(
            |e: RpcEndpointView|
                forall|i: int| 0 <= i < list.len() ==> (#[trigger] list[i]).url != e.url,
        ).map_values(|e: RpcEndpointView| e.url),
    decreases current.len(),
{
    reveal(Seq::filter);
    if current.len() > 0 {
        let shorter = current.drop_last();
        assert forall|i: int, j: int| 0 <= i < j < shorter.len() implies (
        #[trigger] shorter[i]).url != (#[trigger] shorter[j]).url by {
            assert(current[i].url != current[j].url);
        }
        lemma_removed_in_order(shorter, list);
        let last = current.last();
        let url_of = |e: RpcEndpointView| e.url;
        let is_gone = |e: RpcEndpointView|
            forall|i: int| 0 <= i < list.len() ==> (#[trigger] list[i]).url != e.url;
        assert(shorter.filter(is_gone).push(last).map_values(url_of) == shorter.filter(
            is_gone,
        ).map_values(url_of).push(last.url));
        lemma_urls_removed(shorter, list, last.url);
        if urls_removed(shorter, list).contains(last.url) {
            let k = choose|k: int| 0 <= k < shorter.len() && (#[trigger] shorter[k]).url == last.url;
            assert(current[k].url != current[current.len() - 1].url);
        }
    }
}

} // verus!
