//! Reloading the configuration while the balancer runs.

use vstd::prelude::*;
use vstd::string::*;

use crate::balancer::{
    client_settings_of, config_or_unset, find_endpoint, lemma_position_of, make_endpoint,
    new_endpoint, position_of, settings_of, BalancerSettings, ClientSettings, LoadBalancer,
    LoadBalancerView,
};
use crate::config::{
    contains_url, endpoint_views, lemma_finalized_endpoints, limits_acceptable, lists_url,
    urls_distinct, Config, ConfigError, ConfigView, EndpointConfig, EndpointConfigView,
    NO_VALID_ENDPOINTS,
};
use crate::endpoint::{LoadBalancerError, RpcEndpoint, RpcEndpointView};
use crate::limiter::{BucketView, RateLimiter, RateLimiters, NANOS_PER_SEC};
use crate::strategy::endpoint_states;

verus! {

/// The bucket of a limiter that was just made for an endpoint.
pub open spec fn fresh_bucket(burst_size: u32, rate_limit_per_sec: u32) -> BucketView {
    BucketView {
        capacity: burst_size as nat,
        period: (burst_size * NANOS_PER_SEC / rate_limit_per_sec as int) as nat,
        granted: 0,
    }
}

/// A limiter that lets `burst_size` requests through at once and `rate_limit_per_sec` requests per
/// second in the long run.
pub fn create_rate_limiter(burst_size: u32, rate_limit_per_sec: u32) -> (r: RateLimiter)
    requires
        0 < burst_size,
        0 < rate_limit_per_sec,
    ensures
        r@ == fresh_bucket(burst_size, rate_limit_per_sec),
{
    let nanos: u64 = burst_size as u64 * NANOS_PER_SEC;
    let period: u64 = nanos / rate_limit_per_sec as u64;
    proof {
        vstd::arithmetic::div_mod::lemma_div_is_ordered_by_denominator(
            nanos as int,
            1,
            rate_limit_per_sec as int,
        );
    }
    RateLimiter::new(burst_size, period)
}

/// What changed when the configuration was reloaded.
#[derive(Debug)]
pub struct ConfigChanges {
    pub endpoints_added: Vec<String>,
    pub endpoints_removed: Vec<String>,
    pub endpoints_modified: Vec<String>,
    pub config_updated: bool,
    pub client_rebuilt: bool,
}

/// What a [`ConfigChanges`] says.
pub struct ConfigChangesView {
    pub endpoints_added: Seq<Seq<char>>,
    pub endpoints_removed: Seq<Seq<char>>,
    pub endpoints_modified: Seq<Seq<char>>,
    pub config_updated: bool,
    pub client_rebuilt: bool,
}

/// The texts of a sequence of strings.
pub open spec fn texts(strings: Seq<String>) -> Seq<Seq<char>> {
    strings.map_values(|s: String| s@)
}

impl View for ConfigChanges {
    type V = ConfigChangesView;

    open spec fn view(&self) -> ConfigChangesView {
        ConfigChangesView {
            endpoints_added: texts(self.endpoints_added@),
            endpoints_removed: texts(self.endpoints_removed@),
            endpoints_modified: texts(self.endpoints_modified@),
            config_updated: self.config_updated,
            client_rebuilt: self.client_rebuilt,
        }
    }
}

impl ConfigChangesView {
    /// Nothing changed.
    pub open spec fn none() -> ConfigChangesView {
        ConfigChangesView {
            endpoints_added: Seq::empty(),
            endpoints_removed: Seq::empty(),
            endpoints_modified: Seq::empty(),
            config_updated: false,
            client_rebuilt: false,
        }
    }
}

impl Default for ConfigChanges {
    fn default() -> (r: Self)
        ensures
            r@ == ConfigChangesView::none(),
    {
        let r = ConfigChanges {
            endpoints_added: Vec::new(),
            endpoints_removed: Vec::new(),
            endpoints_modified: Vec::new(),
            config_updated: false,
            client_rebuilt: false,
        };
        assert(r@.endpoints_added == Seq::<Seq<char>>::empty());
        assert(r@.endpoints_removed == Seq::<Seq<char>>::empty());
        assert(r@.endpoints_modified == Seq::<Seq<char>>::empty());
        r
    }
}

/// The answer to a request to reload the configuration.
#[derive(Debug)]
pub struct ReloadResponse {
    pub success: bool,
    pub message: String,
    pub error: Option<String>,
    pub changes: ConfigChanges,
}

/// The endpoint at `current`, if the address `url` is in use.
pub open spec fn endpoint_at(
    current: Seq<RpcEndpointView>,
    url: Seq<char>,
) -> Option<RpcEndpointView> {
    match position_of(current, url) {
        Some(i) => Some(current[i]),
        None => None,
    }
}

/// `config` limits the rate of `endpoint` as it is limited already.
pub open spec fn same_limits(endpoint: RpcEndpointView, config: EndpointConfigView) -> bool {
    endpoint.rate_limit_per_sec == config.rate_limit_per_sec && endpoint.burst_size
        == config.burst_size
}

/// The endpoint that `config` asks for: the one in use at its address with the new limits and
/// weight, or a new one.
pub open spec fn reloaded_endpoint(
    current: Seq<RpcEndpointView>,
    config: EndpointConfigView,
    timeout_secs: u64,
    now: u64,
) -> RpcEndpointView {
    match endpoint_at(current, config.url) {
        Some(endpoint) => RpcEndpointView {
            rate_limit_per_sec: config.rate_limit_per_sec,
            burst_size: config.burst_size,
            weight: config.weight.unwrap(),
            ..endpoint
        },
        None => new_endpoint(config, timeout_secs, now),
    }
}

/// The limiter for the endpoint that `config` asks for: the one in use if the limits stay as they
/// are, or a new one.
pub open spec fn reloaded_limiter(
    current: Seq<RpcEndpointView>,
    limiters: Map<Seq<char>, BucketView>,
    config: EndpointConfigView,
) -> Option<BucketView> {
    match endpoint_at(current, config.url) {
        Some(endpoint) if same_limits(endpoint, config) => if limiters.contains_key(config.url) {
            Some(limiters[config.url])
        } else {
            None
        },
        _ => Some(fresh_bucket(config.burst_size, config.rate_limit_per_sec)),
    }
}

/// The limiters for the endpoints that `list` asks for.
pub open spec fn reloaded_limiters(
    current: Seq<RpcEndpointView>,
    limiters: Map<Seq<char>, BucketView>,
    list: Seq<EndpointConfigView>,
) -> Map<Seq<char>, BucketView>
    decreases list.len(),
{
    if list.len() == 0 {
        Map::empty()
    } else {
        let rest = reloaded_limiters(current, limiters, list.drop_last());
        match reloaded_limiter(current, limiters, list.last()) {
            Some(bucket) => rest.insert(list.last().url, bucket),
            None => rest,
        }
    }
}

/// The addresses of `list` that are not in use yet.
pub open spec fn urls_added(
    current: Seq<RpcEndpointView>,
    list: Seq<EndpointConfigView>,
) -> Seq<Seq<char>>
    decreases list.len(),
{
    if list.len() == 0 {
        Seq::empty()
    } else {
        let rest = urls_added(current, list.drop_last());
        if endpoint_at(current, list.last().url) is None {
            rest.push(list.last().url)
        } else {
            rest
        }
    }
}

/// The addresses in use that `list` does not name, each once.
pub open spec fn urls_removed(
    current: Seq<RpcEndpointView>,
    list: Seq<EndpointConfigView>,
) -> Seq<Seq<char>>
    decreases current.len(),
{
    if current.len() == 0 {
        Seq::empty()
    } else {
        let rest = urls_removed(current.drop_last(), list);
        if lists_url(list, current.last().url) || rest.contains(current.last().url) {
            rest
        } else {
            rest.push(current.last().url)
        }
    }
}

/// `config` gives `endpoint` other limits or another weight.
pub open spec fn modifies(endpoint: RpcEndpointView, config: EndpointConfigView) -> bool {
    !same_limits(endpoint, config) || endpoint.weight != config.weight.unwrap()
}

/// The addresses in use for which `list` has other limits or another weight.
pub open spec fn urls_modified(
    current: Seq<RpcEndpointView>,
    list: Seq<EndpointConfigView>,
) -> Seq<Seq<char>>
    decreases list.len(),
{
    if list.len() == 0 {
        Seq::empty()
    } else {
        let rest = urls_modified(current, list.drop_last());
        match endpoint_at(current, list.last().url) {
            Some(endpoint) if modifies(endpoint, list.last()) => rest.push(list.last().url),
            _ => rest,
        }
    }
}

/// What the balancer holds once it was given `config` at the time `now`.
pub open spec fn reloaded_state(
    state: LoadBalancerView,
    config: ConfigView,
    now: u64,
) -> LoadBalancerView {
    let settings = config.finalized().balancer.unwrap();
    let list = settings.endpoints.unwrap();
    LoadBalancerView {
        endpoints: list.map_values(
            |e: EndpointConfigView|
                reloaded_endpoint(state.endpoints, e, settings.timeout_secs.unwrap(), now),
        ),
        rate_limiters: reloaded_limiters(state.endpoints, state.rate_limiters, list),
        settings: settings_of(settings),
        client: client_settings_of(settings),
        ..state
    }
}

/// What giving the balancer `config` changes.
pub open spec fn reload_changes(state: LoadBalancerView, config: ConfigView) -> ConfigChangesView {
    let settings = config.finalized().balancer.unwrap();
    let list = settings.endpoints.unwrap();
    ConfigChangesView {
        endpoints_added: urls_added(state.endpoints, list),
        endpoints_removed: urls_removed(state.endpoints, list),
        endpoints_modified: urls_modified(state.endpoints, list),
        config_updated: true,
        client_rebuilt: state.client != client_settings_of(settings),
    }
}

/// If giving the balancer `config` brings in a new endpoint, then the timeout, which is the latency
/// that the endpoint starts with, can be counted in milliseconds.
pub open spec fn latency_fits(state: LoadBalancerView, config: ConfigView) -> bool {
    let settings = config.finalized().balancer.unwrap();
    urls_added(state.endpoints, settings.endpoints.unwrap()).len() > 0
        ==> settings.timeout_secs.unwrap() * 1000 <= u64::MAX
}

proof fn lemma_added_covers(
    current: Seq<RpcEndpointView>,
    list: Seq<EndpointConfigView>,
    i: int,
)
    requires
        0 <= i < list.len(),
        endpoint_at(current, list[i].url) is None,
    ensures
        urls_added(current, list).len() > 0,
    decreases list.len(),
{
    if i < list.len() - 1 {
        assert(list.drop_last()[i] == list[i]);
        lemma_added_covers(current, list.drop_last(), i);
    }
}

/// The addresses of `list` that are not in use yet, and those in use for which `list` has other
/// limits or another weight.
fn compare_endpoints(current: &Vec<RpcEndpoint>, list: &Vec<EndpointConfig>) -> (r: (
    Vec<String>,
    Vec<String>,
))
    requires
        forall|k: int| 0 <= k < list@.len() ==> (#[trigger] list@[k]).weight is Some,
    ensures
        texts(r.0@) == urls_added(endpoint_states(current@), endpoint_views(list@)),
        texts(r.1@) == urls_modified(endpoint_states(current@), endpoint_views(list@)),
{
    let ghost states = endpoint_states(current@);
    let ghost views = endpoint_views(list@);
    let mut added: Vec<String> = Vec::new();
    let mut modified: Vec<String> = Vec::new();
    let mut i: usize = 0;
    assert(texts(added@) == urls_added(states, views.take(0)));
    assert(texts(modified@) == urls_modified(states, views.take(0)));
    while i < list.len()
        invariant
            states == endpoint_states(current@),
            views == endpoint_views(list@),
            forall|k: int| 0 <= k < list@.len() ==> (#[trigger] list@[k]).weight is Some,
            i <= list@.len(),
            texts(added@) == urls_added(states, views.take(i as int)),
            texts(modified@) == urls_modified(states, views.take(i as int)),
        decreases list@.len() - i,
    {
        let config = &list[i];
        let ghost added_before = added@;
        let ghost modified_before = modified@;
        proof {
            assert(views.take(i + 1).drop_last() == views.take(i as int));
            assert(views.take(i + 1).last() == config@);
        }
        match find_endpoint(current, &config.url) {
            Some(k) => {
                let endpoint = &current[k];
                assert(states[k as int] == endpoint@);
                if endpoint.rate_limit_per_sec != config.rate_limit_per_sec || endpoint.burst_size
                    != config.burst_size || endpoint.weight != config.weight.unwrap() {
                    modified.push(config.url.clone());
                    assert(texts(modified@) == texts(modified_before).push(config.url@));
                }
            },
            None => {
                added.push(config.url.clone());
                assert(texts(added@) == texts(added_before).push(config.url@));
            },
        }
        i = i + 1;
    }
    assert(views.take(i as int) == views);
    (added, modified)
}

/// Tells whether `url` is one of `urls`.
fn contains_text(urls: &Vec<String>, url: &String) -> (r: bool)
    ensures
        r == texts(urls@).contains(url@),
{
    let mut i: usize = 0;
    while i < urls.len()
        invariant
            i <= urls@.len(),
            forall|k: int| 0 <= k < i ==> (#[trigger] texts(urls@)[k]) != url@,
        decreases urls@.len() - i,
    {
        assert(texts(urls@)[i as int] == urls@[i as int]@);
        if urls[i] == *url {
            return true;
        }
        i = i + 1;
    }
    false
}

/// The addresses in use that `list` does not name, each once.
fn removed_endpoints(current: &Vec<RpcEndpoint>, list: &Vec<EndpointConfig>) -> (r: Vec<String>)
    ensures
        texts(r@) == urls_removed(endpoint_states(current@), endpoint_views(list@)),
{
    let ghost states = endpoint_states(current@);
    let ghost views = endpoint_views(list@);
    let mut removed: Vec<String> = Vec::new();
    let mut i: usize = 0;
    assert(texts(removed@) == urls_removed(states.take(0), views));
    while i < current.len()
        invariant
            states == endpoint_states(current@),
            views == endpoint_views(list@),
            i <= current@.len(),
            texts(removed@) == urls_removed(states.take(i as int), views),
        decreases current@.len() - i,
    {
        let ghost before = removed@;
        proof {
            assert(states.take(i + 1).drop_last() == states.take(i as int));
            assert(states.take(i + 1).last() == current@[i as int]@);
        }
        if !contains_url(list, &current[i].url) && !contains_text(&removed, &current[i].url) {
            removed.push(current[i].url.clone());
            assert(texts(removed@) == texts(before).push(current@[i as int].url@));
        }
        i = i + 1;
    }
    assert(states.take(i as int) == states);
    removed
}

/// The endpoint in use at the address of `config`, with the limits and the weight of `config`.
fn update_endpoint(endpoint: &RpcEndpoint, config: &EndpointConfig) -> (r: RpcEndpoint)
    requires
        config.weight is Some,
    ensures
        r@ == (RpcEndpointView {
            rate_limit_per_sec: config.rate_limit_per_sec,
            burst_size: config.burst_size,
            weight: config.weight.unwrap(),
            ..endpoint@
        }),
{
    RpcEndpoint {
        url: endpoint.url.clone(),
        healthy: endpoint.healthy,
        last_check: endpoint.last_check,
        cooldown_until: endpoint.cooldown_until,
        cooldown_attempts: endpoint.cooldown_attempts,
        rate_limit_per_sec: config.rate_limit_per_sec,
        burst_size: config.burst_size,
        weight: config.weight.unwrap(),
        metrics: endpoint.metrics,
    }
}

/// The endpoints and the limiters that `list` asks for, with the state of those in use kept.
fn rebuild_endpoints(
    current: &Vec<RpcEndpoint>,
    limiters: RateLimiters,
    list: &Vec<EndpointConfig>,
    timeout_secs: u64,
    now: u64,
) -> (r: (Vec<RpcEndpoint>, RateLimiters))
    requires
        urls_distinct(endpoint_views(list@)),
        forall|k: int|
            0 <= k < list@.len() ==> limits_acceptable((#[trigger] list@[k])@)
                && list@[k].weight is Some,
        urls_added(endpoint_states(current@), endpoint_views(list@)).len() > 0 ==> timeout_secs
            * 1000 <= u64::MAX,
    ensures
        endpoint_states(r.0@) == endpoint_views(list@).map_values(
            |e: EndpointConfigView|
                reloaded_endpoint(endpoint_states(current@), e, timeout_secs, now),
        ),
        r.1@ == reloaded_limiters(endpoint_states(current@), limiters@, endpoint_views(list@)),
{
    let ghost states = endpoint_states(current@);
    let ghost views = endpoint_views(list@);
    let ghost buckets = limiters@;
    let ghost wanted = views.map_values(
        |e: EndpointConfigView| reloaded_endpoint(states, e, timeout_secs, now),
    );
    let mut old_limiters = limiters;
    let mut new_limiters = RateLimiters::new();
    let mut endpoints: Vec<RpcEndpoint> = Vec::new();
    let mut i: usize = 0;
    assert(new_limiters@ == reloaded_limiters(states, buckets, views.take(0)));
    while i < list.len()
        invariant
            states == endpoint_states(current@),
            views == endpoint_views(list@),
            wanted == views.map_values(
                |e: EndpointConfigView| reloaded_endpoint(states, e, timeout_secs, now),
            ),
            urls_distinct(views),
            forall|k: int|
                0 <= k < list@.len() ==> limits_acceptable((#[trigger] list@[k])@)
                    && list@[k].weight is Some,
            urls_added(states, views).len() > 0 ==> timeout_secs * 1000 <= u64::MAX,
            i <= list@.len(),
            endpoint_states(endpoints@) == wanted.take(i as int),
            new_limiters@ == reloaded_limiters(states, buckets, views.take(i as int)),
            forall|k: int|
                i <= k < views.len() ==> old_limiters@.contains_key((#[trigger] views[k]).url)
                    == buckets.contains_key(views[k].url),
            forall|k: int|
                i <= k < views.len() && buckets.contains_key((#[trigger] views[k]).url)
                    ==> old_limiters@[views[k].url] == buckets[views[k].url],
        decreases list@.len() - i,
    {
        let config = &list[i];
        let ghost endpoints_before = endpoint_states(endpoints@);
        let ghost old_before = old_limiters@;
        proof {
            assert(views[i as int] == config@);
            assert(limits_acceptable(list@[i as int]@));
            assert(views.take(i + 1).drop_last() == views.take(i as int));
            assert(views.take(i + 1).last() == config@);
            assert(wanted.take(i + 1) == wanted.take(i as int).push(wanted[i as int]));
        }
        match find_endpoint(current, &config.url) {
            Some(k) => {
                let existing = &current[k];
                assert(states[k as int] == existing@);
                endpoints.push(update_endpoint(existing, config));
                if existing.rate_limit_per_sec != config.rate_limit_per_sec || existing.burst_size
                    != config.burst_size {
                    new_limiters.insert(
                        config.url.clone(),
                        create_rate_limiter(config.burst_size, config.rate_limit_per_sec),
                    );
                } else if let Some(limiter) = old_limiters.take(&config.url) {
                    new_limiters.insert(config.url.clone(), limiter);
                }
            },
            None => {
                proof {
                    lemma_added_covers(states, views, i as int);
                }
                endpoints.push(make_endpoint(config, timeout_secs, now));
                new_limiters.insert(
                    config.url.clone(),
                    create_rate_limiter(config.burst_size, config.rate_limit_per_sec),
                );
            },
        }
        proof {
            assert(endpoint_states(endpoints@) == endpoints_before.push(wanted[i as int]));
            assert forall|k: int| i + 1 <= k < views.len() implies old_limiters@.contains_key(
                (#[trigger] views[k]).url,
            ) == buckets.contains_key(views[k].url) && (buckets.contains_key(views[k].url)
                ==> old_limiters@[views[k].url] == buckets[views[k].url]) by {
                assert(views[i as int].url != views[k].url);
                let u = views[k].url;
                assert(old_limiters@.remove(config.url@).contains_key(u)
                    == old_before.remove(config.url@).contains_key(u));
                assert(old_limiters@.remove(config.url@)[u] == old_before.remove(config.url@)[u]);
            }
        }
        i = i + 1;
    }
    proof {
        assert(views.take(i as int) == views);
        assert(wanted.take(i as int) == wanted);
    }
    (endpoints, new_limiters)
}

/// The message of the answer to a reload that succeeded.
pub const RELOAD_SUCCEEDED: &'static str = "Configuration reloaded successfully";

/// The message of the answer to a reload that failed.
pub const RELOAD_FAILED: &'static str = "Configuration reload failed";

/// `r` is the answer to giving the balancer `before` the configuration that was `loaded`, and
/// `after` what the balancer becomes: without a usable configuration it stays as it is.
pub open spec fn reload_answers(
    before: LoadBalancer,
    loaded: Result<Option<Config>, ConfigError>,
    now: u64,
    r: Result<ReloadResponse, LoadBalancerError>,
    after: LoadBalancer,
) -> bool {
    match (loaded, r) {
        (Ok(config), Ok(response)) => {
            &&& config_or_unset(config).is_usable()
            &&& after@ == reloaded_state(before@, config_or_unset(config), now)
            &&& after.wf()
            &&& response.success
            &&& response.message@ == RELOAD_SUCCEEDED@
            &&& response.error is None
            &&& response.changes@ == reload_changes(before@, config_or_unset(config))
        },
        (Ok(config), Err(LoadBalancerError::ConfigError(reason))) => {
            &&& !config_or_unset(config).is_usable()
            &&& after == before
            &&& reason@ == "Configuration error: "@ + NO_VALID_ENDPOINTS@
        },
        (Err(err), Err(LoadBalancerError::ConfigError(reason))) => {
            &&& after == before
            &&& reason@ == err.text()
        },
        _ => false,
    }
}

/// Gives the balancer the configuration that was loaded, or the default one if there is none. If
/// it could not be loaded, or no endpoint of it is usable, the balancer stays as it is.
pub fn reload(
    balancer: &mut LoadBalancer,
    loaded: Result<Option<Config>, ConfigError>,
    now: u64,
) -> (r: Result<ReloadResponse, LoadBalancerError>)
    requires
        loaded matches Ok(config) ==> config_or_unset(config).is_usable() ==> latency_fits(
            old(balancer)@,
            config_or_unset(config),
        ),
    ensures
        reload_answers(*old(balancer), loaded, now, r, *final(balancer)),
{
    let config = match loaded {
        Ok(Some(config)) => config,
        Ok(None) => Config::default(),
        Err(err) => {
            return Err(LoadBalancerError::from(err));
        },
    };
    let ghost asked = config@;
    let config = match config.finalize() {
        Ok(config) => config,
        Err(err) => {
            return Err(LoadBalancerError::from(err));
        },
    };
    proof {
        lemma_finalized_endpoints(asked.balancer_settings());
    }
    let settings = config.balancer.unwrap();
    let next_settings = BalancerSettings::of(&settings);
    let client = ClientSettings::of(&settings);
    let list = settings.endpoints.unwrap();
    let ghost views = endpoint_views(list@);
    assert forall|k: int| 0 <= k < list@.len() implies limits_acceptable((#[trigger] list@[k])@)
        && list@[k].weight is Some by {
        assert(views[k] == list@[k]@);
        assert(limits_acceptable(views[k]));
    }
    let client_rebuilt: bool = balancer.client != client;
    let (endpoints_added, endpoints_modified) = compare_endpoints(&balancer.endpoints, &list);
    let endpoints_removed = removed_endpoints(&balancer.endpoints, &list);
    let mut limiters = RateLimiters::new();
    std::mem::swap(&mut limiters, &mut balancer.rate_limiters);
    let (endpoints, rate_limiters) = rebuild_endpoints(
        &balancer.endpoints,
        limiters,
        &list,
        client.timeout_secs,
        now,
    );
    balancer.endpoints = endpoints;
    balancer.rate_limiters = rate_limiters;
    balancer.client = client;
    balancer.settings = next_settings;
    proof {
        let states = balancer@.endpoints;
        assert forall|a: int, b: int| 0 <= a < b < states.len() implies (#[trigger] states[a]).url
            != (#[trigger] states[b]).url by {
            lemma_position_of(old(balancer)@.endpoints, views[a].url);
            lemma_position_of(old(balancer)@.endpoints, views[b].url);
            assert(views[a].url != views[b].url);
        }
    }
    Ok(
        ReloadResponse {
            success: true,
            message: RELOAD_SUCCEEDED.to_owned(),
            error: None,
            changes: ConfigChanges {
                endpoints_added,
                endpoints_removed,
                endpoints_modified,
                config_updated: true,
                client_rebuilt,
            },
        },
    )
}

/// The answer to a reload that failed with `err`.
pub fn reload_failure(err: &LoadBalancerError) -> (r: ReloadResponse)
    ensures
        !r.success,
        r.message@ == RELOAD_FAILED@,
        r.error matches Some(text) && text@ == err.text(),
        r.changes@ == ConfigChangesView::none(),
{
    ReloadResponse {
        success: false,
        message: RELOAD_FAILED.to_owned(),
        error: Some(err.message()),
        changes: ConfigChanges::default(),
    }
}

} // verus!
