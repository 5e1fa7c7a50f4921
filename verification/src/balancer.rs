//! The load balancer: its state, and what changes it.

use vstd::prelude::*;
use vstd::string::*;

use crate::config::{
    endpoint_views, lemma_finalized_endpoints, limits_acceptable, BalancerConfig,
    BalancerConfigView, Config, ConfigError, ConfigView, EndpointConfig, EndpointConfigView,
};
use crate::config_reloader::{
    create_rate_limiter, fresh_bucket, latency_fits, reload, reload_answers, ReloadResponse,
};
use crate::endpoint::{
    averages, EndpointMetrics, LoadBalancerError, RequestOutcome, RpcEndpoint, RpcEndpointView,
    Smoothing,
};
use crate::limiter::{BucketView, RateLimiters};
use crate::smoothing::SmoothingFactor;
use crate::strategy::{endpoint_states, select_best_endpoint, selects, Selection};
use crate::utils::cooldown::{backoff, cooled_down, next_attempts, trigger_cooldown};

verus! {

/// The settings that say how endpoints are checked, cooled down and used.
#[derive(Clone, Copy, Debug, PartialEq, Eq, Structural)]
pub struct BalancerSettings {
    pub health_check_interval_secs: u64,
    pub health_check_timeout_secs: u64,
    pub base_cooldown_secs: u64,
    pub max_cooldown_secs: u64,
    pub max_batch_size: usize,
    pub latency_smoothing_factor: SmoothingFactor,
}

/// The settings of the HTTP client.
#[derive(Clone, Copy, Debug, PartialEq, Eq, Structural)]
pub struct ClientSettings {
    pub connect_timeout_ms: u64,
    pub timeout_secs: u64,
    pub pool_idle_timeout_secs: u64,
    pub pool_max_idle_per_host: usize,
}

/// The state of the load balancer.
pub struct LoadBalancer {
    pub endpoints: Vec<RpcEndpoint>,
    pub rate_limiters: RateLimiters,
    pub bind_addr: String,
    pub settings: BalancerSettings,
    pub client: ClientSettings,
    pub max_concurrency: usize,
    pub config_path: String,
}

/// What a [`LoadBalancer`] holds.
pub struct LoadBalancerView {
    pub endpoints: Seq<RpcEndpointView>,
    pub rate_limiters: Map<Seq<char>, BucketView>,
    pub bind_addr: Seq<char>,
    pub settings: BalancerSettings,
    pub client: ClientSettings,
    pub max_concurrency: usize,
    pub config_path: Seq<char>,
}

impl View for LoadBalancer {
    type V = LoadBalancerView;

    open spec fn view(&self) -> LoadBalancerView {
        LoadBalancerView {
            endpoints: endpoint_states(self.endpoints@),
            rate_limiters: self.rate_limiters@,
            bind_addr: self.bind_addr@,
            settings: self.settings,
            client: self.client,
            max_concurrency: self.max_concurrency,
            config_path: self.config_path@,
        }
    }
}

/// No two endpoints share an address.
pub open spec fn addresses_distinct(endpoints: Seq<RpcEndpointView>) -> bool {
    forall|i: int, j: int|
        0 <= i < j < endpoints.len() ==> (#[trigger] endpoints[i]).url != (
        #[trigger] endpoints[j]).url
}

/// The first endpoint with the address `url`.
pub open spec fn position_of(endpoints: Seq<RpcEndpointView>, url: Seq<char>) -> Option<int>
    decreases endpoints.len(),
{
    if endpoints.len() == 0 {
        None
    } else {
        match position_of(endpoints.drop_last(), url) {
            Some(i) => Some(i),
            None => if endpoints.last().url == url {
                Some(endpoints.len() - 1)
            } else {
                None
            },
        }
    }
}

/// The position of an address is in range and holds that address; without a position no endpoint
/// has the address.
pub proof fn lemma_position_of(endpoints: Seq<RpcEndpointView>, url: Seq<char>)
    ensures
        match position_of(endpoints, url) {
            Some(i) => {
                &&& 0 <= i < endpoints.len()
                &&& endpoints[i].url == url
                &&& forall|k: int| 0 <= k < i ==> (#[trigger] endpoints[k]).url != url
            },
            None => forall|k: int|
                0 <= k < endpoints.len() ==> (#[trigger] endpoints[k]).url != url,
        },
    decreases endpoints.len(),
{
    if endpoints.len() > 0 {
        let shorter = endpoints.drop_last();
        lemma_position_of(shorter, url);
        assert forall|k: int| 0 <= k < shorter.len() implies #[trigger] shorter[k]
            == endpoints[k] by {}
        match position_of(shorter, url) {
            Some(i) => {
                assert(shorter[i] == endpoints[i]);
                assert forall|k: int| 0 <= k < i implies (#[trigger] endpoints[k]).url != url by {
                    assert(shorter[k] == endpoints[k]);
                }
            },
            None => {
                assert forall|k: int| 0 <= k < endpoints.len() - 1 implies (
                #[trigger] endpoints[k]).url != url by {
                    assert(shorter[k] == endpoints[k]);
                }
            },
        }
    }
}

/// The first endpoint with the address `url`.
pub fn find_endpoint(endpoints: &Vec<RpcEndpoint>, url: &String) -> (r: Option<usize>)
    ensures
        match r {
            Some(i) => {
                &&& i < endpoints@.len()
                &&& position_of(endpoint_states(endpoints@), url@) == Some(i as int)
            },
            None => position_of(endpoint_states(endpoints@), url@) is None,
        },
{
    let ghost states = endpoint_states(endpoints@);
    proof {
        lemma_position_of(states, url@);
    }
    let mut i: usize = 0;
    while i < endpoints.len()
        invariant
            states == endpoint_states(endpoints@),
            i <= endpoints@.len(),
            forall|k: int| 0 <= k < i ==> (#[trigger] states[k]).url != url@,
        decreases endpoints@.len() - i,
    {
        assert(states[i as int] == endpoints@[i as int]@);
        if endpoints[i].url == *url {
            proof {
                lemma_position_of(states, url@);
            }
            return Some(i);
        }
        i = i + 1;
    }
    None
}

/// An endpoint that has just been configured. Until it has answered a request its latency counts
/// as the whole timeout.
pub open spec fn new_endpoint(
    config: EndpointConfigView,
    timeout_secs: u64,
    now: u64,
) -> RpcEndpointView {
    RpcEndpointView {
        url: config.url,
        healthy: true,
        last_check: now,
        cooldown_until: None,
        cooldown_attempts: 0,
        rate_limit_per_sec: config.rate_limit_per_sec,
        burst_size: config.burst_size,
        weight: config.weight.unwrap(),
        metrics: EndpointMetrics {
            ema_latency_ms: (timeout_secs * 1000) as u64,
            ema_error_penalty_ms: 0,
            consecutive_failures: 0,
            last_selected: 0,
        },
    }
}

/// An endpoint that has just been configured.
pub fn make_endpoint(config: &EndpointConfig, timeout_secs: u64, now: u64) -> (r: RpcEndpoint)
    requires
        config.weight is Some,
        timeout_secs * 1000 <= u64::MAX,
    ensures
        r@ == new_endpoint(config@, timeout_secs, now),
{
    RpcEndpoint {
        url: config.url.clone(),
        healthy: true,
        last_check: now,
        cooldown_until: None,
        cooldown_attempts: 0,
        rate_limit_per_sec: config.rate_limit_per_sec,
        burst_size: config.burst_size,
        weight: config.weight.unwrap(),
        metrics: EndpointMetrics {
            ema_latency_ms: timeout_secs * 1000,
            ema_error_penalty_ms: 0,
            consecutive_failures: 0,
            last_selected: 0,
        },
    }
}

/// The settings that a final configuration says.
pub open spec fn settings_of(config: BalancerConfigView) -> BalancerSettings {
    BalancerSettings {
        health_check_interval_secs: config.health_check_interval_secs.unwrap(),
        health_check_timeout_secs: config.health_check_timeout_secs.unwrap(),
        base_cooldown_secs: config.base_cooldown_secs.unwrap(),
        max_cooldown_secs: config.max_cooldown_secs.unwrap(),
        max_batch_size: config.max_batch_size.unwrap(),
        latency_smoothing_factor: config.latency_smoothing_factor.unwrap(),
    }
}

/// The settings of the HTTP client that a final configuration says.
pub open spec fn client_settings_of(config: BalancerConfigView) -> ClientSettings {
    ClientSettings {
        connect_timeout_ms: config.connect_timeout_ms.unwrap(),
        timeout_secs: config.timeout_secs.unwrap(),
        pool_idle_timeout_secs: config.pool_idle_timeout_secs.unwrap(),
        pool_max_idle_per_host: config.pool_max_idle_per_host.unwrap(),
    }
}

impl BalancerSettings {
    /// The settings that a final configuration says.
    pub fn of(config: &BalancerConfig) -> (r: BalancerSettings)
        requires
            config@.is_complete(),
        ensures
            r == settings_of(config@),
    {
        BalancerSettings {
            health_check_interval_secs: config.health_check_interval_secs.unwrap(),
            health_check_timeout_secs: config.health_check_timeout_secs.unwrap(),
            base_cooldown_secs: config.base_cooldown_secs.unwrap(),
            max_cooldown_secs: config.max_cooldown_secs.unwrap(),
            max_batch_size: config.max_batch_size.unwrap(),
            latency_smoothing_factor: config.latency_smoothing_factor.unwrap(),
        }
    }
}

impl ClientSettings {
    /// The settings of the HTTP client that a final configuration says.
    pub fn of(config: &BalancerConfig) -> (r: ClientSettings)
        requires
            config@.is_complete(),
        ensures
            r == client_settings_of(config@),
    {
        ClientSettings {
            connect_timeout_ms: config.connect_timeout_ms.unwrap(),
            timeout_secs: config.timeout_secs.unwrap(),
            pool_idle_timeout_secs: config.pool_idle_timeout_secs.unwrap(),
            pool_max_idle_per_host: config.pool_max_idle_per_host.unwrap(),
        }
    }
}

/// The limiters of endpoints that have just been configured.
pub open spec fn fresh_limiters(list: Seq<EndpointConfigView>) -> Map<Seq<char>, BucketView>
    decreases list.len(),
{
    if list.len() == 0 {
        Map::empty()
    } else {
        fresh_limiters(list.drop_last()).insert(
            list.last().url,
            fresh_bucket(list.last().burst_size, list.last().rate_limit_per_sec),
        )
    }
}

/// The state of a balancer that starts with `config` at the time `now`.
pub open spec fn initial_state(
    config: ConfigView,
    config_path: Seq<char>,
    now: u64,
) -> LoadBalancerView {
    let settings = config.finalized().balancer.unwrap();
    LoadBalancerView {
        endpoints: settings.endpoints.unwrap().map_values(
            |e: EndpointConfigView| new_endpoint(e, settings.timeout_secs.unwrap(), now),
        ),
        rate_limiters: fresh_limiters(settings.endpoints.unwrap()),
        bind_addr: config.bind_addr(),
        settings: settings_of(settings),
        client: client_settings_of(settings),
        max_concurrency: settings.max_concurrency.unwrap(),
        config_path,
    }
}

impl LoadBalancer {
    /// No two endpoints share an address.
    pub open spec fn wf(self) -> bool {
        addresses_distinct(self@.endpoints)
    }

    /// A balancer with the endpoints and settings of `config`, or the default ones.
    pub fn new(config: Option<Config>, config_path: String, now: u64) -> (r: LoadBalancer)
        requires
            config_or_unset(config).is_usable(),
            config_or_unset(config).finalized().balancer.unwrap().timeout_secs.unwrap() * 1000
                <= u64::MAX,
        ensures
            r@ == initial_state(config_or_unset(config), config_path@, now),
            r.wf(),
    {
        let config = match config {
            Some(config) => config,
            None => Config::default(),
        };
        let ghost asked = config@;
        let config = match config.finalize() {
            Ok(config) => config,
            Err(_) => vstd::pervasive::unreached(),
        };
        proof {
            lemma_finalized_endpoints(asked.balancer_settings());
        }
        let bind_addr = config.server.unwrap().bind_addr.unwrap();
        let settings = config.balancer.unwrap();
        let balancer_settings = BalancerSettings::of(&settings);
        let client = ClientSettings::of(&settings);
        let list = settings.endpoints.unwrap();
        let timeout_secs: u64 = client.timeout_secs;
        let ghost views = endpoint_views(list@);
        let ghost wanted = views.map_values(
            |e: EndpointConfigView| new_endpoint(e, timeout_secs, now),
        );
        let mut endpoints: Vec<RpcEndpoint> = Vec::new();
        let mut rate_limiters = RateLimiters::new();
        let mut i: usize = 0;
        assert(fresh_limiters(views.take(0)) =~= Map::empty());
        while i < list.len()
            invariant
                i <= list@.len(),
                views == endpoint_views(list@),
                wanted == views.map_values(
                    |e: EndpointConfigView| new_endpoint(e, timeout_secs, now),
                ),
                timeout_secs * 1000 <= u64::MAX,
                forall|k: int|
                    0 <= k < views.len() ==> limits_acceptable(#[trigger] views[k])
                        && views[k].weight is Some,
                endpoint_states(endpoints@) == wanted.take(i as int),
                rate_limiters@ == fresh_limiters(views.take(i as int)),
            decreases list@.len() - i,
        {
            let ghost before = endpoint_states(endpoints@);
            let e = &list[i];
            assert(views[i as int] == e@);
            let endpoint = make_endpoint(e, timeout_secs, now);
            endpoints.push(endpoint);
            rate_limiters.insert(
                e.url.clone(),
                create_rate_limiter(e.burst_size, e.rate_limit_per_sec),
            );
            proof {
                assert(endpoint_states(endpoints@) == before.push(endpoint@));
                assert(wanted.take(i + 1) == wanted.take(i as int).push(endpoint@));
                assert(views.take(i + 1).drop_last() == views.take(i as int));
                assert(views.take(i + 1).last() == e@);
            }
            i = i + 1;
        }
        proof {
            assert(views.take(i as int) == views);
            assert(wanted.take(i as int) == wanted);
        }
        let r = LoadBalancer {
            endpoints,
            rate_limiters,
            bind_addr,
            settings: balancer_settings,
            client,
            max_concurrency: settings.max_concurrency.unwrap(),
            config_path,
        };
        assert forall|a: int, b: int| 0 <= a < b < r@.endpoints.len() implies (
        #[trigger] r@.endpoints[a]).url != (#[trigger] r@.endpoints[b]).url by {
            assert(views[a].url != views[b].url);
        }
        r
    }

    /// Gives the balancer the configuration that was loaded, or the default one if there is none.
    pub fn reload_config(
        &mut self,
        loaded: Result<Option<Config>, ConfigError>,
        now: u64,
    ) -> (r: Result<ReloadResponse, LoadBalancerError>)
        requires
            loaded matches Ok(config) ==> config_or_unset(config).is_usable() ==> latency_fits(
                old(self)@,
                config_or_unset(config),
            ),
        ensures
            reload_answers(*old(self), loaded, now, r, *final(self)),
    {
        reload(self, loaded, now)
    }

    /// Selects the endpoint that takes a batch of `batch_size` requests and takes note that it was
    /// selected at `now_secs` seconds since the Unix epoch.
    pub fn select_next(&mut self, batch_size: usize, now: u64, now_secs: u64) -> (r: Selection)
        ensures
            next_selected(old(self)@, batch_size, now, now_secs, r, final(self)@),
            old(self).wf() ==> final(self).wf(),
    {
        let ghost states = self@.endpoints;
        let selection = select_best_endpoint(
            &self.endpoints,
            &mut self.rate_limiters,
            batch_size,
            now,
        );
        if let Some(i) = selection.selected {
            self.endpoints[i].metrics.last_selected = now_secs;
            assert(self@.endpoints =~= states.update(i as int, touched(states[i as int], now_secs)));
        }
        selection
    }

    /// The address of the endpoint that takes a batch of `batch_size` requests, if one does.
    pub fn get_next_endpoint(&mut self, batch_size: usize, now: u64, now_secs: u64) -> (r: Option<
        String,
    >)
        ensures
            handed_out(old(self)@, batch_size, now, now_secs, r, final(self)@),
            old(self).wf() ==> final(self).wf(),
    {
        let ghost before = self@;
        let selection = self.select_next(batch_size, now, now_secs);
        assert(next_selected(before, batch_size, now, now_secs, selection, self@));
        match selection.selected {
            Some(i) => {
                assert(self@.endpoints.len() == self.endpoints@.len());
                assert(self@.endpoints[i as int] == self.endpoints@[i as int]@);
                Some(self.endpoints[i].url.clone())
            },
            None => None,
        }
    }

    /// Starts a cooldown of the endpoint at `url`, which refused a request because it was sent too
    /// many, and returns the seconds of the cooldown.
    pub fn mark_rate_limited(&mut self, url: &String, now: u64) -> (r: Option<u64>)
        ensures
            final(self)@ == rate_limited_state(old(self)@, url@, now),
            match position_of(old(self)@.endpoints, url@) {
                Some(i) => r == Some(cooldown_of(old(self)@, i) as u64),
                None => r is None,
            },
            old(self).wf() ==> final(self).wf(),
    {
        let ghost states = self@.endpoints;
        proof {
            lemma_position_of(states, url@);
        }
        match find_endpoint(&self.endpoints, url) {
            Some(i) => {
                let secs: u64 = trigger_cooldown(
                    &mut self.endpoints[i],
                    self.settings.base_cooldown_secs,
                    self.settings.max_cooldown_secs,
                    now,
                );
                assert(self@.endpoints =~= states.update(i as int, self.endpoints@[i as int]@));
                Some(secs)
            },
            None => None,
        }
    }

    /// Marks the endpoint at `url` as unhealthy and starts a cooldown, unless it is known to be
    /// unhealthy already. Returns the seconds of the cooldown.
    pub fn mark_unhealthy(&mut self, url: &String, now: u64) -> (r: Option<u64>)
        ensures
            final(self)@ == unhealthy_state(old(self)@, url@, now),
            match position_of(old(self)@.endpoints, url@) {
                Some(i) if old(self)@.endpoints[i].healthy => r == Some(
                    cooldown_of(old(self)@, i) as u64,
                ),
                _ => r is None,
            },
            old(self).wf() ==> final(self).wf(),
    {
        let ghost states = self@.endpoints;
        proof {
            lemma_position_of(states, url@);
        }
        match find_endpoint(&self.endpoints, url) {
            Some(i) => {
                assert(states[i as int] == self.endpoints@[i as int]@);
                if !self.endpoints[i].healthy {
                    return None;
                }
                self.endpoints[i].healthy = false;
                let secs: u64 = trigger_cooldown(
                    &mut self.endpoints[i],
                    self.settings.base_cooldown_secs,
                    self.settings.max_cooldown_secs,
                    now,
                );
                assert(self@.endpoints =~= states.update(i as int, self.endpoints@[i as int]@));
                Some(secs)
            },
            None => None,
        }
    }

    /// Takes note of how a request to the endpoint at `url` ended.
    pub fn record_outcome<F: Fn(u64, u64, Smoothing) -> u64>(
        &mut self,
        url: &String,
        outcome: &RequestOutcome,
        average: &F,
    )
        requires
            averages(*average),
        ensures
            recorded(old(self)@, url@, *outcome, *average, final(self)@),
            old(self).wf() ==> final(self).wf(),
    {
        let ghost states = self@.endpoints;
        proof {
            lemma_position_of(states, url@);
        }
        if let Some(i) = find_endpoint(&self.endpoints, url) {
            self.endpoints[i].metrics.update(outcome, average);
            assert(self@.endpoints =~= states.update(i as int, self.endpoints@[i as int]@));
        }
    }

    /// The number of endpoints that can be used.
    pub fn update_healthy_count(&self, now: u64) -> (r: usize)
        ensures
            r == available_count(self@.endpoints, now),
    {
        let ghost states = self@.endpoints;
        let mut count: usize = 0;
        let mut i: usize = 0;
        assert(states.take(0).filter(|e: RpcEndpointView| e.available(now)).len() == 0) by {
            reveal(Seq::filter);
        }
        while i < self.endpoints.len()
            invariant
                states == self@.endpoints,
                i <= self.endpoints@.len(),
                count <= i,
                count == available_count(states.take(i as int), now),
            decreases self.endpoints@.len() - i,
        {
            assert(available_count(states.take(i + 1), now) == available_count(
                states.take(i as int),
                now,
            ) + if states[i as int].available(now) {
                1int
            } else {
                0
            }) by {
                reveal(Seq::filter);
                assert(states.take(i + 1).drop_last() == states.take(i as int));
            }
            if self.endpoints[i].is_available(now) {
                count = count + 1;
            }
            i = i + 1;
        }
        assert(states.take(i as int) == states);
        count
    }
}

/// The number of endpoints that can be used at the time `now`.
pub open spec fn available_count(endpoints: Seq<RpcEndpointView>, now: u64) -> nat {
    endpoints.filter(|e: RpcEndpointView| e.available(now)).len()
}

/// `endpoint` once it was selected at `now_secs` seconds since the Unix epoch.
pub open spec fn touched(endpoint: RpcEndpointView, now_secs: u64) -> RpcEndpointView {
    RpcEndpointView {
        metrics: EndpointMetrics { last_selected: now_secs, ..endpoint.metrics },
        ..endpoint
    }
}

/// `after` is the state `before` once an endpoint was selected for `batch_size` requests, and
/// `selection` what came of it.
pub open spec fn next_selected(
    before: LoadBalancerView,
    batch_size: usize,
    now: u64,
    now_secs: u64,
    selection: Selection,
    after: LoadBalancerView,
) -> bool {
    &&& selects(
        before.endpoints,
        now,
        batch_size,
        before.rate_limiters,
        after.rate_limiters,
        selection,
    )
    &&& selection.selected matches Some(i) ==> i < before.endpoints.len()
    &&& after == LoadBalancerView {
        endpoints: match selection.selected {
            Some(i) => before.endpoints.update(
                i as int,
                touched(before.endpoints[i as int], now_secs),
            ),
            None => before.endpoints,
        },
        rate_limiters: after.rate_limiters,
        ..before
    }
}

/// `after` is the state `before` once an endpoint was selected for `batch_size` requests, and `r`
/// the address of that endpoint, if there is one.
pub open spec fn handed_out(
    before: LoadBalancerView,
    batch_size: usize,
    now: u64,
    now_secs: u64,
    r: Option<String>,
    after: LoadBalancerView,
) -> bool {
    exists|selection: Selection|
        {
            &&& #[trigger] next_selected(before, batch_size, now, now_secs, selection, after)
            &&& match (selection.selected, r) {
                (Some(i), Some(url)) => url@ == before.endpoints[i as int].url,
                (None, None) => true,
                _ => false,
            }
        }
}

/// The seconds of the next cooldown of the `i`th endpoint.
pub open spec fn cooldown_of(state: LoadBalancerView, i: int) -> int {
    backoff(
        state.settings.base_cooldown_secs,
        state.settings.max_cooldown_secs,
        next_attempts(state.endpoints[i].cooldown_attempts),
    )
}

/// `endpoint` after a cooldown with the backoff of `settings` started at the time `now`.
pub open spec fn cooled_by(
    endpoint: RpcEndpointView,
    settings: BalancerSettings,
    now: u64,
) -> RpcEndpointView {
    cooled_down(endpoint, settings.base_cooldown_secs, settings.max_cooldown_secs, now)
}

/// `state` once the endpoint at `url` was found to be rate-limited at the time `now`.
pub open spec fn rate_limited_state(
    state: LoadBalancerView,
    url: Seq<char>,
    now: u64,
) -> LoadBalancerView {
    match position_of(state.endpoints, url) {
        Some(i) => LoadBalancerView {
            endpoints: state.endpoints.update(i, cooled_by(state.endpoints[i], state.settings, now)),
            ..state
        },
        None => state,
    }
}

/// `state` once the endpoint at `url` was found to be unhealthy at the time `now`.
pub open spec fn unhealthy_state(
    state: LoadBalancerView,
    url: Seq<char>,
    now: u64,
) -> LoadBalancerView {
    match position_of(state.endpoints, url) {
        Some(i) if state.endpoints[i].healthy => LoadBalancerView {
            endpoints: state.endpoints.update(
                i,
                RpcEndpointView {
                    healthy: false,
                    ..cooled_by(state.endpoints[i], state.settings, now)
                },
            ),
            ..state
        },
        _ => state,
    }
}

/// `after` is the state `before` once a request to the endpoint at `url` ended with `outcome`, the
/// moving averages taken by `average`.
pub open spec fn recorded<F: Fn(u64, u64, Smoothing) -> u64>(
    before: LoadBalancerView,
    url: Seq<char>,
    outcome: RequestOutcome,
    average: F,
    after: LoadBalancerView,
) -> bool {
    match position_of(before.endpoints, url) {
        Some(i) => {
            let metrics = after.endpoints[i].metrics;
            &&& before.endpoints[i].metrics.updated(outcome, average, metrics)
            &&& after == LoadBalancerView {
                endpoints: before.endpoints.update(
                    i,
                    RpcEndpointView { metrics, ..before.endpoints[i] },
                ),
                ..before
            }
        },
        None => after == before,
    }
}

/// What `config` says; everything is open if there is none.
pub open spec fn config_or_unset(config: Option<Config>) -> ConfigView {
    match config {
        Some(config) => config@,
        None => ConfigView::unset(),
    }
}

} // verus!
