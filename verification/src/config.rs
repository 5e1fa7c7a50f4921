//! The configuration: its defaults, its validation and its canonical form.

use vstd::prelude::*;
use vstd::string::*;
use vstd::utf8::encode_utf8;

use crate::smoothing::SmoothingFactor;
use crate::text;

verus! {

/// Tokens that an endpoint's rate limiter holds when full, unless configured otherwise.
pub const DEFAULT_BURST_SIZE: u32 = 25;

/// The address that the server listens on, unless configured otherwise.
pub const DEFAULT_BIND_ADDR: &'static str = "0.0.0.0:8549";

pub const DEFAULT_HEALTH_CHECK_INTERVAL_SECS: u64 = 30;

pub const DEFAULT_HEALTH_CHECK_TIMEOUT_SECS: u64 = 5;

pub const DEFAULT_BASE_COOLDOWN_SECS: u64 = 3;

pub const DEFAULT_MAX_COOLDOWN_SECS: u64 = 60;

/// The bit pattern of the default smoothing factor, one tenth.
pub const DEFAULT_LATENCY_SMOOTHING_FACTOR: u64 = 0x3fb9_9999_9999_999a;

pub const DEFAULT_ENDPOINT_RATE_LIMIT: u32 = 20;

pub const DEFAULT_ENDPOINT_WEIGHT: u32 = 20;

pub const DEFAULT_MAX_BATCH_SIZE: usize = 100;

pub const DEFAULT_CONNECT_TIMEOUT_MS: u64 = 500;

pub const DEFAULT_TIMEOUT_SECS: u64 = 5;

pub const DEFAULT_POOL_IDLE_TIMEOUT_SECS: u64 = 20;

pub const DEFAULT_POOL_MAX_IDLE_PER_HOST: usize = 50;

pub const DEFAULT_MAX_CONCURRENCY: usize = 50;

/// The endpoints of a balancer that is configured with none.
pub const DEFAULT_ENDPOINTS: [&'static str; 4] = [
    "https://arbitrum-one.blastapi.io/0bbf5840-7702-4ae8-8d06-c081e6089381",
    "https://arbitrum.blockpi.network/v1/rpc/47d30766a0860ce4418ede1ab9b65b6fa8e63133",
    "https://rpc.ankr.com/arbitrum/432820e33bd905ed5a2f63eca52792fb302e1ce6c025bb591c6d2e588f52e3ee",
    "https://arbitrum.drpc.org/",
];

/// The longest accepted URL, in bytes of its UTF-8 form.
pub const MAX_URL_LEN: usize = 2048;

/// The highest accepted rate limit.
pub const MAX_RATE_LIMIT: u32 = 100_000;

/// The largest accepted burst size.
pub const MAX_BURST_SIZE: u32 = 10_000;

/// Why a configuration cannot be used.
#[derive(Debug)]
pub enum ConfigError {
    ConfigError(String),
}

impl ConfigError {
    /// The text that stands for this error.
    pub open spec fn text(self) -> Seq<char> {
        match self {
            ConfigError::ConfigError(reason) => "Configuration error: "@ + reason@,
        }
    }

    /// The text that stands for this error.
    pub fn message(&self) -> (r: String)
        ensures
            r@ == self.text(),
    {
        match self {
            ConfigError::ConfigError(reason) => "Configuration error: ".to_owned().concat(
                reason.as_str(),
            ),
        }
    }
}

/// One configured endpoint.
#[derive(Debug, Clone)]
pub struct EndpointConfig {
    pub url: String,
    pub rate_limit_per_sec: u32,
    pub burst_size: u32,
    pub weight: Option<u32>,
}

/// What an [`EndpointConfig`] says.
pub struct EndpointConfigView {
    pub url: Seq<char>,
    pub rate_limit_per_sec: u32,
    pub burst_size: u32,
    pub weight: Option<u32>,
}

impl View for EndpointConfig {
    type V = EndpointConfigView;

    open spec fn view(&self) -> EndpointConfigView {
        EndpointConfigView {
            url: self.url@,
            rate_limit_per_sec: self.rate_limit_per_sec,
            burst_size: self.burst_size,
            weight: self.weight,
        }
    }
}

impl Default for EndpointConfig {
    fn default() -> (r: Self)
        ensures
            r@ == (EndpointConfigView {
                url: Seq::empty(),
                rate_limit_per_sec: DEFAULT_ENDPOINT_RATE_LIMIT,
                burst_size: DEFAULT_BURST_SIZE,
                weight: None,
            }),
    {
        EndpointConfig {
            url: String::new(),
            rate_limit_per_sec: DEFAULT_ENDPOINT_RATE_LIMIT,
            burst_size: DEFAULT_BURST_SIZE,
            weight: None,
        }
    }
}

/// The views of a sequence of endpoint configurations.
pub open spec fn endpoint_views(list: Seq<EndpointConfig>) -> Seq<EndpointConfigView> {
    list.map_values(|e: EndpointConfig| e@)
}

/// The burst size of an endpoint that configures none.
pub fn default_burst_size() -> (r: u32)
    ensures
        r == DEFAULT_BURST_SIZE,
{
    DEFAULT_BURST_SIZE
}

/// `url` names the scheme `http` or `https`, in letters of either case.
pub open spec fn has_http_scheme(url: Seq<char>) -> bool {
    text::starts_with_lowered(url, "http://"@) || text::starts_with_lowered(url, "https://"@)
}

/// `url`, which has no white space around it, can be used as an endpoint's address.
pub open spec fn url_acceptable(url: Seq<char>) -> bool {
    &&& url.len() > 0
    &&& has_http_scheme(url)
    &&& encode_utf8(url).len() <= MAX_URL_LEN
    &&& forall|i: int|
        0 <= i < url.len() ==> !text::control(#[trigger] url[i]) && !text::white_space(url[i])
}

/// The rate limit and the burst size of `endpoint` lie in the accepted ranges.
pub open spec fn limits_acceptable(endpoint: EndpointConfigView) -> bool {
    &&& 1 <= endpoint.rate_limit_per_sec <= MAX_RATE_LIMIT
    &&& 1 <= endpoint.burst_size <= MAX_BURST_SIZE
}

/// `url` with its scheme in lower case and without the slashes at its end.
pub open spec fn canonical_url(url: Seq<char>) -> Seq<char> {
    text::without_trailing_slashes(
        if text::starts_with_lowered(url, "http://"@) {
            "http://"@ + url.skip(7)
        } else if text::starts_with_lowered(url, "https://"@) {
            "https://"@ + url.skip(8)
        } else {
            url
        },
    )
}

/// The canonical form of `endpoint`, if it can be used at all. An address that is nothing but a
/// scheme and slashes cannot: its canonical form would have no scheme left.
pub open spec fn canonical_endpoint(endpoint: EndpointConfigView) -> Option<EndpointConfigView> {
    let url = text::trimmed(endpoint.url);
    if url_acceptable(url) && has_http_scheme(canonical_url(url)) && limits_acceptable(endpoint) {
        Some(EndpointConfigView { url: canonical_url(url), ..endpoint })
    } else {
        None
    }
}

/// Some endpoint of `list` has the address `url`.
pub open spec fn lists_url(list: Seq<EndpointConfigView>, url: Seq<char>) -> bool {
    exists|i: int| 0 <= i < list.len() && (#[trigger] list[i]).url == url
}

/// The usable endpoints of `list` in canonical form, each address once, in the order in which the
/// addresses first occur.
pub open spec fn validated(list: Seq<EndpointConfigView>) -> Seq<EndpointConfigView>
    decreases list.len(),
{
    if list.len() == 0 {
        Seq::empty()
    } else {
        let kept = validated(list.drop_last());
        match canonical_endpoint(list.last()) {
            Some(endpoint) if !lists_url(kept, endpoint.url) => kept.push(endpoint),
            _ => kept,
        }
    }
}

/// The message of the error that a configuration without a usable endpoint is answered with.
pub const NO_VALID_ENDPOINTS: &'static str = "No valid endpoints configured";

/// The canonical form of a URL that names the scheme `http` or `https`.
fn canonicalize_url(url: &str) -> (r: String)
    ensures
        r@ == canonical_url(url@),
{
    proof {
        reveal_strlit("http://");
        reveal_strlit("https://");
    }
    if text::starts_with_ignore_case(url, "http://") {
        let rest = url.substring_char(7, url.unicode_len());
        assert(rest@ == url@.skip(7));
        text::strip_trailing_slashes("http://".to_owned().concat(rest).as_str())
    } else if text::starts_with_ignore_case(url, "https://") {
        let rest = url.substring_char(8, url.unicode_len());
        assert(rest@ == url@.skip(8));
        text::strip_trailing_slashes("https://".to_owned().concat(rest).as_str())
    } else {
        text::strip_trailing_slashes(url)
    }
}

/// The canonical form of `endpoint`, if it can be used at all.
pub fn canonicalize_endpoint(endpoint: &EndpointConfig) -> (r: Option<EndpointConfig>)
    ensures
        match r {
            Some(e) => canonical_endpoint(endpoint@) == Some(e@),
            None => canonical_endpoint(endpoint@) is None,
        },
{
    let url = text::trim(endpoint.url.as_str());
    if url.as_str().is_empty() {
        return None;
    }
    if !text::starts_with_ignore_case(url.as_str(), "http://") && !text::starts_with_ignore_case(
        url.as_str(),
        "https://",
    ) {
        return None;
    }
    if url.as_str().as_bytes().len() > MAX_URL_LEN {
        return None;
    }
    if text::has_white_space_or_control(url.as_str()) {
        return None;
    }
    let canonical = canonicalize_url(url.as_str());
    if !text::starts_with_ignore_case(canonical.as_str(), "http://")
        && !text::starts_with_ignore_case(canonical.as_str(), "https://") {
        return None;
    }
    if endpoint.rate_limit_per_sec == 0 || endpoint.rate_limit_per_sec > MAX_RATE_LIMIT {
        return None;
    }
    if endpoint.burst_size == 0 || endpoint.burst_size > MAX_BURST_SIZE {
        return None;
    }
    Some(
        EndpointConfig {
            url: canonical,
            rate_limit_per_sec: endpoint.rate_limit_per_sec,
            burst_size: endpoint.burst_size,
            weight: endpoint.weight,
        },
    )
}

/// Tells whether some endpoint of `list` has the address `url`.
pub fn contains_url(list: &Vec<EndpointConfig>, url: &String) -> (r: bool)
    ensures
        r == lists_url(endpoint_views(list@), url@),
{
    let ghost views = endpoint_views(list@);
    let mut i: usize = 0;
    while i < list.len()
        invariant
            views == endpoint_views(list@),
            i <= list@.len(),
            forall|k: int| 0 <= k < i ==> (#[trigger] views[k]).url != url@,
        decreases list@.len() - i,
    {
        if list[i].url == *url {
            assert(views[i as int].url == url@);
            return true;
        }
        i = i + 1;
    }
    false
}

/// What came of reading a configuration file.
#[derive(Debug)]
pub enum ConfigFile {
    /// The file holds a configuration.
    Parsed(Config),
    /// The file holds something else, with what the parser says of it.
    Invalid(String),
    /// There is no such file.
    Missing,
    /// The file could not be read, with what the system says of it.
    Unreadable(String),
}

/// The configuration in a file, if there is such a file.
pub fn try_load_config(file: ConfigFile) -> (r: Result<Option<Config>, ConfigError>)
    ensures
        match file {
            ConfigFile::Parsed(config) => r == Ok::<Option<Config>, ConfigError>(Some(config)),
            ConfigFile::Invalid(shown) => r == Err::<Option<Config>, ConfigError>(
                ConfigError::ConfigError(shown),
            ),
            ConfigFile::Missing => r == Ok::<Option<Config>, ConfigError>(None),
            ConfigFile::Unreadable(shown) => r == Err::<Option<Config>, ConfigError>(
                ConfigError::ConfigError(shown),
            ),
        },
{
    match file {
        ConfigFile::Parsed(config) => Ok(Some(config)),
        ConfigFile::Invalid(shown) => Err(ConfigError::ConfigError(shown)),
        ConfigFile::Missing => Ok(None),
        ConfigFile::Unreadable(shown) => Err(ConfigError::ConfigError(shown)),
    }
}

/// Keeps the usable endpoints in canonical form, each address once.
pub fn validate_and_dedupe_endpoints(endpoints: Vec<EndpointConfig>) -> (r: Result<
    Vec<EndpointConfig>,
    ConfigError,
>)
    ensures
        match r {
            Ok(list) => {
                &&& endpoint_views(list@) == validated(endpoint_views(endpoints@))
                &&& list@.len() > 0
            },
            Err(ConfigError::ConfigError(reason)) => {
                &&& validated(endpoint_views(endpoints@)).len() == 0
                &&& reason@ == NO_VALID_ENDPOINTS@
            },
        },
{
    let mut kept: Vec<EndpointConfig> = Vec::new();
    let ghost views = endpoint_views(endpoints@);
    let mut i: usize = 0;
    assert(endpoint_views(kept@) == validated(views.take(0)));
    while i < endpoints.len()
        invariant
            views == endpoint_views(endpoints@),
            i <= endpoints@.len(),
            endpoint_views(kept@) == validated(views.take(i as int)),
        decreases endpoints@.len() - i,
    {
        let ghost before = endpoint_views(kept@);
        proof {
            let seen = views.take(i + 1);
            assert(seen.drop_last() == views.take(i as int));
            assert(seen.last() == endpoints@[i as int]@);
        }
        if let Some(endpoint) = canonicalize_endpoint(&endpoints[i]) {
            if !contains_url(&kept, &endpoint.url) {
                kept.push(endpoint);
                assert(endpoint_views(kept@) == before.push(endpoint@));
            }
        }
        i = i + 1;
    }
    assert(views.take(i as int) == views);
    assert(endpoint_views(kept@).len() == kept@.len());
    if kept.len() == 0 {
        return Err(ConfigError::ConfigError(NO_VALID_ENDPOINTS.to_owned()));
    }
    Ok(kept)
}

/// The endpoints of a balancer that is configured with none.
pub open spec fn default_endpoints() -> Seq<EndpointConfigView> {
    Seq::new(
        DEFAULT_ENDPOINTS@.len(),
        |i: int|
            EndpointConfigView {
                url: DEFAULT_ENDPOINTS@[i]@,
                rate_limit_per_sec: DEFAULT_ENDPOINT_RATE_LIMIT,
                burst_size: DEFAULT_BURST_SIZE,
                weight: Some(DEFAULT_ENDPOINT_WEIGHT),
            },
    )
}

/// The endpoints of a balancer that is configured with none.
pub fn get_default_endpoints() -> (r: Vec<EndpointConfig>)
    ensures
        endpoint_views(r@) == default_endpoints(),
{
    let mut list: Vec<EndpointConfig> = Vec::new();
    let mut i: usize = 0;
    while i < DEFAULT_ENDPOINTS.len()
        invariant
            i <= DEFAULT_ENDPOINTS@.len(),
            endpoint_views(list@) == default_endpoints().take(i as int),
        decreases DEFAULT_ENDPOINTS@.len() - i,
    {
        let ghost before = endpoint_views(list@);
        let endpoint = EndpointConfig {
            url: DEFAULT_ENDPOINTS[i].to_owned(),
            rate_limit_per_sec: DEFAULT_ENDPOINT_RATE_LIMIT,
            burst_size: default_burst_size(),
            weight: Some(DEFAULT_ENDPOINT_WEIGHT),
        };
        list.push(endpoint);
        assert(endpoint_views(list@) == before.push(endpoint@));
        i = i + 1;
    }
    assert(default_endpoints().take(i as int) == default_endpoints());
    list
}

/// The settings of the server.
#[derive(Debug, Clone)]
pub struct ServerConfig {
    pub bind_addr: Option<String>,
}

/// What a [`ServerConfig`] says.
pub struct ServerConfigView {
    pub bind_addr: Option<Seq<char>>,
}

impl View for ServerConfig {
    type V = ServerConfigView;

    open spec fn view(&self) -> ServerConfigView {
        ServerConfigView {
            bind_addr: match self.bind_addr {
                Some(addr) => Some(addr@),
                None => None,
            },
        }
    }
}

impl Default for ServerConfig {
    fn default() -> (r: Self)
        ensures
            r@ == (ServerConfigView { bind_addr: None }),
    {
        ServerConfig { bind_addr: None }
    }
}

/// The settings of the balancer and of its HTTP client.
#[derive(Debug, Clone)]
pub struct BalancerConfig {
    pub health_check_interval_secs: Option<u64>,
    pub health_check_timeout_secs: Option<u64>,
    pub base_cooldown_secs: Option<u64>,
    pub max_cooldown_secs: Option<u64>,
    pub latency_smoothing_factor: Option<SmoothingFactor>,
    pub endpoints: Option<Vec<EndpointConfig>>,
    pub max_batch_size: Option<usize>,
    pub max_concurrency: Option<usize>,
    pub connect_timeout_ms: Option<u64>,
    pub timeout_secs: Option<u64>,
    pub pool_idle_timeout_secs: Option<u64>,
    pub pool_max_idle_per_host: Option<usize>,
}

/// What a [`BalancerConfig`] says.
pub struct BalancerConfigView {
    pub health_check_interval_secs: Option<u64>,
    pub health_check_timeout_secs: Option<u64>,
    pub base_cooldown_secs: Option<u64>,
    pub max_cooldown_secs: Option<u64>,
    pub latency_smoothing_factor: Option<SmoothingFactor>,
    pub endpoints: Option<Seq<EndpointConfigView>>,
    pub max_batch_size: Option<usize>,
    pub max_concurrency: Option<usize>,
    pub connect_timeout_ms: Option<u64>,
    pub timeout_secs: Option<u64>,
    pub pool_idle_timeout_secs: Option<u64>,
    pub pool_max_idle_per_host: Option<usize>,
}

impl View for BalancerConfig {
    type V = BalancerConfigView;

    open spec fn view(&self) -> BalancerConfigView {
        BalancerConfigView {
            health_check_interval_secs: self.health_check_interval_secs,
            health_check_timeout_secs: self.health_check_timeout_secs,
            base_cooldown_secs: self.base_cooldown_secs,
            max_cooldown_secs: self.max_cooldown_secs,
            latency_smoothing_factor: self.latency_smoothing_factor,
            endpoints: match self.endpoints {
                Some(list) => Some(endpoint_views(list@)),
                None => None,
            },
            max_batch_size: self.max_batch_size,
            max_concurrency: self.max_concurrency,
            connect_timeout_ms: self.connect_timeout_ms,
            timeout_secs: self.timeout_secs,
            pool_idle_timeout_secs: self.pool_idle_timeout_secs,
            pool_max_idle_per_host: self.pool_max_idle_per_host,
        }
    }
}

impl BalancerConfigView {
    /// The settings that leave everything open.
    pub open spec fn unset() -> BalancerConfigView {
        BalancerConfigView {
            health_check_interval_secs: None,
            health_check_timeout_secs: None,
            base_cooldown_secs: None,
            max_cooldown_secs: None,
            latency_smoothing_factor: None,
            endpoints: None,
            max_batch_size: None,
            max_concurrency: None,
            connect_timeout_ms: None,
            timeout_secs: None,
            pool_idle_timeout_secs: None,
            pool_max_idle_per_host: None,
        }
    }

    /// These settings leave nothing open.
    pub open spec fn is_complete(self) -> bool {
        &&& self.health_check_interval_secs is Some
        &&& self.health_check_timeout_secs is Some
        &&& self.base_cooldown_secs is Some
        &&& self.max_cooldown_secs is Some
        &&& self.latency_smoothing_factor is Some
        &&& self.endpoints is Some
        &&& self.max_batch_size is Some
        &&& self.max_concurrency is Some
        &&& self.connect_timeout_ms is Some
        &&& self.timeout_secs is Some
        &&& self.pool_idle_timeout_secs is Some
        &&& self.pool_max_idle_per_host is Some
    }

    /// The endpoints that these settings ask for.
    pub open spec fn requested_endpoints(self) -> Seq<EndpointConfigView> {
        self.endpoints.unwrap_or(default_endpoints())
    }

    /// The usable ones of the endpoints that these settings ask for.
    pub open spec fn usable_endpoints(self) -> Seq<EndpointConfigView> {
        validated(self.requested_endpoints())
    }

    /// These settings with every gap filled and every value in its range.
    pub open spec fn finalized(self) -> BalancerConfigView {
        BalancerConfigView {
            health_check_interval_secs: Some(
                self.health_check_interval_secs.unwrap_or(DEFAULT_HEALTH_CHECK_INTERVAL_SECS),
            ),
            health_check_timeout_secs: Some(
                self.health_check_timeout_secs.unwrap_or(DEFAULT_HEALTH_CHECK_TIMEOUT_SECS),
            ),
            base_cooldown_secs: Some(self.base_cooldown_secs.unwrap_or(DEFAULT_BASE_COOLDOWN_SECS)),
            max_cooldown_secs: Some(self.max_cooldown_secs.unwrap_or(DEFAULT_MAX_COOLDOWN_SECS)),
            latency_smoothing_factor: Some(
                self.latency_smoothing_factor.unwrap_or(
                    SmoothingFactor { bits: DEFAULT_LATENCY_SMOOTHING_FACTOR },
                ).unit_clamped(),
            ),
            endpoints: Some(
                self.usable_endpoints().map_values(|e: EndpointConfigView| with_weight(e)),
            ),
            max_batch_size: Some(at_least_one(self.max_batch_size.unwrap_or(DEFAULT_MAX_BATCH_SIZE))),
            max_concurrency: Some(
                at_least_one(self.max_concurrency.unwrap_or(DEFAULT_MAX_CONCURRENCY)),
            ),
            connect_timeout_ms: Some(self.connect_timeout_ms.unwrap_or(DEFAULT_CONNECT_TIMEOUT_MS)),
            timeout_secs: Some(self.timeout_secs.unwrap_or(DEFAULT_TIMEOUT_SECS)),
            pool_idle_timeout_secs: Some(
                self.pool_idle_timeout_secs.unwrap_or(DEFAULT_POOL_IDLE_TIMEOUT_SECS),
            ),
            pool_max_idle_per_host: Some(
                self.pool_max_idle_per_host.unwrap_or(DEFAULT_POOL_MAX_IDLE_PER_HOST),
            ),
        }
    }
}

impl Default for BalancerConfig {
    fn default() -> (r: Self)
        ensures
            r@ == BalancerConfigView::unset(),
    {
        BalancerConfig {
            health_check_interval_secs: None,
            health_check_timeout_secs: None,
            base_cooldown_secs: None,
            max_cooldown_secs: None,
            latency_smoothing_factor: None,
            endpoints: None,
            max_batch_size: None,
            max_concurrency: None,
            connect_timeout_ms: None,
            timeout_secs: None,
            pool_idle_timeout_secs: None,
            pool_max_idle_per_host: None,
        }
    }
}

/// The larger of `n` and one.
pub open spec fn at_least_one(n: usize) -> usize {
    if n == 0 {
        1
    } else {
        n
    }
}

/// `endpoint` with the default weight if it has none.
pub open spec fn with_weight(endpoint: EndpointConfigView) -> EndpointConfigView {
    EndpointConfigView {
        weight: Some(endpoint.weight.unwrap_or(DEFAULT_ENDPOINT_WEIGHT)),
        ..endpoint
    }
}

/// The configuration of the whole program.
#[derive(Debug, Clone)]
pub struct Config {
    pub server: Option<ServerConfig>,
    pub balancer: Option<BalancerConfig>,
}

/// What a [`Config`] says.
pub struct ConfigView {
    pub server: Option<ServerConfigView>,
    pub balancer: Option<BalancerConfigView>,
}

impl View for Config {
    type V = ConfigView;

    open spec fn view(&self) -> ConfigView {
        ConfigView {
            server: match self.server {
                Some(server) => Some(server@),
                None => None,
            },
            balancer: match self.balancer {
                Some(balancer) => Some(balancer@),
                None => None,
            },
        }
    }
}

impl ConfigView {
    /// The configuration that leaves everything open.
    pub open spec fn unset() -> ConfigView {
        ConfigView { server: None, balancer: None }
    }

    /// The address that the server is to listen on.
    pub open spec fn bind_addr(self) -> Seq<char> {
        match self.server {
            Some(server) => server.bind_addr.unwrap_or(DEFAULT_BIND_ADDR@),
            None => DEFAULT_BIND_ADDR@,
        }
    }

    /// The settings of the balancer, all open if the configuration has none.
    pub open spec fn balancer_settings(self) -> BalancerConfigView {
        self.balancer.unwrap_or(BalancerConfigView::unset())
    }

    /// At least one usable endpoint is configured.
    pub open spec fn is_usable(self) -> bool {
        self.balancer_settings().usable_endpoints().len() > 0
    }

    /// This configuration with every gap filled and every value in its range.
    pub open spec fn finalized(self) -> ConfigView {
        ConfigView {
            server: Some(ServerConfigView { bind_addr: Some(self.bind_addr()) }),
            balancer: Some(self.balancer_settings().finalized()),
        }
    }
}

impl Default for Config {
    fn default() -> (r: Self)
        ensures
            r@ == ConfigView::unset(),
    {
        Config { server: None, balancer: None }
    }
}

/// Brings the limits of `endpoints` into their ranges and gives each a weight.
fn constrain_endpoints(endpoints: Vec<EndpointConfig>) -> (r: Vec<EndpointConfig>)
    requires
        forall|i: int| 0 <= i < endpoints@.len() ==> limits_acceptable((#[trigger] endpoints@[i])@),
    ensures
        endpoint_views(r@) == endpoint_views(endpoints@).map_values(
            |e: EndpointConfigView| with_weight(e),
        ),
{
    let ghost wanted = endpoint_views(endpoints@).map_values(|e: EndpointConfigView| with_weight(e));
    let mut done: Vec<EndpointConfig> = Vec::new();
    let mut i: usize = 0;
    while i < endpoints.len()
        invariant
            i <= endpoints@.len(),
            wanted == endpoint_views(endpoints@).map_values(|e: EndpointConfigView| with_weight(e)),
            forall|k: int|
                0 <= k < endpoints@.len() ==> limits_acceptable((#[trigger] endpoints@[k])@),
            endpoint_views(done@) == wanted.take(i as int),
        decreases endpoints@.len() - i,
    {
        let ghost before = endpoint_views(done@);
        let endpoint = &endpoints[i];
        assert(limits_acceptable(endpoints@[i as int]@));
        let constrained = EndpointConfig {
            url: endpoint.url.clone(),
            rate_limit_per_sec: if endpoint.rate_limit_per_sec == 0 {
                1
            } else {
                endpoint.rate_limit_per_sec
            },
            burst_size: if endpoint.burst_size == 0 {
                1
            } else {
                endpoint.burst_size
            },
            weight: match endpoint.weight {
                Some(weight) => Some(weight),
                None => Some(DEFAULT_ENDPOINT_WEIGHT),
            },
        };
        done.push(constrained);
        assert(endpoint_views(done@) == before.push(constrained@));
        assert(wanted.take(i + 1) == wanted.take(i as int).push(constrained@));
        i = i + 1;
    }
    assert(wanted.take(i as int) == wanted);
    done
}

impl Config {
    /// Fills the gaps of this configuration, brings its values into their ranges and keeps the
    /// usable endpoints. Fails if no endpoint is usable.
    pub fn finalize(self) -> (r: Result<Config, ConfigError>)
        ensures
            match r {
                Ok(config) => self@.is_usable() && config@ == self@.finalized(),
                Err(ConfigError::ConfigError(reason)) => {
                    &&& !self@.is_usable()
                    &&& reason@ == NO_VALID_ENDPOINTS@
                },
            },
    {
        let server = match self.server {
            Some(server) => server,
            None => ServerConfig::default(),
        };
        let bind_addr = match server.bind_addr {
            Some(addr) => addr,
            None => DEFAULT_BIND_ADDR.to_owned(),
        };
        let settings = match self.balancer {
            Some(balancer) => balancer,
            None => BalancerConfig::default(),
        };
        let ghost asked = settings@;
        let factor = match settings.latency_smoothing_factor {
            Some(factor) => factor,
            None => SmoothingFactor { bits: DEFAULT_LATENCY_SMOOTHING_FACTOR },
        };
        let max_batch_size: usize = settings.max_batch_size.unwrap_or(DEFAULT_MAX_BATCH_SIZE);
        let max_concurrency: usize = settings.max_concurrency.unwrap_or(DEFAULT_MAX_CONCURRENCY);
        let requested = match settings.endpoints {
            Some(list) => list,
            None => get_default_endpoints(),
        };
        assert(endpoint_views(requested@) == asked.requested_endpoints());
        let usable = validate_and_dedupe_endpoints(requested)?;
        proof {
            lemma_validated_endpoints(asked.requested_endpoints());
            assert forall|i: int| 0 <= i < usable@.len() implies limits_acceptable(
                (#[trigger] usable@[i])@,
            ) by {
                assert(endpoint_views(usable@)[i] == usable@[i]@);
            }
        }
        let endpoints = constrain_endpoints(usable);
        Ok(
            Config {
                server: Some(ServerConfig { bind_addr: Some(bind_addr) }),
                balancer: Some(
                    BalancerConfig {
                        health_check_interval_secs: Some(
                            settings.health_check_interval_secs.unwrap_or(
                                DEFAULT_HEALTH_CHECK_INTERVAL_SECS,
                            ),
                        ),
                        health_check_timeout_secs: Some(
                            settings.health_check_timeout_secs.unwrap_or(
                                DEFAULT_HEALTH_CHECK_TIMEOUT_SECS,
                            ),
                        ),
                        base_cooldown_secs: Some(
                            settings.base_cooldown_secs.unwrap_or(DEFAULT_BASE_COOLDOWN_SECS),
                        ),
                        max_cooldown_secs: Some(
                            settings.max_cooldown_secs.unwrap_or(DEFAULT_MAX_COOLDOWN_SECS),
                        ),
                        latency_smoothing_factor: Some(factor.clamp_to_unit()),
                        endpoints: Some(endpoints),
                        max_batch_size: Some(if max_batch_size == 0 { 1 } else { max_batch_size }),
                        max_concurrency: Some(if max_concurrency == 0 { 1 } else { max_concurrency }),
                        connect_timeout_ms: Some(
                            settings.connect_timeout_ms.unwrap_or(DEFAULT_CONNECT_TIMEOUT_MS),
                        ),
                        timeout_secs: Some(settings.timeout_secs.unwrap_or(DEFAULT_TIMEOUT_SECS)),
                        pool_idle_timeout_secs: Some(
                            settings.pool_idle_timeout_secs.unwrap_or(
                                DEFAULT_POOL_IDLE_TIMEOUT_SECS,
                            ),
                        ),
                        pool_max_idle_per_host: Some(
                            settings.pool_max_idle_per_host.unwrap_or(
                                DEFAULT_POOL_MAX_IDLE_PER_HOST,
                            ),
                        ),
                    },
                ),
            },
        )
    }
}

/// No two endpoints of `list` share an address.
pub open spec fn urls_distinct(list: Seq<EndpointConfigView>) -> bool {
    forall|i: int, j: int|
        0 <= i < j < list.len() ==> (#[trigger] list[i]).url != (#[trigger] list[j]).url
}

/// `kept` is the canonical form of some endpoint of `list`.
pub open spec fn comes_from(kept: EndpointConfigView, list: Seq<EndpointConfigView>) -> bool {
    exists|j: int| 0 <= j < list.len() && canonical_endpoint(#[trigger] list[j]) == Some(kept)
}

/// What validation keeps comes from the list it was given, lies in the accepted ranges and has no
/// address twice.
pub proof fn lemma_validated_endpoints(list: Seq<EndpointConfigView>)
    ensures
        urls_distinct(validated(list)),
        forall|i: int|
            0 <= i < validated(list).len() ==> limits_acceptable(#[trigger] validated(list)[i])
                && comes_from(validated(list)[i], list),
    decreases list.len(),
{
    if list.len() > 0 {
        let shorter = list.drop_last();
        lemma_validated_endpoints(shorter);
        let kept = validated(shorter);
        let all = validated(list);
        assert forall|i: int| 0 <= i < all.len() implies limits_acceptable(#[trigger] all[i])
            && comes_from(all[i], list) by {
            if i < kept.len() {
                assert(all[i] == kept[i]);
                let j = choose|j: int|
                    0 <= j < shorter.len() && canonical_endpoint(#[trigger] shorter[j]) == Some(
                        kept[i],
                    );
                assert(list[j] == shorter[j]);
            } else {
                assert(canonical_endpoint(list[list.len() - 1]) == Some(all[i]));
            }
        }
        assert forall|i: int, j: int| 0 <= i < j < all.len() implies (#[trigger] all[i]).url
            != (#[trigger] all[j]).url by {
            assert(all[i] == kept[i]);
            if j < kept.len() {
                assert(all[j] == kept[j]);
            }
        }
    }
}

/// The endpoints of a final configuration lie in the accepted ranges, have a weight and have no
/// address twice.
pub proof fn lemma_finalized_endpoints(config: BalancerConfigView)
    ensures
        config.finalized().endpoints is Some,
        urls_distinct(config.finalized().endpoints.unwrap()),
        forall|i: int|
            0 <= i < config.finalized().endpoints.unwrap().len() ==> limits_acceptable(
                #[trigger] config.finalized().endpoints.unwrap()[i],
            ) && config.finalized().endpoints.unwrap()[i].weight is Some,
{
    let usable = config.usable_endpoints();
    lemma_validated_endpoints(config.requested_endpoints());
    let all = config.finalized().endpoints.unwrap();
    assert forall|i: int, j: int| 0 <= i < j < all.len() implies (#[trigger] all[i]).url != (
    #[trigger] all[j]).url by {
        assert(usable[i].url != usable[j].url);
    }
    assert forall|i: int| 0 <= i < all.len() implies limits_acceptable(#[trigger] all[i])
        && all[i].weight is Some by {
        assert(limits_acceptable(usable[i]));
    }
}

} // verus!
