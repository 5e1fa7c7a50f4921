//! The state of one upstream endpoint and its performance metrics.
//!
//! Points in time are nanoseconds of a monotonic clock, counted from some fixed origin; the
//! callers read the clock.

use vstd::prelude::*;
use vstd::string::*;

use crate::config::ConfigError;
use crate::limiter::NANOS_PER_SEC;

verus! {

/// Why a request was not answered by an upstream endpoint.
#[derive(Debug)]
pub enum LoadBalancerError {
    RateLimited(String),
    UpstreamError(String),
    ConfigError(String),
    BadRequest(String),
}

impl LoadBalancerError {
    /// The text that stands for this error.
    pub open spec fn text(self) -> Seq<char> {
        match self {
            LoadBalancerError::RateLimited(url) => "Rate limit exceeded for endpoint: "@ + url@,
            LoadBalancerError::UpstreamError(reason) => "Upstream error: "@ + reason@,
            LoadBalancerError::ConfigError(reason) => "Configuration error: "@ + reason@,
            LoadBalancerError::BadRequest(reason) => "Bad request: "@ + reason@,
        }
    }

    /// The text that stands for this error.
    pub fn message(&self) -> (r: String)
        ensures
            r@ == self.text(),
    {
        match self {
            LoadBalancerError::RateLimited(url) => {
                "Rate limit exceeded for endpoint: ".to_owned().concat(url.as_str())
            },
            LoadBalancerError::UpstreamError(reason) => "Upstream error: ".to_owned().concat(
                reason.as_str(),
            ),
            LoadBalancerError::ConfigError(reason) => "Configuration error: ".to_owned().concat(
                reason.as_str(),
            ),
            LoadBalancerError::BadRequest(reason) => "Bad request: ".to_owned().concat(
                reason.as_str(),
            ),
        }
    }
}

impl From<ConfigError> for LoadBalancerError {
    /// A configuration error as an error of the balancer.
    fn from(err: ConfigError) -> (r: LoadBalancerError)
        ensures
            r matches LoadBalancerError::ConfigError(reason) && reason@ == err.text(),
    {
        LoadBalancerError::ConfigError(err.message())
    }
}

// The text of the result is stated by `from` itself, over its view.
impl vstd::std_specs::convert::FromSpecImpl<ConfigError> for LoadBalancerError {
    open spec fn obeys_from_spec() -> bool {
        false
    }

    open spec fn from_spec(err: ConfigError) -> LoadBalancerError {
        arbitrary()
    }
}

/// How a request failed.
#[derive(Clone, Copy, Debug, PartialEq, Eq, Structural)]
pub enum ErrorKind {
    Timeout,
    ConnectionError,
    Http5xx,
    Http4xx,
    RateLimit,
}

impl ErrorKind {
    /// The least penalty for a failure of this kind, in milliseconds.
    pub open spec fn base_penalty(self) -> u64 {
        match self {
            ErrorKind::Timeout => 30_000,
            ErrorKind::ConnectionError => 20_000,
            ErrorKind::Http5xx => 15_000,
            ErrorKind::Http4xx => 5_000,
            ErrorKind::RateLimit => 10_000,
        }
    }
}

/// How a request ended.
#[derive(Clone, Copy, Debug, PartialEq, Eq, Structural)]
pub enum RequestOutcome {
    Success { latency_ms: u64 },
    Failure { error_kind: ErrorKind, latency_ms: u64 },
}

/// The weight that a new value gets in a moving average.
#[derive(Clone, Copy, Debug, PartialEq, Eq, Structural)]
pub enum Smoothing {
    /// The configured smoothing factor.
    Configured,
    /// One half: a penalty fades quickly after a success.
    FastDecay,
    /// Four fifths: a penalty grows quickly after a failure.
    FastAttack,
}

/// The least cost of using an endpoint, in milliseconds.
pub const MIN_TOTAL_COST_MS: u64 = 1000;

/// The performance metrics of an endpoint.
#[derive(Clone, Copy, Debug, PartialEq, Eq, Structural)]
pub struct EndpointMetrics {
    /// Moving average of the latency of successful requests, in milliseconds.
    pub ema_latency_ms: u64,
    /// Moving average of the penalties for failures, in milliseconds.
    pub ema_error_penalty_ms: u64,
    /// Number of failures since the last success.
    pub consecutive_failures: u32,
    /// When the endpoint was last selected, in seconds since the Unix epoch.
    pub last_selected: u64,
}

impl Default for EndpointMetrics {
    fn default() -> (r: Self)
        ensures
            r == (EndpointMetrics {
                ema_latency_ms: 0,
                ema_error_penalty_ms: 0,
                consecutive_failures: 0,
                last_selected: 0,
            }),
    {
        EndpointMetrics {
            ema_latency_ms: 0,
            ema_error_penalty_ms: 0,
            consecutive_failures: 0,
            last_selected: 0,
        }
    }
}

/// `average` can be asked for the next value of any moving average.
pub open spec fn averages<F: Fn(u64, u64, Smoothing) -> u64>(average: F) -> bool {
    forall|current: u64, value: u64, smoothing: Smoothing|
        call_requires(average, (current, value, smoothing))
}

/// The larger of two numbers.
pub open spec fn max_u64(a: u64, b: u64) -> u64 {
    if a >= b {
        a
    } else {
        b
    }
}

/// The penalty for a failure: its base penalty or its latency, whichever is larger.
pub open spec fn penalty(error_kind: ErrorKind, latency_ms: u64) -> u64 {
    max_u64(error_kind.base_penalty(), latency_ms)
}

impl EndpointMetrics {
    /// What using the endpoint costs: its average latency and penalty added up, and no less than
    /// the least cost.
    pub open spec fn total_cost(self) -> u64 {
        let raw = self.ema_latency_ms + self.ema_error_penalty_ms;
        if raw < MIN_TOTAL_COST_MS {
            MIN_TOTAL_COST_MS
        } else if raw > u64::MAX {
            u64::MAX
        } else {
            raw as u64
        }
    }

    /// `next` is what these metrics become after `outcome`, the moving averages taken by
    /// `average`.
    pub open spec fn updated<F: Fn(u64, u64, Smoothing) -> u64>(
        self,
        outcome: RequestOutcome,
        average: F,
        next: EndpointMetrics,
    ) -> bool {
        &&& next.last_selected == self.last_selected
        &&& match outcome {
            RequestOutcome::Success { latency_ms } => {
                &&& call_ensures(
                    average,
                    (self.ema_latency_ms, latency_ms, Smoothing::Configured),
                    next.ema_latency_ms,
                )
                &&& call_ensures(
                    average,
                    (self.ema_error_penalty_ms, 0u64, Smoothing::FastDecay),
                    next.ema_error_penalty_ms,
                )
                &&& next.consecutive_failures == 0
            },
            RequestOutcome::Failure { error_kind, latency_ms } => {
                &&& next.ema_latency_ms == self.ema_latency_ms
                &&& call_ensures(
                    average,
                    (
                        self.ema_error_penalty_ms,
                        penalty(error_kind, latency_ms),
                        Smoothing::FastAttack,
                    ),
                    next.ema_error_penalty_ms,
                )
                &&& next.consecutive_failures == if self.consecutive_failures == u32::MAX {
                    0
                } else {
                    (self.consecutive_failures + 1) as u32
                }
            },
        }
    }

    /// `next` is what these metrics become when the endpoint recovers.
    pub open spec fn recovered<F: Fn(u64, u64, Smoothing) -> u64>(
        self,
        average: F,
        next: EndpointMetrics,
    ) -> bool {
        &&& next.last_selected == self.last_selected
        &&& next.ema_latency_ms == self.ema_latency_ms
        &&& next.consecutive_failures == 0
        &&& call_ensures(
            average,
            (self.ema_error_penalty_ms, 0u64, Smoothing::FastDecay),
            next.ema_error_penalty_ms,
        )
    }

    /// Takes note of how a request ended. `average` gives the next value of a moving average from
    /// its current value, the new value and the weight of the new value.
    pub fn update<F: Fn(u64, u64, Smoothing) -> u64>(
        &mut self,
        outcome: &RequestOutcome,
        average: &F,
    )
        requires
            averages(*average),
        ensures
            old(self).updated(*outcome, *average, *final(self)),
    {
        match outcome {
            RequestOutcome::Success { latency_ms } => {
                self.ema_latency_ms =
                average(self.ema_latency_ms, *latency_ms, Smoothing::Configured);
                self.consecutive_failures = 0;
                self.ema_error_penalty_ms =
                average(self.ema_error_penalty_ms, 0, Smoothing::FastDecay);
            },
            RequestOutcome::Failure { error_kind, latency_ms } => {
                let penalty: u64 = Self::calculate_penalty(*error_kind, *latency_ms);
                self.ema_error_penalty_ms =
                average(self.ema_error_penalty_ms, penalty, Smoothing::FastAttack);
                self.consecutive_failures = self.consecutive_failures.wrapping_add(1);
            },
        }
    }

    /// Forgets past failures and lets the penalty fade.
    pub fn recover<F: Fn(u64, u64, Smoothing) -> u64>(&mut self, average: &F)
        requires
            averages(*average),
        ensures
            old(self).recovered(*average, *final(self)),
    {
        self.consecutive_failures = 0;
        self.ema_error_penalty_ms = average(self.ema_error_penalty_ms, 0, Smoothing::FastDecay);
    }

    /// The penalty for a failure: its base penalty or its latency, whichever is larger.
    pub fn calculate_penalty(error_kind: ErrorKind, latency_ms: u64) -> (r: u64)
        ensures
            r == penalty(error_kind, latency_ms),
    {
        let base: u64 = match error_kind {
            ErrorKind::Timeout => 30_000,
            ErrorKind::ConnectionError => 20_000,
            ErrorKind::Http5xx => 15_000,
            ErrorKind::Http4xx => 5_000,
            ErrorKind::RateLimit => 10_000,
        };
        if base >= latency_ms {
            base
        } else {
            latency_ms
        }
    }

    /// What using the endpoint costs.
    pub fn get_total_cost(&self) -> (r: u64)
        ensures
            r == self.total_cost(),
    {
        let raw: u64 = self.ema_latency_ms.saturating_add(self.ema_error_penalty_ms);
        if raw < MIN_TOTAL_COST_MS {
            MIN_TOTAL_COST_MS
        } else {
            raw
        }
    }
}

/// The state and the configuration of one upstream endpoint.
#[derive(Debug, Clone)]
pub struct RpcEndpoint {
    /// The address of the endpoint.
    pub url: String,
    /// What the last check found.
    pub healthy: bool,
    /// When the endpoint was last checked, in nanoseconds.
    pub last_check: u64,
    /// When the endpoint can be used again after a cooldown, in nanoseconds. Wide enough for any
    /// reading of the clock plus any number of seconds.
    pub cooldown_until: Option<u128>,
    /// Number of cooldowns in a row.
    pub cooldown_attempts: u32,
    /// The configured rate limit, in requests per second.
    pub rate_limit_per_sec: u32,
    /// The configured burst size.
    pub burst_size: u32,
    /// The configured weight; the larger, the sooner the endpoint is used.
    pub weight: u32,
    /// How the endpoint performs.
    pub metrics: EndpointMetrics,
}

/// What an [`RpcEndpoint`] holds.
pub struct RpcEndpointView {
    pub url: Seq<char>,
    pub healthy: bool,
    pub last_check: u64,
    pub cooldown_until: Option<u128>,
    pub cooldown_attempts: u32,
    pub rate_limit_per_sec: u32,
    pub burst_size: u32,
    pub weight: u32,
    pub metrics: EndpointMetrics,
}

impl View for RpcEndpoint {
    type V = RpcEndpointView;

    open spec fn view(&self) -> RpcEndpointView {
        RpcEndpointView {
            url: self.url@,
            healthy: self.healthy,
            last_check: self.last_check,
            cooldown_until: self.cooldown_until,
            cooldown_attempts: self.cooldown_attempts,
            rate_limit_per_sec: self.rate_limit_per_sec,
            burst_size: self.burst_size,
            weight: self.weight,
            metrics: self.metrics,
        }
    }
}

impl RpcEndpointView {
    /// At the time `now` the endpoint waits for the end of a cooldown.
    pub open spec fn in_cooldown(self, now: u64) -> bool {
        match self.cooldown_until {
            Some(until) => now < until,
            None => false,
        }
    }

    /// The whole seconds from `now` to the end of the cooldown; none if there is no cooldown.
    pub open spec fn cooldown_remaining(self, now: u64) -> int {
        match self.cooldown_until {
            Some(until) if now < until => (until - now) / NANOS_PER_SEC as int,
            _ => 0,
        }
    }

    /// At the time `now` the endpoint can be used.
    pub open spec fn available(self, now: u64) -> bool {
        self.healthy && !self.in_cooldown(now)
    }
}

impl RpcEndpoint {
    /// Tells whether the endpoint waits for the end of a cooldown.
    pub fn is_in_cooldown(&self, now: u64) -> (r: bool)
        ensures
            r == self@.in_cooldown(now),
    {
        match self.cooldown_until {
            Some(until) => (now as u128) < until,
            None => false,
        }
    }

    /// The whole seconds to the end of the cooldown; zero if there is no cooldown, and the largest
    /// `i64` if there are more.
    pub fn cooldown_remaining_secs(&self, now: u64) -> (r: i64)
        ensures
            r == if self@.cooldown_remaining(now) > i64::MAX {
                i64::MAX as int
            } else {
                self@.cooldown_remaining(now)
            },
    {
        match self.cooldown_until {
            Some(until) => {
                if (now as u128) < until {
                    let secs: u128 = (until - now as u128) / (NANOS_PER_SEC as u128);
                    if secs > i64::MAX as u128 {
                        i64::MAX
                    } else {
                        secs as i64
                    }
                } else {
                    0
                }
            },
            None => 0,
        }
    }

    /// Tells whether the endpoint is healthy and in no cooldown.
    pub fn is_available(&self, now: u64) -> (r: bool)
        ensures
            r == self@.available(now),
    {
        self.healthy && !self.is_in_cooldown(now)
    }
}

} // verus!
