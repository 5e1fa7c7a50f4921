//! Periodic health checks: when they are due, and what their results change.

use vstd::prelude::*;

use crate::balancer::{
    cooldown_of, cooled_by, find_endpoint, lemma_position_of, position_of, BalancerSettings,
    LoadBalancer, LoadBalancerView,
};
use crate::config_reloader::texts;
use crate::endpoint::{averages, ErrorKind, RequestOutcome, RpcEndpointView, Smoothing};
use crate::forwarder::{is_success_status, success_status};
use crate::utils::cooldown::trigger_cooldown;

verus! {

/// The request that a health check sends.
pub const HEALTH_CHECK_BODY: &'static str =
    "{\"jsonrpc\":\"2.0\",\"method\":\"eth_blockNumber\",\"params\":[],\"id\":\"health_check\"}";

/// What can wake the task that checks the endpoints.
#[derive(Clone, Copy, Debug, PartialEq, Eq, Structural)]
pub enum CheckerEvent {
    /// The program shuts down.
    Shutdown,
    /// The interval between two rounds of checks has passed.
    Tick,
}

/// What the task that checks the endpoints does next.
#[derive(Clone, Copy, Debug, PartialEq, Eq, Structural)]
pub enum CheckerAction {
    /// End the task.
    Exit,
    /// Check all endpoints.
    Check,
    /// Let the ticker start over with another interval, then check all endpoints.
    RestartTicker { interval_secs: u64 },
}

/// The task that checks the endpoints: the interval that its ticker runs at.
#[derive(Clone, Copy, Debug, PartialEq, Eq, Structural)]
pub struct HealthChecker {
    pub interval_secs: u64,
}

/// `after` is the task `before` once `event` happened while `configured_secs` is the configured
/// interval, and `action` what the task does.
pub open spec fn stepped(
    before: HealthChecker,
    event: CheckerEvent,
    configured_secs: u64,
    action: CheckerAction,
    after: HealthChecker,
) -> bool {
    match event {
        CheckerEvent::Shutdown => action == CheckerAction::Exit && after == before,
        CheckerEvent::Tick => {
            &&& after.interval_secs == configured_secs
            &&& action == if configured_secs == before.interval_secs {
                CheckerAction::Check
            } else {
                CheckerAction::RestartTicker { interval_secs: configured_secs }
            }
        },
    }
}

impl HealthChecker {
    /// What the task does on `event` while `configured_secs` is the configured interval.
    pub fn step(&mut self, event: CheckerEvent, configured_secs: u64) -> (action: CheckerAction)
        ensures
            stepped(*old(self), event, configured_secs, action, *final(self)),
    {
        match event {
            CheckerEvent::Shutdown => CheckerAction::Exit,
            CheckerEvent::Tick => {
                if configured_secs != self.interval_secs {
                    self.interval_secs = configured_secs;
                    CheckerAction::RestartTicker { interval_secs: configured_secs }
                } else {
                    CheckerAction::Check
                }
            },
        }
    }
}

/// The addresses of `endpoints`.
pub open spec fn addresses(endpoints: Seq<RpcEndpointView>) -> Seq<Seq<char>> {
    endpoints.map_values(|e: RpcEndpointView| e.url)
}

/// Tells whether an endpoint passed a check that it answered with `status`, or with nothing in
/// time.
pub fn check_passed(status: Option<u16>) -> (r: bool)
    ensures
        r == (status matches Some(code) && success_status(code)),
{
    match status {
        Some(code) => is_success_status(code),
        None => false,
    }
}

/// The latency that a failed check counts as: the timeout in milliseconds, cut to 64 bits.
pub open spec fn failed_check_latency(timeout_secs: u64) -> u64 {
    ((timeout_secs * 1000) % 0x1_0000_0000_0000_0000) as u64
}

/// What a health check came to.
#[derive(Clone, Copy, Debug, PartialEq, Eq, Structural)]
pub enum CheckResult {
    /// There is no such endpoint any more.
    Gone,
    /// The endpoint was healthy and is.
    Passed,
    /// The endpoint was unhealthy and no longer is.
    Recovered,
    /// The endpoint was healthy and no longer is; its cooldown lasts as many seconds.
    Failed { cooldown_secs: u64 },
    /// The endpoint was unhealthy and still is.
    StillFailing,
}

/// `after` is the endpoint `before` once a check at the time `now` found it healthy or not, the
/// moving averages taken by `average`.
pub open spec fn endpoint_checked<F: Fn(u64, u64, Smoothing) -> u64>(
    before: RpcEndpointView,
    healthy: bool,
    settings: BalancerSettings,
    now: u64,
    average: F,
    after: RpcEndpointView,
) -> bool {
    let failure = RequestOutcome::Failure {
        error_kind: ErrorKind::Timeout,
        latency_ms: failed_check_latency(settings.health_check_timeout_secs),
    };
    let noted = RpcEndpointView { healthy, last_check: now, metrics: after.metrics, ..before };
    match (before.healthy, healthy) {
        (true, true) => after == noted && after.metrics == before.metrics,
        (false, true) => {
            &&& before.metrics.recovered(average, after.metrics)
            &&& after == RpcEndpointView { cooldown_attempts: 0, cooldown_until: None, ..noted }
        },
        (true, false) => {
            &&& before.metrics.updated(failure, average, after.metrics)
            &&& after == cooled_by(noted, settings, now)
        },
        (false, false) => {
            &&& before.metrics.updated(failure, average, after.metrics)
            &&& after == noted
        },
    }
}

/// `after` is the state `before` once a check at the time `now` found the endpoint at `url` healthy
/// or not, and `result` what the check came to.
pub open spec fn health_checked<F: Fn(u64, u64, Smoothing) -> u64>(
    before: LoadBalancerView,
    url: Seq<char>,
    healthy: bool,
    now: u64,
    average: F,
    result: CheckResult,
    after: LoadBalancerView,
) -> bool {
    match position_of(before.endpoints, url) {
        Some(i) => {
            &&& endpoint_checked(
                before.endpoints[i],
                healthy,
                before.settings,
                now,
                average,
                after.endpoints[i],
            )
            &&& after == LoadBalancerView {
                endpoints: before.endpoints.update(i, after.endpoints[i]),
                ..before
            }
            &&& result == match (before.endpoints[i].healthy, healthy) {
                (true, true) => CheckResult::Passed,
                (false, true) => CheckResult::Recovered,
                (true, false) => CheckResult::Failed {
                    cooldown_secs: cooldown_of(before, i) as u64,
                },
                (false, false) => CheckResult::StillFailing,
            }
        },
        None => after == before && result == CheckResult::Gone,
    }
}

/// `trace` starts with `before`, ends with `after` and has a state after each of the `updates`,
/// which are the addresses that were checked and whether they were found healthy.
pub open spec fn health_trace<F: Fn(u64, u64, Smoothing) -> u64>(
    before: LoadBalancerView,
    updates: Seq<(String, bool)>,
    now: u64,
    average: F,
    results: Seq<CheckResult>,
    after: LoadBalancerView,
    trace: Seq<LoadBalancerView>,
) -> bool {
    &&& trace.len() == updates.len() + 1
    &&& results.len() == updates.len()
    &&& trace[0] == before
    &&& trace.last() == after
    &&& forall|k: int|
        0 <= k < updates.len() ==> health_checked(
            trace[k],
            (#[trigger] updates[k]).0@,
            updates[k].1,
            now,
            average,
            results[k],
            trace[k + 1],
        )
}

impl LoadBalancer {
    /// The addresses of the endpoints.
    pub fn endpoint_urls(&self) -> (r: Vec<String>)
        ensures
            texts(r@) == addresses(self@.endpoints),
    {
        let ghost wanted = addresses(self@.endpoints);
        let mut urls: Vec<String> = Vec::new();
        let mut i: usize = 0;
        while i < self.endpoints.len()
            invariant
                wanted == addresses(self@.endpoints),
                i <= self.endpoints@.len(),
                texts(urls@) == wanted.take(i as int),
            decreases self.endpoints@.len() - i,
        {
            let ghost before = texts(urls@);
            let url = self.endpoints[i].url.clone();
            urls.push(url);
            assert(texts(urls@) == before.push(url@));
            assert(wanted.take(i + 1) == wanted.take(i as int).push(url@));
            i = i + 1;
        }
        assert(wanted.take(i as int) == wanted);
        urls
    }

    /// Takes note of a check that found the endpoint at `url` healthy or not.
    pub fn apply_health_check<F: Fn(u64, u64, Smoothing) -> u64>(
        &mut self,
        url: &String,
        is_healthy: bool,
        now: u64,
        average: &F,
    ) -> (r: CheckResult)
        requires
            averages(*average),
        ensures
            health_checked(old(self)@, url@, is_healthy, now, *average, r, final(self)@),
            old(self).wf() ==> final(self).wf(),
    {
        let ghost states = self@.endpoints;
        proof {
            lemma_position_of(states, url@);
        }
        let i: usize = match find_endpoint(&self.endpoints, url) {
            Some(i) => i,
            None => {
                return CheckResult::Gone;
            },
        };
        assert(states[i as int] == self.endpoints@[i as int]@);
        let was_healthy: bool = self.endpoints[i].healthy;
        self.endpoints[i].healthy = is_healthy;
        self.endpoints[i].last_check = now;
        let result = if is_healthy {
            if was_healthy {
                CheckResult::Passed
            } else {
                self.endpoints[i].metrics.recover(average);
                self.endpoints[i].cooldown_attempts = 0;
                self.endpoints[i].cooldown_until = None;
                CheckResult::Recovered
            }
        } else {
            let latency_ms: u64 = self.settings.health_check_timeout_secs.wrapping_mul(1000);
            let outcome = RequestOutcome::Failure { error_kind: ErrorKind::Timeout, latency_ms };
            self.endpoints[i].metrics.update(&outcome, average);
            if was_healthy {
                let cooldown_secs: u64 = trigger_cooldown(
                    &mut self.endpoints[i],
                    self.settings.base_cooldown_secs,
                    self.settings.max_cooldown_secs,
                    now,
                );
                CheckResult::Failed { cooldown_secs }
            } else {
                CheckResult::StillFailing
            }
        };
        assert(self@.endpoints =~= states.update(i as int, self.endpoints@[i as int]@));
        result
    }

    /// Takes note of the results of a round of checks, one after the other.
    pub fn apply_health_checks<F: Fn(u64, u64, Smoothing) -> u64>(
        &mut self,
        updates: &Vec<(String, bool)>,
        now: u64,
        average: &F,
    ) -> (r: Vec<CheckResult>)
        requires
            averages(*average),
        ensures
            exists|trace: Seq<LoadBalancerView>|
                health_trace(old(self)@, updates@, now, *average, r@, final(self)@, trace),
            old(self).wf() ==> final(self).wf(),
    {
        let mut results: Vec<CheckResult> = Vec::new();
        let ghost mut trace: Seq<LoadBalancerView> = seq![self@];
        let mut k: usize = 0;
        while k < updates.len()
            invariant
                averages(*average),
                k <= updates@.len(),
                health_trace(
                    old(self)@,
                    updates@.take(k as int),
                    now,
                    *average,
                    results@,
                    self@,
                    trace,
                ),
                old(self).wf() ==> self.wf(),
            decreases updates@.len() - k,
        {
            let ghost earlier = trace;
            let ghost results_before = results@;
            let result = self.apply_health_check(&updates[k].0, updates[k].1, now, average);
            results.push(result);
            proof {
                trace = earlier.push(self@);
                let done = updates@.take(k + 1);
                assert forall|j: int| 0 <= j < done.len() implies health_checked(
                    trace[j],
                    (#[trigger] done[j]).0@,
                    done[j].1,
                    now,
                    *average,
                    results@[j],
                    trace[j + 1],
                ) by {
                    if j < k {
                        assert(updates@.take(k as int)[j] == done[j]);
                        assert(earlier[j] == trace[j] && earlier[j + 1] == trace[j + 1]);
                        assert(results_before[j] == results@[j]);
                    }
                }
            }
            k = k + 1;
        }
        assert(updates@.take(k as int) == updates@);
        assert(health_trace(old(self)@, updates@, now, *average, results@, self@, trace));
        results
    }
}

} // verus!
