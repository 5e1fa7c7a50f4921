//! Every setting of the configuration reaches the place of the same name, with its value kept.

use vstd::prelude::*;
use vstd::string::*;

use crate::balancer::{config_or_unset, initial_state, LoadBalancer, LoadBalancerView};
use crate::config::{
    try_load_config, BalancerConfig, BalancerConfigView, Config, ConfigError, ConfigFile,
    ConfigView, EndpointConfig,
};
use crate::config_reloader::{reload_answers, reloaded_state, ReloadResponse};
use crate::endpoint::{LoadBalancerError, RpcEndpoint};

verus! {

/// `asked` is what the configuration says of the balancer: its own section, or nothing at all if it
/// has no such section.
pub open spec fn asks(config: ConfigView, asked: BalancerConfigView) -> bool {
    match config.balancer {
        Some(balancer) => asked == balancer,
        None => {
            &&& asked.health_check_interval_secs is None
            &&& asked.health_check_timeout_secs is None
            &&& asked.base_cooldown_secs is None
            &&& asked.max_cooldown_secs is None
            &&& asked.latency_smoothing_factor is None
            &&& asked.endpoints is None
            &&& asked.max_batch_size is None
            &&& asked.max_concurrency is None
            &&& asked.connect_timeout_ms is None
            &&& asked.timeout_secs is None
            &&& asked.pool_idle_timeout_secs is None
            &&& asked.pool_max_idle_per_host is None
        },
    }
}

/// Finalizing keeps what is configured, and fills in a default only where nothing is. A setting
/// without a range is kept whatever its value is; a largest batch size or concurrency is kept
/// unless it is zero, and a smoothing factor unless it lies outside of zero and one or is no
/// number.
pub proof fn law_finalize_keeps_what_is_configured(config: ConfigView, asked: BalancerConfigView)
    requires
        asks(config, asked),
    ensures
        config.finalized().balancer is Some,
        ({
            let last = config.finalized().balancer.unwrap();
            &&& last.health_check_interval_secs == match asked.health_check_interval_secs {
                Some(v) => Some(v),
                None => Some(30),
            }
            &&& last.health_check_timeout_secs == match asked.health_check_timeout_secs {
                Some(v) => Some(v),
                None => Some(5),
            }
            &&& last.base_cooldown_secs == match asked.base_cooldown_secs {
                Some(v) => Some(v),
                None => Some(3),
            }
            &&& last.max_cooldown_secs == match asked.max_cooldown_secs {
                Some(v) => Some(v),
                None => Some(60),
            }
            &&& last.connect_timeout_ms == match asked.connect_timeout_ms {
                Some(v) => Some(v),
                None => Some(500),
            }
            &&& last.timeout_secs == match asked.timeout_secs {
                Some(v) => Some(v),
                None => Some(5),
            }
            &&& last.pool_idle_timeout_secs == match asked.pool_idle_timeout_secs {
                Some(v) => Some(v),
                None => Some(20),
            }
            &&& last.pool_max_idle_per_host == match asked.pool_max_idle_per_host {
                Some(v) => Some(v),
                None => Some(50),
            }
            &&& last.max_batch_size == match asked.max_batch_size {
                Some(v) => if v >= 1 {
                    Some(v)
                } else {
                    Some(1)
                },
                None => Some(100),
            }
            &&& last.max_concurrency == match asked.max_concurrency {
                Some(v) => if v >= 1 {
                    Some(v)
                } else {
                    Some(1)
                },
                None => Some(50),
            }
            &&& last.latency_smoothing_factor is Some
            &&& asked.latency_smoothing_factor is None ==>
                last.latency_smoothing_factor.unwrap().bits
                == 0x3fb9_9999_9999_999a
            &&& asked.latency_smoothing_factor matches Some(factor) ==> {
                let kept: u64 = last.latency_smoothing_factor.unwrap().bits;
                let zero: u64 = 0;
                let one: u64 = 0x3ff0_0000_0000_0000;
                let infinity: u64 = 0x7ff0_0000_0000_0000;
                let minus_zero: u64 = 0x8000_0000_0000_0000;
                let minus_infinity: u64 = 0xfff0_0000_0000_0000;
                &&& factor.bits <= one || factor.bits == minus_zero ==> kept == factor.bits
                &&& one < factor.bits <= infinity ==> kept == one
                &&& minus_zero < factor.bits <= minus_infinity ==> kept == zero
                &&& infinity < factor.bits < minus_zero || minus_infinity < factor.bits ==> kept
                    == 0x3fb9_9999_9999_999a
            }
        }),
{
}

/// Finalizing keeps the address to listen on that is configured, and takes port 8549 of every
/// address where none is.
pub proof fn law_finalize_keeps_the_address(config: ConfigView)
    ensures
        config.finalized().server is Some,
        config.finalized().server.unwrap().bind_addr == Some(
            match config.server {
                Some(server) => match server.bind_addr {
                    Some(addr) => addr,
                    None => "0.0.0.0:8549"@,
                },
                None => "0.0.0.0:8549"@,
            },
        ),
{
}

/// Each setting of the state is the field of the same name of `last`.
pub open spec fn settings_taken_from(state: LoadBalancerView, last: BalancerConfigView) -> bool {
    &&& Some(state.settings.health_check_interval_secs) == last.health_check_interval_secs
    &&& Some(state.settings.health_check_timeout_secs) == last.health_check_timeout_secs
    &&& Some(state.settings.base_cooldown_secs) == last.base_cooldown_secs
    &&& Some(state.settings.max_cooldown_secs) == last.max_cooldown_secs
    &&& Some(state.settings.max_batch_size) == last.max_batch_size
    &&& Some(state.settings.latency_smoothing_factor) == last.latency_smoothing_factor
    &&& Some(state.client.connect_timeout_ms) == last.connect_timeout_ms
    &&& Some(state.client.timeout_secs) == last.timeout_secs
    &&& Some(state.client.pool_idle_timeout_secs) == last.pool_idle_timeout_secs
    &&& Some(state.client.pool_max_idle_per_host) == last.pool_max_idle_per_host
}

/// A balancer that starts with a configuration, or is given one later, has each setting from the
/// field of the same name of the final configuration. What it listens on, how many requests it
/// takes at a time and where its configuration lies are settled at the start: a later configuration
/// leaves them as they are.
pub proof fn law_settings_come_from_the_configuration(
    state: LoadBalancerView,
    config: ConfigView,
    config_path: Seq<char>,
    now: u64,
)
    ensures
        ({
            let last = config.finalized().balancer.unwrap();
            let started = initial_state(config, config_path, now);
            &&& settings_taken_from(started, last)
            &&& Some(started.max_concurrency) == last.max_concurrency
            &&& Some(started.bind_addr) == config.finalized().server.unwrap().bind_addr
            &&& started.config_path == config_path
        }),
        ({
            let last = config.finalized().balancer.unwrap();
            let given = reloaded_state(state, config, now);
            &&& settings_taken_from(given, last)
            &&& given.max_concurrency == state.max_concurrency
            &&& given.bind_addr == state.bind_addr
            &&& given.config_path == state.config_path
        }),
{
}

/// The section of a configuration that speaks of the balancer, if there is one.
pub open spec fn section_of(config: Option<Config>) -> Option<BalancerConfig> {
    match config {
        Some(config) => config.balancer,
        None => None,
    }
}

/// Each setting of the balancer is the one that `section` names, or its default.
pub open spec fn settings_as_configured(
    balancer: LoadBalancer,
    section: Option<BalancerConfig>,
) -> bool {
    &&& balancer.settings.health_check_interval_secs == match section {
            Some(asked) => match asked.health_check_interval_secs {
                Some(v) => v,
                None => 30,
            },
            None => 30,
        }
    &&& balancer.settings.health_check_timeout_secs == match section {
            Some(asked) => match asked.health_check_timeout_secs {
                Some(v) => v,
                None => 5,
            },
            None => 5,
        }
    &&& balancer.settings.base_cooldown_secs == match section {
            Some(asked) => match asked.base_cooldown_secs {
                Some(v) => v,
                None => 3,
            },
            None => 3,
        }
    &&& balancer.settings.max_cooldown_secs == match section {
            Some(asked) => match asked.max_cooldown_secs {
                Some(v) => v,
                None => 60,
            },
            None => 60,
        }
    &&& balancer.settings.max_batch_size == match section {
            Some(asked) => match asked.max_batch_size {
                Some(v) => if v >= 1 {
                    v
                } else {
                    1
                },
                None => 100,
            },
            None => 100,
        }
    &&& balancer.client.connect_timeout_ms == match section {
            Some(asked) => match asked.connect_timeout_ms {
                Some(v) => v,
                None => 500,
            },
            None => 500,
        }
    &&& balancer.client.timeout_secs == match section {
            Some(asked) => match asked.timeout_secs {
                Some(v) => v,
                None => 5,
            },
            None => 5,
        }
    &&& balancer.client.pool_idle_timeout_secs == match section {
            Some(asked) => match asked.pool_idle_timeout_secs {
                Some(v) => v,
                None => 20,
            },
            None => 20,
        }
    &&& balancer.client.pool_max_idle_per_host == match section {
            Some(asked) => match asked.pool_max_idle_per_host {
                Some(v) => v,
                None => 50,
            },
            None => 50,
        }
    &&& section is None || section.unwrap().latency_smoothing_factor is None
        ==> balancer.settings.latency_smoothing_factor.bits == 0x3fb9_9999_9999_999a
    &&& section is Some && section.unwrap().latency_smoothing_factor is Some
        && section.unwrap().latency_smoothing_factor.unwrap().bits <= 0x3ff0_0000_0000_0000
        ==> balancer.settings.latency_smoothing_factor
        == section.unwrap().latency_smoothing_factor.unwrap()
}

/// What [`Config::finalize`] returns has each value that is configured, and the default only where
/// none is.
pub proof fn law_final_configuration(
    config: Config,
    result: Result<Config, ConfigError>,
    last: Config,
)
    requires
        call_ensures(Config::finalize, (config,), result),
        result == Ok::<Config, ConfigError>(last),
    ensures
        last.server is Some && last.server.unwrap().bind_addr is Some,
        last.server.unwrap().bind_addr.unwrap()@ == match config.server {
            Some(server) => match server.bind_addr {
                Some(addr) => addr@,
                None => "0.0.0.0:8549"@,
            },
            None => "0.0.0.0:8549"@,
        },
        last.balancer is Some,
        last.balancer.unwrap().health_check_interval_secs is Some,
        last.balancer.unwrap().health_check_interval_secs.unwrap() == match config.balancer {
            Some(section) => match section.health_check_interval_secs {
                Some(v) => v,
                None => 30,
            },
            None => 30,
        },
        last.balancer.unwrap().health_check_timeout_secs is Some,
        last.balancer.unwrap().health_check_timeout_secs.unwrap() == match config.balancer {
            Some(section) => match section.health_check_timeout_secs {
                Some(v) => v,
                None => 5,
            },
            None => 5,
        },
        last.balancer.unwrap().base_cooldown_secs is Some,
        last.balancer.unwrap().base_cooldown_secs.unwrap() == match config.balancer {
            Some(section) => match section.base_cooldown_secs {
                Some(v) => v,
                None => 3,
            },
            None => 3,
        },
        last.balancer.unwrap().max_cooldown_secs is Some,
        last.balancer.unwrap().max_cooldown_secs.unwrap() == match config.balancer {
            Some(section) => match section.max_cooldown_secs {
                Some(v) => v,
                None => 60,
            },
            None => 60,
        },
        last.balancer.unwrap().max_batch_size is Some,
        last.balancer.unwrap().max_batch_size.unwrap() == match config.balancer {
            Some(section) => match section.max_batch_size {
                Some(v) => if v >= 1 {
                    v
                } else {
                    1
                },
                None => 100,
            },
            None => 100,
        },
        last.balancer.unwrap().connect_timeout_ms is Some,
        last.balancer.unwrap().connect_timeout_ms.unwrap() == match config.balancer {
            Some(section) => match section.connect_timeout_ms {
                Some(v) => v,
                None => 500,
            },
            None => 500,
        },
        last.balancer.unwrap().timeout_secs is Some,
        last.balancer.unwrap().timeout_secs.unwrap() == match config.balancer {
            Some(section) => match section.timeout_secs {
                Some(v) => v,
                None => 5,
            },
            None => 5,
        },
        last.balancer.unwrap().pool_idle_timeout_secs is Some,
        last.balancer.unwrap().pool_idle_timeout_secs.unwrap() == match config.balancer {
            Some(section) => match section.pool_idle_timeout_secs {
                Some(v) => v,
                None => 20,
            },
            None => 20,
        },
        last.balancer.unwrap().pool_max_idle_per_host is Some,
        last.balancer.unwrap().pool_max_idle_per_host.unwrap() == match config.balancer {
            Some(section) => match section.pool_max_idle_per_host {
                Some(v) => v,
                None => 50,
            },
            None => 50,
        },
        last.balancer.unwrap().max_concurrency is Some,
        last.balancer.unwrap().max_concurrency.unwrap() == match config.balancer {
            Some(section) => match section.max_concurrency {
                Some(v) => if v >= 1 {
                    v
                } else {
                    1
                },
                None => 50,
            },
            None => 50,
        },
        last.balancer.unwrap().latency_smoothing_factor is Some,
        config.balancer is None || config.balancer.unwrap().latency_smoothing_factor is None
            ==> last.balancer.unwrap().latency_smoothing_factor.unwrap().bits == 0x3fb9_9999_9999_999a,
        config.balancer is Some && config.balancer.unwrap().latency_smoothing_factor is Some
            && config.balancer.unwrap().latency_smoothing_factor.unwrap().bits <= 0x3ff0_0000_0000_0000
            ==> last.balancer.unwrap().latency_smoothing_factor.unwrap() == config.balancer.unwrap().latency_smoothing_factor.unwrap(),
{
    assert(last@ == config@.finalized());
    assert(last@.server.unwrap().bind_addr == Some(config@.bind_addr()));
    assert(last@.balancer.unwrap() == config@.balancer_settings().finalized());
}

/// What [`LoadBalancer::new`] returns has each setting as configured, or its default where none is.
pub proof fn law_started_balancer(
    config: Option<Config>,
    config_path: String,
    now: u64,
    balancer: LoadBalancer,
)
    requires
        call_ensures(LoadBalancer::new, (config, config_path, now), balancer),
    ensures
        balancer.config_path@ == config_path@,
        balancer.bind_addr@ == (if config is Some && config.unwrap().server is Some
            && config.unwrap().server.unwrap().bind_addr is Some {
            config.unwrap().server.unwrap().bind_addr.unwrap()@
        } else {
            "0.0.0.0:8549"@
        }),
        balancer.max_concurrency == match section_of(config) {
            Some(section) => match section.max_concurrency {
                Some(v) => if v >= 1 {
                    v
                } else {
                    1
                },
                None => 50,
            },
            None => 50,
        },
        settings_as_configured(balancer, section_of(config)),
{
    assert(balancer@ == initial_state(config_or_unset(config), config_path@, now));
}

/// A balancer that was given a configuration has each setting as configured, or its default where
/// none is, and says so. It listens where it did before, takes as many requests at a time, and has
/// its configuration at the same place. A balancer that could not be given a configuration is what
/// it was.
pub proof fn law_reloaded_balancer(
    before: LoadBalancer,
    config: Option<Config>,
    loaded: Result<Option<Config>, ConfigError>,
    now: u64,
    result: Result<ReloadResponse, LoadBalancerError>,
    response: ReloadResponse,
    after: LoadBalancer,
)
    requires
        reload_answers(before, loaded, now, result, after),
    ensures
        result is Err ==> after == before && result->Err_0 is ConfigError,
        loaded matches Err(ConfigError::ConfigError(shown)) ==> result is Err
            && result->Err_0->ConfigError_0@ == "Configuration error: "@ + shown@,
        loaded is Ok && result is Err ==> result->Err_0->ConfigError_0@
            == "Configuration error: No valid endpoints configured"@,
        loaded == Ok::<Option<Config>, ConfigError>(config) && result == Ok::<
            ReloadResponse,
            LoadBalancerError,
        >(response) ==> {
            &&& response.success
            &&& response.message@ == "Configuration reloaded successfully"@
            &&& response.error is None
            &&& after.bind_addr@ == before.bind_addr@
            &&& after.config_path@ == before.config_path@
            &&& after.max_concurrency == before.max_concurrency
            &&& settings_as_configured(after, section_of(config))
        },
{
    if loaded is Ok && result is Err {
        reveal_strlit("Configuration error: ");
        reveal_strlit("No valid endpoints configured");
        reveal_strlit("Configuration error: No valid endpoints configured");
        assert("Configuration error: "@ + "No valid endpoints configured"@
            =~= "Configuration error: No valid endpoints configured"@);
    }
    if loaded == Ok::<Option<Config>, ConfigError>(config) && result is Ok {
        assert(after@ == reloaded_state(before@, config_or_unset(config), now));
    }
}

/// What came of reading a configuration file: what it holds, or nothing where there is no file, or
/// the reason why it could not be read or understood.
pub proof fn law_configuration_loaded(
    file: ConfigFile,
    loaded: Result<Option<Config>, ConfigError>,
)
    requires
        call_ensures(try_load_config, (file,), loaded),
    ensures
        file matches ConfigFile::Parsed(config) ==> loaded == Ok::<Option<Config>, ConfigError>(
            Some(config),
        ),
        file is Missing ==> loaded == Ok::<Option<Config>, ConfigError>(None),
        file matches ConfigFile::Invalid(shown) ==> loaded == Err::<Option<Config>, ConfigError>(
            ConfigError::ConfigError(shown),
        ),
        file matches ConfigFile::Unreadable(shown) ==> loaded == Err::<Option<Config>, ConfigError>(
            ConfigError::ConfigError(shown),
        ),
{
}

/// What contracts say of a configuration is what its fields hold, each under its own name.
pub proof fn law_configuration_read_by_field(
    config: Config,
    settings: BalancerConfig,
    endpoint: EndpointConfig,
)
    ensures
        config@.server is Some == config.server is Some,
        config.server matches Some(server) ==> match server.bind_addr {
            Some(addr) => config@.server.unwrap().bind_addr == Some(addr@),
            None => config@.server.unwrap().bind_addr is None,
        },
        config@.balancer is Some == config.balancer is Some,
        config.balancer == Some(settings) ==> config@.balancer == Some(settings@),
        settings@.health_check_interval_secs == settings.health_check_interval_secs,
        settings@.health_check_timeout_secs == settings.health_check_timeout_secs,
        settings@.base_cooldown_secs == settings.base_cooldown_secs,
        settings@.max_cooldown_secs == settings.max_cooldown_secs,
        settings@.latency_smoothing_factor == settings.latency_smoothing_factor,
        settings@.max_batch_size == settings.max_batch_size,
        settings@.max_concurrency == settings.max_concurrency,
        settings@.connect_timeout_ms == settings.connect_timeout_ms,
        settings@.timeout_secs == settings.timeout_secs,
        settings@.pool_idle_timeout_secs == settings.pool_idle_timeout_secs,
        settings@.pool_max_idle_per_host == settings.pool_max_idle_per_host,
        match settings.endpoints {
            Some(list) => {
                &&& settings@.endpoints is Some
                &&& settings@.endpoints.unwrap().len() == list@.len()
                &&& forall|i: int|
                    0 <= i < list@.len() ==> (#[trigger] settings@.endpoints.unwrap()[i]) == list@[i]@
            },
            None => settings@.endpoints is None,
        },
        endpoint@.url == endpoint.url@,
        endpoint@.rate_limit_per_sec == endpoint.rate_limit_per_sec,
        endpoint@.burst_size == endpoint.burst_size,
        endpoint@.weight == endpoint.weight,
{
}

/// What contracts say of a balancer and of an endpoint is what their fields hold, each under its
/// own name.
pub proof fn law_state_read_by_field(balancer: LoadBalancer, endpoint: RpcEndpoint)
    ensures
        balancer@.endpoints.len() == balancer.endpoints@.len(),
        forall|i: int|
            0 <= i < balancer.endpoints@.len() ==> (#[trigger] balancer@.endpoints[i])
                == balancer.endpoints@[i]@,
        balancer@.rate_limiters == balancer.rate_limiters@,
        balancer@.bind_addr == balancer.bind_addr@,
        balancer@.settings == balancer.settings,
        balancer@.client == balancer.client,
        balancer@.max_concurrency == balancer.max_concurrency,
        balancer@.config_path == balancer.config_path@,
        endpoint@.url == endpoint.url@,
        endpoint@.healthy == endpoint.healthy,
        endpoint@.last_check == endpoint.last_check,
        endpoint@.cooldown_until == endpoint.cooldown_until,
        endpoint@.cooldown_attempts == endpoint.cooldown_attempts,
        endpoint@.rate_limit_per_sec == endpoint.rate_limit_per_sec,
        endpoint@.burst_size == endpoint.burst_size,
        endpoint@.weight == endpoint.weight,
        endpoint@.metrics == endpoint.metrics,
{
}

} // verus!
