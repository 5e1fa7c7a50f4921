//! Defaults, validation and loading of the configuration.

use azoth_balancer::config::{
    default_burst_size, get_default_endpoints, try_load_config, validate_and_dedupe_endpoints,
    BalancerConfig, Config, ConfigError, ConfigFile, EndpointConfig, ServerConfig,
    DEFAULT_BASE_COOLDOWN_SECS, DEFAULT_BIND_ADDR, DEFAULT_BURST_SIZE, DEFAULT_CONNECT_TIMEOUT_MS,
    DEFAULT_ENDPOINTS, DEFAULT_ENDPOINT_RATE_LIMIT, DEFAULT_ENDPOINT_WEIGHT,
    DEFAULT_HEALTH_CHECK_INTERVAL_SECS, DEFAULT_HEALTH_CHECK_TIMEOUT_SECS,
    DEFAULT_LATENCY_SMOOTHING_FACTOR, DEFAULT_MAX_BATCH_SIZE, DEFAULT_MAX_CONCURRENCY,
    DEFAULT_MAX_COOLDOWN_SECS, DEFAULT_POOL_IDLE_TIMEOUT_SECS, DEFAULT_POOL_MAX_IDLE_PER_HOST,
    DEFAULT_TIMEOUT_SECS,
};
use azoth_balancer::smoothing::SmoothingFactor;
use azoth_balancer::text::{is_control, is_white_space, starts_with_ignore_case, trim};

fn factor(value: f64) -> SmoothingFactor {
    SmoothingFactor { bits: value.to_bits() }
}

fn endpoint(url: &str) -> EndpointConfig {
    EndpointConfig { url: url.to_string(), rate_limit_per_sec: 10, burst_size: 5, weight: None }
}

/// The value under `key`, if there is one; an error if it is of another type.
fn field<T: serde::de::DeserializeOwned>(
    table: &toml::Value,
    key: &str,
) -> Result<Option<T>, toml::de::Error> {
    table.get(key).map(|value| value.clone().try_into()).transpose()
}

fn parse_config(text: &str) -> Result<Config, toml::de::Error> {
    let table: toml::Table = toml::from_str(text)?;
    let server = match table.get("server") {
        Some(server) => Some(ServerConfig { bind_addr: field(server, "bind_addr")? }),
        None => None,
    };
    let balancer = match table.get("balancer") {
        Some(balancer) => Some(BalancerConfig {
            max_batch_size: field(balancer, "max_batch_size")?,
            max_concurrency: field(balancer, "max_concurrency")?,
            connect_timeout_ms: field(balancer, "connect_timeout_ms")?,
            timeout_secs: field(balancer, "timeout_secs")?,
            pool_idle_timeout_secs: field(balancer, "pool_idle_timeout_secs")?,
            pool_max_idle_per_host: field(balancer, "pool_max_idle_per_host")?,
            ..Default::default()
        }),
        None => None,
    };
    Ok(Config { server, balancer })
}

/// What came of reading a file that holds `text`.
fn config_file(text: &str) -> ConfigFile {
    match parse_config(text) {
        Ok(config) => ConfigFile::Parsed(config),
        Err(e) => ConfigFile::Invalid(e.to_string()),
    }
}

#[test]
fn test_try_load_config_valid_file() {
    let file = config_file("[server]\nbind_addr = \"127.0.0.1:8070\"");
    let result = try_load_config(file).unwrap();
    assert!(result.is_some());
    let config = result.unwrap();
    assert_eq!(config.server.unwrap().bind_addr.unwrap(), "127.0.0.1:8070");
}

#[test]
fn test_try_load_config_file_not_found() {
    // What reading "nonexistent.toml" comes to.
    let result = try_load_config(ConfigFile::Missing).unwrap();
    assert!(result.is_none());
}

#[test]
fn test_try_load_config_invalid_file() {
    let file = config_file("[server]\nbind_addr = 12345");
    let result = try_load_config(file);
    assert!(result.is_err());
    // The error is what the parser says.
    let shown = parse_config("[server]\nbind_addr = 12345").unwrap_err().to_string();
    assert_eq!(result.unwrap_err().message(), format!("Configuration error: {}", shown));
}

#[test]
fn text_that_is_not_toml_is_an_error() {
    let result = try_load_config(ConfigFile::Invalid("expected `=`".to_string()));
    assert!(matches!(
        result,
        Err(ConfigError::ConfigError(msg)) if msg == "expected `=`"
    ));
    assert!(try_load_config(config_file("[server")).is_err());
}

#[test]
fn unreadable_file_is_an_error() {
    let result = try_load_config(ConfigFile::Unreadable("permission denied".to_string()));
    assert!(matches!(
        result,
        Err(ConfigError::ConfigError(msg)) if msg == "permission denied"
    ));
}

#[test]
fn test_try_load_empty_file() {
    let result = try_load_config(config_file("\n")).unwrap();
    assert!(result.is_some());
    let cfg = result.unwrap();
    assert!(cfg.server.is_none());
    assert!(cfg.balancer.is_none());
}

#[test]
fn test_balancer_config_optional_fields() {
    let toml = r#"
    [balancer]
    max_batch_size = 42
    max_concurrency = 10
    "#;

    let cfg = try_load_config(config_file(toml)).unwrap().unwrap();
    let balancer = cfg.balancer.unwrap();
    assert_eq!(balancer.max_batch_size.unwrap(), 42);
    assert_eq!(balancer.max_concurrency.unwrap(), 10);
    assert!(balancer.base_cooldown_secs.is_none());
    assert!(balancer.endpoints.is_none());
}

#[test]
fn test_balancer_config_client_settings() {
    let toml = r#"
    [balancer]
    connect_timeout_ms = 1000
    timeout_secs = 10
    pool_idle_timeout_secs = 30
    pool_max_idle_per_host = 100
    "#;

    let cfg = try_load_config(config_file(toml)).unwrap().unwrap();
    let balancer = cfg.balancer.unwrap();

    assert_eq!(balancer.connect_timeout_ms.unwrap(), 1000);
    assert_eq!(balancer.timeout_secs.unwrap(), 10);
    assert_eq!(balancer.pool_idle_timeout_secs.unwrap(), 30);
    assert_eq!(balancer.pool_max_idle_per_host.unwrap(), 100);
}

#[test]
fn test_latency_smoothing_edge() {
    let cfg = BalancerConfig { latency_smoothing_factor: Some(factor(0.0)), ..Default::default() };
    assert_eq!(f64::from_bits(cfg.latency_smoothing_factor.unwrap().bits), 0.0);
}

#[test]
fn test_validate_and_dedupe_endpoints() {
    let endpoints = vec![
        EndpointConfig {
            url: "https://valid1.com".into(),
            rate_limit_per_sec: 10,
            burst_size: 5,
            weight: Some(1),
        },
        EndpointConfig {
            url: "https://valid1.com".into(),
            rate_limit_per_sec: 10,
            burst_size: 5,
            weight: Some(1),
        },
        EndpointConfig {
            url: "".into(),
            rate_limit_per_sec: 10,
            burst_size: 5,
            weight: Some(1),
        },
        EndpointConfig {
            url: "invalid_url".into(),
            rate_limit_per_sec: 10,
            burst_size: 5,
            weight: Some(1),
        },
    ];
    let result = validate_and_dedupe_endpoints(endpoints);
    assert!(result.is_ok());
    let list = result.unwrap();
    assert_eq!(list.len(), 1);
    assert_eq!(list[0].url, "https://valid1.com");
}

#[test]
fn test_get_default_endpoints() {
    let endpoints = get_default_endpoints();
    assert_eq!(endpoints.len(), 4);
    assert!(endpoints.iter().all(|e| e.url.starts_with("https://")));
}

#[test]
fn test_validate_and_dedupe_all_invalid() {
    let endpoints = vec![
        EndpointConfig {
            url: "not-a-url".into(),
            rate_limit_per_sec: 10,
            burst_size: 5,
            weight: Some(1),
        },
        EndpointConfig {
            url: "".into(),
            rate_limit_per_sec: 10,
            burst_size: 5,
            weight: Some(1),
        },
    ];
    let result = validate_and_dedupe_endpoints(endpoints);
    assert!(result.is_err());
}

#[test]
fn test_validate_and_dedupe_multiple_valid() {
    let endpoints = vec![
        EndpointConfig {
            url: "https://mainnet.infura.io/v3/123".into(),
            rate_limit_per_sec: 20,
            burst_size: 5,
            weight: Some(1),
        },
        EndpointConfig {
            url: "https://rpc.ankr.com/eth".into(),
            rate_limit_per_sec: 20,
            burst_size: 5,
            weight: Some(1),
        },
    ];
    let result = validate_and_dedupe_endpoints(endpoints).unwrap();
    assert_eq!(result.len(), 2);
    assert!(result.iter().any(|e| e.url.contains("infura")));
    assert!(result.iter().any(|e| e.url.contains("ankr")));
}

#[test]
fn test_endpoint_default_values() {
    let endpoint = EndpointConfig {
        url: "https://example.com".to_string(),
        rate_limit_per_sec: 10,
        ..Default::default()
    };
    assert_eq!(endpoint.burst_size, DEFAULT_BURST_SIZE);
    assert!(endpoint.weight.is_none());
}

#[test]
fn test_get_default_endpoints_not_empty() {
    let endpoints = get_default_endpoints();
    assert!(!endpoints.is_empty());
    for e in &endpoints {
        assert!(e.url.starts_with("https://"));
        assert_eq!(e.rate_limit_per_sec, DEFAULT_ENDPOINT_RATE_LIMIT);
        assert_eq!(e.burst_size, DEFAULT_BURST_SIZE);
        assert_eq!(e.weight.unwrap(), DEFAULT_ENDPOINT_WEIGHT);
    }
}

#[test]
fn test_server_config_defaults() {
    let cfg = Config::default();
    assert!(cfg.server.is_none());
}

#[test]
fn test_endpoint_custom_values() {
    let endpoint = EndpointConfig {
        url: "https://example.com".to_string(),
        rate_limit_per_sec: 0,
        burst_size: 50,
        weight: Some(5),
    };
    assert_eq!(endpoint.rate_limit_per_sec, 0);
    assert_eq!(endpoint.burst_size, 50);
    assert_eq!(endpoint.weight, Some(5));
}

#[test]
fn test_validate_endpoints_trim_and_canonicalize() {
    let endpoints = vec![
        EndpointConfig {
            url: " HTTPS://example.com/ ".into(),
            rate_limit_per_sec: 10,
            burst_size: 5,
            weight: None,
        },
        EndpointConfig {
            url: "https://example.com".into(),
            rate_limit_per_sec: 10,
            burst_size: 5,
            weight: None,
        },
    ];
    let validated = validate_and_dedupe_endpoints(endpoints).unwrap();
    assert_eq!(validated.len(), 1);
    assert_eq!(validated[0].url, "https://example.com");
}

#[test]
fn test_validate_and_dedupe_mixed() {
    let endpoints = vec![
        EndpointConfig {
            url: "https://good.com".into(),
            rate_limit_per_sec: 10,
            burst_size: 5,
            weight: None,
        },
        EndpointConfig {
            url: "bad".into(),
            rate_limit_per_sec: 10,
            burst_size: 5,
            weight: None,
        },
        EndpointConfig { url: "".into(), rate_limit_per_sec: 10, burst_size: 5, weight: None },
    ];
    let validated = validate_and_dedupe_endpoints(endpoints).unwrap();
    assert_eq!(validated.len(), 1);
    assert_eq!(validated[0].url, "https://good.com");
}

#[test]
fn test_get_default_endpoints_exact() {
    let endpoints = get_default_endpoints();
    for (i, e) in endpoints.iter().enumerate() {
        assert_eq!(e.url, DEFAULT_ENDPOINTS[i]);
        assert_eq!(e.burst_size, DEFAULT_BURST_SIZE);
        assert_eq!(e.rate_limit_per_sec, DEFAULT_ENDPOINT_RATE_LIMIT);
        assert_eq!(e.weight.unwrap(), DEFAULT_ENDPOINT_WEIGHT);
    }
}

#[test]
fn test_validate_endpoints_invalid_characters() {
    let endpoints = vec![
        EndpointConfig {
            url: "https://good.com/ bad".into(),
            rate_limit_per_sec: 10,
            burst_size: 5,
            weight: None,
        },
        EndpointConfig {
            url: "https://ok.com/\x07".into(),
            rate_limit_per_sec: 10,
            burst_size: 5,
            weight: None,
        },
    ];
    let result = validate_and_dedupe_endpoints(endpoints);
    assert!(result.is_err());
}

#[test]
fn test_validate_endpoints_max_url_length() {
    let long_url = format!("https://example.com/{}", "a".repeat(2048));
    let endpoints = vec![EndpointConfig {
        url: long_url.clone(),
        rate_limit_per_sec: 10,
        burst_size: 5,
        weight: None,
    }];
    let result = validate_and_dedupe_endpoints(endpoints);
    assert!(result.is_err(), "URL exceeding max length should be rejected");
}

#[test]
fn test_validate_endpoints_sane_rate_and_burst() {
    let endpoints = vec![
        EndpointConfig {
            url: "https://good.com".into(),
            rate_limit_per_sec: 0,
            burst_size: 0,
            weight: None,
        },
        EndpointConfig {
            url: "https://ok.com".into(),
            rate_limit_per_sec: 1_000_000,
            burst_size: 1_000_000,
            weight: None,
        },
    ];
    let result = validate_and_dedupe_endpoints(endpoints);
    assert!(result.is_err(), "Endpoints with insane rate or burst should be rejected");
}

#[test]
fn test_validate_endpoints_canonicalization() {
    let endpoints = vec![
        EndpointConfig {
            url: "https://example.com".into(),
            rate_limit_per_sec: 10,
            burst_size: 5,
            weight: None,
        },
        EndpointConfig {
            url: "https://example.com/".into(),
            rate_limit_per_sec: 10,
            burst_size: 5,
            weight: None,
        },
        EndpointConfig {
            url: "HTTPS://example.com".into(),
            rate_limit_per_sec: 10,
            burst_size: 5,
            weight: None,
        },
    ];
    let result = validate_and_dedupe_endpoints(endpoints).unwrap();
    assert_eq!(
        result.len(),
        1,
        "Duplicates differing only by slash or case should be deduplicated"
    );
}

#[test]
fn test_validate_endpoints_invalid_weight() {
    let endpoints = vec![EndpointConfig {
        url: "https://example.com".into(),
        rate_limit_per_sec: 10,
        burst_size: 5,
        weight: Some(0),
    }];
    let result = validate_and_dedupe_endpoints(endpoints);
    assert!(result.is_ok());
    let list = result.unwrap();
    assert_eq!(list[0].weight, Some(0));
}

#[test]
fn test_validate_endpoints_multiple_trailing_slashes() {
    let endpoints = vec![EndpointConfig {
        url: "https://example.com///".into(),
        rate_limit_per_sec: 10,
        burst_size: 5,
        weight: None,
    }];
    let result = validate_and_dedupe_endpoints(endpoints).unwrap();
    assert_eq!(result[0].url, "https://example.com");
}

#[test]
fn test_validate_endpoints_error_message() {
    let endpoints = vec![EndpointConfig {
        url: "invalid".into(),
        rate_limit_per_sec: 10,
        burst_size: 5,
        weight: None,
    }];
    let result = validate_and_dedupe_endpoints(endpoints);
    assert!(matches!(
        result,
        Err(ConfigError::ConfigError(msg)) if msg == "No valid endpoints configured"
    ));
}

#[test]
fn test_get_default_endpoints_urls() {
    let endpoints = get_default_endpoints();
    let expected_urls: Vec<String> = DEFAULT_ENDPOINTS.iter().map(|&s| s.to_string()).collect();
    let actual_urls: Vec<String> = endpoints.iter().map(|e| e.url.clone()).collect();

    assert_eq!(actual_urls, expected_urls);
}

#[test]
fn test_default_constants() {
    let endpoint = EndpointConfig::default();
    assert_eq!(endpoint.burst_size, DEFAULT_BURST_SIZE);
    assert_eq!(endpoint.rate_limit_per_sec, DEFAULT_ENDPOINT_RATE_LIMIT);

    let default_endpoints = get_default_endpoints();
    assert!(default_endpoints.iter().all(|e| e.burst_size == DEFAULT_BURST_SIZE));
    assert!(default_endpoints
        .iter()
        .all(|e| e.rate_limit_per_sec == DEFAULT_ENDPOINT_RATE_LIMIT));
}

#[test]
fn test_endpoint_scheme_mixed_case() {
    let endpoints = vec![EndpointConfig {
        url: "HtTpS://example.com".into(),
        rate_limit_per_sec: 10,
        burst_size: 5,
        weight: None,
    }];
    let validated = validate_and_dedupe_endpoints(endpoints).unwrap();
    assert_eq!(validated[0].url, "https://example.com");
}

#[test]
fn test_endpoint_with_query_and_fragment() {
    let endpoints = vec![EndpointConfig {
        url: "https://example.com/path?query=1#frag".into(),
        rate_limit_per_sec: 10,
        burst_size: 5,
        weight: None,
    }];
    let validated = validate_and_dedupe_endpoints(endpoints).unwrap();
    assert_eq!(validated[0].url, "https://example.com/path?query=1#frag");
}

#[test]
fn test_balancer_extreme_values() {
    let cfg = BalancerConfig {
        max_batch_size: Some(0),
        max_concurrency: Some(100_000),
        ..Default::default()
    };
    assert_eq!(cfg.max_batch_size.unwrap(), 0);
    assert_eq!(cfg.max_concurrency.unwrap(), 100_000);
}

#[test]
fn test_validate_endpoints_all_invalid_branches() {
    let endpoints = vec![
        // Empty URL → invalid
        EndpointConfig { url: "".into(), rate_limit_per_sec: 10, burst_size: 5, weight: None },
        // Invalid URL → invalid
        EndpointConfig {
            url: "not-a-url".into(),
            rate_limit_per_sec: 10,
            burst_size: 5,
            weight: None,
        },
        // Rate limit zero → invalid
        EndpointConfig {
            url: "https://ok.com".into(),
            rate_limit_per_sec: 0,
            burst_size: 5,
            weight: None,
        },
        // Burst size zero → invalid
        EndpointConfig {
            url: "https://ok2.com".into(),
            rate_limit_per_sec: 10,
            burst_size: 0,
            weight: None,
        },
        // URL too long
        EndpointConfig {
            url: format!("https://example.com/{}", "a".repeat(2048)),
            rate_limit_per_sec: 10,
            burst_size: 5,
            weight: None,
        },
    ];

    let result = validate_and_dedupe_endpoints(endpoints);
    assert!(matches!(
        result,
        Err(ConfigError::ConfigError(msg)) if msg == "No valid endpoints configured"
    ));
}

#[test]
fn test_validate_endpoints_mixed_stress() {
    let endpoints = vec![
        // Valid endpoints
        EndpointConfig {
            url: "https://valid1.com".into(),
            rate_limit_per_sec: 10,
            burst_size: 5,
            weight: Some(1),
        },
        EndpointConfig {
            url: "http://valid2.com/".into(),
            rate_limit_per_sec: 20,
            burst_size: 10,
            weight: None,
        },
        // Invalid endpoints
        EndpointConfig { url: "".into(), rate_limit_per_sec: 10, burst_size: 5, weight: None },
        EndpointConfig {
            url: "bad-url".into(),
            rate_limit_per_sec: 10,
            burst_size: 5,
            weight: None,
        },
        EndpointConfig {
            url: "https://example.com".into(),
            rate_limit_per_sec: 0,
            burst_size: 5,
            weight: None,
        },
        EndpointConfig {
            url: "https://example.com".into(),
            rate_limit_per_sec: 10,
            burst_size: 0,
            weight: None,
        },
        EndpointConfig {
            url: format!("https://toolong.com/{}", "a".repeat(2048)),
            rate_limit_per_sec: 10,
            burst_size: 5,
            weight: None,
        },
    ];

    let result = validate_and_dedupe_endpoints(endpoints).unwrap();

    // Only the valid endpoints remain
    assert_eq!(result.len(), 2);
    assert!(result.iter().any(|e| e.url == "https://valid1.com"));
    assert!(result.iter().any(|e| e.url == "http://valid2.com"));
}

#[test]
fn default_burst_size_is_the_default() {
    assert_eq!(default_burst_size(), 25);
}

#[test]
fn finalize_fills_every_gap() {
    let config = Config::default().finalize().unwrap();
    assert_eq!(config.server.unwrap().bind_addr.unwrap(), DEFAULT_BIND_ADDR);
    let b = config.balancer.unwrap();
    assert_eq!(b.health_check_interval_secs, Some(DEFAULT_HEALTH_CHECK_INTERVAL_SECS));
    assert_eq!(b.health_check_timeout_secs, Some(DEFAULT_HEALTH_CHECK_TIMEOUT_SECS));
    assert_eq!(b.base_cooldown_secs, Some(DEFAULT_BASE_COOLDOWN_SECS));
    assert_eq!(b.max_cooldown_secs, Some(DEFAULT_MAX_COOLDOWN_SECS));
    assert_eq!(b.latency_smoothing_factor, Some(factor(0.1)));
    assert_eq!(b.max_batch_size, Some(DEFAULT_MAX_BATCH_SIZE));
    assert_eq!(b.max_concurrency, Some(DEFAULT_MAX_CONCURRENCY));
    assert_eq!(b.connect_timeout_ms, Some(DEFAULT_CONNECT_TIMEOUT_MS));
    assert_eq!(b.timeout_secs, Some(DEFAULT_TIMEOUT_SECS));
    assert_eq!(b.pool_idle_timeout_secs, Some(DEFAULT_POOL_IDLE_TIMEOUT_SECS));
    assert_eq!(b.pool_max_idle_per_host, Some(DEFAULT_POOL_MAX_IDLE_PER_HOST));
    let urls: Vec<String> = b.endpoints.unwrap().into_iter().map(|e| e.url).collect();
    assert_eq!(urls.len(), 4);
    assert_eq!(urls[0], DEFAULT_ENDPOINTS[0]);
    assert_eq!(urls[3], "https://arbitrum.drpc.org");
    assert_eq!(f64::from_bits(DEFAULT_LATENCY_SMOOTHING_FACTOR), 0.1);
}

#[test]
fn finalize_brings_values_into_range() {
    let config = Config {
        server: Some(ServerConfig { bind_addr: Some("127.0.0.1:1".to_string()) }),
        balancer: Some(BalancerConfig {
            max_batch_size: Some(0),
            max_concurrency: Some(0),
            latency_smoothing_factor: Some(factor(1.5)),
            endpoints: Some(vec![endpoint("http://a.com/"), endpoint("nothing")]),
            ..Default::default()
        }),
    };
    let config = config.finalize().unwrap();
    assert_eq!(config.server.unwrap().bind_addr.unwrap(), "127.0.0.1:1");
    let b = config.balancer.unwrap();
    assert_eq!(b.max_batch_size, Some(1));
    assert_eq!(b.max_concurrency, Some(1));
    assert_eq!(b.latency_smoothing_factor, Some(factor(1.0)));
    let list = b.endpoints.unwrap();
    assert_eq!(list.len(), 1);
    assert_eq!(list[0].url, "http://a.com");
    assert_eq!(list[0].weight, Some(DEFAULT_ENDPOINT_WEIGHT));
}

#[test]
fn finalize_without_a_usable_endpoint_fails() {
    let config = Config {
        server: None,
        balancer: Some(BalancerConfig { endpoints: Some(vec![]), ..Default::default() }),
    };
    let err = config.finalize().unwrap_err();
    assert_eq!(err.message(), "Configuration error: No valid endpoints configured");
}

#[test]
fn finalizing_twice_changes_nothing() {
    let config = Config {
        server: None,
        balancer: Some(BalancerConfig {
            endpoints: Some(vec![endpoint(" HTTP://a.com// "), endpoint("https://b.com")]),
            ..Default::default()
        }),
    };
    let once = config.finalize().unwrap();
    let twice = once.clone().finalize().unwrap();
    assert_eq!(format!("{:?}", once), format!("{:?}", twice));
}

#[test]
fn nothing_but_a_scheme_is_no_address() {
    for url in ["http://", "https://", " HTTPS:// ", "http:////", "https:"] {
        let result = validate_and_dedupe_endpoints(vec![endpoint(url)]);
        assert!(matches!(
            result,
            Err(ConfigError::ConfigError(msg)) if msg == "No valid endpoints configured"
        ));
    }
    let list = vec![endpoint("https:///"), endpoint("http://a//")];
    let kept = validate_and_dedupe_endpoints(list).unwrap();
    assert_eq!(kept.len(), 1);
    assert_eq!(kept[0].url, "http://a");
}

#[test]
fn first_use_of_an_address_wins() {
    let first = EndpointConfig { weight: Some(7), ..endpoint("https://a.com") };
    let second = EndpointConfig { weight: Some(9), ..endpoint("https://a.com/") };
    let list = validate_and_dedupe_endpoints(vec![endpoint("https://b.com"), first, second]).unwrap();
    assert_eq!(list.len(), 2);
    assert_eq!(list[0].url, "https://b.com");
    assert_eq!(list[1].url, "https://a.com");
    assert_eq!(list[1].weight, Some(7));
}

#[test]
fn longest_address_is_accepted() {
    let url = format!("https://{}", "a".repeat(2040));
    assert_eq!(url.len(), 2048);
    assert!(validate_and_dedupe_endpoints(vec![endpoint(&url)]).is_ok());
    let longer = format!("https://{}", "a".repeat(2041));
    assert!(validate_and_dedupe_endpoints(vec![endpoint(&longer)]).is_err());
    // The length counts bytes, not characters.
    let wide = format!("https://{}", "\u{e9}".repeat(1021));
    assert!(validate_and_dedupe_endpoints(vec![endpoint(&wide)]).is_err());
}

#[test]
fn largest_limits_are_accepted() {
    let largest = EndpointConfig {
        rate_limit_per_sec: 100_000,
        burst_size: 10_000,
        ..endpoint("https://a.com")
    };
    assert!(validate_and_dedupe_endpoints(vec![largest]).is_ok());
    let rate = EndpointConfig { rate_limit_per_sec: 100_001, ..endpoint("https://a.com") };
    assert!(validate_and_dedupe_endpoints(vec![rate]).is_err());
    let burst = EndpointConfig { burst_size: 10_001, ..endpoint("https://a.com") };
    assert!(validate_and_dedupe_endpoints(vec![burst]).is_err());
}

#[test]
fn character_classes_agree_with_the_standard_library() {
    for code in 0..=0x10ffff_u32 {
        if let Some(c) = char::from_u32(code) {
            assert_eq!(is_white_space(c), c.is_whitespace(), "{:x}", code);
            assert_eq!(is_control(c), c.is_control(), "{:x}", code);
        }
    }
}

#[test]
fn schemes_compare_as_after_lower_casing() {
    // No other character becomes a letter of a scheme in lower case.
    for code in 0..=0x10ffff_u32 {
        if let Some(c) = char::from_u32(code) {
            for scheme in ["http://", "https://"] {
                for at in 0..scheme.len() {
                    if c.to_lowercase().next() != scheme[at..].chars().next() {
                        continue;
                    }
                    let url = format!("{}{}{}", &scheme[..at], c, &scheme[at + 1..]);
                    assert_eq!(
                        starts_with_ignore_case(&url, scheme),
                        url.to_lowercase().starts_with(scheme),
                        "{:x}",
                        code
                    );
                }
            }
        }
    }
    assert!(starts_with_ignore_case("hTTp://x", "http://"));
    assert!(!starts_with_ignore_case("htt", "http://"));
}

#[test]
fn trimming_agrees_with_the_standard_library() {
    for text in ["", " ", "\u{a0} a b \u{2003}\n", "a", "\t\ta", "a\r\n"] {
        assert_eq!(trim(text), text.trim());
    }
}

#[test]
fn clamping_agrees_with_the_standard_library() {
    let values = [
        0.0,
        -0.0,
        0.1,
        0.5,
        1.0,
        1.0000000000000002,
        2.0,
        -1.0,
        -0.1,
        f64::MAX,
        f64::MIN,
        f64::MIN_POSITIVE,
        f64::INFINITY,
        f64::NEG_INFINITY,
    ];
    for value in values {
        let clamped = factor(value).clamp_to_unit();
        assert_eq!(clamped.bits, value.clamp(0.0, 1.0).to_bits(), "{}", value);
    }
}

#[test]
fn a_factor_that_is_not_a_number_becomes_the_default() {
    for value in [f64::NAN, -f64::NAN, f64::from_bits(0x7ff0_0000_0000_0001)] {
        assert!(value.is_nan());
        assert_eq!(factor(value).clamp_to_unit(), factor(0.1));
        let config = Config {
            server: None,
            balancer: Some(BalancerConfig {
                latency_smoothing_factor: Some(factor(value)),
                ..Default::default()
            }),
        };
        let settings = config.finalize().unwrap().balancer.unwrap();
        assert_eq!(settings.latency_smoothing_factor, Some(factor(0.1)));
    }
}
