//! The choice of the endpoint that a request goes to.

use azoth_balancer::endpoint::{EndpointMetrics, LoadBalancerError, RpcEndpoint};
use azoth_balancer::limiter::{RateLimiter, RateLimiters};
use azoth_balancer::strategy::{
    rank_endpoints, reserve_tokens, select_best_endpoint, Attempt, TIER2_MIN_WEIGHT,
    TIER3_MIN_WEIGHT,
};

const NOW: u64 = 5_000_000_000;

// Helper to create a test endpoint
fn create_test_endpoint(
    url: &str,
    weight: u32,
    cost: u64,
    healthy: bool,
    cooldown_secs: Option<u64>,
    last_selected: u64,
) -> RpcEndpoint {
    RpcEndpoint {
        url: url.to_string(),
        weight,
        metrics: EndpointMetrics {
            ema_latency_ms: cost,
            ema_error_penalty_ms: 0,
            consecutive_failures: 0,
            last_selected,
        },
        healthy,
        cooldown_until: cooldown_secs.map(|secs| NOW as u128 + secs as u128 * 1_000_000_000),
        last_check: NOW,
        cooldown_attempts: 0,
        rate_limit_per_sec: 100,
        burst_size: 100,
    }
}

// Helper to create a rate limiter that drains in one second
fn create_rate_limiter(burst: u32) -> RateLimiter {
    RateLimiter::new(burst, 1_000_000_000)
}

fn run_selection<'a>(
    endpoints: &'a Vec<RpcEndpoint>,
    limiters: &mut RateLimiters,
    batch_size: usize,
) -> Option<&'a RpcEndpoint> {
    select_best_endpoint(endpoints, limiters, batch_size, NOW).selected.map(|i| &endpoints[i])
}

// --- Tiered Logic Tests ---

#[test]
fn test_tier1_is_always_prioritized() {
    let endpoints = vec![
        create_test_endpoint("tier3.com", 10, 10, true, None, 0),
        create_test_endpoint("tier2.com", 60, 20, true, None, 0),
        create_test_endpoint("tier1.com", 100, 500, true, None, 0), // High cost, but Tier 1
    ];
    let mut limiters = RateLimiters::new();

    let selected = run_selection(&endpoints, &mut limiters, 1).unwrap();
    assert_eq!(selected.url, "tier1.com");
}

#[test]
fn test_tier1_sorts_by_mru_on_equal_weight() {
    let endpoints = vec![
        create_test_endpoint("tier1-b.com", 110, 100, true, None, 20), // Used more recently
        create_test_endpoint("tier1-a.com", 110, 100, true, None, 10), // Used least recently
        create_test_endpoint("tier1-c.com", 100, 100, true, None, 5),  // Lower weight
    ];
    let mut limiters = RateLimiters::new();

    let selected = run_selection(&endpoints, &mut limiters, 1).unwrap();
    assert_eq!(selected.url, "tier1-b.com");
}

#[test]
fn test_tier1_rate_limited_falls_back_to_tier2() {
    let endpoints = vec![
        create_test_endpoint("tier1-rate-limited.com", 100, 50, true, None, 0),
        create_test_endpoint("tier2-available.com", 60, 20, true, None, 0),
    ];

    let mut limiters = RateLimiters::new();
    let mut limiter1 = create_rate_limiter(1);
    assert!(limiter1.check_n(1)); // Use up all tokens
    limiters.insert("tier1-rate-limited.com".to_string(), limiter1);
    limiters.insert("tier2-available.com".to_string(), create_rate_limiter(1));

    let selected = run_selection(&endpoints, &mut limiters, 1).unwrap();
    assert_eq!(selected.url, "tier2-available.com");
}

#[test]
fn test_tier1_unavailable_falls_back_to_tier2() {
    let endpoints = vec![
        create_test_endpoint("tier1-unhealthy.com", 100, 50, false, None, 0),
        create_test_endpoint("tier2-best.com", 60, 20, true, None, 0),
        create_test_endpoint("tier2-worst.com", 55, 80, true, None, 0),
    ];
    let mut limiters = RateLimiters::new();

    let selected = run_selection(&endpoints, &mut limiters, 1).unwrap();
    assert_eq!(selected.url, "tier2-best.com");
}

#[test]
fn test_tier2_sorts_by_weight_then_cost() {
    let endpoints = vec![
        create_test_endpoint("tier2-a.com", 60, 1200, true, None, 1),
        create_test_endpoint("tier2-b.com", 70, 1500, true, None, 2), // Higher weight, worse cost
        create_test_endpoint("tier2-c.com", 70, 1100, true, None, 3), // Higher weight, better cost
    ];
    let mut limiters = RateLimiters::new();

    let selected = run_selection(&endpoints, &mut limiters, 1).unwrap();
    assert_eq!(selected.url, "tier2-c.com");
}

#[test]
fn test_tier2_sorts_by_cost_then_mru() {
    let endpoints = vec![
        create_test_endpoint("tier2-a.com", 70, 100, true, None, 5), // Same weight/cost, used last
        create_test_endpoint("tier2-b.com", 70, 100, true, None, 2), // Same weight/cost, used first
    ];
    let mut limiters = RateLimiters::new();

    let selected = run_selection(&endpoints, &mut limiters, 1).unwrap();
    assert_eq!(selected.url, "tier2-a.com");
}

#[test]
fn test_tier2_full_tie_break_is_stable() {
    let endpoints = vec![
        create_test_endpoint("tier2-c.com", 70, 100, true, None, 5),
        create_test_endpoint("tier2-a.com", 80, 50, true, None, 1), // Identical to B
        create_test_endpoint("tier2-b.com", 80, 50, true, None, 1), // Identical to A
    ];
    let mut limiters = RateLimiters::new();

    // Because Rust's sort is stable, "a" should be chosen because it appeared first in the vec
    let selected = run_selection(&endpoints, &mut limiters, 1).unwrap();
    assert_eq!(selected.url, "tier2-a.com");
}

#[test]
fn test_tier2_unavailable_falls_back_to_tier3() {
    let endpoints = vec![
        create_test_endpoint("tier2-unhealthy.com", 60, 20, false, None, 0),
        create_test_endpoint("tier3-best.com", 20, 100, true, None, 0),
        create_test_endpoint("tier3-worst.com", 10, 50, true, None, 0),
    ];
    let mut limiters = RateLimiters::new();

    let selected = run_selection(&endpoints, &mut limiters, 1).unwrap();
    assert_eq!(selected.url, "tier3-best.com");
}

#[test]
fn test_tier3_sorts_by_weight_then_mru_and_ignores_cost() {
    let endpoints = vec![
        create_test_endpoint("tier3-a.com", 20, 500, true, None, 5), // Better weight, worse cost, used last
        create_test_endpoint("tier3-b.com", 10, 50, true, None, 2),
        create_test_endpoint("tier3-c.com", 20, 100, true, None, 2), // Better weight, better cost, used first
    ];
    let mut limiters = RateLimiters::new();

    let selected = run_selection(&endpoints, &mut limiters, 1).unwrap();
    assert_eq!(selected.url, "tier3-a.com");
}

// --- Availability and batches ---

#[test]
fn test_skip_cooldown_endpoint() {
    let endpoints = vec![
        create_test_endpoint("tier2-cooldown.com", 70, 50, true, Some(60), 0), // in cooldown
        create_test_endpoint("tier2-ok.com", 60, 100, true, None, 0), // next best in tier
    ];
    let mut limiters = RateLimiters::new();

    let selected = run_selection(&endpoints, &mut limiters, 1).unwrap();
    assert_eq!(selected.url, "tier2-ok.com");
}

#[test]
fn test_batch_selects_highest_priority_when_available() {
    let endpoints = vec![
        create_test_endpoint("tier2-a.com", 60, 100, true, None, 0),
        create_test_endpoint("tier2-b.com", 70, 100, true, None, 0), // highest weight
    ];

    let mut limiters = RateLimiters::new();
    limiters.insert("tier2-a.com".to_string(), create_rate_limiter(20));
    limiters.insert("tier2-b.com".to_string(), create_rate_limiter(20));
    // Batch of 10 should select tier2-b, as it has higher weight and enough capacity
    let selected = run_selection(&endpoints, &mut limiters, 10).unwrap();
    assert_eq!(selected.url, "tier2-b.com");
}

#[test]
fn test_select_endpoint_with_no_rate_limiter_entry() {
    let endpoints = vec![create_test_endpoint("no-limiter.com", 100, 50, true, None, 0)];
    let mut limiters = RateLimiters::new(); // There are no limiters

    // Should be selected as it's considered to have no rate limit
    let selected = run_selection(&endpoints, &mut limiters, 100).unwrap();
    assert_eq!(selected.url, "no-limiter.com");
}

// --- Edge Case Tests ---

#[test]
fn test_no_available_endpoints() {
    let endpoints = vec![
        create_test_endpoint("unhealthy.com", 100, 50, false, None, 0),
        create_test_endpoint("cooldown.com", 50, 100, true, Some(60), 0),
    ];
    let mut limiters = RateLimiters::new();

    let selected = run_selection(&endpoints, &mut limiters, 1);
    assert!(selected.is_none());
}

#[test]
fn test_all_endpoints_rate_limited() {
    let endpoints = vec![
        create_test_endpoint("tier1.com", 100, 50, true, None, 0),
        create_test_endpoint("tier2.com", 50, 100, true, None, 0),
    ];

    let mut limiters = RateLimiters::new();
    let mut limiter1 = create_rate_limiter(5);
    assert!(limiter1.check_n(5)); // Use up all tokens
    limiters.insert("tier1.com".to_string(), limiter1);
    let mut limiter2 = create_rate_limiter(5);
    assert!(limiter2.check_n(5)); // Use up all tokens
    limiters.insert("tier2.com".to_string(), limiter2);

    let selected = run_selection(&endpoints, &mut limiters, 1);
    assert!(selected.is_none());
}

#[test]
fn test_empty_endpoints_list() {
    let endpoints: Vec<RpcEndpoint> = vec![];
    let mut limiters = RateLimiters::new();

    let selected = run_selection(&endpoints, &mut limiters, 1);
    assert!(selected.is_none());
}

// --- Helper Function Tests ---

#[test]
fn test_reserve_tokens_zero_batch_size() {
    let mut limiters = RateLimiters::new();
    let mut limiter = create_rate_limiter(1);
    assert!(limiter.check_n(1)); // Exhaust the limiter
    limiters.insert("e1.com".to_string(), limiter);
    // A batch of zero should always be Ok, even if the limiter is full.
    let result = reserve_tokens(&mut limiters, &"e1.com".to_string(), 0);
    assert!(result.is_ok());
}

#[test]
fn test_reserve_tokens_oversized_batch() {
    let mut limiters = RateLimiters::new();
    let oversized_batch = (u32::MAX as usize) + 1;

    let result = reserve_tokens(&mut limiters, &"e1.com".to_string(), oversized_batch);
    assert!(matches!(result, Err(LoadBalancerError::UpstreamError(_))));
}

#[test]
fn test_reserve_tokens_rate_limited() {
    let mut limiters = RateLimiters::new();
    let mut limiter = create_rate_limiter(1);
    assert!(limiter.check_n(1)); // Exhaust the limiter
    limiters.insert("e1.com".to_string(), limiter);
    let result = reserve_tokens(&mut limiters, &"e1.com".to_string(), 1);
    assert!(matches!(result, Err(LoadBalancerError::RateLimited(_))));
}

#[test]
fn test_tier3_ignores_cost_even_with_different_weights() {
    // Test that cost is ignored in Tier 3, even when weights differ
    let endpoints = vec![
        create_test_endpoint("tier3-lowweight-lowcost.com", 10, 10, true, None, 5), // Low weight, low cost
        create_test_endpoint("tier3-highweight-highcost.com", 30, 1000, true, None, 10), // High weight, high cost
    ];

    let mut limiters = RateLimiters::new();

    // Should select higher weight despite much higher cost
    let selected = run_selection(&endpoints, &mut limiters, 1).unwrap();
    assert_eq!(
        selected.url, "tier3-highweight-highcost.com",
        "Tier 3 should prioritize weight over cost"
    );
}

#[test]
fn test_tier3_mixed_weights_still_prioritize_weight() {
    // Different weights within Tier 3 - weight should still dominate
    let endpoints = vec![
        create_test_endpoint("tier3-weight25.com", 25, 1000, true, None, 1), // Higher weight, recent, high cost
        create_test_endpoint("tier3-weight20.com", 20, 10, true, None, 100), // Lower weight, very old, low cost
    ];

    let mut limiters = RateLimiters::new();

    // Higher weight should win despite worse cost and recency
    let selected = run_selection(&endpoints, &mut limiters, 1).unwrap();
    assert_eq!(
        selected.url, "tier3-weight25.com",
        "Tier 3 should prioritize higher weight even with worse cost/recency"
    );
}

#[test]
fn test_debug_tier3_sorting() {
    let endpoints = vec![
        create_test_endpoint("recent.com", 20, 1000, true, None, 5), // timestamp 5
        create_test_endpoint("oldest.com", 20, 10, true, None, 20),  // timestamp 20
    ];

    let tier3: Vec<&RpcEndpoint> = rank_endpoints(&endpoints, NOW)
        .into_iter()
        .map(|i| &endpoints[i])
        .filter(|ep| ep.weight >= TIER3_MIN_WEIGHT && ep.weight < TIER2_MIN_WEIGHT)
        .collect();

    assert_eq!(tier3.len(), 2);
    assert_eq!(tier3[0].url, "oldest.com");
}

#[test]
fn tier1_ignores_cost() {
    let endpoints = vec![
        create_test_endpoint("cheap.com", 100, 2_000, true, None, 1),
        create_test_endpoint("dear.com", 100, 90_000, true, None, 2),
    ];
    let mut limiters = RateLimiters::new();
    assert_eq!(run_selection(&endpoints, &mut limiters, 1).unwrap().url, "dear.com");
}

#[test]
fn endpoints_without_weight_are_never_selected() {
    let endpoints = vec![create_test_endpoint("weightless.com", 0, 10, true, None, 0)];
    let mut limiters = RateLimiters::new();
    let selection = select_best_endpoint(&endpoints, &mut limiters, 1, NOW);
    assert!(selection.selected.is_none());
    assert!(selection.attempts.is_empty());
}

#[test]
fn endpoints_are_selected_again_when_their_cooldown_ends() {
    let endpoints = vec![create_test_endpoint("a.com", 10, 10, true, Some(2), 0)];
    let mut limiters = RateLimiters::new();
    let end = NOW + 2_000_000_000;
    assert!(select_best_endpoint(&endpoints, &mut limiters, 1, end - 1).selected.is_none());
    assert_eq!(select_best_endpoint(&endpoints, &mut limiters, 1, end).selected, Some(0));
}

#[test]
fn attempts_name_tier_and_rank() {
    let endpoints = vec![
        create_test_endpoint("free.com", 10, 10, true, None, 0),
        create_test_endpoint("local-a.com", 100, 10, true, None, 0),
        create_test_endpoint("local-b.com", 120, 10, true, None, 0),
        create_test_endpoint("premium.com", 50, 10, true, None, 0),
    ];
    let mut limiters = RateLimiters::new();
    for url in ["local-a.com", "local-b.com", "premium.com"] {
        let mut limiter = create_rate_limiter(1);
        assert!(limiter.check_n(1));
        limiters.insert(url.to_string(), limiter);
    }
    let selection = select_best_endpoint(&endpoints, &mut limiters, 1, NOW);
    assert_eq!(selection.selected, Some(0));
    assert_eq!(
        selection.attempts,
        vec![
            Attempt { index: 2, tier: 1, rank: 0 },
            Attempt { index: 1, tier: 1, rank: 1 },
            Attempt { index: 3, tier: 2, rank: 0 },
            Attempt { index: 0, tier: 3, rank: 0 },
        ]
    );
}

#[test]
fn minimum_cost_hides_small_differences() {
    // Both cost the minimum, so the one selected more recently goes first.
    let endpoints = vec![
        create_test_endpoint("cheap.com", 60, 10, true, None, 1),
        create_test_endpoint("dear.com", 60, 900, true, None, 2),
    ];
    let mut limiters = RateLimiters::new();
    assert_eq!(run_selection(&endpoints, &mut limiters, 1).unwrap().url, "dear.com");
}

#[test]
fn refused_batches_leave_room_for_smaller_ones() {
    let endpoints = vec![create_test_endpoint("a.com", 10, 10, true, None, 0)];
    let mut limiters = RateLimiters::new();
    limiters.insert("a.com".to_string(), create_rate_limiter(5));
    assert!(run_selection(&endpoints, &mut limiters, 6).is_none());
    assert!(run_selection(&endpoints, &mut limiters, 5).is_some());
    assert!(run_selection(&endpoints, &mut limiters, 5).is_none());
}

#[test]
fn limiters_are_found_and_taken_by_address() {
    let mut limiters = RateLimiters::new();
    limiters.insert("a.com".to_string(), create_rate_limiter(3));
    limiters.insert("b.com".to_string(), create_rate_limiter(1));
    assert_eq!(limiters.check_n(&"c.com".to_string(), 1), None);
    assert_eq!(limiters.check_n(&"b.com".to_string(), 2), Some(false));
    assert_eq!(limiters.check_n(&"b.com".to_string(), 1), Some(true));
    assert_eq!(limiters.check_n(&"a.com".to_string(), 3), Some(true));
    // A new limiter takes the place of the old one.
    limiters.insert("b.com".to_string(), create_rate_limiter(1));
    assert_eq!(limiters.check_n(&"b.com".to_string(), 1), Some(true));
    let mut taken = limiters.take(&"a.com".to_string()).unwrap();
    assert!(!taken.check_n(3));
    assert!(limiters.take(&"a.com".to_string()).is_none());
    assert_eq!(limiters.check_n(&"a.com".to_string(), 1), None);
}

#[test]
fn oversized_batch_has_its_own_message() {
    let mut limiters = RateLimiters::new();
    let err = reserve_tokens(&mut limiters, &"e1.com".to_string(), (u32::MAX as usize) + 1);
    assert_eq!(err.unwrap_err().message(), "Upstream error: Batch size too large");
    limiters.insert("e1.com".to_string(), create_rate_limiter(1));
    let err = reserve_tokens(&mut limiters, &"e1.com".to_string(), 2);
    assert_eq!(err.unwrap_err().message(), "Rate limit exceeded for endpoint: e1.com");
}
