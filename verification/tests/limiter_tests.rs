use hivemind::counter::TimeWindow;
use hivemind::descriptor::{Entry, RateLimitDescriptor, RateLimitOverride};
use hivemind::limiter::{resolve_limit_config, RateLimiter};
use hivemind::rules::{DescriptorConfig, DomainConfig, RateLimitConfig, RateLimitRule, TimeUnit};
use hivemind::wire::Code;

fn create_test_descriptor(key: &str, value: &str) -> RateLimitDescriptor {
    RateLimitDescriptor {
        entries: vec![Entry { key: key.to_string(), value: value.to_string() }],
        limit: None,
    }
}

fn rule(per_unit: u64, unit: TimeUnit) -> Option<RateLimitRule> {
    Some(RateLimitRule { requests_per_unit: per_unit, unit, name: None })
}

fn single_rule_config(domain: &str, key: &str, per_unit: u64, unit: TimeUnit) -> RateLimitConfig {
    let mut config = RateLimitConfig::new();
    config.insert_domain(DomainConfig {
        domain: domain.to_string(),
        descriptors: vec![DescriptorConfig {
            key: key.to_string(),
            value: None,
            rate_limit: rule(per_unit, unit),
            descriptors: Vec::new(),
        }],
    });
    config
}

#[test]
fn test_rate_limiter_creation() {
    let limiter = RateLimiter::new();
    assert_eq!(limiter.counter_count(), 0);
}

#[test]
fn test_check_rate_limit_creates_counter() {
    let mut limiter = RateLimiter::new();
    let descriptor = create_test_descriptor("test", "value");

    let status = limiter.check_rate_limit("domain", &descriptor, 1);

    assert_eq!(status.code, Code::Okay);
    assert_eq!(limiter.counter_count(), 1);
}

#[test]
fn test_check_rate_limit_increments() {
    let mut limiter = RateLimiter::new();
    let descriptor = create_test_descriptor("test", "value");

    // First request
    limiter.check_rate_limit("domain", &descriptor, 1);
    let count = limiter.get_counter_value("domain", &descriptor);
    assert_eq!(count, Some(1));

    // Second request
    limiter.check_rate_limit("domain", &descriptor, 1);
    let count = limiter.get_counter_value("domain", &descriptor);
    assert_eq!(count, Some(2));
}

#[test]
fn test_check_rate_limit_with_override() {
    let mut limiter = RateLimiter::new();

    let descriptor = RateLimitDescriptor {
        entries: vec![Entry { key: "test".to_string(), value: "value".to_string() }],
        limit: Some(RateLimitOverride {
            requests_per_unit: 5,
            unit: TimeWindow::Second.to_proto(),
        }),
    };

    // Make 5 requests (should all be OK)
    for _ in 0..5 {
        let status = limiter.check_rate_limit("domain", &descriptor, 1);
        assert_eq!(status.code, Code::Okay);
    }

    // 6th request should be over limit
    let status = limiter.check_rate_limit("domain", &descriptor, 1);
    assert_eq!(status.code, Code::OverLimit);
}

#[test]
fn test_different_domains_have_separate_counters() {
    let mut limiter = RateLimiter::new();
    let descriptor = create_test_descriptor("key", "value");

    limiter.check_rate_limit("domain1", &descriptor, 5);
    limiter.check_rate_limit("domain2", &descriptor, 3);

    assert_eq!(limiter.get_counter_value("domain1", &descriptor), Some(5));
    assert_eq!(limiter.get_counter_value("domain2", &descriptor), Some(3));
}

#[test]
fn test_clear_counters() {
    let mut limiter = RateLimiter::new();
    let descriptor = create_test_descriptor("test", "value");

    limiter.check_rate_limit("domain", &descriptor, 1);
    assert_eq!(limiter.counter_count(), 1);

    limiter.clear();
    assert_eq!(limiter.counter_count(), 0);
}

#[test]
fn test_rate_limiter_with_config() {
    let config = single_rule_config("test_domain", "api_key", 5, TimeUnit::Second);
    let mut limiter = RateLimiter::with_config(config);
    let descriptor = create_test_descriptor("api_key", "my_key");

    // Make 5 requests (should all be OK)
    for i in 1..=5 {
        let status = limiter.check_rate_limit("test_domain", &descriptor, 1);
        assert_eq!(status.code, Code::Okay, "Request {} should be OK", i);
    }

    // 6th request should be over limit
    let status = limiter.check_rate_limit("test_domain", &descriptor, 1);
    assert_eq!(status.code, Code::OverLimit);
}

#[test]
fn test_rate_limiter_hierarchical_config() {
    let mut config = RateLimitConfig::new();
    config.insert_domain(DomainConfig {
        domain: "test_domain".to_string(),
        descriptors: vec![DescriptorConfig {
            key: "source_cluster".to_string(),
            value: None,
            rate_limit: rule(100, TimeUnit::Second),
            descriptors: vec![DescriptorConfig {
                key: "destination_cluster".to_string(),
                value: Some("critical".to_string()),
                rate_limit: rule(10, TimeUnit::Second),
                descriptors: Vec::new(),
            }],
        }],
    });
    let mut limiter = RateLimiter::with_config(config);

    // Test general source_cluster limit (100/s)
    let general_descriptor = create_test_descriptor("source_cluster", "frontend");
    for _ in 0..100 {
        let status = limiter.check_rate_limit("test_domain", &general_descriptor, 1);
        assert_eq!(status.code, Code::Okay);
    }
    let status = limiter.check_rate_limit("test_domain", &general_descriptor, 1);
    assert_eq!(status.code, Code::OverLimit);

    // Test specific critical destination (10/s)
    let critical_descriptor = RateLimitDescriptor {
        entries: vec![
            Entry { key: "source_cluster".to_string(), value: "frontend".to_string() },
            Entry { key: "destination_cluster".to_string(), value: "critical".to_string() },
        ],
        limit: None,
    };

    for _ in 0..10 {
        let status = limiter.check_rate_limit("test_domain", &critical_descriptor, 1);
        assert_eq!(status.code, Code::Okay);
    }
    let status = limiter.check_rate_limit("test_domain", &critical_descriptor, 1);
    assert_eq!(status.code, Code::OverLimit);
}

#[test]
fn test_update_config() {
    let mut limiter = RateLimiter::new();
    let descriptor = create_test_descriptor("api_key", "test");

    // With default config (1000/s limit), make some requests
    for _ in 0..100 {
        let status = limiter.check_rate_limit("test_domain", &descriptor, 1);
        assert_eq!(status.code, Code::Okay);
    }

    // Update config with stricter limit
    let config = single_rule_config("test_domain", "api_key", 5, TimeUnit::Second);
    limiter.set_config(config);

    // The existing counter continues - it already has 100 hits
    // New descriptors will use the new config
    let new_descriptor = create_test_descriptor("api_key", "new_key");
    for _ in 0..5 {
        let status = limiter.check_rate_limit("test_domain", &new_descriptor, 1);
        assert_eq!(status.code, Code::Okay);
    }
    let status = limiter.check_rate_limit("test_domain", &new_descriptor, 1);
    assert_eq!(status.code, Code::OverLimit);
}

#[test]
fn test_unconfigured_domain_uses_defaults() {
    let config = single_rule_config("configured_domain", "api_key", 5, TimeUnit::Second);
    let mut limiter = RateLimiter::with_config(config);

    // Request to unconfigured domain should use default limit (1000/s)
    let descriptor = create_test_descriptor("api_key", "test");
    for _ in 0..100 {
        let status = limiter.check_rate_limit("unconfigured_domain", &descriptor, 1);
        assert_eq!(status.code, Code::Okay);
    }
}

#[test]
fn test_zero_hits_counts_as_one() {
    let mut limiter = RateLimiter::new();
    let descriptor = create_test_descriptor("test", "value");

    limiter.check_rate_limit("domain", &descriptor, 0);
    assert_eq!(limiter.get_counter_value("domain", &descriptor), Some(1));
}

#[test]
fn test_unknown_override_unit_falls_back_to_second() {
    let descriptor = RateLimitDescriptor {
        entries: vec![Entry { key: "test".to_string(), value: "value".to_string() }],
        limit: Some(RateLimitOverride { requests_per_unit: 7, unit: 99 }),
    };
    let config = RateLimitConfig::new();
    let lc = resolve_limit_config(&config, "domain", &descriptor);
    assert_eq!(lc.limit, 7);
    assert_eq!(lc.window, TimeWindow::Second);

    let mut limiter = RateLimiter::new();
    let status = limiter.check_rate_limit("domain", &descriptor, 1);
    let current = status.current_limit.unwrap();
    assert_eq!(current.unit, 1);
    assert_eq!(current.requests_per_unit, 7);
}

#[test]
fn test_resolve_limit_config_default() {
    let config = RateLimitConfig::new();
    let descriptor = create_test_descriptor("anything", "x");
    let lc = resolve_limit_config(&config, "domain", &descriptor);
    assert_eq!(lc.limit, 1000);
    assert_eq!(lc.window, TimeWindow::Second);
    assert!(lc.name.is_none());
}

#[test]
fn test_zero_limit_rejects_via_limiter() {
    let config = single_rule_config("d", "k", 0, TimeUnit::Second);
    let mut limiter = RateLimiter::with_config(config);
    let descriptor = create_test_descriptor("k", "v");
    let status = limiter.check_rate_limit("d", &descriptor, 1);
    assert_eq!(status.code, Code::OverLimit);
    assert_eq!(status.limit_remaining, 0);
}
