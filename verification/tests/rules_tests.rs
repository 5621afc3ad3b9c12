use hivemind::counter::TimeWindow;
use hivemind::descriptor::{Entry, RateLimitDescriptor};
use hivemind::rules::{
    DescriptorConfig, DomainConfig, RateLimitConfig, RateLimitRule, TimeUnit,
};

fn create_descriptor(entries: &[(&str, &str)]) -> RateLimitDescriptor {
    RateLimitDescriptor {
        entries: entries
            .iter()
            .map(|(k, v)| Entry { key: k.to_string(), value: v.to_string() })
            .collect(),
        limit: None,
    }
}

fn leaf(key: &str, value: Option<&str>, per_unit: u64, unit: TimeUnit) -> DescriptorConfig {
    DescriptorConfig {
        key: key.to_string(),
        value: value.map(|v| v.to_string()),
        rate_limit: Some(RateLimitRule { requests_per_unit: per_unit, unit, name: None }),
        descriptors: Vec::new(),
    }
}

fn single_domain_config(domain: &str, descriptors: Vec<DescriptorConfig>) -> RateLimitConfig {
    let mut config = RateLimitConfig::new();
    config.insert_domain(DomainConfig { domain: domain.to_string(), descriptors });
    config
}

#[test]
fn test_find_limit_simple() {
    let config = single_domain_config(
        "test_domain",
        vec![leaf("api_key", None, 1000, TimeUnit::Minute)],
    );
    let descriptor = create_descriptor(&[("api_key", "some_key")]);

    let limit = config.find_limit("test_domain", &descriptor);
    assert!(limit.is_some());
    let limit = limit.unwrap();
    assert_eq!(limit.requests_per_unit, 1000);
    assert_eq!(limit.unit, TimeUnit::Minute);
}

#[test]
fn test_find_limit_with_value_match() {
    let config = single_domain_config(
        "test_domain",
        vec![
            leaf("source_cluster", Some("premium"), 10000, TimeUnit::Second),
            leaf("source_cluster", Some("basic"), 100, TimeUnit::Second),
        ],
    );

    // Premium tier
    let descriptor = create_descriptor(&[("source_cluster", "premium")]);
    let limit = config.find_limit("test_domain", &descriptor).unwrap();
    assert_eq!(limit.requests_per_unit, 10000);

    // Basic tier
    let descriptor = create_descriptor(&[("source_cluster", "basic")]);
    let limit = config.find_limit("test_domain", &descriptor).unwrap();
    assert_eq!(limit.requests_per_unit, 100);
}

#[test]
fn test_find_limit_hierarchical() {
    let config = single_domain_config(
        "test_domain",
        vec![DescriptorConfig {
            key: "source_cluster".to_string(),
            value: None,
            rate_limit: Some(RateLimitRule {
                requests_per_unit: 1000,
                unit: TimeUnit::Second,
                name: None,
            }),
            descriptors: vec![leaf(
                "destination_cluster",
                Some("critical_service"),
                100,
                TimeUnit::Second,
            )],
        }],
    );

    // Just source_cluster - should get top-level limit
    let descriptor = create_descriptor(&[("source_cluster", "any")]);
    let limit = config.find_limit("test_domain", &descriptor).unwrap();
    assert_eq!(limit.requests_per_unit, 1000);

    // source_cluster + destination_cluster - should get more specific limit
    let descriptor = create_descriptor(&[
        ("source_cluster", "any"),
        ("destination_cluster", "critical_service"),
    ]);
    let limit = config.find_limit("test_domain", &descriptor).unwrap();
    assert_eq!(limit.requests_per_unit, 100);
}

#[test]
fn test_find_limit_no_match() {
    let config = single_domain_config(
        "test_domain",
        vec![leaf("api_key", None, 1000, TimeUnit::Minute)],
    );

    // Different key - no match
    let descriptor = create_descriptor(&[("other_key", "value")]);
    let limit = config.find_limit("test_domain", &descriptor);
    assert!(limit.is_none());

    // Different domain - no match
    let descriptor = create_descriptor(&[("api_key", "value")]);
    let limit = config.find_limit("other_domain", &descriptor);
    assert!(limit.is_none());
}

#[test]
fn test_find_limit_any_value() {
    let config = single_domain_config(
        "test_domain",
        vec![leaf("remote_address", None, 50, TimeUnit::Second)],
    );

    // Should match any value for remote_address
    let descriptor = create_descriptor(&[("remote_address", "192.168.1.1")]);
    let limit = config.find_limit("test_domain", &descriptor).unwrap();
    assert_eq!(limit.requests_per_unit, 50);

    let descriptor = create_descriptor(&[("remote_address", "10.0.0.1")]);
    let limit = config.find_limit("test_domain", &descriptor).unwrap();
    assert_eq!(limit.requests_per_unit, 50);
}

#[test]
fn test_find_limit_last_candidate_wins() {
    // Two nodes match the same entry; the later declared rule wins.
    let config = single_domain_config(
        "test_domain",
        vec![
            leaf("k", None, 10, TimeUnit::Second),
            leaf("k", Some("v"), 20, TimeUnit::Second),
        ],
    );
    let descriptor = create_descriptor(&[("k", "v")]);
    let limit = config.find_limit("test_domain", &descriptor).unwrap();
    assert_eq!(limit.requests_per_unit, 20);
}

#[test]
fn test_time_unit_conversion() {
    assert_eq!(TimeWindow::from(TimeUnit::Second), TimeWindow::Second);
    assert_eq!(TimeWindow::from(TimeUnit::Minute), TimeWindow::Minute);
    assert_eq!(TimeWindow::from(TimeUnit::Hour), TimeWindow::Hour);
    assert_eq!(TimeWindow::from(TimeUnit::Day), TimeWindow::Day);
}

#[test]
fn test_insert_domain_replaces() {
    let mut config = RateLimitConfig::new();
    config.insert_domain(DomainConfig {
        domain: "d".to_string(),
        descriptors: vec![leaf("a", None, 1, TimeUnit::Second)],
    });
    config.insert_domain(DomainConfig {
        domain: "e".to_string(),
        descriptors: vec![leaf("b", None, 2, TimeUnit::Second)],
    });
    config.insert_domain(DomainConfig {
        domain: "d".to_string(),
        descriptors: vec![leaf("a", None, 3, TimeUnit::Second)],
    });

    let descriptor = create_descriptor(&[("a", "x")]);
    let limit = config.find_limit("d", &descriptor).unwrap();
    assert_eq!(limit.requests_per_unit, 3);

    let descriptor = create_descriptor(&[("b", "x")]);
    let limit = config.find_limit("e", &descriptor).unwrap();
    assert_eq!(limit.requests_per_unit, 2);
}
