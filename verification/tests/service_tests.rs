use hivemind::descriptor::{Entry, RateLimitDescriptor, RateLimitOverride};
use hivemind::limiter::RateLimiter;
use hivemind::rules::{DescriptorConfig, DomainConfig, RateLimitConfig, RateLimitRule, TimeUnit};
use hivemind::service::{RateLimitServiceImpl, ServiceError};
use hivemind::wire::{Code, RateLimitRequest};

fn descriptor(key: &str, value: &str) -> RateLimitDescriptor {
    RateLimitDescriptor {
        entries: vec![Entry { key: key.to_string(), value: value.to_string() }],
        limit: None,
    }
}

fn request(domain: &str, descriptors: Vec<RateLimitDescriptor>, hits: u32) -> RateLimitRequest {
    RateLimitRequest { domain: domain.to_string(), descriptors, hits_addend: hits }
}

fn five_per_second_config(domain: &str, key: &str) -> RateLimitConfig {
    let mut config = RateLimitConfig::new();
    config.insert_domain(DomainConfig {
        domain: domain.to_string(),
        descriptors: vec![DescriptorConfig {
            key: key.to_string(),
            value: None,
            rate_limit: Some(RateLimitRule {
                requests_per_unit: 5,
                unit: TimeUnit::Second,
                name: None,
            }),
            descriptors: Vec::new(),
        }],
    });
    config
}

#[test]
fn test_empty_domain_rejected() {
    let mut service = RateLimitServiceImpl::new(RateLimiter::new());

    let req = request("", vec![descriptor("test", "value")], 1);
    let result = service.should_rate_limit(&req);
    assert!(result.is_err());
    let ServiceError::InvalidArgument(msg) = result.unwrap_err();
    assert!(!msg.is_empty());
}

#[test]
fn test_empty_descriptors_rejected() {
    let mut service = RateLimitServiceImpl::new(RateLimiter::new());

    let req = request("test", vec![], 1);
    let result = service.should_rate_limit(&req);
    assert!(result.is_err());
    let ServiceError::InvalidArgument(msg) = result.unwrap_err();
    assert!(!msg.is_empty());
}

#[test]
fn test_valid_request_returns_ok() {
    let mut service = RateLimitServiceImpl::new(RateLimiter::new());

    let req = request("test", vec![descriptor("test_key", "test_value")], 1);
    let result = service.should_rate_limit(&req);
    assert!(result.is_ok());

    let response = result.unwrap();
    assert_eq!(response.overall_code, Code::Okay);
    assert_eq!(response.statuses.len(), 1);
}

#[test]
fn test_single_node_limit_enforcement() {
    // Five requests pass with a falling remainder; the sixth is rejected
    // with nothing remaining.
    let config = five_per_second_config("d", "api_key");
    let mut service = RateLimitServiceImpl::new(RateLimiter::with_config(config));

    for expected_remaining in [4u32, 3, 2, 1, 0] {
        let req = request("d", vec![descriptor("api_key", "X")], 1);
        let resp = service.should_rate_limit(&req).unwrap();
        assert_eq!(resp.overall_code, Code::Okay);
        assert_eq!(resp.statuses[0].code, Code::Okay);
        assert_eq!(resp.statuses[0].limit_remaining, expected_remaining);
    }

    let req = request("d", vec![descriptor("api_key", "X")], 1);
    let resp = service.should_rate_limit(&req).unwrap();
    assert_eq!(resp.overall_code, Code::OverLimit);
    assert_eq!(resp.statuses[0].code, Code::OverLimit);
    assert_eq!(resp.statuses[0].limit_remaining, 0);
}

#[test]
fn test_domain_isolation() {
    // Saturating one domain leaves another domain's quota untouched: the
    // unconfigured domain runs under the 1000 per second default.
    let config = five_per_second_config("d", "api_key");
    let mut service = RateLimitServiceImpl::new(RateLimiter::with_config(config));

    for _ in 0..5 {
        let req = request("d", vec![descriptor("api_key", "X")], 1);
        let resp = service.should_rate_limit(&req).unwrap();
        assert_eq!(resp.overall_code, Code::Okay);
    }
    let req = request("d", vec![descriptor("api_key", "X")], 1);
    let resp = service.should_rate_limit(&req).unwrap();
    assert_eq!(resp.overall_code, Code::OverLimit);

    let req = request("other", vec![descriptor("api_key", "X")], 1);
    let resp = service.should_rate_limit(&req).unwrap();
    assert_eq!(resp.overall_code, Code::Okay);
}

#[test]
fn test_inline_override_wins() {
    // The config allows 1000 per second, but the descriptor carries a
    // 5 per second override, so the sixth request is rejected.
    let mut config = RateLimitConfig::new();
    config.insert_domain(DomainConfig {
        domain: "d".to_string(),
        descriptors: vec![DescriptorConfig {
            key: "api_key".to_string(),
            value: None,
            rate_limit: Some(RateLimitRule {
                requests_per_unit: 1000,
                unit: TimeUnit::Second,
                name: None,
            }),
            descriptors: Vec::new(),
        }],
    });
    let mut service = RateLimitServiceImpl::new(RateLimiter::with_config(config));

    let with_override = RateLimitDescriptor {
        entries: vec![Entry { key: "api_key".to_string(), value: "X".to_string() }],
        limit: Some(RateLimitOverride { requests_per_unit: 5, unit: 1 }),
    };

    for _ in 0..5 {
        let req = request("d", vec![RateLimitDescriptor {
            entries: with_override
                .entries
                .iter()
                .map(|e| Entry { key: e.key.clone(), value: e.value.clone() })
                .collect(),
            limit: with_override.limit,
        }], 1);
        let resp = service.should_rate_limit(&req).unwrap();
        assert_eq!(resp.overall_code, Code::Okay);
    }
    let req = request("d", vec![with_override], 1);
    let resp = service.should_rate_limit(&req).unwrap();
    assert_eq!(resp.overall_code, Code::OverLimit);
}

#[test]
fn test_overall_code_aggregates_descriptors() {
    // Two descriptors: one saturated, one free; the overall decision is
    // over limit as soon as any status is.
    let config = five_per_second_config("d", "api_key");
    let mut service = RateLimitServiceImpl::new(RateLimiter::with_config(config));

    for _ in 0..5 {
        let req = request("d", vec![descriptor("api_key", "X")], 1);
        service.should_rate_limit(&req).unwrap();
    }

    let req = request("d", vec![descriptor("api_key", "X"), descriptor("other", "Y")], 1);
    let resp = service.should_rate_limit(&req).unwrap();
    assert_eq!(resp.overall_code, Code::OverLimit);
    assert_eq!(resp.statuses.len(), 2);
    assert_eq!(resp.statuses[0].code, Code::OverLimit);
    assert_eq!(resp.statuses[1].code, Code::Okay);
}

#[test]
fn test_zero_hits_addend_treated_as_one() {
    let mut service = RateLimitServiceImpl::new(RateLimiter::new());

    let req = request("d", vec![descriptor("k", "v")], 0);
    let resp = service.should_rate_limit(&req).unwrap();
    assert_eq!(resp.overall_code, Code::Okay);
    assert_eq!(
        service.rate_limiter.get_counter_value("d", &descriptor("k", "v")),
        Some(1)
    );
}
