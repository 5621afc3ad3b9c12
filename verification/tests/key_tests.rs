use hivemind::cluster::{sum_counter_values, CachedCount, CounterKey};
use hivemind::descriptor::{DescriptorKey, Entry, RateLimitDescriptor};
use hivemind::text::{parse_u64, u64_to_string};

#[test]
fn test_counter_key() {
    let key = CounterKey::new("my_domain", "user:123", 1704067200);
    let chitchat_key = key.to_chitchat_key();
    assert_eq!(chitchat_key, "counter|my_domain|user:123|1704067200");

    let parsed = CounterKey::from_chitchat_key(&chitchat_key).unwrap();
    assert_eq!(parsed.domain, "my_domain");
    assert_eq!(parsed.descriptor, "user:123");
    assert_eq!(parsed.window, 1704067200);
}

#[test]
fn test_counter_key_parsing_invalid() {
    assert!(CounterKey::from_chitchat_key("invalid").is_none());
    assert!(CounterKey::from_chitchat_key("counter|only|two").is_none());
    assert!(CounterKey::from_chitchat_key("notcounter|a|b|123").is_none());
}

#[test]
fn test_counter_key_round_trip_with_bars_in_descriptor() {
    // The descriptor may itself contain the separator and still round-trip.
    let key = CounterKey::new("d", "a|b|c", 42);
    let encoded = key.to_chitchat_key();
    assert_eq!(encoded, "counter|d|a|b|c|42");
    let parsed = CounterKey::from_chitchat_key(&encoded).unwrap();
    assert_eq!(parsed.domain, "d");
    assert_eq!(parsed.descriptor, "a|b|c");
    assert_eq!(parsed.window, 42);
}

#[test]
fn test_u64_decimal_round_trip() {
    assert_eq!(u64_to_string(0), "0");
    assert_eq!(u64_to_string(12345), "12345");
    assert_eq!(u64_to_string(u64::MAX), "18446744073709551615");
    assert_eq!(parse_u64("0"), Some(0));
    assert_eq!(parse_u64("12345"), Some(12345));
    assert_eq!(parse_u64("18446744073709551615"), Some(u64::MAX));
    assert_eq!(parse_u64("18446744073709551616"), None);
    assert_eq!(parse_u64(""), None);
    assert_eq!(parse_u64("12a"), None);
    assert_eq!(parse_u64("-1"), None);
}

#[test]
fn test_sum_counter_values_skips_non_numeric() {
    let values = vec!["10".to_string(), "5".to_string(), "x".to_string()];
    assert_eq!(sum_counter_values(&values), 15);
    let empty: Vec<String> = Vec::new();
    assert_eq!(sum_counter_values(&empty), 0);
}

#[test]
fn test_cached_count_expiry() {
    let mut cached = CachedCount::new(7, 1_000);
    assert_eq!(cached.get(), 7);
    assert!(!cached.is_expired(1_400, 500));
    assert!(cached.is_expired(1_500, 500));
    assert!(cached.is_expired(2_000, 500));
    cached.update(9, 2_000);
    assert_eq!(cached.get(), 9);
    assert!(!cached.is_expired(2_400, 500));
}

fn sample_descriptor() -> RateLimitDescriptor {
    RateLimitDescriptor {
        entries: vec![
            Entry { key: "source".to_string(), value: "client_a".to_string() },
            Entry { key: "destination".to_string(), value: "service_b".to_string() },
        ],
        limit: None,
    }
}

#[test]
fn test_descriptor_key_creation() {
    let descriptor = sample_descriptor();
    let key = DescriptorKey::new("test_domain", &descriptor);

    assert_eq!(key.domain, "test_domain");
    assert_eq!(key.entries.len(), 2);
    assert_eq!(key.entries[0], ("source".to_string(), "client_a".to_string()));
    assert_eq!(key.entries[1], ("destination".to_string(), "service_b".to_string()));
}

#[test]
fn test_descriptor_key_to_string() {
    let descriptor = RateLimitDescriptor {
        entries: vec![Entry { key: "key1".to_string(), value: "value1".to_string() }],
        limit: None,
    };

    let key = DescriptorKey::new("domain", &descriptor);
    assert_eq!(key.to_string_key(), "domain:key1=value1");
}

#[test]
fn test_descriptor_key_to_string_many_entries() {
    let key = DescriptorKey::new("d", &sample_descriptor());
    assert_eq!(key.to_string_key(), "d:source=client_a,destination=service_b");
}

#[test]
fn test_descriptor_key_equality() {
    let descriptor = RateLimitDescriptor {
        entries: vec![Entry { key: "test".to_string(), value: "value".to_string() }],
        limit: None,
    };

    let key1 = DescriptorKey::new("domain", &descriptor);
    let key2 = DescriptorKey::new("domain", &descriptor);

    assert_eq!(key1, key2);
}

#[test]
fn test_descriptor_key_equality_under_clone() {
    let key = DescriptorKey::new("domain", &sample_descriptor());
    let copy = key.clone();
    assert_eq!(key, copy);
    assert_eq!(copy.to_string_key(), key.to_string_key());
}

#[test]
fn test_descriptor_key_inequality() {
    let descriptor = sample_descriptor();
    let a = DescriptorKey::new("domain", &descriptor);
    let b = DescriptorKey::new("other", &descriptor);
    assert!(a != b);

    let shorter = RateLimitDescriptor {
        entries: vec![Entry { key: "source".to_string(), value: "client_a".to_string() }],
        limit: None,
    };
    let c = DescriptorKey::new("domain", &shorter);
    assert!(a != c);
}
