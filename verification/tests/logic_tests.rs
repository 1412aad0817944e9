use nx53::config::{FilterConfig, RateLimitConfig};
use nx53::logic::PacketInspector;

fn get_test_inspector(threshold: u64) -> PacketInspector {
    PacketInspector::new(
        threshold,
        RateLimitConfig::default(),
        FilterConfig::default(),
        7,
    )
}

#[test]
fn test_volumetric_trigger() {
    let mut inspector = get_test_inspector(100);
    let domain = "attack.com";

    for _ in 0..101 {
        inspector.inspect("1.1.1.1", domain, None, 0);
    }

    let blocked = inspector.inspect("2.2.2.2", domain, None, 0);
    assert!(
        blocked,
        "New IP should be blocked when hitting high volume domain first"
    );
}

#[test]
fn test_normal_traffic() {
    let mut inspector = get_test_inspector(100);
    let domain = "google.com";

    let blocked = inspector.inspect("3.3.3.3", domain, None, 0);
    assert!(!blocked, "Normal first packet should not be blocked");
}

#[test]
fn test_escape_hatch() {
    let mut inspector = get_test_inspector(100);
    let attack_domain = "flood.com";
    let safe_domain = "safe.com";

    for _ in 0..101 {
        inspector.inspect("10.0.0.1", attack_domain, None, 0);
    }

    let blocked = inspector.inspect("5.5.5.5", attack_domain, None, 0);
    assert!(blocked, "Should be blocked initially");

    let blocked_safe = inspector.inspect("5.5.5.5", safe_domain, None, 0);
    assert!(!blocked_safe, "Should be allowed on safe domain");

    let blocked_retry = inspector.inspect("5.5.5.5", attack_domain, None, 0);
    assert!(
        !blocked_retry,
        "Should be allowed on attack domain after validation"
    );
}

#[test]
fn test_rate_limiting() {
    let mut config = RateLimitConfig::default();
    config.requests_per_sec = 5;
    config.first_offense_duration_secs = 10;

    let mut inspector = PacketInspector::new(1000, config, FilterConfig::default(), 7);
    let domain = "fast.com";

    for _ in 0..5 {
        let blocked = inspector.inspect("6.6.6.6", domain, None, 0);
        assert!(!blocked);
    }

    let blocked = inspector.inspect("6.6.6.6", domain, None, 0);
    assert!(blocked, "Should be blocked by rate limit");
}

#[test]
fn test_filter_any() {
    let mut inspector = get_test_inspector(100);
    let blocked = inspector.inspect("7.7.7.7", "any.com", Some("ANY"), 50);
    assert!(blocked, "Should block ANY query");
}

#[test]
fn test_configurable_blocked_query_types() {
    let mut inspector = get_test_inspector(100);

    let blocked = inspector.inspect("8.8.8.8", "example.com", Some("AXFR"), 50);
    assert!(blocked, "Should block AXFR zone transfer");

    let blocked = inspector.inspect("8.8.8.9", "example.com", Some("IXFR"), 50);
    assert!(blocked, "Should block IXFR zone transfer");

    let blocked = inspector.inspect("8.8.8.10", "example.com", Some("RRSIG"), 50);
    assert!(!blocked, "Should allow RRSIG for DNSSEC");

    let blocked = inspector.inspect("8.8.8.11", "example.com", Some("DNSKEY"), 50);
    assert!(!blocked, "Should allow DNSKEY for DNSSEC");
}

#[test]
fn test_response_rate_limiting() {
    let mut filter_config = FilterConfig::default();
    filter_config.enable_rrl = true;
    filter_config.rrl_responses_per_sec = 3;
    filter_config.rrl_slip_ratio = 0;

    let mut inspector = PacketInspector::new(1000, RateLimitConfig::default(), filter_config, 7);
    let domain = "rrl-test.com";

    for i in 0..3 {
        let blocked = inspector.inspect("9.9.9.9", domain, None, 50);
        assert!(!blocked, "Query {} should pass RRL", i + 1);
    }

    let blocked = inspector.inspect("9.9.9.9", domain, None, 50);
    assert!(blocked, "4th query should be blocked by RRL");
}

#[test]
fn test_tcp_validation_bypasses_reflection_check() {
    let mut filter_config = FilterConfig::default();
    filter_config.detect_reflection_patterns = true;

    let mut inspector = PacketInspector::new(1000, RateLimitConfig::default(), filter_config, 7);

    let domain = "single.com";

    inspector.inspect("10.10.10.10", domain, None, 50);
    inspector.mark_tcp_validated("10.10.10.10");

    assert!(
        inspector.mark_tcp_validated("10.10.10.10"),
        "TCP validation should succeed"
    );

    for _ in 0..25 {
        let _blocked = inspector.inspect("10.10.10.10", domain, None, 50);
    }
}

#[test]
fn test_amplification_ratio_detection() {
    let mut filter_config = FilterConfig::default();
    filter_config.amplification_ratio_limit = 5;

    let mut inspector = PacketInspector::new(1000, RateLimitConfig::default(), filter_config, 7);

    inspector.inspect("11.11.11.11", "amp.com", None, 50);

    for _ in 0..50 {
        inspector.record_response_size("11.11.11.11", 500);
    }

    let should_block = inspector.record_response_size("11.11.11.11", 500);
    assert!(should_block, "Should block due to high amplification ratio");
}
