use nx53::config::{AppConfig, Profile};

#[test]
fn test_default_config() {
    let config = AppConfig::default();
    assert_eq!(config.get_threshold(), 50_000);
}

#[test]
fn test_profile_logic() {
    let mut config = AppConfig::default();
    config.profile = Some(Profile::Home);
    assert_eq!(config.get_threshold(), 10_000);

    config.profile = Some(Profile::Datacenter);
    assert_eq!(config.get_threshold(), 1_000_000);
}

#[test]
fn test_override_logic() {
    let mut config = AppConfig::default();
    config.profile = Some(Profile::Home);
    config.threshold_override = Some(999);
    assert_eq!(config.get_threshold(), 999);
}

#[test]
fn custom_profile_threshold() {
    let mut config = AppConfig::default();
    config.profile = Some(Profile::Custom(123));
    assert_eq!(config.get_threshold(), 123);
}

#[test]
fn missing_profile_falls_back() {
    let mut config = AppConfig::default();
    config.profile = None;
    assert_eq!(config.get_threshold(), 50_000);
}

#[test]
fn default_figures() {
    assert!(nx53::config::default_true());
    assert_eq!(nx53::config::default_max_udp_response(), 512);
    assert_eq!(nx53::config::default_rrl_rate(), 5);
    assert_eq!(nx53::config::default_slip_ratio(), 2);
    assert_eq!(nx53::config::default_tcp_ttl(), 24);
    assert_eq!(nx53::config::default_amp_ratio(), 10);
    assert_eq!(nx53::config::default_entropy_threshold(), 3500);
}

#[test]
fn default_blocked_types_spare_dnssec() {
    let filters = nx53::config::FilterConfig::default();
    assert_eq!(filters.blocked_query_types, vec!["AXFR".to_string(), "IXFR".to_string()]);
    assert!(!filters.blocked_query_types.contains(&"RRSIG".to_string()));
    assert!(!filters.blocked_query_types.contains(&"DNSKEY".to_string()));
}
