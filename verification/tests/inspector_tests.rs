use nx53::config::{FilterConfig, RateLimitConfig};
use nx53::logic::PacketInspector;

fn quiet_filters() -> FilterConfig {
    let mut f = FilterConfig::default();
    f.enable_rrl = false;
    f.detect_reflection_patterns = false;
    f.subdomain_entropy_threshold_millibits = 0;
    f
}

fn no_rate() -> RateLimitConfig {
    let mut r = RateLimitConfig::default();
    r.enabled = false;
    r
}

#[test]
fn ban_ladder_and_expiry() {
    let mut rate = RateLimitConfig::default();
    rate.requests_per_sec = 1;
    rate.first_offense_duration_secs = 60;
    rate.second_offense_duration_secs = 300;
    let mut ins = PacketInspector::new(1000, rate, quiet_filters(), 7);

    assert!(!ins.inspect_at("9.1.1.1", "one.test", None, 40, 0));
    // second query in the same second exceeds the limit of one
    assert!(ins.inspect_at("9.1.1.1", "one.test", None, 40, 0));
    // the ban latches, even for a different, cold domain
    assert!(ins.inspect_at("9.1.1.1", "two.test", None, 40, 30_000));
    // a ban runs up to and including its expiry instant
    assert!(ins.inspect_at("9.1.1.1", "one.test", None, 40, 60_000));
    // past the expiry the source passes again
    assert!(!ins.inspect_at("9.1.1.1", "one.test", None, 40, 61_000));
    // the second offense uses the long duration
    assert!(ins.inspect_at("9.1.1.1", "one.test", None, 40, 61_000));
    assert!(ins.inspect_at("9.1.1.1", "one.test", None, 40, 361_000));
    assert!(!ins.inspect_at("9.1.1.1", "one.test", None, 40, 361_001));
}

#[test]
fn rrl_drop_is_not_latched() {
    let mut f = quiet_filters();
    f.enable_rrl = true;
    f.rrl_responses_per_sec = 1;
    f.rrl_slip_ratio = 0;
    let mut ins = PacketInspector::new(1000, no_rate(), f, 7);

    assert!(!ins.inspect_at("9.2.2.2", "rrl.test", None, 40, 0));
    assert!(ins.inspect_at("9.2.2.2", "rrl.test", None, 40, 0));
    // a fresh window passes again: the drop set no hostile flag, or the
    // same-domain query could not have escaped
    assert!(!ins.inspect_at("9.2.2.2", "rrl.test", None, 40, 2_000));
}

#[test]
fn slip_ratio_leaks_every_second() {
    let mut f = quiet_filters();
    f.enable_rrl = true;
    f.rrl_responses_per_sec = 1;
    f.rrl_slip_ratio = 2;
    let mut ins = PacketInspector::new(1000, no_rate(), f, 7);

    assert!(!ins.inspect_at("9.3.3.3", "slip.test", None, 40, 0));
    // count 2 exceeds the limit but 2 % 2 == 0 slips through
    assert!(!ins.inspect_at("9.3.3.3", "slip.test", None, 40, 0));
    // count 3 is dropped
    assert!(ins.inspect_at("9.3.3.3", "slip.test", None, 40, 0));
    // count 4 slips again
    assert!(!ins.inspect_at("9.3.3.3", "slip.test", None, 40, 0));
}

#[test]
fn reflection_pattern_detected() {
    let mut f = quiet_filters();
    f.detect_reflection_patterns = true;
    let mut rate = RateLimitConfig::default();
    rate.requests_per_sec = 1000;
    let mut ins = PacketInspector::new(100_000, rate, f, 7);

    for i in 1..=21 {
        assert!(
            !ins.inspect_at("9.4.4.4", "burst.test", None, 40, 0),
            "query {} should still pass",
            i
        );
    }
    // by now the one-second window holds over twenty requests to a single
    // domain from a young, unvalidated source
    assert!(ins.inspect_at("9.4.4.4", "burst.test", None, 40, 0));
}

#[test]
fn entropy_detector_needs_many_domains() {
    let mut f = quiet_filters();
    f.subdomain_entropy_threshold_millibits = 1;
    let mut ins = PacketInspector::new(100_000, no_rate(), f, 7);

    let labels = ["a", "b", "c", "d", "e", "f", "g", "h", "i", "j", "k", "l"];
    for i in 0..10 {
        let d = format!("{}.entropy.test", labels[i]);
        assert!(
            !ins.inspect_at("9.5.5.5", d.as_str(), None, 40, 0),
            "at most ten distinct names never fire the detector"
        );
    }
    let d = format!("{}.entropy.test", labels[10]);
    assert!(ins.inspect_at("9.5.5.5", d.as_str(), None, 40, 0));
}

#[test]
fn entropy_detector_spares_tcp_validated() {
    let mut f = quiet_filters();
    f.subdomain_entropy_threshold_millibits = 1;
    let mut ins = PacketInspector::new(100_000, no_rate(), f, 7);

    let labels = ["a", "b", "c", "d", "e", "f", "g", "h", "i", "j", "k", "l"];
    let d0 = format!("{}.entropy.test", labels[0]);
    assert!(!ins.inspect_at("9.6.6.6", d0.as_str(), None, 40, 0));
    assert!(ins.mark_tcp_validated_at("9.6.6.6", 0));
    for i in 1..12 {
        let d = format!("{}.entropy.test", labels[i]);
        assert!(
            !ins.inspect_at("9.6.6.6", d.as_str(), None, 40, 0),
            "a TCP-validated source never fires the entropy detector"
        );
    }
}

#[test]
fn amplification_respects_floor_and_validation() {
    let mut ins = PacketInspector::new(1000, no_rate(), quiet_filters(), 7);
    assert!(!ins.inspect_at("9.7.7.7", "amp.test", None, 10, 0));
    for _ in 0..10 {
        // exactly at the 10 kB floor nothing triggers
        assert!(!ins.record_response_size("9.7.7.7", 1000));
    }
    // one byte over the floor, with a huge ratio, triggers
    assert!(ins.record_response_size("9.7.7.7", 1));

    let mut ins2 = PacketInspector::new(1000, no_rate(), quiet_filters(), 7);
    assert!(!ins2.inspect_at("9.8.8.8", "amp.test", None, 10, 0));
    assert!(ins2.mark_tcp_validated_at("9.8.8.8", 0));
    for _ in 0..20 {
        // a TCP-validated source is never reported
        assert!(!ins2.record_response_size("9.8.8.8", 1000));
    }
}

#[test]
fn first_contact_on_hot_domain() {
    let mut ins = PacketInspector::new(2, no_rate(), quiet_filters(), 7);
    assert!(!ins.inspect_at("8.1.1.1", "hot.test", None, 40, 0));
    assert!(!ins.inspect_at("8.1.1.1", "hot.test", None, 40, 2_000));
    // the counter is above the threshold of two from the third query on,
    // but an established source is not blocked for it alone
    assert!(!ins.inspect_at("8.1.1.1", "hot.test", None, 40, 4_000));
    // a newcomer whose very first query targets the hot domain is blocked
    assert!(ins.inspect_at("8.2.2.2", "hot.test", None, 40, 4_000));
}

#[test]
fn mark_tcp_validated_never_creates_state() {
    let mut ins = PacketInspector::new(1000, no_rate(), quiet_filters(), 7);
    assert!(!ins.mark_tcp_validated_at("7.7.7.1", 0));
    assert!(!ins.record_response_size("7.7.7.1", 500));
    assert!(!ins.inspect_at("7.7.7.1", "a.test", None, 40, 0));
    assert!(ins.mark_tcp_validated_at("7.7.7.1", 0));
}

#[test]
fn reset_stats_clears_counters_and_sources() {
    let mut ins = PacketInspector::new(2, no_rate(), quiet_filters(), 7);
    for _ in 0..3 {
        ins.inspect_at("8.3.3.3", "reset.test", None, 40, 0);
    }
    assert!(ins.inspect_at("8.4.4.4", "reset.test", None, 40, 0));
    ins.reset_stats();
    // the domain is cold again and the newcomer record is gone
    assert!(!ins.inspect_at("8.5.5.5", "reset.test", None, 40, 0));
}

#[test]
fn stateless_block_leaves_no_trace() {
    let mut ins = PacketInspector::new(1, no_rate(), FilterConfig::default(), 7);
    // three blocked ANY queries neither bump the domain counter nor create
    // per-source state
    for _ in 0..3 {
        assert!(ins.inspect_at("6.6.6.1", "cold.test", Some("ANY"), 40, 0));
    }
    assert!(!ins.mark_tcp_validated_at("6.6.6.1", 0));
    // a newcomer to the same domain passes: the counter never moved
    assert!(!ins.inspect_at("6.6.6.2", "cold.test", None, 40, 0));
}

#[test]
fn large_txt_filter_uses_size() {
    let mut ins = PacketInspector::new(1000, no_rate(), FilterConfig::default(), 7);
    // the default TXT cut-off is 1024 bytes
    assert!(!ins.inspect_at("6.6.6.3", "txt.test", Some("TXT"), 1024, 0));
    assert!(ins.inspect_at("6.6.6.3", "txt.test", Some("TXT"), 1025, 0));
    // other types pass at any size
    assert!(!ins.inspect_at("6.6.6.3", "txt.test", Some("A"), 4096, 0));
}
