//! Configuration surface: an immutable snapshot of thresholds and toggles
//! consumed when the packet inspector is constructed.

use vstd::prelude::*;

verus! {

/// Deployment profile; each profile maps to a default per-domain request
/// threshold above which a domain counts as "hot".
#[derive(Debug, Clone, PartialEq, Eq, Structural)]
pub enum Profile {
    Home,
    School,
    Enterprise,
    Datacenter,
    Custom(u64),
}

/// Per-source rate limiting settings, including the ban ladder durations.
#[derive(Debug, Clone)]
pub struct RateLimitConfig {
    pub enabled: bool,
    pub requests_per_sec: u64,
    pub burst: u64,
    pub first_offense_duration_secs: u64,
    pub second_offense_duration_secs: u64,
}

/// Ghost image of [`RateLimitConfig`].
pub ghost struct RateModel {
    pub enabled: bool,
    pub requests_per_sec: u64,
    pub burst: u64,
    pub first_offense_duration_secs: u64,
    pub second_offense_duration_secs: u64,
}

impl View for RateLimitConfig {
    type V = RateModel;

    open spec fn view(&self) -> RateModel {
        RateModel {
            enabled: self.enabled,
            requests_per_sec: self.requests_per_sec,
            burst: self.burst,
            first_offense_duration_secs: self.first_offense_duration_secs,
            second_offense_duration_secs: self.second_offense_duration_secs,
        }
    }
}

impl Default for RateLimitConfig {
    fn default() -> (r: Self)
        ensures
            r@ == (RateModel {
                enabled: true,
                requests_per_sec: 10,
                burst: 20,
                first_offense_duration_secs: 60,
                second_offense_duration_secs: 300,
            }),
    {
        RateLimitConfig {
            enabled: true,
            requests_per_sec: 10,
            burst: 20,
            first_offense_duration_secs: 60,
            second_offense_duration_secs: 300,
        }
    }
}

/// Stateless filter toggles and detector thresholds.
///
/// The subdomain entropy threshold is measured in millibits (thousandths of a
/// bit of Shannon entropy), so the classic cut-off of 3.5 bits is 3500.
/// A threshold of 0 disables the detector.
#[derive(Debug, Clone)]
pub struct FilterConfig {
    pub block_any_queries: bool,
    pub block_large_txt: bool,
    pub txt_max_size: usize,
    pub blocked_query_types: Vec<String>,
    pub max_udp_response_size: usize,
    pub enable_rrl: bool,
    pub rrl_responses_per_sec: u64,
    pub rrl_slip_ratio: u8,
    pub force_tcp_for_large: bool,
    pub tcp_validation_enabled: bool,
    pub tcp_validation_ttl_hours: u64,
    pub amplification_ratio_limit: u64,
    pub subdomain_entropy_threshold_millibits: u64,
    pub detect_reflection_patterns: bool,
}

/// Ghost image of [`FilterConfig`]; the blocked query types are a sequence of
/// character sequences.
#[verifier::ext_equal]
pub ghost struct FilterModel {
    pub block_any_queries: bool,
    pub block_large_txt: bool,
    pub txt_max_size: usize,
    pub blocked_query_types: Seq<Seq<char>>,
    pub max_udp_response_size: usize,
    pub enable_rrl: bool,
    pub rrl_responses_per_sec: u64,
    pub rrl_slip_ratio: u8,
    pub force_tcp_for_large: bool,
    pub tcp_validation_enabled: bool,
    pub tcp_validation_ttl_hours: u64,
    pub amplification_ratio_limit: u64,
    pub subdomain_entropy_threshold_millibits: u64,
    pub detect_reflection_patterns: bool,
}

impl View for FilterConfig {
    type V = FilterModel;

    open spec fn view(&self) -> FilterModel {
        FilterModel {
            block_any_queries: self.block_any_queries,
            block_large_txt: self.block_large_txt,
            txt_max_size: self.txt_max_size,
            blocked_query_types: self.blocked_query_types@.map_values(|s: String| s@),
            max_udp_response_size: self.max_udp_response_size,
            enable_rrl: self.enable_rrl,
            rrl_responses_per_sec: self.rrl_responses_per_sec,
            rrl_slip_ratio: self.rrl_slip_ratio,
            force_tcp_for_large: self.force_tcp_for_large,
            tcp_validation_enabled: self.tcp_validation_enabled,
            tcp_validation_ttl_hours: self.tcp_validation_ttl_hours,
            amplification_ratio_limit: self.amplification_ratio_limit,
            subdomain_entropy_threshold_millibits: self.subdomain_entropy_threshold_millibits,
            detect_reflection_patterns: self.detect_reflection_patterns,
        }
    }
}

pub fn default_true() -> (r: bool)
    ensures
        r == true,
{
    true
}

pub fn default_max_udp_response() -> (r: usize)
    ensures
        r == 512usize,
{
    512
}

pub fn default_rrl_rate() -> (r: u64)
    ensures
        r == 5u64,
{
    5
}

pub fn default_slip_ratio() -> (r: u8)
    ensures
        r == 2u8,
{
    2
}

pub fn default_tcp_ttl() -> (r: u64)
    ensures
        r == 24u64,
{
    24
}

pub fn default_amp_ratio() -> (r: u64)
    ensures
        r == 10u64,
{
    10
}

pub fn default_entropy_threshold() -> (r: u64)
    ensures
        r == 3500u64,
{
    3500
}

impl Default for FilterConfig {
    /// Zone transfers (`AXFR`, `IXFR`) are blocked by default; DNSSEC types
    /// (`RRSIG`, `DNSKEY`) are deliberately absent from the default list.
    fn default() -> (r: Self)
        ensures
            r@.block_any_queries == true,
            r@.block_large_txt == true,
            r@.txt_max_size == 1024usize,
            r@.blocked_query_types =~= seq!["AXFR"@, "IXFR"@],
            r@.max_udp_response_size == 512usize,
            r@.enable_rrl == true,
            r@.rrl_responses_per_sec == 5u64,
            r@.rrl_slip_ratio == 2u8,
            r@.force_tcp_for_large == true,
            r@.tcp_validation_enabled == true,
            r@.tcp_validation_ttl_hours == 24u64,
            r@.amplification_ratio_limit == 10u64,
            r@.subdomain_entropy_threshold_millibits == 3500u64,
            r@.detect_reflection_patterns == true,
    {
        let mut blocked_query_types: Vec<String> = Vec::new();
        blocked_query_types.push("AXFR".to_owned());
        blocked_query_types.push("IXFR".to_owned());
        proof {
            assert(blocked_query_types@.map_values(|s: String| s@) =~= seq!["AXFR"@, "IXFR"@]);
        }
        FilterConfig {
            block_any_queries: true,
            block_large_txt: true,
            txt_max_size: 1024,
            blocked_query_types,
            max_udp_response_size: 512,
            enable_rrl: true,
            rrl_responses_per_sec: 5,
            rrl_slip_ratio: 2,
            force_tcp_for_large: true,
            tcp_validation_enabled: true,
            tcp_validation_ttl_hours: 24,
            amplification_ratio_limit: 10,
            subdomain_entropy_threshold_millibits: 3500,
            detect_reflection_patterns: true,
        }
    }
}

/// Top-level configuration snapshot.
#[derive(Debug, Clone)]
pub struct AppConfig {
    pub mode: String,
    pub profile: Option<Profile>,
    pub threshold_override: Option<u64>,
    pub rate_limit: RateLimitConfig,
    pub filters: FilterConfig,
    pub auto_whitelist_days: Option<u64>,
}

impl Default for AppConfig {
    fn default() -> (r: Self)
        ensures
            r.mode@ == "normal"@,
            r.profile == Some(Profile::School),
            r.threshold_override is None,
            r.auto_whitelist_days == Some(7u64),
    {
        AppConfig {
            mode: "normal".to_owned(),
            profile: Some(Profile::School),
            threshold_override: None,
            rate_limit: RateLimitConfig::default(),
            filters: FilterConfig::default(),
            auto_whitelist_days: Some(7),
        }
    }
}

/// The per-domain request threshold an [`AppConfig`] denotes: a manual
/// override wins over the profile default, and a missing profile falls back
/// to the `School` figure.
pub open spec fn spec_threshold(
    threshold_override: Option<u64>,
    profile: Option<Profile>,
) -> u64 {
    match threshold_override {
        Some(t) => t,
        None => match profile {
            Some(Profile::Home) => 10_000u64,
            Some(Profile::School) => 50_000u64,
            Some(Profile::Enterprise) => 100_000u64,
            Some(Profile::Datacenter) => 1_000_000u64,
            Some(Profile::Custom(v)) => v,
            None => 50_000u64,
        },
    }
}

impl AppConfig {
    pub fn get_threshold(&self) -> (r: u64)
        ensures
            r == spec_threshold(self.threshold_override, self.profile),
    {
        if let Some(t) = self.threshold_override {
            return t;
        }
        match &self.profile {
            Some(Profile::Home) => 10_000,
            Some(Profile::School) => 50_000,
            Some(Profile::Enterprise) => 100_000,
            Some(Profile::Datacenter) => 1_000_000,
            Some(Profile::Custom(v)) => *v,
            None => 50_000,
        }
    }
}

} // verus!
