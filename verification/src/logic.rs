//! The packet inspector: the stateful classifier at the heart of the
//! firewall.
//!
//! The inspector ingests one parsed DNS query at a time and answers whether
//! the packet should be blocked.  Its decision order is strict and the first
//! matching rule wins: stateless query-type filters, the volumetric
//! per-domain counter, the first-contact rule for unknown sources, and then,
//! for known sources, ban expiry, reflection and entropy detectors, the
//! escape hatch, auto-whitelisting, TCP-validation expiry, response rate
//! limiting and the per-source rate limiter with its ban ladder.
//!
//! Every step is specified against a ghost [`InspectorModel`]; the exec
//! methods are proved to follow [`spec_inspect`], [`spec_mark_tcp`] and
//! [`spec_record`] exactly.  Timestamps are milliseconds; additions and
//! multiplications on counters and deadlines saturate instead of wrapping.

use vstd::prelude::*;
use vstd::map::*;
use crate::config::{FilterConfig, FilterModel, RateLimitConfig, RateModel};
use crate::entropy::{entropy_millibits, spec_entropy_millibits};
use crate::table::{
    find_index, find_key, lemma_find_index_props, lemma_find_index_push, lemma_find_index_update,
};

verus! {

/// Multiplication capped at the largest `u64` value.
pub open spec fn sat_mul64(a: u64, b: u64) -> u64 {
    if a * b > u64::MAX {
        u64::MAX
    } else {
        (a * b) as u64
    }
}

/// Saturating multiplication.
fn mul_sat(a: u64, b: u64) -> (r: u64)
    ensures
        r == sat_mul64(a, b),
{
    match a.checked_mul(b) {
        Some(v) => v,
        None => u64::MAX,
    }
}

/// Per-source record, keyed by the source address.
struct IpState {
    first_seen: u64,
    last_seen: u64,
    first_query: String,
    is_legit: bool,
    is_blocked: bool,
    banned_until: Option<u64>,
    offense_count: u32,
    last_rate_check: u64,
    current_window_requests: u64,
    total_query_bytes: u64,
    total_response_bytes: u64,
    unique_domains: Vec<String>,
    tcp_validated: bool,
    tcp_validation_time: Option<u64>,
    rrl_response_count: u64,
    last_rrl_check: u64,
}

/// Ghost image of a per-source record.
#[verifier::ext_equal]
pub ghost struct IpStateModel {
    pub first_seen: u64,
    pub last_seen: u64,
    pub first_query: Seq<char>,
    pub is_legit: bool,
    pub is_blocked: bool,
    pub banned_until: Option<u64>,
    pub offense_count: u32,
    pub last_rate_check: u64,
    pub current_window_requests: u64,
    pub total_query_bytes: u64,
    pub total_response_bytes: u64,
    pub unique_domains: Seq<Seq<char>>,
    pub tcp_validated: bool,
    pub tcp_validation_time: Option<u64>,
    pub rrl_response_count: u64,
    pub last_rrl_check: u64,
}

impl View for IpState {
    type V = IpStateModel;

    closed spec fn view(&self) -> IpStateModel {
        IpStateModel {
            first_seen: self.first_seen,
            last_seen: self.last_seen,
            first_query: self.first_query@,
            is_legit: self.is_legit,
            is_blocked: self.is_blocked,
            banned_until: self.banned_until,
            offense_count: self.offense_count,
            last_rate_check: self.last_rate_check,
            current_window_requests: self.current_window_requests,
            total_query_bytes: self.total_query_bytes,
            total_response_bytes: self.total_response_bytes,
            unique_domains: self.unique_domains@.map_values(|s: String| s@),
            tcp_validated: self.tcp_validated,
            tcp_validation_time: self.tcp_validation_time,
            rrl_response_count: self.rrl_response_count,
            last_rrl_check: self.last_rrl_check,
        }
    }
}

/// Which rule decided a blocked packet.
pub ghost enum BlockReason {
    /// Stateless filter on `ANY` queries.
    AnyQuery,
    /// Stateless filter on oversized `TXT` queries.
    LargeTxt,
    /// Stateless filter on the configured query-type list.
    BlockedType,
    /// First packet of a source aimed at an already-hot domain.
    FirstContact,
    /// A temporal ban is still running.
    BanActive,
    /// Reflection pattern: young source, tiny domain set, high rate, no TCP
    /// proof.
    Reflection,
    /// Random-subdomain pattern: high first-label entropy over many names.
    Entropy,
    /// The hostile flag is latched and the escape hatch did not fire.
    StillBlocked,
    /// Response rate limiting dropped the packet; no hostile flag is set.
    ResponseRate,
    /// The per-source rate limit fired and started or extended a ban.
    RateLimit,
}

/// Outcome of one inspection.
pub ghost enum Verdict {
    Pass,
    Block(BlockReason),
}

/// Whether a verdict blocks the packet.
pub open spec fn blocks(v: Verdict) -> bool {
    match v {
        Verdict::Pass => false,
        Verdict::Block(_) => true,
    }
}

/// Ghost image of the whole inspector.
#[verifier::ext_equal]
pub ghost struct InspectorModel {
    /// Per-domain request counters; an absent key counts as zero.
    pub domains: Map<Seq<char>, u64>,
    /// Per-source records.
    pub ips: Map<Seq<char>, IpStateModel>,
    pub threshold_domain_reqs: u64,
    pub rate_limit: RateModel,
    pub filters: FilterModel,
    pub auto_whitelist_days: u64,
}

/// The counter of a domain, zero when the domain was never seen.
pub open spec fn spec_domain_count(domains: Map<Seq<char>, u64>, d: Seq<char>) -> u64 {
    if domains.contains_key(d) {
        domains[d]
    } else {
        0
    }
}

/// The stateless query-type filters; the first match wins.
pub open spec fn spec_stateless(f: FilterModel, qtype: Option<Seq<char>>, size: u64) -> Option<
    BlockReason,
> {
    match qtype {
        None => None,
        Some(t) => if f.block_any_queries && t == "ANY"@ {
            Some(BlockReason::AnyQuery)
        } else if f.block_large_txt && t == "TXT"@ && size > f.txt_max_size as u64 {
            Some(BlockReason::LargeTxt)
        } else if f.blocked_query_types.contains(t) {
            Some(BlockReason::BlockedType)
        } else {
            None
        },
    }
}

/// The record created on first contact: the first query is remembered, and
/// a source whose first query hits a hot domain starts out blocked.  No
/// source is born legitimate: legitimacy is earned later, through the
/// escape hatch, the auto-whitelist, or passive legitimization.
pub open spec fn spec_new_state(domain: Seq<char>, size: u64, now: u64, is_high: bool) -> IpStateModel {
    IpStateModel {
        first_seen: now,
        last_seen: now,
        first_query: domain,
        is_legit: false,
        is_blocked: is_high,
        banned_until: None,
        offense_count: 0,
        last_rate_check: now,
        current_window_requests: 1,
        total_query_bytes: size,
        total_response_bytes: 0,
        unique_domains: seq![domain],
        tcp_validated: false,
        tcp_validation_time: None,
        rrl_response_count: 1,
        last_rrl_check: now,
    }
}

/// Per-packet observation on a known source: stamp the time, account the
/// bytes, and remember the queried name.
pub open spec fn spec_observe(st: IpStateModel, domain: Seq<char>, size: u64, now: u64) -> IpStateModel {
    IpStateModel {
        last_seen: now,
        total_query_bytes: st.total_query_bytes.saturating_add(size),
        unique_domains: if st.unique_domains.contains(domain) {
            st.unique_domains
        } else {
            st.unique_domains.push(domain)
        },
        ..st
    }
}

/// Ban expiry: an elapsed ban is cleared together with the hostile flag;
/// a running ban blocks.  Returns the successor state and whether the ban
/// still runs.
pub open spec fn spec_ban_check(st: IpStateModel, now: u64) -> (IpStateModel, bool) {
    match st.banned_until {
        Some(until) => if now > until {
            (IpStateModel { banned_until: None, is_blocked: false, ..st }, false)
        } else {
            (st, true)
        },
        None => (st, false),
    }
}

/// Reflection and random-subdomain detectors; at most one fires and its
/// reason is reported.
pub open spec fn spec_detect(
    rate: RateModel,
    filters: FilterModel,
    st: IpStateModel,
    now: u64,
) -> (IpStateModel, Option<BlockReason>) {
    if filters.detect_reflection_patterns && now.saturating_sub(st.first_seen) < 60000
        && st.unique_domains.len() <= 2 && st.current_window_requests > 20 && !st.tcp_validated {
        (
            IpStateModel {
                is_blocked: true,
                banned_until: Some(
                    now.saturating_add(sat_mul64(rate.second_offense_duration_secs, 1000)),
                ),
                ..st
            },
            Some(BlockReason::Reflection),
        )
    } else if filters.subdomain_entropy_threshold_millibits > 0 && spec_entropy_millibits(
        st.unique_domains,
    ) > filters.subdomain_entropy_threshold_millibits as int && st.unique_domains.len() > 10
        && !st.tcp_validated {
        (IpStateModel { is_blocked: true, ..st }, Some(BlockReason::Entropy))
    } else {
        (st, None)
    }
}

/// Escape hatch: a blocked source that queries a fresh, non-hot name is
/// rehabilitated and passes; a blocked source that does not stays blocked.
/// `None` means the source was not blocked and inspection goes on.
pub open spec fn spec_escape(st: IpStateModel, domain: Seq<char>, is_high: bool) -> (
    IpStateModel,
    Option<Verdict>,
) {
    if st.is_blocked && domain != st.first_query && !is_high {
        (IpStateModel { is_legit: true, is_blocked: false, ..st }, Some(Verdict::Pass))
    } else if st.is_blocked {
        (st, Some(Verdict::Block(BlockReason::StillBlocked)))
    } else {
        (st, None)
    }
}

/// Background maintenance: age a clean source into the whitelist, and let
/// TCP validation expire after its TTL.
pub open spec fn spec_maintain(
    filters: FilterModel,
    auto_whitelist_days: u64,
    st: IpStateModel,
    now: u64,
) -> IpStateModel {
    let st1 = if !st.is_legit && now.saturating_sub(st.first_seen) / 1000 > sat_mul64(
        auto_whitelist_days,
        86400,
    ) {
        IpStateModel { is_legit: true, ..st }
    } else {
        st
    };
    let expired = st1.tcp_validated && (match st1.tcp_validation_time {
        Some(vt) => now.saturating_sub(vt) > sat_mul64(filters.tcp_validation_ttl_hours, 3600000),
        None => false,
    });
    if expired {
        IpStateModel { tcp_validated: false, tcp_validation_time: None, ..st1 }
    } else {
        st1
    }
}

/// Response rate limiting: advance the one-second window, and over the
/// limit drop the packet unless the slip ratio lets it through.  RRL never
/// touches the hostile flag.
pub open spec fn spec_rrl(filters: FilterModel, st: IpStateModel, now: u64) -> (
    IpStateModel,
    bool,
) {
    if filters.enable_rrl {
        let reset = now.saturating_sub(st.last_rrl_check) >= 1000;
        let start = if reset {
            now
        } else {
            st.last_rrl_check
        };
        let c = (if reset {
            0u64
        } else {
            st.rrl_response_count
        }).saturating_add(1);
        let st1 = IpStateModel { last_rrl_check: start, rrl_response_count: c, ..st };
        let dropped = c > filters.rrl_responses_per_sec && (filters.rrl_slip_ratio == 0 || c % (
        filters.rrl_slip_ratio as u64) != 0);
        (st1, dropped)
    } else {
        (st, false)
    }
}

/// Per-source rate limiter: advance the one-second window, and over the
/// limit start a ban whose length the offense ladder picks: the first
/// offense gets the short duration, every later one the long duration.
pub open spec fn spec_rate_limit(rate: RateModel, st: IpStateModel, now: u64) -> (
    IpStateModel,
    bool,
) {
    if rate.enabled {
        let reset = now.saturating_sub(st.last_rate_check) >= 1000;
        let start = if reset {
            now
        } else {
            st.last_rate_check
        };
        let c = (if reset {
            0u64
        } else {
            st.current_window_requests
        }).saturating_add(1);
        let st1 = IpStateModel { last_rate_check: start, current_window_requests: c, ..st };
        if c > rate.requests_per_sec {
            let dur = if st1.offense_count == 0 {
                rate.first_offense_duration_secs
            } else {
                rate.second_offense_duration_secs
            };
            (
                IpStateModel {
                    offense_count: st1.offense_count.saturating_add(1),
                    banned_until: Some(now.saturating_add(sat_mul64(dur, 1000))),
                    is_blocked: true,
                    ..st1
                },
                true,
            )
        } else {
            (st1, false)
        }
    } else {
        (st, false)
    }
}

/// Final legitimacy step: a source that is already legitimate passes
/// unchanged; one that asks for a fresh, non-hot name becomes legitimate.
pub open spec fn spec_legit(st: IpStateModel, domain: Seq<char>, is_high: bool) -> IpStateModel {
    if st.is_legit {
        st
    } else if domain != st.first_query && !is_high {
        IpStateModel { is_legit: true, is_blocked: false, ..st }
    } else {
        st
    }
}

/// One inspection step on a known source, after the per-domain counter has
/// been bumped: observation, ban expiry, detectors, escape hatch,
/// maintenance, RRL, rate limiting, legitimacy; the first blocking stage
/// wins.
pub open spec fn spec_step(
    rate: RateModel,
    filters: FilterModel,
    auto_whitelist_days: u64,
    st0: IpStateModel,
    domain: Seq<char>,
    is_high: bool,
    size: u64,
    now: u64,
) -> (IpStateModel, Verdict) {
    let st = spec_observe(st0, domain, size, now);
    let bc = spec_ban_check(st, now);
    if bc.1 {
        (bc.0, Verdict::Block(BlockReason::BanActive))
    } else {
        let d = spec_detect(rate, filters, bc.0, now);
        match d.1 {
            Some(reason) => (d.0, Verdict::Block(reason)),
            None => {
                let e = spec_escape(d.0, domain, is_high);
                match e.1 {
                    Some(v) => (e.0, v),
                    None => {
                        let m = spec_maintain(filters, auto_whitelist_days, e.0, now);
                        let rr = spec_rrl(filters, m, now);
                        if rr.1 {
                            (rr.0, Verdict::Block(BlockReason::ResponseRate))
                        } else {
                            let rl = spec_rate_limit(rate, rr.0, now);
                            if rl.1 {
                                (rl.0, Verdict::Block(BlockReason::RateLimit))
                            } else {
                                (spec_legit(rl.0, domain, is_high), Verdict::Pass)
                            }
                        }
                    },
                }
            },
        }
    }
}

/// The view of an optional query type.
pub open spec fn spec_qtype(q: Option<&str>) -> Option<Seq<char>> {
    match q {
        Some(s) => Some(s@),
        None => None,
    }
}

/// One full inspection: stateless filters, volumetric counter, then the
/// first-contact rule or the per-source step.  Returns the successor model
/// and the verdict.
pub open spec fn spec_inspect(
    m: InspectorModel,
    ip: Seq<char>,
    domain: Seq<char>,
    qtype: Option<Seq<char>>,
    size: u64,
    now: u64,
) -> (InspectorModel, Verdict) {
    match spec_stateless(m.filters, qtype, size) {
        Some(reason) => (m, Verdict::Block(reason)),
        None => {
            let new_count = spec_domain_count(m.domains, domain).saturating_add(1);
            let domains = m.domains.insert(domain, new_count);
            let is_high = new_count > m.threshold_domain_reqs;
            if !m.ips.contains_key(ip) {
                let st = spec_new_state(domain, size, now, is_high);
                (
                    InspectorModel { domains, ips: m.ips.insert(ip, st), ..m },
                    if is_high {
                        Verdict::Block(BlockReason::FirstContact)
                    } else {
                        Verdict::Pass
                    },
                )
            } else {
                let r = spec_step(
                    m.rate_limit,
                    m.filters,
                    m.auto_whitelist_days,
                    m.ips[ip],
                    domain,
                    is_high,
                    size,
                    now,
                );
                (InspectorModel { domains, ips: m.ips.insert(ip, r.0), ..m }, r.1)
            }
        },
    }
}

/// Marking a source as TCP-validated: only an already-known source is
/// stamped; an unknown one is reported and nothing is created.
pub open spec fn spec_mark_tcp(m: InspectorModel, ip: Seq<char>, now: u64) -> (
    InspectorModel,
    bool,
) {
    if m.ips.contains_key(ip) {
        (
            InspectorModel {
                ips: m.ips.insert(
                    ip,
                    IpStateModel {
                        tcp_validated: true,
                        tcp_validation_time: Some(now),
                        ..m.ips[ip]
                    },
                ),
                ..m
            },
            true,
        )
    } else {
        (m, false)
    }
}

/// Accounting an estimated response: beyond a 10 kB floor, a response to
/// query byte ratio over the limit latches the hostile flag, unless the
/// source is TCP-validated.
pub open spec fn spec_record(m: InspectorModel, ip: Seq<char>, size: u64) -> (
    InspectorModel,
    bool,
) {
    if m.ips.contains_key(ip) {
        let st = m.ips[ip];
        let st1 = IpStateModel {
            total_response_bytes: st.total_response_bytes.saturating_add(size),
            ..st
        };
        let trigger = st1.total_query_bytes > 0 && st1.total_response_bytes
            / st1.total_query_bytes > m.filters.amplification_ratio_limit && !st1.tcp_validated
            && st1.total_response_bytes > 10000;
        let st2 = if trigger {
            IpStateModel { is_blocked: true, ..st1 }
        } else {
            st1
        };
        (InspectorModel { ips: m.ips.insert(ip, st2), ..m }, trigger)
    } else {
        (m, false)
    }
}

/// The map a domain-counter table denotes.
spec fn domains_map(s: Seq<(String, u64)>) -> Map<Seq<char>, u64> {
    Map::new(|k: Seq<char>| find_index(s, k) >= 0, |k: Seq<char>| s[find_index(s, k)].1)
}

/// The map a per-source table denotes.
spec fn ips_map(s: Seq<(String, IpState)>) -> Map<Seq<char>, IpStateModel> {
    Map::new(|k: Seq<char>| find_index(s, k) >= 0, |k: Seq<char>| s[find_index(s, k)].1@)
}

/// String equality on views.
fn str_eq(a: &str, b: &str) -> (r: bool)
    ensures
        r == (a@ == b@),
{
    let x: String = a.to_owned();
    let y: String = b.to_owned();
    x == y
}

/// Whether the view of `s` occurs among the views of `v`.
fn contains_string(v: &Vec<String>, s: &str) -> (r: bool)
    ensures
        r == v@.map_values(|x: String| x@).contains(s@),
{
    let needle: String = s.to_owned();
    let n = v.len();
    let mut i: usize = 0;
    while i < n
        invariant
            n == v@.len(),
            needle@ == s@,
            i <= n,
            forall|j: int| 0 <= j < i ==> v@[j]@ != s@,
        decreases n - i,
    {
        if v[i] == needle {
            proof {
                assert(v@.map_values(|x: String| x@)[i as int] == s@);
            }
            return true;
        }
        i += 1;
    }
    proof {
        let m = v@.map_values(|x: String| x@);
        assert forall|j: int| 0 <= j < m.len() implies #[trigger] m[j] != s@ by {
            assert(m[j] == v@[j]@);
        }
    }
    false
}

/// The stateless filters as executable code.
fn check_stateless(filters: &FilterConfig, qt: &str, packet_size: usize) -> (r: bool)
    ensures
        r == (spec_stateless(filters@, Some(qt@), packet_size as u64) is Some),
{
    if filters.block_any_queries && str_eq(qt, "ANY") {
        return true;
    }
    if filters.block_large_txt && str_eq(qt, "TXT") && packet_size > filters.txt_max_size {
        return true;
    }
    let needle: String = qt.to_owned();
    let n = filters.blocked_query_types.len();
    let mut i: usize = 0;
    while i < n
        invariant
            n == filters.blocked_query_types@.len(),
            needle@ == qt@,
            i <= n,
            forall|j: int| 0 <= j < i ==> filters.blocked_query_types@[j]@ != qt@,
        decreases n - i,
    {
        if filters.blocked_query_types[i] == needle {
            proof {
                assert(filters@.blocked_query_types[i as int] == qt@);
            }
            return true;
        }
        i += 1;
    }
    proof {
        let m = filters@.blocked_query_types;
        assert forall|j: int| 0 <= j < m.len() implies #[trigger] m[j] != qt@ by {
            assert(m[j] == filters.blocked_query_types@[j]@);
        }
    }
    false
}

/// Bump the counter of `name`, creating it at 1, and return the new count.
fn bump_domain(stats: &mut Vec<(String, u64)>, name: &str) -> (c: u64)
    ensures
        c == spec_domain_count(domains_map(old(stats)@), name@).saturating_add(1),
        domains_map(final(stats)@) == domains_map(old(stats)@).insert(name@, c),
{
    match find_key(stats, name) {
        Some(i) => {
            proof {
                lemma_find_index_props(stats@, name@);
            }
            let e = &mut stats[i];
            let c = e.1.saturating_add(1);
            e.1 = c;
            proof {
                let s0 = old(stats)@;
                let s1 = stats@;
                assert(s1 == s0.update(i as int, s1[i as int]));
                assert(s1[i as int].0@ == name@);
                assert_maps_equal!(domains_map(s1), domains_map(s0).insert(name@, c), k => {
                    lemma_find_index_update(s0, i as int, s1[i as int], k);
                    lemma_find_index_props(s0, k);
                });
            }
            c
        },
        None => {
            stats.push((name.to_owned(), 1));
            proof {
                let s0 = old(stats)@;
                let s1 = stats@;
                let p = s1.last();
                assert(s1 == s0.push(p));
                assert(p.0@ == name@);
                assert_maps_equal!(domains_map(s1), domains_map(s0).insert(name@, 1u64), k => {
                    lemma_find_index_push(s0, p, k);
                    lemma_find_index_props(s0, k);
                    lemma_find_index_props(s1, k);
                });
                assert(!domains_map(s0).contains_key(name@));
            }
            1
        },
    }
}

/// Per-packet observation; follows [`spec_observe`].
fn observe_step(st: &mut IpState, domain: &str, packet_size: usize, now: u64)
    ensures
        final(st)@ == spec_observe(old(st)@, domain@, packet_size as u64, now),
{
    st.last_seen = now;
    st.total_query_bytes = st.total_query_bytes.saturating_add(packet_size as u64);
    if !contains_string(&st.unique_domains, domain) {
        st.unique_domains.push(domain.to_owned());
        proof {
            assert(st.unique_domains@.map_values(|s: String| s@) =~= old(
                st,
            )@.unique_domains.push(domain@));
        }
    }
    proof {
        assert(st@ =~= spec_observe(old(st)@, domain@, packet_size as u64, now));
    }
}

/// Ban expiry; follows [`spec_ban_check`].
fn ban_check_step(st: &mut IpState, now: u64) -> (banned: bool)
    ensures
        final(st)@ == spec_ban_check(old(st)@, now).0,
        banned == spec_ban_check(old(st)@, now).1,
{
    if let Some(until) = st.banned_until {
        if now > until {
            st.banned_until = None;
            st.is_blocked = false;
            proof {
                assert(st@ =~= spec_ban_check(old(st)@, now).0);
            }
            false
        } else {
            true
        }
    } else {
        false
    }
}

/// Reflection and entropy detectors; follows [`spec_detect`].
fn detect_step(
    st: &mut IpState,
    rate: &RateLimitConfig,
    filters: &FilterConfig,
    now: u64,
) -> (fired: bool)
    ensures
        final(st)@ == spec_detect(rate@, filters@, old(st)@, now).0,
        fired == (spec_detect(rate@, filters@, old(st)@, now).1 is Some),
{
    if filters.detect_reflection_patterns {
        let is_new = now.saturating_sub(st.first_seen) < 60000;
        let few_domains = st.unique_domains.len() <= 2;
        let high_rate = st.current_window_requests > 20;
        if is_new && few_domains && high_rate && !st.tcp_validated {
            st.is_blocked = true;
            st.banned_until = Some(
                now.saturating_add(mul_sat(rate.second_offense_duration_secs, 1000)),
            );
            proof {
                assert(st@ =~= spec_detect(rate@, filters@, old(st)@, now).0);
            }
            return true;
        }
    }
    if filters.subdomain_entropy_threshold_millibits > 0 {
        let e = entropy_millibits(&st.unique_domains);
        if e > filters.subdomain_entropy_threshold_millibits as u128 && st.unique_domains.len()
            > 10 && !st.tcp_validated {
            st.is_blocked = true;
            proof {
                assert(st@ =~= spec_detect(rate@, filters@, old(st)@, now).0);
            }
            return true;
        }
    }
    false
}

/// Escape hatch; follows [`spec_escape`].  `Some(b)` decides the packet,
/// `None` lets inspection go on.
fn escape_step(st: &mut IpState, domain: &str, is_high: bool) -> (r: Option<bool>)
    ensures
        final(st)@ == spec_escape(old(st)@, domain@, is_high).0,
        (match spec_escape(old(st)@, domain@, is_high).1 {
            Some(Verdict::Pass) => r == Some(false),
            Some(Verdict::Block(_)) => r == Some(true),
            None => r is None,
        }),
{
    if st.is_blocked && !str_eq(domain, st.first_query.as_str()) && !is_high {
        st.is_legit = true;
        st.is_blocked = false;
        proof {
            assert(st@ =~= spec_escape(old(st)@, domain@, is_high).0);
        }
        Some(false)
    } else if st.is_blocked {
        Some(true)
    } else {
        None
    }
}

/// Auto-whitelisting and TCP-validation expiry; follows [`spec_maintain`].
fn maintain_step(st: &mut IpState, filters: &FilterConfig, auto_whitelist_days: u64, now: u64)
    ensures
        final(st)@ == spec_maintain(filters@, auto_whitelist_days, old(st)@, now),
{
    if !st.is_legit && now.saturating_sub(st.first_seen) / 1000 > mul_sat(
        auto_whitelist_days,
        86400,
    ) {
        st.is_legit = true;
    }
    if st.tcp_validated {
        if let Some(vt) = st.tcp_validation_time {
            if now.saturating_sub(vt) > mul_sat(filters.tcp_validation_ttl_hours, 3600000) {
                st.tcp_validated = false;
                st.tcp_validation_time = None;
            }
        }
    }
    proof {
        assert(st@ =~= spec_maintain(filters@, auto_whitelist_days, old(st)@, now));
    }
}

/// Response rate limiting; follows [`spec_rrl`].
fn rrl_step(st: &mut IpState, filters: &FilterConfig, now: u64) -> (dropped: bool)
    ensures
        final(st)@ == spec_rrl(filters@, old(st)@, now).0,
        dropped == spec_rrl(filters@, old(st)@, now).1,
{
    if filters.enable_rrl {
        if now.saturating_sub(st.last_rrl_check) >= 1000 {
            st.last_rrl_check = now;
            st.rrl_response_count = 0;
        }
        st.rrl_response_count = st.rrl_response_count.saturating_add(1);
        proof {
            assert(st@ =~= spec_rrl(filters@, old(st)@, now).0);
        }
        if st.rrl_response_count > filters.rrl_responses_per_sec {
            let slip = filters.rrl_slip_ratio;
            if slip == 0 || st.rrl_response_count % (slip as u64) != 0 {
                return true;
            }
        }
        false
    } else {
        false
    }
}

/// Per-source rate limiting and the ban ladder; follows
/// [`spec_rate_limit`].
fn rate_limit_step(st: &mut IpState, rate: &RateLimitConfig, now: u64) -> (limited: bool)
    ensures
        final(st)@ == spec_rate_limit(rate@, old(st)@, now).0,
        limited == spec_rate_limit(rate@, old(st)@, now).1,
{
    if rate.enabled {
        if now.saturating_sub(st.last_rate_check) >= 1000 {
            st.last_rate_check = now;
            st.current_window_requests = 0;
        }
        st.current_window_requests = st.current_window_requests.saturating_add(1);
        if st.current_window_requests > rate.requests_per_sec {
            let dur = if st.offense_count == 0 {
                rate.first_offense_duration_secs
            } else {
                rate.second_offense_duration_secs
            };
            st.offense_count = st.offense_count.saturating_add(1);
            st.banned_until = Some(now.saturating_add(mul_sat(dur, 1000)));
            st.is_blocked = true;
            proof {
                assert(st@ =~= spec_rate_limit(rate@, old(st)@, now).0);
            }
            true
        } else {
            proof {
                assert(st@ =~= spec_rate_limit(rate@, old(st)@, now).0);
            }
            false
        }
    } else {
        false
    }
}

/// Final legitimacy step; follows [`spec_legit`].
fn legit_step(st: &mut IpState, domain: &str, is_high: bool)
    ensures
        final(st)@ == spec_legit(old(st)@, domain@, is_high),
{
    if st.is_legit {
        return ;
    }
    if !str_eq(domain, st.first_query.as_str()) && !is_high {
        st.is_legit = true;
        st.is_blocked = false;
        proof {
            assert(st@ =~= spec_legit(old(st)@, domain@, is_high));
        }
    }
}

/// One inspection step on a known source; follows [`spec_step`].
fn step_existing(
    st: &mut IpState,
    rate: &RateLimitConfig,
    filters: &FilterConfig,
    auto_whitelist_days: u64,
    domain: &str,
    is_high: bool,
    packet_size: usize,
    now: u64,
) -> (b: bool)
    ensures
        final(st)@ == spec_step(
            rate@,
            filters@,
            auto_whitelist_days,
            old(st)@,
            domain@,
            is_high,
            packet_size as u64,
            now,
        ).0,
        b == blocks(
            spec_step(
                rate@,
                filters@,
                auto_whitelist_days,
                old(st)@,
                domain@,
                is_high,
                packet_size as u64,
                now,
            ).1,
        ),
{
    observe_step(st, domain, packet_size, now);
    if ban_check_step(st, now) {
        return true;
    }
    if detect_step(st, rate, filters, now) {
        return true;
    }
    match escape_step(st, domain, is_high) {
        Some(b) => {
            return b;
        },
        None => {},
    }
    maintain_step(st, filters, auto_whitelist_days, now);
    if rrl_step(st, filters, now) {
        return true;
    }
    if rate_limit_step(st, rate, now) {
        return true;
    }
    legit_step(st, domain, is_high);
    false
}


/// The stateful classifier.  It owns the per-domain counters and the
/// per-source records, along with the configuration snapshot fixed at
/// construction.
pub struct PacketInspector {
    domain_stats: Vec<(String, u64)>,
    ip_states: Vec<(String, IpState)>,
    threshold_domain_reqs: u64,
    rate_limit_config: RateLimitConfig,
    filter_config: FilterConfig,
    auto_whitelist_days: u64,
}

impl View for PacketInspector {
    type V = InspectorModel;

    closed spec fn view(&self) -> InspectorModel {
        InspectorModel {
            domains: domains_map(self.domain_stats@),
            ips: ips_map(self.ip_states@),
            threshold_domain_reqs: self.threshold_domain_reqs,
            rate_limit: self.rate_limit_config@,
            filters: self.filter_config@,
            auto_whitelist_days: self.auto_whitelist_days,
        }
    }
}

/// Milliseconds on the wall clock.
///
/// Relies on `std::time::SystemTime::now`, read as milliseconds since the
/// Unix epoch; nothing relates two readings, and the decision logic is
/// verified for every value handed back.
#[verifier::external_body]
pub(crate) fn now_millis() -> u64 {
    match std::time::SystemTime::now().duration_since(std::time::UNIX_EPOCH) {
        Ok(d) => {
            let ms = d.as_millis();
            if ms > u64::MAX as u128 {
                u64::MAX
            } else {
                ms as u64
            }
        },
        Err(_) => 0,
    }
}

impl PacketInspector {
    /// A fresh inspector with empty tables and the given snapshot.
    pub fn new(
        threshold_domain_reqs: u64,
        rate_limit_config: RateLimitConfig,
        filter_config: FilterConfig,
        auto_whitelist_days: u64,
    ) -> (r: Self)
        ensures
            r@ == (InspectorModel {
                domains: Map::empty(),
                ips: Map::empty(),
                threshold_domain_reqs,
                rate_limit: rate_limit_config@,
                filters: filter_config@,
                auto_whitelist_days,
            }),
    {
        let r = PacketInspector {
            domain_stats: Vec::new(),
            ip_states: Vec::new(),
            threshold_domain_reqs,
            rate_limit_config,
            filter_config,
            auto_whitelist_days,
        };
        proof {
            assert_maps_equal!(domains_map(r.domain_stats@), Map::<Seq<char>, u64>::empty(),
                k => {});
            assert_maps_equal!(ips_map(r.ip_states@), Map::<Seq<char>, IpStateModel>::empty(),
                k => {});
        }
        r
    }

    /// Inspect one query at an explicit time; follows [`spec_inspect`].
    /// Returns true when the packet should be blocked.
    pub fn inspect_at(
        &mut self,
        source_ip: &str,
        query_domain: &str,
        query_type: Option<&str>,
        packet_size: usize,
        now: u64,
    ) -> (blocked: bool)
        ensures
            final(self)@ == spec_inspect(
                old(self)@,
                source_ip@,
                query_domain@,
                spec_qtype(query_type),
                packet_size as u64,
                now,
            ).0,
            blocked == blocks(
                spec_inspect(
                    old(self)@,
                    source_ip@,
                    query_domain@,
                    spec_qtype(query_type),
                    packet_size as u64,
                    now,
                ).1,
            ),
    {
        if let Some(qt) = query_type {
            if check_stateless(&self.filter_config, qt, packet_size) {
                return true;
            }
        }
        let new_count = bump_domain(&mut self.domain_stats, query_domain);
        let is_high = new_count > self.threshold_domain_reqs;
        match find_key(&self.ip_states, source_ip) {
            None => {
                let mut unique_domains: Vec<String> = Vec::new();
                unique_domains.push(query_domain.to_owned());
                let st = IpState {
                    first_seen: now,
                    last_seen: now,
                    first_query: query_domain.to_owned(),
                    is_legit: false,
                    is_blocked: is_high,
                    banned_until: None,
                    offense_count: 0,
                    last_rate_check: now,
                    current_window_requests: 1,
                    total_query_bytes: packet_size as u64,
                    total_response_bytes: 0,
                    unique_domains,
                    tcp_validated: false,
                    tcp_validation_time: None,
                    rrl_response_count: 1,
                    last_rrl_check: now,
                };
                proof {
                    assert(st@ =~= spec_new_state(query_domain@, packet_size as u64, now, is_high));
                }
                self.ip_states.push((source_ip.to_owned(), st));
                proof {
                    let s0 = old(self).ip_states@;
                    let s1 = self.ip_states@;
                    let p = s1.last();
                    assert(s1 == s0.push(p));
                    assert(p.0@ == source_ip@);
                    assert_maps_equal!(ips_map(s1), ips_map(s0).insert(source_ip@, p.1@), k => {
                        lemma_find_index_push(s0, p, k);
                        lemma_find_index_props(s0, k);
                        lemma_find_index_props(s1, k);
                    });
                    assert(self@ =~= spec_inspect(
                        old(self)@,
                        source_ip@,
                        query_domain@,
                        spec_qtype(query_type),
                        packet_size as u64,
                        now,
                    ).0);
                }
                is_high
            },
            Some(i) => {
                proof {
                    lemma_find_index_props(self.ip_states@, source_ip@);
                }
                let pair = self.ip_states.remove(i);
                let key = pair.0;
                let mut st = pair.1;
                let ghost st0 = st@;
                let b = step_existing(
                    &mut st,
                    &self.rate_limit_config,
                    &self.filter_config,
                    self.auto_whitelist_days,
                    query_domain,
                    is_high,
                    packet_size,
                    now,
                );
                self.ip_states.insert(i, (key, st));
                proof {
                    let s0 = old(self).ip_states@;
                    let s1 = self.ip_states@;
                    assert(s1 =~= s0.update(i as int, s1[i as int]));
                    assert(s1[i as int].0@ == source_ip@);
                    assert(st0 == ips_map(s0)[source_ip@]);
                    assert_maps_equal!(ips_map(s1),
                        ips_map(s0).insert(source_ip@, s1[i as int].1@), k => {
                        lemma_find_index_update(s0, i as int, s1[i as int], k);
                        lemma_find_index_props(s0, k);
                    });
                    assert(self@ =~= spec_inspect(
                        old(self)@,
                        source_ip@,
                        query_domain@,
                        spec_qtype(query_type),
                        packet_size as u64,
                        now,
                    ).0);
                }
                b
            },
        }
    }

    /// Inspect one query at the present moment.  Returns true when the
    /// packet should be blocked; the successor state and the verdict follow
    /// [`spec_inspect`] at the moment of the call.
    pub fn inspect(
        &mut self,
        source_ip: &str,
        query_domain: &str,
        query_type: Option<&str>,
        packet_size: usize,
    ) -> (blocked: bool)
        ensures
            exists|now: u64|
                {
                    &&& final(self)@ == (#[trigger] spec_inspect(
                        old(self)@,
                        source_ip@,
                        query_domain@,
                        spec_qtype(query_type),
                        packet_size as u64,
                        now,
                    )).0
                    &&& blocked == blocks(spec_inspect(
                        old(self)@,
                        source_ip@,
                        query_domain@,
                        spec_qtype(query_type),
                        packet_size as u64,
                        now,
                    ).1)
                },
    {
        let now = now_millis();
        let blocked = self.inspect_at(source_ip, query_domain, query_type, packet_size, now);
        proof {
            let r = spec_inspect(
                old(self)@,
                source_ip@,
                query_domain@,
                spec_qtype(query_type),
                packet_size as u64,
                now,
            );
            assert(self@ == r.0 && blocked == blocks(r.1));
        }
        blocked
    }

    /// Stamp a known source as TCP-validated at an explicit time; follows
    /// [`spec_mark_tcp`].  Returns whether the source was known.
    pub fn mark_tcp_validated_at(&mut self, ip: &str, now: u64) -> (found: bool)
        ensures
            final(self)@ == spec_mark_tcp(old(self)@, ip@, now).0,
            found == spec_mark_tcp(old(self)@, ip@, now).1,
    {
        match find_key(&self.ip_states, ip) {
            Some(i) => {
                proof {
                    lemma_find_index_props(self.ip_states@, ip@);
                }
                let pair = self.ip_states.remove(i);
                let key = pair.0;
                let mut st = pair.1;
                let ghost st0 = st@;
                st.tcp_validated = true;
                st.tcp_validation_time = Some(now);
                self.ip_states.insert(i, (key, st));
                proof {
                    let s0 = old(self).ip_states@;
                    let s1 = self.ip_states@;
                    assert(s1 =~= s0.update(i as int, s1[i as int]));
                    assert(s1[i as int].0@ == ip@);
                    assert(st0 == ips_map(s0)[ip@]);
                    assert(s1[i as int].1@ =~= (IpStateModel {
                        tcp_validated: true,
                        tcp_validation_time: Some(now),
                        ..st0
                    }));
                    assert_maps_equal!(ips_map(s1),
                        ips_map(s0).insert(ip@, s1[i as int].1@), k => {
                        lemma_find_index_update(s0, i as int, s1[i as int], k);
                        lemma_find_index_props(s0, k);
                    });
                    assert(self@ =~= spec_mark_tcp(old(self)@, ip@, now).0);
                }
                true
            },
            None => {
                proof {
                    assert(self@ =~= spec_mark_tcp(old(self)@, ip@, now).0);
                }
                false
            },
        }
    }

    /// Stamp a known source as TCP-validated now.
    pub fn mark_tcp_validated(&mut self, ip: &str) -> (found: bool)
        ensures
            exists|now: u64|
                {
                    &&& final(self)@ == (#[trigger] spec_mark_tcp(old(self)@, ip@, now)).0
                    &&& found == spec_mark_tcp(old(self)@, ip@, now).1
                },
    {
        let now = now_millis();
        let found = self.mark_tcp_validated_at(ip, now);
        proof {
            let r = spec_mark_tcp(old(self)@, ip@, now);
            assert(self@ == r.0 && found == r.1);
        }
        found
    }

    /// Account an estimated response to a known source; follows
    /// [`spec_record`].  Returns true when the amplification detector
    /// latches the hostile flag.
    pub fn record_response_size(&mut self, ip: &str, response_size: usize) -> (blocked: bool)
        ensures
            final(self)@ == spec_record(old(self)@, ip@, response_size as u64).0,
            blocked == spec_record(old(self)@, ip@, response_size as u64).1,
    {
        match find_key(&self.ip_states, ip) {
            Some(i) => {
                proof {
                    lemma_find_index_props(self.ip_states@, ip@);
                }
                let pair = self.ip_states.remove(i);
                let key = pair.0;
                let mut st = pair.1;
                let ghost st0 = st@;
                st.total_response_bytes = st.total_response_bytes.saturating_add(
                    response_size as u64,
                );
                let mut blocked = false;
                if st.total_query_bytes > 0 {
                    let ratio = st.total_response_bytes / st.total_query_bytes;
                    if ratio > self.filter_config.amplification_ratio_limit && !st.tcp_validated
                        && st.total_response_bytes > 10000 {
                        st.is_blocked = true;
                        blocked = true;
                    }
                }
                self.ip_states.insert(i, (key, st));
                proof {
                    let s0 = old(self).ip_states@;
                    let s1 = self.ip_states@;
                    assert(s1 =~= s0.update(i as int, s1[i as int]));
                    assert(s1[i as int].0@ == ip@);
                    assert(st0 == ips_map(s0)[ip@]);
                    assert_maps_equal!(ips_map(s1),
                        ips_map(s0).insert(ip@, s1[i as int].1@), k => {
                        lemma_find_index_update(s0, i as int, s1[i as int], k);
                        lemma_find_index_props(s0, k);
                    });
                    assert(self@ =~= spec_record(old(self)@, ip@, response_size as u64).0);
                }
                blocked
            },
            None => {
                proof {
                    assert(self@ =~= spec_record(old(self)@, ip@, response_size as u64).0);
                }
                false
            },
        }
    }

    /// Drop every counter and every per-source record; the configuration
    /// stays.
    pub fn reset_stats(&mut self)
        ensures
            final(self)@ == (InspectorModel {
                domains: Map::empty(),
                ips: Map::empty(),
                ..old(self)@
            }),
    {
        self.domain_stats.clear();
        self.ip_states.clear();
        proof {
            assert_maps_equal!(domains_map(self.domain_stats@),
                Map::<Seq<char>, u64>::empty(), k => {});
            assert_maps_equal!(ips_map(self.ip_states@),
                Map::<Seq<char>, IpStateModel>::empty(), k => {});
        }
    }
}

} // verus!
