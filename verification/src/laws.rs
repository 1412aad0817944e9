//! Laws of the inspector: quantified properties that hold of every traffic
//! trace, proved once and for all against the decision specification in
//! [`crate::logic`].

use vstd::prelude::*;
use crate::logic::{
    blocks, spec_domain_count, spec_escape, spec_inspect, spec_record, BlockReason,
    InspectorModel, Verdict, sat_mul64,
};

verus! {

/// The per-domain counter never decreases: whatever one inspection does,
/// every domain's counter afterwards is at least what it was before.
pub proof fn lemma_domain_counter_monotone(
    m: InspectorModel,
    ip: Seq<char>,
    domain: Seq<char>,
    qtype: Option<Seq<char>>,
    size: u64,
    now: u64,
    d: Seq<char>,
)
    ensures
        spec_domain_count(spec_inspect(m, ip, domain, qtype, size, now).0.domains, d)
            >= spec_domain_count(m.domains, d),
{
}

/// Ban latching: while a temporal ban runs (the query arrives no later than
/// the ban's expiry), every query from that source is blocked.  The escape
/// hatch sits behind the ban check in the decision order, so it cannot fire
/// while the ban runs.
pub proof fn lemma_ban_latching(
    m: InspectorModel,
    ip: Seq<char>,
    domain: Seq<char>,
    qtype: Option<Seq<char>>,
    size: u64,
    now: u64,
    t: u64,
)
    requires
        m.ips.contains_key(ip),
        m.ips[ip].banned_until == Some(t),
        now <= t,
    ensures
        blocks(spec_inspect(m, ip, domain, qtype, size, now).1),
{
}

/// The escape hatch fires only for a blocked source that queries a name
/// different from its first query while that name is not hot.
pub proof fn lemma_escape_hatch_conditions(
    st: crate::logic::IpStateModel,
    domain: Seq<char>,
    is_high: bool,
)
    ensures
        spec_escape(st, domain, is_high).1 == Some(Verdict::Pass) ==> st.is_blocked && domain
            != st.first_query && !is_high,
{
}

/// Legitimacy is sticky: no single query can clear `is_legit` once it is
/// set.
pub proof fn lemma_legit_sticky(
    m: InspectorModel,
    ip: Seq<char>,
    domain: Seq<char>,
    qtype: Option<Seq<char>>,
    size: u64,
    now: u64,
    who: Seq<char>,
)
    requires
        m.ips.contains_key(who),
        m.ips[who].is_legit,
    ensures
        spec_inspect(m, ip, domain, qtype, size, now).0.ips.contains_key(who),
        spec_inspect(m, ip, domain, qtype, size, now).0.ips[who].is_legit,
{
}

/// First-contact hostility: a source whose first observed query targets a
/// domain already above the threshold is blocked on that first packet.
pub proof fn lemma_first_contact_hostility(
    m: InspectorModel,
    ip: Seq<char>,
    domain: Seq<char>,
    qtype: Option<Seq<char>>,
    size: u64,
    now: u64,
)
    requires
        !m.ips.contains_key(ip),
        spec_domain_count(m.domains, domain) > m.threshold_domain_reqs,
    ensures
        blocks(spec_inspect(m, ip, domain, qtype, size, now).1),
{
}

/// First-contact hostility, read at the moment of the query: a source
/// unknown so far whose query pushes the domain counter above the
/// threshold is blocked, and its fresh record starts hostile and not yet
/// legitimate.  The counter saturates at the largest machine word, so the
/// statement needs the counter to still have room; at the saturation point
/// a threshold equal to the largest machine word could no longer be
/// exceeded.
pub proof fn lemma_first_contact_state(
    m: InspectorModel,
    ip: Seq<char>,
    domain: Seq<char>,
    qtype: Option<Seq<char>>,
    size: u64,
    now: u64,
)
    requires
        !m.ips.contains_key(ip),
        spec_domain_count(m.domains, domain) < u64::MAX,
        spec_domain_count(m.domains, domain) + 1 > m.threshold_domain_reqs,
        crate::logic::spec_stateless(m.filters, qtype, size) is None,
    ensures
        blocks(spec_inspect(m, ip, domain, qtype, size, now).1),
        spec_inspect(m, ip, domain, qtype, size, now).0.ips[ip] == crate::logic::spec_new_state(
            domain,
            size,
            now,
            true,
        ),
        spec_inspect(m, ip, domain, qtype, size, now).0.ips[ip].is_blocked,
        !spec_inspect(m, ip, domain, qtype, size, now).0.ips[ip].is_legit,
        spec_inspect(m, ip, domain, qtype, size, now).0.ips[ip].first_query == domain,
{
}

/// Escalation: when the rate limiter bans, the first ban of a source uses
/// the first-offense duration and every later ban the second-offense
/// duration, and the offense count grows by one.
pub proof fn lemma_escalation(
    m: InspectorModel,
    ip: Seq<char>,
    domain: Seq<char>,
    qtype: Option<Seq<char>>,
    size: u64,
    now: u64,
)
    requires
        spec_inspect(m, ip, domain, qtype, size, now).1 == Verdict::Block(BlockReason::RateLimit),
    ensures
        m.ips.contains_key(ip),
        spec_inspect(m, ip, domain, qtype, size, now).0.ips[ip].offense_count == m.ips[ip].offense_count.saturating_add(
            1,
        ),
        spec_inspect(m, ip, domain, qtype, size, now).0.ips[ip].banned_until == Some(
            now.saturating_add(
                sat_mul64(
                    if m.ips[ip].offense_count == 0 {
                        m.rate_limit.first_offense_duration_secs
                    } else {
                        m.rate_limit.second_offense_duration_secs
                    },
                    1000,
                ),
            ),
        ),
{
}

/// RRL decoupling: a drop decided by response rate limiting never latches
/// the hostile flag.
pub proof fn lemma_rrl_decoupling(
    m: InspectorModel,
    ip: Seq<char>,
    domain: Seq<char>,
    qtype: Option<Seq<char>>,
    size: u64,
    now: u64,
)
    requires
        spec_inspect(m, ip, domain, qtype, size, now).1 == Verdict::Block(
            BlockReason::ResponseRate,
        ),
    ensures
        m.ips.contains_key(ip),
        !spec_inspect(m, ip, domain, qtype, size, now).0.ips[ip].is_blocked,
{
}

/// Entropy safety: the random-subdomain detector never fires for a source
/// with at most ten distinct names, nor for a TCP-validated source.
pub proof fn lemma_entropy_safety(
    m: InspectorModel,
    ip: Seq<char>,
    domain: Seq<char>,
    qtype: Option<Seq<char>>,
    size: u64,
    now: u64,
)
    requires
        spec_inspect(m, ip, domain, qtype, size, now).1 == Verdict::Block(BlockReason::Entropy),
    ensures
        m.ips.contains_key(ip),
        spec_inspect(m, ip, domain, qtype, size, now).0.ips[ip].unique_domains.len() > 10,
        !spec_inspect(m, ip, domain, qtype, size, now).0.ips[ip].tcp_validated,
        !m.ips[ip].tcp_validated,
{
}

/// Amplification safety: accounting a response reports a block only once
/// the cumulative response bytes exceed the 10 kB floor.
pub proof fn lemma_amplification_floor(m: InspectorModel, ip: Seq<char>, size: u64)
    ensures
        spec_record(m, ip, size).1 ==> spec_record(m, ip, size).0.ips[ip].total_response_bytes
            > 10000,
{
}

} // verus!
