//! The wire side of the firewall: parsing captured frames and validating
//! capture-interface names.
//!
//! [`parse_dns_packet`] turns a raw link-layer frame (Ethernet, optionally
//! one VLAN tag, then IPv4 or IPv6, then UDP or TCP, then DNS) into a
//! structured query record, or nothing when the frame is not a well-formed
//! DNS query.  The accepted wire shapes are written down as spec functions
//! over byte sequences ([`spec_parse_frame`] and its layers), and the
//! executable parser is proved to follow them exactly.  Queried names are
//! lowercased; a name whose labels hold anything but printable ASCII is
//! rejected as malformed, as are compressed names, truncated headers and
//! DNS responses.  Deliberately outside the grammar, and so dropped
//! unparsed: frames with more than one VLAN tag, IPv6 packets that carry
//! extension headers before the transport header, and query types without
//! a mnemonic in [`spec_qname`].

use vstd::prelude::*;
use vstd::string::StrSliceExecFns;
use crate::logic::{blocks, spec_inspect, spec_mark_tcp, PacketInspector};

verus! {

/// Why an interface name was rejected.
#[derive(Debug, Clone, Copy, PartialEq, Eq, Structural)]
pub enum InterfaceError {
    /// The name is empty.
    Empty,
    /// The name is longer than 256 characters.
    TooLong,
    /// The name holds a character outside letters, digits, `_`, `-`, `.`
    /// and `:`.
    InvalidChar,
}

/// A character allowed in a capture-interface name.
pub open spec fn is_iface_char(c: char) -> bool {
    let u = c as u32;
    (48 <= u <= 57) || (65 <= u <= 90) || (97 <= u <= 122) || u == 95 || u == 45 || u == 46 || u
        == 58
}

/// A well-formed capture-interface name: between 1 and 256 characters, all
/// from the allowed class.
pub open spec fn spec_valid_iface(s: Seq<char>) -> bool {
    1 <= s.len() <= 256 && (forall|i: int| 0 <= i < s.len() ==> is_iface_char(#[trigger] s[i]))
}

/// Validate an interface name before it is handed to the capture library.
pub fn validate_interface_name(name: &str) -> (r: Result<(), InterfaceError>)
    ensures
        r is Ok <==> spec_valid_iface(name@),
        name@.len() == 0 ==> r == Err::<(), InterfaceError>(InterfaceError::Empty),
{
    let n = name.unicode_len();
    if n == 0 {
        return Err(InterfaceError::Empty);
    }
    if n > 256 {
        return Err(InterfaceError::TooLong);
    }
    let mut i: usize = 0;
    while i < n
        invariant
            n == name@.len(),
            i <= n,
            forall|j: int| 0 <= j < i ==> is_iface_char(#[trigger] name@[j]),
        decreases n - i,
    {
        let c = name.get_char(i);
        let u = c as u32;
        if !((48 <= u && u <= 57) || (65 <= u && u <= 90) || (97 <= u && u <= 122) || u == 95 || u
            == 45 || u == 46 || u == 58) {
            return Err(InterfaceError::InvalidChar);
        }
        i += 1;
    }
    Ok(())
}

/// The characters an ASCII byte sequence reads as.
pub open spec fn chars_of(bs: Seq<u8>) -> Seq<char> {
    Seq::new(bs.len(), |i: int| bs[i] as char)
}

/// Build a string from printable ASCII bytes.
///
/// Relies on `String::from_utf8`: ASCII bytes are valid UTF-8 and decode to
/// exactly the code points with the same values.
#[verifier::external_body]
fn ascii_to_string(v: Vec<u8>) -> (r: String)
    requires
        forall|i: int| 0 <= i < v@.len() ==> v@[i] < 128,
    ensures
        r@ == chars_of(v@),
{
    match String::from_utf8(v) {
        Ok(s) => s,
        Err(_) => String::new(),
    }
}

/// A parsed DNS query record.
#[derive(Debug, Clone, PartialEq, Eq)]
pub struct ParsedDnsPacket {
    pub source_ip: String,
    pub domain: String,
    pub query_type: String,
    pub is_tcp: bool,
}

/// Ghost image of a parsed DNS query record.
#[verifier::ext_equal]
pub ghost struct ParsedModel {
    pub source_ip: Seq<char>,
    pub domain: Seq<char>,
    pub query_type: Seq<char>,
    pub is_tcp: bool,
}

impl View for ParsedDnsPacket {
    type V = ParsedModel;

    open spec fn view(&self) -> ParsedModel {
        ParsedModel {
            source_ip: self.source_ip@,
            domain: self.domain@,
            query_type: self.query_type@,
            is_tcp: self.is_tcp,
        }
    }
}

/// What a parsed frame holds before its byte strings become `String`s.
#[verifier::ext_equal]
pub ghost struct FrameModel {
    pub src_ip: Seq<u8>,
    pub domain: Seq<u8>,
    pub qtype: Seq<char>,
    pub is_tcp: bool,
}

/// A big-endian 16-bit field.
pub open spec fn be16s(d: Seq<u8>, i: int) -> int {
    d[i] * 256 + d[i + 1]
}

/// Ethernet layer: the offset of the network header and whether it is
/// IPv4; one VLAN tag is accepted.
pub open spec fn spec_eth(d: Seq<u8>) -> Option<(int, bool)> {
    if d.len() < 14 {
        None
    } else {
        let et = be16s(d, 12);
        if et == 0x0800 {
            Some((14int, true))
        } else if et == 0x86DD {
            Some((14int, false))
        } else if et == 0x8100 {
            if d.len() < 18 {
                None
            } else {
                let et2 = be16s(d, 16);
                if et2 == 0x0800 {
                    Some((18int, true))
                } else if et2 == 0x86DD {
                    Some((18int, false))
                } else {
                    None
                }
            }
        } else {
            None
        }
    }
}

/// Decimal ASCII of a byte.
pub open spec fn spec_dec(x: u8) -> Seq<u8> {
    if x >= 100 {
        seq![(48 + x / 100) as u8, (48 + (x / 10) % 10) as u8, (48 + x % 10) as u8]
    } else if x >= 10 {
        seq![(48 + x / 10) as u8, (48 + x % 10) as u8]
    } else {
        seq![(48 + x) as u8]
    }
}

/// Dotted-quad text of an IPv4 source address.
pub open spec fn spec_ipv4_str(a: u8, b: u8, c: u8, d: u8) -> Seq<u8> {
    spec_dec(a) + seq![46u8] + spec_dec(b) + seq![46u8] + spec_dec(c) + seq![46u8] + spec_dec(d)
}

/// IPv4 layer: the offset of the transport header, whether it is TCP, and
/// the source address text.
pub open spec fn spec_ipv4(d: Seq<u8>, off: int) -> Option<(int, bool, Seq<u8>)> {
    if off + 20 > d.len() {
        None
    } else if d[off] / 16 != 4 {
        None
    } else {
        let ihl = (d[off] % 16) as int;
        if ihl < 5 {
            None
        } else if off + ihl * 4 > d.len() {
            None
        } else {
            let proto = d[off + 9];
            if proto != 6 && proto != 17 {
                None
            } else {
                Some(
                    (
                        off + ihl * 4,
                        proto == 6,
                        spec_ipv4_str(d[off + 12], d[off + 13], d[off + 14], d[off + 15]),
                    ),
                )
            }
        }
    }
}

/// Lowercase hexadecimal digit.
pub open spec fn spec_hex_digit(x: int) -> u8 {
    if x < 10 {
        (48 + x) as u8
    } else {
        (87 + x) as u8
    }
}

/// Lowercase hexadecimal text of one address group, without leading
/// zeros.
pub open spec fn spec_hex(g: u16) -> Seq<u8> {
    if g >= 0x1000 {
        seq![
            spec_hex_digit(g as int / 0x1000),
            spec_hex_digit((g as int / 0x100) % 16),
            spec_hex_digit((g as int / 16) % 16),
            spec_hex_digit(g as int % 16),
        ]
    } else if g >= 0x100 {
        seq![
            spec_hex_digit(g as int / 0x100),
            spec_hex_digit((g as int / 16) % 16),
            spec_hex_digit(g as int % 16),
        ]
    } else if g >= 0x10 {
        seq![spec_hex_digit(g as int / 16), spec_hex_digit(g as int % 16)]
    } else {
        seq![spec_hex_digit(g as int)]
    }
}

/// The eight 16-bit groups of an IPv6 source address.
pub open spec fn spec_groups(d: Seq<u8>, off: int) -> Seq<u16> {
    Seq::new(8, |i: int| be16s(d, off + 8 + 2 * i) as u16)
}

/// Length of the run of zero groups starting at `i`.
pub open spec fn spec_run_len(gs: Seq<u16>, i: int) -> int
    decreases gs.len() - i when 0 <= i <= gs.len()
{
    if i < 0 || i >= gs.len() || gs[i] != 0 {
        0
    } else {
        1 + spec_run_len(gs, i + 1)
    }
}

/// Start and length of the longest run of zero groups at or after `i`,
/// leftmost on ties.
pub open spec fn spec_best(gs: Seq<u16>, i: int) -> (int, int)
    decreases gs.len() - i when 0 <= i <= gs.len()
{
    if i < 0 || i >= gs.len() {
        (gs.len() as int, 0)
    } else {
        let cur = spec_run_len(gs, i);
        let rest = spec_best(gs, i + 1);
        if cur >= rest.1 {
            (i, cur)
        } else {
            rest
        }
    }
}

/// Groups joined with `:`.
pub open spec fn spec_join(gs: Seq<u16>) -> Seq<u8>
    decreases gs.len(),
{
    if gs.len() == 0 {
        Seq::empty()
    } else if gs.len() == 1 {
        spec_hex(gs[0])
    } else {
        spec_join(gs.drop_last()) + seq![58u8] + spec_hex(gs.last())
    }
}

/// Text of an IPv6 source address: lowercase groups, with the longest run
/// of at least two zero groups compressed to `::`, the leftmost on ties.
pub open spec fn spec_ipv6_str(gs: Seq<u16>) -> Seq<u8> {
    let b = spec_best(gs, 0);
    if b.1 >= 2 {
        spec_join(gs.subrange(0, b.0)) + seq![58u8, 58u8] + spec_join(
            gs.subrange(b.0 + b.1, gs.len() as int),
        )
    } else {
        spec_join(gs)
    }
}

/// IPv6 layer: fixed 40-byte header, no extension headers.
pub open spec fn spec_ipv6(d: Seq<u8>, off: int) -> Option<(int, bool, Seq<u8>)> {
    if off + 40 > d.len() {
        None
    } else if d[off] / 16 != 6 {
        None
    } else {
        let nh = d[off + 6];
        if nh != 6 && nh != 17 {
            None
        } else {
            Some((off + 40, nh == 6, spec_ipv6_str(spec_groups(d, off))))
        }
    }
}

/// Transport layer: the offset of the DNS message.  UDP has a fixed
/// 8-byte header; TCP's header length is taken from the data offset, and
/// the 2-byte DNS length prefix is skipped when present.
pub open spec fn spec_transport(d: Seq<u8>, off: int, is_tcp: bool) -> Option<int> {
    if is_tcp {
        if off + 20 > d.len() {
            None
        } else {
            let doff = (d[off + 12] / 16) as int * 4;
            if doff < 20 {
                None
            } else if off + doff > d.len() {
                None
            } else {
                let p = off + doff;
                if d.len() - p > 2 {
                    Some(p + 2)
                } else {
                    Some(p)
                }
            }
        }
    } else {
        if off + 8 > d.len() {
            None
        } else {
            Some(off + 8)
        }
    }
}

/// An ASCII byte lowercased.
pub open spec fn spec_lower(b: u8) -> u8 {
    if 65 <= b <= 90 {
        (b + 32) as u8
    } else {
        b
    }
}

/// A label byte must be printable ASCII and no dot.
pub open spec fn label_ok(l: Seq<u8>) -> bool {
    forall|i: int| 0 <= i < l.len() ==> 33 <= #[trigger] l[i] <= 126 && l[i] != 46
}

/// A label lowercased.
pub open spec fn lower_seq(l: Seq<u8>) -> Seq<u8> {
    Seq::new(l.len(), |i: int| spec_lower(l[i]))
}

/// An uncompressed DNS name read from `pos`: lowercased labels joined with
/// dots, and the position just past the terminating zero byte.  Compressed
/// names, overlong labels and labels with bytes outside printable ASCII
/// are rejected.
pub open spec fn spec_name_from(d: Seq<u8>, pos: int, first: bool) -> Option<(Seq<u8>, int)>
    decreases d.len() - pos when 0 <= pos <= d.len()
{
    if pos < 0 || pos >= d.len() {
        None
    } else {
        let l = d[pos] as int;
        if l == 0 {
            Some((Seq::empty(), pos + 1))
        } else if l >= 64 {
            None
        } else if pos + 1 + l > d.len() {
            None
        } else {
            let label = d.subrange(pos + 1, pos + 1 + l);
            if !label_ok(label) {
                None
            } else {
                match spec_name_from(d, pos + 1 + l, false) {
                    None => None,
                    Some(r) => Some(
                        (
                            (if first {
                                lower_seq(label)
                            } else {
                                seq![46u8] + lower_seq(label)
                            }) + r.0,
                            r.1,
                        ),
                    ),
                }
            }
        }
    }
}

/// The mnemonic of a query type number, for the types the firewall
/// understands (the classic RFC 1035 set, the common modern types, DNSSEC
/// records and the transfer types); anything else is rejected as
/// malformed.
pub open spec fn spec_qname(t: int) -> Option<Seq<char>> {
    if t == 1 {
        Some("A"@)
    } else if t == 2 {
        Some("NS"@)
    } else if t == 3 {
        Some("MD"@)
    } else if t == 4 {
        Some("MF"@)
    } else if t == 5 {
        Some("CNAME"@)
    } else if t == 6 {
        Some("SOA"@)
    } else if t == 7 {
        Some("MB"@)
    } else if t == 8 {
        Some("MG"@)
    } else if t == 9 {
        Some("MR"@)
    } else if t == 10 {
        Some("NULL"@)
    } else if t == 11 {
        Some("WKS"@)
    } else if t == 12 {
        Some("PTR"@)
    } else if t == 13 {
        Some("HINFO"@)
    } else if t == 14 {
        Some("MINFO"@)
    } else if t == 15 {
        Some("MX"@)
    } else if t == 16 {
        Some("TXT"@)
    } else if t == 28 {
        Some("AAAA"@)
    } else if t == 33 {
        Some("SRV"@)
    } else if t == 43 {
        Some("DS"@)
    } else if t == 46 {
        Some("RRSIG"@)
    } else if t == 47 {
        Some("NSEC"@)
    } else if t == 48 {
        Some("DNSKEY"@)
    } else if t == 251 {
        Some("IXFR"@)
    } else if t == 252 {
        Some("AXFR"@)
    } else if t == 253 {
        Some("MAILB"@)
    } else if t == 254 {
        Some("MAILA"@)
    } else if t == 255 {
        Some("ANY"@)
    } else {
        None
    }
}

/// DNS layer: a query (QR clear) with at least one question; yields the
/// first question's name and type mnemonic.
pub open spec fn spec_dns(d: Seq<u8>, off: int) -> Option<(Seq<u8>, Seq<char>)> {
    if off + 12 > d.len() {
        None
    } else if d[off + 2] >= 128 {
        None
    } else if be16s(d, off + 4) < 1 {
        None
    } else {
        match spec_name_from(d, off + 12, true) {
            None => None,
            Some(nr) => if nr.1 + 4 > d.len() {
                None
            } else {
                match spec_qname(be16s(d, nr.1)) {
                    None => None,
                    Some(q) => Some((nr.0, q)),
                }
            },
        }
    }
}

/// The whole frame grammar: Ethernet, IPv4 or IPv6, UDP or TCP, DNS
/// query.
pub open spec fn spec_parse_frame(d: Seq<u8>) -> Option<FrameModel> {
    match spec_eth(d) {
        None => None,
        Some(e) => {
            match (if e.1 {
                spec_ipv4(d, e.0)
            } else {
                spec_ipv6(d, e.0)
            }) {
                None => None,
                Some(n) => match spec_transport(d, n.0, n.1) {
                    None => None,
                    Some(doff) => match spec_dns(d, doff) {
                        None => None,
                        Some(q) => Some(
                            FrameModel { src_ip: n.2, domain: q.0, qtype: q.1, is_tcp: n.1 },
                        ),
                    },
                },
            }
        },
    }
}

fn be16(data: &[u8], i: usize) -> (r: u16)
    requires
        i + 1 < data@.len(),
    ensures
        r as int == be16s(data@, i as int),
{
    (data[i] as u16) * 256 + (data[i + 1] as u16)
}

fn parse_eth(data: &[u8]) -> (r: Option<(usize, bool)>)
    ensures
        (match spec_eth(data@) {
            None => r is None,
            Some(e) => r is Some && r.unwrap().0 as int == e.0 && r.unwrap().0 <= data@.len()
                && r.unwrap().1 == e.1,
        }),
{
    if data.len() < 14 {
        return None;
    }
    let et = be16(data, 12);
    if et == 0x0800 {
        Some((14, true))
    } else if et == 0x86DD {
        Some((14, false))
    } else if et == 0x8100 {
        if data.len() < 18 {
            return None;
        }
        let et2 = be16(data, 16);
        if et2 == 0x0800 {
            Some((18, true))
        } else if et2 == 0x86DD {
            Some((18, false))
        } else {
            None
        }
    } else {
        None
    }
}

/// Append the decimal text of one byte.
fn push_dec(out: &mut Vec<u8>, x: u8)
    requires
        forall|k: int| 0 <= k < old(out)@.len() ==> #[trigger] old(out)@[k] < 128,
    ensures
        final(out)@ == old(out)@ + spec_dec(x),
        forall|k: int| 0 <= k < final(out)@.len() ==> #[trigger] final(out)@[k] < 128,
{
    if x >= 100 {
        out.push(48 + x / 100);
        out.push(48 + (x / 10) % 10);
        out.push(48 + x % 10);
    } else if x >= 10 {
        out.push(48 + x / 10);
        out.push(48 + x % 10);
    } else {
        out.push(48 + x);
    }
    proof {
        assert(out@ =~= old(out)@ + spec_dec(x));
    }
}

fn parse_ipv4(data: &[u8], off: usize) -> (r: Option<(usize, bool, Vec<u8>)>)
    requires
        off <= data@.len(),
    ensures
        (match spec_ipv4(data@, off as int) {
            None => r is None,
            Some(n) => r is Some && r.unwrap().0 as int == n.0 && r.unwrap().0 <= data@.len()
                && r.unwrap().1 == n.1 && r.unwrap().2@ == n.2 && (forall|k: int|
                0 <= k < r.unwrap().2@.len() ==> #[trigger] r.unwrap().2@[k] < 128),
        }),
{
    if data.len() - off < 20 {
        return None;
    }
    if data[off] / 16 != 4 {
        return None;
    }
    let ihl = (data[off] % 16) as usize;
    if ihl < 5 {
        return None;
    }
    if data.len() - off < ihl * 4 {
        return None;
    }
    let proto = data[off + 9];
    if proto != 6 && proto != 17 {
        return None;
    }
    let mut ip: Vec<u8> = Vec::new();
    push_dec(&mut ip, data[off + 12]);
    ip.push(46);
    push_dec(&mut ip, data[off + 13]);
    ip.push(46);
    push_dec(&mut ip, data[off + 14]);
    ip.push(46);
    push_dec(&mut ip, data[off + 15]);
    proof {
        assert(ip@ =~= spec_ipv4_str(
            data@[off + 12],
            data@[off + 13],
            data@[off + 14],
            data@[off + 15],
        ));
    }
    Some((off + ihl * 4, proto == 6, ip))
}

fn hexd(x: u16) -> (r: u8)
    requires
        x < 16,
    ensures
        r == spec_hex_digit(x as int),
        r < 128,
{
    if x < 10 {
        48 + x as u8
    } else {
        87 + x as u8
    }
}

/// Append the lowercase hexadecimal text of one group.
fn push_hex(out: &mut Vec<u8>, g: u16)
    requires
        forall|k: int| 0 <= k < old(out)@.len() ==> #[trigger] old(out)@[k] < 128,
    ensures
        final(out)@ == old(out)@ + spec_hex(g),
        forall|k: int| 0 <= k < final(out)@.len() ==> #[trigger] final(out)@[k] < 128,
{
    if g >= 0x1000 {
        out.push(hexd(g / 0x1000));
        out.push(hexd((g / 0x100) % 16));
        out.push(hexd((g / 16) % 16));
        out.push(hexd(g % 16));
    } else if g >= 0x100 {
        out.push(hexd(g / 0x100));
        out.push(hexd((g / 16) % 16));
        out.push(hexd(g % 16));
    } else if g >= 0x10 {
        out.push(hexd(g / 16));
        out.push(hexd(g % 16));
    } else {
        out.push(hexd(g));
    }
    proof {
        assert(out@ =~= old(out)@ + spec_hex(g));
    }
}

/// Append the groups `from..to` joined with `:`.
fn push_join(out: &mut Vec<u8>, gs: &Vec<u16>, from: usize, to: usize)
    requires
        from <= to <= gs@.len(),
        forall|k: int| 0 <= k < old(out)@.len() ==> #[trigger] old(out)@[k] < 128,
    ensures
        final(out)@ == old(out)@ + spec_join(gs@.subrange(from as int, to as int)),
        forall|k: int| 0 <= k < final(out)@.len() ==> #[trigger] final(out)@[k] < 128,
{
    proof {
        assert(gs@.subrange(from as int, from as int) =~= Seq::<u16>::empty());
        assert(old(out)@ + Seq::<u8>::empty() =~= old(out)@);
    }
    let mut k: usize = from;
    while k < to
        invariant
            from <= k <= to <= gs@.len(),
            out@ == old(out)@ + spec_join(gs@.subrange(from as int, k as int)),
            forall|j: int| 0 <= j < out@.len() ==> #[trigger] out@[j] < 128,
        decreases to - k,
    {
        let ghost pre = gs@.subrange(from as int, k as int);
        let ghost post = gs@.subrange(from as int, k as int + 1);
        proof {
            assert(post.drop_last() =~= pre);
            assert(post.last() == gs@[k as int]);
        }
        if k > from {
            out.push(58);
        }
        push_hex(out, gs[k]);
        proof {
            if k == from {
                assert(pre.len() == 0 && post.len() == 1);
                assert(spec_join(post) == spec_hex(gs@[k as int]));
                assert(out@ =~= old(out)@ + spec_join(post));
            } else {
                assert(out@ =~= old(out)@ + (spec_join(pre) + seq![58u8] + spec_hex(
                    gs@[k as int],
                )));
            }
        }
        k += 1;
    }
}

/// Length of the zero run starting at `i`.
fn run_len_at(gs: &Vec<u16>, i: usize) -> (r: usize)
    requires
        i <= gs@.len(),
    ensures
        r as int == spec_run_len(gs@, i as int),
{
    let mut j: usize = i;
    while j < gs.len() && gs[j] == 0
        invariant
            i <= j <= gs@.len(),
            spec_run_len(gs@, i as int) == (j - i) + spec_run_len(gs@, j as int),
        decreases gs@.len() - j,
    {
        j += 1;
    }
    j - i
}

proof fn lemma_run_len_bounds(gs: Seq<u16>, i: int)
    requires
        0 <= i <= gs.len(),
    ensures
        0 <= spec_run_len(gs, i) <= gs.len() - i,
    decreases gs.len() - i,
{
    if i < gs.len() && gs[i] == 0 {
        lemma_run_len_bounds(gs, i + 1);
    }
}

proof fn lemma_best_props(gs: Seq<u16>, i: int)
    requires
        0 <= i <= gs.len(),
    ensures
        i <= spec_best(gs, i).0 <= gs.len(),
        0 <= spec_best(gs, i).1,
        spec_best(gs, i).0 + spec_best(gs, i).1 <= gs.len(),
    decreases gs.len() - i,
{
    if i < gs.len() {
        lemma_run_len_bounds(gs, i);
        lemma_best_props(gs, i + 1);
    }
}

fn parse_ipv6(data: &[u8], off: usize) -> (r: Option<(usize, bool, Vec<u8>)>)
    requires
        off <= data@.len(),
    ensures
        (match spec_ipv6(data@, off as int) {
            None => r is None,
            Some(n) => r is Some && r.unwrap().0 as int == n.0 && r.unwrap().0 <= data@.len()
                && r.unwrap().1 == n.1 && r.unwrap().2@ == n.2 && (forall|k: int|
                0 <= k < r.unwrap().2@.len() ==> #[trigger] r.unwrap().2@[k] < 128),
        }),
{
    let n = data.len();
    if n - off < 40 {
        return None;
    }
    if data[off] / 16 != 6 {
        return None;
    }
    let nh = data[off + 6];
    if nh != 6 && nh != 17 {
        return None;
    }
    let mut gs: Vec<u16> = Vec::new();
    let mut gi: usize = 0;
    while gi < 8
        invariant
            n == data@.len(),
            off + 40 <= n,
            gi <= 8,
            gs@.len() == gi,
            forall|k: int| 0 <= k < gi ==> gs@[k] == spec_groups(data@, off as int)[k],
        decreases 8 - gi,
    {
        let g = be16(data, off + 8 + 2 * gi);
        gs.push(g);
        gi += 1;
    }
    proof {
        assert(gs@ =~= spec_groups(data@, off as int));
    }
    let mut bs: usize = 8;
    let mut bl: usize = 0;
    let mut i: usize = 8;
    while i > 0
        invariant
            gs@.len() == 8,
            i <= 8,
            bs as int == spec_best(gs@, i as int).0,
            bl as int == spec_best(gs@, i as int).1,
        decreases i,
    {
        i -= 1;
        let cur = run_len_at(&gs, i);
        proof {
            lemma_run_len_bounds(gs@, i as int);
        }
        if cur >= bl {
            bs = i;
            bl = cur;
        }
    }
    proof {
        lemma_best_props(gs@, 0);
    }
    let mut ip: Vec<u8> = Vec::new();
    if bl >= 2 {
        push_join(&mut ip, &gs, 0, bs);
        ip.push(58);
        ip.push(58);
        let ghost mid = ip@;
        push_join(&mut ip, &gs, bs + bl, 8);
        proof {
            assert(mid =~= spec_join(gs@.subrange(0, bs as int)) + seq![58u8, 58u8]);
            assert(ip@ =~= spec_ipv6_str(gs@));
        }
    } else {
        push_join(&mut ip, &gs, 0, 8);
        proof {
            assert(gs@.subrange(0, 8) =~= gs@);
            assert(ip@ =~= spec_ipv6_str(gs@));
        }
    }
    Some((off + 40, nh == 6, ip))
}

fn parse_transport(data: &[u8], off: usize, is_tcp: bool) -> (r: Option<usize>)
    requires
        off <= data@.len(),
    ensures
        (match spec_transport(data@, off as int, is_tcp) {
            None => r is None,
            Some(p) => r is Some && r.unwrap() as int == p && r.unwrap() <= data@.len(),
        }),
{
    if is_tcp {
        if data.len() - off < 20 {
            return None;
        }
        let doff = ((data[off + 12] / 16) as usize) * 4;
        if doff < 20 {
            return None;
        }
        if data.len() - off < doff {
            return None;
        }
        let p = off + doff;
        if data.len() - p > 2 {
            Some(p + 2)
        } else {
            Some(p)
        }
    } else {
        if data.len() - off < 8 {
            return None;
        }
        Some(off + 8)
    }
}

/// Read a DNS name; returns the lowercased dotted text and the position
/// just past it.
#[verifier::loop_isolation(false)]
fn parse_name(data: &[u8], pos0: usize) -> (r: Option<(Vec<u8>, usize)>)
    requires
        pos0 <= data@.len(),
    ensures
        (match spec_name_from(data@, pos0 as int, true) {
            None => r is None,
            Some(n) => r is Some && r.unwrap().0@ == n.0 && r.unwrap().1 as int == n.1
                && r.unwrap().1 <= data@.len() && (forall|k: int|
                0 <= k < r.unwrap().0@.len() ==> 33 <= #[trigger] r.unwrap().0@[k] <= 126),
        }),
{
    let dlen = data.len();
    let mut name: Vec<u8> = Vec::new();
    let mut pos: usize = pos0;
    let mut first: bool = true;
    proof {
        if spec_name_from(data@, pos0 as int, true) is Some {
            let n = spec_name_from(data@, pos0 as int, true).unwrap();
            assert(name@ + n.0 =~= n.0);
        }
    }
    loop
        invariant
            dlen == data@.len(),
            pos <= dlen,
            pos0 <= dlen,
            forall|k: int| 0 <= k < name@.len() ==> 33 <= #[trigger] name@[k] <= 126,
            (match spec_name_from(data@, pos as int, first) {
                None => spec_name_from(data@, pos0 as int, true) is None,
                Some(n) => spec_name_from(data@, pos0 as int, true) == Some(
                    (name@ + n.0, n.1),
                ),
            }),
        decreases data@.len() - pos,
    {
        if pos >= dlen {
            return None;
        }
        let l = data[pos];
        if l == 0 {
            proof {
                let n = spec_name_from(data@, pos as int, first).unwrap();
                assert(n.0 =~= Seq::<u8>::empty());
                assert(name@ + n.0 =~= name@);
            }
            return Some((name, pos + 1));
        }
        if l >= 64 {
            return None;
        }
        let llen = l as usize;
        if llen > dlen - pos - 1 {
            return None;
        }
        let ghost label = data@.subrange(pos + 1, pos + 1 + llen as int);
        let ghost name_in = name@;
        if !first {
            name.push(46);
        }
        let ghost sep_done = name@;
        let mut j: usize = 0;
        while j < llen
            invariant
                dlen == data@.len(),
                pos + 1 + llen <= dlen,
                j <= llen,
                label == data@.subrange(pos + 1, pos + 1 + llen as int),
                name@ == sep_done + lower_seq(label.subrange(0, j as int)),
                forall|k: int| 0 <= k < j ==> 33 <= #[trigger] label[k] <= 126 && label[k] != 46,
                forall|k: int| 0 <= k < sep_done.len() ==> 33 <= #[trigger] sep_done[k] <= 126,
                forall|k: int| 0 <= k < name@.len() ==> 33 <= #[trigger] name@[k] <= 126,
            decreases llen - j,
        {
            let b = data[pos + 1 + j];
            if b < 33 || b > 126 || b == 46 {
                proof {
                    assert(label[j as int] == b);
                    assert(!label_ok(label));
                    assert(spec_name_from(data@, pos as int, first) is None);
                    assert(spec_name_from(data@, pos0 as int, true) is None);
                }
                return None;
            }
            let lb = if b >= 65 && b <= 90 {
                b + 32
            } else {
                b
            };
            name.push(lb);
            proof {
                assert(label[j as int] == b);
                assert(lower_seq(label.subrange(0, j as int + 1)) =~= lower_seq(
                    label.subrange(0, j as int),
                ).push(spec_lower(b)));
                assert(name@ =~= sep_done + lower_seq(label.subrange(0, j as int + 1)));
            }
            j += 1;
        }
        proof {
            assert(label.subrange(0, llen as int) =~= label);
            assert(label_ok(label));
            assert(name@ == sep_done + lower_seq(label));
            if first {
                assert(name@ =~= name_in + lower_seq(label));
            } else {
                assert(sep_done =~= name_in + seq![46u8]);
                assert(name@ =~= name_in + (seq![46u8] + lower_seq(label)));
            }
            let next = spec_name_from(data@, pos + 1 + llen as int, false);
            match next {
                None => {},
                Some(n2) => {
                    let piece = if first {
                        lower_seq(label)
                    } else {
                        seq![46u8] + lower_seq(label)
                    };
                    assert(spec_name_from(data@, pos as int, first) == Some(
                        (piece + n2.0, n2.1),
                    ));
                    if spec_name_from(data@, pos0 as int, true) is Some {
                        assert((name_in + piece) + n2.0 =~= name_in + (piece + n2.0));
                    }
                },
            }
        }
        pos = pos + 1 + llen;
        first = false;
    }
}

fn qtype_str(t: u16) -> (r: Option<&'static str>)
    ensures
        (match spec_qname(t as int) {
            None => r is None,
            Some(q) => r is Some && r.unwrap()@ == q,
        }),
{
    match t {
        1 => Some("A"),
        2 => Some("NS"),
        3 => Some("MD"),
        4 => Some("MF"),
        5 => Some("CNAME"),
        6 => Some("SOA"),
        7 => Some("MB"),
        8 => Some("MG"),
        9 => Some("MR"),
        10 => Some("NULL"),
        11 => Some("WKS"),
        12 => Some("PTR"),
        13 => Some("HINFO"),
        14 => Some("MINFO"),
        15 => Some("MX"),
        16 => Some("TXT"),
        28 => Some("AAAA"),
        33 => Some("SRV"),
        43 => Some("DS"),
        46 => Some("RRSIG"),
        47 => Some("NSEC"),
        48 => Some("DNSKEY"),
        251 => Some("IXFR"),
        252 => Some("AXFR"),
        253 => Some("MAILB"),
        254 => Some("MAILA"),
        255 => Some("ANY"),
        _ => None,
    }
}

fn parse_dns(data: &[u8], off: usize) -> (r: Option<(Vec<u8>, &'static str)>)
    requires
        off <= data@.len(),
    ensures
        (match spec_dns(data@, off as int) {
            None => r is None,
            Some(q) => r is Some && r.unwrap().0@ == q.0 && r.unwrap().1@ == q.1 && (forall|
                k: int,
            |
                0 <= k < r.unwrap().0@.len() ==> #[trigger] r.unwrap().0@[k] < 128),
        }),
{
    if data.len() - off < 12 {
        return None;
    }
    if data[off + 2] >= 128 {
        return None;
    }
    if be16(data, off + 4) < 1 {
        return None;
    }
    let nr = parse_name(data, off + 12);
    let (name, end) = match nr {
        Some(v) => v,
        None => {
            return None;
        },
    };
    if data.len() - end < 4 {
        return None;
    }
    let t = be16(data, end);
    let q = match qtype_str(t) {
        Some(s) => s,
        None => {
            return None;
        },
    };
    Some((name, q))
}

/// Parse a raw link-layer frame into a DNS query record; anything that is
/// not a well-formed DNS query yields nothing.  Follows
/// [`spec_parse_frame`].
pub fn parse_dns_packet(data: &[u8]) -> (r: Option<ParsedDnsPacket>)
    ensures
        r is Some <==> spec_parse_frame(data@) is Some,
        r is Some ==> r.unwrap()@ == ({
            let fm = spec_parse_frame(data@).unwrap();
            ParsedModel {
                source_ip: chars_of(fm.src_ip),
                domain: chars_of(fm.domain),
                query_type: fm.qtype,
                is_tcp: fm.is_tcp,
            }
        }),
{
    let eth = parse_eth(data);
    let (net_off, is_v4) = match eth {
        Some(e) => e,
        None => {
            return None;
        },
    };
    let net = if is_v4 {
        parse_ipv4(data, net_off)
    } else {
        parse_ipv6(data, net_off)
    };
    let (tr_off, is_tcp, ip_bytes) = match net {
        Some(n) => n,
        None => {
            return None;
        },
    };
    let dns_off = match parse_transport(data, tr_off, is_tcp) {
        Some(p) => p,
        None => {
            return None;
        },
    };
    let dq = parse_dns(data, dns_off);
    let (name_bytes, qt) = match dq {
        Some(q) => q,
        None => {
            return None;
        },
    };
    let source_ip = ascii_to_string(ip_bytes);
    let domain = ascii_to_string(name_bytes);
    let p = ParsedDnsPacket { source_ip, domain, query_type: qt.to_owned(), is_tcp };
    proof {
        let fm = spec_parse_frame(data@).unwrap();
        assert(p@ =~= (ParsedModel {
            source_ip: chars_of(fm.src_ip),
            domain: chars_of(fm.domain),
            query_type: fm.qtype,
            is_tcp: fm.is_tcp,
        }));
    }
    Some(p)
}

/// Handle one captured frame at an explicit time: parse it, stamp a TCP
/// source as validated, consult the inspector, and name the source to
/// block when the verdict says so.
pub fn handle_frame_at(inspector: &mut PacketInspector, data: &[u8], now: u64) -> (r: Option<
    String,
>)
    ensures
        (match spec_parse_frame(data@) {
            None => final(inspector)@ == old(inspector)@ && r is None,
            Some(fm) => ({
                let m1 = if fm.is_tcp {
                    spec_mark_tcp(old(inspector)@, chars_of(fm.src_ip), now).0
                } else {
                    old(inspector)@
                };
                let o = spec_inspect(
                    m1,
                    chars_of(fm.src_ip),
                    chars_of(fm.domain),
                    Some(fm.qtype),
                    data@.len() as u64,
                    now,
                );
                final(inspector)@ == o.0 && (r is Some <==> blocks(o.1)) && (r is Some
                    ==> r.unwrap()@ == chars_of(fm.src_ip))
            }),
        }),
{
    let parsed = parse_dns_packet(data);
    match parsed {
        None => None,
        Some(p) => {
            if p.is_tcp {
                inspector.mark_tcp_validated_at(p.source_ip.as_str(), now);
            }
            let blocked = inspector.inspect_at(
                p.source_ip.as_str(),
                p.domain.as_str(),
                Some(p.query_type.as_str()),
                data.len(),
                now,
            );
            if blocked {
                Some(p.source_ip)
            } else {
                None
            }
        },
    }
}

/// Handle one captured frame at the present moment; see
/// [`handle_frame_at`].
pub fn handle_frame(inspector: &mut PacketInspector, data: &[u8]) -> (r: Option<String>)
    ensures
        (match spec_parse_frame(data@) {
            None => final(inspector)@ == old(inspector)@ && r is None,
            Some(fm) => exists|now: u64|
                {
                    let m1 = if fm.is_tcp {
                        (#[trigger] spec_mark_tcp(old(inspector)@, chars_of(fm.src_ip), now)).0
                    } else {
                        old(inspector)@
                    };
                    let o = spec_inspect(
                        m1,
                        chars_of(fm.src_ip),
                        chars_of(fm.domain),
                        Some(fm.qtype),
                        data@.len() as u64,
                        now,
                    );
                    final(inspector)@ == o.0 && (r is Some <==> blocks(o.1)) && (r is Some
                        ==> r.unwrap()@ == chars_of(fm.src_ip))
                },
        }),
{
    let now = crate::logic::now_millis();
    let r = handle_frame_at(inspector, data, now);
    proof {
        if spec_parse_frame(data@) is Some {
            let fm = spec_parse_frame(data@).unwrap();
            let w = spec_mark_tcp(old(inspector)@, chars_of(fm.src_ip), now);
            assert(w == spec_mark_tcp(old(inspector)@, chars_of(fm.src_ip), now));
        }
    }
    r
}

} // verus!
