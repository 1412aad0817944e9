use nx53::config::{FilterConfig, RateLimitConfig};
use nx53::logic::PacketInspector;
use nx53::monitor::{handle_frame, parse_dns_packet, validate_interface_name, InterfaceError};

fn dns_query(labels: &[&str], qtype: u16, response: bool, qdcount: u16) -> Vec<u8> {
    let mut d = vec![0x12, 0x34, if response { 0x80 } else { 0x00 }, 0x00];
    d.extend_from_slice(&qdcount.to_be_bytes());
    d.extend_from_slice(&[0, 0, 0, 0, 0, 0]);
    for l in labels {
        d.push(l.len() as u8);
        d.extend_from_slice(l.as_bytes());
    }
    d.push(0);
    d.extend_from_slice(&qtype.to_be_bytes());
    d.extend_from_slice(&[0x00, 0x01]);
    d
}

fn ipv4_udp_frame(src: [u8; 4], dns: &[u8]) -> Vec<u8> {
    let mut f = vec![0u8; 12];
    f.extend_from_slice(&[0x08, 0x00]);
    f.push(0x45);
    f.push(0);
    f.extend_from_slice(&((20 + 8 + dns.len()) as u16).to_be_bytes());
    f.extend_from_slice(&[0, 0, 0, 0]);
    f.push(64);
    f.push(17);
    f.extend_from_slice(&[0, 0]);
    f.extend_from_slice(&src);
    f.extend_from_slice(&[8, 8, 8, 8]);
    f.extend_from_slice(&12345u16.to_be_bytes());
    f.extend_from_slice(&53u16.to_be_bytes());
    f.extend_from_slice(&((8 + dns.len()) as u16).to_be_bytes());
    f.extend_from_slice(&[0, 0]);
    f.extend_from_slice(dns);
    f
}

fn ipv4_tcp_frame(src: [u8; 4], dns: &[u8]) -> Vec<u8> {
    let mut f = vec![0u8; 12];
    f.extend_from_slice(&[0x08, 0x00]);
    f.push(0x45);
    f.push(0);
    f.extend_from_slice(&((20 + 20 + 2 + dns.len()) as u16).to_be_bytes());
    f.extend_from_slice(&[0, 0, 0, 0]);
    f.push(64);
    f.push(6);
    f.extend_from_slice(&[0, 0]);
    f.extend_from_slice(&src);
    f.extend_from_slice(&[8, 8, 8, 8]);
    f.extend_from_slice(&12345u16.to_be_bytes());
    f.extend_from_slice(&53u16.to_be_bytes());
    f.extend_from_slice(&[0, 0, 0, 0, 0, 0, 0, 0]);
    f.push(0x50);
    f.push(0);
    f.extend_from_slice(&[0xff, 0xff, 0, 0, 0, 0]);
    f.extend_from_slice(&(dns.len() as u16).to_be_bytes());
    f.extend_from_slice(dns);
    f
}

fn ipv6_udp_frame(src: [u8; 16], dns: &[u8]) -> Vec<u8> {
    let mut f = vec![0u8; 12];
    f.extend_from_slice(&[0x86, 0xdd]);
    f.push(0x60);
    f.extend_from_slice(&[0, 0, 0]);
    f.extend_from_slice(&((8 + dns.len()) as u16).to_be_bytes());
    f.push(17);
    f.push(64);
    f.extend_from_slice(&src);
    f.extend_from_slice(&[0u8; 16]);
    f.extend_from_slice(&12345u16.to_be_bytes());
    f.extend_from_slice(&53u16.to_be_bytes());
    f.extend_from_slice(&((8 + dns.len()) as u16).to_be_bytes());
    f.extend_from_slice(&[0, 0]);
    f.extend_from_slice(dns);
    f
}

#[test]
fn test_parse_dns_short_packet() {
    let data = [0u8; 10];
    assert_eq!(parse_dns_packet(&data), None);
}

#[test]
fn test_parse_garbage() {
    let data = [0xff; 100];
    assert_eq!(parse_dns_packet(&data), None);
}

#[test]
fn test_validate_interface_name_valid() {
    assert!(validate_interface_name("eth0").is_ok());
    assert!(validate_interface_name("wlan0").is_ok());
    assert!(validate_interface_name("enp0s3").is_ok());
    assert!(validate_interface_name("docker0").is_ok());
    assert!(validate_interface_name("lo").is_ok());
}

#[test]
fn test_validate_interface_name_invalid() {
    assert!(validate_interface_name("").is_err());
    assert!(validate_interface_name("eth0; rm -rf /").is_err());
    assert!(validate_interface_name("a".repeat(300).as_str()).is_err());
}

#[test]
fn iface_name_boundaries() {
    assert_eq!(validate_interface_name(""), Err(InterfaceError::Empty));
    assert!(validate_interface_name("a".repeat(256).as_str()).is_ok());
    assert_eq!(
        validate_interface_name("a".repeat(257).as_str()),
        Err(InterfaceError::TooLong)
    );
    assert!(validate_interface_name("eth0:1").is_ok());
    assert_eq!(
        validate_interface_name("eth0 "),
        Err(InterfaceError::InvalidChar)
    );
}

#[test]
fn parse_ipv4_udp_query() {
    let dns = dns_query(&["Example", "COM"], 1, false, 1);
    let frame = ipv4_udp_frame([1, 2, 3, 4], &dns);
    let p = parse_dns_packet(&frame).expect("well-formed query should parse");
    assert_eq!(p.source_ip, "1.2.3.4");
    assert_eq!(p.domain, "example.com");
    assert_eq!(p.query_type, "A");
    assert!(!p.is_tcp);
}

#[test]
fn parse_tcp_query_skips_length_prefix() {
    let dns = dns_query(&["tcp", "test"], 16, false, 1);
    let frame = ipv4_tcp_frame([5, 6, 7, 8], &dns);
    let p = parse_dns_packet(&frame).expect("TCP query should parse");
    assert_eq!(p.source_ip, "5.6.7.8");
    assert_eq!(p.domain, "tcp.test");
    assert_eq!(p.query_type, "TXT");
    assert!(p.is_tcp);
}

#[test]
fn parse_ipv6_query_compresses_source() {
    let mut src = [0u8; 16];
    src[0] = 0x20;
    src[1] = 0x01;
    src[2] = 0x0d;
    src[3] = 0xb8;
    src[15] = 0x01;
    let dns = dns_query(&["six", "test"], 28, false, 1);
    let frame = ipv6_udp_frame(src, &dns);
    let p = parse_dns_packet(&frame).expect("IPv6 query should parse");
    assert_eq!(p.source_ip, "2001:db8::1");
    assert_eq!(p.domain, "six.test");
    assert_eq!(p.query_type, "AAAA");
    assert!(!p.is_tcp);
}

#[test]
fn parse_any_query_type() {
    let dns = dns_query(&["any", "test"], 255, false, 1);
    let frame = ipv4_udp_frame([1, 1, 1, 2], &dns);
    let p = parse_dns_packet(&frame).unwrap();
    assert_eq!(p.query_type, "ANY");
}

#[test]
fn parse_rejects_responses() {
    let dns = dns_query(&["resp", "test"], 1, true, 1);
    let frame = ipv4_udp_frame([1, 2, 3, 4], &dns);
    assert_eq!(parse_dns_packet(&frame), None);
}

#[test]
fn parse_rejects_zero_questions() {
    let dns = dns_query(&["none", "test"], 1, false, 0);
    let frame = ipv4_udp_frame([1, 2, 3, 4], &dns);
    assert_eq!(parse_dns_packet(&frame), None);
}

#[test]
fn parse_rejects_compressed_names() {
    let mut dns = vec![0x12, 0x34, 0x00, 0x00, 0x00, 0x01, 0, 0, 0, 0, 0, 0];
    dns.extend_from_slice(&[0xc0, 0x0c]);
    dns.extend_from_slice(&[0x00, 0x01, 0x00, 0x01]);
    let frame = ipv4_udp_frame([1, 2, 3, 4], &dns);
    assert_eq!(parse_dns_packet(&frame), None);
}

#[test]
fn parse_vlan_tagged_frame() {
    let dns = dns_query(&["vlan", "test"], 1, false, 1);
    let inner = ipv4_udp_frame([4, 3, 2, 1], &dns);
    let mut frame: Vec<u8> = inner[..12].to_vec();
    frame.extend_from_slice(&[0x81, 0x00, 0x00, 0x07]);
    frame.extend_from_slice(&inner[12..]);
    let p = parse_dns_packet(&frame).expect("single VLAN tag is accepted");
    assert_eq!(p.source_ip, "4.3.2.1");
    assert_eq!(p.domain, "vlan.test");
}

#[test]
fn handle_frame_blocks_newcomer_on_hot_domain() {
    let mut ins = PacketInspector::new(2, RateLimitConfig::default(), FilterConfig::default(), 7);
    for _ in 0..3 {
        ins.inspect("10.0.0.9", "example.com", None, 40);
    }
    let dns = dns_query(&["example", "com"], 1, false, 1);
    let frame = ipv4_udp_frame([1, 2, 3, 4], &dns);
    let verdict = handle_frame(&mut ins, &frame);
    assert_eq!(verdict, Some("1.2.3.4".to_string()));

    let garbage = [0u8; 5];
    assert_eq!(handle_frame(&mut ins, &garbage), None);
}

#[test]
fn parse_classic_query_types() {
    for (code, name) in [
        (10u16, "NULL"),
        (11u16, "WKS"),
        (253u16, "MAILB"),
        (46u16, "RRSIG"),
    ] {
        let dns = dns_query(&["old", "test"], code, false, 1);
        let frame = ipv4_udp_frame([2, 2, 2, 9], &dns);
        let p = parse_dns_packet(&frame).expect("known query type should parse");
        assert_eq!(p.query_type, name);
    }
    // a type without a mnemonic is dropped unparsed
    let dns = dns_query(&["odd", "test"], 59, false, 1);
    let frame = ipv4_udp_frame([2, 2, 2, 9], &dns);
    assert_eq!(parse_dns_packet(&frame), None);
}
