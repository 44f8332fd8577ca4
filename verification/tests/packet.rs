use wgprobe::net::Ipv4Addr;
use wgprobe::packet::{
    checksum, dns_query, encode_name, icmp_echo_request, ipv4_packet, is_icmp_echo_reply,
    name_matches, parse_dns_a_response, parse_ipv4, skip_name, udp_checksum,
};

fn ip(text: &str) -> Ipv4Addr {
    Ipv4Addr::parse(text).unwrap()
}

fn turn_around(packet: &mut [u8], server: Ipv4Addr, client: Ipv4Addr) {
    packet[12..16].copy_from_slice(&server.octets());
    packet[16..20].copy_from_slice(&client.octets());
    packet[20..22].copy_from_slice(&53u16.to_be_bytes());
    packet[22..24].copy_from_slice(&40000u16.to_be_bytes());
}

fn mend_header(packet: &mut [u8]) {
    packet[26..28].fill(0);
    packet[10..12].fill(0);
    let ip_sum = checksum(&packet[..20]);
    packet[10..12].copy_from_slice(&ip_sum.to_be_bytes());
}

#[test]
fn encodes_valid_ipv4_and_icmp_checksums() {
    let packet = icmp_echo_request(ip("10.0.0.2"), ip("10.0.0.1"), 7, 8, 9);
    assert_eq!(checksum(&packet[..20]), 0);
    assert_eq!(checksum(&packet[20..]), 0);
    assert_eq!(&packet[2..4], &(36u16.to_be_bytes()));
}

#[test]
fn encodes_valid_udp_dns_query() {
    let packet = dns_query(ip("10.0.0.2"), ip("10.0.0.53"), 40000, 123, 456, "example.com").unwrap();
    assert_eq!(checksum(&packet[..20]), 0);
    let udp = &packet[20..];
    assert_eq!(udp_checksum(ip("10.0.0.2"), ip("10.0.0.53"), udp), 0);
}

#[test]
fn rejects_invalid_dns_names() {
    let localhost = Ipv4Addr::new(127, 0, 0, 1);
    assert!(dns_query(localhost, localhost, 1, 1, 1, "bad..name").is_err());
}

#[test]
fn parses_matching_dns_a_response() {
    let client = ip("10.0.0.2");
    let server = ip("10.0.0.53");
    let mut packet = dns_query(client, server, 40000, 123, 456, "example.com").unwrap();
    turn_around(&mut packet, server, client);
    packet[30] = 0x81;
    packet[31] = 0x80;
    packet[34..36].copy_from_slice(&1u16.to_be_bytes());
    packet.extend_from_slice(&[
        0xc0, 0x0c, 0x00, 0x01, 0x00, 0x01, 0x00, 0x00, 0x00, 0x3c, 0x00, 0x04, 192, 0, 2, 10,
    ]);
    let total_len = packet.len() as u16;
    packet[2..4].copy_from_slice(&total_len.to_be_bytes());
    packet[24..26].copy_from_slice(&(total_len - 20).to_be_bytes());
    mend_header(&mut packet);

    let answers = parse_dns_a_response(&packet, server, client, 40000, 123, "example.com").unwrap();
    assert_eq!(answers, [ip("192.0.2.10")]);
    assert!(parse_dns_a_response(&packet, server, client, 40000, 123, "other.example").is_none());
}

#[test]
fn dns_question_matching_is_case_insensitive() {
    let client = ip("10.0.0.2");
    let server = ip("10.0.0.53");
    let mut packet = dns_query(client, server, 40000, 123, 456, "example.com").unwrap();
    turn_around(&mut packet, server, client);
    packet[30] = 0x81;
    packet[31] = 0x80;
    packet[41..48].copy_from_slice(b"EXAMPLE");
    packet[49..52].copy_from_slice(b"COM");
    mend_header(&mut packet);

    assert!(parse_dns_a_response(&packet, server, client, 40000, 123, "example.com").is_some());
}

#[test]
fn follows_backward_dns_compression_pointer() {
    let mut packet = Vec::new();
    encode_name("example.com", &mut packet).unwrap();
    let compressed = packet.len();
    packet.extend_from_slice(&[0xc0, 0x00]);

    assert_eq!(
        name_matches(&packet, compressed, "EXAMPLE.COM"),
        Some((true, compressed + 2))
    );
    assert_eq!(skip_name(&packet, compressed), Some(compressed + 2));
}

#[test]
fn rejects_forward_dns_compression_pointer() {
    assert_eq!(name_matches(&[0xc0, 0x02, 0], 0, "example.com"), None);
}

#[test]
fn rejects_dns_question_compression_loop() {
    let client = ip("10.0.0.2");
    let server = ip("10.0.0.53");
    let mut packet = dns_query(client, server, 40000, 123, 456, "example.com").unwrap();
    turn_around(&mut packet, server, client);
    packet[30] = 0x81;
    packet[40..42].copy_from_slice(&[0xc0, 0x0c]);
    mend_header(&mut packet);

    assert!(parse_dns_a_response(&packet, server, client, 40000, 123, "example.com").is_none());
}

#[test]
fn rejects_fragmented_ipv4_packets() {
    let mut packet = icmp_echo_request(ip("10.0.0.2"), ip("10.0.0.1"), 7, 8, 9);
    packet[6..8].copy_from_slice(&0x2000u16.to_be_bytes());
    packet[10..12].fill(0);
    let sum = checksum(&packet[..20]);
    packet[10..12].copy_from_slice(&sum.to_be_bytes());

    assert!(parse_ipv4(&packet).is_none());
}

#[test]
fn rejects_dns_response_with_short_declared_udp_payload() {
    let client = ip("10.0.0.2");
    let server = ip("10.0.0.53");
    let mut packet = dns_query(client, server, 40000, 123, 456, "example.com").unwrap();
    turn_around(&mut packet, server, client);
    packet[24..26].copy_from_slice(&8u16.to_be_bytes());
    mend_header(&mut packet);

    assert!(parse_dns_a_response(&packet, server, client, 40000, 123, "example.com").is_none());
}

#[test]
fn checksum_of_known_bytes() {
    assert_eq!(checksum(&[]), 0xffff);
    assert_eq!(checksum(&[0x00, 0x01, 0xf2, 0x03, 0xf4, 0xf5, 0xf6, 0xf7]), 0x220d);
    assert_eq!(checksum(&[0x12]), !0x1200);
    assert_eq!(checksum(&[0xff, 0xff, 0x00, 0x01]), 0xfffe);
}

#[test]
fn packet_fields_read_back() {
    let packet = ipv4_packet(ip("192.0.2.1"), ip("198.51.100.7"), 17, 0x1234, b"payload");
    assert_eq!(packet.len(), 27);
    assert_eq!(&packet[..10], &[0x45, 0, 0, 27, 0x12, 0x34, 0x40, 0, 64, 17]);
    let (protocol, source, destination, payload) = parse_ipv4(&packet).unwrap();
    assert_eq!(protocol, 17);
    assert_eq!(source, ip("192.0.2.1"));
    assert_eq!(destination, ip("198.51.100.7"));
    assert_eq!(payload, b"payload");
}

#[test]
fn damaged_header_is_rejected() {
    let mut packet = ipv4_packet(ip("192.0.2.1"), ip("198.51.100.7"), 17, 1, b"x");
    packet[8] ^= 1;
    assert!(parse_ipv4(&packet).is_none());
    assert!(parse_ipv4(&[]).is_none());
    assert!(parse_ipv4(&[0x45; 19]).is_none());
}

#[test]
fn echo_reply_matches_its_request_only() {
    let client = ip("10.0.0.2");
    let target = ip("10.0.0.1");
    let request = icmp_echo_request(client, target, 7, 8, 9);
    assert!(!is_icmp_echo_reply(&request, target, client, 8, 9));
    let mut body = request[20..].to_vec();
    body[0] = 0;
    body[2..4].fill(0);
    let sum = checksum(&body);
    body[2..4].copy_from_slice(&sum.to_be_bytes());
    let reply = ipv4_packet(target, client, 1, 99, &body);
    assert!(is_icmp_echo_reply(&reply, target, client, 8, 9));
    assert!(!is_icmp_echo_reply(&reply, target, client, 8, 10));
    assert!(!is_icmp_echo_reply(&reply, target, client, 7, 9));
    assert!(!is_icmp_echo_reply(&reply, client, target, 8, 9));
    let mut damaged = reply.clone();
    let last = damaged.len() - 1;
    damaged[last] ^= 1;
    assert!(!is_icmp_echo_reply(&damaged, target, client, 8, 9));
}

#[test]
fn names_are_encoded_as_labels() {
    let mut bytes = vec![9];
    encode_name("example.com.", &mut bytes).unwrap();
    assert_eq!(bytes, b"\x09\x07example\x03com\x00");
    assert_eq!(name_matches(&bytes, 1, "example.com"), Some((true, 14)));
    assert_eq!(name_matches(&bytes, 1, "example.org"), Some((false, 13)));
    assert_eq!(name_matches(&bytes, 1, "EXAMPLE.com.."), Some((true, 14)));
    assert!(!name_matches(&bytes, 1, "example").unwrap().0);
    assert!(!name_matches(&bytes, 1, "example.com.au").unwrap().0);
    assert!(!name_matches(&bytes, 1, "exampl\u{e9}.com").unwrap().0);
    assert_eq!(skip_name(&bytes, 1), Some(14));
    assert_eq!(skip_name(&bytes, 200), None);
}

#[test]
fn malformed_names_are_refused() {
    let mut bytes = Vec::new();
    assert!(encode_name("", &mut bytes).is_err());
    assert!(encode_name(".", &mut bytes).is_err());
    assert!(encode_name(&"a".repeat(64), &mut bytes).is_err());
    assert!(encode_name("b\u{fc}cher.example", &mut bytes).is_err());
    let long = vec!["a".repeat(60); 5].join(".");
    assert!(encode_name(&long, &mut bytes).is_err());
    assert!(encode_name(&"a".repeat(63), &mut bytes).is_ok());
}
