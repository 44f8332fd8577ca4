use wgprobe::config::{decode_key_into, parse_key, parse_private_key, DraftConfig, Section};
use wgprobe::net::{IpAddr, Ipv4Addr};
use wgprobe::{ConfigError, Ipv4Cidr, ProbeConfig};

const KEY: &str = "AAAAAAAAAAAAAAAAAAAAAAAAAAAAAAAAAAAAAAAAAAA=";

fn ip(text: &str) -> Ipv4Addr {
    Ipv4Addr::parse(text).unwrap()
}

fn error_of(input: &str) -> ConfigError {
    match ProbeConfig::parse(input) {
        Ok(_) => panic!("a configuration was accepted: {input}"),
        Err(error) => error,
    }
}

#[test]
fn parses_wireguard_data_fields_and_preshared_key() {
    let input = format!(
        "[Interface]\nPrivateKey={KEY}\nAddress=10.0.0.2/24, fd00::2/64\nDNS=10.0.0.53, corp.example, 2001:db8::53\n[Peer]\nPublicKey={KEY}\nPresharedKey={KEY}\nAllowedIPs=10.0.0.0/8, ::/0\nEndpoint=example.com:51820\n"
    );
    let config = ProbeConfig::parse(&input).unwrap_or_else(|e| panic!("{}", e.message()));
    assert_eq!(config.endpoint(), "example.com:51820");
    assert_eq!(config.address().unwrap().text(), "10.0.0.2/24");
    assert_eq!(config.dns_servers().len(), 2);
    assert!(config.allowed_ips()[0].contains(ip("10.1.2.3")));
    assert!(config.has_preshared_key());
}

#[test]
fn rejects_multiple_peers() {
    let input = format!(
        "[Interface]\nPrivateKey={KEY}\n[Peer]\nPublicKey={KEY}\nEndpoint=one:1\n[Peer]\nPublicKey={KEY}\nEndpoint=two:2\n"
    );
    assert!(matches!(
        ProbeConfig::parse(&input),
        Err(ConfigError::MultiplePeers)
    ));
}

#[test]
fn wipes_key_buffer_after_partial_base64_decode_error() {
    let mut bytes = [0x55; 32];
    let result = decode_key_into(
        "PresharedKey",
        "//////////////////////////////////////////!=",
        &mut bytes,
    );
    assert_eq!(result, Err(ConfigError::InvalidKey("PresharedKey")));
    assert_eq!(bytes, [0; 32]);
}

#[test]
fn valid_preshared_key_is_guarded_during_later_parse_failure() {
    let input = format!(
        "[Interface]\nPrivateKey={KEY}\n[Peer]\nPublicKey={KEY}\nPresharedKey=//////////////////////////////////////////8=\nAllowedIPs=invalid\nEndpoint=example.test:51820\n"
    );
    assert!(matches!(
        ProbeConfig::parse(&input),
        Err(ConfigError::InvalidIpv4Cidr { .. })
    ));
}

#[test]
fn cidr_contains_addresses() {
    let cidr = Ipv4Cidr::parse("192.0.2.7/24").unwrap();
    assert!(cidr.contains(ip("192.0.2.200")));
    assert!(!cidr.contains(ip("192.0.3.1")));
}

#[test]
fn cidr_notation_reads_back() {
    for (address, prefix) in [("0.0.0.0", 0u8), ("10.5.0.2", 32), ("172.16.9.1", 12)] {
        let cidr = Ipv4Cidr::new(ip(address), prefix);
        assert_eq!(Ipv4Cidr::parse(&cidr.text()), Some(cidr));
        assert_eq!(cidr.address(), ip(address));
        assert_eq!(cidr.prefix(), prefix);
    }
    assert_eq!(Ipv4Cidr::parse("10.0.0.1"), None);
    assert_eq!(Ipv4Cidr::parse("10.0.0.1/33"), None);
    assert_eq!(Ipv4Cidr::parse("10.0.0.1/"), None);
    assert_eq!(Ipv4Cidr::parse("10.0.0/8"), None);
}

#[test]
fn prefix_zero_and_full_prefix() {
    let all = Ipv4Cidr::new(ip("9.9.9.9"), 0);
    assert!(all.contains(ip("0.0.0.0")));
    assert!(all.contains(ip("255.255.255.255")));
    let one = Ipv4Cidr::new(ip("9.9.9.9"), 32);
    assert!(one.contains(ip("9.9.9.9")));
    assert!(!one.contains(ip("9.9.9.8")));
}

#[test]
fn errors_name_their_cause() {
    assert_eq!(
        error_of("[Interface]\nnonsense\n").message(),
        "line 2 is not a section or key-value pair"
    );
    assert_eq!(error_of("").message(), "missing Interface.PrivateKey");
    assert_eq!(
        error_of(&format!("[Interface]\nPrivateKey={KEY}\n")).message(),
        "missing Peer.PublicKey"
    );
    assert_eq!(
        error_of(&format!("[Interface]\nPrivateKey={KEY}\n[Peer]\nPublicKey={KEY}\n")).message(),
        "missing Peer.Endpoint"
    );
    assert_eq!(
        error_of("[Interface]\nPrivateKey=short\n").message(),
        "PrivateKey must be a base64-encoded 32-byte key"
    );
    assert_eq!(
        error_of("[Interface]\nAddress=10.0.0.1/40\n").message(),
        "Interface.Address contains invalid IPv4 CIDR 10.0.0.1/40"
    );
}

#[test]
fn comments_and_unknown_sections_are_ignored() {
    let input = format!(
        "# comment\n[Other]\nkey=value\n[Interface]\nPrivateKey = {KEY} # mine\nMTU=1400\n\n[Peer]\nPublicKey={KEY}\nEndpoint=h:1\nPersistentKeepalive=25"
    );
    let config = ProbeConfig::parse(&input).unwrap_or_else(|e| panic!("{}", e.message()));
    assert_eq!(config.endpoint(), "h:1");
    assert_eq!(config.address(), None);
    assert!(!config.has_preshared_key());
}

#[test]
fn keys_are_decoded() {
    assert_eq!(parse_key("K", KEY), Ok([0; 32]));
    assert_eq!(parse_key("K", "AQIDBAUGBwgJCgsMDQ4PEBESExQVFhcYGRobHB0eHyA="), {
        let mut bytes = [0u8; 32];
        for (i, byte) in bytes.iter_mut().enumerate() {
            *byte = i as u8 + 1;
        }
        Ok(bytes)
    });
    assert_eq!(parse_key("K", "AAAA"), Err(ConfigError::InvalidKey("K")));
    assert_eq!(parse_key("K", &KEY[..43]), Err(ConfigError::InvalidKey("K")));
    assert!(parse_private_key("").is_err());
}

#[test]
fn public_key_belongs_to_the_private_key() {
    let config = ProbeConfig::from_parts(
        "dwdtCnMYpX08FsFyUbJmRd9ML4frwJkqsXf7pR25LCo=",
        KEY,
        "host:1",
    )
    .unwrap_or_else(|e| panic!("{}", e.message()));
    assert_eq!(
        config.client_public_key(),
        "hSDwCYkwp1R0i33ctD73Wg2/Og0mOBr066SpjqqbTmo="
    );
}

#[test]
fn data_settings_can_be_set() {
    let mut config =
        ProbeConfig::from_parts(KEY, KEY, "host:1").unwrap_or_else(|e| panic!("{}", e.message()));
    assert_eq!(config.address(), None);
    let dns = IpAddr::V4(ip("9.9.9.9"));
    config.set_data_config(
        Ipv4Cidr::new(ip("10.0.0.2"), 32),
        vec![dns],
        vec![Ipv4Cidr::new(ip("0.0.0.0"), 0)],
    );
    assert_eq!(config.address(), Ipv4Cidr::parse("10.0.0.2/32"));
    assert_eq!(config.dns_servers(), &vec![dns]);
    assert_eq!(config.allowed_ips().len(), 1);
}

#[test]
fn a_supplied_key_is_kept() {
    let mut draft = DraftConfig::new();
    assert!(draft.apply_line("[Interface]", 1).is_ok());
    let key = parse_private_key("dwdtCnMYpX08FsFyUbJmRd9ML4frwJkqsXf7pR25LCo=").ok();
    assert!(draft.apply_pair_with("PrivateKey", "unread", key).is_ok());
    assert!(matches!(
        draft.apply_pair_with("PrivateKey", "unread", None),
        Err(ConfigError::InvalidKey("PrivateKey"))
    ));
    assert!(draft.apply_line("[Peer]", 2).is_ok());
    assert!(draft.apply_line(&format!("PublicKey={KEY}"), 3).is_ok());
    assert!(draft.apply_line("Endpoint=h:1", 4).is_ok());
    let config = draft.finish().unwrap_or_else(|e| panic!("{}", e.message()));
    assert_eq!(
        config.client_public_key(),
        "hSDwCYkwp1R0i33ctD73Wg2/Og0mOBr066SpjqqbTmo="
    );
    assert_ne!(Section::Interface, Section::Peer);
}
