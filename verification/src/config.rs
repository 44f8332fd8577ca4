//! WireGuard configuration files.
use crate::keys::{all_key_characters, base64_text, decode_key, key_spec, x25519_public, SecretKey};
use crate::net::{IpAddr, IpModel, Ipv4Addr};
use crate::text::{
    chars_of, decimal, decimal_spec, find_char, first_index, has_char, lines, lines_spec,
    parse_unsigned, same_text, split_list, split_list_spec, split_once, split_once_spec, trim,
    trim_spec, unsigned_spec, views,
};
use crate::tunnel::Tunnel;
use vstd::arithmetic::div_mod::lemma_basic_div;
use vstd::arithmetic::power2::{lemma2_to64, pow2};
use vstd::bits::lemma_u32_shr_is_div;
use vstd::prelude::*;
use vstd::string::*;

verus! {

/// An IPv4 network: an address and the number of leading bits that are fixed.
#[derive(Clone, Copy, Debug, PartialEq, Eq, Structural)]
pub struct Ipv4Cidr {
    address: Ipv4Addr,
    prefix: u8,
}

impl Ipv4Cidr {
    /// At most all bits are fixed.
    #[verifier::type_invariant]
    pub closed spec fn wf(self) -> bool {
        self.prefix <= 32
    }

    pub closed spec fn address_spec(self) -> Ipv4Addr {
        self.address
    }

    pub closed spec fn prefix_spec(self) -> int {
        self.prefix as int
    }

    /// Whether the leading bits of both addresses agree.
    pub open spec fn contains_spec(self, address: Ipv4Addr) -> bool {
        self.address_spec().number() / (pow2((32 - self.prefix_spec()) as nat) as int)
            == address.number() / (pow2((32 - self.prefix_spec()) as nat) as int)
    }

    /// The network that `s` denotes, `address/prefix`: its address and its prefix.
    pub open spec fn parse_spec(s: Seq<char>) -> Option<(Ipv4Addr, int)> {
        match split_once_spec(s, '/') {
            Some((address, prefix)) => match (
                Ipv4Addr::parse_spec(address),
                unsigned_spec(prefix, 32),
            ) {
                (Some(address), Some(prefix)) => Some((address, prefix)),
                _ => None,
            },
            None => None,
        }
    }

    /// The network's address and prefix.
    pub open spec fn parts(self) -> (Ipv4Addr, int) {
        (self.address_spec(), self.prefix_spec())
    }

    /// The network that `value` denotes, `address/prefix`.
    pub fn parse(value: &str) -> (r: Option<Ipv4Cidr>)
        ensures
            match r {
                Some(cidr) => Self::parse_spec(value@) == Some(cidr.parts()),
                None => Self::parse_spec(value@) is None,
            },
    {
        match split_once(value, '/') {
            Some((address, prefix)) => match (Ipv4Addr::parse(address), parse_unsigned(prefix, 32)) {
                (Some(address), Some(prefix)) => Some(Ipv4Cidr { address, prefix: prefix as u8 }),
                _ => None,
            },
            None => None,
        }
    }

    /// The network of an address with so many fixed bits.
    pub fn new(address: Ipv4Addr, prefix: u8) -> (r: Ipv4Cidr)
        requires
            prefix <= 32,
        ensures
            r.parts() == (address, prefix as int),
    {
        Ipv4Cidr { address, prefix }
    }

    pub fn address(self) -> (r: Ipv4Addr)
        ensures
            r == self.address_spec(),
    {
        self.address
    }

    pub fn prefix(self) -> (r: u8)
        ensures
            r == self.prefix_spec(),
            r <= 32,
    {
        proof {
            use_type_invariant(self);
        }
        self.prefix
    }

    /// Whether `address` lies in the network.
    pub fn contains(self, address: Ipv4Addr) -> (r: bool)
        ensures
            r == self.contains_spec(address),
    {
        proof {
            use_type_invariant(self);
        }
        let own: u32 = address_number(self.address);
        let other: u32 = address_number(address);
        if self.prefix == 0 {
            proof {
                lemma2_to64();
                assert(pow2(32) == 0x1_0000_0000);
                lemma_basic_div(own as int, pow2(32) as int);
                lemma_basic_div(other as int, pow2(32) as int);
            }
            return true;
        }
        let free: u32 = 32 - self.prefix as u32;
        proof {
            lemma_u32_shr_is_div(own, free);
            lemma_u32_shr_is_div(other, free);
        }
        own >> free == other >> free
    }

    /// The notation `address/prefix`.
    pub open spec fn text_spec(address: Ipv4Addr, prefix: int) -> Seq<char> {
        address.text_spec() + seq!['/'] + decimal_spec(prefix)
    }

    /// The notation `address/prefix`.
    pub fn text(self) -> (r: String)
        ensures
            r@ == Self::text_spec(self.address_spec(), self.prefix_spec()),
    {
        let mut r = self.address.text();
        r.push('/');
        r.append(decimal(self.prefix as u64).as_str());
        assert(r@ =~= Self::text_spec(self.address, self.prefix as int));
        r
    }

    /// A network contains its own address, a network without fixed bits contains every address,
    /// and one with all bits fixed contains no other address.
    pub proof fn contains_laws(self, address: Ipv4Addr)
        requires
            self.wf(),
        ensures
            self.contains_spec(self.address_spec()),
            self.prefix_spec() == 0 ==> self.contains_spec(address),
            self.prefix_spec() == 32 ==> (self.contains_spec(address) <==> address
                == self.address_spec()),
    {
        lemma2_to64();
        let a = self.address_spec();
        assert(0 <= a.number() < 0x1_0000_0000);
        assert(0 <= address.number() < 0x1_0000_0000);
        assert(pow2(0) == 1 && pow2(32) == 0x1_0000_0000);
        if self.prefix_spec() == 0 {
            lemma_basic_div(a.number(), pow2(32) as int);
            lemma_basic_div(address.number(), pow2(32) as int);
        }
        if self.prefix_spec() == 32 {
            assert(a.number() / 1 == a.number() && address.number() / 1 == address.number());
        }
        if a.number() == address.number() {
            assert(a == address);
        }
    }
}

fn address_number(address: Ipv4Addr) -> (r: u32)
    ensures
        r == address.number(),
{
    address.a as u32 * 0x1000000 + address.b as u32 * 0x10000 + address.c as u32 * 0x100
        + address.d as u32
}

/// Why a configuration is refused.
#[derive(Debug, PartialEq, Eq)]
pub enum ConfigError {
    InvalidLine { line: usize },
    InvalidKey(&'static str),
    Missing(&'static str),
    MultiplePeers,
    InvalidIpv4Cidr { field: &'static str, value: String },
}

/// Why a configuration is refused, as a mathematical value.
#[verifier::ext_equal]
pub enum ConfigErrorModel {
    InvalidLine { line: int },
    InvalidKey(Seq<char>),
    Missing(Seq<char>),
    MultiplePeers,
    InvalidIpv4Cidr { field: Seq<char>, value: Seq<char> },
}

impl View for ConfigError {
    type V = ConfigErrorModel;

    open spec fn view(&self) -> ConfigErrorModel {
        match self {
            ConfigError::InvalidLine { line } => ConfigErrorModel::InvalidLine { line: *line as int },
            ConfigError::InvalidKey(field) => ConfigErrorModel::InvalidKey(field@),
            ConfigError::Missing(field) => ConfigErrorModel::Missing(field@),
            ConfigError::MultiplePeers => ConfigErrorModel::MultiplePeers,
            ConfigError::InvalidIpv4Cidr { field, value } => ConfigErrorModel::InvalidIpv4Cidr {
                field: field@,
                value: value@,
            },
        }
    }
}

impl ConfigErrorModel {
    /// The message for the user.
    pub open spec fn message(self) -> Seq<char> {
        match self {
            ConfigErrorModel::InvalidLine { line } => "line "@ + decimal_spec(line)
                + " is not a section or key-value pair"@,
            ConfigErrorModel::InvalidKey(field) => field
                + " must be a base64-encoded 32-byte key"@,
            ConfigErrorModel::Missing(field) => "missing "@ + field,
            ConfigErrorModel::MultiplePeers => "the probe accepts exactly one [Peer] section"@,
            ConfigErrorModel::InvalidIpv4Cidr { field, value } => field
                + " contains invalid IPv4 CIDR "@ + value,
        }
    }
}

impl ConfigError {
    /// The message for the user.
    pub fn message(&self) -> (r: String)
        ensures
            r@ == self@.message(),
    {
        match self {
            ConfigError::InvalidLine { line } => {
                let mut r = "line ".to_string();
                r.append(decimal(*line as u64).as_str());
                r.append(" is not a section or key-value pair");
                r
            },
            ConfigError::InvalidKey(field) => {
                let mut r = String::new();
                r.append(field);
                r.append(" must be a base64-encoded 32-byte key");
                r
            },
            ConfigError::Missing(field) => {
                let mut r = "missing ".to_string();
                r.append(field);
                r
            },
            ConfigError::MultiplePeers => "the probe accepts exactly one [Peer] section".to_string(),
            ConfigError::InvalidIpv4Cidr { field, value } => {
                let mut r = String::new();
                r.append(field);
                r.append(" contains invalid IPv4 CIDR ");
                r.append(value.as_str());
                r
            },
        }
    }
}

/// Reads a key into `bytes`; on an error the buffer is wiped.
pub fn decode_key_into(field: &'static str, value: &str, bytes: &mut [u8; 32]) -> (r: Result<
    (),
    ConfigError,
>)
    ensures
        match r {
            Ok(_) => key_spec(value@) == Some(final(bytes)@),
            Err(e) => key_spec(value@) is None && e@ == ConfigErrorModel::InvalidKey(field@)
                && forall|i: int| 0 <= i < 32 ==> #[trigger] final(bytes)@[i] == 0,
        },
{
    if decode_key(value, bytes) {
        Ok(())
    } else {
        Err(ConfigError::InvalidKey(field))
    }
}

/// The 32-byte key that `value` denotes in base64.
pub fn parse_key(field: &'static str, value: &str) -> (r: Result<[u8; 32], ConfigError>)
    ensures
        match r {
            Ok(key) => key_spec(value@) == Some(key@),
            Err(e) => key_spec(value@) is None && e@ == ConfigErrorModel::InvalidKey(field@),
        },
{
    let mut bytes: [u8; 32] = [0; 32];
    match decode_key_into(field, value, &mut bytes) {
        Ok(()) => Ok(bytes),
        Err(e) => Err(e),
    }
}

/// The key that `value` denotes in base64, to be wiped after use.
pub fn parse_secret_key(field: &'static str, value: &str) -> (r: Result<SecretKey, ConfigError>)
    ensures
        match r {
            Ok(key) => key_spec(value@) == Some(key@) && all_key_characters(value@),
            Err(e) => key_spec(value@) is None && e@ == ConfigErrorModel::InvalidKey(field@),
        },
{
    match SecretKey::from_base64(value) {
        Some(key) => Ok(key),
        None => Err(ConfigError::InvalidKey(field)),
    }
}

/// The private key that `value` denotes in base64.
pub fn parse_private_key(value: &str) -> (r: Result<SecretKey, ConfigError>)
    ensures
        match r {
            Ok(key) => key_spec(value@) == Some(key@) && all_key_characters(value@),
            Err(e) => key_spec(value@) is None && e@ == ConfigErrorModel::InvalidKey("PrivateKey"@),
        },
{
    parse_secret_key("PrivateKey", value)
}

/// What a probe needs to know of a tunnel: both keys, the endpoint, and what data checks use.
pub struct ProbeConfig {
    private_key: SecretKey,
    peer_public_key: [u8; 32],
    preshared_key: Option<SecretKey>,
    endpoint: String,
    address: Option<Ipv4Cidr>,
    dns_servers: Vec<IpAddr>,
    allowed_ips: Vec<Ipv4Cidr>,
}

/// A configuration as a mathematical value.
#[verifier::ext_equal]
pub struct ConfigModel {
    pub private_key: Seq<u8>,
    pub peer_public_key: Seq<u8>,
    pub preshared_key: Option<Seq<u8>>,
    pub endpoint: Seq<char>,
    pub address: Option<(Ipv4Addr, int)>,
    pub dns_servers: Seq<IpModel>,
    pub allowed_ips: Seq<(Ipv4Addr, int)>,
}

/// The addresses as mathematical values.
pub open spec fn ip_models(list: Seq<IpAddr>) -> Seq<IpModel> {
    Seq::new(list.len(), |i: int| list[i]@)
}

/// The networks as addresses and prefixes.
pub open spec fn cidr_parts(list: Seq<Ipv4Cidr>) -> Seq<(Ipv4Addr, int)> {
    Seq::new(list.len(), |i: int| list[i].parts())
}

impl View for ProbeConfig {
    type V = ConfigModel;

    closed spec fn view(&self) -> ConfigModel {
        ConfigModel {
            private_key: self.private_key@,
            peer_public_key: self.peer_public_key@,
            preshared_key: match self.preshared_key {
                Some(key) => Some(key@),
                None => None,
            },
            endpoint: self.endpoint@,
            address: match self.address {
                Some(cidr) => Some(cidr.parts()),
                None => None,
            },
            dns_servers: ip_models(self.dns_servers@),
            allowed_ips: cidr_parts(self.allowed_ips@),
        }
    }
}

/// The section that a line of a configuration belongs to.
#[derive(Clone, Copy, Debug, PartialEq, Eq, Structural)]
pub enum Section {
    Outside,
    Interface,
    Peer,
    Other,
}

/// What has been read of a configuration so far.
#[verifier::ext_equal]
pub struct Draft {
    pub section: Section,
    pub peers: int,
    pub private_key: Option<Seq<u8>>,
    pub peer_public_key: Option<Seq<u8>>,
    pub preshared_key: Option<Seq<u8>>,
    pub endpoint: Option<Seq<char>>,
    pub address: Option<(Ipv4Addr, int)>,
    pub dns_servers: Seq<IpModel>,
    pub allowed_ips: Seq<(Ipv4Addr, int)>,
}

/// Nothing read yet.
pub open spec fn empty_draft() -> Draft {
    Draft {
        section: Section::Outside,
        peers: 0,
        private_key: None,
        peer_public_key: None,
        preshared_key: None,
        endpoint: None,
        address: None,
        dns_servers: Seq::empty(),
        allowed_ips: Seq::empty(),
    }
}

/// The IPv4 networks among the items. Items with a colon belong to IPv6 and are passed over; the
/// first other item that is no network is the error.
pub open spec fn cidr_items(items: Seq<Seq<char>>) -> Result<Seq<(Ipv4Addr, int)>, Seq<char>>
    decreases items.len(),
{
    if items.len() == 0 {
        Ok(Seq::empty())
    } else if items[0].contains(':') {
        cidr_items(items.drop_first())
    } else {
        match Ipv4Cidr::parse_spec(items[0]) {
            None => Err(items[0]),
            Some(cidr) => match cidr_items(items.drop_first()) {
                Ok(rest) => Ok(seq![cidr] + rest),
                Err(item) => Err(item),
            },
        }
    }
}

/// The addresses among the items; other items, such as search domains, are passed over.
pub open spec fn ip_items(items: Seq<Seq<char>>) -> Seq<IpModel>
    decreases items.len(),
{
    if items.len() == 0 {
        Seq::empty()
    } else {
        match IpAddr::parse_spec(items[0]) {
            Some(ip) => seq![ip] + ip_items(items.drop_first()),
            None => ip_items(items.drop_first()),
        }
    }
}

/// The draft after a key-value pair of its section, where the value denotes the given key if it
/// denotes one. The first `Address` counts, of other single values the last, and lists add up.
/// Other names are passed over.
pub open spec fn apply_pair_with(
    draft: Draft,
    name: Seq<char>,
    value: Seq<char>,
    key: Option<Seq<u8>>,
) -> Result<Draft, ConfigErrorModel> {
    if draft.section == Section::Interface && name == "PrivateKey"@ {
        match key {
            Some(key) => Ok(Draft { private_key: Some(key), ..draft }),
            None => Err(ConfigErrorModel::InvalidKey("PrivateKey"@)),
        }
    } else if draft.section == Section::Interface && name == "Address"@ {
        match cidr_items(split_list_spec(value)) {
            Ok(list) => if draft.address is None && list.len() > 0 {
                Ok(Draft { address: Some(list[0]), ..draft })
            } else {
                Ok(draft)
            },
            Err(item) => Err(
                ConfigErrorModel::InvalidIpv4Cidr { field: "Interface.Address"@, value: item },
            ),
        }
    } else if draft.section == Section::Interface && name == "DNS"@ {
        Ok(Draft { dns_servers: draft.dns_servers + ip_items(split_list_spec(value)), ..draft })
    } else if draft.section == Section::Peer && name == "PublicKey"@ {
        match key {
            Some(key) => Ok(Draft { peer_public_key: Some(key), ..draft }),
            None => Err(ConfigErrorModel::InvalidKey("PublicKey"@)),
        }
    } else if draft.section == Section::Peer && name == "PresharedKey"@ {
        match key {
            Some(key) => Ok(Draft { preshared_key: Some(key), ..draft }),
            None => Err(ConfigErrorModel::InvalidKey("PresharedKey"@)),
        }
    } else if draft.section == Section::Peer && name == "Endpoint"@ {
        Ok(Draft { endpoint: Some(value), ..draft })
    } else if draft.section == Section::Peer && name == "AllowedIPs"@ {
        match cidr_items(split_list_spec(value)) {
            Ok(list) => Ok(Draft { allowed_ips: draft.allowed_ips + list, ..draft }),
            Err(item) => Err(
                ConfigErrorModel::InvalidIpv4Cidr { field: "Peer.AllowedIPs"@, value: item },
            ),
        }
    } else {
        Ok(draft)
    }
}

/// Whether a key-value pair of the section holds a key.
pub open spec fn is_key_field(section: Section, name: Seq<char>) -> bool {
    (section == Section::Interface && name == "PrivateKey"@) || (section == Section::Peer && (name
        == "PublicKey"@ || name == "PresharedKey"@))
}

/// The draft after a key-value pair of its section.
pub open spec fn apply_pair(draft: Draft, name: Seq<char>, value: Seq<char>) -> Result<
    Draft,
    ConfigErrorModel,
> {
    apply_pair_with(draft, name, value, key_spec(value))
}

/// What a line says: comments start with `#`, and white space round a line does not count.
pub open spec fn line_content(raw: Seq<char>) -> Seq<char> {
    trim_spec(raw.take(first_index(raw, '#')))
}

/// The section that a header names.
pub open spec fn section_named(name: Seq<char>) -> Section {
    if name == "Interface"@ {
        Section::Interface
    } else if name == "Peer"@ {
        Section::Peer
    } else {
        Section::Other
    }
}

/// The draft after a line.
pub open spec fn apply_line(draft: Draft, raw: Seq<char>, number: int) -> Result<
    Draft,
    ConfigErrorModel,
> {
    let line = line_content(raw);
    if line.len() == 0 {
        Ok(draft)
    } else if line[0] == '[' && line.last() == ']' {
        let section = section_named(line.subrange(1, line.len() - 1));
        Ok(
            Draft {
                section,
                peers: if section == Section::Peer {
                    draft.peers + 1
                } else {
                    draft.peers
                },
                ..draft
            },
        )
    } else {
        match split_once_spec(line, '=') {
            None => Err(ConfigErrorModel::InvalidLine { line: number }),
            Some((name, value)) => apply_pair(draft, trim_spec(name), trim_spec(value)),
        }
    }
}

/// The draft after the lines from position `i` on.
pub open spec fn apply_lines(draft: Draft, lines: Seq<Seq<char>>, i: int) -> Result<
    Draft,
    ConfigErrorModel,
>
    decreases lines.len() - i,
{
    if i >= lines.len() {
        Ok(draft)
    } else {
        match apply_line(draft, lines[i], i + 1) {
            Ok(next) => apply_lines(next, lines, i + 1),
            Err(e) => Err(e),
        }
    }
}

/// The configuration that a complete draft describes.
pub open spec fn finish_draft(draft: Draft) -> Result<ConfigModel, ConfigErrorModel> {
    if draft.peers > 1 {
        Err(ConfigErrorModel::MultiplePeers)
    } else if draft.private_key is None {
        Err(ConfigErrorModel::Missing("Interface.PrivateKey"@))
    } else if draft.peer_public_key is None {
        Err(ConfigErrorModel::Missing("Peer.PublicKey"@))
    } else if draft.endpoint is None {
        Err(ConfigErrorModel::Missing("Peer.Endpoint"@))
    } else {
        Ok(
            ConfigModel {
                private_key: draft.private_key.unwrap(),
                peer_public_key: draft.peer_public_key.unwrap(),
                preshared_key: draft.preshared_key,
                endpoint: draft.endpoint.unwrap(),
                address: draft.address,
                dns_servers: draft.dns_servers,
                allowed_ips: draft.allowed_ips,
            },
        )
    }
}

/// The configuration that a text describes.
pub open spec fn parse_config_spec(input: Seq<char>) -> Result<ConfigModel, ConfigErrorModel> {
    match apply_lines(empty_draft(), lines_spec(input), 0) {
        Ok(draft) => finish_draft(draft),
        Err(e) => Err(e),
    }
}

/// What has been read of a configuration so far.
pub struct DraftConfig {
    section: Section,
    peers: usize,
    private_key: Option<SecretKey>,
    peer_public_key: Option<[u8; 32]>,
    preshared_key: Option<SecretKey>,
    endpoint: Option<String>,
    address: Option<Ipv4Cidr>,
    dns_servers: Vec<IpAddr>,
    allowed_ips: Vec<Ipv4Cidr>,
}

impl View for DraftConfig {
    type V = Draft;

    closed spec fn view(&self) -> Draft {
        Draft {
            section: self.section,
            peers: self.peers as int,
            private_key: match self.private_key {
                Some(key) => Some(key@),
                None => None,
            },
            peer_public_key: match self.peer_public_key {
                Some(key) => Some(key@),
                None => None,
            },
            preshared_key: match self.preshared_key {
                Some(key) => Some(key@),
                None => None,
            },
            endpoint: match self.endpoint {
                Some(endpoint) => Some(endpoint@),
                None => None,
            },
            address: match self.address {
                Some(cidr) => Some(cidr.parts()),
                None => None,
            },
            dns_servers: ip_models(self.dns_servers@),
            allowed_ips: cidr_parts(self.allowed_ips@),
        }
    }
}

/// The view of an optional key.
pub open spec fn key_view(key: Option<SecretKey>) -> Option<Seq<u8>> {
    match key {
        Some(key) => Some(key@),
        None => None,
    }
}

/// The IPv4 networks among the items, or the position of the first item that is none.
fn read_cidrs(items: &Vec<&str>) -> (r: Result<Vec<Ipv4Cidr>, usize>)
    ensures
        match r {
            Ok(list) => cidr_items(views(items@)) == Ok::<Seq<(Ipv4Addr, int)>, Seq<char>>(
                cidr_parts(list@),
            ),
            Err(at) => at < items@.len() && cidr_items(views(items@)) == Err::<
                Seq<(Ipv4Addr, int)>,
                Seq<char>,
            >(items@[at as int]@),
        },
{
    let ghost all = views(items@);
    let mut list: Vec<Ipv4Cidr> = Vec::new();
    let mut i: usize = 0;
    assert(all.skip(0) =~= all);
    assert(forall|rest: Seq<(Ipv4Addr, int)>| cidr_parts(list@) + rest =~= rest);
    while i < items.len()
        invariant
            i <= items@.len(),
            all == views(items@),
            cidr_items(all) == (match cidr_items(all.skip(i as int)) {
                Ok(rest) => Ok(cidr_parts(list@) + rest),
                Err(item) => Err(item),
            }),
        decreases items@.len() - i,
    {
        let ghost left = all.skip(i as int);
        assert(left[0] == items@[i as int]@);
        assert(left.drop_first() =~= all.skip(i + 1));
        if !has_char(items[i], ':') {
            match Ipv4Cidr::parse(items[i]) {
                Some(cidr) => {
                    let ghost before = list@;
                    list.push(cidr);
                    assert(forall|rest: Seq<(Ipv4Addr, int)>|
                        #[trigger] (cidr_parts(list@) + rest) =~= cidr_parts(before) + (seq![
                            cidr.parts(),
                        ] + rest));
                },
                None => {
                    return Err(i);
                },
            }
        }
        i = i + 1;
    }
    assert(all.skip(i as int) =~= Seq::empty());
    assert(cidr_parts(list@) + Seq::empty() =~= cidr_parts(list@));
    Ok(list)
}

/// Appends the addresses among the items.
fn read_ips(items: &Vec<&str>, list: &mut Vec<IpAddr>)
    ensures
        ip_models(final(list)@) == ip_models(old(list)@) + ip_items(views(items@)),
{
    let ghost all = views(items@);
    let ghost start = list@;
    let mut i: usize = 0;
    assert(all.skip(0) =~= all);
    while i < items.len()
        invariant
            i <= items@.len(),
            all == views(items@),
            ip_models(list@) + ip_items(all.skip(i as int)) == ip_models(start) + ip_items(all),
        decreases items@.len() - i,
    {
        let ghost left = all.skip(i as int);
        assert(left[0] == items@[i as int]@);
        assert(left.drop_first() =~= all.skip(i + 1));
        if let Some(ip) = IpAddr::parse(items[i]) {
            let ghost before = list@;
            list.push(ip);
            assert(ip_models(list@) + ip_items(all.skip(i + 1)) =~= ip_models(before) + ip_items(
                left,
            ));
        }
        i = i + 1;
    }
    assert(all.skip(i as int) =~= Seq::empty());
    assert(ip_models(list@) + Seq::empty() =~= ip_models(list@));
}

impl DraftConfig {
    /// Nothing read yet.
    pub fn new() -> (r: DraftConfig)
        ensures
            r@ == empty_draft(),
    {
        let draft = DraftConfig {
            section: Section::Outside,
            peers: 0,
            private_key: None,
            peer_public_key: None,
            preshared_key: None,
            endpoint: None,
            address: None,
            dns_servers: Vec::new(),
            allowed_ips: Vec::new(),
        };
        assert(draft@ =~= empty_draft());
        draft
    }

    fn apply_key(&mut self, name: &str, key: Option<SecretKey>) -> (r: Result<(), ConfigError>)
        requires
            is_key_field(old(self)@.section, name@),
            key matches Some(key) ==> key@.len() == 32,
        ensures
            forall|value: Seq<char>|
                match r {
                    Ok(_) => #[trigger] apply_pair_with(old(self)@, name@, value, key_view(key))
                        == Ok::<Draft, ConfigErrorModel>(final(self)@),
                    Err(e) => apply_pair_with(old(self)@, name@, value, key_view(key)) == Err::<
                        Draft,
                        ConfigErrorModel,
                    >(e@),
                },
    {
        proof {
            reveal_strlit("PublicKey");
            reveal_strlit("PresharedKey");
            reveal_strlit("Endpoint");
            reveal_strlit("AllowedIPs");
            assert("PublicKey"@.len() == 9 && "PresharedKey"@.len() == 12);
        }
        if self.section == Section::Interface {
            match key {
                Some(key) => {
                    self.private_key = Some(key);
                    Ok(())
                },
                None => Err(ConfigError::InvalidKey("PrivateKey")),
            }
        } else if same_text(name, "PublicKey") {
            match key {
                Some(key) => {
                    self.peer_public_key = Some(*key.bytes());
                    Ok(())
                },
                None => Err(ConfigError::InvalidKey("PublicKey")),
            }
        } else {
            match key {
                Some(key) => {
                    self.preshared_key = Some(key);
                    Ok(())
                },
                None => Err(ConfigError::InvalidKey("PresharedKey")),
            }
        }
    }

    /// Takes a key-value pair of the section, where the value denotes the given key if it denotes
    /// one.
    pub fn apply_pair_with(&mut self, name: &str, value: &str, key: Option<SecretKey>) -> (r: Result<
        (),
        ConfigError,
    >)
        requires
            key matches Some(key) ==> key@.len() == 32,
        ensures
            match r {
                Ok(_) => apply_pair_with(old(self)@, name@, value@, key_view(key)) == Ok::<
                    Draft,
                    ConfigErrorModel,
                >(final(self)@),
                Err(e) => apply_pair_with(old(self)@, name@, value@, key_view(key)) == Err::<
                    Draft,
                    ConfigErrorModel,
                >(e@),
            },
    {
        let interface: bool = self.section == Section::Interface;
        let peer: bool = self.section == Section::Peer;
        if self.holds_key(name) {
            return self.apply_key(name, key);
        }
        if interface && same_text(name, "Address") {
            let items = split_list(value);
            match read_cidrs(&items) {
                Ok(list) => {
                    if self.address.is_none() && list.len() > 0 {
                        self.address = Some(list[0]);
                    }
                },
                Err(at) => {
                    return Err(
                        ConfigError::InvalidIpv4Cidr {
                            field: "Interface.Address",
                            value: items[at].to_string(),
                        },
                    );
                },
            }
        } else if interface && same_text(name, "DNS") {
            let items = split_list(value);
            read_ips(&items, &mut self.dns_servers);
        } else if peer && same_text(name, "Endpoint") {
            self.endpoint = Some(value.to_string());
        } else if peer && same_text(name, "AllowedIPs") {
            let items = split_list(value);
            match read_cidrs(&items) {
                Ok(list) => {
                    let ghost before = self.allowed_ips@;
                    push_cidrs(&mut self.allowed_ips, &list);
                    assert(cidr_parts(self.allowed_ips@) =~= cidr_parts(before) + cidr_parts(
                        list@,
                    ));
                },
                Err(at) => {
                    return Err(
                        ConfigError::InvalidIpv4Cidr {
                            field: "Peer.AllowedIPs",
                            value: items[at].to_string(),
                        },
                    );
                },
            }
        }
        Ok(())
    }

    fn holds_key(&self, name: &str) -> (r: bool)
        ensures
            r == is_key_field(self@.section, name@),
    {
        (self.section == Section::Interface && same_text(name, "PrivateKey")) || (self.section
            == Section::Peer && (same_text(name, "PublicKey") || same_text(name, "PresharedKey")))
    }

    fn apply_pair(&mut self, name: &str, value: &str) -> (r: Result<(), ConfigError>)
        ensures
            match r {
                Ok(_) => apply_pair(old(self)@, name@, value@) == Ok::<Draft, ConfigErrorModel>(
                    final(self)@,
                ),
                Err(e) => apply_pair(old(self)@, name@, value@) == Err::<Draft, ConfigErrorModel>(
                    e@,
                ),
            },
    {
        let key = if self.holds_key(name) {
            SecretKey::from_base64(value)
        } else {
            None
        };
        self.apply_pair_with(name, value, key)
    }

    /// Takes a line, the first of which has the number one.
    pub fn apply_line(&mut self, raw: &str, number: usize) -> (r: Result<(), ConfigError>)
        requires
            old(self)@.peers < number,
        ensures
            match r {
                Ok(_) => apply_line(old(self)@, raw@, number as int) == Ok::<
                    Draft,
                    ConfigErrorModel,
                >(final(self)@),
                Err(e) => apply_line(old(self)@, raw@, number as int) == Err::<
                    Draft,
                    ConfigErrorModel,
                >(e@),
            },
    {
        let chars = chars_of(raw);
        let comment: usize = find_char(&chars, '#');
        let content = raw.substring_char(0, comment);
        assert(content@ =~= raw@.take(first_index(raw@, '#')));
        let line = trim(content);
        let chars = chars_of(line);
        if chars.len() == 0 {
            return Ok(());
        }
        if chars[0] == '[' && chars[chars.len() - 1] == ']' {
            assert(chars@.len() >= 2);
            let name = line.substring_char(1, chars.len() - 1);
            self.section = if same_text(name, "Interface") {
                Section::Interface
            } else if same_text(name, "Peer") {
                self.peers = self.peers + 1;
                Section::Peer
            } else {
                Section::Other
            };
            proof {
                reveal_strlit("Interface");
                reveal_strlit("Peer");
                assert("Interface"@.len() != "Peer"@.len());
            }
            return Ok(());
        }
        match split_once(line, '=') {
            Some((name, value)) => self.apply_pair(trim(name), trim(value)),
            None => Err(ConfigError::InvalidLine { line: number }),
        }
    }

    /// The configuration, if it is complete.
    pub fn finish(self) -> (r: Result<ProbeConfig, ConfigError>)
        ensures
            match r {
                Ok(config) => finish_draft(self@) == Ok::<ConfigModel, ConfigErrorModel>(config@),
                Err(e) => finish_draft(self@) == Err::<ConfigModel, ConfigErrorModel>(e@),
            },
    {
        if self.peers > 1 {
            return Err(ConfigError::MultiplePeers);
        }
        let private_key = match self.private_key {
            Some(key) => key,
            None => {
                return Err(ConfigError::Missing("Interface.PrivateKey"));
            },
        };
        let peer_public_key = match self.peer_public_key {
            Some(key) => key,
            None => {
                return Err(ConfigError::Missing("Peer.PublicKey"));
            },
        };
        let endpoint = match self.endpoint {
            Some(endpoint) => endpoint,
            None => {
                return Err(ConfigError::Missing("Peer.Endpoint"));
            },
        };
        Ok(
            ProbeConfig {
                private_key,
                peer_public_key,
                preshared_key: self.preshared_key,
                endpoint,
                address: self.address,
                dns_servers: self.dns_servers,
                allowed_ips: self.allowed_ips,
            },
        )
    }
}

fn push_cidrs(out: &mut Vec<Ipv4Cidr>, list: &Vec<Ipv4Cidr>)
    ensures
        final(out)@ == old(out)@ + list@,
{
    let mut i: usize = 0;
    assert(out@ =~= old(out)@ + list@.take(0));
    while i < list.len()
        invariant
            i <= list@.len(),
            out@ == old(out)@ + list@.take(i as int),
        decreases list@.len() - i,
    {
        out.push(list[i]);
        i = i + 1;
        assert(out@ =~= old(out)@ + list@.take(i as int));
    }
    assert(list@.take(list@.len() as int) =~= list@);
}

impl ProbeConfig {
    /// A configuration made of both keys, in base64, and an endpoint. White space round the keys
    /// does not count.
    pub fn from_parts(private_key: &str, peer_public_key: &str, endpoint: &str) -> (r: Result<
        ProbeConfig,
        ConfigError,
    >)
        ensures
            match r {
                Ok(config) => key_spec(trim_spec(private_key@)) == Some(config@.private_key)
                    && key_spec(trim_spec(peer_public_key@)) == Some(config@.peer_public_key)
                    && config@ == (ConfigModel {
                    private_key: config@.private_key,
                    peer_public_key: config@.peer_public_key,
                    preshared_key: None,
                    endpoint: endpoint@,
                    address: None,
                    dns_servers: Seq::empty(),
                    allowed_ips: Seq::empty(),
                }),
                Err(e) => if key_spec(trim_spec(private_key@)) is None {
                    e@ == ConfigErrorModel::InvalidKey("PrivateKey"@)
                } else {
                    key_spec(trim_spec(peer_public_key@)) is None && e@
                        == ConfigErrorModel::InvalidKey("PublicKey"@)
                },
            },
    {
        let private_key = match parse_private_key(trim(private_key)) {
            Ok(key) => key,
            Err(e) => {
                return Err(e);
            },
        };
        let peer_public_key = match parse_key("PublicKey", trim(peer_public_key)) {
            Ok(key) => key,
            Err(e) => {
                return Err(e);
            },
        };
        let config = ProbeConfig {
            private_key,
            peer_public_key,
            preshared_key: None,
            endpoint: endpoint.to_string(),
            address: None,
            dns_servers: Vec::new(),
            allowed_ips: Vec::new(),
        };
        assert(config@.dns_servers =~= Seq::empty());
        assert(config@.allowed_ips =~= Seq::empty());
        Ok(config)
    }

    /// Reads a configuration file.
    pub fn parse(input: &str) -> (r: Result<ProbeConfig, ConfigError>)
        ensures
            match r {
                Ok(config) => parse_config_spec(input@) == Ok::<ConfigModel, ConfigErrorModel>(
                    config@,
                ),
                Err(e) => parse_config_spec(input@) == Err::<ConfigModel, ConfigErrorModel>(e@),
            },
    {
        let list = lines(input);
        let mut draft = DraftConfig::new();
        let ghost all = views(list@);
        let mut i: usize = 0;
        while i < list.len()
            invariant
                i <= list@.len(),
                all == views(list@),
                all == lines_spec(input@),
                draft@.peers <= i,
                apply_lines(empty_draft(), all, 0) == apply_lines(draft@, all, i as int),
            decreases list@.len() - i,
        {
            assert(all[i as int] == list@[i as int]@);
            match draft.apply_line(list[i], i + 1) {
                Ok(()) => {},
                Err(e) => {
                    return Err(e);
                },
            }
            i = i + 1;
        }
        draft.finish()
    }

    pub fn endpoint(&self) -> (r: &str)
        ensures
            r@ == self@.endpoint,
    {
        self.endpoint.as_str()
    }

    /// Sets what data checks use, and leaves keys and endpoint alone.
    pub fn set_data_config(
        &mut self,
        address: Ipv4Cidr,
        dns_servers: Vec<IpAddr>,
        allowed_ips: Vec<Ipv4Cidr>,
    )
        ensures
            final(self)@ == (ConfigModel {
                address: Some(address.parts()),
                dns_servers: ip_models(dns_servers@),
                allowed_ips: cidr_parts(allowed_ips@),
                ..old(self)@
            }),
    {
        self.address = Some(address);
        self.dns_servers = dns_servers;
        self.allowed_ips = allowed_ips;
    }

    /// The base64 public key that belongs to the configured private key.
    pub fn client_public_key(&self) -> (r: String)
        ensures
            r@ == base64_text(x25519_public(self@.private_key)),
    {
        self.private_key.public_key_text()
    }

    /// The address of the interface.
    pub fn address(&self) -> (r: Option<Ipv4Cidr>)
        ensures
            self@.address == (match r {
                Some(cidr) => Some(cidr.parts()),
                None => None,
            }),
    {
        self.address
    }

    /// The DNS servers, in order.
    pub fn dns_servers(&self) -> (r: &Vec<IpAddr>)
        ensures
            ip_models(r@) == self@.dns_servers,
    {
        &self.dns_servers
    }

    /// The networks that the peer may use.
    pub fn allowed_ips(&self) -> (r: &Vec<Ipv4Cidr>)
        ensures
            cidr_parts(r@) == self@.allowed_ips,
    {
        &self.allowed_ips
    }

    /// Whether a preshared key is configured.
    pub fn has_preshared_key(&self) -> (r: bool)
        ensures
            r == (self@.preshared_key is Some),
    {
        self.preshared_key.is_some()
    }

    /// A tunnel with the configured keys and without a session yet.
    pub fn open_tunnel(&self) -> (r: Tunnel)
        ensures
            r.keys() == (self@.private_key, self@.peer_public_key, self@.preshared_key),
    {
        Tunnel::new(&self.private_key, &self.peer_public_key, &self.preshared_key)
    }
}

/// The notation of a network gives the network back.
pub proof fn cidr_text_reads_back(address: Ipv4Addr, prefix: int)
    requires
        0 <= prefix <= 32,
    ensures
        Ipv4Cidr::parse_spec(Ipv4Cidr::text_spec(address, prefix)) == Some((address, prefix)),
{
    let text = address.text_spec();
    let s = Ipv4Cidr::text_spec(address, prefix);
    crate::net::ipv4_text_reads_back(address);
    crate::net::lemma_ipv4_chars(address);
    crate::text::decimal_reads_back(prefix);
    assert forall|k: int| 0 <= k < text.len() implies s[k] != '/' by {
        assert(crate::net::is_address_char(text[k]));
    }
    crate::text::lemma_first_index_unique(s, '/', text.len() as int);
    assert(s.take(text.len() as int) =~= text);
    assert(s.skip(text.len() as int + 1) =~= decimal_spec(prefix));
    assert(crate::text::is_digit_spec(decimal_spec(prefix)[0]));
}

} // verus!
