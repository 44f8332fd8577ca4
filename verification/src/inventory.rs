//! The inventory of servers: which records are usable, and how they are ordered and grouped.
use crate::keys::{all_key_characters, decode_key, key_spec};
use crate::net::{same_endpoint, IpAddr, IpModel, SocketAddr, SocketAddrV4, SocketAddrV6, SocketModel};
use crate::order::{
    is_stable_order, key_less, key_views, push_text_key, stable_order, text_before, text_key,
    text_key_order, text_less,
};
use crate::text::{
    ascii_lower, ascii_lower_spec, chars_of, contains_text, decimal, decimal_spec, has_control,
    is_control_spec, occurs, same_text, sanitize_display, trim, trim_spec, without_controls,
};
use vstd::prelude::*;
use vstd::string::*;
use vstd::utf8::{encode_utf8, valid_utf8};

verus! {

/// Where the inventory is fetched from.
pub const INVENTORY_URL: &'static str = "https://api.nordvpn.com/v1/servers";

/// The largest inventory that is read.
pub const MAX_INVENTORY_BYTES: u64 = 67_108_864;

/// The version of the cache's format.
pub const CACHE_SCHEMA_VERSION: u8 = 1;

/// The port of all servers.
pub const WIREGUARD_PORT: u16 = 51820;

/// A server that can be probed.
#[derive(Debug, Clone, PartialEq, Eq)]
pub struct NordTarget {
    pub name: String,
    pub hostname: String,
    pub endpoint: SocketAddr,
    pub public_key: String,
    pub country: String,
    pub city: String,
    pub load: u8,
}

/// A server that can be probed, as a mathematical value.
#[verifier::ext_equal]
pub struct TargetModel {
    pub name: Seq<char>,
    pub hostname: Seq<char>,
    pub endpoint: SocketModel,
    pub public_key: Seq<char>,
    pub country: Seq<char>,
    pub city: Seq<char>,
    pub load: u8,
}

impl View for NordTarget {
    type V = TargetModel;

    open spec fn view(&self) -> TargetModel {
        TargetModel {
            name: self.name@,
            hostname: self.hostname@,
            endpoint: self.endpoint@,
            public_key: self.public_key@,
            country: self.country@,
            city: self.city@,
            load: self.load,
        }
    }
}

/// The servers as mathematical values.
pub open spec fn target_models(list: Seq<NordTarget>) -> Seq<TargetModel> {
    Seq::new(list.len(), |i: int| list[i]@)
}

impl NordTarget {
    /// A copy of the server.
    pub fn copy(&self) -> (r: NordTarget)
        ensures
            r@ == self@,
    {
        NordTarget {
            name: self.name.clone(),
            hostname: self.hostname.clone(),
            endpoint: self.endpoint,
            public_key: self.public_key.clone(),
            country: self.country.clone(),
            city: self.city.clone(),
            load: self.load,
        }
    }
}

/// A record of the remote inventory.
#[derive(Debug)]
pub struct ApiServer {
    pub name: String,
    pub hostname: String,
    pub station: String,
    pub load: u8,
    pub status: String,
    pub locations: Vec<ApiLocation>,
    pub technologies: Vec<ApiTechnology>,
}

/// Where a server stands.
#[derive(Debug)]
pub struct ApiLocation {
    pub country: String,
    pub city: String,
}

/// A protocol that a server offers.
#[derive(Debug)]
pub struct ApiTechnology {
    pub identifier: String,
    pub status: String,
    pub metadata: Vec<ApiMetadata>,
}

/// A property of a protocol.
#[derive(Debug)]
pub struct ApiMetadata {
    pub name: String,
    pub value: String,
}

/// Why there is no inventory.
#[derive(Debug)]
pub enum InventoryError {
    Request(String),
    Json(String),
    BodyTooLarge,
    Body(String),
    BodyEncoding,
    NoUsableTargets,
}

impl InventoryError {
    /// The message for the user.
    pub open spec fn message_spec(self) -> Seq<char> {
        match self {
            InventoryError::Request(error) => "Nord inventory request failed: "@ + error@,
            InventoryError::Json(error) => "Nord inventory JSON is invalid: "@ + error@,
            InventoryError::BodyTooLarge => "Nord inventory response exceeded the "@
                + decimal_spec(MAX_INVENTORY_BYTES as int) + "-byte limit"@,
            InventoryError::Body(error) => "could not read Nord inventory response: "@ + error@,
            InventoryError::BodyEncoding => "Nord inventory response is not valid UTF-8"@,
            InventoryError::NoUsableTargets => {
                "Nord inventory contained no usable online WireGuard candidates"@
            },
        }
    }

    /// The message for the user.
    pub fn message(&self) -> (r: String)
        ensures
            r@ == self.message_spec(),
    {
        match self {
            InventoryError::Request(error) => joined("Nord inventory request failed: ", error),
            InventoryError::Json(error) => joined("Nord inventory JSON is invalid: ", error),
            InventoryError::BodyTooLarge => {
                let mut r = "Nord inventory response exceeded the ".to_string();
                r.append(decimal(MAX_INVENTORY_BYTES).as_str());
                r.append("-byte limit");
                r
            },
            InventoryError::Body(error) => joined("could not read Nord inventory response: ", error),
            InventoryError::BodyEncoding => "Nord inventory response is not valid UTF-8".to_string(),
            InventoryError::NoUsableTargets => {
                "Nord inventory contained no usable online WireGuard candidates".to_string()
            },
        }
    }
}

fn joined(text: &str, error: &String) -> (r: String)
    ensures
        r@ == text@ + error@,
{
    let mut r = text.to_string();
    r.append(error.as_str());
    r
}

/// Checks a response of the given size, of which at most one byte more than the maximum was read,
/// and decodes it.
pub fn decode_body(body: &[u8], maximum: u64) -> (r: Result<String, InventoryError>)
    ensures
        match r {
            Ok(text) => body@.len() <= maximum && encode_utf8(text@) == body@,
            Err(InventoryError::BodyTooLarge) => body@.len() > maximum,
            Err(InventoryError::BodyEncoding) => body@.len() <= maximum && !valid_utf8(body@),
            Err(_) => false,
        },
{
    if body.len() as u64 > maximum {
        return Err(InventoryError::BodyTooLarge);
    }
    match std::str::from_utf8(body) {
        Ok(text) => Ok(text.to_string()),
        Err(_) => Err(InventoryError::BodyEncoding),
    }
}

/// Whether a text is a WireGuard key in base64.
pub fn is_wireguard_key(value: &str) -> (r: bool)
    ensures
        r == (key_spec(value@) is Some),
        r ==> all_key_characters(value@),
{
    let mut bytes: [u8; 32] = [0; 32];
    decode_key(value, &mut bytes)
}

/// The position of the first protocol from `i` on that is WireGuard and online, or their number.
pub open spec fn wireguard_index(list: Seq<ApiTechnology>, i: int) -> int
    decreases list.len() - i,
{
    if i >= list.len() || (list[i].identifier@ == "wireguard_udp"@ && list[i].status@
        == "online"@) {
        i
    } else {
        wireguard_index(list, i + 1)
    }
}

/// The position of the first property from `i` on that is the public key, or their number.
pub open spec fn public_key_index(list: Seq<ApiMetadata>, i: int) -> int
    decreases list.len() - i,
{
    if i >= list.len() || list[i].name@ == "public_key"@ {
        i
    } else {
        public_key_index(list, i + 1)
    }
}

/// The public key that a server announces for WireGuard, if it is online with it.
pub open spec fn announced_key(technologies: Seq<ApiTechnology>) -> Option<Seq<char>> {
    let i = wireguard_index(technologies, 0);
    if i >= technologies.len() {
        None
    } else {
        let k = public_key_index(technologies[i].metadata@, 0);
        if k >= technologies[i].metadata@.len() {
            None
        } else {
            Some(trim_spec(technologies[i].metadata@[k].value@))
        }
    }
}

/// The endpoint at an address.
pub open spec fn endpoint_at(ip: IpModel) -> SocketModel {
    match ip {
        IpModel::V4(address) => SocketModel::V4 { address, port: WIREGUARD_PORT },
        IpModel::V6(groups) => SocketModel::V6 {
            groups,
            port: WIREGUARD_PORT,
            flowinfo: 0,
            scope_id: 0,
        },
    }
}

/// The server that a record describes, if it is usable: online, with a location, an announced key
/// that is valid, a numeric address, and names that are not empty without their control
/// characters.
pub open spec fn candidate_if(server: ApiServer, key_valid: bool) -> Option<TargetModel> {
    if server.status@ != "online"@ || server.locations@.len() == 0 {
        None
    } else {
        match (announced_key(server.technologies@), IpAddr::parse_spec(server.station@)) {
            (Some(public_key), Some(ip)) => {
                let target = TargetModel {
                    name: without_controls(server.name@),
                    hostname: without_controls(server.hostname@),
                    endpoint: endpoint_at(ip),
                    public_key,
                    country: without_controls(server.locations@[0].country@),
                    city: without_controls(server.locations@[0].city@),
                    load: server.load,
                };
                if target.name.len() == 0 || target.hostname.len() == 0 || target.country.len() == 0
                    || target.city.len() == 0 || public_key.len() == 0 || !key_valid {
                    None
                } else {
                    Some(target)
                }
            },
            _ => None,
        }
    }
}

/// Whether a server announces a WireGuard key.
pub open spec fn announces_key(server: ApiServer) -> bool {
    announced_key(server.technologies@) matches Some(key) && key_spec(key) is Some
}

/// The server that a record describes, if it is usable.
pub open spec fn candidate_of(server: ApiServer) -> Option<TargetModel> {
    candidate_if(server, announces_key(server))
}

/// Whether two servers have the same endpoint and key.
pub open spec fn same_server(a: TargetModel, b: TargetModel) -> bool {
    a.endpoint == b.endpoint && a.public_key == b.public_key
}

/// Whether a server of the list has the same endpoint and key.
pub open spec fn is_known(list: Seq<TargetModel>, target: TargetModel) -> bool {
    exists|i: int| 0 <= i < list.len() && same_server(#[trigger] list[i], target)
}

/// The usable servers among the records, each endpoint and key once. A record that could not be
/// read is passed over.
pub open spec fn usable_servers(records: Seq<Option<ApiServer>>) -> Seq<TargetModel>
    decreases records.len(),
{
    if records.len() == 0 {
        Seq::empty()
    } else {
        let before = usable_servers(records.drop_last());
        match records.last() {
            Some(server) => match candidate_of(server) {
                Some(target) => if is_known(before, target) {
                    before
                } else {
                    before.push(target)
                },
                None => before,
            },
            None => before,
        }
    }
}

/// By which servers are sorted in the inventory: country, city, name, load and host name.
pub open spec fn inventory_key(target: TargetModel) -> Seq<u32> {
    text_key(target.country) + (text_key(target.city) + (text_key(target.name) + (seq![
        target.load as u32,
    ] + text_key(target.hostname))))
}

/// The sort keys of the servers.
pub open spec fn inventory_keys(list: Seq<TargetModel>) -> Seq<Seq<u32>> {
    list.map_values(|target: TargetModel| inventory_key(target))
}

/// The items of the list in the given order.
pub open spec fn reordered(list: Seq<TargetModel>, order: Seq<usize>) -> Seq<TargetModel> {
    order.map_values(|i: usize| list[i as int])
}

/// Whether `sorted` is the list in the order of the keys; equal keys keep their order.
pub open spec fn sorted_by(
    list: Seq<TargetModel>,
    keys: Seq<Seq<u32>>,
    sorted: Seq<TargetModel>,
) -> bool {
    exists|order: Seq<usize>| #[trigger]
        is_stable_order(keys, order) && sorted == reordered(list, order)
}

/// Whether one server stands before another in the inventory: by country, then city, name, load
/// and host name.
pub open spec fn inventory_before(a: TargetModel, b: TargetModel) -> bool {
    if a.country != b.country {
        text_less(a.country, b.country)
    } else if a.city != b.city {
        text_less(a.city, b.city)
    } else if a.name != b.name {
        text_less(a.name, b.name)
    } else if a.load != b.load {
        a.load < b.load
    } else {
        text_less(a.hostname, b.hostname)
    }
}

/// Sort keys compare as the servers' fields do, one after the other.
pub proof fn inventory_key_compares_fields(a: TargetModel, b: TargetModel)
    ensures
        key_less(inventory_key(a), inventory_key(b)) == inventory_before(a, b),
{
    let tail_a = seq![a.load as u32] + text_key(a.hostname);
    let tail_b = seq![b.load as u32] + text_key(b.hostname);
    text_key_order(
        a.country,
        text_key(a.city) + (text_key(a.name) + tail_a),
        b.country,
        text_key(b.city) + (text_key(b.name) + tail_b),
    );
    text_key_order(a.city, text_key(a.name) + tail_a, b.city, text_key(b.name) + tail_b);
    text_key_order(a.name, tail_a, b.name, tail_b);
    assert(tail_a.drop_first() =~= text_key(a.hostname));
    assert(tail_b.drop_first() =~= text_key(b.hostname));
    text_key_order(a.hostname, Seq::empty(), b.hostname, Seq::empty());
    assert(text_key(a.hostname) + Seq::empty() =~= text_key(a.hostname));
    assert(text_key(b.hostname) + Seq::empty() =~= text_key(b.hostname));
    crate::order::text_order_total(a.hostname, b.hostname);
}

fn find_wireguard(list: &Vec<ApiTechnology>) -> (r: usize)
    ensures
        r == wireguard_index(list@, 0),
        r <= list@.len(),
{
    let mut i: usize = 0;
    while i < list.len()
        invariant
            i <= list@.len(),
            wireguard_index(list@, 0) == wireguard_index(list@, i as int),
        decreases list@.len() - i,
    {
        if same_text(list[i].identifier.as_str(), "wireguard_udp") && same_text(
            list[i].status.as_str(),
            "online",
        ) {
            return i;
        }
        i = i + 1;
    }
    i
}

fn find_public_key(list: &Vec<ApiMetadata>) -> (r: usize)
    ensures
        r == public_key_index(list@, 0),
        r <= list@.len(),
{
    let mut i: usize = 0;
    while i < list.len()
        invariant
            i <= list@.len(),
            public_key_index(list@, 0) == public_key_index(list@, i as int),
        decreases list@.len() - i,
    {
        if same_text(list[i].name.as_str(), "public_key") {
            return i;
        }
        i = i + 1;
    }
    i
}

/// The key that a server announces for WireGuard, if it is online with it.
pub fn find_announced_key(technologies: &Vec<ApiTechnology>) -> (r: Option<&str>)
    ensures
        announced_key(technologies@) == (match r {
            Some(key) => Some(key@),
            None => None,
        }),
{
    let i: usize = find_wireguard(technologies);
    if i >= technologies.len() {
        return None;
    }
    let technology = &technologies[i];
    let k: usize = find_public_key(&technology.metadata);
    if k >= technology.metadata.len() {
        return None;
    }
    Some(trim(technology.metadata[k].value.as_str()))
}

/// The server that a record describes, where the announced key is valid or not, if it is usable.
pub fn candidate_with(server: &ApiServer, key_valid: bool) -> (r: Option<NordTarget>)
    ensures
        match r {
            Some(target) => candidate_if(*server, key_valid) == Some(target@),
            None => candidate_if(*server, key_valid) is None,
        },
{
    if !same_text(server.status.as_str(), "online") || server.locations.len() == 0 {
        return None;
    }
    let public_key = match find_announced_key(&server.technologies) {
        Some(key) => key,
        None => {
            return None;
        },
    };
    let endpoint = match IpAddr::parse(server.station.as_str()) {
        Some(IpAddr::V4(ip)) => SocketAddr::V4(SocketAddrV4 { ip, port: WIREGUARD_PORT }),
        Some(IpAddr::V6(ip)) => SocketAddr::V6(
            SocketAddrV6 { ip, port: WIREGUARD_PORT, flowinfo: 0, scope_id: 0 },
        ),
        None => {
            return None;
        },
    };
    let name = sanitize_display(server.name.as_str());
    let hostname = sanitize_display(server.hostname.as_str());
    let country = sanitize_display(server.locations[0].country.as_str());
    let city = sanitize_display(server.locations[0].city.as_str());
    if name.as_str().is_empty() || hostname.as_str().is_empty() || country.as_str().is_empty()
        || city.as_str().is_empty() || public_key.is_empty() || !key_valid {
        return None;
    }
    Some(
        NordTarget {
            name,
            hostname,
            endpoint,
            public_key: public_key.to_string(),
            country,
            city,
            load: server.load,
        },
    )
}

/// The server that a record describes, if it is usable.
pub fn candidate(server: &ApiServer) -> (r: Option<NordTarget>)
    ensures
        match r {
            Some(target) => candidate_of(*server) == Some(target@) && all_key_characters(
                target@.public_key,
            ),
            None => candidate_of(*server) is None,
        },
{
    let key_valid: bool = match find_announced_key(&server.technologies) {
        Some(key) => is_wireguard_key(key),
        None => false,
    };
    candidate_with(server, key_valid)
}

fn is_listed(list: &Vec<NordTarget>, target: &NordTarget) -> (r: bool)
    ensures
        r == is_known(target_models(list@), target@),
{
    let ghost models = target_models(list@);
    let mut i: usize = 0;
    while i < list.len()
        invariant
            i <= list@.len(),
            models == target_models(list@),
            forall|k: int| 0 <= k < i ==> !same_server(#[trigger] models[k], target@),
        decreases list@.len() - i,
    {
        assert(models[i as int] == list@[i as int]@);
        if same_endpoint(list[i].endpoint, target.endpoint) && same_text(
            list[i].public_key.as_str(),
            target.public_key.as_str(),
        ) {
            assert(same_server(models[i as int], target@));
            return true;
        }
        i = i + 1;
    }
    false
}

fn usable(records: &Vec<Option<ApiServer>>) -> (r: Vec<NordTarget>)
    ensures
        target_models(r@) == usable_servers(records@),
{
    let mut list: Vec<NordTarget> = Vec::new();
    let mut i: usize = 0;
    assert(records@.take(0) =~= Seq::empty());
    assert(target_models(list@) =~= Seq::empty());
    while i < records.len()
        invariant
            i <= records@.len(),
            target_models(list@) == usable_servers(records@.take(i as int)),
        decreases records@.len() - i,
    {
        assert(records@.take(i + 1).drop_last() =~= records@.take(i as int));
        assert(records@.take(i + 1).last() == records@[i as int]);
        if let Some(server) = &records[i] {
            if let Some(target) = candidate(server) {
                if !is_listed(&list, &target) {
                    let ghost before = list@;
                    list.push(target);
                    assert(target_models(list@) =~= target_models(before).push(target@));
                }
            }
        }
        i = i + 1;
    }
    assert(records@.take(i as int) =~= records@);
    list
}

fn inventory_sort_key(target: &NordTarget) -> (r: Vec<u32>)
    ensures
        r@ == inventory_key(target@),
{
    let mut key: Vec<u32> = Vec::new();
    push_text_key(&mut key, target.country.as_str());
    push_text_key(&mut key, target.city.as_str());
    push_text_key(&mut key, target.name.as_str());
    key.push(target.load as u32);
    push_text_key(&mut key, target.hostname.as_str());
    assert(key@ =~= inventory_key(target@));
    key
}

/// The servers in the given order.
pub(crate) fn reorder(list: &Vec<NordTarget>, order: &Vec<usize>) -> (r: Vec<NordTarget>)
    requires
        forall|i: int| 0 <= i < order@.len() ==> #[trigger] order@[i] < list@.len(),
    ensures
        target_models(r@) == reordered(target_models(list@), order@),
{
    let ghost all = reordered(target_models(list@), order@);
    let mut r: Vec<NordTarget> = Vec::new();
    let mut i: usize = 0;
    assert(target_models(r@) =~= all.take(0));
    while i < order.len()
        invariant
            i <= order@.len(),
            all == reordered(target_models(list@), order@),
            forall|i: int| 0 <= i < order@.len() ==> #[trigger] order@[i] < list@.len(),
            target_models(r@) == all.take(i as int),
        decreases order@.len() - i,
    {
        let ghost before = r@;
        assert(order@[i as int] < list@.len());
        let item = list[order[i]].copy();
        assert(item@ == all[i as int]);
        r.push(item);
        i = i + 1;
        assert(target_models(r@) =~= target_models(before).push(all[i - 1]));
        assert(all.take(i as int) =~= all.take(i - 1).push(all[i - 1]));
    }
    assert(all.take(i as int) =~= all);
    r
}

/// The usable servers of the records in inventory order. An inventory without any is an error.
pub fn parse(records: &Vec<Option<ApiServer>>) -> (r: Result<Vec<NordTarget>, InventoryError>)
    ensures
        match r {
            Ok(list) => usable_servers(records@).len() > 0 && sorted_by(
                usable_servers(records@),
                inventory_keys(usable_servers(records@)),
                target_models(list@),
            ),
            Err(e) => e is NoUsableTargets && usable_servers(records@).len() == 0,
        },
{
    let list = usable(records);
    let ghost models = target_models(list@);
    if list.len() == 0 {
        return Err(InventoryError::NoUsableTargets);
    }
    let mut keys: Vec<Vec<u32>> = Vec::new();
    let mut i: usize = 0;
    assert(key_views(keys@) =~= inventory_keys(models).take(0));
    while i < list.len()
        invariant
            i <= list@.len(),
            models == target_models(list@),
            key_views(keys@) == inventory_keys(models).take(i as int),
        decreases list@.len() - i,
    {
        let ghost before = keys@;
        let key = inventory_sort_key(&list[i]);
        keys.push(key);
        assert(key@ == inventory_keys(models)[i as int]);
        i = i + 1;
        assert(key_views(keys@) =~= key_views(before).push(key@));
        assert(inventory_keys(models).take(i as int) =~= inventory_keys(models).take(i - 1).push(
            key@,
        ));
    }
    assert(key_views(keys@) =~= inventory_keys(models));
    let order = stable_order(&keys);
    assert(is_stable_order(inventory_keys(models), order@));
    Ok(reorder(&list, &order))
}

/// No two usable servers have the same endpoint and key.
pub proof fn usable_servers_are_distinct(records: Seq<Option<ApiServer>>)
    ensures
        forall|i: int, j: int|
            0 <= i < j < usable_servers(records).len() ==> !#[trigger] same_server(
                usable_servers(records)[i],
                usable_servers(records)[j],
            ),
    decreases records.len(),
{
    if records.len() > 0 {
        usable_servers_are_distinct(records.drop_last());
        let before = usable_servers(records.drop_last());
        let all = usable_servers(records);
        assert forall|i: int, j: int| 0 <= i < j < all.len() implies !#[trigger] same_server(
            all[i],
            all[j],
        ) by {
            assert(all[i] == before[i]);
            if j < before.len() {
                assert(all[j] == before[j]);
            }
        }
    }
}

/// Sorting keeps every server, and puts none before one that belongs before it.
pub proof fn sorted_inventory_is_in_order(list: Seq<TargetModel>, sorted: Seq<TargetModel>)
    requires
        list.len() <= usize::MAX,
        sorted_by(list, inventory_keys(list), sorted),
    ensures
        sorted.len() == list.len(),
        forall|i: int| 0 <= i < list.len() ==> sorted.contains(#[trigger] list[i]),
        forall|i: int| 0 <= i < sorted.len() ==> list.contains(#[trigger] sorted[i]),
        forall|i: int, j: int|
            0 <= i < j < sorted.len() ==> !#[trigger] inventory_before(sorted[j], sorted[i]),
{
    let keys = inventory_keys(list);
    let order = choose|order: Seq<usize>| #[trigger]
        is_stable_order(keys, order) && sorted == reordered(list, order);
    lemma_reordered(list, keys, order);
    assert forall|i: int, j: int| 0 <= i < j < sorted.len() implies !#[trigger] inventory_before(
        sorted[j],
        sorted[i],
    ) by {
        assert(crate::order::goes_before(keys, order[i] as int, order[j] as int));
        inventory_key_compares_fields(sorted[j], sorted[i]);
        inventory_key_compares_fields(sorted[i], sorted[j]);
        assert(keys[order[i] as int] == inventory_key(sorted[i]));
        assert(keys[order[j] as int] == inventory_key(sorted[j]));
        crate::order::key_order_total(inventory_key(sorted[i]), inventory_key(sorted[j]));
    }
}

/// A stable order of the list holds every item.
pub proof fn lemma_reordered(list: Seq<TargetModel>, keys: Seq<Seq<u32>>, order: Seq<usize>)
    requires
        keys.len() == list.len(),
        list.len() <= usize::MAX,
        is_stable_order(keys, order),
    ensures
        reordered(list, order).len() == list.len(),
        forall|i: int| 0 <= i < list.len() ==> reordered(list, order).contains(#[trigger] list[i]),
        forall|i: int|
            0 <= i < list.len() ==> list.contains(#[trigger] reordered(list, order)[i]),
{
    let all = reordered(list, order);
    assert forall|i: int| 0 <= i < list.len() implies all.contains(#[trigger] list[i]) by {
        assert(order.contains(i as usize));
        let k = choose|k: int| 0 <= k < order.len() && order[k] == i as usize;
        assert(all[k] == list[i]);
    }
    assert forall|i: int| 0 <= i < list.len() implies list.contains(#[trigger] all[i]) by {
        assert(order[i] < keys.len());
        assert(all[i] == list[order[i] as int]);
    }
}

/// The servers of one city.
#[derive(Debug, Clone, PartialEq, Eq)]
pub struct CitySummary {
    pub country: String,
    pub city: String,
    pub count: usize,
}

/// The servers of one city, as a mathematical value.
#[verifier::ext_equal]
pub struct CityModel {
    pub country: Seq<char>,
    pub city: Seq<char>,
    pub count: int,
}

impl View for CitySummary {
    type V = CityModel;

    open spec fn view(&self) -> CityModel {
        CityModel { country: self.country@, city: self.city@, count: self.count as int }
    }
}

impl CitySummary {
    /// A copy of the summary.
    pub fn copy(&self) -> (r: CitySummary)
        ensures
            r@ == self@,
    {
        CitySummary { country: self.country.clone(), city: self.city.clone(), count: self.count }
    }
}

/// The summaries as mathematical values.
pub open spec fn city_models(list: Seq<CitySummary>) -> Seq<CityModel> {
    Seq::new(list.len(), |i: int| list[i]@)
}

/// Whether a server's country or city holds the text that is looked for, ASCII case aside. White
/// space round that text does not count, and an empty one is held by all.
pub open spec fn matches_filter(target: TargetModel, filter: Seq<char>) -> bool {
    let wanted = ascii_lower_spec(trim_spec(filter));
    wanted.len() == 0 || occurs(ascii_lower_spec(target.country), wanted) || occurs(
        ascii_lower_spec(target.city),
        wanted,
    )
}

/// How many of the servers stand in the city and match the filter.
pub open spec fn city_count(
    targets: Seq<TargetModel>,
    country: Seq<char>,
    city: Seq<char>,
    filter: Seq<char>,
) -> int
    decreases targets.len(),
{
    if targets.len() == 0 {
        0
    } else {
        city_count(targets.drop_last(), country, city, filter) + if targets.last().country
            == country && targets.last().city == city && matches_filter(targets.last(), filter) {
            1int
        } else {
            0
        }
    }
}

/// Whether one city stands before another: by country, then by name.
pub open spec fn city_before(a: CityModel, b: CityModel) -> bool {
    text_less(a.country, b.country) || (a.country == b.country && text_less(a.city, b.city))
}

/// Whether the list holds exactly the cities of matching servers, in order, each with the number
/// of its servers.
pub open spec fn is_city_list(
    targets: Seq<TargetModel>,
    filter: Seq<char>,
    list: Seq<CityModel>,
) -> bool {
    &&& forall|i: int, j: int|
        0 <= i < j < list.len() ==> #[trigger] city_before(list[i], list[j])
    &&& forall|i: int|
        0 <= i < list.len() ==> (#[trigger] list[i]).count > 0 && list[i].count == city_count(
            targets,
            list[i].country,
            list[i].city,
            filter,
        )
    &&& forall|country: Seq<char>, city: Seq<char>| #[trigger]
        city_count(targets, country, city, filter) > 0 ==> has_city(list, country, city)
}

/// Whether the list holds the city.
pub open spec fn has_city(list: Seq<CityModel>, country: Seq<char>, city: Seq<char>) -> bool {
    exists|i: int|
        0 <= i < list.len() && (#[trigger] list[i]).country == country && list[i].city == city
}

proof fn lemma_city_count_bounds(
    targets: Seq<TargetModel>,
    country: Seq<char>,
    city: Seq<char>,
    filter: Seq<char>,
)
    ensures
        0 <= city_count(targets, country, city, filter) <= targets.len(),
    decreases targets.len(),
{
    if targets.len() > 0 {
        lemma_city_count_bounds(targets.drop_last(), country, city, filter);
    }
}

/// Two lists of cities that are right for the same servers and filter are the same.
pub proof fn city_list_is_unique(
    targets: Seq<TargetModel>,
    filter: Seq<char>,
    a: Seq<CityModel>,
    b: Seq<CityModel>,
)
    requires
        is_city_list(targets, filter, a),
        is_city_list(targets, filter, b),
    ensures
        a == b,
{
    assert(a.take(0) =~= b.take(0));
    lemma_city_prefix(targets, filter, a, b, 0);
}

proof fn lemma_city_order(a: CityModel, b: CityModel, c: CityModel)
    ensures
        city_before(a, b) && city_before(b, c) ==> city_before(a, c),
        !(city_before(a, b) && city_before(b, a)),
        city_before(a, b) || city_before(b, a) || (a.country == b.country && a.city == b.city),
        a.country == b.country && a.city == b.city ==> !city_before(a, b),
{
    crate::order::text_order_total(a.country, b.country);
    crate::order::text_order_total(a.city, b.city);
    if text_less(a.country, b.country) && text_less(b.country, c.country) {
        crate::order::text_order_transitive(a.country, b.country, c.country);
    }
    if text_less(a.city, b.city) && text_less(b.city, c.city) {
        crate::order::text_order_transitive(a.city, b.city, c.city);
    }
}

proof fn lemma_city_prefix(
    targets: Seq<TargetModel>,
    filter: Seq<char>,
    a: Seq<CityModel>,
    b: Seq<CityModel>,
    i: int,
)
    requires
        is_city_list(targets, filter, a),
        is_city_list(targets, filter, b),
        0 <= i <= a.len(),
        i <= b.len(),
        a.take(i) == b.take(i),
    ensures
        a == b,
    decreases a.len() + b.len() - i,
{
    if i < a.len() {
        lemma_city_bound(targets, filter, a, b, i);
    }
    if i < b.len() {
        lemma_city_bound(targets, filter, b, a, i);
    }
    if i < a.len() && i < b.len() {
        lemma_city_order(a[i], b[i], a[i]);
        assert(a[i] == b[i]);
        assert(a.take(i + 1) =~= a.take(i).push(a[i]));
        assert(b.take(i + 1) =~= b.take(i).push(b[i]));
        lemma_city_prefix(targets, filter, a, b, i + 1);
    } else {
        assert(a.take(i) =~= a);
        assert(b.take(i) =~= b);
    }
}

/// Where two lists agree up to position `i`, the other has a city there that is not behind this
/// one's.
proof fn lemma_city_bound(
    targets: Seq<TargetModel>,
    filter: Seq<char>,
    a: Seq<CityModel>,
    b: Seq<CityModel>,
    i: int,
)
    requires
        is_city_list(targets, filter, a),
        is_city_list(targets, filter, b),
        0 <= i < a.len(),
        i <= b.len(),
        a.take(i) == b.take(i),
    ensures
        i < b.len(),
        !city_before(a[i], b[i]),
{
    assert(city_count(targets, a[i].country, a[i].city, filter) > 0);
    assert(has_city(b, a[i].country, a[i].city));
    let j = choose|j: int|
        0 <= j < b.len() && (#[trigger] b[j]).country == a[i].country && b[j].city == a[i].city;
    if j < i {
        assert(a.take(i)[j] == b.take(i)[j]);
        assert(city_before(a[j], a[i]));
        lemma_city_order(a[j], a[i], a[i]);
    } else if j > i {
        assert(city_before(b[i], b[j]));
        lemma_city_order(b[i], b[j], b[i]);
        lemma_city_order(a[i], b[i], a[i]);
    } else {
        lemma_city_order(a[i], b[i], a[i]);
    }
}

/// Where the city belongs in the list: the position of the first that is not before it.
fn city_position(list: &Vec<CitySummary>, country: &str, city: &str) -> (r: usize)
    requires
        forall|i: int, j: int|
            0 <= i < j < list@.len() ==> #[trigger] city_before(
                city_models(list@)[i],
                city_models(list@)[j],
            ),
    ensures
        r <= list@.len(),
        forall|k: int|
            0 <= k < r ==> #[trigger] city_before(
                city_models(list@)[k],
                (CityModel { country: country@, city: city@, count: 0 }),
            ),
        r < list@.len() ==> !city_before(
            city_models(list@)[r as int],
            (CityModel { country: country@, city: city@, count: 0 }),
        ),
{
    let wanted_country = chars_of(country);
    let wanted_city = chars_of(city);
    let ghost wanted = CityModel { country: country@, city: city@, count: 0 };
    let ghost models = city_models(list@);
    let mut i: usize = 0;
    while i < list.len()
        invariant
            i <= list@.len(),
            models == city_models(list@),
            wanted_country@ == country@,
            wanted_city@ == city@,
            wanted == (CityModel { country: country@, city: city@, count: 0 }),
            forall|k: int| 0 <= k < i ==> #[trigger] city_before(models[k], wanted),
        decreases list@.len() - i,
    {
        let own_country = chars_of(list[i].country.as_str());
        let own_city = chars_of(list[i].city.as_str());
        assert(models[i as int] == list@[i as int]@);
        let before: bool = text_before(&own_country, &wanted_country) || (same_text(
            list[i].country.as_str(),
            country,
        ) && text_before(&own_city, &wanted_city));
        if !before {
            return i;
        }
        i = i + 1;
    }
    i
}

/// Counts one more server of the city.
fn count_city(list: &mut Vec<CitySummary>, country: &str, city: &str)
    requires
        forall|i: int, j: int|
            0 <= i < j < old(list)@.len() ==> #[trigger] city_before(
                city_models(old(list)@)[i],
                city_models(old(list)@)[j],
            ),
        forall|i: int|
            0 <= i < old(list)@.len() ==> 0 < (#[trigger] old(list)@[i]).count < usize::MAX,
    ensures
        forall|i: int, j: int|
            0 <= i < j < final(list)@.len() ==> #[trigger] city_before(
                city_models(final(list)@)[i],
                city_models(final(list)@)[j],
            ),
        has_city(city_models(final(list)@), country@, city@),
        forall|i: int|
            0 <= i < final(list)@.len() ==> {
                let now = #[trigger] city_models(final(list)@)[i];
                if now.country == country@ && now.city == city@ {
                    if has_city(city_models(old(list)@), country@, city@) {
                        now.count > 1 && city_models(old(list)@).contains(
                            (CityModel { count: now.count - 1, ..now }),
                        )
                    } else {
                        now.count == 1
                    }
                } else {
                    city_models(old(list)@).contains(now)
                }
            },
        forall|i: int|
            0 <= i < old(list)@.len() ==> has_city(
                city_models(final(list)@),
                (#[trigger] city_models(old(list)@)[i]).country,
                city_models(old(list)@)[i].city,
            ),
{
    let at: usize = city_position(list, country, city);
    let ghost before = city_models(list@);
    let ghost wanted = CityModel { country: country@, city: city@, count: 0 };
    if at < list.len() && same_text(list[at].country.as_str(), country) && same_text(
        list[at].city.as_str(),
        city,
    ) {
        assert(before[at as int] == list@[at as int]@);
        let count: usize = list[at].count;
        list[at].count = count + 1;
        let ghost after = city_models(list@);
        assert(after =~= before.update(
            at as int,
            (CityModel { count: before[at as int].count + 1, ..before[at as int] }),
        ));
        assert(has_city(before, country@, city@));
        assert(after[at as int].country == country@ && after[at as int].city == city@);
        assert forall|i: int, j: int| 0 <= i < j < after.len() implies #[trigger] city_before(
            after[i],
            after[j],
        ) by {
            assert(city_before(before[i], before[j]));
        }
        assert forall|i: int| 0 <= i < after.len() implies ({
            let now = #[trigger] after[i];
            if now.country == country@ && now.city == city@ {
                now.count > 1 && before.contains((CityModel { count: now.count - 1, ..now }))
            } else {
                before.contains(now)
            }
        }) by {
            let now = after[i];
            if i != at {
                assert(before[i] == now);
                if now.country == country@ && now.city == city@ {
                    if i < at {
                        assert(city_before(before[i], before[at as int]));
                    } else {
                        assert(city_before(before[at as int], before[i]));
                    }
                    lemma_city_order(before[i], before[at as int], before[i]);
                }
            } else {
                assert(before[at as int] == (CityModel { count: now.count - 1, ..now }));
            }
        }
        assert forall|i: int| 0 <= i < before.len() implies has_city(
            after,
            (#[trigger] before[i]).country,
            before[i].city,
        ) by {
            assert(after[i].country == before[i].country);
        }
    } else {
        proof {
            if at < list@.len() {
                assert(before[at as int] == list@[at as int]@);
                lemma_city_order(wanted, before[at as int], wanted);
            }
            assert(!has_city(before, country@, city@)) by {
                if has_city(before, country@, city@) {
                    let k = choose|k: int|
                        0 <= k < before.len() && (#[trigger] before[k]).country == country@
                            && before[k].city == city@;
                    lemma_city_order(before[k], wanted, before[k]);
                    if k < at {
                        assert(city_before(before[k], wanted));
                    } else if k > at {
                        assert(city_before(before[at as int], before[k]));
                        lemma_city_order(before[at as int], before[k], before[k]);
                        lemma_city_order(wanted, before[at as int], before[k]);
                        lemma_city_order(wanted, before[k], wanted);
                    }
                }
            }
        }
        list.insert(
            at,
            CitySummary { country: country.to_string(), city: city.to_string(), count: 1 },
        );
        let ghost after = city_models(list@);
        let ghost added = CityModel { count: 1, ..wanted };
        assert(after =~= before.insert(at as int, added));
        assert(after[at as int] == added);
        assert forall|i: int, j: int| 0 <= i < j < after.len() implies #[trigger] city_before(
            after[i],
            after[j],
        ) by {
            let a = if i < at {
                i
            } else {
                i - 1
            };
            let b = if j < at {
                j
            } else {
                j - 1
            };
            if i != at && j != at {
                assert(city_before(before[a], before[b]));
            } else if j == at {
                assert(city_before(before[i], wanted));
            } else {
                lemma_city_order(wanted, before[at as int], before[b]);
                if b > at {
                    assert(city_before(before[at as int], before[b]));
                }
            }
        }
        assert forall|i: int| 0 <= i < after.len() implies ({
            let now = #[trigger] after[i];
            if now.country == country@ && now.city == city@ {
                now.count == 1
            } else {
                before.contains(now)
            }
        }) by {
            if i != at {
                let a = if i < at {
                    i
                } else {
                    i - 1
                };
                assert(before[a] == after[i]);
                assert(has_city(before, before[a].country, before[a].city));
            }
        }
        assert forall|i: int| 0 <= i < before.len() implies has_city(
            after,
            (#[trigger] before[i]).country,
            before[i].city,
        ) by {
            if i < at {
                assert(after[i] == before[i]);
            } else {
                assert(after[i + 1] == before[i]);
            }
        }
    }
}

/// The cities of the servers that match the filter, in order, with the number of their servers.
pub fn cities(targets: &[NordTarget], filter: &str) -> (r: Vec<CitySummary>)
    ensures
        is_city_list(target_models(targets@), filter@, city_models(r@)),
{
    let wanted = ascii_lower(trim(filter));
    let all: bool = wanted.as_str().is_empty();
    let ghost models = target_models(targets@);
    let mut list: Vec<CitySummary> = Vec::new();
    let mut i: usize = 0;
    while i < targets.len()
        invariant
            i <= targets@.len(),
            models == target_models(targets@),
            wanted@ == ascii_lower_spec(trim_spec(filter@)),
            all == (wanted@.len() == 0),
            is_city_list(models.take(i as int), filter@, city_models(list@)),
        decreases targets@.len() - i,
    {
        let target = &targets[i];
        let ghost seen = models.take(i as int);
        let ghost next = models.take(i + 1);
        assert(next.drop_last() =~= seen);
        assert(next.last() == target@);
        let matching: bool = all || contains_text(
            ascii_lower(target.country.as_str()).as_str(),
            wanted.as_str(),
        ) || contains_text(ascii_lower(target.city.as_str()).as_str(), wanted.as_str());
        assert(matching == matches_filter(target@, filter@));
        let ghost before = city_models(list@);
        if matching {
            proof {
                assert forall|k: int| 0 <= k < list@.len() implies 0 < (
                #[trigger] list@[k]).count < usize::MAX by {
                    assert(before[k] == list@[k]@);
                    lemma_city_count_bounds(seen, before[k].country, before[k].city, filter@);
                }
            }
            count_city(&mut list, target.country.as_str(), target.city.as_str());
            proof {
                lemma_city_step(seen, target@, filter@, before, city_models(list@));
                assert(next =~= seen.push(target@));
            }
        } else {
            proof {
                assert forall|country: Seq<char>, city: Seq<char>| #[trigger]
                    city_count(next, country, city, filter@) == city_count(
                        seen,
                        country,
                        city,
                        filter@,
                    ) by {}
                assert(is_city_list(next, filter@, before)) by {
                    assert forall|k: int| 0 <= k < before.len() implies (
                    #[trigger] before[k]).count > 0 && before[k].count == city_count(
                        next,
                        before[k].country,
                        before[k].city,
                        filter@,
                    ) by {}
                }
            }
        }
        i = i + 1;
    }
    assert(models.take(i as int) =~= models);
    list
}

proof fn lemma_city_step(
    seen: Seq<TargetModel>,
    target: TargetModel,
    filter: Seq<char>,
    before: Seq<CityModel>,
    after: Seq<CityModel>,
)
    requires
        is_city_list(seen, filter, before),
        matches_filter(target, filter),
        forall|i: int, j: int|
            0 <= i < j < after.len() ==> #[trigger] city_before(after[i], after[j]),
        has_city(after, target.country, target.city),
        forall|i: int|
            0 <= i < after.len() ==> {
                let now = #[trigger] after[i];
                if now.country == target.country && now.city == target.city {
                    if has_city(before, target.country, target.city) {
                        now.count > 1 && before.contains(
                            (CityModel { count: now.count - 1, ..now }),
                        )
                    } else {
                        now.count == 1
                    }
                } else {
                    before.contains(now)
                }
            },
        forall|i: int|
            0 <= i < before.len() ==> has_city(
                after,
                (#[trigger] before[i]).country,
                before[i].city,
            ),
    ensures
        is_city_list(seen.push(target), filter, after),
{
    let all = seen.push(target);
    assert(all.drop_last() =~= seen);
    assert(all.last() == target);
    assert forall|i: int| 0 <= i < after.len() implies (#[trigger] after[i]).count > 0
        && after[i].count == city_count(all, after[i].country, after[i].city, filter) by {
        let now = after[i];
        lemma_city_count_bounds(seen, now.country, now.city, filter);
        if now.country == target.country && now.city == target.city {
            if has_city(before, target.country, target.city) {
                let old_city = CityModel { count: now.count - 1, ..now };
                let k = choose|k: int| 0 <= k < before.len() && before[k] == old_city;
                assert(before[k].count == city_count(
                    seen,
                    before[k].country,
                    before[k].city,
                    filter,
                ));
            } else {
                assert(city_count(seen, target.country, target.city, filter) == 0);
            }
        } else {
            let k = choose|k: int| 0 <= k < before.len() && before[k] == now;
            assert(before[k].count == city_count(seen, before[k].country, before[k].city, filter));
        }
    }
    assert forall|country: Seq<char>, city: Seq<char>| #[trigger]
        city_count(all, country, city, filter) > 0 implies has_city(after, country, city) by {
        if country == target.country && city == target.city {
        } else {
            assert(city_count(seen, country, city, filter) > 0);
            assert(has_city(before, country, city));
            let k = choose|k: int|
                0 <= k < before.len() && (#[trigger] before[k]).country == country
                    && before[k].city == city;
            assert(has_city(after, before[k].country, before[k].city));
        }
    }
}

/// Whether a server stands in the city.
pub open spec fn stands_in(target: TargetModel, country: Seq<char>, city: Seq<char>) -> bool {
    target.country == country && target.city == city
}

/// The servers of the city, in the order of the list.
pub open spec fn servers_in(list: Seq<TargetModel>, country: Seq<char>, city: Seq<char>) -> Seq<
    TargetModel,
>
    decreases list.len(),
{
    if list.len() == 0 {
        Seq::empty()
    } else {
        let before = servers_in(list.drop_last(), country, city);
        if stands_in(list.last(), country, city) {
            before.push(list.last())
        } else {
            before
        }
    }
}

/// By which the servers of a city are sorted: load, name and host name.
pub open spec fn city_key(target: TargetModel) -> Seq<u32> {
    seq![target.load as u32] + (text_key(target.name) + text_key(target.hostname))
}

/// The sort keys of the servers of a city.
pub open spec fn city_keys(list: Seq<TargetModel>) -> Seq<Seq<u32>> {
    list.map_values(|target: TargetModel| city_key(target))
}

/// Whether one server of a city stands before another: by load, then name and host name.
pub open spec fn load_before(a: TargetModel, b: TargetModel) -> bool {
    if a.load != b.load {
        a.load < b.load
    } else if a.name != b.name {
        text_less(a.name, b.name)
    } else {
        text_less(a.hostname, b.hostname)
    }
}

/// Sort keys of a city compare as the servers' fields do, one after the other.
pub proof fn city_key_compares_fields(a: TargetModel, b: TargetModel)
    ensures
        key_less(city_key(a), city_key(b)) == load_before(a, b),
{
    assert(city_key(a).drop_first() =~= text_key(a.name) + text_key(a.hostname));
    assert(city_key(b).drop_first() =~= text_key(b.name) + text_key(b.hostname));
    text_key_order(a.name, text_key(a.hostname), b.name, text_key(b.hostname));
    text_key_order(a.hostname, Seq::empty(), b.hostname, Seq::empty());
    assert(text_key(a.hostname) + Seq::empty() =~= text_key(a.hostname));
    assert(text_key(b.hostname) + Seq::empty() =~= text_key(b.hostname));
    crate::order::text_order_total(a.hostname, b.hostname);
}

fn city_sort_key(target: &NordTarget) -> (r: Vec<u32>)
    ensures
        r@ == city_key(target@),
{
    let mut key: Vec<u32> = Vec::new();
    key.push(target.load as u32);
    push_text_key(&mut key, target.name.as_str());
    push_text_key(&mut key, target.hostname.as_str());
    assert(key@ =~= city_key(target@));
    key
}

/// The servers of a city, the least loaded first.
pub fn city_targets(targets: &[NordTarget], country: &str, city: &str) -> (r: Vec<NordTarget>)
    ensures
        sorted_by(
            servers_in(target_models(targets@), country@, city@),
            city_keys(servers_in(target_models(targets@), country@, city@)),
            target_models(r@),
        ),
{
    let ghost models = target_models(targets@);
    let mut list: Vec<NordTarget> = Vec::new();
    let mut keys: Vec<Vec<u32>> = Vec::new();
    let mut i: usize = 0;
    assert(models.take(0) =~= Seq::empty());
    assert(target_models(list@) =~= Seq::empty());
    assert(key_views(keys@) =~= city_keys(Seq::empty()));
    while i < targets.len()
        invariant
            i <= targets@.len(),
            models == target_models(targets@),
            target_models(list@) == servers_in(models.take(i as int), country@, city@),
            key_views(keys@) == city_keys(target_models(list@)),
        decreases targets@.len() - i,
    {
        assert(models.take(i + 1).drop_last() =~= models.take(i as int));
        assert(models.take(i + 1).last() == targets@[i as int]@);
        if same_text(targets[i].country.as_str(), country) && same_text(
            targets[i].city.as_str(),
            city,
        ) {
            let ghost before = list@;
            let ghost before_keys = keys@;
            let item = targets[i].copy();
            let key = city_sort_key(&item);
            list.push(item);
            keys.push(key);
            assert(target_models(list@) =~= target_models(before).push(item@));
            assert(key_views(keys@) =~= key_views(before_keys).push(key@));
            assert(city_keys(target_models(list@)) =~= city_keys(target_models(before)).push(
                city_key(item@),
            ));
        }
        i = i + 1;
    }
    assert(models.take(i as int) =~= models);
    let order = stable_order(&keys);
    let ghost found = target_models(list@);
    assert(is_stable_order(city_keys(found), order@));
    reorder(&list, &order)
}

/// The stored inventory.
#[derive(Debug)]
pub struct CacheDocument {
    pub schema_version: u8,
    pub fetched_at_unix_seconds: u64,
    pub targets: Vec<NordTarget>,
}

/// The inventory that was stored, and when it was fetched, in seconds since 1970.
#[derive(Debug, PartialEq, Eq)]
pub struct CachedInventory {
    pub targets: Vec<NordTarget>,
    pub fetched_at: u64,
}

/// Whether a control character occurs in the text.
pub open spec fn holds_control(s: Seq<char>) -> bool {
    exists|i: int| 0 <= i < s.len() && is_control_spec(#[trigger] s[i])
}

/// Whether a stored server is one that the inventory can hold: with names that are not empty and
/// hold no control characters, and with a WireGuard key.
pub open spec fn is_valid_target(target: TargetModel) -> bool {
    is_plain_target(target) && key_spec(target.public_key) is Some
}

/// Whether all stored servers are valid.
pub open spec fn all_valid(targets: Seq<TargetModel>) -> bool {
    forall|i: int| 0 <= i < targets.len() ==> is_valid_target(#[trigger] targets[i])
}

fn is_plain(s: &String) -> (r: bool)
    ensures
        r == (s@.len() > 0 && !holds_control(s@)),
{
    !s.as_str().is_empty() && !has_control(s.as_str())
}

/// Whether the names of a server are not empty and hold no control characters.
pub open spec fn is_plain_target(target: TargetModel) -> bool {
    &&& target.name.len() > 0 && !holds_control(target.name)
    &&& target.hostname.len() > 0 && !holds_control(target.hostname)
    &&& target.country.len() > 0 && !holds_control(target.country)
    &&& target.city.len() > 0 && !holds_control(target.city)
}

/// Whether the names of a server are not empty and hold no control characters.
pub fn has_plain_names(target: &NordTarget) -> (r: bool)
    ensures
        r == is_plain_target(target@),
{
    is_plain(&target.name) && is_plain(&target.hostname) && is_plain(&target.country) && is_plain(
        &target.city,
    )
}

fn targets_valid(targets: &Vec<NordTarget>) -> (r: bool)
    ensures
        r == all_valid(target_models(targets@)),
{
    let ghost models = target_models(targets@);
    let mut i: usize = 0;
    while i < targets.len()
        invariant
            i <= targets@.len(),
            models == target_models(targets@),
            forall|k: int| 0 <= k < i ==> is_valid_target(#[trigger] models[k]),
        decreases targets@.len() - i,
    {
        let target = &targets[i];
        assert(models[i as int] == target@);
        if !has_plain_names(target) || !is_wireguard_key(target.public_key.as_str()) {
            assert(!is_valid_target(models[i as int]));
            return false;
        }
        i = i + 1;
    }
    true
}

/// What is wrong with a cache file.
#[derive(Debug)]
pub enum CacheFault {
    /// It could not be read.
    Unreadable(String),
    /// It is larger than an inventory may be.
    TooLarge,
    /// It is no cache document.
    Invalid(String),
    /// It has another format.
    Schema(u8),
    /// It holds no server.
    Empty,
    /// It holds a server that is not valid.
    InvalidCandidates,
    /// Its time cannot be represented.
    Timestamp,
}

impl CacheFault {
    /// The message for the user.
    pub open spec fn message_spec(self, path: Seq<char>) -> Seq<char> {
        match self {
            CacheFault::Unreadable(error) => "could not read inventory cache "@ + path + ": "@
                + error@,
            CacheFault::TooLarge => "inventory cache "@ + path + " exceeds the "@ + decimal_spec(
                MAX_INVENTORY_BYTES as int,
            ) + "-byte limit"@,
            CacheFault::Invalid(error) => "inventory cache "@ + path + " is invalid: "@ + error@,
            CacheFault::Schema(version) => "inventory cache "@ + path
                + " uses unsupported schema version "@ + decimal_spec(version as int),
            CacheFault::Empty => "inventory cache "@ + path + " contains no candidates"@,
            CacheFault::InvalidCandidates => "inventory cache "@ + path
                + " contains invalid candidates"@,
            CacheFault::Timestamp => "inventory cache "@ + path + " has an invalid timestamp"@,
        }
    }

    /// The message for the user.
    pub fn message(&self, path: &str) -> (r: String)
        ensures
            r@ == self.message_spec(path@),
    {
        let mut r = match self {
            CacheFault::Unreadable(_) => "could not read inventory cache ".to_string(),
            _ => "inventory cache ".to_string(),
        };
        r.append(path);
        match self {
            CacheFault::Unreadable(error) => {
                r.append(": ");
                r.append(error.as_str());
            },
            CacheFault::TooLarge => {
                r.append(" exceeds the ");
                r.append(decimal(MAX_INVENTORY_BYTES).as_str());
                r.append("-byte limit");
            },
            CacheFault::Invalid(error) => {
                r.append(" is invalid: ");
                r.append(error.as_str());
            },
            CacheFault::Schema(version) => {
                r.append(" uses unsupported schema version ");
                r.append(decimal(*version as u64).as_str());
            },
            CacheFault::Empty => {
                r.append(" contains no candidates");
            },
            CacheFault::InvalidCandidates => {
                r.append(" contains invalid candidates");
            },
            CacheFault::Timestamp => {
                r.append(" has an invalid timestamp");
            },
        }
        r
    }
}

/// Checks the size of a cache file.
pub fn check_cache_size(length: u64) -> (r: Result<(), CacheFault>)
    ensures
        match r {
            Ok(_) => length <= MAX_INVENTORY_BYTES,
            Err(fault) => length > MAX_INVENTORY_BYTES && fault is TooLarge,
        },
{
    if length > MAX_INVENTORY_BYTES {
        Err(CacheFault::TooLarge)
    } else {
        Ok(())
    }
}

/// The inventory in a cache document, where the system can represent its time or not.
pub fn load_document(document: CacheDocument, representable: bool) -> (r: Result<
    CachedInventory,
    CacheFault,
>)
    ensures
        match r {
            Ok(inventory) => document.schema_version == CACHE_SCHEMA_VERSION
                && document.targets@.len() > 0 && all_valid(target_models(document.targets@))
                && representable && inventory.targets == document.targets && inventory.fetched_at
                == document.fetched_at_unix_seconds,
            Err(CacheFault::Schema(version)) => document.schema_version != CACHE_SCHEMA_VERSION
                && version == document.schema_version,
            Err(CacheFault::Empty) => document.schema_version == CACHE_SCHEMA_VERSION
                && document.targets@.len() == 0,
            Err(CacheFault::InvalidCandidates) => document.schema_version == CACHE_SCHEMA_VERSION
                && document.targets@.len() > 0 && !all_valid(target_models(document.targets@)),
            Err(CacheFault::Timestamp) => document.schema_version == CACHE_SCHEMA_VERSION
                && document.targets@.len() > 0 && all_valid(target_models(document.targets@))
                && !representable,
            Err(_) => false,
        },
{
    if document.schema_version != CACHE_SCHEMA_VERSION {
        return Err(CacheFault::Schema(document.schema_version));
    }
    if document.targets.len() == 0 {
        return Err(CacheFault::Empty);
    }
    if !targets_valid(&document.targets) {
        return Err(CacheFault::InvalidCandidates);
    }
    if !representable {
        return Err(CacheFault::Timestamp);
    }
    Ok(
        CachedInventory {
            targets: document.targets,
            fetched_at: document.fetched_at_unix_seconds,
        },
    )
}

/// A copy of the servers.
pub(crate) fn copy_targets(targets: &Vec<NordTarget>) -> (r: Vec<NordTarget>)
    ensures
        target_models(r@) == target_models(targets@),
{
    let mut r: Vec<NordTarget> = Vec::new();
    let mut i: usize = 0;
    assert(target_models(r@) =~= target_models(targets@).take(0));
    while i < targets.len()
        invariant
            i <= targets@.len(),
            target_models(r@) == target_models(targets@).take(i as int),
        decreases targets@.len() - i,
    {
        let ghost before = target_models(r@);
        let item = targets[i].copy();
        r.push(item);
        assert(target_models(r@) =~= before.push(item@));
        assert(target_models(targets@).take(i + 1) =~= target_models(targets@).take(i as int).push(
            item@,
        ));
        i = i + 1;
    }
    assert(target_models(targets@).take(i as int) =~= target_models(targets@));
    r
}

/// The document that stores an inventory which was fetched so many seconds after 1970. A time
/// before 1970 cannot be stored.
pub fn store_document(targets: &Vec<NordTarget>, fetched_at: Option<u64>) -> (r: Result<
    CacheDocument,
    String,
>)
    ensures
        match r {
            Ok(document) => fetched_at == Some(document.fetched_at_unix_seconds)
                && document.schema_version == CACHE_SCHEMA_VERSION && target_models(
                document.targets@,
            ) == target_models(targets@),
            Err(message) => fetched_at is None && message@
                == "could not cache inventory with a pre-epoch timestamp"@,
        },
{
    match fetched_at {
        Some(fetched_at_unix_seconds) => Ok(
            CacheDocument {
                schema_version: CACHE_SCHEMA_VERSION,
                fetched_at_unix_seconds,
                targets: copy_targets(targets),
            },
        ),
        None => Err("could not cache inventory with a pre-epoch timestamp".to_string()),
    }
}

/// The usable servers of an inventory can be stored: each is valid.
pub proof fn usable_servers_are_valid(records: Seq<Option<ApiServer>>)
    ensures
        all_valid(usable_servers(records)),
    decreases records.len(),
{
    if records.len() > 0 {
        usable_servers_are_valid(records.drop_last());
        if let Some(server) = records.last() {
            if let Some(target) = candidate_of(server) {
                lemma_without_controls(server.name@);
                lemma_without_controls(server.hostname@);
                lemma_without_controls(server.locations@[0].country@);
                lemma_without_controls(server.locations@[0].city@);
            }
        }
    }
}

proof fn lemma_without_controls(s: Seq<char>)
    ensures
        !holds_control(without_controls(s)),
{
    broadcast use vstd::seq_lib::group_filter_ensures;

    let visible = |c: char| !is_control_spec(c);
    assert(forall|i: int|
        0 <= i < s.filter(visible).len() ==> visible(#[trigger] s.filter(visible)[i]));
}

/// What was stored is loaded again: a document made of usable servers passes every check, and
/// gives back the servers and the time.
pub proof fn stored_inventory_loads(records: Seq<Option<ApiServer>>, stored: Seq<TargetModel>)
    requires
        usable_servers(records).len() > 0,
        usable_servers(records).len() <= usize::MAX,
        sorted_by(usable_servers(records), inventory_keys(usable_servers(records)), stored),
    ensures
        stored.len() > 0,
        all_valid(stored),
{
    usable_servers_are_valid(records);
    sorted_inventory_is_in_order(usable_servers(records), stored);
    assert forall|i: int| 0 <= i < stored.len() implies is_valid_target(#[trigger] stored[i]) by {
        assert(usable_servers(records).contains(stored[i]));
    }
}

/// The cities of the servers that match the filter, in order, with the number of their servers.
pub open spec fn city_list(targets: Seq<TargetModel>, filter: Seq<char>) -> Seq<CityModel> {
    choose|list: Seq<CityModel>| is_city_list(targets, filter, list)
}

/// A right list of cities is the list of cities.
pub proof fn lemma_city_list(
    targets: Seq<TargetModel>,
    filter: Seq<char>,
    list: Seq<CityModel>,
)
    requires
        is_city_list(targets, filter, list),
    ensures
        list == city_list(targets, filter),
{
    city_list_is_unique(targets, filter, list, city_list(targets, filter));
}

/// The list in the order of the keys.
pub open spec fn sorted_list(list: Seq<TargetModel>, keys: Seq<Seq<u32>>) -> Seq<TargetModel> {
    choose|sorted: Seq<TargetModel>| sorted_by(list, keys, sorted)
}

/// A sorted list is the sorted list.
pub proof fn lemma_sorted_list(
    list: Seq<TargetModel>,
    keys: Seq<Seq<u32>>,
    sorted: Seq<TargetModel>,
)
    requires
        sorted_by(list, keys, sorted),
    ensures
        sorted == sorted_list(list, keys),
{
    let other = sorted_list(list, keys);
    assert(sorted_by(list, keys, other));
    let a = choose|order: Seq<usize>| #[trigger]
        is_stable_order(keys, order) && sorted == reordered(list, order);
    let b = choose|order: Seq<usize>| #[trigger]
        is_stable_order(keys, order) && other == reordered(list, order);
    crate::order::stable_order_is_unique(keys, a, b);
}

/// The servers of a city, the least loaded first.
pub open spec fn city_servers(
    targets: Seq<TargetModel>,
    country: Seq<char>,
    city: Seq<char>,
) -> Seq<TargetModel> {
    sorted_list(servers_in(targets, country, city), city_keys(servers_in(targets, country, city)))
}

} // verus!
