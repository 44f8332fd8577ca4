//! Which servers an inventory offers, and in which order.
use crate::inventory::{
    candidate_of, city_count, city_keys, inventory_keys, is_city_list, is_known, public_key_index,
    same_server, servers_in, sorted_by, usable_servers, wireguard_index, ApiMetadata, ApiServer,
    ApiTechnology, CityModel, TargetModel,
};
use crate::keys::key_spec;
use crate::net::{IpAddr, IpModel, SocketModel};
use crate::order::{key_order_total, text_less, text_order_total};
use crate::text::{ascii_lower_spec, is_control_spec, occurs, stands_at, trim_spec, without_controls};
use vstd::prelude::*;
use vstd::string::*;

verus! {

/// Whether a protocol is WireGuard and online.
pub open spec fn is_live(technology: ApiTechnology) -> bool {
    technology.identifier@ == "wireguard_udp"@ && technology.status@ == "online"@
}

/// Whether the protocol at position `t` is the first that is WireGuard and online.
pub open spec fn first_live(list: Seq<ApiTechnology>, t: int) -> bool {
    &&& 0 <= t < list.len() && is_live(list[t])
    &&& forall|i: int| 0 <= i < t ==> !is_live(#[trigger] list[i])
}

/// Whether the property at position `k` is the first public key.
pub open spec fn first_key(list: Seq<ApiMetadata>, k: int) -> bool {
    &&& 0 <= k < list.len() && list[k].name@ == "public_key"@
    &&& forall|i: int| 0 <= i < k ==> (#[trigger] list[i]).name@ != "public_key"@
}

proof fn lemma_live_found(list: Seq<ApiTechnology>, t: int, i: int)
    requires
        first_live(list, t),
        0 <= i <= t,
    ensures
        wireguard_index(list, i) == t,
    decreases t - i,
{
    if i < t {
        assert(!is_live(list[i]));
        lemma_live_found(list, t, i + 1);
    }
}

proof fn lemma_none_live(list: Seq<ApiTechnology>, i: int)
    requires
        0 <= i <= list.len(),
        forall|t: int| 0 <= t < list.len() ==> !is_live(#[trigger] list[t]),
    ensures
        wireguard_index(list, i) == list.len(),
    decreases list.len() - i,
{
    if i < list.len() {
        assert(!is_live(list[i]));
        lemma_none_live(list, i + 1);
    }
}

proof fn lemma_key_found(list: Seq<ApiMetadata>, k: int, i: int)
    requires
        first_key(list, k),
        0 <= i <= k,
    ensures
        public_key_index(list, i) == k,
    decreases k - i,
{
    if i < k {
        assert(list[i].name@ != "public_key"@);
        lemma_key_found(list, k, i + 1);
    }
}

proof fn lemma_no_key(list: Seq<ApiMetadata>, i: int)
    requires
        0 <= i <= list.len(),
        forall|k: int| 0 <= k < list.len() ==> (#[trigger] list[k]).name@ != "public_key"@,
    ensures
        public_key_index(list, i) == list.len(),
    decreases list.len() - i,
{
    if i < list.len() {
        assert(list[i].name@ != "public_key"@);
        lemma_no_key(list, i + 1);
    }
}

/// Whether a character can be seen.
pub open spec fn shows(c: char) -> bool {
    !((c as u32) < 0x20 || 0x7f <= (c as u32) <= 0x9f)
}

/// Control characters are dropped from a text, and every other character stays in its place.
pub proof fn control_characters_are_dropped(s: Seq<char>, c: char)
    ensures
        without_controls(Seq::empty()) == Seq::<char>::empty(),
        without_controls(s.push(c)) == (if shows(c) {
            without_controls(s).push(c)
        } else {
            without_controls(s)
        }),
{
    reveal(Seq::filter);
    assert(s.push(c).drop_last() =~= s);
    assert(is_control_spec(c) == !shows(c));
}

/// Whether any character of a text can be seen.
pub open spec fn shows_any(s: Seq<char>) -> bool {
    exists|i: int| 0 <= i < s.len() && shows(#[trigger] s[i])
}

proof fn lemma_shown(s: Seq<char>)
    ensures
        without_controls(s).len() > 0 <==> shows_any(s),
    decreases s.len(),
{
    if s.len() == 0 {
        control_characters_are_dropped(s, 'a');
        assert(s =~= Seq::empty());
    } else {
        let before = s.drop_last();
        assert(s =~= before.push(s.last()));
        control_characters_are_dropped(before, s.last());
        lemma_shown(before);
        if shows_any(before) {
            let i = choose|i: int| 0 <= i < before.len() && shows(#[trigger] before[i]);
            assert(shows(s[i]));
        }
        if shows_any(s) {
            let i = choose|i: int| 0 <= i < s.len() && shows(#[trigger] s[i]);
            if i < before.len() {
                assert(shows(before[i]));
            }
        }
    }
}

/// A record is usable exactly where it is online, has a location, an address and a valid key for
/// WireGuard, and every name has something to show. Its server keeps the names, the first location,
/// the load and the key, and listens at its address on the port of WireGuard.
pub proof fn record_gives_its_server(server: ApiServer, t: int, k: int)
    requires
        first_live(server.technologies@, t),
        first_key(server.technologies@[t].metadata@, k),
    ensures
        ({
            let key = trim_spec(server.technologies@[t].metadata@[k].value@);
            let ip = IpAddr::parse_spec(server.station@);
            &&& candidate_of(server) is Some <==> {
                &&& server.status@ == "online"@
                &&& server.locations@.len() > 0
                &&& ip is Some
                &&& key.len() > 0 && key_spec(key) is Some
                &&& shows_any(server.name@) && shows_any(server.hostname@)
                &&& shows_any(server.locations@[0].country@)
                &&& shows_any(server.locations@[0].city@)
            }
            &&& candidate_of(server) matches Some(target) ==> {
                &&& target.public_key == key
                &&& target.load == server.load
                &&& target.name == without_controls(server.name@)
                &&& target.hostname == without_controls(server.hostname@)
                &&& target.country == without_controls(server.locations@[0].country@)
                &&& target.city == without_controls(server.locations@[0].city@)
                &&& match (target.endpoint, ip) {
                    (SocketModel::V4 { address, port }, Some(IpModel::V4(own))) => address == own
                        && port == 51820,
                    (SocketModel::V6 { groups, port, flowinfo, scope_id }, Some(IpModel::V6(own))) => {
                        groups == own && port == 51820 && flowinfo == 0 && scope_id == 0
                    },
                    _ => false,
                }
            }
        }),
{
    lemma_live_found(server.technologies@, t, 0);
    lemma_key_found(server.technologies@[t].metadata@, k, 0);
    lemma_shown(server.name@);
    lemma_shown(server.hostname@);
    if server.locations@.len() > 0 {
        lemma_shown(server.locations@[0].country@);
        lemma_shown(server.locations@[0].city@);
    }
}

/// A record without WireGuard online, or without a key for it, is passed over.
pub proof fn record_without_key_is_passed_over(server: ApiServer, t: int)
    requires
        (forall|i: int|
            0 <= i < server.technologies@.len() ==> !is_live(#[trigger] server.technologies@[i]))
            || (first_live(server.technologies@, t) && forall|k: int|
            0 <= k < server.technologies@[t].metadata@.len() ==> (
            #[trigger] server.technologies@[t].metadata@[k]).name@ != "public_key"@),
    ensures
        candidate_of(server) is None,
{
    if first_live(server.technologies@, t) {
        lemma_live_found(server.technologies@, t, 0);
        assert(is_live(server.technologies@[t]));
        lemma_no_key(server.technologies@[t].metadata@, 0);
    } else {
        lemma_none_live(server.technologies@, 0);
    }
}

/// The server of a record, where it could be read and is usable.
pub open spec fn server_at(records: Seq<Option<ApiServer>>, i: int) -> Option<TargetModel> {
    match records[i] {
        Some(server) => candidate_of(server),
        None => None,
    }
}

/// Whether two servers listen at the same endpoint with the same key.
pub open spec fn alike(a: TargetModel, b: TargetModel) -> bool {
    a.endpoint == b.endpoint && a.public_key == b.public_key
}

/// Whether a record is the first with its endpoint and key.
pub open spec fn leads(records: Seq<Option<ApiServer>>, i: int) -> bool {
    &&& server_at(records, i) is Some
    &&& forall|j: int|
        0 <= j < i && (#[trigger] server_at(records, j)) is Some ==> !alike(
            server_at(records, j).unwrap(),
            server_at(records, i).unwrap(),
        )
}

/// Whether the servers are those of the records at the given places: of every endpoint and key the
/// first, in the order of the records.
pub open spec fn are_leaders(
    records: Seq<Option<ApiServer>>,
    list: Seq<TargetModel>,
    places: Seq<int>,
) -> bool {
    &&& places.len() == list.len()
    &&& forall|n: int|
        0 <= n < places.len() ==> 0 <= #[trigger] places[n] < records.len() && leads(
            records,
            places[n],
        ) && server_at(records, places[n]) == Some(list[n])
    &&& forall|n: int, m: int| 0 <= n < m < places.len() ==> places[n] < places[m]
    &&& forall|i: int| 0 <= i < records.len() && #[trigger] leads(records, i) ==> places.contains(i)
}

proof fn lemma_leaders(records: Seq<Option<ApiServer>>) -> (places: Seq<int>)
    ensures
        are_leaders(records, usable_servers(records), places),
        forall|i: int|
            0 <= i < records.len() && (#[trigger] server_at(records, i)) is Some ==> is_known(
                usable_servers(records),
                server_at(records, i).unwrap(),
            ),
    decreases records.len(),
{
    if records.len() == 0 {
        Seq::empty()
    } else {
        let before = records.drop_last();
        let n = before.len() as int;
        let list = usable_servers(before);
        let all = usable_servers(records);
        let old_places = lemma_leaders(before);
        assert forall|i: int| 0 <= i < n implies #[trigger] server_at(records, i) == server_at(
            before,
            i,
        ) by {}
        assert forall|i: int| 0 <= i < n implies #[trigger] leads(records, i) == leads(before, i) by {
            assert(server_at(records, i) == server_at(before, i));
            if leads(before, i) {
                assert forall|j: int| 0 <= j < i && (#[trigger] server_at(
                    records,
                    j,
                )) is Some implies !alike(
                    server_at(records, j).unwrap(),
                    server_at(records, i).unwrap(),
                ) by {
                    assert(server_at(before, j) is Some);
                }
            }
            if leads(records, i) {
                assert forall|j: int| 0 <= j < i && (#[trigger] server_at(
                    before,
                    j,
                )) is Some implies !alike(
                    server_at(before, j).unwrap(),
                    server_at(before, i).unwrap(),
                ) by {
                    assert(server_at(records, j) is Some);
                }
            }
        }
        let added = server_at(records, n) is Some && !is_known(
            list,
            server_at(records, n).unwrap(),
        );
        assert(leads(records, n) == added) by {
            if server_at(records, n) is Some {
                let target = server_at(records, n).unwrap();
                if is_known(list, target) {
                    let k = choose|k: int| 0 <= k < list.len() && same_server(
                        #[trigger] list[k],
                        target,
                    );
                    assert(server_at(records, old_places[k]) == Some(list[k]));
                } else {
                    assert forall|j: int| 0 <= j < n && (#[trigger] server_at(
                        records,
                        j,
                    )) is Some implies !alike(server_at(records, j).unwrap(), target) by {
                        let other = server_at(before, j).unwrap();
                        assert(is_known(list, other));
                        let k = choose|k: int| 0 <= k < list.len() && same_server(
                            #[trigger] list[k],
                            other,
                        );
                        assert(!same_server(list[k], target));
                    }
                }
            }
        }
        let places = if added {
            old_places.push(n)
        } else {
            old_places
        };
        assert(all == if added {
            list.push(server_at(records, n).unwrap())
        } else {
            list
        });
        assert forall|m: int| 0 <= m < places.len() implies 0 <= #[trigger] places[m]
            < records.len() && leads(records, places[m]) && server_at(records, places[m]) == Some(
            all[m],
        ) by {
            if m < old_places.len() {
                assert(places[m] == old_places[m]);
                assert(leads(before, old_places[m]));
                assert(server_at(before, old_places[m]) == Some(list[m]));
            }
        }
        assert forall|i: int| 0 <= i < records.len() && #[trigger] leads(
            records,
            i,
        ) implies places.contains(i) by {
            if i < n {
                assert(leads(before, i));
                let m = choose|m: int| 0 <= m < old_places.len() && old_places[m] == i;
                assert(places[m] == i);
            } else {
                assert(places[places.len() - 1] == n);
            }
        }
        assert forall|i: int| 0 <= i < records.len() && (#[trigger] server_at(
            records,
            i,
        )) is Some implies is_known(all, server_at(records, i).unwrap()) by {
            let target = server_at(records, i).unwrap();
            if i < n {
                assert(server_at(before, i) is Some);
            }
            if is_known(list, target) {
                let k = choose|k: int| 0 <= k < list.len() && same_server(#[trigger] list[k], target);
                assert(all[k] == list[k]);
            } else {
                assert(all[all.len() - 1] == target);
            }
        }
        places
    }
}

/// The inventory holds every usable server once: of records with the same endpoint and key the first,
/// in the order of the records. Other records, and those that cannot be read, do not matter.
pub proof fn inventory_holds_first_of_each_server(records: Seq<Option<ApiServer>>)
    ensures
        exists|places: Seq<int>| are_leaders(records, usable_servers(records), places),
{
    let places = lemma_leaders(records);
    assert(are_leaders(records, usable_servers(records), places));
}

/// Whether one server is listed before another: by country, city, name, load and host name, one after
/// the other.
pub open spec fn listed_before(a: TargetModel, b: TargetModel) -> bool {
    ||| text_less(a.country, b.country)
    ||| a.country == b.country && text_less(a.city, b.city)
    ||| a.country == b.country && a.city == b.city && text_less(a.name, b.name)
    ||| a.country == b.country && a.city == b.city && a.name == b.name && a.load < b.load
    ||| a.country == b.country && a.city == b.city && a.name == b.name && a.load == b.load
        && text_less(a.hostname, b.hostname)
}

/// Whether one server of a city is tried before another: by load, name and host name.
pub open spec fn tried_before(a: TargetModel, b: TargetModel) -> bool {
    ||| a.load < b.load
    ||| a.load == b.load && text_less(a.name, b.name)
    ||| a.load == b.load && a.name == b.name && text_less(a.hostname, b.hostname)
}

/// The inventory lists its servers by country, city, name, load and host name, and loses none.
pub proof fn inventory_is_listed_in_order(list: Seq<TargetModel>, sorted: Seq<TargetModel>)
    requires
        list.len() <= usize::MAX,
        sorted_by(list, inventory_keys(list), sorted),
    ensures
        sorted.len() == list.len(),
        sorted.to_multiset() == list.to_multiset(),
        forall|i: int, j: int|
            0 <= i < j < sorted.len() ==> !#[trigger] listed_before(sorted[j], sorted[i]),
{
    crate::inventory::sorted_inventory_is_in_order(list, sorted);
    assert forall|i: int, j: int| 0 <= i < j < sorted.len() implies !#[trigger] listed_before(
        sorted[j],
        sorted[i],
    ) by {
        assert(!crate::inventory::inventory_before(sorted[j], sorted[i]));
        let a = sorted[j];
        let b = sorted[i];
        text_order_total(a.country, b.country);
        text_order_total(a.city, b.city);
        text_order_total(a.name, b.name);
    }
    lemma_sorted_multiset(list, inventory_keys(list), sorted);
}

proof fn lemma_sorted_multiset(
    list: Seq<TargetModel>,
    keys: Seq<Seq<u32>>,
    sorted: Seq<TargetModel>,
)
    requires
        list.len() <= usize::MAX,
        keys.len() == list.len(),
        sorted_by(list, keys, sorted),
    ensures
        sorted.len() == list.len(),
        sorted.to_multiset() == list.to_multiset(),
{
    let order = choose|order: Seq<usize>| #[trigger]
        crate::order::is_stable_order(keys, order) && sorted == crate::inventory::reordered(
            list,
            order,
        );
    let places = order.map_values(|i: usize| i as int);
    assert forall|i: int, j: int| 0 <= i < j < places.len() implies places[i] != places[j] by {
        assert(crate::order::goes_before(keys, order[i] as int, order[j] as int));
        key_order_total(keys[order[i] as int], keys[order[i] as int]);
    }
    assert forall|x: int| 0 <= x < list.len() implies places.contains(x) by {
        assert(order.contains(x as usize));
        let k = choose|k: int| 0 <= k < order.len() && order[k] == x as usize;
        assert(places[k] == x);
    }
    assert(sorted =~= places.map_values(|x: int| list[x]));
    lemma_permuted(list, places);
}

/// A list in another order holds the same items.
proof fn lemma_permuted(list: Seq<TargetModel>, places: Seq<int>)
    requires
        places.len() == list.len(),
        forall|i: int| 0 <= i < places.len() ==> 0 <= #[trigger] places[i] < list.len(),
        forall|i: int, j: int| 0 <= i < j < places.len() ==> places[i] != places[j],
        forall|x: int| 0 <= x < list.len() ==> #[trigger] places.contains(x),
    ensures
        places.map_values(|x: int| list[x]).to_multiset() == list.to_multiset(),
    decreases list.len(),
{
    broadcast use vstd::seq_lib::group_to_multiset_ensures;

    let image = places.map_values(|x: int| list[x]);
    if list.len() == 0 {
        assert(image =~= list);
    } else {
        let n = list.len() - 1;
        assert(places.contains(n));
        let k = choose|k: int| 0 <= k < places.len() && places[k] == n;
        let rest = places.remove(k);
        let short = list.drop_last();
        assert forall|i: int| 0 <= i < rest.len() implies 0 <= #[trigger] rest[i] < short.len() by {
            let o = if i < k {
                i
            } else {
                i + 1
            };
            assert(rest[i] == places[o]);
            assert(o != k);
            if o < k {
                assert(places[o] != places[k]);
            } else {
                assert(places[k] != places[o]);
            }
        }
        assert forall|x: int| 0 <= x < short.len() implies #[trigger] rest.contains(x) by {
            assert(places.contains(x));
            let m = choose|m: int| 0 <= m < places.len() && places[m] == x;
            assert(m != k);
            if m < k {
                assert(rest[m] == x);
            } else {
                assert(rest[m - 1] == x);
            }
        }
        lemma_permuted(short, rest);
        let part = rest.map_values(|x: int| short[x]);
        assert(image.remove(k) =~= part);
        assert(image[k] == list[n]);
        assert(part.to_multiset() =~= image.to_multiset().remove(image[k]));
        assert(list =~= short.push(list[n]));
        assert(list.to_multiset() =~= short.to_multiset().insert(list[n]));
        assert(image.to_multiset().count(image[k]) > 0) by {
            assert(image.contains(image[k]));
        }
        assert(image.to_multiset() =~= part.to_multiset().insert(image[k]));
    }
}

/// The servers of a city are those that stand in it, the least loaded first, then by name and host
/// name; none is lost.
pub proof fn city_servers_are_tried_in_order(
    targets: Seq<TargetModel>,
    country: Seq<char>,
    city: Seq<char>,
    sorted: Seq<TargetModel>,
)
    requires
        targets.len() <= usize::MAX,
        sorted_by(
            servers_in(targets, country, city),
            city_keys(servers_in(targets, country, city)),
            sorted,
        ),
    ensures
        sorted.to_multiset() == targets.filter(
            |target: TargetModel| target.country == country && target.city == city,
        ).to_multiset(),
        forall|i: int, j: int|
            0 <= i < j < sorted.len() ==> !#[trigger] tried_before(sorted[j], sorted[i]),
{
    let list = servers_in(targets, country, city);
    let keys = city_keys(list);
    lemma_servers_in(targets, country, city);
    lemma_sorted_multiset(list, keys, sorted);
    let order = choose|order: Seq<usize>| #[trigger]
        crate::order::is_stable_order(keys, order) && sorted == crate::inventory::reordered(
            list,
            order,
        );
    assert forall|i: int, j: int| 0 <= i < j < sorted.len() implies !#[trigger] tried_before(
        sorted[j],
        sorted[i],
    ) by {
        let a = sorted[i];
        let b = sorted[j];
        assert(crate::order::goes_before(keys, order[i] as int, order[j] as int));
        assert(keys[order[i] as int] == crate::inventory::city_key(a));
        assert(keys[order[j] as int] == crate::inventory::city_key(b));
        crate::inventory::city_key_compares_fields(a, b);
        crate::inventory::city_key_compares_fields(b, a);
        key_order_total(crate::inventory::city_key(a), crate::inventory::city_key(b));
        text_order_total(a.name, b.name);
    }
}

proof fn lemma_servers_in(targets: Seq<TargetModel>, country: Seq<char>, city: Seq<char>)
    ensures
        servers_in(targets, country, city) == targets.filter(
            |target: TargetModel| target.country == country && target.city == city,
        ),
        servers_in(targets, country, city).len() <= targets.len(),
    decreases targets.len(),
{
    reveal(Seq::filter);
    if targets.len() > 0 {
        lemma_servers_in(targets.drop_last(), country, city);
    }
}

/// Whether a text holds another, upper and lower case of ASCII aside.
pub open spec fn holds(text: Seq<char>, part: Seq<char>) -> bool {
    exists|i: int|
        0 <= i && i + part.len() <= text.len() && #[trigger] ascii_lower_spec(text).subrange(
            i,
            i + part.len(),
        ) == ascii_lower_spec(part)
}

/// Whether a server of a city is found by a filter: its country or its city holds the text, without
/// the white space round it.
pub open spec fn found(
    target: TargetModel,
    country: Seq<char>,
    city: Seq<char>,
    filter: Seq<char>,
) -> bool {
    target.country == country && target.city == city && (holds(country, trim_spec(filter)) || holds(
        city,
        trim_spec(filter),
    ))
}

proof fn lemma_holds(text: Seq<char>, part: Seq<char>)
    ensures
        holds(text, part) == occurs(ascii_lower_spec(text), ascii_lower_spec(part)),
        part.len() == 0 ==> holds(text, part),
{
    let low = ascii_lower_spec(text);
    let wanted = ascii_lower_spec(part);
    if occurs(low, wanted) {
        let i = choose|i: int| stands_at(low, wanted, i);
        assert(low.subrange(i, i + part.len()) == wanted);
    }
    if holds(text, part) {
        let i = choose|i: int|
            0 <= i && i + part.len() <= text.len() && #[trigger] low.subrange(i, i + part.len())
                == wanted;
        assert(stands_at(low, wanted, i));
    }
    if part.len() == 0 {
        let i: int = 0;
        assert(low.subrange(i, i + part.len()) =~= wanted);
    }
}

proof fn lemma_count(
    targets: Seq<TargetModel>,
    country: Seq<char>,
    city: Seq<char>,
    filter: Seq<char>,
)
    ensures
        city_count(targets, country, city, filter) == targets.filter(
            |target: TargetModel| found(target, country, city, filter),
        ).len(),
    decreases targets.len(),
{
    reveal(Seq::filter);
    if targets.len() > 0 {
        lemma_count(targets.drop_last(), country, city, filter);
        lemma_holds(country, trim_spec(filter));
        lemma_holds(city, trim_spec(filter));
    }
}

/// The list of cities has every city once in which a server is found, by country and then by name,
/// each with the number of servers that are found in it.
pub proof fn cities_count_their_servers(
    targets: Seq<TargetModel>,
    filter: Seq<char>,
    list: Seq<CityModel>,
)
    requires
        is_city_list(targets, filter, list),
    ensures
        forall|i: int|
            0 <= i < list.len() ==> (#[trigger] list[i]).count > 0 && list[i].count
                == targets.filter(
                |target: TargetModel| found(target, list[i].country, list[i].city, filter),
            ).len(),
        forall|i: int, j: int|
            0 <= i < j < list.len() ==> text_less(
                (#[trigger] list[i]).country,
                (#[trigger] list[j]).country,
            ) || (list[i].country == list[j].country && text_less(list[i].city, list[j].city)),
        forall|t: int|
            0 <= t < targets.len() && found(
                #[trigger] targets[t],
                targets[t].country,
                targets[t].city,
                filter,
            ) ==> exists|i: int|
                0 <= i < list.len() && (#[trigger] list[i]).country == targets[t].country
                    && list[i].city == targets[t].city,
{
    assert forall|i: int| 0 <= i < list.len() implies (#[trigger] list[i]).count > 0
        && list[i].count == targets.filter(
        |target: TargetModel| found(target, list[i].country, list[i].city, filter),
    ).len() by {
        lemma_count(targets, list[i].country, list[i].city, filter);
    }
    assert forall|i: int, j: int| 0 <= i < j < list.len() implies text_less(
        (#[trigger] list[i]).country,
        (#[trigger] list[j]).country,
    ) || (list[i].country == list[j].country && text_less(list[i].city, list[j].city)) by {
        assert(crate::inventory::city_before(list[i], list[j]));
    }
    assert forall|t: int| 0 <= t < targets.len() && found(
        #[trigger] targets[t],
        targets[t].country,
        targets[t].city,
        filter,
    ) implies exists|i: int|
        0 <= i < list.len() && (#[trigger] list[i]).country == targets[t].country && list[i].city
            == targets[t].city by {
        lemma_counted(targets, t, filter);
        assert(city_count(targets, targets[t].country, targets[t].city, filter) > 0);
        assert(crate::inventory::has_city(list, targets[t].country, targets[t].city));
    }
}

proof fn lemma_counted(targets: Seq<TargetModel>, t: int, filter: Seq<char>)
    requires
        0 <= t < targets.len(),
        found(targets[t], targets[t].country, targets[t].city, filter),
    ensures
        city_count(targets, targets[t].country, targets[t].city, filter) > 0,
    decreases targets.len(),
{
    let country = targets[t].country;
    let city = targets[t].city;
    lemma_holds(country, trim_spec(filter));
    lemma_holds(city, trim_spec(filter));
    lemma_count(targets.drop_last(), country, city, filter);
    if t < targets.len() - 1 {
        lemma_counted(targets.drop_last(), t, filter);
    }
}

} // verus!
