//! In which order servers are probed, and when the next one may start.
use crate::inventory::{
    lemma_reordered, lemma_sorted_list, reorder, reordered, sorted_by, sorted_list, target_models,
    NordTarget, TargetModel,
};
use crate::net::{SocketAddr, SocketModel};
use crate::order::{
    is_stable_order, key_less, key_views, push_text_key, stable_order, text_key, text_key_order,
    text_less,
};
use crate::text::{same_text, string_views};
use crate::time::Duration;
use vstd::prelude::*;
use vstd::string::*;

verus! {

/// The least time between two handshakes with one key, in milliseconds.
pub const MIN_GROUP_INTERVAL_MS: u64 = 6000;

/// How many probes may run at once.
pub const MAX_CONCURRENCY: usize = 4;

/// An endpoint as part of a sort key: IPv4 before IPv6, then address and port.
pub open spec fn endpoint_key(endpoint: SocketModel) -> Seq<u32> {
    match endpoint {
        SocketModel::V4 { address, port } => seq![0u32, address.number() as u32, port as u32],
        SocketModel::V6 { groups, port, flowinfo, scope_id } => seq![1u32] + groups.map_values(
            |g: u16| g as u32,
        ) + seq![port as u32, flowinfo, scope_id],
    }
}

/// By which candidates are sorted: load, host name and endpoint.
pub open spec fn candidate_key(target: TargetModel) -> Seq<u32> {
    seq![target.load as u32] + text_key(target.hostname) + endpoint_key(target.endpoint)
}

/// Whether the groups of an IPv6 address come before those of another: the first that differ decide.
pub open spec fn groups_less(a: Seq<u16>, b: Seq<u16>) -> bool
    decreases a.len(),
{
    if a.len() == 0 || b.len() == 0 {
        false
    } else if a[0] != b[0] {
        a[0] < b[0]
    } else {
        groups_less(a.drop_first(), b.drop_first())
    }
}

/// Whether an endpoint comes before another: IPv4 before IPv6, then by address and by port, and for
/// IPv6 then by flow information and by scope.
pub open spec fn endpoint_before(a: SocketModel, b: SocketModel) -> bool {
    match (a, b) {
        (SocketModel::V4 { address: x, port: p }, SocketModel::V4 { address: y, port: q }) => {
            x.number() < y.number() || (x.number() == y.number() && p < q)
        },
        (SocketModel::V4 { .. }, SocketModel::V6 { .. }) => true,
        (SocketModel::V6 { .. }, SocketModel::V4 { .. }) => false,
        (
            SocketModel::V6 { groups: x, port: p, flowinfo: f, scope_id: s },
            SocketModel::V6 { groups: y, port: q, flowinfo: g, scope_id: t },
        ) => if x != y {
            groups_less(x, y)
        } else if p != q {
            p < q
        } else if f != g {
            f < g
        } else {
            s < t
        },
    }
}

/// Whether a candidate comes before another: by load, then by host name, then by endpoint.
pub open spec fn candidate_before(a: TargetModel, b: TargetModel) -> bool {
    if a.load != b.load {
        a.load < b.load
    } else if a.hostname != b.hostname {
        text_less(a.hostname, b.hostname)
    } else {
        endpoint_before(a.endpoint, b.endpoint)
    }
}

/// Whether an IPv6 endpoint has as many groups as such an address has.
pub open spec fn has_all_groups(endpoint: SocketModel) -> bool {
    endpoint matches SocketModel::V6 { groups, port, flowinfo, scope_id } ==> groups.len() == 8
}

/// Sort keys compare as the candidates' fields do, one after the other.
pub proof fn candidate_key_compares_fields(a: TargetModel, b: TargetModel)
    requires
        has_all_groups(a.endpoint),
        has_all_groups(b.endpoint),
    ensures
        key_less(candidate_key(a), candidate_key(b)) == candidate_before(a, b),
{
    let x = endpoint_key(a.endpoint);
    let y = endpoint_key(b.endpoint);
    assert(candidate_key(a).drop_first() =~= text_key(a.hostname) + x);
    assert(candidate_key(b).drop_first() =~= text_key(b.hostname) + y);
    text_key_order(a.hostname, x, b.hostname, y);
    lemma_endpoint_key(a.endpoint, b.endpoint);
}

proof fn lemma_endpoint_key(a: SocketModel, b: SocketModel)
    requires
        has_all_groups(a),
        has_all_groups(b),
    ensures
        key_less(endpoint_key(a), endpoint_key(b)) == endpoint_before(a, b),
{
    let left = endpoint_key(a);
    let right = endpoint_key(b);
    match (a, b) {
        (SocketModel::V4 { address: x, port: p }, SocketModel::V4 { address: y, port: q }) => {
            lemma_last_words(left, right);
            assert(0 <= x.number() <= u32::MAX && 0 <= y.number() <= u32::MAX);
        },
        (
            SocketModel::V6 { groups: x, port: p, flowinfo: f, scope_id: s },
            SocketModel::V6 { groups: y, port: q, flowinfo: g, scope_id: t },
        ) => {
            let m = seq![p as u32, f, s];
            let n = seq![q as u32, g, t];
            assert(left.drop_first() =~= x.map_values(|g: u16| g as u32) + m);
            assert(right.drop_first() =~= y.map_values(|g: u16| g as u32) + n);
            lemma_groups_key(x, m, y, n);
            lemma_last_words(m, n);
        },
        _ => {},
    }
}

/// Keys of three numbers compare by the first that differ.
proof fn lemma_last_words(a: Seq<u32>, b: Seq<u32>)
    requires
        a.len() == 3,
        b.len() == 3,
    ensures
        key_less(a, b) == (if a[0] != b[0] {
            a[0] < b[0]
        } else if a[1] != b[1] {
            a[1] < b[1]
        } else {
            a[2] < b[2]
        }),
{
    reveal_with_fuel(key_less, 4);
}

proof fn lemma_groups_key(a: Seq<u16>, x: Seq<u32>, b: Seq<u16>, y: Seq<u32>)
    requires
        a.len() == b.len(),
    ensures
        key_less(a.map_values(|g: u16| g as u32) + x, b.map_values(|g: u16| g as u32) + y) == (
        if a == b {
            key_less(x, y)
        } else {
            groups_less(a, b)
        }),
    decreases a.len(),
{
    let left = a.map_values(|g: u16| g as u32) + x;
    let right = b.map_values(|g: u16| g as u32) + y;
    if a.len() == 0 {
        assert(a =~= b);
        assert(left =~= x);
        assert(right =~= y);
    } else {
        assert(left.drop_first() =~= a.drop_first().map_values(|g: u16| g as u32) + x);
        assert(right.drop_first() =~= b.drop_first().map_values(|g: u16| g as u32) + y);
        lemma_groups_key(a.drop_first(), x, b.drop_first(), y);
        assert(a =~= seq![a[0]] + a.drop_first());
        assert(b =~= seq![b[0]] + b.drop_first());
    }
}

/// The sort keys of the candidates.
pub open spec fn candidate_keys(list: Seq<TargetModel>) -> Seq<Seq<u32>> {
    list.map_values(|target: TargetModel| candidate_key(target))
}

/// The first three octets of an IPv4 endpoint.
pub open spec fn ipv4_prefix_spec(target: TargetModel) -> Option<(u8, u8, u8)> {
    match target.endpoint {
        SocketModel::V4 { address, port } => Some((address.a, address.b, address.c)),
        SocketModel::V6 { groups, port, flowinfo, scope_id } => None,
    }
}

/// Whether some server of the list has the same prefix.
pub open spec fn prefix_seen(list: Seq<TargetModel>, prefix: Option<(u8, u8, u8)>) -> bool {
    exists|i: int| 0 <= i < list.len() && ipv4_prefix_spec(#[trigger] list[i]) == prefix
}

/// Whether a server is the first of its IPv4 prefix after those of the list.
pub open spec fn opens_prefix(list: Seq<TargetModel>, target: TargetModel) -> bool {
    ipv4_prefix_spec(target) is Some && !prefix_seen(list, ipv4_prefix_spec(target))
}

/// The servers of the list that are the first of their prefix.
pub open spec fn first_of_prefix(list: Seq<TargetModel>) -> Seq<TargetModel>
    decreases list.len(),
{
    if list.len() == 0 {
        Seq::empty()
    } else {
        let before = first_of_prefix(list.drop_last());
        if opens_prefix(list.drop_last(), list.last()) {
            before.push(list.last())
        } else {
            before
        }
    }
}

/// The other servers of the list.
pub open spec fn rest_of_prefix(list: Seq<TargetModel>) -> Seq<TargetModel>
    decreases list.len(),
{
    if list.len() == 0 {
        Seq::empty()
    } else {
        let before = rest_of_prefix(list.drop_last());
        if opens_prefix(list.drop_last(), list.last()) {
            before
        } else {
            before.push(list.last())
        }
    }
}

/// Whether `ordered` is the list in probing order: sorted, with the first of each prefix moved to
/// the front.
pub open spec fn is_probing_order(list: Seq<TargetModel>, ordered: Seq<TargetModel>) -> bool {
    exists|sorted: Seq<TargetModel>| #[trigger]
        sorted_by(list, candidate_keys(list), sorted) && ordered == first_of_prefix(sorted)
            + rest_of_prefix(sorted)
}

fn push_endpoint_key(key: &mut Vec<u32>, endpoint: SocketAddr)
    ensures
        final(key)@ == old(key)@ + endpoint_key(endpoint@),
{
    match endpoint {
        SocketAddr::V4(a) => {
            key.push(0);
            key.push(
                a.ip.a as u32 * 0x1000000 + a.ip.b as u32 * 0x10000 + a.ip.c as u32 * 0x100
                    + a.ip.d as u32,
            );
            key.push(a.port as u32);
            assert(key@ =~= old(key)@ + endpoint_key(endpoint@));
        },
        SocketAddr::V6(a) => {
            key.push(1);
            let g = a.ip.segments;
            key.push(g[0] as u32);
            key.push(g[1] as u32);
            key.push(g[2] as u32);
            key.push(g[3] as u32);
            key.push(g[4] as u32);
            key.push(g[5] as u32);
            key.push(g[6] as u32);
            key.push(g[7] as u32);
            key.push(a.port as u32);
            key.push(a.flowinfo);
            key.push(a.scope_id);
            assert(key@ =~= old(key)@ + endpoint_key(endpoint@));
        },
    }
}

fn candidate_sort_key(target: &NordTarget) -> (r: Vec<u32>)
    ensures
        r@ == candidate_key(target@),
{
    let mut key: Vec<u32> = Vec::new();
    key.push(target.load as u32);
    push_text_key(&mut key, target.hostname.as_str());
    push_endpoint_key(&mut key, target.endpoint);
    assert(key@ =~= candidate_key(target@));
    key
}

fn ipv4_prefix(target: &NordTarget) -> (r: Option<(u8, u8, u8)>)
    ensures
        r == ipv4_prefix_spec(target@),
{
    match target.endpoint {
        SocketAddr::V4(a) => Some((a.ip.a, a.ip.b, a.ip.c)),
        SocketAddr::V6(_) => None,
    }
}

fn is_new_prefix(list: &Vec<NordTarget>, count: usize, target: &NordTarget) -> (r: bool)
    requires
        count <= list@.len(),
    ensures
        r == opens_prefix(target_models(list@).take(count as int), target@),
{
    let ghost seen = target_models(list@).take(count as int);
    let prefix = ipv4_prefix(target);
    let (a, b, c) = match prefix {
        Some(octets) => octets,
        None => {
            return false;
        },
    };
    let mut i: usize = 0;
    while i < count
        invariant
            i <= count <= list@.len(),
            seen == target_models(list@).take(count as int),
            ipv4_prefix_spec(target@) == Some((a, b, c)),
            forall|k: int| 0 <= k < i ==> ipv4_prefix_spec(#[trigger] seen[k]) != Some((a, b, c)),
        decreases count - i,
    {
        assert(seen[i as int] == list@[i as int]@);
        if let Some((x, y, z)) = ipv4_prefix(&list[i]) {
            if x == a && y == b && z == c {
                assert(ipv4_prefix_spec(seen[i as int]) == Some((a, b, c)));
                return false;
            }
        }
        i = i + 1;
    }
    true
}

/// The candidates in probing order: by load, host name and endpoint, with one server of each IPv4
/// prefix before the others.
pub fn order_candidates(targets: Vec<NordTarget>) -> (r: Vec<NordTarget>)
    ensures
        is_probing_order(target_models(targets@), target_models(r@)),
        r@.len() == targets@.len(),
{
    let ghost models = target_models(targets@);
    let mut keys: Vec<Vec<u32>> = Vec::new();
    let mut i: usize = 0;
    assert(key_views(keys@) =~= candidate_keys(models).take(0));
    while i < targets.len()
        invariant
            i <= targets@.len(),
            models == target_models(targets@),
            key_views(keys@) == candidate_keys(models).take(i as int),
        decreases targets@.len() - i,
    {
        let ghost before = keys@;
        let key = candidate_sort_key(&targets[i]);
        keys.push(key);
        assert(key@ == candidate_keys(models)[i as int]);
        i = i + 1;
        assert(key_views(keys@) =~= key_views(before).push(key@));
        assert(candidate_keys(models).take(i as int) =~= candidate_keys(models).take(i - 1).push(
            key@,
        ));
    }
    assert(key_views(keys@) =~= candidate_keys(models));
    let order = stable_order(&keys);
    assert(is_stable_order(candidate_keys(models), order@));
    let sorted = reorder(&targets, &order);
    let ghost all = target_models(sorted@);
    assert(sorted_by(models, candidate_keys(models), all));
    let mut distinct: Vec<NordTarget> = Vec::new();
    let mut repeated: Vec<NordTarget> = Vec::new();
    let mut i: usize = 0;
    assert(all.take(0) =~= Seq::empty());
    assert(target_models(distinct@) =~= Seq::empty());
    assert(target_models(repeated@) =~= Seq::empty());
    while i < sorted.len()
        invariant
            i <= sorted@.len(),
            all == target_models(sorted@),
            target_models(distinct@) == first_of_prefix(all.take(i as int)),
            target_models(repeated@) == rest_of_prefix(all.take(i as int)),
            distinct@.len() + repeated@.len() == i,
        decreases sorted@.len() - i,
    {
        assert(all.take(i + 1).drop_last() =~= all.take(i as int));
        assert(all.take(i + 1).last() == sorted@[i as int]@);
        let item = sorted[i].copy();
        if is_new_prefix(&sorted, i, &sorted[i]) {
            let ghost before = distinct@;
            distinct.push(item);
            assert(target_models(distinct@) =~= target_models(before).push(item@));
        } else {
            let ghost before = repeated@;
            repeated.push(item);
            assert(target_models(repeated@) =~= target_models(before).push(item@));
        }
        i = i + 1;
    }
    assert(all.take(i as int) =~= all);
    let ghost head = distinct@;
    let ghost tail = repeated@;
    distinct.append(&mut repeated);
    assert(target_models(distinct@) =~= target_models(head) + target_models(tail));
    distinct
}

/// The first candidates in probing order, at most so many.
pub fn plan_candidates(targets: Vec<NordTarget>, maximum: usize) -> (r: Vec<NordTarget>)
    ensures
        exists|ordered: Seq<TargetModel>| #[trigger]
            is_probing_order(target_models(targets@), ordered) && target_models(r@)
                == ordered.take(
                if maximum < ordered.len() {
                    maximum as int
                } else {
                    ordered.len() as int
                },
            ),
        r@.len() == if maximum < targets@.len() {
            maximum as int
        } else {
            targets@.len() as int
        },
{
    let mut list = order_candidates(targets);
    let ghost ordered = target_models(list@);
    if maximum < list.len() {
        list.truncate(maximum);
        assert(target_models(list@) =~= ordered.take(maximum as int));
    } else {
        assert(ordered.take(ordered.len() as int) =~= ordered);
    }
    list
}

proof fn lemma_split_keeps(list: Seq<TargetModel>)
    ensures
        first_of_prefix(list).len() + rest_of_prefix(list).len() == list.len(),
        (first_of_prefix(list) + rest_of_prefix(list)).to_multiset() == list.to_multiset(),
    decreases list.len(),
{
    broadcast use vstd::seq_lib::group_to_multiset_ensures;

    if list.len() == 0 {
        assert(first_of_prefix(list) + rest_of_prefix(list) =~= list);
    } else {
        let before = list.drop_last();
        lemma_split_keeps(before);
        let f = first_of_prefix(before);
        let r = rest_of_prefix(before);
        assert(list =~= before.push(list.last()));
        vstd::seq_lib::lemma_multiset_commutative(f, r);
        vstd::seq_lib::lemma_multiset_commutative(first_of_prefix(list), rest_of_prefix(list));
        if opens_prefix(before, list.last()) {
            assert(first_of_prefix(list).to_multiset() =~= f.to_multiset().insert(list.last()));
        } else {
            assert(rest_of_prefix(list).to_multiset() =~= r.to_multiset().insert(list.last()));
        }
        assert(list.to_multiset() =~= before.to_multiset().insert(list.last()));
        assert((first_of_prefix(list) + rest_of_prefix(list)).to_multiset()
            =~= list.to_multiset());
    }
}

/// Every prefix of the list is opened once, and no two servers at the front share a prefix.
proof fn lemma_first_of_prefix(list: Seq<TargetModel>)
    ensures
        forall|i: int|
            0 <= i < first_of_prefix(list).len() ==> ipv4_prefix_spec(
                #[trigger] first_of_prefix(list)[i],
            ) is Some && prefix_seen(list, ipv4_prefix_spec(first_of_prefix(list)[i])),
        forall|i: int, j: int|
            0 <= i < j < first_of_prefix(list).len() ==> ipv4_prefix_spec(
                #[trigger] first_of_prefix(list)[i],
            ) != ipv4_prefix_spec(#[trigger] first_of_prefix(list)[j]),
        forall|i: int|
            0 <= i < list.len() && ipv4_prefix_spec(#[trigger] list[i]) is Some ==> prefix_seen(
                first_of_prefix(list),
                ipv4_prefix_spec(list[i]),
            ),
    decreases list.len(),
{
    if list.len() > 0 {
        let before = list.drop_last();
        let last = list.last();
        lemma_first_of_prefix(before);
        let f = first_of_prefix(before);
        let all = first_of_prefix(list);
        assert forall|p: Option<(u8, u8, u8)>| prefix_seen(before, p) implies #[trigger] prefix_seen(
            list,
            p,
        ) by {
            let k = choose|k: int| 0 <= k < before.len() && ipv4_prefix_spec(#[trigger] before[k]) == p;
            assert(list[k] == before[k]);
        }
        assert(list[list.len() - 1] == last);
        assert(prefix_seen(list, ipv4_prefix_spec(last)));
        assert forall|i: int| 0 <= i < all.len() implies ipv4_prefix_spec(#[trigger] all[i]) is Some
            && prefix_seen(list, ipv4_prefix_spec(all[i])) by {
            if i < f.len() {
                assert(all[i] == f[i]);
            }
        }
        assert forall|i: int, j: int| 0 <= i < j < all.len() implies ipv4_prefix_spec(
            #[trigger] all[i],
        ) != ipv4_prefix_spec(#[trigger] all[j]) by {
            assert(all[i] == f[i]);
            if j < f.len() {
                assert(all[j] == f[j]);
            } else {
                assert(prefix_seen(before, ipv4_prefix_spec(f[i])));
            }
        }
        assert forall|i: int|
            0 <= i < list.len() && ipv4_prefix_spec(#[trigger] list[i]) is Some implies prefix_seen(
            all,
            ipv4_prefix_spec(list[i]),
        ) by {
            let p = ipv4_prefix_spec(list[i]);
            if i == list.len() - 1 && opens_prefix(before, last) {
                assert(all[f.len() as int] == last);
            } else {
                if i == list.len() - 1 {
                    let k = choose|k: int|
                        0 <= k < before.len() && ipv4_prefix_spec(#[trigger] before[k]) == p;
                    assert(prefix_seen(f, ipv4_prefix_spec(before[k])));
                } else {
                    assert(before[i] == list[i]);
                    assert(prefix_seen(f, p));
                }
                let k = choose|k: int| 0 <= k < f.len() && ipv4_prefix_spec(#[trigger] f[k]) == p;
                assert(all[k] == f[k]);
            }
        }
    }
}

/// Whether no server of the list stands behind one that belongs behind it.
pub open spec fn in_order(list: Seq<TargetModel>) -> bool {
    forall|i: int, j: int|
        0 <= i < j < list.len() ==> !#[trigger] candidate_before(list[j], list[i])
}

/// Whether no server of `all` belongs before one of the list that shares its IPv4 prefix.
pub open spec fn leads_prefixes(list: Seq<TargetModel>, all: Seq<TargetModel>) -> bool {
    forall|h: TargetModel, t: TargetModel|
        list.contains(h) && all.contains(t) && ipv4_prefix_spec(h) == ipv4_prefix_spec(t)
            ==> !#[trigger] candidate_before(t, h)
}

proof fn lemma_sorted_candidates(list: Seq<TargetModel>, sorted: Seq<TargetModel>)
    requires
        list.len() <= usize::MAX,
        forall|i: int| 0 <= i < list.len() ==> has_all_groups((#[trigger] list[i]).endpoint),
        sorted_by(list, candidate_keys(list), sorted),
    ensures
        in_order(sorted),
{
    let keys = candidate_keys(list);
    let order = choose|order: Seq<usize>| #[trigger]
        is_stable_order(keys, order) && sorted == reordered(list, order);
    lemma_reordered(list, keys, order);
    assert forall|i: int, j: int| 0 <= i < j < sorted.len() implies !#[trigger] candidate_before(
        sorted[j],
        sorted[i],
    ) by {
        assert(crate::order::goes_before(keys, order[i] as int, order[j] as int));
        assert(sorted[i] == list[order[i] as int] && sorted[j] == list[order[j] as int]);
        candidate_key_compares_fields(sorted[j], sorted[i]);
        candidate_key_compares_fields(sorted[i], sorted[j]);
        assert(keys[order[i] as int] == candidate_key(sorted[i]));
        assert(keys[order[j] as int] == candidate_key(sorted[j]));
        crate::order::key_order_total(candidate_key(sorted[i]), candidate_key(sorted[j]));
    }
}

/// Both parts of a list in order are in order, and the first part leads its prefixes.
proof fn lemma_parts_in_order(list: Seq<TargetModel>)
    requires
        in_order(list),
    ensures
        in_order(first_of_prefix(list)),
        in_order(rest_of_prefix(list)),
        leads_prefixes(first_of_prefix(list), list),
        forall|t: TargetModel| #[trigger] first_of_prefix(list).contains(t) ==> list.contains(t),
        forall|t: TargetModel| #[trigger] rest_of_prefix(list).contains(t) ==> list.contains(t),
    decreases list.len(),
{
    if list.len() > 0 {
        let before = list.drop_last();
        let last = list.last();
        assert(in_order(before)) by {
            assert forall|i: int, j: int|
                0 <= i < j < before.len() implies !#[trigger] candidate_before(
                before[j],
                before[i],
            ) by {
                assert(before[j] == list[j] && before[i] == list[i]);
            }
        }
        lemma_parts_in_order(before);
        let head = first_of_prefix(before);
        let rest = rest_of_prefix(before);
        assert forall|t: TargetModel| #[trigger] before.contains(t) implies list.contains(t)
            && !candidate_before(last, t) by {
            let k = choose|k: int| 0 <= k < before.len() && before[k] == t;
            assert(list[k] == t);
            assert(!candidate_before(list[list.len() - 1], list[k]));
        }
        assert(list.contains(last));
        lemma_pushed_in_order(head, last, before);
        lemma_pushed_in_order(rest, last, before);
        assert(first_of_prefix(list).contains(last) || first_of_prefix(list) == head);
        assert forall|h: TargetModel, t: TargetModel|
            first_of_prefix(list).contains(h) && list.contains(t) && ipv4_prefix_spec(h)
                == ipv4_prefix_spec(t) implies !#[trigger] candidate_before(t, h) by {
            assert(t == last || before.contains(t)) by {
                let k = choose|k: int| 0 <= k < list.len() && list[k] == t;
                if k < before.len() {
                    assert(before[k] == t);
                }
            }
            if opens_prefix(before, last) && h == last {
                if before.contains(t) && t != last {
                    let k = choose|k: int| 0 <= k < before.len() && before[k] == t;
                    assert(prefix_seen(before, ipv4_prefix_spec(last)));
                }
            } else {
                assert(head.contains(h)) by {
                    let k = choose|k: int|
                        0 <= k < first_of_prefix(list).len() && first_of_prefix(list)[k] == h;
                    if k < head.len() {
                        assert(head[k] == h);
                    }
                }
                assert(before.contains(h));
            }
        }
    }
}

/// A list in order stays so with a server behind it that belongs before none of its servers.
proof fn lemma_pushed_in_order(list: Seq<TargetModel>, last: TargetModel, all: Seq<TargetModel>)
    requires
        in_order(list),
        forall|t: TargetModel| #[trigger] list.contains(t) ==> all.contains(t),
        forall|t: TargetModel| #[trigger] all.contains(t) ==> !candidate_before(last, t),
    ensures
        in_order(list.push(last)),
        forall|t: TargetModel| #[trigger] list.push(last).contains(t) ==> list.contains(t) || t
            == last,
        list.push(last).contains(last),
{
    let longer = list.push(last);
    assert forall|i: int, j: int| 0 <= i < j < longer.len() implies !#[trigger] candidate_before(
        longer[j],
        longer[i],
    ) by {
        assert(longer[i] == list[i]);
        if j == list.len() {
            assert(list.contains(list[i]));
        } else {
            assert(longer[j] == list[j]);
        }
    }
    assert forall|t: TargetModel| #[trigger] longer.contains(t) implies list.contains(t) || t
        == last by {
        let k = choose|k: int| 0 <= k < longer.len() && longer[k] == t;
        if k < list.len() {
            assert(list[k] == t);
        }
    }
    assert(longer[list.len() as int] == last);
}

/// Probing order samples every IPv4 prefix before it repeats one: the list starts with one server
/// of each prefix, no two of which share it, and each the first of its prefix by load, host name and
/// endpoint. What starts the list is sorted so, and so is the rest. The list is as long as before,
/// and holds the same servers.
pub proof fn probing_order_samples_prefixes(list: Seq<TargetModel>, ordered: Seq<TargetModel>)
    requires
        list.len() <= usize::MAX,
        forall|i: int| 0 <= i < list.len() ==> has_all_groups((#[trigger] list[i]).endpoint),
        is_probing_order(list, ordered),
    ensures
        ordered.len() == list.len(),
        forall|i: int| 0 <= i < list.len() ==> ordered.contains(#[trigger] list[i]),
        forall|i: int| 0 <= i < ordered.len() ==> list.contains(#[trigger] ordered[i]),
        exists|n: int|
            0 <= n <= ordered.len() && samples_prefixes(#[trigger] ordered.take(n), ordered)
                && leads_prefixes(ordered.take(n), ordered) && in_order(ordered.take(n))
                && in_order(ordered.skip(n)),
{
    let sorted = choose|sorted: Seq<TargetModel>| #[trigger]
        sorted_by(list, candidate_keys(list), sorted) && ordered == first_of_prefix(sorted)
            + rest_of_prefix(sorted);
    let order = choose|order: Seq<usize>| #[trigger]
        is_stable_order(candidate_keys(list), order) && sorted == reordered(list, order);
    lemma_reordered(list, candidate_keys(list), order);
    lemma_split_keeps(sorted);
    lemma_first_of_prefix(sorted);
    let head = first_of_prefix(sorted);
    let n = head.len() as int;
    assert(ordered.take(n) =~= head);
    assert forall|t: TargetModel| #[trigger] ordered.contains(t) == sorted.contains(t) by {
        broadcast use vstd::seq_lib::group_to_multiset_ensures;

        assert(ordered.contains(t) <==> ordered.to_multiset().count(t) > 0);
        assert(sorted.contains(t) <==> sorted.to_multiset().count(t) > 0);
    }
    assert forall|i: int| 0 <= i < list.len() implies ordered.contains(#[trigger] list[i]) by {
        assert(sorted.contains(list[i]));
    }
    assert forall|i: int| 0 <= i < ordered.len() implies list.contains(#[trigger] ordered[i]) by {
        assert(ordered.contains(ordered[i]));
        let k = choose|k: int| 0 <= k < sorted.len() && sorted[k] == ordered[i];
        assert(list.contains(sorted[k]));
    }
    assert forall|i: int|
        0 <= i < ordered.len() && ipv4_prefix_spec(#[trigger] ordered[i]) is Some implies prefix_seen(
        head,
        ipv4_prefix_spec(ordered[i]),
    ) by {
        assert(ordered.contains(ordered[i]));
        let k = choose|k: int| 0 <= k < sorted.len() && sorted[k] == ordered[i];
        assert(prefix_seen(head, ipv4_prefix_spec(sorted[k])));
    }
    lemma_sorted_candidates(list, sorted);
    lemma_parts_in_order(sorted);
    assert(ordered.skip(n) =~= rest_of_prefix(sorted));
    assert(samples_prefixes(ordered.take(n), ordered));
}

/// Whether `head` holds one server of each IPv4 prefix of the list.
pub open spec fn samples_prefixes(head: Seq<TargetModel>, list: Seq<TargetModel>) -> bool {
    &&& forall|i: int|
        0 <= i < head.len() ==> ipv4_prefix_spec(#[trigger] head[i]) is Some
    &&& forall|i: int, j: int|
        0 <= i < j < head.len() ==> ipv4_prefix_spec(#[trigger] head[i]) != ipv4_prefix_spec(
            #[trigger] head[j],
        )
    &&& forall|i: int|
        0 <= i < list.len() && ipv4_prefix_spec(#[trigger] list[i]) is Some ==> prefix_seen(
            head,
            ipv4_prefix_spec(list[i]),
        )
}

/// When a handshake with a key was started.
#[derive(Debug)]
struct Stamp {
    key: String,
    at: u64,
}

/// Which servers wait, which keys are in use, and when each key was last used.
#[derive(Debug)]
pub struct Scheduler {
    pending: Vec<NordTarget>,
    active: Vec<String>,
    stamps: Vec<Stamp>,
}

/// A scheduler as a mathematical value.
#[verifier::ext_equal]
pub struct SchedulerModel {
    pub pending: Seq<TargetModel>,
    pub active: Set<Seq<char>>,
    pub last: Map<Seq<char>, u64>,
}

spec fn stamp_map(stamps: Seq<Stamp>) -> Map<Seq<char>, u64>
    decreases stamps.len(),
{
    if stamps.len() == 0 {
        Map::empty()
    } else {
        stamp_map(stamps.drop_last()).insert(stamps.last().key@, stamps.last().at)
    }
}

impl View for Scheduler {
    type V = SchedulerModel;

    closed spec fn view(&self) -> SchedulerModel {
        SchedulerModel {
            pending: target_models(self.pending@),
            active: string_views(self.active@).to_set(),
            last: stamp_map(self.stamps@),
        }
    }
}

/// How long a key has rested, with times before its last use counted as no rest.
pub open spec fn rest_time(last: u64, now: u64) -> int {
    if now >= last {
        now - last
    } else {
        0
    }
}

impl SchedulerModel {
    /// Whether a key may be used now: it is not in use, and has rested long enough.
    pub open spec fn key_ready(self, key: Seq<char>, now: u64) -> bool {
        !self.active.contains(key) && (self.last.dom().contains(key) ==> rest_time(
            self.last[key],
            now,
        ) >= MIN_GROUP_INTERVAL_MS)
    }

    /// The position of the first waiting server from `i` on whose key may be used now, or their
    /// number.
    pub open spec fn first_ready(self, i: int, now: u64) -> int
        decreases self.pending.len() - i,
    {
        if i >= self.pending.len() || self.key_ready(self.pending[i].public_key, now) {
            i
        } else {
            self.first_ready(i + 1, now)
        }
    }

    /// The milliseconds until a key has rested long enough, uses in progress aside.
    pub open spec fn wait_for(self, key: Seq<char>, now: u64) -> int {
        if self.last.dom().contains(key) && rest_time(self.last[key], now)
            < MIN_GROUP_INTERVAL_MS {
            MIN_GROUP_INTERVAL_MS - rest_time(self.last[key], now)
        } else {
            0
        }
    }

    /// The shortest wait for one of the first `n` waiting servers whose key is not in use.
    pub open spec fn shortest_wait(self, n: int, now: u64) -> Option<int>
        decreases n,
    {
        if n <= 0 {
            None
        } else {
            let key = self.pending[n - 1].public_key;
            let before = self.shortest_wait(n - 1, now);
            if self.active.contains(key) {
                before
            } else {
                match before {
                    Some(wait) => if self.wait_for(key, now) < wait {
                        Some(self.wait_for(key, now))
                    } else {
                        Some(wait)
                    },
                    None => Some(self.wait_for(key, now)),
                }
            }
        }
    }
}

impl Scheduler {
    /// No key is in use twice, and no more than may be.
    pub closed spec fn wf(self) -> bool {
        &&& string_views(self.active@).no_duplicates()
        &&& self.active@.len() <= MAX_CONCURRENCY
    }

    /// A scheduler for the first candidates in probing order.
    pub fn new(targets: Vec<NordTarget>, max_candidates: usize) -> (r: Scheduler)
        ensures
            r.wf(),
            exists|ordered: Seq<TargetModel>| #[trigger]
                is_probing_order(target_models(targets@), ordered) && r@ == (SchedulerModel {
                    pending: ordered.take(
                        if max_candidates < ordered.len() {
                            max_candidates as int
                        } else {
                            ordered.len() as int
                        },
                    ),
                    active: Set::empty(),
                    last: Map::empty(),
                }),
    {
        let scheduler = Scheduler {
            pending: plan_candidates(targets, max_candidates),
            active: Vec::new(),
            stamps: Vec::new(),
        };
        assert(string_views(scheduler.active@) =~= Seq::empty());
        assert(scheduler@.active =~= Set::empty());
        proof {
            let ordered = choose|ordered: Seq<TargetModel>| #[trigger]
                is_probing_order(target_models(targets@), ordered) && scheduler@.pending
                    == ordered.take(
                    if max_candidates < ordered.len() {
                        max_candidates as int
                    } else {
                        ordered.len() as int
                    },
                );
            assert(is_probing_order(target_models(targets@), ordered) && scheduler@ == (
            SchedulerModel {
                pending: ordered.take(
                    if max_candidates < ordered.len() {
                        max_candidates as int
                    } else {
                        ordered.len() as int
                    },
                ),
                active: Set::empty(),
                last: Map::empty(),
            }));
        }
        scheduler
    }

    fn is_active(&self, key: &str) -> (r: bool)
        ensures
            r == self@.active.contains(key@),
    {
        let ghost keys = string_views(self.active@);
        let mut i: usize = 0;
        while i < self.active.len()
            invariant
                i <= self.active@.len(),
                keys == string_views(self.active@),
                forall|k: int| 0 <= k < i ==> #[trigger] keys[k] != key@,
            decreases self.active@.len() - i,
        {
            assert(keys[i as int] == self.active@[i as int]@);
            if same_text(self.active[i].as_str(), key) {
                assert(keys.contains(key@));
                return true;
            }
            i = i + 1;
        }
        assert(!keys.contains(key@));
        false
    }

    fn last_start(&self, key: &str) -> (r: Option<u64>)
        ensures
            match r {
                Some(at) => self@.last.dom().contains(key@) && self@.last[key@] == at,
                None => !self@.last.dom().contains(key@),
            },
    {
        let mut i: usize = self.stamps.len();
        assert(self.stamps@.take(i as int) =~= self.stamps@);
        while i > 0
            invariant
                i <= self.stamps@.len(),
                self@.last.dom().contains(key@) == stamp_map(self.stamps@.take(i as int)).dom().contains(
                    key@,
                ),
                self@.last.dom().contains(key@) ==> self@.last[key@] == stamp_map(
                    self.stamps@.take(i as int),
                )[key@],
            decreases i,
        {
            let ghost part = self.stamps@.take(i as int);
            assert(part.drop_last() =~= self.stamps@.take(i - 1));
            assert(part.last() == self.stamps@[i - 1]);
            i = i - 1;
            if same_text(self.stamps[i].key.as_str(), key) {
                return Some(self.stamps[i].at);
            }
        }
        assert(self.stamps@.take(0) =~= Seq::empty());
        None
    }

    fn ready(&self, key: &str, now_ms: u64) -> (r: bool)
        ensures
            r == self@.key_ready(key@, now_ms),
    {
        if self.is_active(key) {
            return false;
        }
        match self.last_start(key) {
            Some(last) => {
                let rest: u64 = if now_ms >= last {
                    now_ms - last
                } else {
                    0
                };
                rest >= MIN_GROUP_INTERVAL_MS
            },
            None => true,
        }
    }

    /// Takes the first waiting server whose key may be used now, and marks the key as in use. At
    /// most so many keys are in use as may be.
    pub fn start_ready(&mut self, now_ms: u64) -> (r: Option<NordTarget>)
        requires
            old(self).wf(),
        ensures
            final(self).wf(),
            match r {
                Some(target) => {
                    let i = old(self)@.first_ready(0, now_ms);
                    &&& old(self)@.active.len() < MAX_CONCURRENCY
                    &&& i < old(self)@.pending.len()
                    &&& target@ == old(self)@.pending[i]
                    &&& final(self)@ == (SchedulerModel {
                        pending: old(self)@.pending.remove(i),
                        active: old(self)@.active.insert(target@.public_key),
                        ..old(self)@
                    })
                },
                None => final(self)@ == old(self)@ && (old(self)@.active.len() >= MAX_CONCURRENCY
                    || old(self)@.first_ready(0, now_ms) >= old(self)@.pending.len()),
            },
    {
        let ghost keys = string_views(self.active@);
        proof {
            keys.unique_seq_to_set();
        }
        if self.active.len() >= MAX_CONCURRENCY {
            return None;
        }
        let mut i: usize = 0;
        while i < self.pending.len()
            invariant
                i <= self.pending@.len(),
                self@.first_ready(0, now_ms) == self@.first_ready(i as int, now_ms),
                *self == *old(self),
                self.wf(),
                self.active@.len() < MAX_CONCURRENCY,
                self@.active.len() == self.active@.len(),
                keys == string_views(self.active@),
            decreases self.pending@.len() - i,
        {
            assert(self@.pending[i as int] == self.pending@[i as int]@);
            if self.ready(self.pending[i].public_key.as_str(), now_ms) {
                let ghost before = self.pending@;
                let target = self.pending.remove(i);
                let key = target.public_key.clone();
                self.active.push(key);
                proof {
                    assert(target_models(self.pending@) =~= target_models(before).remove(i as int));
                    let after = string_views(self.active@);
                    assert(after =~= keys.push(target.public_key@));
                    assert(!keys.contains(target.public_key@));
                    assert(after.to_set() =~= keys.to_set().insert(target.public_key@)) by {
                        assert forall|k: Seq<char>| #[trigger] after.contains(k) == (keys.contains(k)
                            || k == target.public_key@) by {
                            if keys.contains(k) {
                                let m = choose|m: int| 0 <= m < keys.len() && keys[m] == k;
                                assert(after[m] == k);
                            }
                            if k == target.public_key@ {
                                assert(after[keys.len() as int] == k);
                            }
                        }
                    }
                    assert(after.no_duplicates()) by {
                        assert forall|a: int, b: int|
                            0 <= a < after.len() && 0 <= b < after.len() && a
                                != b implies after[a] != after[b] by {
                            if a < keys.len() && b < keys.len() {
                                assert(keys[a] != keys[b]);
                            } else if a < keys.len() {
                                assert(keys.contains(keys[a]));
                            } else {
                                assert(keys.contains(keys[b]));
                            }
                        }
                    }
                }
                return Some(target);
            }
            i = i + 1;
        }
        None
    }

    /// Notes that a handshake with the key starts now.
    pub fn acknowledge_handshake_start(&mut self, public_key: &str, now_ms: u64)
        requires
            old(self).wf(),
        ensures
            final(self).wf(),
            final(self)@ == (SchedulerModel {
                last: old(self)@.last.insert(public_key@, now_ms),
                ..old(self)@
            }),
    {
        let ghost before = self.stamps@;
        self.stamps.push(Stamp { key: public_key.to_string(), at: now_ms });
        assert(self.stamps@.drop_last() =~= before);
    }

    /// Notes that the key is no longer in use.
    pub fn finish(&mut self, public_key: &str)
        requires
            old(self).wf(),
        ensures
            final(self).wf(),
            final(self)@ == (SchedulerModel {
                active: old(self)@.active.remove(public_key@),
                ..old(self)@
            }),
    {
        let ghost keys = string_views(self.active@);
        let mut i: usize = 0;
        while i < self.active.len()
            invariant
                i <= self.active@.len(),
                keys == string_views(self.active@),
                *self == *old(self),
                self.wf(),
                forall|k: int| 0 <= k < i ==> #[trigger] keys[k] != public_key@,
            decreases self.active@.len() - i,
        {
            assert(keys[i as int] == self.active@[i as int]@);
            if same_text(self.active[i].as_str(), public_key) {
                self.active.remove(i);
                proof {
                    let after = string_views(self.active@);
                    assert(after =~= keys.remove(i as int));
                    assert forall|k: Seq<char>| #[trigger] after.contains(k) == (keys.contains(k) && k
                        != public_key@) by {
                        if after.contains(k) {
                            let m = choose|m: int| 0 <= m < after.len() && after[m] == k;
                            let n = if m < i {
                                m
                            } else {
                                m + 1
                            };
                            assert(keys[n] == k);
                            assert(keys[n] != keys[i as int]);
                        }
                        if keys.contains(k) && k != public_key@ {
                            let n = choose|n: int| 0 <= n < keys.len() && keys[n] == k;
                            let m = if n < i {
                                n
                            } else {
                                n - 1
                            };
                            assert(after[m] == k);
                        }
                    }
                    assert(after.to_set() =~= keys.to_set().remove(public_key@));
                    assert(after.no_duplicates()) by {
                        assert forall|a: int, b: int|
                            0 <= a < after.len() && 0 <= b < after.len() && a
                                != b implies after[a] != after[b] by {
                            let x = if a < i {
                                a
                            } else {
                                a + 1
                            };
                            let y = if b < i {
                                b
                            } else {
                                b + 1
                            };
                            assert(keys[x] != keys[y]);
                        }
                    }
                }
                return;
            }
            i = i + 1;
        }
        assert(!keys.contains(public_key@));
        assert(self@.active.remove(public_key@) =~= self@.active);
    }

    /// How many keys are in use.
    pub fn active(&self) -> (r: usize)
        requires
            self.wf(),
        ensures
            r == self@.active.len(),
            r <= MAX_CONCURRENCY,
    {
        proof {
            string_views(self.active@).unique_seq_to_set();
        }
        self.active.len()
    }

    /// Whether nothing waits and nothing is in use.
    pub fn is_done(&self) -> (r: bool)
        requires
            self.wf(),
        ensures
            r == (self@.pending.len() == 0 && self@.active.len() == 0),
    {
        proof {
            string_views(self.active@).unique_seq_to_set();
        }
        self.pending.len() == 0 && self.active.len() == 0
    }

    /// The time until some waiting server whose key is not in use may start, if there is one.
    pub fn next_ready_in(&self, now_ms: u64) -> (r: Option<Duration>)
        ensures
            match r {
                Some(wait) => self@.shortest_wait(self@.pending.len() as int, now_ms) matches Some(
                    ms,
                ) && wait.nanos() == ms * 1_000_000,
                None => self@.shortest_wait(self@.pending.len() as int, now_ms) is None,
            },
    {
        let mut best: Option<u64> = None;
        let mut i: usize = 0;
        while i < self.pending.len()
            invariant
                i <= self.pending@.len(),
                self@.shortest_wait(i as int, now_ms) == (match best {
                    Some(wait) => Some(wait as int),
                    None => None,
                }),
            decreases self.pending@.len() - i,
        {
            assert(self@.pending[i as int] == self.pending@[i as int]@);
            let key = self.pending[i].public_key.as_str();
            if !self.is_active(key) {
                let wait: u64 = match self.last_start(key) {
                    Some(last) => {
                        let rest: u64 = if now_ms >= last {
                            now_ms - last
                        } else {
                            0
                        };
                        if rest < MIN_GROUP_INTERVAL_MS {
                            MIN_GROUP_INTERVAL_MS - rest
                        } else {
                            0
                        }
                    },
                    None => 0,
                };
                best = match best {
                    Some(other) => if wait < other {
                        Some(wait)
                    } else {
                        Some(other)
                    },
                    None => Some(wait),
                };
            }
            i = i + 1;
        }
        match best {
            Some(wait) => Some(Duration::from_millis(wait)),
            None => None,
        }
    }
}

/// A server only starts when its key is not in use and has rested for the whole interval since the
/// last handshake with it.
pub proof fn started_key_has_rested(scheduler: SchedulerModel, now: u64)
    requires
        scheduler.first_ready(0, now) < scheduler.pending.len(),
    ensures
        ({
            let key = scheduler.pending[scheduler.first_ready(0, now)].public_key;
            &&& !scheduler.active.contains(key)
            &&& scheduler.last.dom().contains(key) ==> now >= scheduler.last[key]
                + MIN_GROUP_INTERVAL_MS
        }),
{
    lemma_first_ready(scheduler, 0, now);
}

/// A start uses a key that was free: each key is in use at most once, never more keys than may be,
/// and the server that starts waits no longer, so that it is tried once.
pub proof fn started_key_is_exclusive(scheduler: SchedulerModel, now: u64)
    requires
        scheduler.active.finite(),
        scheduler.active.len() < MAX_CONCURRENCY,
        scheduler.first_ready(0, now) < scheduler.pending.len(),
    ensures
        ({
            let i = scheduler.first_ready(0, now);
            let target = scheduler.pending[i];
            let active = scheduler.active.insert(target.public_key);
            &&& active.len() == scheduler.active.len() + 1
            &&& active.len() <= MAX_CONCURRENCY
            &&& scheduler.pending.to_multiset() == scheduler.pending.remove(
                i,
            ).to_multiset().insert(target)
        }),
{
    lemma_first_ready(scheduler, 0, now);
    let i = scheduler.first_ready(0, now);
    broadcast use vstd::seq_lib::group_to_multiset_ensures;

    assert(scheduler.pending.remove(i).to_multiset()
        == scheduler.pending.to_multiset().remove(scheduler.pending[i]));
    assert(scheduler.pending.to_multiset() =~= scheduler.pending.remove(i).to_multiset().insert(
        scheduler.pending[i],
    ));
}

/// The first waiting server that is ready, and none before it is.
pub proof fn lemma_first_ready(scheduler: SchedulerModel, i: int, now: u64)
    requires
        0 <= i <= scheduler.pending.len(),
    ensures
        i <= scheduler.first_ready(i, now) <= scheduler.pending.len(),
        scheduler.first_ready(i, now) < scheduler.pending.len() ==> scheduler.key_ready(
            scheduler.pending[scheduler.first_ready(i, now)].public_key,
            now,
        ),
        forall|k: int|
            i <= k < scheduler.first_ready(i, now) ==> !scheduler.key_ready(
                (#[trigger] scheduler.pending[k]).public_key,
                now,
            ),
    decreases scheduler.pending.len() - i,
{
    if i < scheduler.pending.len() && !scheduler.key_ready(scheduler.pending[i].public_key, now) {
        lemma_first_ready(scheduler, i + 1, now);
    }
}

/// Whoever waits as long as the scheduler says, with nothing else happening, finds a server that
/// may start.
pub proof fn waiting_makes_ready(scheduler: SchedulerModel, now: u64)
    requires
        scheduler.shortest_wait(scheduler.pending.len() as int, now) is Some,
        now + scheduler.shortest_wait(scheduler.pending.len() as int, now).unwrap() <= u64::MAX,
        forall|key: Seq<char>| #[trigger] scheduler.last.dom().contains(key) ==> scheduler.last[key]
            <= now,
    ensures
        scheduler.first_ready(
            0,
            (now + scheduler.shortest_wait(scheduler.pending.len() as int, now).unwrap()) as u64,
        ) < scheduler.pending.len(),
{
    let n = scheduler.pending.len() as int;
    let wait = scheduler.shortest_wait(n, now).unwrap();
    let later = (now + wait) as u64;
    let k = lemma_shortest_wait(scheduler, n, now);
    lemma_first_ready(scheduler, 0, later);
    assert(scheduler.key_ready(scheduler.pending[k].public_key, later));
}

/// A waiting server with the shortest wait.
pub proof fn lemma_shortest_wait(scheduler: SchedulerModel, n: int, now: u64) -> (k: int)
    requires
        0 <= n <= scheduler.pending.len(),
        scheduler.shortest_wait(n, now) is Some,
    ensures
        0 <= k < n,
        !scheduler.active.contains(scheduler.pending[k].public_key),
        scheduler.wait_for(scheduler.pending[k].public_key, now) == scheduler.shortest_wait(
            n,
            now,
        ).unwrap(),
        scheduler.shortest_wait(n, now).unwrap() >= 0,
    decreases n,
{
    let key = scheduler.pending[n - 1].public_key;
    if !scheduler.active.contains(key) && scheduler.wait_for(key, now) == scheduler.shortest_wait(
        n,
        now,
    ).unwrap() {
        n - 1
    } else {
        lemma_shortest_wait(scheduler, n - 1, now)
    }
}

/// The candidates in probing order.
pub open spec fn probing_order(list: Seq<TargetModel>) -> Seq<TargetModel> {
    first_of_prefix(sorted_list(list, candidate_keys(list))) + rest_of_prefix(
        sorted_list(list, candidate_keys(list)),
    )
}

/// The first candidates in probing order, at most so many.
pub open spec fn planned(list: Seq<TargetModel>, maximum: int) -> Seq<TargetModel> {
    if maximum < probing_order(list).len() {
        probing_order(list).take(maximum)
    } else {
        probing_order(list)
    }
}

/// A list in probing order is the list in probing order.
pub proof fn lemma_probing_order(list: Seq<TargetModel>, ordered: Seq<TargetModel>)
    requires
        is_probing_order(list, ordered),
    ensures
        ordered == probing_order(list),
{
    let sorted = choose|sorted: Seq<TargetModel>| #[trigger]
        sorted_by(list, candidate_keys(list), sorted) && ordered == first_of_prefix(sorted)
            + rest_of_prefix(sorted);
    lemma_sorted_list(list, candidate_keys(list), sorted);
}

} // verus!
