//! Which plans of a probe are accepted, and which names can be asked for.
use crate::checks::serves_names;
use crate::matching::{lemma_bytes_join, utf8_size};
use crate::net::Ipv4Addr;
use crate::packet::{encode_labels, encode_name_spec, name_labels};
use crate::pieces::pieces_join_at_separators;
use crate::probe::{in_network, PlanModel};
use crate::text::{byte_length_is_utf8_length, trim_end_char_spec};
use vstd::arithmetic::div_mod::{
    lemma_fundamental_div_mod, lemma_fundamental_div_mod_converse,
    lemma_mod_bound,
};
use vstd::arithmetic::power2::{lemma_pow2_pos, pow2};
use vstd::prelude::*;
use vstd::string::*;
use vstd::utf8::{encode_utf8, is_ascii_chars_encode_utf8};

verus! {

/// An address as a number: its octets, the first the most significant.
pub open spec fn value_of(address: Ipv4Addr) -> int {
    ((address.a * 256 + address.b) * 256 + address.c) * 256 + address.d
}

/// Whether two addresses lie in the same of the blocks of a size into which all addresses come apart.
pub open spec fn share_block(a: Ipv4Addr, b: Ipv4Addr, size: int) -> bool {
    exists|start: int|
        start % size == 0 && start <= value_of(a) < start + size && start <= value_of(b) < #[trigger] (
        start + size)
}

/// A network with so many fixed bits is the block of addresses, as large as the other bits allow, in
/// which its own address lies.
pub proof fn network_is_a_block(network: (Ipv4Addr, int), address: Ipv4Addr)
    requires
        0 <= network.1 <= 32,
    ensures
        in_network(network, address) <==> share_block(
            network.0,
            address,
            pow2((32 - network.1) as nat) as int,
        ),
{
    let size = pow2((32 - network.1) as nat) as int;
    lemma_pow2_pos((32 - network.1) as nat);
    let x = value_of(network.0);
    let y = value_of(address);
    assert(x == network.0.number() && y == address.number());
    lemma_fundamental_div_mod(x, size);
    lemma_fundamental_div_mod(y, size);
    lemma_mod_bound(x, size);
    lemma_mod_bound(y, size);
    if in_network(network, address) {
        let start = size * (x / size);
        lemma_fundamental_div_mod_converse(start, size, x / size, 0);
        assert(y < start + size);
        assert(share_block(network.0, address, size));
    }
    if share_block(network.0, address, size) {
        let start = choose|start: int|
            start % size == 0 && start <= x < start + size && start <= y < #[trigger] (start + size);
        lemma_fundamental_div_mod(start, size);
        lemma_fundamental_div_mod_converse(x, size, start / size, x - start);
        lemma_fundamental_div_mod_converse(y, size, start / size, y - start);
    }
}

/// Whether the peer may route to an address.
pub open spec fn routed(plan: PlanModel, address: Ipv4Addr) -> bool {
    exists|i: int|
        0 <= i < plan.config.allowed_ips.len() && share_block(
            (#[trigger] plan.config.allowed_ips[i]).0,
            address,
            pow2((32 - plan.config.allowed_ips[i].1) as nat) as int,
        )
}

/// Whether the networks of a plan have between no and all bits fixed.
pub open spec fn has_networks(plan: PlanModel) -> bool {
    forall|i: int|
        0 <= i < plan.config.allowed_ips.len() ==> 0 <= (
        #[trigger] plan.config.allowed_ips[i]).1 <= 32
}

proof fn lemma_routed(plan: PlanModel, address: Ipv4Addr)
    requires
        has_networks(plan),
    ensures
        routed(plan, address) == crate::probe::allowed(plan.config.allowed_ips, address),
{
    let networks = plan.config.allowed_ips;
    if crate::probe::allowed(networks, address) {
        let i = choose|i: int| 0 <= i < networks.len() && in_network(#[trigger] networks[i], address);
        network_is_a_block(networks[i], address);
    }
    if routed(plan, address) {
        let i = choose|i: int|
            0 <= i < networks.len() && share_block(
                (#[trigger] networks[i]).0,
                address,
                pow2((32 - networks[i].1) as nat) as int,
            );
        network_is_a_block(networks[i], address);
        assert(in_network(networks[i], address));
    }
}

proof fn lemma_pings(plan: PlanModel, i: int)
    requires
        0 <= i <= plan.pings.len(),
    ensures
        plan.refused_ping(i) is None <==> forall|k: int|
            i <= k < plan.pings.len() ==> crate::probe::allowed(
                plan.config.allowed_ips,
                #[trigger] plan.pings[k],
            ),
    decreases plan.pings.len() - i,
{
    if i < plan.pings.len() {
        lemma_pings(plan, i + 1);
    }
}

proof fn lemma_names(plan: PlanModel, i: int)
    requires
        0 <= i <= plan.resolves.len(),
    ensures
        plan.refused_name(i) is None <==> forall|k: int|
            i <= k < plan.resolves.len() ==> (encode_name_spec(
                #[trigger] plan.resolves[k],
            ).0 is None),
    decreases plan.resolves.len() - i,
{
    if i < plan.resolves.len() {
        lemma_names(plan, i + 1);
    }
}

/// A plan is accepted exactly where all its times are positive and, if it has data checks, the client
/// has an address, the peer may route to every target of a ping and, if names are to be resolved, there
/// is a server for them to which the peer may route, and every name can be asked for.
pub proof fn sound_plans_are_accepted(plan: PlanModel)
    requires
        plan.handshake_timeout >= 0,
        plan.ping_timeout >= 0,
        plan.dns_timeout >= 0,
        plan.overall_timeout >= 0,
        has_networks(plan),
    ensures
        plan.refusal() is None <==> {
            &&& plan.handshake_timeout > 0 && plan.ping_timeout > 0
            &&& plan.dns_timeout > 0 && plan.overall_timeout > 0
            &&& plan.pings.len() > 0 || plan.resolves.len() > 0 ==> plan.config.address is Some
            &&& forall|i: int| 0 <= i < plan.pings.len() ==> routed(plan, #[trigger] plan.pings[i])
            &&& plan.resolves.len() > 0 ==> exists|server: Ipv4Addr|
                #[trigger] serves_names(plan, server) && routed(plan, server)
            &&& forall|i: int|
                0 <= i < plan.resolves.len() ==> (encode_name_spec(
                    #[trigger] plan.resolves[i],
                ).0 is None)
        },
{
    lemma_pings(plan, 0);
    lemma_names(plan, 0);
    assert forall|i: int| 0 <= i < plan.pings.len() implies routed(plan, #[trigger] plan.pings[i])
        == crate::probe::allowed(plan.config.allowed_ips, plan.pings[i]) by {
        lemma_routed(plan, plan.pings[i]);
    }
    if let Some(server) = plan.effective_dns_server() {
        lemma_routed(plan, server);
        assert(serves_names(plan, server));
    }
    if exists|server: Ipv4Addr| #[trigger] serves_names(plan, server) && routed(plan, server) {
        let server = choose|server: Ipv4Addr| #[trigger]
            serves_names(plan, server) && routed(plan, server);
        assert(plan.effective_dns_server() == Some(server));
    }
    if plan.pings.len() > 0 && plan.config.allowed_ips.len() == 0 {
        assert(!routed(plan, plan.pings[0]));
    }
}

/// Whether a text can be a label of a name: one to 63 characters of ASCII.
pub open spec fn is_label(s: Seq<char>) -> bool {
    1 <= s.len() <= 63 && forall|i: int| 0 <= i < s.len() ==> (#[trigger] s[i] as u32) < 128
}

/// A label in wire format: its length, and then a byte for each character.
pub open spec fn label_bytes(label: Seq<char>) -> Seq<u8> {
    seq![label.len() as u8] + label.map_values(|c: char| c as u8)
}

proof fn lemma_code(c: char)
    ensures
        ('\0' <= c <= '\u{7f}') == ((c as u32) < 128),
{
}

proof fn lemma_label(label: Seq<char>)
    ensures
        is_label(label) == crate::packet::valid_label(label),
        is_label(label) ==> seq![label.len() as u8] + encode_utf8(label) == label_bytes(label),
{
    assert forall|i: int| 0 <= i < label.len() implies ('\0' <= #[trigger] label[i] <= '\u{7f}') == ((
    label[i] as u32) < 128) by {
        lemma_code(label[i]);
    }
    if is_label(label) {
        assert(vstd::utf8::is_ascii_chars(label));
        is_ascii_chars_encode_utf8(label);
        assert(seq![label.len() as u8] + encode_utf8(label) =~= label_bytes(label));
    }
    if crate::packet::valid_label(label) {
        assert forall|i: int| 0 <= i < label.len() implies (#[trigger] label[i] as u32) < 128 by {
            assert('\0' <= label[i] <= '\u{7f}');
        }
    }
}

proof fn lemma_untrimmed(front: Seq<char>, rest: Seq<char>)
    requires
        trim_end_char_spec(rest, '.').len() > 0,
    ensures
        trim_end_char_spec(front + rest, '.') == front + trim_end_char_spec(rest, '.'),
    decreases rest.len(),
{
    assert((front + rest).last() == rest.last());
    if rest.last() == '.' {
        assert((front + rest).drop_last() =~= front + rest.drop_last());
        lemma_untrimmed(front, rest.drop_last());
    }
}

/// A name of one label is written as the label and an end; dots at the end do not count.
pub proof fn label_is_written(label: Seq<char>)
    requires
        !label.contains('.'),
    ensures
        encode_name_spec(label).0 is None <==> is_label(label),
        is_label(label) ==> encode_name_spec(label).1 == label_bytes(label) + seq![0u8],
{
    lemma_label(label);
    if label.len() > 0 {
        assert(label.contains(label.last()));
    }
    assert(trim_end_char_spec(label, '.') == label);
    pieces_join_at_separators(label, '.', label);
    assert(seq![label].drop_first() =~= Seq::empty());
    assert(encode_labels(Seq::empty()) == (true, seq![0u8]));
    if is_label(label) {
        assert(vstd::utf8::is_ascii_chars(label)) by {
            assert(crate::packet::valid_label(label));
        }
        is_ascii_chars_encode_utf8(label);
        assert(encode_labels(seq![label]).1 =~= label_bytes(label) + seq![0u8]);
    }
}

/// A name is written label by label: a label, a dot and another name can be asked for exactly where
/// both parts can and the whole is not too long, and the label then stands before the rest.
pub proof fn names_are_written_label_by_label(label: Seq<char>, rest: Seq<char>)
    requires
        !label.contains('.'),
        trim_end_char_spec(rest, '.').len() > 0,
    ensures
        ({
            let whole = label + seq!['.'] + rest;
            let length = utf8_size(label) + 1 + utf8_size(trim_end_char_spec(rest, '.'));
            &&& encode_name_spec(whole).0 is None <==> is_label(label) && encode_name_spec(rest).0
                is None && length <= 253
            &&& encode_name_spec(whole).0 is None ==> encode_name_spec(whole).1 == label_bytes(label)
                + encode_name_spec(rest).1
        }),
{
    let whole = label + seq!['.'] + rest;
    let front = label + seq!['.'];
    let kept = trim_end_char_spec(rest, '.');
    lemma_label(label);
    lemma_untrimmed(front, rest);
    assert(front + kept =~= label + seq!['.'] + kept);
    pieces_join_at_separators(label, '.', kept);
    lemma_bytes_join(front, kept);
    lemma_bytes_join(label, seq!['.']);
    byte_length_is_utf8_length(front + kept);
    byte_length_is_utf8_length(kept);
    byte_length_is_utf8_length(label);
    assert(crate::text::byte_length(seq!['.']) == 1) by {
        reveal_with_fuel(crate::text::byte_length, 2);
    }
    lemma_some_bytes(kept);
    let labels = name_labels(whole);
    assert(labels =~= seq![label] + name_labels(rest));
    assert(labels.drop_first() =~= name_labels(rest));
    assert(labels[0] == label);
    if is_label(label) {
        assert(encode_labels(labels).1 == label_bytes(label) + encode_labels(name_labels(rest)).1);
    }
}

proof fn lemma_some_bytes(s: Seq<char>)
    requires
        s.len() > 0,
    ensures
        encode_utf8(s).len() >= 1,
{
    byte_length_is_utf8_length(s);
    byte_length_is_utf8_length(s.drop_last());
}

/// A dot at the end of a name does not count.
pub proof fn last_dot_does_not_count(name: Seq<char>)
    ensures
        encode_name_spec(name.push('.')) == encode_name_spec(name),
{
    assert(name.push('.').drop_last() =~= name);
}

} // verus!
