//! What the text of a configuration says.
use crate::config::{
    apply_line, apply_lines, apply_pair, cidr_items, empty_draft, ip_items, line_content,
    parse_config_spec, ConfigErrorModel, Draft, Ipv4Cidr, Section,
};
use crate::keys::key_spec;
use crate::net::{IpAddr, IpModel, Ipv4Addr};
use crate::pieces::{bare, blank, texts_come_apart_at_first_separator, trimming_drops_white_space_around};
use crate::text::{
    is_whitespace_spec, lemma_first_index, lemma_first_index_unique, lines_spec, split_list_spec,
    split_once_spec, trim_spec,
};
use vstd::prelude::*;
use vstd::string::*;

verus! {

/// Whether a text is nothing, or a comment.
pub open spec fn comment(s: Seq<char>) -> bool {
    s.len() == 0 || s[0] == '#'
}

/// The name that a line has between brackets, where it is a header.
pub open spec fn header_of(raw: Seq<char>) -> Option<Seq<char>> {
    let line = line_content(raw);
    if line.len() > 0 && line[0] == '[' && line.last() == ']' {
        Some(line.subrange(1, line.len() - 1))
    } else {
        None
    }
}

/// The name and the value of a line, where it is a setting.
pub open spec fn setting_of(raw: Seq<char>) -> Option<(Seq<char>, Seq<char>)> {
    match split_once_spec(line_content(raw), '=') {
        Some((name, value)) if header_of(raw) is None => Some((trim_spec(name), trim_spec(value))),
        _ => None,
    }
}

proof fn lemma_body(body: Seq<char>, note: Seq<char>)
    requires
        !body.contains('#'),
        comment(note),
    ensures
        line_content(body + note) == trim_spec(body),
{
    let raw = body + note;
    assert forall|k: int| 0 <= k < body.len() implies raw[k] != '#' by {
        assert(body.contains(body[k]));
    }
    lemma_first_index_unique(raw, '#', body.len() as int);
    assert(raw.take(body.len() as int) =~= body);
}

proof fn lemma_no_sign(s: Seq<char>, sign: char)
    requires
        blank(s),
        !is_whitespace_spec(sign),
    ensures
        !s.contains(sign),
{
}

/// White space and comments say nothing: an empty line changes nothing, and any other line says what
/// it says between the white space and before the comment.
pub proof fn comments_say_nothing(
    draft: Draft,
    indent: Seq<char>,
    said: Seq<char>,
    end: Seq<char>,
    note: Seq<char>,
    number: int,
)
    requires
        blank(indent),
        blank(end),
        bare(said),
        !said.contains('#'),
        comment(note),
    ensures
        apply_line(draft, indent + said + end + note, number) == apply_line(draft, said, number),
        said.len() == 0 ==> apply_line(draft, said, number) == Ok::<Draft, ConfigErrorModel>(draft),
{
    let body = indent + said + end;
    lemma_no_sign(indent, '#');
    lemma_no_sign(end, '#');
    assert forall|k: int| 0 <= k < body.len() implies body[k] != '#' by {
        if k < indent.len() {
            assert(indent.contains(indent[k]));
        } else if k < indent.len() + said.len() {
            assert(said.contains(said[k - indent.len()]));
        } else {
            assert(end.contains(end[k - indent.len() - said.len()]));
        }
    }
    lemma_body(body, note);
    trimming_drops_white_space_around(indent, said, end);
    let nothing = Seq::<char>::empty();
    lemma_body(said, nothing);
    assert(said + nothing =~= said);
    trimming_drops_white_space_around(nothing, said, nothing);
    assert(nothing + said + nothing =~= said);
}

/// A line with a name in brackets starts the section of that name, and says nothing else.
pub proof fn header_line_starts_section(draft: Draft, name: Seq<char>, number: int)
    requires
        !name.contains('#'),
    ensures
        ({
            let raw = seq!['['] + name + seq![']'];
            &&& header_of(raw) == Some(name)
            &&& apply_line(draft, raw, number) matches Ok(next) && {
                &&& next == (Draft { section: next.section, peers: next.peers, ..draft })
                &&& next.section == Section::Interface <==> name == "Interface"@
                &&& next.section == Section::Peer <==> name == "Peer"@
                &&& next.section != Section::Outside
                &&& next.peers == draft.peers + (if name == "Peer"@ {
                    1int
                } else {
                    0
                })
            }
        }),
{
    let raw = seq!['['] + name + seq![']'];
    let nothing = Seq::<char>::empty();
    assert forall|k: int| 0 <= k < raw.len() implies raw[k] != '#' by {
        if 0 < k < raw.len() - 1 {
            assert(name.contains(name[k - 1]));
        }
    }
    lemma_body(raw, nothing);
    assert(raw + nothing =~= raw);
    trimming_drops_white_space_around(nothing, raw, nothing);
    assert(nothing + raw + nothing =~= raw);
    assert(raw.subrange(1, raw.len() - 1) =~= name);
    reveal_strlit("Interface");
    reveal_strlit("Peer");
    assert("Interface"@.len() != "Peer"@.len());
}

/// A line with a name, an equals sign and a value is a setting, whatever white space stands round the
/// sign; the value may hold further signs.
pub proof fn setting_line_sets(
    draft: Draft,
    name: Seq<char>,
    gap: Seq<char>,
    space: Seq<char>,
    value: Seq<char>,
    number: int,
)
    requires
        bare(name),
        bare(value),
        blank(gap),
        blank(space),
        name.len() > 0 && value.len() > 0,
        !name.contains('='),
        !name.contains('#'),
        !value.contains('#'),
        name[0] != '[' || value.last() != ']',
    ensures
        setting_of(name + gap + seq!['='] + space + value) == Some((name, value)),
        apply_line(draft, name + gap + seq!['='] + space + value, number) == apply_pair(
            draft,
            name,
            value,
        ),
{
    let front = name + gap;
    let back = space + value;
    let raw = name + gap + seq!['='] + space + value;
    let nothing = Seq::<char>::empty();
    assert(raw =~= front + seq!['='] + back);
    lemma_no_sign(gap, '#');
    lemma_no_sign(gap, '=');
    lemma_no_sign(space, '#');
    assert forall|k: int| 0 <= k < front.len() implies front[k] != '#' && front[k] != '=' by {
        if k < name.len() {
            assert(name.contains(name[k]));
        } else {
            assert(gap.contains(gap[k - name.len()]));
        }
    }
    assert forall|k: int| 0 <= k < back.len() implies back[k] != '#' by {
        if k < space.len() {
            assert(space.contains(space[k]));
        } else {
            assert(value.contains(value[k - space.len()]));
        }
    }
    assert forall|k: int| 0 <= k < raw.len() implies raw[k] != '#' by {
        if k < front.len() {
            assert(raw[k] == front[k]);
        } else if k > front.len() {
            assert(raw[k] == back[k - front.len() - 1]);
        }
    }
    lemma_body(raw, nothing);
    assert(raw + nothing =~= raw);
    assert(raw[0] == name[0] && raw.last() == value.last());
    trimming_drops_white_space_around(nothing, raw, nothing);
    assert(nothing + raw + nothing =~= raw);
    assert(!front.contains('='));
    texts_come_apart_at_first_separator(front, '=', back);
    trimming_drops_white_space_around(nothing, name, gap);
    assert(nothing + name + gap =~= front);
    trimming_drops_white_space_around(space, value, nothing);
    assert(space + value + nothing =~= back);
}

/// The name of the section that a line belongs to: that of the last header before it.
pub open spec fn section_at(lines: Seq<Seq<char>>, n: int) -> Option<Seq<char>>
    decreases n,
{
    if n <= 0 {
        None
    } else {
        match header_of(lines[n - 1]) {
            Some(name) => Some(name),
            None => section_at(lines, n - 1),
        }
    }
}

/// Whether line `i` sets a name of a section.
pub open spec fn sets(lines: Seq<Seq<char>>, i: int, section: Seq<char>, name: Seq<char>) -> bool {
    section_at(lines, i) == Some(section) && setting_of(lines[i]) is Some && setting_of(
        lines[i],
    ).unwrap().0 == name
}

/// The values that the first `n` lines give a name of a section, in order.
pub open spec fn values(lines: Seq<Seq<char>>, n: int, section: Seq<char>, name: Seq<char>) -> Seq<
    Seq<char>,
>
    decreases n,
{
    if n <= 0 {
        Seq::empty()
    } else if sets(lines, n - 1, section, name) {
        values(lines, n - 1, section, name).push(setting_of(lines[n - 1]).unwrap().1)
    } else {
        values(lines, n - 1, section, name)
    }
}

/// How many of the first `n` lines are headers of that name.
pub open spec fn headers(lines: Seq<Seq<char>>, n: int, name: Seq<char>) -> int
    decreases n,
{
    if n <= 0 {
        0
    } else {
        headers(lines, n - 1, name) + (if header_of(lines[n - 1]) == Some(name) {
            1int
        } else {
            0
        })
    }
}

/// The items of all the lists, in order.
pub open spec fn all_items(lists: Seq<Seq<char>>) -> Seq<Seq<char>>
    decreases lists.len(),
{
    if lists.len() == 0 {
        Seq::empty()
    } else {
        all_items(lists.drop_last()) + split_list_spec(lists.last())
    }
}

/// Whether an item is not one of IPv6.
pub open spec fn has_no_colon(item: Seq<char>) -> bool {
    !item.contains(':')
}

/// The IPv4 networks that the items denote: those without a colon.
pub open spec fn networks(items: Seq<Seq<char>>) -> Seq<(Ipv4Addr, int)> {
    items.filter(|item: Seq<char>| has_no_colon(item)).map_values(
        |item: Seq<char>| Ipv4Cidr::parse_spec(item).unwrap(),
    )
}

/// The addresses that the items denote: those that are addresses.
pub open spec fn addresses(items: Seq<Seq<char>>) -> Seq<IpModel> {
    items.filter(|item: Seq<char>| IpAddr::parse_spec(item) is Some).map_values(
        |item: Seq<char>| IpAddr::parse_spec(item).unwrap(),
    )
}

/// Whether every item without a colon denotes a network.
pub open spec fn denote_networks(items: Seq<Seq<char>>) -> bool {
    forall|i: int|
        0 <= i < items.len() && has_no_colon(#[trigger] items[i]) ==> Ipv4Cidr::parse_spec(
            items[i],
        ) is Some
}

proof fn lemma_networks_join(a: Seq<Seq<char>>, b: Seq<Seq<char>>)
    ensures
        networks(a + b) == networks(a) + networks(b),
{
    let keep = |item: Seq<char>| has_no_colon(item);
    Seq::filter_distributes_over_add(a, b, keep);
    assert(networks(a + b) =~= networks(a) + networks(b));
}

proof fn lemma_addresses_join(a: Seq<Seq<char>>, b: Seq<Seq<char>>)
    ensures
        addresses(a + b) == addresses(a) + addresses(b),
{
    let keep = |item: Seq<char>| IpAddr::parse_spec(item) is Some;
    Seq::filter_distributes_over_add(a, b, keep);
    assert(addresses(a + b) =~= addresses(a) + addresses(b));
}

/// A list is read where every item without a colon denotes a network, and then gives those networks
/// in order; otherwise it is refused for the first item that does not.
pub proof fn listed_networks_are_read(items: Seq<Seq<char>>)
    ensures
        cidr_items(items) is Ok <==> denote_networks(items),
        cidr_items(items) matches Ok(list) ==> list == networks(items),
        cidr_items(items) matches Err(item) ==> exists|i: int|
            0 <= i < items.len() && #[trigger] items[i] == item && has_no_colon(item)
                && Ipv4Cidr::parse_spec(item) is None && denote_networks(items.take(i)),
    decreases items.len(),
{
    let keep = |item: Seq<char>| has_no_colon(item);
    reveal_with_fuel(Seq::filter, 2);
    if items.len() == 0 {
        assert(networks(items) =~= Seq::empty());
    } else {
        let first = items[0];
        let head = seq![first];
        let rest = items.drop_first();
        listed_networks_are_read(rest);
        assert(items =~= head + rest);
        lemma_networks_join(head, rest);
        assert(head.drop_last() =~= Seq::empty());
        if has_no_colon(first) {
            assert(head.filter(keep) =~= head);
            assert(networks(head) =~= seq![Ipv4Cidr::parse_spec(first).unwrap()]);
        } else {
            assert(head.filter(keep) =~= Seq::empty());
            assert(networks(head) =~= Seq::empty());
            assert(networks(items) =~= networks(rest));
        }
        if denote_networks(items) {
            assert forall|i: int| 0 <= i < rest.len() && has_no_colon(
                #[trigger] rest[i],
            ) implies Ipv4Cidr::parse_spec(rest[i]) is Some by {
                assert(rest[i] == items[i + 1]);
            }
        }
        if denote_networks(rest) && (has_no_colon(first) ==> Ipv4Cidr::parse_spec(first) is Some) {
            assert forall|i: int| 0 <= i < items.len() && has_no_colon(
                #[trigger] items[i],
            ) implies Ipv4Cidr::parse_spec(items[i]) is Some by {
                if i > 0 {
                    assert(items[i] == rest[i - 1]);
                }
            }
        }
        if let Err(item) = cidr_items(items) {
            if has_no_colon(first) && Ipv4Cidr::parse_spec(first) is None {
                assert(items[0] == item);
                assert(denote_networks(items.take(0)));
            } else {
                let i = choose|i: int|
                    0 <= i < rest.len() && #[trigger] rest[i] == item && has_no_colon(item)
                        && Ipv4Cidr::parse_spec(item) is None && denote_networks(rest.take(i));
                assert(items[i + 1] == item);
                let before = items.take(i + 1);
                assert forall|k: int| 0 <= k < before.len() && has_no_colon(
                    #[trigger] before[k],
                ) implies Ipv4Cidr::parse_spec(before[k]) is Some by {
                    if k > 0 {
                        assert(before[k] == rest.take(i)[k - 1]);
                    }
                }
            }
        }
    }
}

/// The items that denote addresses are read in order, and the others are passed over.
pub proof fn listed_addresses_are_read(items: Seq<Seq<char>>)
    ensures
        ip_items(items) == addresses(items),
    decreases items.len(),
{
    let keep = |item: Seq<char>| IpAddr::parse_spec(item) is Some;
    reveal_with_fuel(Seq::filter, 2);
    if items.len() == 0 {
        assert(addresses(items) =~= Seq::empty());
    } else {
        let first = items[0];
        let head = seq![first];
        let rest = items.drop_first();
        listed_addresses_are_read(rest);
        assert(items =~= head + rest);
        lemma_addresses_join(head, rest);
        assert(head.drop_last() =~= Seq::empty());
        if IpAddr::parse_spec(first) is Some {
            assert(head.filter(keep) =~= head);
            assert(addresses(head) =~= seq![IpAddr::parse_spec(first).unwrap()]);
        } else {
            assert(head.filter(keep) =~= Seq::empty());
            assert(addresses(head) =~= Seq::empty());
            assert(addresses(items) =~= addresses(rest));
        }
    }
}

/// Whether a line can be read: it is empty, a header or a setting, and a setting of a key or of
/// networks has a value of that form.
pub open spec fn readable(lines: Seq<Seq<char>>, i: int) -> bool {
    &&& line_content(lines[i]).len() == 0 || header_of(lines[i]) is Some || setting_of(
        lines[i],
    ) is Some
    &&& setting_of(lines[i]) matches Some((name, value)) ==> {
        &&& sets(lines, i, "Interface"@, "PrivateKey"@) ==> key_spec(value) is Some
        &&& sets(lines, i, "Peer"@, "PublicKey"@) ==> key_spec(value) is Some
        &&& sets(lines, i, "Peer"@, "PresharedKey"@) ==> key_spec(value) is Some
        &&& sets(lines, i, "Interface"@, "Address"@) ==> denote_networks(split_list_spec(value))
        &&& sets(lines, i, "Peer"@, "AllowedIPs"@) ==> denote_networks(split_list_spec(value))
    }
}

/// The last of a list, where there is one.
pub open spec fn last_of(list: Seq<Seq<char>>) -> Option<Seq<char>> {
    if list.len() > 0 {
        Some(list.last())
    } else {
        None
    }
}

/// The key that the last of a list denotes, where there is one.
pub open spec fn last_key(list: Seq<Seq<char>>) -> Option<Seq<u8>> {
    if list.len() > 0 {
        key_spec(list.last())
    } else {
        None
    }
}

/// The first of a list of networks, where there is one.
pub open spec fn first_of(list: Seq<(Ipv4Addr, int)>) -> Option<(Ipv4Addr, int)> {
    if list.len() > 0 {
        Some(list[0])
    } else {
        None
    }
}

/// Whether a draft holds what the first `n` lines say.
pub open spec fn holds_lines(draft: Draft, lines: Seq<Seq<char>>, n: int) -> bool {
    &&& draft.section == Section::Outside <==> section_at(lines, n) is None
    &&& draft.section == Section::Interface <==> section_at(lines, n) == Some("Interface"@)
    &&& draft.section == Section::Peer <==> section_at(lines, n) == Some("Peer"@)
    &&& draft.peers == headers(lines, n, "Peer"@)
    &&& draft.private_key == last_key(values(lines, n, "Interface"@, "PrivateKey"@))
    &&& draft.peer_public_key == last_key(values(lines, n, "Peer"@, "PublicKey"@))
    &&& draft.preshared_key == last_key(values(lines, n, "Peer"@, "PresharedKey"@))
    &&& draft.endpoint == last_of(values(lines, n, "Peer"@, "Endpoint"@))
    &&& draft.address == first_of(networks(all_items(values(lines, n, "Interface"@, "Address"@))))
    &&& draft.dns_servers == addresses(all_items(values(lines, n, "Interface"@, "DNS"@)))
    &&& draft.allowed_ips == networks(all_items(values(lines, n, "Peer"@, "AllowedIPs"@)))
}

proof fn lemma_names()
    ensures
        "PrivateKey"@.len() == 10,
        "Address"@.len() == 7,
        "DNS"@.len() == 3,
        "PublicKey"@.len() == 9,
        "PresharedKey"@.len() == 12,
        "Endpoint"@.len() == 8,
        "AllowedIPs"@.len() == 10,
        "AllowedIPs"@[0] != "PrivateKey"@[0],
        "Interface"@.len() == 9,
        "Peer"@.len() == 4,
{
    reveal_strlit("PrivateKey");
    reveal_strlit("Address");
    reveal_strlit("DNS");
    reveal_strlit("PublicKey");
    reveal_strlit("PresharedKey");
    reveal_strlit("Endpoint");
    reveal_strlit("AllowedIPs");
    reveal_strlit("Interface");
    reveal_strlit("Peer");
}

/// One more list adds its items behind the others.
proof fn lemma_more_items(lists: Seq<Seq<char>>, value: Seq<char>)
    ensures
        networks(all_items(lists.push(value))) == networks(all_items(lists)) + networks(
            split_list_spec(value),
        ),
        addresses(all_items(lists.push(value))) == addresses(all_items(lists)) + addresses(
            split_list_spec(value),
        ),
{
    assert(lists.push(value).drop_last() =~= lists);
    lemma_networks_join(all_items(lists), split_list_spec(value));
    lemma_addresses_join(all_items(lists), split_list_spec(value));
}

proof fn lemma_setting_step(draft: Draft, lines: Seq<Seq<char>>, n: int)
    requires
        0 <= n < lines.len(),
        holds_lines(draft, lines, n),
        setting_of(lines[n]) is Some,
    ensures
        apply_line(draft, lines[n], n + 1) is Ok <==> readable(lines, n),
        apply_line(draft, lines[n], n + 1) matches Ok(next) ==> holds_lines(next, lines, n + 1),
{
    let (name, value) = setting_of(lines[n]).unwrap();
    lemma_names();
    listed_networks_are_read(split_list_spec(value));
    listed_addresses_are_read(split_list_spec(value));
    lemma_more_items(values(lines, n, "Interface"@, "Address"@), value);
    lemma_more_items(values(lines, n, "Interface"@, "DNS"@), value);
    lemma_more_items(values(lines, n, "Peer"@, "AllowedIPs"@), value);
    assert(section_at(lines, n + 1) == section_at(lines, n));
    assert(apply_line(draft, lines[n], n + 1) == apply_pair(draft, name, value));
    if let Ok(next) = apply_line(draft, lines[n], n + 1) {
        assert(next.section == draft.section && next.peers == draft.peers);
    }
}

proof fn lemma_other_step(draft: Draft, lines: Seq<Seq<char>>, n: int)
    requires
        0 <= n < lines.len(),
        holds_lines(draft, lines, n),
        setting_of(lines[n]) is None,
    ensures
        apply_line(draft, lines[n], n + 1) is Ok <==> readable(lines, n),
        apply_line(draft, lines[n], n + 1) matches Ok(next) ==> holds_lines(next, lines, n + 1),
        apply_line(draft, lines[n], n + 1) matches Err(e) ==> e == (ConfigErrorModel::InvalidLine {
            line: n + 1,
        }),
{
    lemma_names();
    let line = line_content(lines[n]);
    if line.len() == 0 {
        lemma_first_index(line, '=');
    }
}

/// Whether the first `n` lines can all be read.
pub open spec fn all_readable(lines: Seq<Seq<char>>, n: int) -> bool {
    forall|i: int| 0 <= i < n ==> #[trigger] readable(lines, i)
}

proof fn lemma_lines_hold(draft: Draft, lines: Seq<Seq<char>>, n: int)
    requires
        0 <= n <= lines.len(),
        holds_lines(draft, lines, n),
        all_readable(lines, n),
    ensures
        apply_lines(draft, lines, n) is Ok <==> all_readable(lines, lines.len() as int),
        apply_lines(draft, lines, n) matches Ok(last) ==> holds_lines(
            last,
            lines,
            lines.len() as int,
        ),
    decreases lines.len() - n,
{
    if n < lines.len() {
        if setting_of(lines[n]) is Some {
            lemma_setting_step(draft, lines, n);
        } else {
            lemma_other_step(draft, lines, n);
        }
        match apply_line(draft, lines[n], n + 1) {
            Ok(next) => {
                assert(all_readable(lines, n + 1));
                lemma_lines_hold(next, lines, n + 1);
            },
            Err(_) => {
                assert(!readable(lines, n));
            },
        }
    }
}

/// A configuration is what its lines say. The networks of the peer are those that the items of all its
/// `AllowedIPs` lines denote, in order; the servers for names are the addresses among the items of all
/// `DNS` lines of the interface, in order; its address is the first network of all its `Address` lines;
/// of keys and endpoint the last line counts. A text is accepted exactly where every line can be read,
/// there is one peer, and both keys and the endpoint are given.
pub proof fn configuration_is_what_its_lines_say(input: Seq<char>)
    ensures
        ({
            let lines = lines_spec(input);
            let n = lines.len() as int;
            &&& parse_config_spec(input) is Ok <==> {
                &&& all_readable(lines, n)
                &&& headers(lines, n, "Peer"@) <= 1
                &&& values(lines, n, "Interface"@, "PrivateKey"@).len() > 0
                &&& values(lines, n, "Peer"@, "PublicKey"@).len() > 0
                &&& values(lines, n, "Peer"@, "Endpoint"@).len() > 0
            }
            &&& parse_config_spec(input) matches Ok(config) ==> {
                &&& config.allowed_ips == networks(
                    all_items(values(lines, n, "Peer"@, "AllowedIPs"@)),
                )
                &&& config.dns_servers == addresses(
                    all_items(values(lines, n, "Interface"@, "DNS"@)),
                )
                &&& config.address == first_of(
                    networks(all_items(values(lines, n, "Interface"@, "Address"@))),
                )
                &&& Some(config.endpoint) == last_of(values(lines, n, "Peer"@, "Endpoint"@))
                &&& Some(config.private_key) == last_key(
                    values(lines, n, "Interface"@, "PrivateKey"@),
                )
                &&& Some(config.peer_public_key) == last_key(values(lines, n, "Peer"@, "PublicKey"@))
                &&& config.preshared_key == last_key(values(lines, n, "Peer"@, "PresharedKey"@))
            }
        }),
{
    let lines = lines_spec(input);
    let n = lines.len() as int;
    let none = Seq::<Seq<char>>::empty();
    assert(networks(none) =~= Seq::empty()) by {
        reveal(Seq::filter);
    }
    assert(addresses(none) =~= Seq::empty()) by {
        reveal(Seq::filter);
    }
    assert(holds_lines(empty_draft(), lines, 0));
    lemma_lines_hold(empty_draft(), lines, 0);
    if all_readable(lines, n) {
        lemma_last_key(lines, n, "Interface"@, "PrivateKey"@);
        lemma_last_key(lines, n, "Peer"@, "PublicKey"@);
    }
}

/// The values of a key that can be read denote one.
proof fn lemma_last_key(lines: Seq<Seq<char>>, n: int, section: Seq<char>, name: Seq<char>)
    requires
        0 <= n <= lines.len(),
        all_readable(lines, n),
        (section == "Interface"@ && name == "PrivateKey"@) || (section == "Peer"@ && name
            == "PublicKey"@),
    ensures
        values(lines, n, section, name).len() > 0 <==> last_key(
            values(lines, n, section, name),
        ) is Some,
    decreases n,
{
    if n > 0 {
        assert(readable(lines, n - 1));
        lemma_last_key(lines, n - 1, section, name);
    }
}

/// One more line with networks for the peer adds exactly its networks behind the others, and changes
/// nothing else.
pub proof fn more_networks_are_added(draft: Draft, value: Seq<char>)
    requires
        draft.section == Section::Peer,
    ensures
        ({
            let items = split_list_spec(value);
            match apply_pair(draft, "AllowedIPs"@, value) {
                Ok(next) => denote_networks(items) && next == (Draft {
                    allowed_ips: draft.allowed_ips + networks(items),
                    ..draft
                }),
                Err(_) => !denote_networks(items),
            }
        }),
{
    lemma_names();
    listed_networks_are_read(split_list_spec(value));
}

} // verus!
