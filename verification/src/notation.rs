//! How addresses are written and read.
use crate::net::{
    double_colon, group_list_spec, groups_spec, groups_text, hex_char, hex_group, hex_number,
    hex_spec, hex_value, ipv4_text_reads_back, lemma_ipv4_dotted, lemma_split_piece,
    lemma_ipv6_chars, longest_zero_run, zero_run, Ipv4Addr, Ipv6Addr, SocketAddr, SocketModel,
};
use crate::pieces::{pieces_join_at_separators, texts_come_apart_at_first_separator};
use crate::text::{
    decimal_reads_back, decimal_spec, digits_spec, first_index, lemma_first_index, split_once_spec,
    split_spec,
};
use vstd::prelude::*;
use vstd::string::*;

verus! {

/// Whether a character is a hexadecimal digit in lower case.
pub open spec fn is_hex(c: char) -> bool {
    '0' <= c <= '9' || 'a' <= c <= 'f'
}

proof fn lemma_digit(d: int)
    requires
        0 <= d < 16,
    ensures
        hex_value(hex_char(d)) == Some(d),
        is_hex(hex_char(d)),
{
}

proof fn lemma_hex(n: int)
    requires
        0 <= n,
    ensures
        hex_number(hex_spec(n)) == Some(n),
        hex_spec(n).len() >= 1,
        forall|i: int| 0 <= i < hex_spec(n).len() ==> is_hex(#[trigger] hex_spec(n)[i]),
        n < 16 ==> hex_spec(n).len() == 1,
        n < 256 ==> hex_spec(n).len() <= 2,
        n < 4096 ==> hex_spec(n).len() <= 3,
        n < 65536 ==> hex_spec(n).len() <= 4,
        n > 0 ==> hex_spec(n)[0] != '0',
    decreases n,
{
    let s = hex_spec(n);
    lemma_digit(n % 16);
    if n < 16 {
        assert(s.drop_last() =~= Seq::empty());
        assert(hex_number(Seq::empty()) == Some(0int));
    } else {
        lemma_hex(n / 16);
        assert(s.drop_last() =~= hex_spec(n / 16));
    }
}

proof fn lemma_piece(group: u16)
    ensures
        hex_group(hex_spec(group as int)) == Some(group as int),
        !hex_spec(group as int).contains(':'),
        Ipv4Addr::parse_spec(hex_spec(group as int)) is None,
        hex_spec(group as int).len() > 0,
{
    let s = hex_spec(group as int);
    lemma_hex(group as int);
    assert forall|i: int| 0 <= i < s.len() implies s[i] != ':' && s[i] != '.' by {
        assert(is_hex(s[i]));
    }
    lemma_split_piece(s, '.', s);
}

/// The groups written one by one.
spec fn written(groups: Seq<u16>) -> Seq<Seq<char>> {
    groups.map_values(|group: u16| hex_spec(group as int))
}

/// Whether no two colons stand side by side, and none at the ends.
spec fn spaced(s: Seq<char>) -> bool {
    &&& forall|i: int| 0 <= i < s.len() - 1 ==> !(#[trigger] s[i] == ':' && s[i + 1] == ':')
    &&& s.len() > 0 ==> s[0] != ':' && s.last() != ':'
}

proof fn lemma_groups_text(groups: Seq<u16>)
    requires
        groups.len() > 0,
    ensures
        split_spec(groups_text(groups), ':') == written(groups),
        groups_text(groups).len() > 0,
        spaced(groups_text(groups)),
    decreases groups.len(),
{
    let text = groups_text(groups);
    let last = hex_spec(groups.last() as int);
    lemma_piece(groups.last());
    lemma_hex(groups.last() as int);
    assert forall|i: int| 0 <= i < last.len() implies last[i] != ':' by {
        assert(is_hex(last[i]));
    }
    lemma_split_piece(last, ':', last);
    if groups.len() == 1 {
        assert(written(groups) =~= seq![last]);
    } else {
        let before = groups_text(groups.drop_last());
        lemma_groups_text(groups.drop_last());
        pieces_join_at_separators(before, ':', last);
        assert(written(groups) =~= written(groups.drop_last()) + seq![last]);
        assert forall|i: int| 0 <= i < text.len() - 1 implies !(#[trigger] text[i] == ':' && text[i + 1]
            == ':') by {
            if i < before.len() {
                assert(text[i] == before[i]);
                if i + 1 < before.len() {
                    assert(text[i + 1] == before[i + 1]);
                }
            } else {
                assert(text[i + 1] == last[i + 1 - before.len() - 1]);
            }
        }
        assert(text[0] == before[0]);
        assert(text.last() == last[last.len() - 1]);
    }
}

proof fn lemma_groups_read(groups: Seq<u16>, dotted: bool)
    ensures
        groups_spec(written(groups), dotted) == Some(groups),
    decreases groups.len(),
{
    let pieces = written(groups);
    if groups.len() > 0 {
        lemma_piece(groups[0]);
        lemma_groups_read(groups.drop_first(), dotted);
        assert(pieces.drop_first() =~= written(groups.drop_first()));
        assert(pieces[0] == hex_spec(groups[0] as int));
        assert(seq![groups[0]] + groups.drop_first() =~= groups);
    } else {
        assert(groups =~= Seq::empty());
    }
}

/// Groups that are written with colons between them are read back.
pub proof fn written_groups_are_read(groups: Seq<u16>, dotted: bool)
    ensures
        group_list_spec(groups_text(groups), dotted) == Some(groups),
{
    if groups.len() > 0 {
        lemma_groups_text(groups);
        lemma_groups_read(groups, dotted);
    } else {
        assert(groups =~= Seq::empty());
    }
}

proof fn lemma_double_colon(s: Seq<char>, at: int)
    requires
        0 <= at <= s.len(),
        forall|i: int| 0 <= i < at && i + 1 < s.len() ==> !(#[trigger] s[i] == ':' && s[i + 1] == ':'),
        at < s.len() ==> at + 1 < s.len() && s[at] == ':' && s[at + 1] == ':',
    ensures
        double_colon(s) == at,
    decreases s.len(),
{
    if at > 0 && s.len() >= 2 {
        assert(!(s[0] == ':' && s[1] == ':'));
        let rest = s.drop_first();
        assert forall|i: int| 0 <= i < at - 1 && i + 1 < rest.len() implies !(#[trigger] rest[i] == ':'
            && rest[i + 1] == ':') by {
            assert(rest[i] == s[i + 1] && rest[i + 1] == s[i + 2]);
        }
        lemma_double_colon(rest, at - 1);
    }
}

/// Whether groups from `i` on are zero, as many as `n`.
pub open spec fn zeros_at(groups: Seq<u16>, i: int, n: int) -> bool {
    0 <= i && 0 <= n && i + n <= groups.len() && forall|k: int| i <= k < i + n ==> #[trigger] groups[k] == 0
}

proof fn lemma_zero_run(groups: Seq<u16>, i: int)
    requires
        0 <= i <= groups.len(),
    ensures
        zeros_at(groups, i, zero_run(groups, i)),
        i + zero_run(groups, i) < groups.len() ==> groups[i + zero_run(groups, i)] != 0,
        forall|n: int| #[trigger] zeros_at(groups, i, n) ==> n <= zero_run(groups, i),
    decreases groups.len() - i,
{
    if i < groups.len() && groups[i] == 0 {
        lemma_zero_run(groups, i + 1);
        let n = zero_run(groups, i);
        assert forall|k: int| i <= k < i + n implies #[trigger] groups[k] == 0 by {
            if k > i {
                assert(zeros_at(groups, i + 1, n - 1));
            }
        }
    }
    assert forall|n: int| #[trigger] zeros_at(groups, i, n) implies n <= zero_run(groups, i) by {
        let run = zero_run(groups, i);
        if n > run {
            assert(groups[i + run] == 0);
        }
    }
}

proof fn lemma_longest(groups: Seq<u16>, from: int)
    requires
        0 <= from <= groups.len(),
    ensures
        ({
            let (i, n) = longest_zero_run(groups, from);
            &&& from <= i && zeros_at(groups, i, n)
            &&& forall|k: int, m: int|
                from <= k && #[trigger] zeros_at(groups, k, m) ==> m <= n && (m == n && n > 0 ==> i <= k)
        }),
    decreases groups.len() - from,
{
    if from < groups.len() {
        lemma_longest(groups, from + 1);
        lemma_zero_run(groups, from);
        let (i, n) = longest_zero_run(groups, from);
        assert forall|k: int, m: int| from <= k && #[trigger] zeros_at(groups, k, m) implies m <= n && (m
            == n && n > 0 ==> i <= k) by {
            if k == from {
                assert(m <= zero_run(groups, from));
            }
        }
    }
}

/// An IPv6 address is written with one double colon, for the first of the longest runs of at least two
/// zero groups; where there is no such run, all groups are written. Groups have no leading zeros.
pub proof fn longest_zero_run_is_left_out(groups: Seq<u16>, i: int, n: int)
    requires
        groups.len() == 8,
        !(groups[0] == 0 && groups[1] == 0 && groups[2] == 0 && groups[3] == 0 && groups[4] == 0
            && groups[5] == 0xffff),
        zeros_at(groups, i, n),
        forall|k: int, m: int| #[trigger] zeros_at(groups, k, m) ==> m <= n && (m == n ==> i <= k),
    ensures
        n >= 2 ==> Ipv6Addr::text_spec(groups) == groups_text(groups.take(i)) + "::"@ + groups_text(
            groups.skip(i + n),
        ),
        n < 2 ==> Ipv6Addr::text_spec(groups) == groups_text(groups),
        forall|g: u16|
            g > 0 ==> (#[trigger] hex_spec(g as int)).len() <= 4 && hex_spec(g as int)[0] != '0',
{
    lemma_longest(groups, 0);
    let (j, m) = longest_zero_run(groups, 0);
    assert(zeros_at(groups, j, m));
    assert(zeros_at(groups, i, n));
    let mapped = seq![0u16, 0u16, 0u16, 0u16, 0u16, 0xffffu16];
    if groups.take(6) == mapped {
        assert(groups.take(6)[0] == 0 && groups.take(6)[1] == 0 && groups.take(6)[2] == 0
            && groups.take(6)[3] == 0 && groups.take(6)[4] == 0 && groups.take(6)[5] == 0xffff);
        assert(false);
    }
    assert forall|g: u16| g > 0 implies (#[trigger] hex_spec(g as int)).len() <= 4 && hex_spec(
        g as int,
    )[0] != '0' by {
        lemma_hex(g as int);
    }
}

proof fn lemma_compressed(groups: Seq<u16>, i: int, n: int)
    requires
        groups.len() == 8,
        zeros_at(groups, i, n),
        n >= 2,
    ensures
        Ipv6Addr::parse_spec(
            groups_text(groups.take(i)) + "::"@ + groups_text(groups.skip(i + n)),
        ) == Some(groups),
{
    reveal_strlit("::");
    let head = groups.take(i);
    let tail = groups.skip(i + n);
    let a = groups_text(head);
    let b = groups_text(tail);
    let s = a + "::"@ + b;
    assert("::"@.len() == 2 && "::"@[0] == ':' && "::"@[1] == ':');
    written_groups_are_read(head, false);
    written_groups_are_read(tail, true);
    if head.len() > 0 {
        lemma_groups_text(head);
    }
    let at = a.len() as int;
    assert forall|k: int| 0 <= k < at && k + 1 < s.len() implies !(#[trigger] s[k] == ':' && s[k + 1]
        == ':') by {
        assert(s[k] == a[k]);
        if k + 1 < at {
            assert(s[k + 1] == a[k + 1]);
        }
    }
    assert(s[at] == ':' && s[at + 1] == ':');
    lemma_double_colon(s, at);
    assert(s.take(at) =~= a);
    assert(s.skip(at + 2) =~= b);
    let zeros = Seq::new((8 - head.len() - tail.len()) as nat, |k: int| 0u16);
    assert(zeros.len() == n);
    assert forall|k: int| 0 <= k < 8 implies (head + zeros + tail)[k] == groups[k] by {
        if i <= k < i + n {
            assert(groups[k] == 0);
        }
    }
    assert(head + zeros + tail =~= groups);
}

proof fn lemma_mapped(groups: Seq<u16>, v4: Ipv4Addr)
    requires
        groups.len() == 8,
        groups.take(6) == seq![0u16, 0u16, 0u16, 0u16, 0u16, 0xffffu16],
        v4.a * 256 + v4.b == groups[6],
        v4.c * 256 + v4.d == groups[7],
    ensures
        Ipv6Addr::parse_spec("::ffff:"@ + v4.text_spec()) == Some(groups),
{
    reveal_strlit("::ffff:");
    let text = v4.text_spec();
    let s = "::ffff:"@ + text;
    let word = seq!['f', 'f', 'f', 'f'];
    ipv4_text_reads_back(v4);
    lemma_ipv4_dotted(v4);
    assert("::ffff:"@ =~= seq![':', ':', 'f', 'f', 'f', 'f', ':']);
    assert(s[0] == ':' && s[1] == ':');
    lemma_double_colon(s, 0);
    assert(s.take(0) =~= Seq::empty());
    assert(s.skip(2) =~= word + seq![':'] + text);
    assert forall|k: int| 0 <= k < text.len() implies text[k] != ':' by {
        assert(crate::text::is_digit_spec(text[k]) || text[k] == '.');
    }
    assert(!text.contains(':'));
    lemma_split_piece(word, ':', text);
    lemma_split_piece(text, ':', text);
    let pieces = seq![word, text];
    assert(split_spec(s.skip(2), ':') =~= pieces);
    assert(pieces.drop_first() =~= seq![text]);
    assert(hex_number(word) == Some(0xffffint)) by {
        assert(word.drop_last() =~= seq!['f', 'f', 'f']);
        assert(seq!['f', 'f', 'f'].drop_last() =~= seq!['f', 'f']);
        assert(seq!['f', 'f'].drop_last() =~= seq!['f']);
        assert(seq!['f'].drop_last() =~= Seq::empty());
        assert(hex_value('f') == Some(15int));
        reveal_with_fuel(hex_number, 6);
    }
    let low = seq![groups[6], groups[7]];
    assert(groups_spec(seq![text], true) == Some(low)) by {
        assert(low =~= seq![(v4.a * 256 + v4.b) as u16, (v4.c * 256 + v4.d) as u16]);
    }
    let tail = seq![0xffffu16] + low;
    assert(groups_spec(pieces, true) == Some(tail));
    let zeros = Seq::new(5, |k: int| 0u16);
    let first = groups.take(6);
    assert forall|k: int| 0 <= k < 6 implies groups[k] == #[trigger] first[k] by {}
    assert(first[0] == 0 && first[1] == 0 && first[2] == 0 && first[3] == 0 && first[4] == 0
        && first[5] == 0xffff);
    assert(Seq::<u16>::empty() + zeros + tail =~= groups);
}

/// The notation of an IPv6 address gives the address back.
pub proof fn ipv6_text_reads_back(groups: Seq<u16>)
    requires
        groups.len() == 8,
    ensures
        Ipv6Addr::parse_spec(Ipv6Addr::text_spec(groups)) == Some(groups),
{
    let mapped = seq![0u16, 0u16, 0u16, 0u16, 0u16, 0xffffu16];
    if groups.take(6) == mapped {
        let v4 = Ipv4Addr {
            a: (groups[6] / 256) as u8,
            b: (groups[6] % 256) as u8,
            c: (groups[7] / 256) as u8,
            d: (groups[7] % 256) as u8,
        };
        lemma_mapped(groups, v4);
    } else {
        lemma_longest(groups, 0);
        let (i, n) = longest_zero_run(groups, 0);
        if n > 1 {
            lemma_compressed(groups, i, n);
        } else {
            let s = groups_text(groups);
            lemma_groups_text(groups);
            lemma_double_colon(s, s.len() as int);
            written_groups_are_read(groups, true);
        }
    }
}

proof fn lemma_no_ipv4(s: Seq<char>)
    requires
        s.len() > 0,
        s[0] == '[',
    ensures
        Ipv4Addr::parse_spec(s) is None,
{
    let i = first_index(s, '.');
    lemma_first_index(s, '.');
    let parts = split_spec(s, '.');
    if i < s.len() {
        assert(i > 0);
        assert(parts[0] == s.take(i));
        assert(s.take(i)[0] == '[');
        assert(!crate::text::is_digit_spec('['));
        assert(!crate::text::all_digits(parts[0]));
        assert(crate::net::octet_spec(parts[0]) is None);
    }
}

proof fn lemma_port(n: int, maximum: int)
    requires
        0 <= n <= maximum,
    ensures
        digits_spec(decimal_spec(n), maximum) == Some(n),
        !decimal_spec(n).contains('%'),
        !decimal_spec(n).contains(']'),
{
    decimal_reads_back(n);
    assert forall|i: int| 0 <= i < decimal_spec(n).len() implies decimal_spec(n)[i] != '%'
        && decimal_spec(n)[i] != ']' by {
        assert(crate::text::is_digit_spec(decimal_spec(n)[i]));
    }
}

proof fn lemma_bracketed(inside: Seq<char>, port: int)
    requires
        inside.len() > 0,
        !inside.contains(']'),
        0 <= port <= 65535,
    ensures
        ({
            let s = seq!['['] + inside + "]:"@ + decimal_spec(port);
            &&& SocketAddr::parse_v4_spec(s) is None
            &&& s[0] == '['
            &&& split_once_spec(s.skip(1), ']') == Some((inside, seq![':'] + decimal_spec(port)))
            &&& digits_spec((seq![':'] + decimal_spec(port)).skip(1), 65535) == Some(port)
        }),
{
    reveal_strlit("]:");
    let digits = decimal_spec(port);
    let s = seq!['['] + inside + "]:"@ + digits;
    assert("]:"@ =~= seq![']', ':']);
    lemma_port(port, 65535);
    assert(s.skip(1) =~= inside + seq![']'] + (seq![':'] + digits));
    texts_come_apart_at_first_separator(inside, ']', seq![':'] + digits);
    assert((seq![':'] + digits).skip(1) =~= digits);
    let i = first_index(s, ':');
    lemma_first_index(s, ':');
    if i < s.len() {
        assert(i > 0);
        assert(s.take(i)[0] == '[');
        lemma_no_ipv4(s.take(i));
    }
}

/// The notation of an IPv6 endpoint gives its address, port and scope back.
pub proof fn ipv6_endpoint_reads_back(groups: Seq<u16>, port: u16, scope_id: u32)
    requires
        groups.len() == 8,
    ensures
        ({
            let endpoint = SocketModel::V6 { groups, port, flowinfo: 0, scope_id };
            SocketAddr::parse_spec(SocketAddr::text_spec(endpoint)) == Some(endpoint)
        }),
{
    let text = Ipv6Addr::text_spec(groups);
    ipv6_text_reads_back(groups);
    lemma_ipv6_chars(groups);
    assert forall|i: int| 0 <= i < text.len() implies text[i] != '%' && text[i] != ']' by {
        assert(crate::net::is_address_char(text[i]));
    }
    assert(!text.contains('%') && !text.contains(']'));
    if text.len() == 0 {
        assert(double_colon(text) == 0);
        assert(group_list_spec(text, true) == Some(Seq::<u16>::empty()));
    }
    if scope_id == 0 {
        lemma_bracketed(text, port as int);
        texts_come_apart_at_first_separator(text, '%', text);
    } else {
        let scope = decimal_spec(scope_id as int);
        let inside = text + seq!['%'] + scope;
        lemma_port(scope_id as int, u32::MAX as int);
        assert forall|i: int| 0 <= i < inside.len() implies inside[i] != ']' by {
            if i < text.len() {
                assert(text.contains(text[i]));
            } else if i > text.len() {
                assert(scope.contains(scope[i - text.len() - 1]));
            }
        }
        lemma_bracketed(inside, port as int);
        texts_come_apart_at_first_separator(text, '%', scope);
        assert(seq!['['] + text + seq!['%'] + scope + "]:"@ + decimal_spec(port as int) =~= seq!['[']
            + inside + "]:"@ + decimal_spec(port as int));
    }
}

} // verus!
