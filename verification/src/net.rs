//! Internet addresses as plain values, and their textual notation.
use crate::text::{
    chars_of, decimal, decimal_spec, digits_spec, lemma_first_index, parse_digits, split,
    split_once, split_once_spec, split_spec, views,
};
use vstd::prelude::*;
use vstd::slice::slice_subrange;
use vstd::string::*;

verus! {

/// An IPv4 address, `a.b.c.d` in dotted decimal notation.
#[derive(Clone, Copy, Debug, PartialEq, Eq, Hash, Structural)]
pub struct Ipv4Addr {
    pub a: u8,
    pub b: u8,
    pub c: u8,
    pub d: u8,
}

/// An IPv6 address of eight 16-bit groups, the most significant first.
#[derive(Clone, Copy, Debug, PartialEq, Eq, Hash)]
pub struct Ipv6Addr {
    pub segments: [u16; 8],
}

/// An address of either family.
#[derive(Clone, Copy, Debug, PartialEq, Eq, Hash)]
pub enum IpAddr {
    V4(Ipv4Addr),
    V6(Ipv6Addr),
}

/// An IPv4 address with a port.
#[derive(Clone, Copy, Debug, PartialEq, Eq, Hash)]
pub struct SocketAddrV4 {
    pub ip: Ipv4Addr,
    pub port: u16,
}

/// An IPv6 address with a port, flow information and a scope.
#[derive(Clone, Copy, Debug, PartialEq, Eq, Hash)]
pub struct SocketAddrV6 {
    pub ip: Ipv6Addr,
    pub port: u16,
    pub flowinfo: u32,
    pub scope_id: u32,
}

/// An address of either family with a port.
#[derive(Clone, Copy, Debug, PartialEq, Eq, Hash)]
pub enum SocketAddr {
    V4(SocketAddrV4),
    V6(SocketAddrV6),
}

/// The value of an octet in decimal notation: up to three digits, no leading zero, at most 255.
pub open spec fn octet_spec(s: Seq<char>) -> Option<int> {
    if s.len() > 3 || (s.len() > 1 && s[0] == '0') {
        None
    } else {
        digits_spec(s, 255)
    }
}

fn parse_octet(s: &str) -> (r: Option<u8>)
    ensures
        match r {
            Some(n) => octet_spec(s@) == Some(n as int),
            None => octet_spec(s@) is None,
        },
{
    let chars = chars_of(s);
    if chars.len() > 3 || (chars.len() > 1 && chars[0] == '0') {
        return None;
    }
    match parse_digits(&chars, 255) {
        Some(n) => Some(n as u8),
        None => None,
    }
}

impl Ipv4Addr {
    /// The four octets in network order.
    pub open spec fn octets_spec(self) -> Seq<u8> {
        seq![self.a, self.b, self.c, self.d]
    }

    /// The address as one number, the first octet being the most significant.
    pub open spec fn number(self) -> int {
        self.a * 0x1000000 + self.b * 0x10000 + self.c * 0x100 + self.d
    }

    pub fn new(a: u8, b: u8, c: u8, d: u8) -> (r: Self)
        ensures
            r == (Ipv4Addr { a, b, c, d }),
    {
        Ipv4Addr { a, b, c, d }
    }

    /// The four octets in network order.
    pub fn octets(self) -> (r: [u8; 4])
        ensures
            r@ == self.octets_spec(),
    {
        let r = [self.a, self.b, self.c, self.d];
        assert(r@ =~= self.octets_spec());
        r
    }

    /// The address that `s` denotes: four octets with dots between them.
    pub open spec fn parse_spec(s: Seq<char>) -> Option<Ipv4Addr> {
        let parts = split_spec(s, '.');
        if parts.len() != 4 {
            None
        } else {
            match (
                octet_spec(parts[0]),
                octet_spec(parts[1]),
                octet_spec(parts[2]),
                octet_spec(parts[3]),
            ) {
                (Some(a), Some(b), Some(c), Some(d)) => Some(
                    Ipv4Addr { a: a as u8, b: b as u8, c: c as u8, d: d as u8 },
                ),
                _ => None,
            }
        }
    }

    /// The address that `s` denotes in dotted decimal notation.
    pub fn parse(s: &str) -> (r: Option<Ipv4Addr>)
        ensures
            r == Self::parse_spec(s@),
    {
        let parts = split(s, '.');
        assert(views(parts@).len() == parts@.len());
        if parts.len() != 4 {
            return None;
        }
        assert(forall|i: int| 0 <= i < 4 ==> #[trigger] views(parts@)[i] == parts@[i]@);
        match (
            parse_octet(parts[0]),
            parse_octet(parts[1]),
            parse_octet(parts[2]),
            parse_octet(parts[3]),
        ) {
            (Some(a), Some(b), Some(c), Some(d)) => Some(Ipv4Addr { a, b, c, d }),
            _ => None,
        }
    }

    /// Dotted decimal notation.
    pub open spec fn text_spec(self) -> Seq<char> {
        decimal_spec(self.a as int) + seq!['.'] + decimal_spec(self.b as int) + seq!['.']
            + decimal_spec(self.c as int) + seq!['.'] + decimal_spec(self.d as int)
    }

    /// Dotted decimal notation.
    pub fn text(self) -> (r: String)
        ensures
            r@ == self.text_spec(),
    {
        let mut r = decimal(self.a as u64);
        r.push('.');
        r.append(decimal(self.b as u64).as_str());
        r.push('.');
        r.append(decimal(self.c as u64).as_str());
        r.push('.');
        r.append(decimal(self.d as u64).as_str());
        assert(r@ =~= self.text_spec());
        r
    }
}

/// A text without the separator is one piece, whatever follows it.
pub proof fn lemma_split_piece(piece: Seq<char>, sep: char, rest: Seq<char>)
    requires
        !piece.contains(sep),
    ensures
        split_spec(piece + seq![sep] + rest, sep) == seq![piece] + split_spec(rest, sep),
        split_spec(piece, sep) == seq![piece],
{
    let s = piece + seq![sep] + rest;
    assert forall|k: int| 0 <= k < piece.len() implies s[k] != sep by {
        assert(piece.contains(piece[k]));
    }
    crate::text::lemma_first_index_unique(s, sep, piece.len() as int);
    assert(s.take(piece.len() as int) =~= piece);
    assert(s.skip(piece.len() as int + 1) =~= rest);
    lemma_first_index(piece, sep);
}

proof fn lemma_octet_text(n: u8)
    ensures
        octet_spec(decimal_spec(n as int)) == Some(n as int),
        !decimal_spec(n as int).contains('.'),
        !decimal_spec(n as int).contains(':'),
        decimal_spec(n as int).len() <= 3,
{
    crate::text::decimal_reads_back(n as int);
    reveal_with_fuel(decimal_spec, 3);
    assert forall|c: char| decimal_spec(n as int).contains(c) implies c != '.' && c != ':' by {
        let i = choose|i: int| 0 <= i < decimal_spec(n as int).len() && decimal_spec(n as int)[i] == c;
        assert(crate::text::is_digit_spec(decimal_spec(n as int)[i]));
    }
}

/// Dotted decimal notation gives the address back.
pub proof fn ipv4_text_reads_back(address: Ipv4Addr)
    ensures
        Ipv4Addr::parse_spec(address.text_spec()) == Some(address),
{
    let a = decimal_spec(address.a as int);
    let b = decimal_spec(address.b as int);
    let c = decimal_spec(address.c as int);
    let d = decimal_spec(address.d as int);
    lemma_octet_text(address.a);
    lemma_octet_text(address.b);
    lemma_octet_text(address.c);
    lemma_octet_text(address.d);
    let dot = seq!['.'];
    assert(address.text_spec() =~= a + dot + (b + dot + (c + dot + d)));
    lemma_split_piece(a, '.', b + dot + (c + dot + d));
    lemma_split_piece(b, '.', c + dot + d);
    lemma_split_piece(c, '.', d);
    lemma_split_piece(d, '.', d);
    assert(split_spec(address.text_spec(), '.') =~= seq![a, b, c, d]);
}

/// The value of a hexadecimal digit of either case.
pub open spec fn hex_value(c: char) -> Option<int> {
    if '0' <= c <= '9' {
        Some(c as u32 - 48)
    } else if 'a' <= c <= 'f' {
        Some(c as u32 - 87)
    } else if 'A' <= c <= 'F' {
        Some(c as u32 - 55)
    } else {
        None
    }
}

/// The number that a run of hexadecimal digits denotes.
pub open spec fn hex_number(s: Seq<char>) -> Option<int>
    decreases s.len(),
{
    if s.len() == 0 {
        Some(0)
    } else {
        match (hex_number(s.drop_last()), hex_value(s.last())) {
            (Some(high), Some(low)) => Some(high * 16 + low),
            _ => None,
        }
    }
}

/// The value of an IPv6 group: one to four hexadecimal digits.
pub open spec fn hex_group(s: Seq<char>) -> Option<int> {
    if 1 <= s.len() <= 4 {
        hex_number(s)
    } else {
        None
    }
}

pub(crate) fn parse_hex_digit(c: char) -> (r: Option<u16>)
    ensures
        match r {
            Some(n) => hex_value(c) == Some(n as int) && n < 16,
            None => hex_value(c) is None,
        },
{
    if '0' <= c && c <= '9' {
        Some(c as u16 - 48)
    } else if 'a' <= c && c <= 'f' {
        Some(c as u16 - 87)
    } else if 'A' <= c && c <= 'F' {
        Some(c as u16 - 55)
    } else {
        None
    }
}

proof fn lemma_hex_number_prefix(s: Seq<char>, i: int)
    requires
        0 <= i <= s.len(),
        hex_number(s) is Some,
    ensures
        hex_number(s.take(i)) is Some,
    decreases s.len(),
{
    if i == s.len() {
        assert(s.take(i) =~= s);
    } else {
        lemma_hex_number_prefix(s.drop_last(), i);
        assert(s.drop_last().take(i) =~= s.take(i));
    }
}

fn parse_hex_group(s: &str) -> (r: Option<u16>)
    ensures
        match r {
            Some(n) => hex_group(s@) == Some(n as int),
            None => hex_group(s@) is None,
        },
{
    let chars = chars_of(s);
    if chars.len() < 1 || chars.len() > 4 {
        return None;
    }
    let mut value: u32 = 0;
    let mut i: usize = 0;
    assert(s@.take(0) =~= Seq::empty());
    while i < chars.len()
        invariant
            chars@ == s@,
            i <= chars@.len() <= 4,
            1 <= chars@.len(),
            hex_number(s@.take(i as int)) == Some(value as int),
            i == 0 ==> value == 0,
            i == 1 ==> value < 0x10,
            i == 2 ==> value < 0x100,
            i == 3 ==> value < 0x1000,
            i == 4 ==> value < 0x10000,
        decreases chars@.len() - i,
    {
        assert(s@.take(i + 1).drop_last() =~= s@.take(i as int));
        match parse_hex_digit(chars[i]) {
            Some(digit) => {
                value = value * 16 + digit as u32;
            },
            None => {
                proof {
                    if hex_number(s@) is Some {
                        lemma_hex_number_prefix(s@, i + 1);
                    }
                }
                return None;
            },
        }
        i = i + 1;
    }
    assert(s@.take(s@.len() as int) =~= s@);
    Some(value as u16)
}

/// The groups that the pieces denote; with `dotted`, the last piece may be an IPv4 address that
/// stands for two groups.
pub open spec fn groups_spec(pieces: Seq<Seq<char>>, dotted: bool) -> Option<Seq<u16>>
    decreases pieces.len(),
{
    if pieces.len() == 0 {
        Some(Seq::empty())
    } else if pieces.len() == 1 && dotted && Ipv4Addr::parse_spec(pieces[0]) is Some {
        let v4 = Ipv4Addr::parse_spec(pieces[0]).unwrap();
        Some(seq![(v4.a * 256 + v4.b) as u16, (v4.c * 256 + v4.d) as u16])
    } else {
        match (hex_group(pieces[0]), groups_spec(pieces.drop_first(), dotted)) {
            (Some(group), Some(rest)) => Some(seq![group as u16] + rest),
            _ => None,
        }
    }
}

/// The groups of a text with colons between them; an empty text has none.
pub open spec fn group_list_spec(s: Seq<char>, dotted: bool) -> Option<Seq<u16>> {
    if s.len() == 0 {
        Some(Seq::empty())
    } else {
        groups_spec(split_spec(s, ':'), dotted)
    }
}

fn parse_group_list(s: &str, dotted: bool) -> (r: Option<Vec<u16>>)
    ensures
        match r {
            Some(list) => group_list_spec(s@, dotted) == Some(list@),
            None => group_list_spec(s@, dotted) is None,
        },
{
    let mut list: Vec<u16> = Vec::new();
    if s.is_empty() {
        assert(list@ =~= Seq::empty());
        return Some(list);
    }
    let pieces = split(s, ':');
    let ghost all = views(pieces@);
    let mut i: usize = 0;
    assert(all.skip(0) =~= all);
    assert(forall|r: Seq<u16>| list@ + r =~= r);
    while i < pieces.len()
        invariant
            i <= pieces@.len(),
            all == views(pieces@),
            groups_spec(all, dotted) == (match groups_spec(all.skip(i as int), dotted) {
                Some(rest) => Some(list@ + rest),
                None => None,
            }),
            s@.len() > 0,
            all == split_spec(s@, ':'),
        decreases pieces@.len() - i,
    {
        let ghost rest = all.skip(i as int);
        let ghost before = list@;
        assert(rest[0] == pieces@[i as int]@);
        assert(rest.drop_first() =~= all.skip(i + 1));
        if i + 1 == pieces.len() && dotted {
            if let Some(v4) = Ipv4Addr::parse(pieces[i]) {
                list.push(v4.a as u16 * 256 + v4.b as u16);
                list.push(v4.c as u16 * 256 + v4.d as u16);
                assert(list@ =~= before + groups_spec(rest, dotted).unwrap());
                return Some(list);
            }
        }
        match parse_hex_group(pieces[i]) {
            Some(group) => {
                list.push(group);
                assert(forall|r: Seq<u16>| #[trigger] (list@ + r) =~= before + (seq![group] + r));
            },
            None => {
                return None;
            },
        }
        i = i + 1;
    }
    assert(all.skip(i as int) =~= Seq::empty());
    assert(list@ + Seq::empty() =~= list@);
    Some(list)
}

/// The position of the first two adjacent colons, or the length of `s` where there are none.
pub open spec fn double_colon(s: Seq<char>) -> int
    decreases s.len(),
{
    if s.len() < 2 {
        s.len() as int
    } else if s[0] == ':' && s[1] == ':' {
        0
    } else {
        1 + double_colon(s.drop_first())
    }
}

fn find_double_colon(chars: &[char]) -> (r: usize)
    ensures
        r == double_colon(chars@),
        r + 1 < chars@.len() || r == chars@.len(),
{
    let mut i: usize = 0;
    assert(chars@.skip(0) =~= chars@);
    while i < chars.len()
        invariant
            i <= chars@.len(),
            double_colon(chars@) == i + double_colon(chars@.skip(i as int)),
        decreases chars@.len() - i,
    {
        if chars.len() - i < 2 {
            return chars.len();
        }
        if chars[i] == ':' && chars[i + 1] == ':' {
            return i;
        }
        assert(chars@.skip(i as int).drop_first() =~= chars@.skip(i + 1));
        i = i + 1;
    }
    i
}

impl Ipv6Addr {
    /// The eight groups that `s` denotes: written out, or with one `::` for a run of zero groups.
    pub open spec fn parse_spec(s: Seq<char>) -> Option<Seq<u16>> {
        let i = double_colon(s);
        if i >= s.len() {
            match group_list_spec(s, true) {
                Some(groups) => if groups.len() == 8 {
                    Some(groups)
                } else {
                    None
                },
                None => None,
            }
        } else {
            match (group_list_spec(s.take(i), false), group_list_spec(s.skip(i + 2), true)) {
                (Some(head), Some(tail)) => if head.len() + tail.len() <= 7 {
                    Some(
                        head + Seq::new((8 - head.len() - tail.len()) as nat, |k: int| 0u16) + tail,
                    )
                } else {
                    None
                },
                _ => None,
            }
        }
    }

    /// The address that `s` denotes.
    pub fn parse(s: &str) -> (r: Option<Ipv6Addr>)
        ensures
            match r {
                Some(address) => Self::parse_spec(s@) == Some(address.segments@),
                None => Self::parse_spec(s@) is None,
            },
    {
        let chars = chars_of(s);
        let i: usize = find_double_colon(&chars);
        if i >= chars.len() {
            let groups = match parse_group_list(s, true) {
                Some(groups) => groups,
                None => {
                    return None;
                },
            };
            if groups.len() != 8 {
                return None;
            }
            let segments = eight(&groups);
            Some(Ipv6Addr { segments })
        } else {
            let front = s.substring_char(0, i);
            let back = s.substring_char(i + 2, chars.len());
            assert(front@ =~= s@.take(i as int));
            assert(back@ =~= s@.skip(i + 2));
            let head = match parse_group_list(front, false) {
                Some(groups) => groups,
                None => {
                    return None;
                },
            };
            let tail = match parse_group_list(back, true) {
                Some(groups) => groups,
                None => {
                    return None;
                },
            };
            if head.len() > 7 || tail.len() > 7 - head.len() {
                return None;
            }
            let mut groups: Vec<u16> = Vec::new();
            let mut k: usize = 0;
            let ghost zeros = (8 - head@.len() - tail@.len()) as nat;
            let ghost full = head@ + Seq::new(zeros, |k: int| 0u16) + tail@;
            while k < 8
                invariant
                    k <= 8,
                    head@.len() + tail@.len() <= 7,
                    zeros == 8 - head@.len() - tail@.len(),
                    full == head@ + Seq::new(zeros, |k: int| 0u16) + tail@,
                    groups@ =~= full.take(k as int),
                decreases 8 - k,
            {
                if k < head.len() {
                    groups.push(head[k]);
                } else if k < 8 - tail.len() {
                    groups.push(0);
                } else {
                    groups.push(tail[k - (8 - tail.len())]);
                }
                k = k + 1;
            }
            assert(groups@ =~= full);
            let segments = eight(&groups);
            Some(Ipv6Addr { segments })
        }
    }
}

fn eight(groups: &Vec<u16>) -> (r: [u16; 8])
    requires
        groups@.len() == 8,
    ensures
        r@ == groups@,
{
    let r = [
        groups[0],
        groups[1],
        groups[2],
        groups[3],
        groups[4],
        groups[5],
        groups[6],
        groups[7],
    ];
    assert(r@ =~= groups@);
    r
}

/// An address of either family, as a mathematical value.
#[verifier::ext_equal]
pub enum IpModel {
    V4(Ipv4Addr),
    V6(Seq<u16>),
}

/// An address of either family with a port, as a mathematical value.
#[verifier::ext_equal]
pub enum SocketModel {
    V4 { address: Ipv4Addr, port: u16 },
    V6 { groups: Seq<u16>, port: u16, flowinfo: u32, scope_id: u32 },
}

impl View for IpAddr {
    type V = IpModel;

    open spec fn view(&self) -> IpModel {
        match self {
            IpAddr::V4(ip) => IpModel::V4(*ip),
            IpAddr::V6(ip) => IpModel::V6(ip.segments@),
        }
    }
}

impl View for SocketAddr {
    type V = SocketModel;

    open spec fn view(&self) -> SocketModel {
        match self {
            SocketAddr::V4(a) => SocketModel::V4 { address: a.ip, port: a.port },
            SocketAddr::V6(a) => SocketModel::V6 {
                groups: a.ip.segments@,
                port: a.port,
                flowinfo: a.flowinfo,
                scope_id: a.scope_id,
            },
        }
    }
}

impl IpAddr {
    /// The address that `s` denotes, in the notation of either family.
    pub open spec fn parse_spec(s: Seq<char>) -> Option<IpModel> {
        match Ipv4Addr::parse_spec(s) {
            Some(ip) => Some(IpModel::V4(ip)),
            None => match Ipv6Addr::parse_spec(s) {
                Some(groups) => Some(IpModel::V6(groups)),
                None => None,
            },
        }
    }

    /// The address that `s` denotes, in the notation of either family.
    pub fn parse(s: &str) -> (r: Option<IpAddr>)
        ensures
            match r {
                Some(ip) => Self::parse_spec(s@) == Some(ip@),
                None => Self::parse_spec(s@) is None,
            },
    {
        match Ipv4Addr::parse(s) {
            Some(ip) => Some(IpAddr::V4(ip)),
            None => match Ipv6Addr::parse(s) {
                Some(ip) => Some(IpAddr::V6(ip)),
                None => None,
            },
        }
    }
}

/// The notation of a hexadecimal digit.
pub open spec fn hex_char(d: int) -> char {
    if d < 10 {
        (48 + d) as u8 as char
    } else {
        (87 + d) as u8 as char
    }
}

/// A number in lower-case hexadecimal notation, without leading zeros.
pub open spec fn hex_spec(n: int) -> Seq<char>
    decreases n,
{
    if n < 16 {
        seq![hex_char(n)]
    } else {
        hex_spec(n / 16).push(hex_char(n % 16))
    }
}

fn hex(n: u16) -> (r: String)
    ensures
        r@ == hex_spec(n as int),
    decreases n,
{
    let low: u8 = (n % 16) as u8;
    let c = if low < 10 {
        (48 + low) as char
    } else {
        (87 + low) as char
    };
    if n < 16 {
        let mut s = String::new();
        s.push(c);
        assert(s@ =~= hex_spec(n as int));
        s
    } else {
        let mut s = hex(n / 16);
        s.push(c);
        s
    }
}

/// How many zero groups stand in a row from position `i` on.
pub open spec fn zero_run(groups: Seq<u16>, i: int) -> int
    decreases groups.len() - i,
{
    if 0 <= i < groups.len() && groups[i] == 0 {
        1 + zero_run(groups, i + 1)
    } else {
        0
    }
}

/// Start and length of the longest run of zero groups from position `i` on, the first of those
/// that are equally long.
pub open spec fn longest_zero_run(groups: Seq<u16>, i: int) -> (int, int)
    decreases groups.len() - i,
{
    if i >= groups.len() {
        (i, 0)
    } else {
        let rest = longest_zero_run(groups, i + 1);
        let here = zero_run(groups, i);
        if here >= rest.1 {
            (i, here)
        } else {
            rest
        }
    }
}

/// The groups in hexadecimal with colons between them.
pub open spec fn groups_text(groups: Seq<u16>) -> Seq<char>
    decreases groups.len(),
{
    if groups.len() == 0 {
        Seq::empty()
    } else if groups.len() == 1 {
        hex_spec(groups[0] as int)
    } else {
        groups_text(groups.drop_last()) + seq![':'] + hex_spec(groups.last() as int)
    }
}

fn push_groups(out: &mut String, segments: &[u16; 8], start: usize, end: usize)
    requires
        start <= end <= 8,
    ensures
        final(out)@ == old(out)@ + groups_text(segments@.subrange(start as int, end as int)),
{
    let mut i: usize = start;
    assert(segments@.subrange(start as int, start as int) =~= Seq::empty());
    assert(out@ =~= old(out)@ + Seq::<char>::empty());
    while i < end
        invariant
            start <= i <= end <= 8,
            out@ == old(out)@ + groups_text(segments@.subrange(start as int, i as int)),
        decreases end - i,
    {
        let ghost before = segments@.subrange(start as int, i as int);
        let ghost after = segments@.subrange(start as int, i + 1);
        assert(after.drop_last() =~= before);
        assert(after.last() == segments@[i as int]);
        if i > start {
            out.push(':');
        }
        out.append(hex(segments[i]).as_str());
        assert(out@ =~= old(out)@ + groups_text(after));
        i = i + 1;
    }
}

impl Ipv6Addr {
    /// The canonical notation: an IPv4-mapped address keeps its dotted part, and the first of the
    /// longest runs of at least two zero groups is written `::`.
    pub open spec fn text_spec(groups: Seq<u16>) -> Seq<char> {
        if groups.take(6) == seq![0u16, 0u16, 0u16, 0u16, 0u16, 0xffffu16] {
            "::ffff:"@ + (Ipv4Addr {
                a: (groups[6] / 256) as u8,
                b: (groups[6] % 256) as u8,
                c: (groups[7] / 256) as u8,
                d: (groups[7] % 256) as u8,
            }).text_spec()
        } else {
            let run = longest_zero_run(groups, 0);
            if run.1 > 1 {
                groups_text(groups.take(run.0)) + "::"@ + groups_text(groups.skip(run.0 + run.1))
            } else {
                groups_text(groups)
            }
        }
    }

    /// The canonical notation.
    pub fn text(self) -> (r: String)
        ensures
            r@ == Self::text_spec(self.segments@),
    {
        let g = self.segments;
        let ghost groups = g@;
        if g[0] == 0 && g[1] == 0 && g[2] == 0 && g[3] == 0 && g[4] == 0 && g[5] == 0xffff {
            assert(groups.take(6) =~= seq![0u16, 0u16, 0u16, 0u16, 0u16, 0xffffu16]);
            let mut r = "::ffff:".to_string();
            let v4 = Ipv4Addr::new(
                (g[6] / 256) as u8,
                (g[6] % 256) as u8,
                (g[7] / 256) as u8,
                (g[7] % 256) as u8,
            );
            r.append(v4.text().as_str());
            return r;
        }
        assert(groups.take(6) != seq![0u16, 0u16, 0u16, 0u16, 0u16, 0xffffu16]) by {
            let t = groups.take(6);
            assert(t[0] == groups[0] && t[1] == groups[1] && t[2] == groups[2] && t[3] == groups[3]
                && t[4] == groups[4] && t[5] == groups[5]);
        }
        let mut run: usize = 0;
        let mut start: usize = 8;
        let mut length: usize = 0;
        let mut i: usize = 8;
        while i > 0
            invariant
                groups == g@,
                i <= 8,
                run == zero_run(groups, i as int),
                run <= 8 - i,
                (start as int, length as int) == longest_zero_run(groups, i as int),
                length == 0 || start + length <= 8,
                start <= 8,
            decreases i,
        {
            i = i - 1;
            run = if g[i] == 0 {
                run + 1
            } else {
                0
            };
            if run >= length {
                start = i;
                length = run;
            }
        }
        let mut r = String::new();
        if length > 1 {
            push_groups(&mut r, &g, 0, start);
            r.append("::");
            push_groups(&mut r, &g, start + length, 8);
            assert(groups.subrange(0, start as int) =~= groups.take(start as int));
            assert(groups.subrange(start + length, 8) =~= groups.skip(start + length));
        } else {
            push_groups(&mut r, &g, 0, 8);
            assert(groups.subrange(0, 8) =~= groups);
        }
        assert(r@ =~= Self::text_spec(groups));
        r
    }
}

/// The address and scope between the brackets of an IPv6 endpoint.
pub open spec fn scoped_spec(s: Seq<char>) -> Option<(Seq<u16>, int)> {
    match split_once_spec(s, '%') {
        None => match Ipv6Addr::parse_spec(s) {
            Some(groups) => Some((groups, 0)),
            None => None,
        },
        Some((address, scope)) => match (
            Ipv6Addr::parse_spec(address),
            digits_spec(scope, u32::MAX as int),
        ) {
            (Some(groups), Some(scope)) => Some((groups, scope)),
            _ => None,
        },
    }
}

impl SocketAddr {
    /// The endpoint `a.b.c.d:port` that `s` denotes.
    pub open spec fn parse_v4_spec(s: Seq<char>) -> Option<SocketModel> {
        match split_once_spec(s, ':') {
            Some((address, port)) => match (Ipv4Addr::parse_spec(address), digits_spec(port, 65535)) {
                (Some(address), Some(port)) => Some(SocketModel::V4 { address, port: port as u16 }),
                _ => None,
            },
            None => None,
        }
    }

    /// The endpoint `[groups]:port` or `[groups%scope]:port` that `s` denotes.
    pub open spec fn parse_v6_spec(s: Seq<char>) -> Option<SocketModel> {
        if s.len() == 0 || s[0] != '[' {
            None
        } else {
            match split_once_spec(s.skip(1), ']') {
                Some((inside, rest)) => if rest.len() == 0 || rest[0] != ':' {
                    None
                } else {
                    match (scoped_spec(inside), digits_spec(rest.skip(1), 65535)) {
                        (Some((groups, scope)), Some(port)) => Some(
                            SocketModel::V6 {
                                groups,
                                port: port as u16,
                                flowinfo: 0,
                                scope_id: scope as u32,
                            },
                        ),
                        _ => None,
                    }
                },
                None => None,
            }
        }
    }

    /// The numeric endpoint that `s` denotes.
    pub open spec fn parse_spec(s: Seq<char>) -> Option<SocketModel> {
        match Self::parse_v4_spec(s) {
            Some(address) => Some(address),
            None => Self::parse_v6_spec(s),
        }
    }

    fn parse_v4(s: &str) -> (r: Option<SocketAddr>)
        ensures
            match r {
                Some(address) => Self::parse_v4_spec(s@) == Some(address@),
                None => Self::parse_v4_spec(s@) is None,
            },
    {
        match split_once(s, ':') {
            Some((address, port)) => match (
                Ipv4Addr::parse(address),
                parse_digits(&chars_of(port), 65535),
            ) {
                (Some(ip), Some(port)) => Some(
                    SocketAddr::V4(SocketAddrV4 { ip, port: port as u16 }),
                ),
                _ => None,
            },
            None => None,
        }
    }

    fn parse_scoped(s: &str) -> (r: Option<(Ipv6Addr, u32)>)
        ensures
            match r {
                Some((ip, scope)) => scoped_spec(s@) == Some((ip.segments@, scope as int)),
                None => scoped_spec(s@) is None,
            },
    {
        match split_once(s, '%') {
            None => match Ipv6Addr::parse(s) {
                Some(ip) => Some((ip, 0)),
                None => None,
            },
            Some((address, scope)) => match (
                Ipv6Addr::parse(address),
                parse_digits(&chars_of(scope), 0xffff_ffff),
            ) {
                (Some(ip), Some(scope)) => Some((ip, scope as u32)),
                _ => None,
            },
        }
    }

    fn parse_v6(s: &str) -> (r: Option<SocketAddr>)
        ensures
            match r {
                Some(address) => Self::parse_v6_spec(s@) == Some(address@),
                None => Self::parse_v6_spec(s@) is None,
            },
    {
        let chars = chars_of(s);
        if chars.len() == 0 || chars[0] != '[' {
            return None;
        }
        let body = s.substring_char(1, chars.len());
        assert(body@ =~= s@.skip(1));
        match split_once(body, ']') {
            Some((inside, rest)) => {
                let rest = chars_of(rest);
                if rest.len() == 0 || rest[0] != ':' {
                    return None;
                }
                let port = slice_subrange(rest.as_slice(), 1, rest.len());
                assert(port@ =~= rest@.skip(1));
                match (Self::parse_scoped(inside), parse_digits(port, 65535)) {
                    (Some((ip, scope_id)), Some(port)) => Some(
                        SocketAddr::V6(
                            SocketAddrV6 { ip, port: port as u16, flowinfo: 0, scope_id },
                        ),
                    ),
                    _ => None,
                }
            },
            None => None,
        }
    }

    /// The numeric endpoint that `s` denotes.
    pub fn parse(s: &str) -> (r: Option<SocketAddr>)
        ensures
            match r {
                Some(address) => Self::parse_spec(s@) == Some(address@),
                None => Self::parse_spec(s@) is None,
            },
    {
        match Self::parse_v4(s) {
            Some(address) => Some(address),
            None => Self::parse_v6(s),
        }
    }

    /// The notation of an endpoint.
    pub open spec fn text_spec(address: SocketModel) -> Seq<char> {
        match address {
            SocketModel::V4 { address, port } => address.text_spec() + seq![':'] + decimal_spec(
                port as int,
            ),
            SocketModel::V6 { groups, port, flowinfo, scope_id } => if scope_id == 0 {
                seq!['['] + Ipv6Addr::text_spec(groups) + "]:"@ + decimal_spec(port as int)
            } else {
                seq!['['] + Ipv6Addr::text_spec(groups) + seq!['%'] + decimal_spec(scope_id as int)
                    + "]:"@ + decimal_spec(port as int)
            },
        }
    }

    /// The notation of an endpoint.
    pub fn text(self) -> (r: String)
        ensures
            r@ == Self::text_spec(self@),
    {
        match self {
            SocketAddr::V4(a) => {
                let mut r = a.ip.text();
                r.push(':');
                r.append(decimal(a.port as u64).as_str());
                assert(r@ =~= Self::text_spec(self@));
                r
            },
            SocketAddr::V6(a) => {
                let mut r = String::new();
                r.push('[');
                r.append(a.ip.text().as_str());
                if a.scope_id != 0 {
                    r.push('%');
                    r.append(decimal(a.scope_id as u64).as_str());
                }
                r.append("]:");
                r.append(decimal(a.port as u64).as_str());
                assert(r@ =~= Self::text_spec(self@));
                r
            },
        }
    }

    /// The address without the port.
    pub fn ip(self) -> (r: IpAddr)
        ensures
            r@ == match self@ {
                SocketModel::V4 { address, port } => IpModel::V4(address),
                SocketModel::V6 { groups, port, flowinfo, scope_id } => IpModel::V6(groups),
            },
    {
        match self {
            SocketAddr::V4(a) => IpAddr::V4(a.ip),
            SocketAddr::V6(a) => IpAddr::V6(a.ip),
        }
    }
}

/// The notation of an IPv4 endpoint gives the endpoint back.
pub proof fn ipv4_endpoint_reads_back(address: Ipv4Addr, port: u16)
    ensures
        SocketAddr::parse_spec(SocketAddr::text_spec(SocketModel::V4 { address, port })) == Some(
            SocketModel::V4 { address, port },
        ),
{
    let text = address.text_spec();
    let s = SocketAddr::text_spec(SocketModel::V4 { address, port });
    ipv4_text_reads_back(address);
    lemma_octet_text(address.a);
    lemma_octet_text(address.b);
    lemma_octet_text(address.c);
    lemma_octet_text(address.d);
    let a = decimal_spec(address.a as int);
    let b = decimal_spec(address.b as int);
    let c = decimal_spec(address.c as int);
    let d = decimal_spec(address.d as int);
    assert forall|k: int| 0 <= k < text.len() implies text[k] != ':' by {
        if k < a.len() {
            assert(a.contains(text[k]));
        } else if a.len() < k < a.len() + 1 + b.len() {
            assert(text[k] == b[k - a.len() - 1]);
            assert(b.contains(text[k]));
        } else if a.len() + b.len() + 1 < k < a.len() + b.len() + c.len() + 2 {
            assert(text[k] == c[k - a.len() - b.len() - 2]);
            assert(c.contains(text[k]));
        } else if k > a.len() + b.len() + c.len() + 2 {
            assert(text[k] == d[k - a.len() - b.len() - c.len() - 3]);
            assert(d.contains(text[k]));
        }
    }
    crate::text::lemma_first_index_unique(s, ':', text.len() as int);
    assert(s.take(text.len() as int) =~= text);
    assert(s.skip(text.len() as int + 1) =~= decimal_spec(port as int));
    crate::text::decimal_reads_back(port as int);
}

/// Whether a character occurs in the notation of addresses: digits, colons and dots.
pub open spec fn is_address_char(c: char) -> bool {
    '0' <= c <= '9' || 'a' <= c <= 'f' || c == ':' || c == '.'
}

/// Whether all characters occur in the notation of addresses.
pub open spec fn all_address_chars(s: Seq<char>) -> bool {
    forall|i: int| 0 <= i < s.len() ==> is_address_char(#[trigger] s[i])
}

proof fn lemma_decimal_chars(n: int)
    requires
        0 <= n,
    ensures
        all_address_chars(decimal_spec(n)),
{
    crate::text::decimal_reads_back(n);
    let s = decimal_spec(n);
    assert forall|i: int| 0 <= i < s.len() implies is_address_char(#[trigger] s[i]) by {
        assert(crate::text::is_digit_spec(s[i]));
    }
}

proof fn lemma_hex_chars(n: int)
    requires
        0 <= n,
    ensures
        all_address_chars(hex_spec(n)),
    decreases n,
{
    if n >= 16 {
        lemma_hex_chars(n / 16);
    }
}

proof fn lemma_group_chars(groups: Seq<u16>)
    ensures
        all_address_chars(groups_text(groups)),
    decreases groups.len(),
{
    if groups.len() == 1 {
        lemma_hex_chars(groups[0] as int);
    } else if groups.len() > 1 {
        lemma_group_chars(groups.drop_last());
        lemma_hex_chars(groups.last() as int);
    }
}

/// Dotted decimal notation holds digits and dots.
pub proof fn lemma_ipv4_chars(address: Ipv4Addr)
    ensures
        all_address_chars(address.text_spec()),
{
    lemma_decimal_chars(address.a as int);
    lemma_decimal_chars(address.b as int);
    lemma_decimal_chars(address.c as int);
    lemma_decimal_chars(address.d as int);
}

pub(crate) proof fn lemma_ipv6_chars(groups: Seq<u16>)
    ensures
        all_address_chars(Ipv6Addr::text_spec(groups)),
{
    reveal_strlit("::ffff:");
    reveal_strlit("::");
    lemma_ipv4_chars(
        Ipv4Addr {
            a: (groups[6] / 256) as u8,
            b: (groups[6] % 256) as u8,
            c: (groups[7] / 256) as u8,
            d: (groups[7] % 256) as u8,
        },
    );
    let run = longest_zero_run(groups, 0);
    lemma_group_chars(groups.take(run.0));
    lemma_group_chars(groups.skip(run.0 + run.1));
    lemma_group_chars(groups);
}

/// The notation of an endpoint is not empty; a bracket opens at its start or nowhere, and no word
/// starts there.
pub proof fn endpoint_text_shape(address: SocketModel)
    ensures
        SocketAddr::text_spec(address).len() >= 2,
        forall|i: int|
            1 <= i < SocketAddr::text_spec(address).len() ==> #[trigger] SocketAddr::text_spec(
                address,
            )[i] != '[',
        SocketAddr::text_spec(address)[1] != 'r',
        forall|i: int|
            0 <= i < SocketAddr::text_spec(address).len() ==> {
                let c = #[trigger] SocketAddr::text_spec(address)[i];
                is_address_char(c) || c == '[' || c == ']' || c == '%'
            },
        SocketAddr::text_spec(address)[0] == '[' || crate::text::is_digit_spec(
            SocketAddr::text_spec(address)[0],
        ),
{
    reveal_strlit("]:");
    match address {
        SocketModel::V4 { address: ip, port } => {
            lemma_ipv4_chars(ip);
            lemma_decimal_chars(port as int);
            crate::text::decimal_reads_back(ip.a as int);
            assert(crate::text::is_digit_spec(decimal_spec(ip.a as int)[0]));
        },
        SocketModel::V6 { groups, port, flowinfo, scope_id } => {
            lemma_ipv6_chars(groups);
            lemma_decimal_chars(port as int);
            lemma_decimal_chars(scope_id as int);
        },
    }
}

fn same_groups(a: &[u16; 8], b: &[u16; 8]) -> (r: bool)
    ensures
        r == (a@ == b@),
{
    let mut i: usize = 0;
    while i < 8
        invariant
            i <= 8,
            forall|k: int| 0 <= k < i ==> #[trigger] a@[k] == b@[k],
        decreases 8 - i,
    {
        if a[i] != b[i] {
            return false;
        }
        i = i + 1;
    }
    assert(a@ =~= b@);
    true
}

/// Whether two endpoints are the same.
pub fn same_endpoint(a: SocketAddr, b: SocketAddr) -> (r: bool)
    ensures
        r == (a@ == b@),
{
    match (a, b) {
        (SocketAddr::V4(x), SocketAddr::V4(y)) => x.ip == y.ip && x.port == y.port,
        (SocketAddr::V6(x), SocketAddr::V6(y)) => same_groups(&x.ip.segments, &y.ip.segments)
            && x.port == y.port && x.flowinfo == y.flowinfo && x.scope_id == y.scope_id,
        _ => false,
    }
}

/// Dotted decimal notation is not empty, starts and ends with a digit, and holds digits and dots.
pub proof fn lemma_ipv4_dotted(address: Ipv4Addr)
    ensures
        address.text_spec().len() > 0,
        forall|i: int|
            0 <= i < address.text_spec().len() ==> crate::text::is_digit_spec(
                #[trigger] address.text_spec()[i],
            ) || address.text_spec()[i] == '.',
        crate::text::is_digit_spec(address.text_spec()[0]),
{
    crate::text::decimal_reads_back(address.a as int);
    crate::text::decimal_reads_back(address.b as int);
    crate::text::decimal_reads_back(address.c as int);
    crate::text::decimal_reads_back(address.d as int);
    let a = decimal_spec(address.a as int);
    let b = decimal_spec(address.b as int);
    let c = decimal_spec(address.c as int);
    let d = decimal_spec(address.d as int);
    let text = address.text_spec();
    assert forall|k: int| 0 <= k < text.len() implies crate::text::is_digit_spec(#[trigger] text[k])
        || text[k] == '.' by {
        if k < a.len() {
            assert(text[k] == a[k]);
        } else if a.len() < k < a.len() + 1 + b.len() {
            assert(text[k] == b[k - a.len() - 1]);
        } else if a.len() + b.len() + 1 < k < a.len() + b.len() + c.len() + 2 {
            assert(text[k] == c[k - a.len() - b.len() - 2]);
        } else if k > a.len() + b.len() + c.len() + 2 {
            assert(text[k] == d[k - a.len() - b.len() - c.len() - 3]);
        }
    }
    assert(text[0] == a[0]);
}

} // verus!
