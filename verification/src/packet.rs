//! IPv4, ICMP, UDP and DNS packets as byte sequences.
use crate::net::Ipv4Addr;
use crate::text::{
    ascii_lower_char, ascii_lower_spec, first_index, lemma_first_index, split, split_spec,
    trim_end_char, trim_end_char_spec, views,
};
use vstd::arithmetic::div_mod::{lemma_fundamental_div_mod, lemma_fundamental_div_mod_converse};
use vstd::prelude::*;
use vstd::slice::slice_subrange;
use vstd::string::*;
use vstd::utf8::{encode_scalar, encode_utf8, is_ascii_chars, is_ascii_chars_encode_utf8};

verus! {

pub const IPV4_HEADER_LEN: usize = 20;

/// The value of two bytes in network order.
pub open spec fn be16(high: u8, low: u8) -> int {
    high * 256 + low
}

/// The low 16 bits of `n`, in network order.
pub open spec fn be_bytes(n: int) -> Seq<u8> {
    seq![(n / 256 % 256) as u8, (n % 256) as u8]
}

/// A 16-bit number in network order.
pub open spec fn word_bytes(value: u16) -> Seq<u8> {
    be_bytes(value as int)
}

pub(crate) proof fn lemma_word_bytes(value: u16)
    ensures
        word_bytes(value).len() == 2,
        be16(word_bytes(value)[0], word_bytes(value)[1]) == value,
{
    lemma_fundamental_div_mod(value as int, 256);
}

fn word(high: u8, low: u8) -> (r: u16)
    ensures
        r == be16(high, low),
{
    high as u16 * 256 + low as u16
}

fn push_word(out: &mut Vec<u8>, value: u16)
    ensures
        final(out)@ == old(out)@ + word_bytes(value),
{
    out.push((value / 256) as u8);
    out.push((value % 256) as u8);
    assert(out@ =~= old(out)@ + word_bytes(value));
}

fn push_bytes(out: &mut Vec<u8>, bytes: &[u8])
    ensures
        final(out)@ == old(out)@ + bytes@,
{
    let mut i: usize = 0;
    assert(out@ =~= old(out)@ + bytes@.take(0));
    while i < bytes.len()
        invariant
            i <= bytes@.len(),
            out@ == old(out)@ + bytes@.take(i as int),
        decreases bytes@.len() - i,
    {
        out.push(bytes[i]);
        i = i + 1;
        assert(out@ =~= old(out)@ + bytes@.take(i as int));
    }
    assert(bytes@.take(bytes@.len() as int) =~= bytes@);
}

/// The sum of the 16-bit words of `bytes`, an odd last byte being the high half of a word.
pub open spec fn word_sum(bytes: Seq<u8>) -> int
    decreases bytes.len(),
{
    if bytes.len() == 0 {
        0
    } else if bytes.len() == 1 {
        be16(bytes[0], 0)
    } else {
        be16(bytes[0], bytes[1]) + word_sum(bytes.skip(2))
    }
}

/// The ones' complement sum of words that add up to `n`: carries are added back in.
pub open spec fn folded(n: int) -> int {
    if n == 0 {
        0
    } else {
        (n - 1) % 0xffff + 1
    }
}

/// The Internet checksum of `bytes`.
pub open spec fn checksum_spec(bytes: Seq<u8>) -> int {
    0xffff - folded(word_sum(bytes))
}

pub proof fn lemma_word_sum_nonnegative(bytes: Seq<u8>)
    ensures
        word_sum(bytes) >= 0,
    decreases bytes.len(),
{
    if bytes.len() > 1 {
        lemma_word_sum_nonnegative(bytes.skip(2));
    }
}

/// The words of a sequence of even length and of what follows it add up.
pub proof fn lemma_word_sum_concat(left: Seq<u8>, right: Seq<u8>)
    requires
        left.len() % 2 == 0,
    ensures
        word_sum(left + right) == word_sum(left) + word_sum(right),
    decreases left.len(),
{
    if left.len() == 0 {
        assert(left + right =~= right);
    } else {
        assert((left + right).skip(2) =~= left.skip(2) + right);
        lemma_word_sum_concat(left.skip(2), right);
    }
}

proof fn lemma_folded_step(n: int, word: int)
    requires
        0 <= n,
        0 <= word <= 0xffff,
    ensures
        0 <= folded(n) <= 0xffff,
        folded(n + word) == if folded(n) + word <= 0xffff {
            folded(n) + word
        } else {
            folded(n) + word - 0xffff
        },
{
    if n + word > 0 {
        let s = folded(n);
        let q = if n == 0 {
            0
        } else {
            (n - 1) / 0xffff
        };
        if n > 0 {
            lemma_fundamental_div_mod(n - 1, 0xffff);
        }
        if n == 0 {
            lemma_fundamental_div_mod_converse(word - 1, 0xffff, 0, word - 1);
        } else if s + word <= 0xffff {
            lemma_fundamental_div_mod_converse(n + word - 1, 0xffff, q, s + word - 1);
        } else {
            lemma_fundamental_div_mod_converse(n + word - 1, 0xffff, q + 1, s + word - 1 - 0xffff);
        }
    }
}

/// The Internet checksum of `bytes`.
pub fn checksum(bytes: &[u8]) -> (r: u16)
    ensures
        r == checksum_spec(bytes@),
{
    let mut sum: u32 = 0;
    let mut i: usize = 0;
    let ghost mut total: int = 0;
    assert(bytes@.skip(0) =~= bytes@);
    while i < bytes.len()
        invariant
            i <= bytes@.len(),
            0 <= total,
            total + word_sum(bytes@.skip(i as int)) == word_sum(bytes@),
            sum == folded(total),
            sum <= 0xffff,
        decreases bytes@.len() - i,
    {
        let ghost rest = bytes@.skip(i as int);
        let value: u16 = if i + 1 < bytes.len() {
            word(bytes[i], bytes[i + 1])
        } else {
            word(bytes[i], 0)
        };
        proof {
            lemma_folded_step(total, value as int);
            total = total + value;
        }
        sum = sum + value as u32;
        if sum > 0xffff {
            assert((sum & 0xffff) + (sum >> 16) == sum - 0xffff) by (bit_vector)
                requires
                    0xffff < sum <= 0x1fffe,
            ;
            sum = (sum & 0xffff) + (sum >> 16);
        }
        if i + 1 < bytes.len() {
            assert(rest.skip(2) =~= bytes@.skip(i + 2));
            i = i + 2;
        } else {
            assert(bytes@.skip(i + 1) =~= Seq::<u8>::empty());
            i = i + 1;
        }
    }
    let low: u16 = sum as u16;
    assert(!low == 0xffff - low) by (bit_vector);
    !low
}

/// Writing the checksum of a sequence into two zero bytes of it, at an even position, gives a
/// sequence whose own checksum is zero.
pub proof fn checksum_verifies(before: Seq<u8>, after: Seq<u8>)
    requires
        before.len() % 2 == 0,
    ensures
        checksum_spec(
            before + be_bytes(checksum_spec(before + be_bytes(0) + after)) + after,
        ) == 0,
{
    let s = word_sum(before + be_bytes(0) + after);
    lemma_inserted_word(before, 0, after);
    lemma_word_sum_nonnegative(before);
    lemma_word_sum_nonnegative(after);
    lemma_folded_step(s, 0);
    let c = 0xffff - folded(s);
    lemma_inserted_word(before, c, after);
    lemma_folded_step(s, c);
}

/// A zero checksum may be written as `0xffff`: the sequence still verifies.
pub proof fn checksum_verifies_when_all_ones(before: Seq<u8>, after: Seq<u8>)
    requires
        before.len() % 2 == 0,
        checksum_spec(before + be_bytes(0) + after) == 0,
    ensures
        checksum_spec(before + be_bytes(0xffff) + after) == 0,
{
    let s = word_sum(before + be_bytes(0) + after);
    lemma_inserted_word(before, 0, after);
    lemma_word_sum_nonnegative(before);
    lemma_word_sum_nonnegative(after);
    lemma_inserted_word(before, 0xffff, after);
    lemma_folded_step(s, 0xffff);
}

proof fn lemma_inserted_word(before: Seq<u8>, value: int, after: Seq<u8>)
    requires
        before.len() % 2 == 0,
        0 <= value <= 0xffff,
    ensures
        word_sum(before + be_bytes(value) + after) == word_sum(before) + value + word_sum(after),
{
    let w = be_bytes(value);
    lemma_word_sum_concat(before + w, after);
    lemma_word_sum_concat(before, w);
    assert(w.skip(2) =~= Seq::<u8>::empty());
    assert(word_sum(w) == be16(w[0], w[1]) + word_sum(w.skip(2)));
    lemma_fundamental_div_mod(value, 256);
}

/// The header of an unfragmented IPv4 packet of `total_len` bytes, with the given checksum field.
pub open spec fn ipv4_header(
    source: Ipv4Addr,
    destination: Ipv4Addr,
    protocol: u8,
    id: u16,
    total_len: int,
    sum: int,
) -> Seq<u8> {
    seq![0x45u8, 0u8] + be_bytes(total_len) + word_bytes(id) + seq![0x40u8, 0u8] + seq![
        64u8,
        protocol,
    ] + be_bytes(sum) + source.octets_spec() + destination.octets_spec()
}

/// The IPv4 packet that carries `payload`. The length field holds the low 16 bits of the length.
pub open spec fn ipv4_packet_spec(
    source: Ipv4Addr,
    destination: Ipv4Addr,
    protocol: u8,
    id: u16,
    payload: Seq<u8>,
) -> Seq<u8> {
    let total_len: int = payload.len() as int + 20;
    let sum = checksum_spec(ipv4_header(source, destination, protocol, id, total_len, 0));
    ipv4_header(source, destination, protocol, id, total_len, sum) + payload
}

fn header_bytes(
    source: Ipv4Addr,
    destination: Ipv4Addr,
    protocol: u8,
    id: u16,
    total_len: u16,
    sum: u16,
) -> (r: Vec<u8>)
    ensures
        r@ == ipv4_header(source, destination, protocol, id, total_len as int, sum as int),
{
    let mut r: Vec<u8> = Vec::new();
    r.push(0x45);
    r.push(0);
    push_word(&mut r, total_len);
    push_word(&mut r, id);
    r.push(0x40);
    r.push(0);
    r.push(64);
    r.push(protocol);
    push_word(&mut r, sum);
    push_bytes(&mut r, &source.octets());
    push_bytes(&mut r, &destination.octets());
    assert(r@ =~= ipv4_header(
        source,
        destination,
        protocol,
        id,
        total_len as int,
        sum as int,
    ));
    r
}

/// An unfragmented IPv4 packet with a valid header checksum.
pub fn ipv4_packet(
    source: Ipv4Addr,
    destination: Ipv4Addr,
    protocol: u8,
    id: u16,
    payload: &[u8],
) -> (r: Vec<u8>)
    requires
        payload@.len() + IPV4_HEADER_LEN <= usize::MAX,
    ensures
        r@ == ipv4_packet_spec(source, destination, protocol, id, payload@),
{
    let length: usize = IPV4_HEADER_LEN + payload.len();
    let total_len: u16 = (length % 0x10000) as u16;
    assert(be_bytes(total_len as int) =~= be_bytes(length as int)) by {
        lemma_low_word(length as int);
    }
    let plain = header_bytes(source, destination, protocol, id, total_len, 0);
    let sum: u16 = checksum(&plain);
    let mut packet = header_bytes(source, destination, protocol, id, total_len, sum);
    push_bytes(&mut packet, payload);
    packet
}

proof fn lemma_low_word(n: int)
    requires
        0 <= n,
    ensures
        be_bytes(n % 0x10000) == be_bytes(n),
{
    assert((n % 0x10000) % 256 == n % 256);
    assert((n % 0x10000) / 256 % 256 == n / 256 % 256);
}

/// The echo request that carries the probe's marker, with the given checksum field.
pub open spec fn echo_request_bytes(echo_id: u16, sequence: u16, sum: int) -> Seq<u8> {
    seq![8u8, 0u8] + be_bytes(sum) + word_bytes(echo_id) + word_bytes(sequence) + seq![
        0x77u8,
        0x67u8,
        0x70u8,
        0x72u8,
        0x6fu8,
        0x62u8,
        0x65u8,
        0x31u8,
    ]
}

/// The echo request with its checksum.
pub open spec fn echo_request_spec(echo_id: u16, sequence: u16) -> Seq<u8> {
    echo_request_bytes(echo_id, sequence, checksum_spec(echo_request_bytes(echo_id, sequence, 0)))
}

fn echo_bytes(echo_id: u16, sequence: u16, sum: u16) -> (r: Vec<u8>)
    ensures
        r@ == echo_request_bytes(echo_id, sequence, sum as int),
        r@.len() == 16,
{
    let mut r: Vec<u8> = Vec::new();
    r.push(8);
    r.push(0);
    push_word(&mut r, sum);
    push_word(&mut r, echo_id);
    push_word(&mut r, sequence);
    push_bytes(&mut r, &[0x77, 0x67, 0x70, 0x72, 0x6f, 0x62, 0x65, 0x31]);
    assert(r@ =~= echo_request_bytes(echo_id, sequence, sum as int));
    r
}

/// The IPv4 packet with an ICMP echo request: type 8, code 0 and the payload `wgprobe1`.
pub fn icmp_echo_request(
    source: Ipv4Addr,
    destination: Ipv4Addr,
    ip_id: u16,
    echo_id: u16,
    sequence: u16,
) -> (r: Vec<u8>)
    ensures
        r@ == ipv4_packet_spec(source, destination, 1, ip_id, echo_request_spec(echo_id, sequence)),
{
    let plain = echo_bytes(echo_id, sequence, 0);
    let sum: u16 = checksum(&plain);
    let request = echo_bytes(echo_id, sequence, sum);
    ipv4_packet(source, destination, 1, ip_id, &request)
}

/// Protocol, source, destination and payload of an unfragmented IPv4 packet with a valid header,
/// without what follows its declared length.
pub open spec fn parse_ipv4_spec(packet: Seq<u8>) -> Option<
    (u8, Ipv4Addr, Ipv4Addr, Seq<u8>),
> {
    if packet.len() < 20 || packet[0] / 16 != 4 {
        None
    } else {
        let header_len = (packet[0] % 16) * 4;
        let total_len = be16(packet[2], packet[3]);
        if header_len < 20 || total_len < header_len || total_len > packet.len() || be16(
            packet[6],
            packet[7],
        ) % 0x4000 != 0 || checksum_spec(packet.take(header_len)) != 0 {
            None
        } else {
            Some(
                (
                    packet[9],
                    Ipv4Addr { a: packet[12], b: packet[13], c: packet[14], d: packet[15] },
                    Ipv4Addr { a: packet[16], b: packet[17], c: packet[18], d: packet[19] },
                    packet.subrange(header_len, total_len),
                ),
            )
        }
    }
}

/// Protocol, source, destination and payload of an unfragmented IPv4 packet.
pub fn parse_ipv4(packet: &[u8]) -> (r: Option<(u8, Ipv4Addr, Ipv4Addr, &[u8])>)
    ensures
        match r {
            Some((protocol, source, destination, payload)) => parse_ipv4_spec(packet@) == Some(
                (protocol, source, destination, payload@),
            ) && payload@.len() <= 0xffff,
            None => parse_ipv4_spec(packet@) is None,
        },
{
    if packet.len() < IPV4_HEADER_LEN || packet[0] / 16 != 4 {
        return None;
    }
    let header_len: usize = (packet[0] % 16) as usize * 4;
    let total_len: usize = word(packet[2], packet[3]) as usize;
    let fragment: u16 = word(packet[6], packet[7]);
    if header_len < IPV4_HEADER_LEN || total_len < header_len || total_len > packet.len()
        || fragment % 0x4000 != 0 {
        return None;
    }
    let header = slice_subrange(packet, 0, header_len);
    assert(header@ =~= packet@.take(header_len as int));
    if checksum(header) != 0 {
        return None;
    }
    Some(
        (
            packet[9],
            Ipv4Addr::new(packet[12], packet[13], packet[14], packet[15]),
            Ipv4Addr::new(packet[16], packet[17], packet[18], packet[19]),
            slice_subrange(packet, header_len, total_len),
        ),
    )
}

/// A packet that `ipv4_packet` makes is read back with the same fields and payload.
pub proof fn ipv4_packet_parses(
    source: Ipv4Addr,
    destination: Ipv4Addr,
    protocol: u8,
    id: u16,
    payload: Seq<u8>,
)
    requires
        payload.len() <= 0xffff - 20,
    ensures
        parse_ipv4_spec(ipv4_packet_spec(source, destination, protocol, id, payload)) == Some(
            (protocol, source, destination, payload),
        ),
{
    let total_len: int = payload.len() as int + 20;
    let plain = ipv4_header(source, destination, protocol, id, total_len, 0);
    let sum = checksum_spec(plain);
    let header = ipv4_header(source, destination, protocol, id, total_len, sum);
    let before = seq![0x45u8, 0u8] + be_bytes(total_len) + word_bytes(id) + seq![
        0x40u8,
        0u8,
    ] + seq![64u8, protocol];
    let after = source.octets_spec() + destination.octets_spec();
    assert(plain =~= before + be_bytes(0) + after);
    assert(header =~= before + be_bytes(sum) + after);
    checksum_verifies(before, after);
    let packet = header + payload;
    assert(packet.take(20) =~= header);
    assert(packet.subrange(20, total_len) =~= payload);
    lemma_fundamental_div_mod(total_len, 256);
    assert(be16(packet[2], packet[3]) == total_len);
}

/// Whether `packet` answers the echo request with the given identifiers.
pub open spec fn is_echo_reply_spec(
    packet: Seq<u8>,
    source: Ipv4Addr,
    destination: Ipv4Addr,
    echo_id: u16,
    sequence: u16,
) -> bool {
    match parse_ipv4_spec(packet) {
        Some((protocol, packet_source, packet_destination, payload)) => {
            &&& protocol == 1
            &&& packet_source == source
            &&& packet_destination == destination
            &&& payload.len() >= 8
            &&& payload[0] == 0
            &&& payload[1] == 0
            &&& checksum_spec(payload) == 0
            &&& be16(payload[4], payload[5]) == echo_id
            &&& be16(payload[6], payload[7]) == sequence
        },
        None => false,
    }
}

/// Whether `packet` is an ICMP echo reply from `source` to `destination` with these identifiers.
pub fn is_icmp_echo_reply(
    packet: &[u8],
    source: Ipv4Addr,
    destination: Ipv4Addr,
    echo_id: u16,
    sequence: u16,
) -> (r: bool)
    ensures
        r == is_echo_reply_spec(packet@, source, destination, echo_id, sequence),
{
    match parse_ipv4(packet) {
        Some((protocol, packet_source, packet_destination, payload)) => protocol == 1
            && packet_source == source && packet_destination == destination && payload.len() >= 8
            && payload[0] == 0 && payload[1] == 0 && checksum(payload) == 0 && word(
            payload[4],
            payload[5],
        ) == echo_id && word(payload[6], payload[7]) == sequence,
        None => false,
    }
}

/// The checksum of an echo request holds.
pub(crate) proof fn lemma_echo_request_sum(echo_id: u16, sequence: u16)
    ensures
        checksum_spec(echo_request_spec(echo_id, sequence)) == 0,
        echo_request_spec(echo_id, sequence).len() == 16,
{
    let plain = echo_request_bytes(echo_id, sequence, 0);
    let before = seq![8u8, 0u8];
    let after = word_bytes(echo_id) + word_bytes(sequence) + seq![
        0x77u8,
        0x67u8,
        0x70u8,
        0x72u8,
        0x6fu8,
        0x62u8,
        0x65u8,
        0x31u8,
    ];
    assert(plain =~= before + be_bytes(0) + after);
    assert(echo_request_spec(echo_id, sequence) =~= before + be_bytes(checksum_spec(plain)) + after);
    checksum_verifies(before, after);
}

/// An echo request is never taken for a reply.
pub proof fn echo_request_is_no_reply(
    source: Ipv4Addr,
    destination: Ipv4Addr,
    ip_id: u16,
    echo_id: u16,
    sequence: u16,
    expected_source: Ipv4Addr,
    expected_destination: Ipv4Addr,
    expected_id: u16,
    expected_sequence: u16,
)
    ensures
        !is_echo_reply_spec(
            ipv4_packet_spec(source, destination, 1, ip_id, echo_request_spec(echo_id, sequence)),
            expected_source,
            expected_destination,
            expected_id,
            expected_sequence,
        ),
{
    let payload = echo_request_spec(echo_id, sequence);
    assert(payload.len() == 16 && payload[0] == 8u8);
    ipv4_packet_parses(source, destination, 1, ip_id, payload);
    lemma_reply_type(
        ipv4_packet_spec(source, destination, 1, ip_id, payload),
        expected_source,
        expected_destination,
        expected_id,
        expected_sequence,
    );
}

proof fn lemma_reply_type(
    packet: Seq<u8>,
    source: Ipv4Addr,
    destination: Ipv4Addr,
    echo_id: u16,
    sequence: u16,
)
    requires
        parse_ipv4_spec(packet) is Some,
        parse_ipv4_spec(packet).unwrap().3.len() > 0,
        parse_ipv4_spec(packet).unwrap().3[0] != 0,
    ensures
        !is_echo_reply_spec(packet, source, destination, echo_id, sequence),
{
}

/// The reply of a host to an echo request: type 0 and everything else as it came.
pub open spec fn echo_reply_bytes(echo_id: u16, sequence: u16, data: Seq<u8>, sum: int) -> Seq<
    u8,
> {
    seq![0u8, 0u8] + be_bytes(sum) + word_bytes(echo_id) + word_bytes(sequence) + data
}

/// A correctly summed reply to the request, whatever data it carries, is accepted.
pub proof fn echo_reply_is_accepted(
    source: Ipv4Addr,
    destination: Ipv4Addr,
    ip_id: u16,
    echo_id: u16,
    sequence: u16,
    data: Seq<u8>,
)
    requires
        data.len() <= 0xffff - 28,
    ensures
        is_echo_reply_spec(
            ipv4_packet_spec(
                source,
                destination,
                1,
                ip_id,
                echo_reply_bytes(
                    echo_id,
                    sequence,
                    data,
                    checksum_spec(echo_reply_bytes(echo_id, sequence, data, 0)),
                ),
            ),
            source,
            destination,
            echo_id,
            sequence,
        ),
{
    let plain = echo_reply_bytes(echo_id, sequence, data, 0);
    let sum = checksum_spec(plain);
    let payload = echo_reply_bytes(echo_id, sequence, data, sum);
    let before = seq![0u8, 0u8];
    let after = word_bytes(echo_id) + word_bytes(sequence) + data;
    assert(plain =~= before + be_bytes(0) + after);
    assert(payload =~= before + be_bytes(sum) + after);
    checksum_verifies(before, after);
    ipv4_packet_parses(source, destination, 1, ip_id, payload);
    lemma_word_bytes(echo_id);
    lemma_word_bytes(sequence);
}

/// The labels of a domain name, without the dots at its end.
pub open spec fn name_labels(name: Seq<char>) -> Seq<Seq<char>> {
    split_spec(trim_end_char_spec(name, '.'), '.')
}

/// Whether a label can be written: 1 to 63 ASCII characters.
pub open spec fn valid_label(label: Seq<char>) -> bool {
    1 <= label.len() <= 63 && is_ascii_chars(label)
}

/// The labels in wire format up to the first that cannot be written, and whether all can; then
/// the root label ends the name.
pub open spec fn encode_labels(labels: Seq<Seq<char>>) -> (bool, Seq<u8>)
    decreases labels.len(),
{
    if labels.len() == 0 {
        (true, seq![0u8])
    } else if !valid_label(labels[0]) {
        (false, Seq::empty())
    } else {
        let rest = encode_labels(labels.drop_first());
        (rest.0, seq![labels[0].len() as u8] + encode_utf8(labels[0]) + rest.1)
    }
}

/// Whether the length of `name` in bytes is allowed, dots at its end aside.
pub open spec fn valid_name_length(name: Seq<char>) -> bool {
    1 <= encode_utf8(trim_end_char_spec(name, '.')).len() <= 253
}

/// The error for a name of the wrong length.
pub const NAME_LENGTH_ERROR: &'static str = "DNS name must contain 1 to 253 characters";

/// The error for a label that cannot be written.
pub const LABEL_ERROR: &'static str = "DNS labels must contain 1 to 63 ASCII characters";

/// What writing `name` gives: the bytes appended, and the error where there is one.
pub open spec fn encode_name_spec(name: Seq<char>) -> (Option<&'static str>, Seq<u8>) {
    if !valid_name_length(name) {
        (Some(NAME_LENGTH_ERROR), Seq::empty())
    } else {
        let (ok, bytes) = encode_labels(name_labels(name));
        if ok {
            (None, bytes)
        } else {
            (Some(LABEL_ERROR), bytes)
        }
    }
}

/// Appends `name` in wire format. After an error the labels before the refused one stay.
pub fn encode_name(name: &str, output: &mut Vec<u8>) -> (r: Result<(), &'static str>)
    ensures
        final(output)@ == old(output)@ + encode_name_spec(name@).1,
        match r {
            Ok(_) => encode_name_spec(name@).0 is None,
            Err(e) => encode_name_spec(name@).0 == Some(e),
        },
{
    let base = trim_end_char(name, '.');
    if base.is_empty() || base.as_bytes().len() > 253 {
        assert(output@ =~= old(output)@ + Seq::empty());
        proof {
            lemma_empty_name(base@);
        }
        return Err(NAME_LENGTH_ERROR);
    }
    proof {
        lemma_empty_name(base@);
    }
    let labels = split(base, '.');
    let ghost all = views(labels@);
    let mut i: usize = 0;
    assert(all.skip(0) =~= all);
    assert(output@ + encode_labels(all).1 =~= old(output)@ + encode_labels(all).1);
    while i < labels.len()
        invariant
            i <= labels@.len(),
            all == views(labels@),
            all == name_labels(name@),
            valid_name_length(name@),
            encode_labels(all.skip(i as int)).0 == encode_labels(all).0,
            output@ + encode_labels(all.skip(i as int)).1 == old(output)@ + encode_labels(all).1,
        decreases labels@.len() - i,
    {
        let label = labels[i];
        let ghost rest = all.skip(i as int);
        assert(rest[0] == label@);
        assert(rest.drop_first() =~= all.skip(i + 1));
        let bytes = label.as_bytes();
        let ascii: bool = label.is_ascii();
        proof {
            lemma_label_bytes(label@);
        }
        if bytes.len() == 0 || bytes.len() > 63 || !ascii {
            assert(output@ =~= output@ + Seq::empty());
            return Err(LABEL_ERROR);
        }
        let ghost before = output@;
        output.push(bytes.len() as u8);
        push_bytes(output, bytes);
        i = i + 1;
        assert(output@ + encode_labels(all.skip(i as int)).1 =~= before + encode_labels(rest).1);
    }
    assert(all.skip(i as int) =~= Seq::empty());
    output.push(0);
    assert(encode_labels(Seq::empty()).1 =~= seq![0u8]);
    assert(output@ =~= old(output)@ + encode_labels(all).1);
    Ok(())
}

proof fn lemma_empty_name(name: Seq<char>)
    ensures
        encode_utf8(name).len() >= 1 <==> name.len() >= 1,
{
    if name.len() > 0 {
        vstd::utf8::encode_utf8_first_scalar(name);
    }
}

proof fn lemma_label_bytes(label: Seq<char>)
    ensures
        valid_label(label) <==> 1 <= encode_utf8(label).len() <= 63 && is_ascii_chars(label),
        is_ascii_chars(label) ==> encode_utf8(label).len() == label.len(),
{
    if is_ascii_chars(label) {
        is_ascii_chars_encode_utf8(label);
    }
}

/// Where the name at `offset` ends, after `jumps` compression pointers and with `expanded` bytes
/// of its uncompressed form read. A pointer must lead backwards and ends the name on the wire; at
/// most 128 pointers are followed, and the uncompressed name has at most 255 bytes.
pub open spec fn skip_name_from(
    packet: Seq<u8>,
    offset: int,
    jumps: int,
    expanded: int,
) -> Option<int>
    decreases 129 - jumps + 256 - expanded,
{
    if jumps > 128 || expanded > 255 || !(0 <= offset < packet.len()) {
        None
    } else {
        let length = packet[offset] as int;
        if length >= 0xc0 {
            if offset + 1 >= packet.len() {
                None
            } else {
                let target = (length - 0xc0) * 256 + packet[offset + 1];
                if target >= offset || skip_name_from(packet, target, jumps + 1, expanded) is None {
                    None
                } else {
                    Some(offset + 2)
                }
            }
        } else if length == 0 {
            Some(offset + 1)
        } else if length > 63 || expanded + length + 1 > 255 || offset + 1 + length
            > packet.len() {
            None
        } else {
            skip_name_from(packet, offset + 1 + length, jumps, expanded + length + 1)
        }
    }
}

/// Where the name at `offset` ends in the packet, if it is well formed.
pub open spec fn skip_name_spec(packet: Seq<u8>, offset: int) -> Option<int> {
    skip_name_from(packet, offset, 0, 1)
}

/// Where the name at `offset` ends in the packet, if it is well formed.
pub fn skip_name(packet: &[u8], offset: usize) -> (r: Option<usize>)
    ensures
        match r {
            Some(end) => skip_name_spec(packet@, offset as int) == Some(end as int) && end
                <= packet@.len(),
            None => skip_name_spec(packet@, offset as int) is None,
        },
{
    let mut at: usize = offset;
    let mut end: Option<usize> = None;
    let mut jumps: usize = 0;
    let mut expanded: usize = 1;
    loop
        invariant
            jumps <= 128,
            1 <= expanded <= 255,
            end matches Some(e) ==> e <= packet@.len(),
            skip_name_spec(packet@, offset as int) == (match end {
                Some(e) => if skip_name_from(
                    packet@,
                    at as int,
                    jumps as int,
                    expanded as int,
                ) is Some {
                    Some(e as int)
                } else {
                    None
                },
                None => skip_name_from(packet@, at as int, jumps as int, expanded as int),
            }),
        decreases 129 - jumps + 256 - expanded,
    {
        if at >= packet.len() {
            return None;
        }
        let length: usize = packet[at] as usize;
        if length >= 0xc0 {
            if at + 1 >= packet.len() {
                return None;
            }
            let target: usize = (length - 0xc0) * 256 + packet[at + 1] as usize;
            if target >= at {
                return None;
            }
            if end.is_none() {
                end = Some(at + 2);
            }
            at = target;
            jumps = jumps + 1;
            if jumps > 128 {
                return None;
            }
            continue;
        }
        at = at + 1;
        if length == 0 {
            return match end {
                Some(e) => Some(e),
                None => Some(at),
            };
        }
        if length > 63 || expanded + length + 1 > 255 || length > packet.len() - at {
            return None;
        }
        expanded = expanded + length + 1;
        at = at + length;
    }
}

/// The lower-case form of an ASCII letter; other bytes are unchanged.
pub open spec fn lower_byte(b: u8) -> u8 {
    if 65 <= b <= 90 {
        (b + 32) as u8
    } else {
        b
    }
}

/// Whether two byte strings are equal but for the case of ASCII letters.
pub open spec fn same_ignoring_case(a: Seq<u8>, b: Seq<u8>) -> bool {
    a.len() == b.len() && forall|i: int|
        #![trigger a[i]]
        #![trigger b[i]]
        0 <= i < a.len() ==> lower_byte(a[i]) == lower_byte(b[i])
}

fn lower(b: u8) -> (r: u8)
    ensures
        r == lower_byte(b),
{
    if 65 <= b && b <= 90 {
        b + 32
    } else {
        b
    }
}

fn equal_ignoring_case(a: &[u8], b: &[u8]) -> (r: bool)
    ensures
        r == same_ignoring_case(a@, b@),
{
    if a.len() != b.len() {
        return false;
    }
    let mut i: usize = 0;
    while i < a.len()
        invariant
            i <= a@.len(),
            a@.len() == b@.len(),
            forall|k: int|
                #![trigger a@[k]]
                #![trigger b@[k]]
                0 <= k < i ==> lower_byte(a@[k]) == lower_byte(b@[k]),
        decreases a@.len() - i,
    {
        if lower(a[i]) != lower(b[i]) {
            return false;
        }
        i = i + 1;
    }
    true
}

/// Whether the name at `offset` is made of `labels`, ASCII case aside, and where its reading
/// stopped. Reading stops with `false` behind the first label that differs; a malformed name
/// gives `None` if the fault comes before that.
pub open spec fn name_matches_from(
    packet: Seq<u8>,
    offset: int,
    labels: Seq<Seq<char>>,
    jumps: int,
    expanded: int,
) -> Option<(bool, int)>
    decreases 129 - jumps + 256 - expanded,
{
    if jumps > 128 || expanded > 255 || !(0 <= offset < packet.len()) {
        None
    } else {
        let length = packet[offset] as int;
        if length >= 0xc0 {
            if offset + 1 >= packet.len() {
                None
            } else {
                let target = (length - 0xc0) * 256 + packet[offset + 1];
                if target >= offset {
                    None
                } else {
                    match name_matches_from(packet, target, labels, jumps + 1, expanded) {
                        Some((matched, _)) => Some((matched, offset + 2)),
                        None => None,
                    }
                }
            }
        } else if length == 0 {
            Some((labels.len() == 0, offset + 1))
        } else if length > 63 || expanded + length + 1 > 255 || offset + 1 + length
            > packet.len() {
            None
        } else if labels.len() == 0 || !same_ignoring_case(
            packet.subrange(offset + 1, offset + 1 + length),
            encode_utf8(labels[0]),
        ) {
            Some((false, offset + 1 + length))
        } else {
            name_matches_from(
                packet,
                offset + 1 + length,
                labels.drop_first(),
                jumps,
                expanded + length + 1,
            )
        }
    }
}

/// Whether the name at `start` is `expected`, ASCII case and dots at the end aside, and where
/// its reading stopped.
pub open spec fn name_matches_spec(
    packet: Seq<u8>,
    start: int,
    expected: Seq<char>,
) -> Option<(bool, int)> {
    name_matches_from(packet, start, name_labels(expected), 0, 1)
}

/// Whether the name at `start` is `expected`, and where its reading stopped.
pub fn name_matches(packet: &[u8], start: usize, expected: &str) -> (r: Option<(bool, usize)>)
    ensures
        match r {
            Some((matched, end)) => name_matches_spec(packet@, start as int, expected@) == Some(
                (matched, end as int),
            ) && end <= packet@.len(),
            None => name_matches_spec(packet@, start as int, expected@) is None,
        },
{
    let labels = split(trim_end_char(expected, '.'), '.');
    let ghost all = views(labels@);
    let mut next: usize = 0;
    let mut at: usize = start;
    let mut end: Option<usize> = None;
    let mut jumps: usize = 0;
    let mut expanded: usize = 1;
    assert(all.skip(0) =~= all);
    loop
        invariant
            all == views(labels@),
            next <= labels@.len(),
            jumps <= 128,
            1 <= expanded <= 255,
            end matches Some(e) ==> e <= packet@.len(),
            name_matches_spec(packet@, start as int, expected@) == (match end {
                Some(e) => match name_matches_from(
                    packet@,
                    at as int,
                    all.skip(next as int),
                    jumps as int,
                    expanded as int,
                ) {
                    Some((matched, _)) => Some((matched, e as int)),
                    None => None,
                },
                None => name_matches_from(
                    packet@,
                    at as int,
                    all.skip(next as int),
                    jumps as int,
                    expanded as int,
                ),
            }),
        decreases 129 - jumps + 256 - expanded,
    {
        if at >= packet.len() {
            return None;
        }
        let length: usize = packet[at] as usize;
        if length >= 0xc0 {
            if at + 1 >= packet.len() {
                return None;
            }
            let target: usize = (length - 0xc0) * 256 + packet[at + 1] as usize;
            if target >= at {
                return None;
            }
            if end.is_none() {
                end = Some(at + 2);
            }
            at = target;
            jumps = jumps + 1;
            if jumps > 128 {
                return None;
            }
            continue;
        }
        at = at + 1;
        if length == 0 {
            let matched: bool = next == labels.len();
            return match end {
                Some(e) => Some((matched, e)),
                None => Some((matched, at)),
            };
        }
        if length > 63 || expanded + length + 1 > 255 || length > packet.len() - at {
            return None;
        }
        let label = slice_subrange(packet, at, at + length);
        expanded = expanded + length + 1;
        at = at + length;
        if next == labels.len() || !equal_ignoring_case(label, labels[next].as_bytes()) {
            return match end {
                Some(e) => Some((false, e)),
                None => Some((false, at)),
            };
        }
        assert(all.skip(next as int).drop_first() =~= all.skip(next + 1));
        next = next + 1;
    }
}

/// The bytes over which a UDP checksum is taken: pseudo header, then the datagram.
pub open spec fn udp_summed(source: Ipv4Addr, destination: Ipv4Addr, udp: Seq<u8>) -> Seq<u8> {
    source.octets_spec() + destination.octets_spec() + seq![0u8, 17u8] + be_bytes(
        udp.len() as int,
    ) + udp
}

/// The UDP checksum of a datagram between two addresses.
pub fn udp_checksum(source: Ipv4Addr, destination: Ipv4Addr, udp: &[u8]) -> (r: u16)
    ensures
        r == checksum_spec(udp_summed(source, destination, udp@)),
{
    let mut pseudo: Vec<u8> = Vec::new();
    push_bytes(&mut pseudo, &source.octets());
    push_bytes(&mut pseudo, &destination.octets());
    pseudo.push(0);
    pseudo.push(17);
    push_word(&mut pseudo, (udp.len() % 0x10000) as u16);
    push_bytes(&mut pseudo, udp);
    proof {
        lemma_low_word(udp@.len() as int);
    }
    assert(pseudo@ =~= udp_summed(source, destination, udp@));
    checksum(&pseudo)
}

/// A DNS message with one question, for the IPv4 addresses of an encoded name.
pub open spec fn dns_message(transaction_id: u16, name: Seq<u8>) -> Seq<u8> {
    word_bytes(transaction_id) + seq![1u8, 0u8, 0u8, 1u8, 0u8, 0u8, 0u8, 0u8, 0u8, 0u8] + name
        + seq![0u8, 1u8, 0u8, 1u8]
}

/// A UDP datagram with the given checksum field.
pub open spec fn udp_datagram(
    source_port: u16,
    destination_port: u16,
    message: Seq<u8>,
    sum: int,
) -> Seq<u8> {
    word_bytes(source_port) + word_bytes(destination_port) + be_bytes(message.len() as int + 8)
        + be_bytes(sum) + message
}

/// The checksum field of a datagram: an all-zero checksum is sent as all ones.
pub open spec fn udp_sum_field(sum: int) -> int {
    if sum == 0 {
        0xffff
    } else {
        sum
    }
}

/// The UDP datagram with its checksum.
pub open spec fn udp_datagram_summed(
    source: Ipv4Addr,
    destination: Ipv4Addr,
    source_port: u16,
    destination_port: u16,
    message: Seq<u8>,
) -> Seq<u8> {
    let plain = udp_datagram(source_port, destination_port, message, 0);
    let sum = checksum_spec(udp_summed(source, destination, plain));
    udp_datagram(source_port, destination_port, message, udp_sum_field(sum))
}

/// The IPv4 packet that asks `destination` for the addresses of an encoded name.
pub open spec fn dns_query_spec(
    source: Ipv4Addr,
    destination: Ipv4Addr,
    source_port: u16,
    transaction_id: u16,
    ip_id: u16,
    name: Seq<u8>,
) -> Seq<u8> {
    ipv4_packet_spec(
        source,
        destination,
        17,
        ip_id,
        udp_datagram_summed(
            source,
            destination,
            source_port,
            53,
            dns_message(transaction_id, name),
        ),
    )
}

fn datagram_bytes(source_port: u16, message: &[u8], sum: u16) -> (r: Vec<u8>)
    requires
        message@.len() + 8 <= 0xffff,
    ensures
        r@ == udp_datagram(source_port, 53, message@, sum as int),
{
    let mut r: Vec<u8> = Vec::new();
    push_word(&mut r, source_port);
    push_word(&mut r, 53);
    push_word(&mut r, (message.len() + 8) as u16);
    push_word(&mut r, sum);
    push_bytes(&mut r, message);
    assert(r@ =~= udp_datagram(source_port, 53, message@, sum as int));
    r
}

/// The IPv4 packet with a UDP query for the IPv4 addresses of `name`.
pub fn dns_query(
    source: Ipv4Addr,
    destination: Ipv4Addr,
    source_port: u16,
    transaction_id: u16,
    ip_id: u16,
    name: &str,
) -> (r: Result<Vec<u8>, &'static str>)
    ensures
        match r {
            Ok(packet) => encode_name_spec(name@).0 is None && packet@ == dns_query_spec(
                source,
                destination,
                source_port,
                transaction_id,
                ip_id,
                encode_name_spec(name@).1,
            ),
            Err(e) => encode_name_spec(name@).0 == Some(e),
        },
{
    let mut dns: Vec<u8> = Vec::new();
    push_word(&mut dns, transaction_id);
    push_bytes(&mut dns, &[1, 0, 0, 1, 0, 0, 0, 0, 0, 0]);
    if let Err(e) = encode_name(name, &mut dns) {
        return Err(e);
    }
    push_bytes(&mut dns, &[0, 1, 0, 1]);
    let ghost encoded = encode_name_spec(name@).1;
    proof {
        lemma_encoded_length(name@);
    }
    assert(dns@ =~= dns_message(transaction_id, encoded));
    let plain = datagram_bytes(source_port, &dns, 0);
    let sum: u16 = match udp_checksum(source, destination, &plain) {
        0 => 0xffff,
        sum => sum,
    };
    let udp = datagram_bytes(source_port, &dns, sum);
    Ok(ipv4_packet(source, destination, 17, ip_id, &udp))
}

/// The bytes of the labels, each with its length byte.
pub open spec fn labels_length(labels: Seq<Seq<char>>) -> int
    decreases labels.len(),
{
    if labels.len() == 0 {
        0
    } else {
        labels[0].len() + 1 + labels_length(labels.drop_first())
    }
}

proof fn lemma_labels_length(name: Seq<char>, sep: char)
    ensures
        labels_length(split_spec(name, sep)) == name.len() + 1,
    decreases name.len(),
{
    lemma_first_index(name, sep);
    let i = first_index(name, sep);
    if i < name.len() {
        let rest = name.skip(i + 1);
        lemma_labels_length(rest, sep);
        assert((seq![name.take(i)] + split_spec(rest, sep)).drop_first() =~= split_spec(rest, sep));
    } else {
        assert(seq![name].drop_first() =~= Seq::<Seq<char>>::empty());
        reveal_with_fuel(labels_length, 2);
    }
}

proof fn lemma_encoded_labels_length(labels: Seq<Seq<char>>)
    ensures
        encode_labels(labels).0 ==> encode_labels(labels).1.len() == labels_length(labels) + 1,
    decreases labels.len(),
{
    if labels.len() > 0 && valid_label(labels[0]) {
        lemma_label_bytes(labels[0]);
        lemma_encoded_labels_length(labels.drop_first());
    }
}

/// Characters take at least one byte each.
proof fn lemma_utf8_length(s: Seq<char>)
    ensures
        s.len() <= encode_utf8(s).len(),
    decreases s.len(),
{
    if s.len() > 0 {
        lemma_utf8_length(s.drop_first());
    }
}

pub(crate) proof fn lemma_encoded_length(name: Seq<char>)
    requires
        encode_name_spec(name).0 is None,
    ensures
        encode_name_spec(name).1.len() <= 255,
        labels_length(name_labels(name)) <= 254,
        encode_name_spec(name).1.len() == labels_length(name_labels(name)) + 1,
{
    let base = trim_end_char_spec(name, '.');
    lemma_utf8_length(base);
    lemma_labels_length(base, '.');
    lemma_encoded_labels_length(name_labels(name));
}

/// Whether two lists of labels are equal but for the case of ASCII letters.
pub open spec fn same_labels(a: Seq<Seq<char>>, b: Seq<Seq<char>>) -> bool {
    a.len() == b.len() && forall|i: int|
        #![trigger a[i]]
        #![trigger b[i]]
        0 <= i < a.len() ==> same_ignoring_case(encode_utf8(a[i]), encode_utf8(b[i]))
}

/// Whether two names are equal but for the case of ASCII letters and for dots at their ends.
pub open spec fn same_name(a: Seq<char>, b: Seq<char>) -> bool {
    ascii_lower_spec(trim_end_char_spec(a, '.')) == ascii_lower_spec(trim_end_char_spec(b, '.'))
}

/// ASCII characters are equal but for their case where their bytes are, and no other character is
/// equal to one.
proof fn lemma_lower_pair(x: char, y: char)
    requires
        x <= '\u{7f}',
    ensures
        y <= '\u{7f}' ==> ((ascii_lower_char(x) == ascii_lower_char(y)) == (lower_byte(x as u8)
            == lower_byte(y as u8))),
        y > '\u{7f}' ==> ascii_lower_char(x) != ascii_lower_char(y),
{
}

proof fn lemma_leading_byte(c: char)
    requires
        c > '\u{7f}',
    ensures
        encode_scalar(c as u32).len() > 0,
        encode_scalar(c as u32)[0] >= 0x80,
{
    let v = c as u32;
    assert((0xC0u8 | ((v >> 6) & 0x1F) as u8) >= 0x80 && (0xE0u8 | ((v >> 12) & 0x0F) as u8) >= 0x80
        && (0xF0u8 | ((v >> 18) & 0x7) as u8) >= 0x80) by (bit_vector);
}

proof fn lemma_lowest_char(c: char)
    ensures
        '\0' <= c,
{
}

/// A text with a character outside ASCII has a byte outside ASCII in its encoding.
proof fn lemma_high_byte(s: Seq<char>) -> (k: int)
    requires
        !is_ascii_chars(s),
    ensures
        0 <= k < encode_utf8(s).len(),
        encode_utf8(s)[k] >= 0x80,
    decreases s.len(),
{
    if s.len() == 0 {
        0
    } else {
        let head = encode_scalar(s[0] as u32);
        if s[0] > '\u{7f}' {
            lemma_leading_byte(s[0]);
            assert(encode_utf8(s)[0] == head[0]);
            0
        } else {
            let rest = s.drop_first();
            lemma_lowest_char(s[0]);
            assert(!is_ascii_chars(rest)) by {
                let m = choose|m: int| 0 <= m < s.len() && !('\0' <= #[trigger] s[m] <= '\u{7f}');
                assert(rest[m - 1] == s[m]);
            }
            let k = lemma_high_byte(rest);
            assert(encode_utf8(s)[head.len() + k] == encode_utf8(rest)[k]);
            head.len() + k
        }
    }
}

/// The bytes of an ASCII text are equal to those of another, case aside, where the texts are.
proof fn lemma_same_label(a: Seq<char>, b: Seq<char>)
    requires
        is_ascii_chars(a),
    ensures
        same_ignoring_case(encode_utf8(a), encode_utf8(b)) == (ascii_lower_spec(a)
            == ascii_lower_spec(b)),
{
    is_ascii_chars_encode_utf8(a);
    let x = ascii_lower_spec(a);
    let y = ascii_lower_spec(b);
    if is_ascii_chars(b) {
        is_ascii_chars_encode_utf8(b);
        assert forall|i: int| 0 <= i < a.len() && i < b.len() implies (x[i] == y[i]) == (
        lower_byte(encode_utf8(a)[i]) == lower_byte(encode_utf8(b)[i])) by {
            assert(a[i] <= '\u{7f}' && b[i] <= '\u{7f}');
            lemma_lower_pair(a[i], b[i]);
        }
        if same_ignoring_case(encode_utf8(a), encode_utf8(b)) {
            assert(x =~= y);
        }
        if x == y {
            assert(x.len() == a.len() && y.len() == b.len());
            assert forall|i: int| 0 <= i < a.len() implies lower_byte(encode_utf8(a)[i])
                == lower_byte(encode_utf8(b)[i]) by {
                assert(x[i] == y[i]);
            }
        }
    } else {
        let k = lemma_high_byte(b);
        if same_ignoring_case(encode_utf8(a), encode_utf8(b)) {
            assert(lower_byte(encode_utf8(a)[k]) == lower_byte(encode_utf8(b)[k]));
            assert(a[k] as u8 == encode_utf8(a)[k]);
            assert(a[k] <= '\u{7f}');
            assert(false);
        }
        if x == y {
            let m = choose|m: int| 0 <= m < b.len() && !('\0' <= #[trigger] b[m] <= '\u{7f}');
            assert(x.len() == a.len() && y.len() == b.len());
            assert(x[m] == y[m]);
            assert(a[m] <= '\u{7f}');
            lemma_lower_pair(a[m], b[m]);
            assert(false);
        }
    }
}

proof fn lemma_lower_dot(c: char)
    ensures
        (ascii_lower_char(c) == '.') == (c == '.'),
{
}

/// Texts equal but for case have their dots in the same places.
proof fn lemma_same_dots(a: Seq<char>, b: Seq<char>)
    requires
        ascii_lower_spec(a) == ascii_lower_spec(b),
    ensures
        a.len() == b.len(),
        first_index(a, '.') == first_index(b, '.'),
{
    let x = ascii_lower_spec(a);
    let y = ascii_lower_spec(b);
    assert(x.len() == a.len() && y.len() == b.len());
    lemma_first_index(a, '.');
    let i = first_index(a, '.');
    assert forall|k: int| 0 <= k < a.len() implies (a[k] == '.') == (#[trigger] b[k] == '.') by {
        assert(x[k] == y[k]);
        lemma_lower_dot(a[k]);
        lemma_lower_dot(b[k]);
    }
    crate::text::lemma_first_index_unique(b, '.', i);
}

/// The labels of two texts are equal but for case where the texts are.
proof fn lemma_same_labels(a: Seq<char>, b: Seq<char>)
    requires
        encode_labels(split_spec(a, '.')).0,
    ensures
        same_labels(split_spec(a, '.'), split_spec(b, '.')) == (ascii_lower_spec(a)
            == ascii_lower_spec(b)),
    decreases a.len(),
{
    lemma_first_index(a, '.');
    lemma_first_index(b, '.');
    let i = first_index(a, '.');
    let j = first_index(b, '.');
    let s = split_spec(a, '.');
    let t = split_spec(b, '.');
    if ascii_lower_spec(a) == ascii_lower_spec(b) {
        lemma_same_dots(a, b);
    }
    if i < a.len() && j < b.len() {
        let p = a.skip(i + 1);
        let q = b.skip(j + 1);
        assert(s.drop_first() =~= split_spec(p, '.'));
        assert(t.drop_first() =~= split_spec(q, '.'));
        assert(s[0] == a.take(i) && t[0] == b.take(j));
        assert(valid_label(s[0]));
        lemma_same_label(a.take(i), b.take(j));
        lemma_same_labels(p, q);
        lemma_first_label(s, t);
        lemma_lower_parts(a, i);
        lemma_lower_parts(b, j);
        if same_labels(s, t) {
            assert(ascii_lower_spec(a.take(i)).len() == i);
            assert(ascii_lower_spec(b.take(j)).len() == j);
        }
    } else if i >= a.len() && j >= b.len() {
        assert(s == seq![a] && t == seq![b]);
        assert(valid_label(s[0]));
        lemma_same_label(a, b);
    } else if i < a.len() {
        lemma_split_length(a.skip(i + 1));
        assert(s.len() >= 2 && t.len() == 1);
    } else {
        lemma_split_length(b.skip(j + 1));
        assert(t.len() >= 2 && s.len() == 1);
    }
}

proof fn lemma_split_length(s: Seq<char>)
    ensures
        split_spec(s, '.').len() >= 1,
{
}

/// The lower-case form of a text with a dot in it, by its parts.
proof fn lemma_lower_parts(s: Seq<char>, i: int)
    requires
        0 <= i < s.len(),
        s[i] == '.',
    ensures
        ascii_lower_spec(s) == ascii_lower_spec(s.take(i)) + seq!['.'] + ascii_lower_spec(
            s.skip(i + 1),
        ),
        ascii_lower_spec(s).take(i) == ascii_lower_spec(s.take(i)),
        ascii_lower_spec(s).skip(i + 1) == ascii_lower_spec(s.skip(i + 1)),
{
    lemma_lower_dot('.');
    assert(ascii_lower_spec(s) =~= ascii_lower_spec(s.take(i)) + seq!['.'] + ascii_lower_spec(
        s.skip(i + 1),
    ));
    assert(ascii_lower_spec(s).take(i) =~= ascii_lower_spec(s.take(i)));
    assert(ascii_lower_spec(s).skip(i + 1) =~= ascii_lower_spec(s.skip(i + 1)));
}

proof fn lemma_encoded_labels_match(
    before: Seq<u8>,
    labels: Seq<Seq<char>>,
    after: Seq<u8>,
    expected: Seq<Seq<char>>,
    jumps: int,
    expanded: int,
)
    requires
        encode_labels(labels).0,
        0 <= jumps <= 128,
        1 <= expanded,
        expanded + labels_length(labels) <= 255,
    ensures
        name_matches_from(
            before + encode_labels(labels).1 + after,
            before.len() as int,
            expected,
            jumps,
            expanded,
        ) matches Some((matched, end)) && matched == same_labels(labels, expected) && (matched
            ==> end == before.len() as int + encode_labels(labels).1.len()),
        skip_name_from(
            before + encode_labels(labels).1 + after,
            before.len() as int,
            jumps,
            expanded,
        ) == Some(before.len() as int + encode_labels(labels).1.len()),
    decreases labels.len(),
{
    let packet = before + encode_labels(labels).1 + after;
    if labels.len() > 0 {
        let label = labels[0];
        let rest = labels.drop_first();
        lemma_label_bytes(label);
        let bytes = encode_utf8(label);
        let head = seq![label.len() as u8] + bytes;
        let longer = before + head;
        assert(packet =~= longer + encode_labels(rest).1 + after);
        lemma_labels_nonnegative(rest);
        assert(packet[before.len() as int] == label.len() as u8);
        assert(packet.subrange(before.len() as int + 1, before.len() as int + 1 + label.len()) =~= bytes);
        lemma_encoded_labels_match(
            longer,
            rest,
            after,
            expected.drop_first(),
            jumps,
            expanded + label.len() + 1,
        );
        assert(longer.len() == before.len() + 1 + label.len());
        if expected.len() > 0 {
            lemma_first_label(labels, expected);
        }
    } else {
        assert(packet[before.len() as int] == 0);
    }
}

/// Lists of labels are equal but for case where their first labels and the rest are.
proof fn lemma_first_label(s: Seq<Seq<char>>, t: Seq<Seq<char>>)
    requires
        s.len() > 0,
        t.len() > 0,
    ensures
        same_labels(s, t) == (same_ignoring_case(encode_utf8(s[0]), encode_utf8(t[0]))
            && same_labels(s.drop_first(), t.drop_first())),
{
    if same_ignoring_case(encode_utf8(s[0]), encode_utf8(t[0])) && same_labels(
        s.drop_first(),
        t.drop_first(),
    ) {
        assert forall|k: int|
            #![trigger s[k]]
            #![trigger t[k]]
            0 <= k < s.len() implies same_ignoring_case(encode_utf8(s[k]), encode_utf8(t[k])) by {
            if k > 0 {
                assert(s.drop_first()[k - 1] == s[k]);
                assert(t.drop_first()[k - 1] == t[k]);
            }
        }
    }
    if same_labels(s, t) {
        assert forall|k: int|
            #![trigger s.drop_first()[k]]
            #![trigger t.drop_first()[k]]
            0 <= k < s.drop_first().len() implies same_ignoring_case(
            encode_utf8(s.drop_first()[k]),
            encode_utf8(t.drop_first()[k]),
        ) by {
            assert(s.drop_first()[k] == s[k + 1]);
            assert(t.drop_first()[k] == t[k + 1]);
        }
    }
}

proof fn lemma_labels_nonnegative(labels: Seq<Seq<char>>)
    ensures
        labels_length(labels) >= 0,
    decreases labels.len(),
{
    if labels.len() > 0 {
        lemma_labels_nonnegative(labels.drop_first());
    }
}

/// A name written by `encode_name` anywhere in a packet is found there under exactly those spellings
/// that differ from it in the case of ASCII letters or in dots at the end, and is skipped as a
/// whole.
pub proof fn encoded_name_matches(
    before: Seq<u8>,
    name: Seq<char>,
    after: Seq<u8>,
    expected: Seq<char>,
)
    requires
        encode_name_spec(name).0 is None,
    ensures
        name_matches_spec(
            before + encode_name_spec(name).1 + after,
            before.len() as int,
            expected,
        ) matches Some((matched, end)) && matched == same_name(name, expected) && (matched ==> end
            == before.len() as int + encode_name_spec(name).1.len()),
        skip_name_spec(before + encode_name_spec(name).1 + after, before.len() as int) == Some(
            before.len() as int + encode_name_spec(name).1.len(),
        ),
{
    lemma_encoded_length(name);
    lemma_encoded_labels_match(before, name_labels(name), after, name_labels(expected), 0, 1);
    lemma_same_labels(trim_end_char_spec(name, '.'), trim_end_char_spec(expected, '.'));
}

/// A pointer back to a name that `encode_name` wrote reads as that name, under exactly those
/// spellings under which the name itself is found, and ends it on the wire.
pub proof fn pointer_to_encoded_name_matches(
    before: Seq<u8>,
    name: Seq<char>,
    after: Seq<u8>,
    expected: Seq<char>,
    at: int,
)
    requires
        encode_name_spec(name).0 is None,
        before.len() < at,
        at + 1 < (before + encode_name_spec(name).1 + after).len(),
        (before + encode_name_spec(name).1 + after)[at] == 0xc0 + before.len() / 256,
        (before + encode_name_spec(name).1 + after)[at + 1] == before.len() % 256,
    ensures
        name_matches_spec(before + encode_name_spec(name).1 + after, at, expected) == Some(
            (same_name(name, expected), at + 2),
        ),
        skip_name_spec(before + encode_name_spec(name).1 + after, at) == Some(at + 2),
{
    lemma_encoded_length(name);
    lemma_encoded_labels_match(before, name_labels(name), after, name_labels(expected), 1, 1);
    lemma_same_labels(trim_end_char_spec(name, '.'), trim_end_char_spec(expected, '.'));
    lemma_fundamental_div_mod(before.len() as int, 256);
    let packet = before + encode_name_spec(name).1 + after;
    assert((packet[at] - 0xc0) * 256 + packet[at + 1] == before.len());
}

proof fn lemma_matched_name_end(
    packet: Seq<u8>,
    offset: int,
    labels: Seq<Seq<char>>,
    jumps: int,
    expanded: int,
)
    ensures
        name_matches_from(packet, offset, labels, jumps, expanded) matches Some((matched, end))
            && matched ==> skip_name_from(packet, offset, jumps, expanded) == Some(
            name_matches_from(packet, offset, labels, jumps, expanded).unwrap().1,
        ),
    decreases 129 - jumps + 256 - expanded,
{
    if !(jumps > 128 || expanded > 255 || !(0 <= offset < packet.len())) {
        let length = packet[offset] as int;
        if length >= 0xc0 {
            if offset + 1 < packet.len() {
                let target = (length - 0xc0) * 256 + packet[offset + 1];
                lemma_matched_name_end(packet, target, labels, jumps + 1, expanded);
            }
        } else if 0 < length <= 63 && expanded + length + 1 <= 255 && labels.len() > 0 {
            lemma_matched_name_end(
                packet,
                offset + 1 + length,
                labels.drop_first(),
                jumps,
                expanded + length + 1,
            );
        }
    }
}

/// A name that matches is well formed, and ends where skipping it ends.
pub proof fn matched_name_is_skipped(packet: Seq<u8>, start: int, expected: Seq<char>)
    ensures
        name_matches_spec(packet, start, expected) matches Some((matched, end)) && matched
            ==> skip_name_spec(packet, start) == Some(
            name_matches_spec(packet, start, expected).unwrap().1,
        ),
{
    lemma_matched_name_end(packet, start, name_labels(expected), 0, 1);
}

/// A pointer that does not lead backwards makes the name malformed.
pub proof fn forward_pointer_is_rejected(packet: Seq<u8>, at: int, expected: Seq<char>)
    requires
        0 <= at,
        at + 1 < packet.len(),
        packet[at] >= 0xc0,
        (packet[at] - 0xc0) * 256 + packet[at + 1] >= at,
    ensures
        name_matches_spec(packet, at, expected) is None,
        skip_name_spec(packet, at) is None,
{
}

/// Where `count` questions that start at `offset` end.
pub open spec fn skip_questions(dns: Seq<u8>, offset: int, count: int) -> Option<int>
    decreases count,
{
    if count <= 0 {
        Some(offset)
    } else {
        match skip_name_spec(dns, offset) {
            None => None,
            Some(end) => if end + 4 > dns.len() {
                None
            } else {
                skip_questions(dns, end + 4, count - 1)
            },
        }
    }
}

/// The IPv4 addresses among `count` records that start at `offset`, if all are well formed.
pub open spec fn a_records(dns: Seq<u8>, offset: int, count: int) -> Option<Seq<Ipv4Addr>>
    decreases count,
{
    if count <= 0 {
        Some(Seq::empty())
    } else {
        match skip_name_spec(dns, offset) {
            None => None,
            Some(end) => if end + 10 > dns.len() {
                None
            } else {
                let length = be16(dns[end + 8], dns[end + 9]);
                let data = end + 10;
                if data + length > dns.len() {
                    None
                } else {
                    match a_records(dns, data + length, count - 1) {
                        None => None,
                        Some(rest) => if be16(dns[end], dns[end + 1]) == 1 && be16(
                            dns[end + 2],
                            dns[end + 3],
                        ) == 1 && length == 4 {
                            Some(
                                seq![
                                    Ipv4Addr {
                                        a: dns[data],
                                        b: dns[data + 1],
                                        c: dns[data + 2],
                                        d: dns[data + 3],
                                    },
                                ] + rest,
                            )
                        } else {
                            Some(rest)
                        },
                    }
                }
            },
        }
    }
}

/// The addresses that a DNS message answers to the question for `name`.
pub open spec fn dns_answers(dns: Seq<u8>, transaction_id: u16, name: Seq<char>) -> Option<
    Seq<Ipv4Addr>,
> {
    let questions = be16(dns[4], dns[5]);
    if dns.len() < 12 || be16(dns[0], dns[1]) != transaction_id || dns[2] < 0x80 || questions
        == 0 {
        None
    } else {
        match name_matches_spec(dns, 12, name) {
            Some((matched, end)) => if !matched || end + 4 > dns.len() || be16(
                dns[end],
                dns[end + 1],
            ) != 1 || be16(dns[end + 2], dns[end + 3]) != 1 {
                None
            } else {
                match skip_questions(dns, end + 4, questions - 1) {
                    Some(offset) => a_records(dns, offset, be16(dns[6], dns[7])),
                    None => None,
                }
            },
            None => None,
        }
    }
}

/// The DNS message of a UDP datagram from port 53 to `client_port`. The checksum must be valid
/// or absent.
pub open spec fn dns_payload(
    udp: Seq<u8>,
    server: Ipv4Addr,
    client: Ipv4Addr,
    client_port: u16,
) -> Option<Seq<u8>> {
    let udp_len = be16(udp[4], udp[5]);
    if udp.len() < 20 || be16(udp[0], udp[1]) != 53 || be16(udp[2], udp[3]) != client_port
        || udp_len < 20 || udp_len > udp.len() || (be16(udp[6], udp[7]) != 0 && checksum_spec(
        udp_summed(server, client, udp.take(udp_len)),
    ) != 0) {
        None
    } else {
        Some(udp.subrange(8, udp_len))
    }
}

/// The addresses in `packet`, if it is the answer of `server` to the query.
pub open spec fn parse_dns_a_response_spec(
    packet: Seq<u8>,
    server: Ipv4Addr,
    client: Ipv4Addr,
    client_port: u16,
    transaction_id: u16,
    name: Seq<char>,
) -> Option<Seq<Ipv4Addr>> {
    match parse_ipv4_spec(packet) {
        Some((protocol, source, destination, udp)) => if protocol != 17 || source != server
            || destination != client {
            None
        } else {
            match dns_payload(udp, server, client, client_port) {
                Some(dns) => dns_answers(dns, transaction_id, name),
                None => None,
            }
        },
        None => None,
    }
}

fn read_a_records(dns: &[u8], start: usize, count: u16) -> (r: Option<Vec<Ipv4Addr>>)
    requires
        dns@.len() <= 0xffff,
    ensures
        match r {
            Some(list) => a_records(dns@, start as int, count as int) == Some(list@),
            None => a_records(dns@, start as int, count as int) is None,
        },
{
    let mut addresses: Vec<Ipv4Addr> = Vec::new();
    let mut offset: usize = start;
    let mut left: u16 = count;
    assert(forall|s: Seq<Ipv4Addr>| addresses@ + s =~= s);
    while left > 0
        invariant
            dns@.len() <= 0xffff,
            a_records(dns@, start as int, count as int) == (match a_records(
                dns@,
                offset as int,
                left as int,
            ) {
                Some(rest) => Some(addresses@ + rest),
                None => None,
            }),
        decreases left,
    {
        let ghost all = a_records(dns@, offset as int, left as int);
        let end: usize = match skip_name(dns, offset) {
            Some(end) => end,
            None => {
                return None;
            },
        };
        if end + 10 > dns.len() {
            return None;
        }
        let kind: u16 = word(dns[end], dns[end + 1]);
        let class: u16 = word(dns[end + 2], dns[end + 3]);
        let length: usize = word(dns[end + 8], dns[end + 9]) as usize;
        let data: usize = end + 10;
        if data + length > dns.len() {
            return None;
        }
        let ghost before = addresses@;
        let ghost rest = a_records(dns@, data + length, left - 1);
        if kind == 1 && class == 1 && length == 4 {
            let address = Ipv4Addr::new(dns[data], dns[data + 1], dns[data + 2], dns[data + 3]);
            addresses.push(address);
            assert(rest matches Some(r) ==> addresses@ + r =~= before + (seq![address] + r));
        }
        offset = data + length;
        left = left - 1;
    }
    assert(addresses@ + Seq::empty() =~= addresses@);
    Some(addresses)
}

fn pass_questions(dns: &[u8], start: usize, count: u16) -> (r: Option<usize>)
    requires
        dns@.len() <= 0xffff,
    ensures
        match r {
            Some(end) => skip_questions(dns@, start as int, count as int) == Some(end as int),
            None => skip_questions(dns@, start as int, count as int) is None,
        },
{
    let mut offset: usize = start;
    let mut left: u16 = count;
    while left > 0
        invariant
            dns@.len() <= 0xffff,
            skip_questions(dns@, start as int, count as int) == skip_questions(
                dns@,
                offset as int,
                left as int,
            ),
        decreases left,
    {
        match skip_name(dns, offset) {
            Some(end) => {
                if end + 4 > dns.len() {
                    return None;
                }
                offset = end + 4;
            },
            None => {
                return None;
            },
        }
        left = left - 1;
    }
    Some(offset)
}

/// The IPv4 addresses in `packet`, if it is the answer of `server` to the query for `name` with
/// this port and transaction.
pub fn parse_dns_a_response(
    packet: &[u8],
    server: Ipv4Addr,
    client: Ipv4Addr,
    client_port: u16,
    transaction_id: u16,
    name: &str,
) -> (r: Option<Vec<Ipv4Addr>>)
    ensures
        match r {
            Some(list) => parse_dns_a_response_spec(
                packet@,
                server,
                client,
                client_port,
                transaction_id,
                name@,
            ) == Some(list@),
            None => parse_dns_a_response_spec(
                packet@,
                server,
                client,
                client_port,
                transaction_id,
                name@,
            ) is None,
        },
{
    let (protocol, source, destination, udp) = match parse_ipv4(packet) {
        Some(parts) => parts,
        None => {
            return None;
        },
    };
    if protocol != 17 || source != server || destination != client || udp.len() < 20 {
        return None;
    }
    let udp_len: usize = word(udp[4], udp[5]) as usize;
    if word(udp[0], udp[1]) != 53 || word(udp[2], udp[3]) != client_port || udp_len < 20 || udp_len
        > udp.len() {
        return None;
    }
    let datagram = slice_subrange(udp, 0, udp_len);
    assert(datagram@ =~= udp@.take(udp_len as int));
    if (udp[6] != 0 || udp[7] != 0) && udp_checksum(source, destination, datagram) != 0 {
        return None;
    }
    let dns = slice_subrange(udp, 8, udp_len);
    if word(dns[0], dns[1]) != transaction_id || dns[2] < 0x80 {
        return None;
    }
    let questions: u16 = word(dns[4], dns[5]);
    let answers: u16 = word(dns[6], dns[7]);
    if questions == 0 {
        return None;
    }
    let (matched, end) = match name_matches(dns, 12, name) {
        Some(found) => found,
        None => {
            return None;
        },
    };
    if !matched || end + 4 > dns.len() {
        return None;
    }
    if word(dns[end], dns[end + 1]) != 1 || word(dns[end + 2], dns[end + 3]) != 1 {
        return None;
    }
    match pass_questions(dns, end + 4, questions - 1) {
        Some(offset) => read_a_records(dns, offset, answers),
        None => None,
    }
}

pub(crate) proof fn lemma_datagram_verifies(
    source: Ipv4Addr,
    destination: Ipv4Addr,
    source_port: u16,
    destination_port: u16,
    message: Seq<u8>,
)
    requires
        message.len() + 8 <= 0xffff,
    ensures
        checksum_spec(
            udp_summed(
                source,
                destination,
                udp_datagram_summed(source, destination, source_port, destination_port, message),
            ),
        ) == 0,
{
    let plain = udp_datagram(source_port, destination_port, message, 0);
    let sum = checksum_spec(udp_summed(source, destination, plain));
    let before = source.octets_spec() + destination.octets_spec() + seq![0u8, 17u8] + be_bytes(
        message.len() as int + 8,
    ) + word_bytes(source_port) + word_bytes(destination_port) + be_bytes(message.len() as int + 8);
    let full = udp_datagram(source_port, destination_port, message, udp_sum_field(sum));
    assert(udp_summed(source, destination, plain) =~= before + be_bytes(0) + message);
    assert(udp_summed(source, destination, full) =~= before + be_bytes(udp_sum_field(sum))
        + message);
    checksum_verifies(before, message);
    if sum == 0 {
        checksum_verifies_when_all_ones(before, message);
    }
}

/// A query reads back as a UDP datagram between the two addresses, and its UDP checksum holds.
pub proof fn dns_query_verifies(
    source: Ipv4Addr,
    destination: Ipv4Addr,
    source_port: u16,
    transaction_id: u16,
    ip_id: u16,
    name: Seq<char>,
)
    requires
        encode_name_spec(name).0 is None,
    ensures
        parse_ipv4_spec(
            dns_query_spec(
                source,
                destination,
                source_port,
                transaction_id,
                ip_id,
                encode_name_spec(name).1,
            ),
        ) matches Some((protocol, from, to, udp)) && protocol == 17 && from == source && to
            == destination && checksum_spec(udp_summed(source, destination, udp)) == 0,
{
    lemma_encoded_length(name);
    let message = dns_message(transaction_id, encode_name_spec(name).1);
    lemma_datagram_verifies(source, destination, source_port, 53, message);
    ipv4_packet_parses(
        source,
        destination,
        17,
        ip_id,
        udp_datagram_summed(source, destination, source_port, 53, message),
    );
}

/// The records that give `addresses` for the name of the question, each with a time to live of
/// one minute.
pub open spec fn answer_records(addresses: Seq<Ipv4Addr>) -> Seq<u8>
    decreases addresses.len(),
{
    if addresses.len() == 0 {
        Seq::empty()
    } else {
        seq![0xc0u8, 12u8, 0u8, 1u8, 0u8, 1u8, 0u8, 0u8, 0u8, 60u8, 0u8, 4u8]
            + addresses[0].octets_spec() + answer_records(addresses.drop_first())
    }
}

/// A DNS message that repeats the question for an encoded name and answers it.
pub open spec fn dns_response_message(
    transaction_id: u16,
    name: Seq<u8>,
    addresses: Seq<Ipv4Addr>,
) -> Seq<u8> {
    word_bytes(transaction_id) + seq![0x81u8, 0x80u8, 0u8, 1u8] + be_bytes(addresses.len() as int)
        + seq![0u8, 0u8, 0u8, 0u8] + name + seq![0u8, 1u8, 0u8, 1u8] + answer_records(addresses)
}

proof fn lemma_answer_records_length(addresses: Seq<Ipv4Addr>)
    ensures
        answer_records(addresses).len() == 16 * addresses.len(),
    decreases addresses.len(),
{
    if addresses.len() > 0 {
        lemma_answer_records_length(addresses.drop_first());
    }
}

proof fn lemma_answer_records_read(
    header: Seq<u8>,
    name: Seq<char>,
    between: Seq<u8>,
    addresses: Seq<Ipv4Addr>,
)
    requires
        header.len() == 12,
        encode_name_spec(name).0 is None,
    ensures
        a_records(
            header + encode_name_spec(name).1 + (between + answer_records(addresses)),
            (header + encode_name_spec(name).1 + between).len() as int,
            addresses.len() as int,
        ) == Some(addresses),
    decreases addresses.len(),
{
    let encoded = encode_name_spec(name).1;
    let records = answer_records(addresses);
    let dns = header + encoded + (between + records);
    let offset = (header + encoded + between).len() as int;
    if addresses.len() == 0 {
        assert(addresses =~= Seq::empty());
    } else {
        let rest = addresses.drop_first();
        let record = seq![0xc0u8, 12u8, 0u8, 1u8, 0u8, 1u8, 0u8, 0u8, 0u8, 60u8, 0u8, 4u8]
            + addresses[0].octets_spec();
        lemma_answer_records_length(rest);
        assert(records =~= record + answer_records(rest));
        assert(dns =~= header + encoded + ((between + record) + answer_records(rest)));
        lemma_answer_records_read(header, name, between + record, rest);
        assert(forall|i: int| 0 <= i < 16 ==> #[trigger] dns[offset + i] == record[i]);
        assert(dns[offset + 0] == 0xc0);
        assert(dns[offset + 1] == 12);
        pointer_to_encoded_name_matches(header, name, between + records, name, offset);
        let end = offset + 2;
        assert(dns[end] == record[2] && dns[end + 1] == record[3] && dns[end + 2] == record[4]
            && dns[end + 3] == record[5] && dns[end + 8] == record[10] && dns[end + 9]
            == record[11]) by {
            assert(dns[offset + 2] == record[2]);
            assert(dns[offset + 3] == record[3]);
            assert(dns[offset + 4] == record[4]);
            assert(dns[offset + 5] == record[5]);
            assert(dns[offset + 10] == record[10]);
            assert(dns[offset + 11] == record[11]);
        }
        assert(dns[offset + 12] == record[12]);
        assert(dns[offset + 13] == record[13]);
        assert(dns[offset + 14] == record[14]);
        assert(dns[offset + 15] == record[15]);
        assert(skip_name_spec(dns, offset) == Some(end));
        assert((header + encoded + (between + record)).len() == offset + 16);
        assert(seq![addresses[0]] + rest =~= addresses);
    }
}

/// The answer of the server to a query is read back: a response that repeats the question, under
/// any spelling of the name that differs in ASCII case or in dots at the end only, gives its
/// addresses in order.
pub proof fn dns_response_is_read_back(
    server: Ipv4Addr,
    client: Ipv4Addr,
    client_port: u16,
    transaction_id: u16,
    ip_id: u16,
    name: Seq<char>,
    expected: Seq<char>,
    addresses: Seq<Ipv4Addr>,
)
    requires
        encode_name_spec(name).0 is None,
        same_name(name, expected),
        16 * addresses.len() <= 0xffff - 20 - 8 - 12 - 255 - 4,
    ensures
        parse_dns_a_response_spec(
            ipv4_packet_spec(
                server,
                client,
                17,
                ip_id,
                udp_datagram_summed(
                    server,
                    client,
                    53,
                    client_port,
                    dns_response_message(transaction_id, encode_name_spec(name).1, addresses),
                ),
            ),
            server,
            client,
            client_port,
            transaction_id,
            expected,
        ) == Some(addresses),
{
    lemma_encoded_length(name);
    lemma_answer_records_length(addresses);
    let message = dns_response_message(transaction_id, encode_name_spec(name).1, addresses);
    assert(message.len() == 12 + encode_name_spec(name).1.len() + 4 + 16 * addresses.len());
    let udp = udp_datagram_summed(server, client, 53, client_port, message);
    lemma_response_payload(server, client, client_port, message);
    lemma_response_answers(transaction_id, name, expected, addresses);
    ipv4_packet_parses(server, client, 17, ip_id, udp);
    lemma_response_parts(
        ipv4_packet_spec(server, client, 17, ip_id, udp),
        server,
        client,
        client_port,
        transaction_id,
        expected,
    );
}

pub(crate) proof fn lemma_response_parts(
    packet: Seq<u8>,
    server: Ipv4Addr,
    client: Ipv4Addr,
    client_port: u16,
    transaction_id: u16,
    name: Seq<char>,
)
    requires
        parse_ipv4_spec(packet) matches Some((protocol, source, destination, udp)) && protocol == 17
            && source == server && destination == client && dns_payload(
            udp,
            server,
            client,
            client_port,
        ) is Some,
    ensures
        parse_dns_a_response_spec(packet, server, client, client_port, transaction_id, name)
            == dns_answers(
            dns_payload(parse_ipv4_spec(packet).unwrap().3, server, client, client_port).unwrap(),
            transaction_id,
            name,
        ),
{
}

pub(crate) proof fn lemma_response_payload(
    server: Ipv4Addr,
    client: Ipv4Addr,
    client_port: u16,
    message: Seq<u8>,
)
    requires
        12 <= message.len() <= 0xffff - 8,
    ensures
        dns_payload(
            udp_datagram_summed(server, client, 53, client_port, message),
            server,
            client,
            client_port,
        ) == Some(message),
        udp_datagram_summed(server, client, 53, client_port, message).len() == message.len() + 8,
{
    lemma_datagram_verifies(server, client, 53, client_port, message);
    let udp = udp_datagram_summed(server, client, 53, client_port, message);
    let udp_len = message.len() as int + 8;
    lemma_fundamental_div_mod(udp_len, 256);
    lemma_word_bytes(client_port);
    lemma_word_bytes(53);
    assert(be16(udp[4], udp[5]) == udp_len);
    assert(udp.take(udp_len) =~= udp);
    assert(udp.subrange(8, udp_len) =~= message);
}

proof fn lemma_response_answers(
    transaction_id: u16,
    name: Seq<char>,
    expected: Seq<char>,
    addresses: Seq<Ipv4Addr>,
)
    requires
        encode_name_spec(name).0 is None,
        same_name(name, expected),
        addresses.len() <= 0xffff,
    ensures
        dns_answers(
            dns_response_message(transaction_id, encode_name_spec(name).1, addresses),
            transaction_id,
            expected,
        ) == Some(addresses),
{
    let encoded = encode_name_spec(name).1;
    let message = dns_response_message(transaction_id, encoded, addresses);
    let header = word_bytes(transaction_id) + seq![0x81u8, 0x80u8, 0u8, 1u8] + be_bytes(
        addresses.len() as int,
    ) + seq![0u8, 0u8, 0u8, 0u8];
    let between = seq![0u8, 1u8, 0u8, 1u8];
    assert(message =~= header + encoded + (between + answer_records(addresses)));
    assert(header.len() == 12);
    lemma_word_bytes(transaction_id);
    assert(forall|i: int| 0 <= i < 12 ==> #[trigger] message[i] == header[i]);
    encoded_name_matches(header, name, between + answer_records(addresses), expected);
    let end = 12 + encoded.len() as int;
    lemma_answer_records_read(header, name, between, addresses);
    lemma_fundamental_div_mod(addresses.len() as int, 256);
    assert(be16(message[6], message[7]) == addresses.len());
    assert(be16(message[4], message[5]) == 1);
    assert(message[end] == between[0] && message[end + 1] == between[1] && message[end + 2]
        == between[2] && message[end + 3] == between[3]);
    assert((header + encoded + between).len() == end + 4);
    assert(skip_questions(message, end + 4, 0) == Some(end + 4));
}

} // verus!
