//! What packets have to do with each other: which replies belong to which requests, and what is read
//! out of them.
use crate::net::Ipv4Addr;
use crate::packet::{
    a_records, be16, be_bytes, checksum_spec, dns_answers, dns_message, dns_payload,
    dns_query_spec, echo_reply_bytes, echo_reply_is_accepted, echo_request_spec,
    encode_name_spec, encoded_name_matches, ipv4_packet_parses, ipv4_packet_spec,
    is_echo_reply_spec, lemma_encoded_length, lemma_response_parts, lemma_response_payload,
    lemma_word_bytes, name_matches_spec, parse_dns_a_response_spec, parse_ipv4_spec, same_name, skip_name_spec,
    skip_questions, udp_datagram_summed, udp_summed, word_bytes,
};
use vstd::arithmetic::div_mod::lemma_fundamental_div_mod;
use vstd::prelude::*;

verus! {

/// A record of a DNS message. Its name stands as it does on the wire, perhaps as a pointer.
pub struct DnsRecord {
    pub name: Seq<u8>,
    pub kind: u16,
    pub class: u16,
    pub ttl: Seq<u8>,
    pub data: Seq<u8>,
}

/// A record on the wire.
pub open spec fn record_bytes(record: DnsRecord) -> Seq<u8> {
    record.name + word_bytes(record.kind) + word_bytes(record.class) + record.ttl + be_bytes(
        record.data.len() as int,
    ) + record.data
}

/// Whether the records stand one behind the other in the message, from the offset on, each with a
/// name that can be read where it stands.
pub open spec fn records_stand(dns: Seq<u8>, offset: int, records: Seq<DnsRecord>) -> bool
    decreases records.len(),
{
    records.len() > 0 ==> {
        let record = records[0];
        let bytes = record_bytes(record);
        &&& record.ttl.len() == 4
        &&& record.data.len() <= 0xffff
        &&& 0 <= offset
        &&& offset + bytes.len() <= dns.len()
        &&& dns.subrange(offset, offset + bytes.len()) == bytes
        &&& skip_name_spec(dns, offset) == Some(offset + record.name.len())
        &&& records_stand(dns, offset + bytes.len(), records.drop_first())
    }
}

/// The addresses that records give: those with the type and class of an IPv4 address, and four
/// bytes of data, in order.
pub open spec fn record_addresses(records: Seq<DnsRecord>) -> Seq<Ipv4Addr> {
    records.filter(
        |r: DnsRecord| r.kind == 1 && r.class == 1 && r.data.len() == 4,
    ).map_values(
        |r: DnsRecord| Ipv4Addr { a: r.data[0], b: r.data[1], c: r.data[2], d: r.data[3] },
    )
}

/// Records are read as they stand: whatever their types are, the addresses are those of the address
/// records among them, in order.
pub proof fn records_give_their_addresses(dns: Seq<u8>, offset: int, records: Seq<DnsRecord>)
    requires
        records_stand(dns, offset, records),
    ensures
        a_records(dns, offset, records.len() as int) == Some(record_addresses(records)),
    decreases records.len(),
{
    let wanted = |r: DnsRecord| r.kind == 1 && r.class == 1 && r.data.len() == 4;
    let address = |r: DnsRecord|
        Ipv4Addr { a: r.data[0], b: r.data[1], c: r.data[2], d: r.data[3] };
    if records.len() == 0 {
        assert(record_addresses(records) =~= Seq::empty());
    } else {
        let record = records[0];
        let bytes = record_bytes(record);
        let rest = records.drop_first();
        records_give_their_addresses(dns, offset + bytes.len(), rest);
        let end = offset + record.name.len();
        assert(forall|i: int| 0 <= i < bytes.len() ==> #[trigger] bytes[i] == dns.subrange(
            offset,
            offset + bytes.len(),
        )[i]);
        let n = record.name.len() as int;
        assert(bytes[n] == dns[end] && bytes[n + 1] == dns[end + 1] && bytes[n + 2] == dns[end + 2]
            && bytes[n + 3] == dns[end + 3] && bytes[n + 8] == dns[end + 8] && bytes[n + 9]
            == dns[end + 9]);
        lemma_word_bytes(record.kind);
        lemma_word_bytes(record.class);
        lemma_fundamental_div_mod(record.data.len() as int, 256);
        assert(be16(dns[end], dns[end + 1]) == record.kind);
        assert(be16(dns[end + 2], dns[end + 3]) == record.class);
        assert(be16(dns[end + 8], dns[end + 9]) == record.data.len());
        assert(records =~= seq![record] + rest);
        Seq::filter_distributes_over_add(seq![record], rest, wanted);
        assert(seq![record].drop_last() =~= Seq::empty());
        reveal_with_fuel(Seq::filter, 2);
        if wanted(record) {
            assert(seq![record].filter(wanted) =~= seq![record]);
            assert(bytes[n + 10] == dns[end + 10] && bytes[n + 11] == dns[end + 11] && bytes[n + 12]
                == dns[end + 12] && bytes[n + 13] == dns[end + 13]);
            assert(bytes[n + 10] == record.data[0] && bytes[n + 11] == record.data[1] && bytes[n
                + 12] == record.data[2] && bytes[n + 13] == record.data[3]);
            assert(record_addresses(records) =~= seq![address(record)] + record_addresses(rest));
        } else {
            assert(seq![record].filter(wanted) =~= Seq::empty());
            assert(record_addresses(records) =~= record_addresses(rest));
        }
    }
}

/// A record that gives no address changes nothing in the addresses that are read, wherever it is put
/// among the others.
pub proof fn other_records_are_passed_over(
    before: Seq<DnsRecord>,
    other: DnsRecord,
    after: Seq<DnsRecord>,
)
    requires
        other.kind != 1 || other.class != 1 || other.data.len() != 4,
    ensures
        record_addresses(before + seq![other] + after) == record_addresses(before + after),
{
    let wanted = |r: DnsRecord| r.kind == 1 && r.class == 1 && r.data.len() == 4;
    Seq::filter_distributes_over_add(before + seq![other], after, wanted);
    Seq::filter_distributes_over_add(before, seq![other], wanted);
    Seq::filter_distributes_over_add(before, after, wanted);
    assert(seq![other].drop_last() =~= Seq::empty());
    reveal_with_fuel(Seq::filter, 2);
    assert(seq![other].filter(wanted) =~= Seq::empty());
    assert((before + seq![other] + after).filter(wanted) =~= (before + after).filter(wanted));
}

/// A DNS message with one question for the addresses of a name, and records behind it. The bytes of
/// the flags and of the two last counts are free.
pub open spec fn response_message(
    transaction_id: u16,
    flags: (u8, u8),
    count: int,
    counts: (u16, u16),
    name: Seq<u8>,
    records: Seq<u8>,
) -> Seq<u8> {
    word_bytes(transaction_id) + seq![flags.0, flags.1, 0u8, 1u8] + be_bytes(count) + word_bytes(
        counts.0,
    ) + word_bytes(counts.1) + name + seq![0u8, 1u8, 0u8, 1u8] + records
}

/// A response is read in full: whatever records answer the question, of any types and with any names
/// that can be read, the result holds exactly the addresses of the address records, in order. Flags
/// beside the one of a response do not count, nor what stands behind the records.
pub proof fn dns_response_gives_its_addresses(
    server: Ipv4Addr,
    client: Ipv4Addr,
    client_port: u16,
    transaction_id: u16,
    ip_id: u16,
    flags: (u8, u8),
    counts: (u16, u16),
    name: Seq<char>,
    expected: Seq<char>,
    records: Seq<DnsRecord>,
    tail: Seq<u8>,
)
    requires
        encode_name_spec(name).0 is None,
        same_name(name, expected),
        flags.0 >= 0x80,
        records.len() <= 0xffff,
        tail.len() <= 0xffff - 20 - 8 - 12 - 255 - 4,
        records_stand(
            response_message(
                transaction_id,
                flags,
                records.len() as int,
                counts,
                encode_name_spec(name).1,
                tail,
            ),
            16 + encode_name_spec(name).1.len() as int,
            records,
        ),
    ensures
        parse_dns_a_response_spec(
            ipv4_packet_spec(
                server,
                client,
                17,
                ip_id,
                udp_datagram_summed(
                    server,
                    client,
                    53,
                    client_port,
                    response_message(
                        transaction_id,
                        flags,
                        records.len() as int,
                        counts,
                        encode_name_spec(name).1,
                        tail,
                    ),
                ),
            ),
            server,
            client,
            client_port,
            transaction_id,
            expected,
        ) == Some(record_addresses(records)),
{
    lemma_encoded_length(name);
    let message = response_message(
        transaction_id,
        flags,
        records.len() as int,
        counts,
        encode_name_spec(name).1,
        tail,
    );
    lemma_message_answers(transaction_id, flags, counts, name, expected, records, tail);
    assert(message.len() == 16 + encode_name_spec(name).1.len() + tail.len());
    let udp = udp_datagram_summed(server, client, 53, client_port, message);
    lemma_response_payload(server, client, client_port, message);
    ipv4_packet_parses(server, client, 17, ip_id, udp);
    lemma_response_parts(
        ipv4_packet_spec(server, client, 17, ip_id, udp),
        server,
        client,
        client_port,
        transaction_id,
        expected,
    );
}

proof fn lemma_message_answers(
    transaction_id: u16,
    flags: (u8, u8),
    counts: (u16, u16),
    name: Seq<char>,
    expected: Seq<char>,
    records: Seq<DnsRecord>,
    tail: Seq<u8>,
)
    requires
        encode_name_spec(name).0 is None,
        same_name(name, expected),
        flags.0 >= 0x80,
        records.len() <= 0xffff,
        records_stand(
            response_message(
                transaction_id,
                flags,
                records.len() as int,
                counts,
                encode_name_spec(name).1,
                tail,
            ),
            16 + encode_name_spec(name).1.len() as int,
            records,
        ),
    ensures
        dns_answers(
            response_message(
                transaction_id,
                flags,
                records.len() as int,
                counts,
                encode_name_spec(name).1,
                tail,
            ),
            transaction_id,
            expected,
        ) == Some(record_addresses(records)),
{
    let encoded = encode_name_spec(name).1;
    let message = response_message(
        transaction_id,
        flags,
        records.len() as int,
        counts,
        encoded,
        tail,
    );
    let header = word_bytes(transaction_id) + seq![flags.0, flags.1, 0u8, 1u8] + be_bytes(
        records.len() as int,
    ) + word_bytes(counts.0) + word_bytes(counts.1);
    let between = seq![0u8, 1u8, 0u8, 1u8];
    assert(message =~= header + encoded + (between + tail));
    assert(header.len() == 12);
    lemma_word_bytes(transaction_id);
    assert(forall|i: int| 0 <= i < 12 ==> #[trigger] message[i] == header[i]);
    encoded_name_matches(header, name, between + tail, expected);
    let end = 12 + encoded.len() as int;
    lemma_fundamental_div_mod(records.len() as int, 256);
    assert(be16(message[6], message[7]) == records.len());
    assert(be16(message[4], message[5]) == 1);
    assert(message[end] == between[0] && message[end + 1] == between[1] && message[end + 2]
        == between[2] && message[end + 3] == between[3]);
    assert(skip_questions(message, end + 4, 0) == Some(end + 4));
    records_give_their_addresses(message, end + 4, records);
}

/// An answer belongs to its query: a packet gives addresses only where it is an IPv4 packet with UDP
/// from the server to the client, from port 53 to the port of the query, with a checksum that holds
/// or is absent, and carries a response with the number of the query, whose first question is for
/// the addresses of the name.
pub proof fn dns_answer_belongs_to_query(
    packet: Seq<u8>,
    server: Ipv4Addr,
    client: Ipv4Addr,
    client_port: u16,
    transaction_id: u16,
    name: Seq<char>,
)
    requires
        parse_dns_a_response_spec(packet, server, client, client_port, transaction_id, name)
            is Some,
    ensures
        parse_ipv4_spec(packet) matches Some((protocol, source, destination, udp)) && {
            let length = udp[4] * 256 + udp[5];
            let dns = udp.subrange(8, length);
            &&& protocol == 17
            &&& source == server
            &&& destination == client
            &&& 20 <= length <= udp.len()
            &&& udp[0] == 0 && udp[1] == 53
            &&& udp[2] * 256 + udp[3] == client_port
            &&& (udp[6] == 0 && udp[7] == 0) || checksum_spec(
                udp_summed(server, client, udp.take(length)),
            ) == 0
            &&& dns[0] * 256 + dns[1] == transaction_id
            &&& dns[2] >= 0x80
            &&& dns[4] * 256 + dns[5] >= 1
            &&& name_matches_spec(dns, 12, name) matches Some((matched, end)) && matched && end + 4
                <= dns.len() && dns[end] == 0 && dns[end + 1] == 1 && dns[end + 2] == 0 && dns[end
                + 3] == 1
        },
{
    let udp = parse_ipv4_spec(packet).unwrap().3;
    assert(dns_payload(udp, server, client, client_port) is Some);
}

/// A packet answers one query at most, spellings of the name aside: where it is an answer to two,
/// server, client, port and number are the same, and so are the addresses.
pub proof fn dns_answer_has_one_query(
    packet: Seq<u8>,
    a: (Ipv4Addr, Ipv4Addr, u16, u16),
    b: (Ipv4Addr, Ipv4Addr, u16, u16),
    name: Seq<char>,
    other: Seq<char>,
)
    requires
        parse_dns_a_response_spec(packet, a.0, a.1, a.2, a.3, name) is Some,
        parse_dns_a_response_spec(packet, b.0, b.1, b.2, b.3, other) is Some,
    ensures
        a == b,
        parse_dns_a_response_spec(packet, a.0, a.1, a.2, a.3, name) == parse_dns_a_response_spec(
            packet,
            b.0,
            b.1,
            b.2,
            b.3,
            other,
        ),
{
    let (server, client, port, id) = a;
    let udp = parse_ipv4_spec(packet).unwrap().3;
    let dns = dns_payload(udp, server, client, port).unwrap();
    crate::packet::matched_name_is_skipped(dns, 12, name);
    crate::packet::matched_name_is_skipped(dns, 12, other);
}

/// A packet is an echo reply to one request at most: addresses, identifier and sequence number are
/// those in the packet.
pub proof fn echo_reply_has_one_request(
    packet: Seq<u8>,
    a: (Ipv4Addr, Ipv4Addr, u16, u16),
    b: (Ipv4Addr, Ipv4Addr, u16, u16),
)
    requires
        is_echo_reply_spec(packet, a.0, a.1, a.2, a.3),
        is_echo_reply_spec(packet, b.0, b.1, b.2, b.3),
    ensures
        a == b,
        parse_ipv4_spec(packet) matches Some((protocol, source, destination, icmp)) && protocol == 1
            && source == a.0 && destination == a.1 && icmp.len() >= 8 && icmp[0] == 0 && icmp[1]
            == 0 && checksum_spec(icmp) == 0 && icmp[4] * 256 + icmp[5] == a.2 && icmp[6] * 256
            + icmp[7] == a.3,
{
}

/// A packet is read as it stands: the parts are those that the header gives, the header is whole and
/// correctly summed, the packet is no fragment, and what follows its length does not count.
pub proof fn ipv4_parts_stand_in_packet(packet: Seq<u8>)
    requires
        parse_ipv4_spec(packet) is Some,
    ensures
        ({
            let (protocol, source, destination, payload) = parse_ipv4_spec(packet).unwrap();
            let header = packet[0] % 16 * 4;
            let total = packet[2] * 256 + packet[3];
            &&& packet[0] / 16 == 4
            &&& 20 <= header <= total <= packet.len()
            &&& checksum_spec(packet.take(header as int)) == 0
            &&& (packet[6] == 0 || packet[6] == 0x40 || packet[6] == 0x80 || packet[6] == 0xc0)
                && packet[7] == 0
            &&& packet[9] == protocol
            &&& packet.subrange(12, 16) == seq![source.a, source.b, source.c, source.d]
            &&& packet.subrange(16, 20) == seq![
                destination.a,
                destination.b,
                destination.c,
                destination.d,
            ]
            &&& payload == packet.subrange(header as int, total as int)
        }),
{
    let (protocol, source, destination, payload) = parse_ipv4_spec(packet).unwrap();
    assert(packet.subrange(12, 16) =~= seq![source.a, source.b, source.c, source.d]);
    assert(packet.subrange(16, 20) =~= seq![
        destination.a,
        destination.b,
        destination.c,
        destination.d,
    ]);
    let word = be16(packet[6], packet[7]);
    assert(word % 0x4000 == 0 ==> packet[7] == 0 && packet[6] % 64 == 0) by {
        lemma_fundamental_div_mod(word, 0x4000);
    }
}

/// A packet is read exactly where it is whole, of version four, no fragment and correctly summed,
/// whatever options its header has.
pub proof fn sound_ipv4_packets_are_read(packet: Seq<u8>)
    ensures
        parse_ipv4_spec(packet) is Some <==> {
            let header = packet[0] % 16 * 4;
            let total = packet[2] * 256 + packet[3];
            &&& packet.len() >= 20
            &&& packet[0] / 16 == 4
            &&& 20 <= header <= total <= packet.len()
            &&& packet[6] % 64 == 0 && packet[7] == 0
            &&& checksum_spec(packet.take(header as int)) == 0
        },
{
    if packet.len() >= 20 {
        let word = be16(packet[6], packet[7]);
        lemma_fundamental_div_mod(word, 0x4000);
        lemma_fundamental_div_mod(packet[6] as int, 64);
        assert(word == 0x4000 * (packet[6] / 64) + 256 * (packet[6] % 64) + packet[7]);
        vstd::arithmetic::div_mod::lemma_fundamental_div_mod_converse(
            word,
            0x4000,
            (packet[6] / 64) as int,
            256 * (packet[6] % 64) + packet[7],
        );
    }
}

/// Whether further questions stand one behind the other in the message, each as long as given.
pub open spec fn questions_stand(dns: Seq<u8>, offset: int, lengths: Seq<int>) -> bool
    decreases lengths.len(),
{
    lengths.len() > 0 ==> {
        &&& skip_name_spec(dns, offset) == Some(offset + lengths[0])
        &&& offset + lengths[0] + 4 <= dns.len()
        &&& questions_stand(dns, offset + lengths[0] + 4, lengths.drop_first())
    }
}

/// How many bytes the questions take.
pub open spec fn questions_size(lengths: Seq<int>) -> int
    decreases lengths.len(),
{
    if lengths.len() == 0 {
        0
    } else {
        lengths[0] + 4 + questions_size(lengths.drop_first())
    }
}

proof fn lemma_questions(dns: Seq<u8>, offset: int, lengths: Seq<int>)
    requires
        questions_stand(dns, offset, lengths),
    ensures
        skip_questions(dns, offset, lengths.len() as int) == Some(offset + questions_size(lengths)),
    decreases lengths.len(),
{
    if lengths.len() > 0 {
        lemma_questions(dns, offset + lengths[0] + 4, lengths.drop_first());
    }
}

/// A message with several questions is read where the first is the one that was asked: the others are
/// passed over, and the records behind them are read as they stand.
pub proof fn further_questions_are_passed_over(
    dns: Seq<u8>,
    transaction_id: u16,
    name: Seq<char>,
    end: int,
    lengths: Seq<int>,
    records: Seq<DnsRecord>,
)
    requires
        dns.len() >= 12,
        dns[0] * 256 + dns[1] == transaction_id,
        dns[2] >= 0x80,
        dns[4] * 256 + dns[5] == 1 + lengths.len(),
        dns[6] * 256 + dns[7] == records.len(),
        name_matches_spec(dns, 12, name) == Some((true, end)),
        0 <= end && end + 4 <= dns.len(),
        dns[end] == 0 && dns[end + 1] == 1 && dns[end + 2] == 0 && dns[end + 3] == 1,
        questions_stand(dns, end + 4, lengths),
        records_stand(dns, end + 4 + questions_size(lengths), records),
    ensures
        dns_answers(dns, transaction_id, name) == Some(record_addresses(records)),
{
    lemma_questions(dns, end + 4, lengths);
    records_give_their_addresses(dns, end + 4 + questions_size(lengths), records);
}

/// Bytes behind the length of a packet change nothing.
pub proof fn ipv4_padding_is_cut(packet: Seq<u8>, padding: Seq<u8>)
    requires
        parse_ipv4_spec(packet) is Some,
    ensures
        parse_ipv4_spec(packet + padding) == parse_ipv4_spec(packet),
{
    let header = (packet[0] % 16) * 4;
    let total = be16(packet[2], packet[3]);
    assert((packet + padding).take(header) =~= packet.take(header));
    assert((packet + padding).subrange(header, total) =~= packet.subrange(header, total));
}

/// An echo request asks what its reply repeats: type 8 with a checksum that holds, and the identifier
/// and sequence number with which the reply is accepted.
pub proof fn echo_request_asks_for_reply(
    source: Ipv4Addr,
    destination: Ipv4Addr,
    ip_id: u16,
    echo_id: u16,
    sequence: u16,
    reply_id: u16,
)
    ensures
        parse_ipv4_spec(
            ipv4_packet_spec(source, destination, 1, ip_id, echo_request_spec(echo_id, sequence)),
        ) matches Some((protocol, from, to, icmp)) && {
            &&& protocol == 1 && from == source && to == destination
            &&& icmp.len() >= 8 && icmp[0] == 8 && icmp[1] == 0
            &&& checksum_spec(icmp) == 0
            &&& icmp[4] * 256 + icmp[5] == echo_id
            &&& icmp[6] * 256 + icmp[7] == sequence
            &&& is_echo_reply_spec(
                ipv4_packet_spec(
                    destination,
                    source,
                    1,
                    reply_id,
                    echo_reply_bytes(
                        echo_id,
                        sequence,
                        icmp.skip(8),
                        checksum_spec(echo_reply_bytes(echo_id, sequence, icmp.skip(8), 0)),
                    ),
                ),
                destination,
                source,
                echo_id,
                sequence,
            )
        },
{
    let request = echo_request_spec(echo_id, sequence);
    lemma_request_bytes(echo_id, sequence);
    ipv4_packet_parses(source, destination, 1, ip_id, request);
    echo_reply_is_accepted(destination, source, reply_id, echo_id, sequence, request.skip(8));
}

proof fn lemma_request_bytes(echo_id: u16, sequence: u16)
    ensures
        ({
            let icmp = echo_request_spec(echo_id, sequence);
            &&& icmp.len() == 16 && icmp[0] == 8 && icmp[1] == 0
            &&& checksum_spec(icmp) == 0
            &&& icmp[4] * 256 + icmp[5] == echo_id
            &&& icmp[6] * 256 + icmp[7] == sequence
        }),
{
    lemma_word_bytes(echo_id);
    lemma_word_bytes(sequence);
    crate::packet::lemma_echo_request_sum(echo_id, sequence);
}

/// Whether a message asks one question, with the given number: for the addresses of the name.
pub open spec fn is_question(dns: Seq<u8>, transaction_id: u16, name: Seq<char>) -> bool {
    let end = dns.len() - 4;
    &&& dns.len() >= 16
    &&& dns[0] * 256 + dns[1] == transaction_id
    &&& dns[2] == 1 && dns[3] == 0
    &&& dns[4] == 0 && dns[5] == 1
    &&& dns[6] == 0 && dns[7] == 0 && dns[8] == 0 && dns[9] == 0 && dns[10] == 0 && dns[11] == 0
    &&& skip_name_spec(dns, 12) == Some(end)
    &&& dns[end] == 0 && dns[end + 1] == 1 && dns[end + 2] == 0 && dns[end + 3] == 1
    &&& forall|other: Seq<char>| #[trigger] reads_as(dns, name, other)
}

/// Whether the first name of a message reads as another name just where it is spelled like the name.
pub open spec fn reads_as(dns: Seq<u8>, name: Seq<char>, other: Seq<char>) -> bool {
    name_matches_spec(dns, 12, other) matches Some((matched, _)) && matched == same_name(name, other)
}

/// Whether a datagram goes from a port to port 53, is as long as it says and correctly summed.
pub open spec fn is_dns_datagram(
    udp: Seq<u8>,
    source: Ipv4Addr,
    server: Ipv4Addr,
    port: u16,
) -> bool {
    &&& udp.len() >= 20
    &&& udp[0] * 256 + udp[1] == port
    &&& udp[2] == 0 && udp[3] == 53
    &&& udp[4] * 256 + udp[5] == udp.len()
    &&& checksum_spec(udp_summed(source, server, udp)) == 0
}

/// A query asks what its answer repeats: a message to port 53 with one question, for the addresses of
/// the name, with the port and number with which the answer is accepted.
pub proof fn dns_query_asks_for_name(
    source: Ipv4Addr,
    server: Ipv4Addr,
    port: u16,
    transaction_id: u16,
    ip_id: u16,
    name: Seq<char>,
)
    requires
        encode_name_spec(name).0 is None,
    ensures
        parse_ipv4_spec(
            dns_query_spec(
                source,
                server,
                port,
                transaction_id,
                ip_id,
                encode_name_spec(name).1,
            ),
        ) matches Some((protocol, from, to, udp)) && protocol == 17 && from == source && to == server
            && is_dns_datagram(udp, source, server, port) && is_question(
            udp.skip(8),
            transaction_id,
            name,
        ),
{
    lemma_encoded_length(name);
    let message = dns_message(transaction_id, encode_name_spec(name).1);
    assert(message.len() == 16 + encode_name_spec(name).1.len());
    lemma_question_bytes(transaction_id, name);
    lemma_query_bytes(source, server, port, message);
    let udp = udp_datagram_summed(source, server, port, 53, message);
    ipv4_packet_parses(source, server, 17, ip_id, udp);
}

proof fn lemma_query_bytes(source: Ipv4Addr, server: Ipv4Addr, port: u16, message: Seq<u8>)
    requires
        16 <= message.len() <= 0xffff - 8,
    ensures
        is_dns_datagram(
            udp_datagram_summed(source, server, port, 53, message),
            source,
            server,
            port,
        ),
        udp_datagram_summed(source, server, port, 53, message).skip(8) == message,
        udp_datagram_summed(source, server, port, 53, message).len() == message.len() + 8,
{
    crate::packet::lemma_datagram_verifies(source, server, port, 53, message);
    let udp = udp_datagram_summed(source, server, port, 53, message);
    assert(udp.skip(8) =~= message);
    lemma_word_bytes(port);
    lemma_fundamental_div_mod(message.len() as int + 8, 256);
}

proof fn lemma_question_bytes(transaction_id: u16, name: Seq<char>)
    requires
        encode_name_spec(name).0 is None,
    ensures
        is_question(
            dns_message(transaction_id, encode_name_spec(name).1),
            transaction_id,
            name,
        ),
{
    let encoded = encode_name_spec(name).1;
    let message = dns_message(transaction_id, encoded);
    let header = word_bytes(transaction_id) + seq![
        1u8,
        0u8,
        0u8,
        1u8,
        0u8,
        0u8,
        0u8,
        0u8,
        0u8,
        0u8,
    ];
    let between = seq![0u8, 1u8, 0u8, 1u8];
    assert(message =~= header + encoded + between);
    assert(header.len() == 12);
    assert(forall|i: int| 0 <= i < 12 ==> #[trigger] message[i] == header[i]);
    let end = message.len() - 4;
    assert(message[end] == between[0] && message[end + 1] == between[1] && message[end + 2]
        == between[2] && message[end + 3] == between[3]);
    lemma_word_bytes(transaction_id);
    assert forall|other: Seq<char>| #[trigger] reads_as(message, name, other) by {
        encoded_name_matches(header, name, between, other);
    }
    encoded_name_matches(header, name, between, name);
}

} // verus!
