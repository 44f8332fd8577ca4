//! What the values of options come to, and how texts are filled in and hidden.
use crate::bindings::{address_values, options_refusal, raw_refusal, Binding, TimeOptions};
use crate::choice::same_word;
use crate::commands::{country_marks, marked_cities};
use crate::config::Ipv4Cidr;
use crate::console::{all_phase_lines, cidr_values, phase_lines, redacted_spec};
use crate::inventory::CityModel;
use crate::net::{Ipv4Addr, SocketAddr};
use crate::report::{PhaseModel, ReportModel};
use crate::text::{center_spec, pad_left_spec, pad_right_spec, replace_spec, spaces, stands_at};
use vstd::prelude::*;
use vstd::string::*;

verus! {

/// Networks that are given are all read, in order, or the first that is none is the error.
pub proof fn given_networks_are_read(values: Seq<Seq<char>>)
    ensures
        cidr_values(values) is Ok <==> forall|i: int|
            0 <= i < values.len() ==> Ipv4Cidr::parse_spec(#[trigger] values[i]) is Some,
        cidr_values(values) matches Ok(list) ==> list == values.map_values(
            |value: Seq<char>| Ipv4Cidr::parse_spec(value).unwrap(),
        ),
        cidr_values(values) matches Err(value) ==> exists|i: int|
            0 <= i < values.len() && #[trigger] values[i] == value && Ipv4Cidr::parse_spec(
                value,
            ) is None && (forall|j: int|
                0 <= j < i ==> Ipv4Cidr::parse_spec(#[trigger] values[j]) is Some),
    decreases values.len(),
{
    if values.len() == 0 {
        assert(values.map_values(|value: Seq<char>| Ipv4Cidr::parse_spec(value).unwrap())
            =~= Seq::empty());
    } else {
        let before = values.drop_last();
        given_networks_are_read(before);
        match cidr_values(before) {
            Ok(list) => {
                assert forall|i: int| 0 <= i < values.len() - 1 implies Ipv4Cidr::parse_spec(
                    #[trigger] values[i],
                ) is Some by {
                    assert(before[i] == values[i]);
                }
                assert(values[values.len() - 1] == values.last());
                if let Ok(all) = cidr_values(values) {
                    assert(all =~= values.map_values(
                        |value: Seq<char>| Ipv4Cidr::parse_spec(value).unwrap(),
                    ));
                }
            },
            Err(value) => {
                let i = choose|i: int|
                    0 <= i < before.len() && #[trigger] before[i] == value && Ipv4Cidr::parse_spec(
                        value,
                    ) is None && (forall|j: int|
                        0 <= j < i ==> Ipv4Cidr::parse_spec(#[trigger] before[j]) is Some);
                assert(values[i] == value);
                assert forall|j: int| 0 <= j < i implies Ipv4Cidr::parse_spec(
                    #[trigger] values[j],
                ) is Some by {
                    assert(before[j] == values[j]);
                }
            },
        }
    }
}

/// Addresses that are given are all read, in order, or the first that is none is the error.
pub proof fn given_addresses_are_read(values: Seq<Seq<char>>)
    ensures
        address_values(values) is Ok <==> forall|i: int|
            0 <= i < values.len() ==> Ipv4Addr::parse_spec(#[trigger] values[i]) is Some,
        address_values(values) matches Ok(list) ==> list == values.map_values(
            |value: Seq<char>| Ipv4Addr::parse_spec(value).unwrap(),
        ),
        address_values(values) matches Err(value) ==> exists|i: int|
            0 <= i < values.len() && #[trigger] values[i] == value && Ipv4Addr::parse_spec(
                value,
            ) is None && (forall|j: int|
                0 <= j < i ==> Ipv4Addr::parse_spec(#[trigger] values[j]) is Some),
    decreases values.len(),
{
    if values.len() == 0 {
        assert(values.map_values(|value: Seq<char>| Ipv4Addr::parse_spec(value).unwrap())
            =~= Seq::empty());
    } else {
        let before = values.drop_last();
        given_addresses_are_read(before);
        match address_values(before) {
            Ok(list) => {
                assert forall|i: int| 0 <= i < values.len() - 1 implies Ipv4Addr::parse_spec(
                    #[trigger] values[i],
                ) is Some by {
                    assert(before[i] == values[i]);
                }
                assert(values[values.len() - 1] == values.last());
                if let Ok(all) = address_values(values) {
                    assert(all =~= values.map_values(
                        |value: Seq<char>| Ipv4Addr::parse_spec(value).unwrap(),
                    ));
                }
            },
            Err(value) => {
                let i = choose|i: int|
                    0 <= i < before.len() && #[trigger] before[i] == value && Ipv4Addr::parse_spec(
                        value,
                    ) is None && (forall|j: int|
                        0 <= j < i ==> Ipv4Addr::parse_spec(#[trigger] before[j]) is Some);
                assert(values[i] == value);
                assert forall|j: int| 0 <= j < i implies Ipv4Addr::parse_spec(
                    #[trigger] values[j],
                ) is Some by {
                    assert(before[j] == values[j]);
                }
            },
        }
    }
}

/// Whether a time is from a millisecond through a day.
pub open spec fn is_time(value: Option<i64>) -> bool {
    value matches Some(ms) && 1 <= ms <= 86_400_000
}

/// Options are accepted exactly where every target of a ping and the server for names are addresses and
/// every time is from a millisecond through a day, in either language.
pub proof fn sound_options_are_accepted(
    binding: Binding,
    pings: Seq<Seq<char>>,
    dns_server: Option<Seq<char>>,
    times: TimeOptions,
)
    ensures
        options_refusal(binding, pings, dns_server, times) is None <==> {
            &&& forall|i: int|
                0 <= i < pings.len() ==> Ipv4Addr::parse_spec(#[trigger] pings[i]) is Some
            &&& dns_server matches Some(server) ==> Ipv4Addr::parse_spec(server) is Some
            &&& is_time(times.handshake) && is_time(times.ping)
            &&& is_time(times.dns) && is_time(times.deadline)
        },
{
    given_addresses_are_read(pings);
}

/// Raw keys are accepted exactly where an address comes with networks and the other way round, data
/// checks have both, and names to resolve have a server.
pub proof fn sound_raw_options_are_accepted(
    binding: Binding,
    has_address: bool,
    networks: int,
    pings: int,
    resolves: int,
    has_server: bool,
)
    requires
        networks >= 0,
        pings >= 0,
        resolves >= 0,
    ensures
        raw_refusal(binding, has_address, networks, pings, resolves, has_server) is None <==> {
            &&& has_address <==> networks > 0
            &&& pings + resolves > 0 ==> has_address && networks > 0
            &&& resolves > 0 ==> has_server
        },
{
}

/// The cities of a country, case aside, are listed in order, or all where none is given.
pub proof fn cities_of_country_are_listed(list: Seq<CityModel>, country: Option<Seq<char>>)
    ensures
        country matches Some(wanted) ==> marked_cities(list, country_marks(list, country))
            == list.filter(|city: CityModel| same_word(city.country, wanted)),
        country is None ==> marked_cities(list, country_marks(list, country)) == list,
{
    lemma_marked(list, country, country_marks(list, country));
}

proof fn lemma_marked(list: Seq<CityModel>, country: Option<Seq<char>>, marks: Seq<bool>)
    requires
        marks.len() >= list.len(),
        forall|i: int|
            0 <= i < list.len() ==> #[trigger] marks[i] == (country matches Some(wanted) ==> same_word(
                list[i].country,
                wanted,
            )),
    ensures
        country matches Some(wanted) ==> marked_cities(list, marks) == list.filter(
            |city: CityModel| same_word(city.country, wanted),
        ),
        country is None ==> marked_cities(list, marks) == list,
    decreases list.len(),
{
    reveal(Seq::filter);
    if list.len() > 0 {
        assert(marks[list.len() - 1] == (country matches Some(wanted) ==> same_word(
            list[list.len() - 1].country,
            wanted,
        )));
        assert forall|i: int| 0 <= i < list.drop_last().len() implies #[trigger] marks[i] == (
        country matches Some(wanted) ==> same_word(list.drop_last()[i].country, wanted)) by {
            assert(list.drop_last()[i] == list[i]);
        }
        lemma_marked(list.drop_last(), country, marks);
        assert(list =~= list.drop_last().push(list.last()));
    } else {
        assert(list =~= Seq::empty());
    }
}

/// Every occurrence of a text is replaced, from the start on, and what stands between stays.
pub proof fn replacing_goes_from_the_start(
    a: Seq<char>,
    from: Seq<char>,
    b: Seq<char>,
    to: Seq<char>,
)
    requires
        from.len() > 0,
        forall|i: int| 0 <= i < a.len() ==> !#[trigger] stands_at(a + from + b, from, i),
    ensures
        replace_spec(a + from + b, from, to) == a + to + replace_spec(b, from, to),
    decreases a.len(),
{
    let s = a + from + b;
    if a.len() == 0 {
        assert(s =~= from + b);
        assert(s.subrange(0, 0 + from.len() as int) =~= from);
        assert(stands_at(s, from, 0));
        assert(s.skip(from.len() as int) =~= b);
        assert(a + to + replace_spec(b, from, to) =~= to + replace_spec(b, from, to));
    } else {
        assert(!stands_at(s, from, 0));
        let rest = a.drop_first();
        assert(s.drop_first() =~= rest + from + b);
        assert forall|i: int| 0 <= i < rest.len() implies !#[trigger] stands_at(
            rest + from + b,
            from,
            i,
        ) by {
            assert(!stands_at(s, from, i + 1));
            if stands_at(rest + from + b, from, i) {
                assert(s.subrange(i + 1, i + 1 + from.len()) =~= (rest + from + b).subrange(
                    i,
                    i + from.len(),
                ));
            }
        }
        replacing_goes_from_the_start(rest, from, b, to);
        assert(seq![s[0]] + (rest + to + replace_spec(b, from, to)) =~= a + to + replace_spec(
            b,
            from,
            to,
        ));
    }
}

/// A text in which another does not occur stays as it is.
pub proof fn other_texts_are_kept(s: Seq<char>, from: Seq<char>, to: Seq<char>)
    requires
        from.len() > 0,
        forall|i: int| 0 <= i < s.len() ==> !#[trigger] stands_at(s, from, i),
    ensures
        replace_spec(s, from, to) == s,
    decreases s.len(),
{
    if s.len() > 0 {
        assert(!stands_at(s, from, 0));
        let rest = s.drop_first();
        assert forall|i: int| 0 <= i < rest.len() implies !#[trigger] stands_at(rest, from, i) by {
            assert(!stands_at(s, from, i + 1));
            if stands_at(rest, from, i) {
                assert(s.subrange(i + 1, i + 1 + from.len()) =~= rest.subrange(i, i + from.len()));
            }
        }
        other_texts_are_kept(rest, from, to);
        assert(seq![s[0]] + rest =~= s);
    } else {
        assert(s =~= Seq::empty());
    }
}

/// Hiding changes nothing but the client's key, its address and what phases say of that address.
pub proof fn hiding_keeps_the_rest(report: ReportModel, i: int)
    requires
        0 <= i < report.phases.len(),
    ensures
        ({
            let hidden = redacted_spec(report);
            let shown = report.phases[i];
            let phase = hidden.phases[i];
            &&& hidden.verdict == report.verdict && hidden.endpoint == report.endpoint
            &&& hidden.resolved_endpoint == report.resolved_endpoint
            &&& hidden.duration_ms == report.duration_ms
            &&& hidden.sent_bytes == report.sent_bytes
            &&& hidden.received_bytes == report.received_bytes
            &&& hidden.client_public_key == "[redacted]"@ && hidden.local_udp_address is None
            &&& hidden.phases.len() == report.phases.len()
            &&& phase.phase == shown.phase && phase.status == shown.status
            &&& phase.duration_ms == shown.duration_ms
            &&& phase.sent_bytes == shown.sent_bytes && phase.received_bytes == shown.received_bytes
            &&& phase.target is Some == shown.target is Some
            &&& phase.detail is Some == shown.detail is Some
            &&& report.local_udp_address is None ==> phase == shown
            &&& report.local_udp_address matches Some(address) ==> (shown.target matches Some(target)
                ==> phase.target == Some(
                replace_spec(target, SocketAddr::text_spec(address), "[redacted]"@),
            ))
            &&& report.local_udp_address matches Some(address) ==> (shown.detail matches Some(detail)
                ==> phase.detail == Some(
                replace_spec(detail, SocketAddr::text_spec(address), "[redacted]"@),
            ))
        }),
{
}

/// The report shows every phase, in order.
pub proof fn every_phase_is_shown(before: Seq<PhaseModel>, after: Seq<PhaseModel>, color: bool)
    ensures
        all_phase_lines(before + after, color) == all_phase_lines(before, color) + all_phase_lines(
            after,
            color,
        ),
        before.len() == 1 ==> all_phase_lines(before, color) == phase_lines(before[0], color),
    decreases after.len(),
{
    if after.len() > 0 {
        assert((before + after).drop_last() =~= before + after.drop_last());
        every_phase_is_shown(before, after.drop_last(), color);
        assert(all_phase_lines(before + after, color) =~= all_phase_lines(before, color)
            + all_phase_lines(after, color));
    } else {
        assert(before + after =~= before);
        assert(all_phase_lines(before, color) + all_phase_lines(after, color) =~= all_phase_lines(
            before,
            color,
        ));
    }
    if before.len() == 1 {
        assert(before.drop_last() =~= Seq::empty());
        assert(all_phase_lines(Seq::empty(), color) =~= Seq::empty());
        assert(Seq::empty() + phase_lines(before[0], color) =~= phase_lines(before[0], color));
    }
}

proof fn lemma_spaces(n: int)
    ensures
        spaces(n).len() == (if n > 0 {
            n
        } else {
            0
        }),
        forall|i: int| 0 <= i < spaces(n).len() ==> #[trigger] spaces(n)[i] == ' ',
    decreases n,
{
    if n > 0 {
        lemma_spaces(n - 1);
    }
}

/// A text is filled up with spaces to a width: at its end, at its start, or at both with one more at the
/// end; one that is wide enough stays as it is.
pub proof fn texts_are_filled_up(s: Seq<char>, width: int)
    ensures
        ({
            let missing = if width > s.len() {
                width - s.len()
            } else {
                0
            };
            let right = pad_right_spec(s, width);
            let left = pad_left_spec(s, width);
            let middle = center_spec(s, width);
            let half = missing / 2;
            &&& right.len() == s.len() + missing && right.take(s.len() as int) == s
            &&& forall|i: int| s.len() <= i < right.len() ==> #[trigger] right[i] == ' '
            &&& left.len() == s.len() + missing && left.skip(missing) == s
            &&& forall|i: int| 0 <= i < missing ==> #[trigger] left[i] == ' '
            &&& middle.len() == s.len() + missing && middle.subrange(half, half + s.len()) == s
            &&& forall|i: int|
                0 <= i < half || half + s.len() <= i < middle.len() ==> #[trigger] middle[i] == ' '
        }),
{
    let missing = if width > s.len() {
        width - s.len()
    } else {
        0
    };
    lemma_spaces(width - s.len());
    lemma_spaces((width - s.len()) / 2);
    lemma_spaces(width - s.len() - (width - s.len()) / 2);
    assert(pad_right_spec(s, width).take(s.len() as int) =~= s);
    assert(pad_left_spec(s, width).skip(missing) =~= s);
    assert(center_spec(s, width).subrange(missing / 2, missing / 2 + s.len()) =~= s);
}

} // verus!
