//! What the bindings for other languages accept, and the names that they give to results.
use crate::console::{status_name_spec, ProbeArguments};
use crate::net::Ipv4Addr;
use crate::report::{PhaseStatus, Verdict};
use crate::text::{decimal, decimal_spec, string_views};
use crate::time::Duration;
use vstd::prelude::*;
use vstd::string::*;

verus! {

/// The longest timeout: one day, in milliseconds.
pub const MAX_TIMEOUT_MS: i64 = 86_400_000;

/// How many probes may run at once.
pub const MAX_CONCURRENT_PROBES: usize = 8;

/// The language that a binding is for; it decides how options are spelled.
#[derive(Clone, Copy, Debug, PartialEq, Eq, Structural)]
pub enum Binding {
    Node,
    Python,
}

/// The name of a status.
pub fn phase_status_name(status: &PhaseStatus) -> (r: &'static str)
    ensures
        r@ == status_name_spec(*status),
{
    crate::console::status_name(status)
}

/// The name of a verdict.
pub open spec fn verdict_name_spec(verdict: Verdict) -> Seq<char> {
    match verdict {
        Verdict::AuthenticationConfirmed => "authentication_confirmed"@,
        Verdict::DataPlaneConfirmed => "data_plane_confirmed"@,
        Verdict::Unconfirmed => "unconfirmed"@,
        Verdict::LocalError => "local_error"@,
    }
}

/// The name of a verdict.
pub fn verdict_name(verdict: &Verdict) -> (r: &'static str)
    ensures
        r@ == verdict_name_spec(*verdict),
{
    match verdict {
        Verdict::AuthenticationConfirmed => "authentication_confirmed",
        Verdict::DataPlaneConfirmed => "data_plane_confirmed",
        Verdict::Unconfirmed => "unconfirmed",
        Verdict::LocalError => "local_error",
    }
}

/// The right to run one probe.
#[derive(Debug)]
pub struct ProbeSlot {
    taken: bool,
}

impl ProbeSlot {
    /// Takes a slot and counts it, if fewer than the maximum are taken.
    pub fn acquire(active: &mut usize) -> (r: Result<ProbeSlot, String>)
        ensures
            match r {
                Ok(_) => *old(active) < MAX_CONCURRENT_PROBES && *final(active) == *old(active) + 1,
                Err(message) => *old(active) >= MAX_CONCURRENT_PROBES && *final(active) == *old(
                    active,
                ) && message@ == "at most 8 probes can run concurrently"@,
            },
            r is Ok <==> *old(active) < 8,
    {
        if *active < MAX_CONCURRENT_PROBES {
            *active = *active + 1;
            Ok(ProbeSlot { taken: true })
        } else {
            Err("at most 8 probes can run concurrently".to_string())
        }
    }

    /// Gives the slot back.
    pub fn release(self, active: &mut usize)
        requires
            *old(active) > 0,
        ensures
            *final(active) == *old(active) - 1,
    {
        *active = *active - 1;
    }
}

/// The refusal of a timeout.
pub open spec fn timeout_refusal(name: Seq<char>) -> Seq<char> {
    name + " must be an integer from 1 through "@ + decimal_spec(MAX_TIMEOUT_MS as int)
}

/// The timeout that an option gives in milliseconds; nothing where it is no whole number.
pub fn timeout(value: Option<i64>, name: &str) -> (r: Result<Duration, String>)
    ensures
        match r {
            Ok(duration) => value matches Some(ms) && 1 <= ms <= MAX_TIMEOUT_MS && duration.nanos()
                == ms * 1_000_000,
            Err(message) => !(value matches Some(ms) && 1 <= ms <= MAX_TIMEOUT_MS) && message@
                == timeout_refusal(name@),
        },
{
    if let Some(ms) = value {
        if 1 <= ms && ms <= MAX_TIMEOUT_MS {
            return Ok(Duration::from_millis(ms as u64));
        }
    }
    let mut message = name.to_string();
    message.append(" must be an integer from 1 through ");
    message.append(decimal(MAX_TIMEOUT_MS as u64).as_str());
    Err(message)
}

/// The refusal of an address.
pub open spec fn address_refusal(name: Seq<char>, value: Seq<char>) -> Seq<char> {
    name + " must be an IPv4 address, got "@ + value
}

/// The address that an option gives.
pub fn parse_ipv4(value: &str, name: &str) -> (r: Result<Ipv4Addr, String>)
    ensures
        match r {
            Ok(address) => Ipv4Addr::parse_spec(value@) == Some(address),
            Err(message) => Ipv4Addr::parse_spec(value@) is None && message@ == address_refusal(
                name@,
                value@,
            ),
        },
{
    match Ipv4Addr::parse(value) {
        Some(address) => Ok(address),
        None => {
            let mut message = name.to_string();
            message.append(" must be an IPv4 address, got ");
            message.append(value);
            Err(message)
        },
    }
}

/// The addresses that the values give, or the first value that gives none.
pub open spec fn address_values(values: Seq<Seq<char>>) -> Result<Seq<Ipv4Addr>, Seq<char>>
    decreases values.len(),
{
    if values.len() == 0 {
        Ok(Seq::empty())
    } else {
        match address_values(values.drop_last()) {
            Err(value) => Err(value),
            Ok(list) => match Ipv4Addr::parse_spec(values.last()) {
                Some(address) => Ok(list.push(address)),
                None => Err(values.last()),
            },
        }
    }
}

proof fn lemma_address_error(values: Seq<Seq<char>>, i: int)
    requires
        0 <= i <= values.len(),
        address_values(values.take(i)) is Err,
    ensures
        address_values(values) == address_values(values.take(i)),
    decreases values.len() - i,
{
    if i == values.len() {
        assert(values.take(i) =~= values);
    } else {
        assert(values.take(i + 1).drop_last() =~= values.take(i));
        lemma_address_error(values, i + 1);
    }
}

fn parse_addresses(values: &Vec<String>, name: &str) -> (r: Result<Vec<Ipv4Addr>, String>)
    ensures
        match r {
            Ok(list) => address_values(string_views(values@)) == Ok::<Seq<Ipv4Addr>, Seq<char>>(
                list@,
            ),
            Err(message) => address_values(string_views(values@)) matches Err(value) && message@
                == address_refusal(name@, value),
        },
{
    let ghost all = string_views(values@);
    let mut list: Vec<Ipv4Addr> = Vec::new();
    let mut i: usize = 0;
    assert(all.take(0) =~= Seq::empty());
    assert(list@ =~= Seq::empty());
    while i < values.len()
        invariant
            i <= values@.len(),
            all == string_views(values@),
            address_values(all.take(i as int)) == Ok::<Seq<Ipv4Addr>, Seq<char>>(list@),
        decreases values@.len() - i,
    {
        assert(all.take(i + 1).drop_last() =~= all.take(i as int));
        assert(all.take(i + 1).last() == values@[i as int]@);
        match parse_ipv4(values[i].as_str(), name) {
            Ok(address) => {
                list.push(address);
            },
            Err(message) => {
                proof {
                    lemma_address_error(all, i + 1);
                }
                return Err(message);
            },
        }
        i = i + 1;
    }
    assert(all.take(i as int) =~= all);
    Ok(list)
}

/// How the name of the DNS server's option is spelled.
pub open spec fn dns_option(binding: Binding) -> Seq<char> {
    match binding {
        Binding::Node => "dnsServer"@,
        Binding::Python => "dns_server"@,
    }
}

/// How the names of the options for times are spelled: handshake, ping, DNS and deadline.
pub open spec fn time_options(binding: Binding) -> (Seq<char>, Seq<char>, Seq<char>, Seq<char>) {
    match binding {
        Binding::Node => (
            "handshakeTimeoutMs"@,
            "pingTimeoutMs"@,
            "dnsTimeoutMs"@,
            "deadlineMs"@,
        ),
        Binding::Python => (
            "handshake_timeout_ms"@,
            "ping_timeout_ms"@,
            "dns_timeout_ms"@,
            "deadline_ms"@,
        ),
    }
}

/// The times that the user gives in milliseconds; nothing where one is no whole number.
#[derive(Clone, Copy, Debug, PartialEq, Eq, Structural)]
pub struct TimeOptions {
    pub handshake: Option<i64>,
    pub ping: Option<i64>,
    pub dns: Option<i64>,
    pub deadline: Option<i64>,
}

/// Whether a timeout is allowed.
pub open spec fn is_timeout(value: Option<i64>) -> bool {
    value matches Some(ms) && 1 <= ms <= MAX_TIMEOUT_MS
}

/// The first reason to refuse the options, if there is one.
pub open spec fn options_refusal(
    binding: Binding,
    pings: Seq<Seq<char>>,
    dns_server: Option<Seq<char>>,
    times: TimeOptions,
) -> Option<Seq<char>> {
    let names = time_options(binding);
    if address_values(pings) is Err {
        Some(address_refusal("ping target"@, address_values(pings)->Err_0))
    } else if dns_server is Some && Ipv4Addr::parse_spec(dns_server.unwrap()) is None {
        Some(address_refusal(dns_option(binding), dns_server.unwrap()))
    } else if !is_timeout(times.handshake) {
        Some(timeout_refusal(names.0))
    } else if !is_timeout(times.ping) {
        Some(timeout_refusal(names.1))
    } else if !is_timeout(times.dns) {
        Some(timeout_refusal(names.2))
    } else if !is_timeout(times.deadline) {
        Some(timeout_refusal(names.3))
    } else {
        None
    }
}

/// What the options ask a probe to do.
pub fn parse_options(
    binding: Binding,
    pings: &Vec<String>,
    resolves: Vec<String>,
    dns_server: Option<&str>,
    times: TimeOptions,
) -> (r: Result<ProbeArguments, String>)
    ensures
        match r {
            Ok(arguments) => {
                &&& options_refusal(
                    binding,
                    string_views(pings@),
                    crate::finder::option_view(dns_server),
                    times,
                ) is None
                &&& address_values(string_views(pings@)) == Ok::<Seq<Ipv4Addr>, Seq<char>>(
                    arguments.pings@,
                )
                &&& arguments.resolves == resolves
                &&& arguments.dns_server == (match dns_server {
                    Some(value) => Ipv4Addr::parse_spec(value@),
                    None => None,
                })
                &&& arguments.handshake_timeout.nanos() == times.handshake.unwrap() * 1_000_000
                &&& arguments.ping_timeout.nanos() == times.ping.unwrap() * 1_000_000
                &&& arguments.dns_timeout.nanos() == times.dns.unwrap() * 1_000_000
                &&& arguments.deadline.nanos() == times.deadline.unwrap() * 1_000_000
            },
            Err(message) => options_refusal(
                binding,
                string_views(pings@),
                crate::finder::option_view(dns_server),
                times,
            ) == Some(message@),
        },
{
    let pings = match parse_addresses(pings, "ping target") {
        Ok(list) => list,
        Err(message) => {
            return Err(message);
        },
    };
    let (server_name, handshake_name, ping_name, dns_name, deadline_name) = match binding {
        Binding::Node => (
            "dnsServer",
            "handshakeTimeoutMs",
            "pingTimeoutMs",
            "dnsTimeoutMs",
            "deadlineMs",
        ),
        Binding::Python => (
            "dns_server",
            "handshake_timeout_ms",
            "ping_timeout_ms",
            "dns_timeout_ms",
            "deadline_ms",
        ),
    };
    let dns_server = match dns_server {
        Some(value) => match parse_ipv4(value, server_name) {
            Ok(address) => Some(address),
            Err(message) => {
                return Err(message);
            },
        },
        None => None,
    };
    let handshake_timeout = match timeout(times.handshake, handshake_name) {
        Ok(duration) => duration,
        Err(message) => {
            return Err(message);
        },
    };
    let ping_timeout = match timeout(times.ping, ping_name) {
        Ok(duration) => duration,
        Err(message) => {
            return Err(message);
        },
    };
    let dns_timeout = match timeout(times.dns, dns_name) {
        Ok(duration) => duration,
        Err(message) => {
            return Err(message);
        },
    };
    let deadline = match timeout(times.deadline, deadline_name) {
        Ok(duration) => duration,
        Err(message) => {
            return Err(message);
        },
    };
    Ok(
        ProbeArguments {
            pings,
            resolves,
            dns_server,
            handshake_timeout,
            ping_timeout,
            dns_timeout,
            deadline,
        },
    )
}

/// How the name of the option for allowed networks is spelled.
pub open spec fn allowed_option(binding: Binding) -> Seq<char> {
    match binding {
        Binding::Node => "allowedIps"@,
        Binding::Python => "allowed_ips"@,
    }
}

/// The first reason to refuse a probe with a bare key: an address and allowed networks go
/// together, data checks need both, and DNS checks a server.
pub open spec fn raw_refusal(
    binding: Binding,
    has_address: bool,
    networks: int,
    pings: int,
    resolves: int,
    has_server: bool,
) -> Option<Seq<char>> {
    if has_address != (networks > 0) {
        Some(
            "address and at least one "@ + allowed_option(binding)
                + " entry must be supplied together"@,
        )
    } else if (pings > 0 || resolves > 0) && !has_address {
        Some(
            "data checks require address and at least one "@ + allowed_option(binding) + " entry"@,
        )
    } else if resolves > 0 && !has_server {
        Some("resolve requires an IPv4 "@ + dns_option(binding) + " in raw-key mode"@)
    } else {
        None
    }
}

/// Checks that the options of a probe with a bare key go together.
pub fn check_raw_options(
    binding: Binding,
    arguments: &ProbeArguments,
    has_address: bool,
    networks: usize,
) -> (r: Result<(), String>)
    ensures
        match r {
            Ok(_) => raw_refusal(
                binding,
                has_address,
                networks as int,
                arguments.pings@.len() as int,
                arguments.resolves@.len() as int,
                arguments.dns_server is Some,
            ) is None,
            Err(message) => raw_refusal(
                binding,
                has_address,
                networks as int,
                arguments.pings@.len() as int,
                arguments.resolves@.len() as int,
                arguments.dns_server is Some,
            ) == Some(message@),
        },
{
    let (allowed_name, server_name) = match binding {
        Binding::Node => ("allowedIps", "dnsServer"),
        Binding::Python => ("allowed_ips", "dns_server"),
    };
    if has_address != (networks > 0) {
        let mut message = "address and at least one ".to_string();
        message.append(allowed_name);
        message.append(" entry must be supplied together");
        return Err(message);
    }
    if (arguments.pings.len() > 0 || arguments.resolves.len() > 0) && !has_address {
        let mut message = "data checks require address and at least one ".to_string();
        message.append(allowed_name);
        message.append(" entry");
        return Err(message);
    }
    if arguments.resolves.len() > 0 && arguments.dns_server.is_none() {
        let mut message = "resolve requires an IPv4 ".to_string();
        message.append(server_name);
        message.append(" in raw-key mode");
        return Err(message);
    }
    Ok(())
}

} // verus!
