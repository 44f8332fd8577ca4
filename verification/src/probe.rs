//! The plan of a probe, and its course from endpoint resolution to the last data check.
use crate::config::{cidr_parts, ConfigModel, Ipv4Cidr, ProbeConfig};
use crate::engine::random_u32;
use crate::keys::{base64_text, x25519_public};
use crate::net::{
    IpAddr, IpModel, Ipv4Addr, Ipv6Addr, SocketAddr, SocketAddrV4, SocketAddrV6, SocketModel,
};
use crate::packet::{
    dns_query, dns_query_spec, encode_name_spec, echo_request_spec, icmp_echo_request,
    ipv4_packet_spec,
};
use crate::report::{
    emit_start, event_models, finished_event, option_socket, option_text, push_phase, started_event, EventModel,
    PhaseModel, PhaseResult, PhaseStatus, ProbeError, ProbeEvent, ProbeReport, ReportModel, Verdict, with_phase_keeps_totals,
};
use crate::session::{
    CheckOutcome, Expectation, ExpectationModel, FailureModel, HandshakeFailure, OutcomeModel,
};
use crate::text::string_views;
use crate::time::{deadline, millis, millis_spec, Duration};
use crate::tunnel::Tunnel;
use std::time::Instant;
use vstd::prelude::*;
use vstd::string::*;

verus! {

/// A reading of the system's clock.
#[verifier::external_type_specification]
#[verifier::external_body]
pub struct ExInstant(Instant);

/// `Instant::now`: the present moment. Nothing is stated of it.
pub assume_specification[ Instant::now ]() -> Instant
;

/// The time that a reading of the clock stands for, in nanoseconds.
pub uninterp spec fn clock_time(reading: Instant) -> int;

/// Whether the clock can represent the moment that lies so many nanoseconds ahead: there is a
/// reading for it.
pub open spec fn clock_holds(now: Instant, ahead: int) -> bool {
    exists|reading: Instant| #[trigger] clock_time(reading) == clock_time(now) + ahead
}

/// `Instant::checked_add`: there is a result where the moment that lies the given time ahead can be
/// represented as a reading, and there is none otherwise. Which moments can be represented depends
/// on the machine, and is not stated.
#[verifier::external_body]
fn clock_reaches(now: &Instant, ahead: Duration) -> (r: bool)
    ensures
        r == exists|reading: Instant|
            #[trigger] clock_time(reading) == clock_time(*now) + ahead.nanos(),
{
    now.checked_add(std::time::Duration::new(ahead.secs(), ahead.subsec_nanos())).is_some()
}

/// What a probe does: the tunnel, the data checks, and the time for each step.
pub struct ProbePlan {
    pub(crate) config: ProbeConfig,
    pub(crate) pings: Vec<Ipv4Addr>,
    pub(crate) resolves: Vec<String>,
    pub(crate) dns_server: Option<Ipv4Addr>,
    pub(crate) handshake_timeout: Duration,
    pub(crate) ping_timeout: Duration,
    pub(crate) dns_timeout: Duration,
    pub(crate) overall_timeout: Duration,
}

/// A plan as a mathematical value, with times in nanoseconds.
#[verifier::ext_equal]
pub struct PlanModel {
    pub config: ConfigModel,
    pub pings: Seq<Ipv4Addr>,
    pub resolves: Seq<Seq<char>>,
    pub dns_server: Option<Ipv4Addr>,
    pub handshake_timeout: int,
    pub ping_timeout: int,
    pub dns_timeout: int,
    pub overall_timeout: int,
}

impl View for ProbePlan {
    type V = PlanModel;

    closed spec fn view(&self) -> PlanModel {
        PlanModel {
            config: self.config@,
            pings: self.pings@,
            resolves: string_views(self.resolves@),
            dns_server: self.dns_server,
            handshake_timeout: self.handshake_timeout.nanos(),
            ping_timeout: self.ping_timeout.nanos(),
            dns_timeout: self.dns_timeout.nanos(),
            overall_timeout: self.overall_timeout.nanos(),
        }
    }
}

/// Whether a network of the list contains the address.
pub open spec fn allowed(networks: Seq<(Ipv4Addr, int)>, address: Ipv4Addr) -> bool {
    exists|i: int|
        0 <= i < networks.len() && in_network(#[trigger] networks[i], address)
}

/// Whether the leading bits of the network's address and of `address` agree.
pub open spec fn in_network(network: (Ipv4Addr, int), address: Ipv4Addr) -> bool {
    let size = vstd::arithmetic::power2::pow2((32 - network.1) as nat) as int;
    network.0.number() / size == address.number() / size
}

/// Whether a network of the list contains the address.
pub fn is_allowed(networks: &[Ipv4Cidr], address: Ipv4Addr) -> (r: bool)
    ensures
        r == allowed(cidr_parts(networks@), address),
{
    let ghost parts = cidr_parts(networks@);
    let mut i: usize = 0;
    while i < networks.len()
        invariant
            i <= networks@.len(),
            parts == cidr_parts(networks@),
            forall|k: int| 0 <= k < i ==> !in_network(#[trigger] parts[k], address),
        decreases networks@.len() - i,
    {
        assert(parts[i as int] == networks@[i as int].parts());
        if networks[i].contains(address) {
            assert(in_network(parts[i as int], address));
            return true;
        }
        i = i + 1;
    }
    false
}

impl PlanModel {
    /// Whether the clock can represent all times of the plan, counted from a reading of it.
    pub open spec fn fits_clock(self, now: Instant) -> bool {
        &&& clock_holds(now, self.handshake_timeout)
        &&& clock_holds(now, self.ping_timeout)
        &&& clock_holds(now, self.dns_timeout)
        &&& clock_holds(now, self.overall_timeout)
    }

    /// The server for DNS checks: that of the plan, or else the first of the configuration where
    /// that is an IPv4 address.
    pub open spec fn effective_dns_server(self) -> Option<Ipv4Addr> {
        match self.dns_server {
            Some(server) => Some(server),
            None => if self.config.dns_servers.len() > 0 {
                match self.config.dns_servers[0] {
                    IpModel::V4(ip) => Some(ip),
                    IpModel::V6(_) => None,
                }
            } else {
                None
            },
        }
    }

    /// The source address of data checks.
    pub open spec fn source(self) -> Option<Ipv4Addr> {
        match self.config.address {
            Some((address, _)) => Some(address),
            None => None,
        }
    }

    /// The first ping target outside the allowed networks, if there is one.
    pub open spec fn refused_ping(self, i: int) -> Option<Ipv4Addr>
        decreases self.pings.len() - i,
    {
        if i >= self.pings.len() {
            None
        } else if !allowed(self.config.allowed_ips, self.pings[i]) {
            Some(self.pings[i])
        } else {
            self.refused_ping(i + 1)
        }
    }

    /// The message on the first name that cannot be asked for, if there is one.
    pub open spec fn refused_name(self, i: int) -> Option<Seq<char>>
        decreases self.resolves.len() - i,
    {
        if i >= self.resolves.len() {
            None
        } else {
            match encode_name_spec(self.resolves[i]).0 {
                Some(error) => Some("invalid DNS name "@ + self.resolves[i] + ": "@ + error@),
                None => self.refused_name(i + 1),
            }
        }
    }

    /// The first reason to refuse the plan, if there is one, clock limits aside.
    pub open spec fn refusal(self) -> Option<Seq<char>> {
        if self.handshake_timeout == 0 || self.ping_timeout == 0 || self.dns_timeout == 0
            || self.overall_timeout == 0 {
            Some("all timeouts and the overall deadline must be greater than zero"@)
        } else if self.pings.len() == 0 && self.resolves.len() == 0 {
            None
        } else if self.source() is None {
            Some("data checks require an IPv4 Interface Address (or --address)"@)
        } else if self.config.allowed_ips.len() == 0 {
            Some("data checks require IPv4 Peer AllowedIPs (or --allowed-ip)"@)
        } else if self.resolves.len() > 0 && self.effective_dns_server() is None {
            Some("DNS checks require an IPv4 Interface DNS server or --dns-server"@)
        } else if self.refused_ping(0) is Some {
            Some(
                "ping target "@ + self.refused_ping(0).unwrap().text_spec()
                    + " is outside Peer AllowedIPs"@,
            )
        } else if self.resolves.len() > 0 && !allowed(
            self.config.allowed_ips,
            self.effective_dns_server().unwrap(),
        ) {
            Some(
                "DNS server "@ + self.effective_dns_server().unwrap().text_spec()
                    + " is outside Peer AllowedIPs"@,
            )
        } else {
            self.refused_name(0)
        }
    }
}

/// The refusal of times that the clock cannot represent.
pub open spec fn clock_refusal() -> Seq<char> {
    "timeouts and the overall deadline must be representable by the system clock"@
}

impl ProbePlan {
    /// A plan without data checks and with the usual times.
    pub fn new(config: ProbeConfig) -> (r: ProbePlan)
        ensures
            r@ == (PlanModel {
                config: config@,
                pings: Seq::empty(),
                resolves: Seq::empty(),
                dns_server: None,
                handshake_timeout: 3_000_000_000,
                ping_timeout: 1_000_000_000,
                dns_timeout: 2_000_000_000,
                overall_timeout: 9_000_000_000,
            }),
    {
        let plan = ProbePlan {
            config,
            pings: Vec::new(),
            resolves: Vec::new(),
            dns_server: None,
            handshake_timeout: Duration::from_millis(3000),
            ping_timeout: Duration::from_millis(1000),
            dns_timeout: Duration::from_millis(2000),
            overall_timeout: Duration::from_millis(9000),
        };
        assert(plan@.resolves =~= Seq::empty());
        plan
    }

    /// The plan with one more ping.
    pub fn ping(self, target: Ipv4Addr) -> (r: ProbePlan)
        ensures
            r@ == (PlanModel { pings: self@.pings.push(target), ..self@ }),
    {
        let mut plan = self;
        plan.pings.push(target);
        plan
    }

    /// The plan with one more name to resolve.
    pub fn resolve(self, name: &str) -> (r: ProbePlan)
        ensures
            r@ == (PlanModel { resolves: self@.resolves.push(name@), ..self@ }),
    {
        let mut plan = self;
        plan.resolves.push(name.to_string());
        assert(plan@.resolves =~= self@.resolves.push(name@));
        plan
    }

    /// The plan with a server for DNS checks.
    pub fn dns_server(self, server: Ipv4Addr) -> (r: ProbePlan)
        ensures
            r@ == (PlanModel { dns_server: Some(server), ..self@ }),
    {
        let mut plan = self;
        plan.dns_server = Some(server);
        plan
    }

    /// The plan with other times.
    pub fn timeouts(
        self,
        handshake: Duration,
        ping: Duration,
        dns: Duration,
        overall: Duration,
    ) -> (r: ProbePlan)
        ensures
            r@ == (PlanModel {
                handshake_timeout: handshake.nanos(),
                ping_timeout: ping.nanos(),
                dns_timeout: dns.nanos(),
                overall_timeout: overall.nanos(),
                ..self@
            }),
    {
        let mut plan = self;
        plan.handshake_timeout = handshake;
        plan.ping_timeout = ping;
        plan.dns_timeout = dns;
        plan.overall_timeout = overall;
        plan
    }

    fn effective_dns_server(&self) -> (r: Option<Ipv4Addr>)
        ensures
            r == self@.effective_dns_server(),
    {
        match self.dns_server {
            Some(server) => Some(server),
            None => {
                let servers = self.config.dns_servers();
                if servers.len() == 0 {
                    return None;
                }
                assert(self@.config.dns_servers[0] == servers@[0]@);
                match servers[0] {
                    IpAddr::V4(ip) => Some(ip),
                    IpAddr::V6(_) => None,
                }
            },
        }
    }

    fn source(&self) -> (r: Option<Ipv4Addr>)
        ensures
            r == self@.source(),
    {
        match self.config.address() {
            Some(cidr) => Some(cidr.address()),
            None => None,
        }
    }

    fn refused_name(&self) -> (r: Option<String>)
        ensures
            self@.refused_name(0) == (match r {
                Some(message) => Some(message@),
                None => None,
            }),
    {
        let mut i: usize = 0;
        while i < self.resolves.len()
            invariant
                i <= self.resolves@.len(),
                self@.refused_name(0) == self@.refused_name(i as int),
            decreases self.resolves@.len() - i,
        {
            assert(self@.resolves[i as int] == self.resolves@[i as int]@);
            let zero = Ipv4Addr::new(0, 0, 0, 0);
            let name = self.resolves[i].as_str();
            if let Err(error) = dns_query(zero, zero, 1, 1, 1, name) {
                let mut message = "invalid DNS name ".to_string();
                message.append(name);
                message.append(": ");
                message.append(error);
                return Some(message);
            }
            i = i + 1;
        }
        None
    }

    fn refused_ping(&self) -> (r: Option<Ipv4Addr>)
        ensures
            r == self@.refused_ping(0),
    {
        let mut i: usize = 0;
        while i < self.pings.len()
            invariant
                i <= self.pings@.len(),
                self@.refused_ping(0) == self@.refused_ping(i as int),
            decreases self.pings@.len() - i,
        {
            if !is_allowed(self.config.allowed_ips(), self.pings[i]) {
                return Some(self.pings[i]);
            }
            i = i + 1;
        }
        None
    }

    /// The first reason to refuse the plan, if there is one, clock limits aside.
    pub fn validate_plan(&self) -> (r: Option<String>)
        ensures
            self@.refusal() == (match r {
                Some(message) => Some(message@),
                None => None,
            }),
    {
        if self.handshake_timeout.is_zero() || self.ping_timeout.is_zero()
            || self.dns_timeout.is_zero() || self.overall_timeout.is_zero() {
            return Some(
                "all timeouts and the overall deadline must be greater than zero".to_string(),
            );
        }
        if self.pings.len() == 0 && self.resolves.len() == 0 {
            return None;
        }
        if self.source().is_none() {
            return Some(
                "data checks require an IPv4 Interface Address (or --address)".to_string(),
            );
        }
        if self.config.allowed_ips().len() == 0 {
            return Some("data checks require IPv4 Peer AllowedIPs (or --allowed-ip)".to_string());
        }
        let dns_server = self.effective_dns_server();
        if self.resolves.len() > 0 && dns_server.is_none() {
            return Some(
                "DNS checks require an IPv4 Interface DNS server or --dns-server".to_string(),
            );
        }
        if let Some(target) = self.refused_ping() {
            let mut message = "ping target ".to_string();
            message.append(target.text().as_str());
            message.append(" is outside Peer AllowedIPs");
            return Some(message);
        }
        if let Some(server) = dns_server {
            if self.resolves.len() > 0 && !is_allowed(self.config.allowed_ips(), server) {
                let mut message = "DNS server ".to_string();
                message.append(server.text().as_str());
                message.append(" is outside Peer AllowedIPs");
                return Some(message);
            }
        }
        self.refused_name()
    }

    /// Checks the plan, where the clock can represent all times or not.
    pub fn validate_with(&self, representable: bool) -> (r: Result<(), ProbeError>)
        ensures
            match r {
                Ok(_) => representable && self@.refusal() is None,
                Err(e) => if representable {
                    self@.refusal() == Some(e.message_spec())
                } else {
                    e.message_spec() == clock_refusal()
                },
            },
    {
        if !representable {
            return Err(
                ProbeError::InvalidPlan(
                    "timeouts and the overall deadline must be representable by the system clock".to_string(),
                ),
            );
        }
        match self.validate_plan() {
            Some(detail) => Err(ProbeError::InvalidPlan(detail)),
            None => Ok(()),
        }
    }

    /// Whether the system's clock can represent all times of the plan, counted from now.
    pub fn representable(&self) -> (r: bool)
        ensures
            exists|now: Instant| r == #[trigger] self@.fits_clock(now),
    {
        let now = Instant::now();
        let r = clock_reaches(&now, self.handshake_timeout) && clock_reaches(
            &now,
            self.ping_timeout,
        ) && clock_reaches(&now, self.dns_timeout) && clock_reaches(&now, self.overall_timeout);
        assert(r == self@.fits_clock(now));
        r
    }

    /// Checks the plan without resolving or contacting the endpoint. It is refused for its own
    /// faults or for the limits of the system's clock.
    pub fn validate(&self) -> (r: Result<(), ProbeError>)
        ensures
            exists|now: Instant|
                match r {
                    Ok(_) => #[trigger] self@.fits_clock(now) && self@.refusal() is None,
                    Err(e) => if self@.fits_clock(now) {
                        self@.refusal() == Some(e.message_spec())
                    } else {
                        e.message_spec() == clock_refusal()
                    },
                },
    {
        let representable = self.representable();
        self.validate_with(representable)
    }
}

/// What a probe waits for.
#[derive(Clone, Copy, Debug, PartialEq, Eq, Structural)]
pub enum RunStage {
    /// The address of the endpoint.
    Resolving,
    /// A socket that is connected to the endpoint.
    Opening,
    /// The outcome of the handshake.
    Handshaking,
    /// The outcome of a ping.
    Pinging,
    /// The outcome of a DNS query.
    Asking,
    /// Nothing any more.
    Over,
}

/// Random numbers for the identifiers of one data check.
#[derive(Clone, Copy, Debug, PartialEq, Eq, Structural)]
pub struct Draws {
    pub first: u32,
    pub second: u32,
    pub third: u32,
}

impl Draws {
    /// The low half of the first number.
    pub open spec fn first_word(self) -> u16 {
        (self.first % 0x10000) as u16
    }

    /// The low half of the second number.
    pub open spec fn second_word(self) -> u16 {
        (self.second % 0x10000) as u16
    }

    /// The low half of the third number.
    pub open spec fn third_word(self) -> u16 {
        (self.third % 0x10000) as u16
    }

    /// A port for a query, from 32768 to 60999.
    pub open spec fn port(self) -> u16 {
        (32768 + self.first % 28232) as u16
    }
}

/// What happened to a probe.
#[derive(Debug, PartialEq, Eq)]
pub enum ProbeInput {
    /// The endpoint was resolved, perhaps to no address.
    Resolved(Result<Option<SocketAddr>, String>),
    /// The socket was opened; its own address may be unknown.
    Opened(Result<Option<SocketAddr>, String>),
    /// The handshake established a session.
    Authenticated { sent: u64, received: u64, keepalive: Result<u64, String> },
    /// The handshake failed.
    NotAuthenticated(HandshakeFailure),
    /// A data check ended.
    Checked(CheckOutcome),
}

/// What happened to a probe, as a mathematical value.
#[verifier::ext_equal]
pub enum ProbeInputModel {
    Resolved(Result<Option<SocketModel>, Seq<char>>),
    Opened(Result<Option<SocketModel>, Seq<char>>),
    Authenticated { sent: int, received: int, keepalive: Result<int, Seq<char>> },
    NotAuthenticated(FailureModel),
    Checked(OutcomeModel),
}

/// The view of an I/O result that brings an address.
pub open spec fn address_model(result: Result<Option<SocketAddr>, String>) -> Result<
    Option<SocketModel>,
    Seq<char>,
> {
    match result {
        Ok(address) => Ok(option_socket(address)),
        Err(error) => Err(error@),
    }
}

impl View for ProbeInput {
    type V = ProbeInputModel;

    open spec fn view(&self) -> ProbeInputModel {
        match self {
            ProbeInput::Resolved(result) => ProbeInputModel::Resolved(address_model(*result)),
            ProbeInput::Opened(result) => ProbeInputModel::Opened(address_model(*result)),
            ProbeInput::Authenticated { sent, received, keepalive } => {
                ProbeInputModel::Authenticated {
                    sent: *sent as int,
                    received: *received as int,
                    keepalive: match keepalive {
                        Ok(count) => Ok(*count as int),
                        Err(detail) => Err(detail@),
                    },
                }
            },
            ProbeInput::NotAuthenticated(failure) => ProbeInputModel::NotAuthenticated(failure@),
            ProbeInput::Checked(outcome) => ProbeInputModel::Checked(outcome@),
        }
    }
}

impl ProbeInputModel {
    /// The bytes sent that the input reports.
    pub open spec fn sent(self) -> int {
        match self {
            ProbeInputModel::Authenticated { sent, received, keepalive } => sent + (
            match keepalive {
                Ok(count) => count,
                Err(_) => 0,
            }),
            ProbeInputModel::NotAuthenticated(failure) => failure.sent,
            ProbeInputModel::Checked(OutcomeModel::Passed { sent, received, answers }) => sent,
            ProbeInputModel::Checked(OutcomeModel::Unconfirmed { sent, received }) => sent,
            ProbeInputModel::Checked(OutcomeModel::Error { detail, sent, received }) => sent,
            _ => 0,
        }
    }

    /// The bytes received that the input reports.
    pub open spec fn received(self) -> int {
        match self {
            ProbeInputModel::Authenticated { sent, received, keepalive } => received,
            ProbeInputModel::NotAuthenticated(failure) => failure.received,
            ProbeInputModel::Checked(OutcomeModel::Passed { sent, received, answers }) => received,
            ProbeInputModel::Checked(OutcomeModel::Unconfirmed { sent, received }) => received,
            ProbeInputModel::Checked(OutcomeModel::Error { detail, sent, received }) => received,
            _ => 0,
        }
    }
}

/// What a probe needs next.
#[derive(Debug, PartialEq, Eq)]
pub enum ProbeAction {
    /// To resolve the endpoint in the given time.
    Resolve { name: String, timeout: Duration },
    /// A socket bound to the first address and connected to the second.
    Open { bind: SocketAddr, endpoint: SocketAddr },
    /// A handshake with the endpoint until the deadline.
    Handshake { endpoint: SocketAddr, deadline: Duration },
    /// A data check until the deadline.
    Check { packet: Vec<u8>, expectation: Expectation, deadline: Duration },
    /// Nothing: the probe has ended.
    Finished,
}

/// What a probe needs next, as a mathematical value.
#[verifier::ext_equal]
pub enum ProbeActionModel {
    Resolve { name: Seq<char>, timeout: int },
    Open { bind: SocketModel, endpoint: SocketModel },
    Handshake { endpoint: SocketModel, deadline: int },
    Check { packet: Seq<u8>, expectation: ExpectationModel, deadline: int },
    Finished,
}

impl View for ProbeAction {
    type V = ProbeActionModel;

    open spec fn view(&self) -> ProbeActionModel {
        match self {
            ProbeAction::Resolve { name, timeout } => ProbeActionModel::Resolve {
                name: name@,
                timeout: timeout.nanos(),
            },
            ProbeAction::Open { bind, endpoint } => ProbeActionModel::Open {
                bind: bind@,
                endpoint: endpoint@,
            },
            ProbeAction::Handshake { endpoint, deadline } => ProbeActionModel::Handshake {
                endpoint: endpoint@,
                deadline: deadline.nanos(),
            },
            ProbeAction::Check { packet, expectation, deadline } => ProbeActionModel::Check {
                packet: packet@,
                expectation: expectation@,
                deadline: deadline.nanos(),
            },
            ProbeAction::Finished => ProbeActionModel::Finished,
        }
    }
}

/// The earlier of the overall deadline and the end of a step's own time.
pub open spec fn deadline_spec(overall: int, started: int, timeout: int) -> int {
    if started + timeout < overall {
        started + timeout
    } else {
        overall
    }
}

/// The list of addresses with commas between them.
pub open spec fn joined_addresses(list: Seq<Ipv4Addr>) -> Seq<char>
    decreases list.len(),
{
    if list.len() == 0 {
        Seq::empty()
    } else if list.len() == 1 {
        list[0].text_spec()
    } else {
        joined_addresses(list.drop_last()) + ", "@ + list.last().text_spec()
    }
}

/// What a DNS check found.
pub open spec fn dns_detail(answers: Seq<Ipv4Addr>) -> Seq<char> {
    "valid DNS response; A records: "@ + (if answers.len() == 0 {
        "none"@
    } else {
        joined_addresses(answers)
    })
}

/// The phase that a data check adds to the report.
pub open spec fn check_phase_spec(
    phase: Seq<char>,
    target: Seq<char>,
    duration_ms: int,
    outcome: OutcomeModel,
) -> PhaseModel {
    match outcome {
        OutcomeModel::Passed { sent, received, answers } => PhaseModel {
            phase,
            target: Some(target),
            status: PhaseStatus::Passed,
            duration_ms,
            sent_bytes: sent,
            received_bytes: received,
            detail: Some("valid matching reply"@),
        },
        OutcomeModel::Unconfirmed { sent, received } => PhaseModel {
            phase,
            target: Some(target),
            status: PhaseStatus::Unconfirmed,
            duration_ms,
            sent_bytes: sent,
            received_bytes: received,
            detail: Some("no valid matching reply before the check deadline"@),
        },
        OutcomeModel::Error { detail, sent, received } => PhaseModel {
            phase,
            target: Some(target),
            status: PhaseStatus::Error,
            duration_ms,
            sent_bytes: sent,
            received_bytes: received,
            detail: Some(detail),
        },
    }
}

/// A phase that passed.
pub open spec fn passed_phase(
    phase: Seq<char>,
    target: Option<Seq<char>>,
    duration_ms: int,
    sent: int,
    received: int,
    detail: Option<Seq<char>>,
) -> PhaseModel {
    PhaseModel {
        phase,
        target,
        status: PhaseStatus::Passed,
        duration_ms,
        sent_bytes: sent,
        received_bytes: received,
        detail,
    }
}

/// A phase that failed before anything was sent.
pub open spec fn error_phase(
    phase: Seq<char>,
    target: Option<Seq<char>>,
    duration_ms: int,
    error: Seq<char>,
) -> PhaseModel {
    PhaseModel {
        phase,
        target,
        status: PhaseStatus::Error,
        duration_ms,
        sent_bytes: 0,
        received_bytes: 0,
        detail: Some(error),
    }
}

/// A data check that was not tried.
pub open spec fn skipped_phase(phase: Seq<char>, target: Seq<char>) -> PhaseModel {
    PhaseModel {
        phase,
        target: Some(target),
        status: PhaseStatus::Skipped,
        duration_ms: 0,
        sent_bytes: 0,
        received_bytes: 0,
        detail: Some("skipped because authentication was not confirmed"@),
    }
}

/// The keepalive that follows a handshake.
pub open spec fn keepalive_phase(target: Seq<char>, keepalive: Result<int, Seq<char>>) -> PhaseModel {
    PhaseModel {
        phase: "keepalive"@,
        target: Some(target),
        status: match keepalive {
            Ok(_) => PhaseStatus::Sent,
            Err(_) => PhaseStatus::Error,
        },
        duration_ms: 0,
        sent_bytes: match keepalive {
            Ok(count) => count,
            Err(_) => 0,
        },
        received_bytes: 0,
        detail: match keepalive {
            Ok(_) => Some("initial encrypted keepalive sent; no acknowledgement expected"@),
            Err(detail) => Some(detail),
        },
    }
}

/// The course of a probe, as a mathematical value. Times are nanoseconds since its start.
#[verifier::ext_equal]
pub struct RunModel {
    pub plan: PlanModel,
    pub report: ReportModel,
    pub events: Seq<EventModel>,
    pub stage: RunStage,
    pub index: int,
    pub started: int,
    pub confirmed: bool,
}

impl RunModel {
    /// The course with the notice that a phase starts.
    pub open spec fn with_start(self, phase: Seq<char>, target: Option<Seq<char>>, now: int) -> RunModel {
        RunModel {
            events: self.events.push(started_event(phase, target, millis_spec(now))),
            ..self
        }
    }

    /// The course with one more phase and the notice of its end.
    pub open spec fn with_phase(self, phase: PhaseModel, now: int) -> RunModel {
        RunModel {
            report: self.report.with_phase(phase),
            events: self.events.push(finished_event(phase, millis_spec(now))),
            ..self
        }
    }

    /// The course in another stage that starts now.
    pub open spec fn at_stage(self, stage: RunStage, index: int, now: int) -> RunModel {
        RunModel { stage, index, started: now, ..self }
    }

    /// The end of the probe with a verdict.
    pub open spec fn ended(self, verdict: Verdict, now: int) -> RunModel {
        RunModel {
            report: ReportModel { verdict, duration_ms: millis_spec(now), ..self.report },
            stage: RunStage::Over,
            ..self
        }
    }

    /// The time since the current phase started.
    pub open spec fn phase_ms(self, now: int) -> int {
        millis_spec(
            if now >= self.started {
                now - self.started
            } else {
                0
            },
        )
    }

    /// The target of the DNS check with the given position.
    pub open spec fn dns_target(self, i: int) -> Seq<char> {
        self.plan.resolves[i] + " via "@ + self.plan.effective_dns_server().unwrap().text_spec()
    }

    /// The notation of the resolved endpoint.
    pub open spec fn endpoint_text(self) -> Seq<char> {
        SocketAddr::text_spec(self.report.resolved_endpoint.unwrap())
    }

    /// The course with the pings from position `i` on skipped.
    pub open spec fn with_skipped_pings(self, i: int, now: int) -> RunModel
        decreases self.plan.pings.len() - i,
    {
        if i >= self.plan.pings.len() {
            self
        } else {
            self.with_phase(skipped_phase("ping"@, self.plan.pings[i].text_spec()), now)
                .with_skipped_pings(i + 1, now)
        }
    }

    /// The course with the DNS checks from position `i` on skipped.
    pub open spec fn with_skipped_names(self, i: int, now: int) -> RunModel
        decreases self.plan.resolves.len() - i,
    {
        if i >= self.plan.resolves.len() {
            self
        } else {
            self.with_phase(skipped_phase("dns"@, self.plan.resolves[i]), now).with_skipped_names(
                i + 1,
                now,
            )
        }
    }

    /// The start of a ping.
    pub open spec fn ping_step(self, i: int, now: int, draws: Draws) -> (RunModel, ProbeActionModel) {
        let target = self.plan.pings[i];
        let source = self.plan.source().unwrap();
        let sequence = (i % 0x10000) as u16;
        (
            self.with_start("ping"@, Some(target.text_spec()), now).at_stage(
                RunStage::Pinging,
                i,
                now,
            ),
            ProbeActionModel::Check {
                packet: ipv4_packet_spec(
                    source,
                    target,
                    1,
                    draws.second_word(),
                    echo_request_spec(draws.first_word(), sequence),
                ),
                expectation: ExpectationModel::Echo {
                    source: target,
                    destination: source,
                    echo_id: draws.first_word(),
                    sequence,
                },
                deadline: deadline_spec(self.plan.overall_timeout, now, self.plan.ping_timeout),
            },
        )
    }

    /// The start of a DNS check.
    pub open spec fn dns_step(self, i: int, now: int, draws: Draws) -> (RunModel, ProbeActionModel) {
        let source = self.plan.source().unwrap();
        let server = self.plan.effective_dns_server().unwrap();
        (
            self.with_start("dns"@, Some(self.dns_target(i)), now).at_stage(
                RunStage::Asking,
                i,
                now,
            ),
            ProbeActionModel::Check {
                packet: dns_query_spec(
                    source,
                    server,
                    draws.port(),
                    draws.second_word(),
                    draws.third_word(),
                    encode_name_spec(self.plan.resolves[i]).1,
                ),
                expectation: ExpectationModel::Dns {
                    server,
                    client: source,
                    client_port: draws.port(),
                    transaction_id: draws.second_word(),
                    name: self.plan.resolves[i],
                },
                deadline: deadline_spec(self.plan.overall_timeout, now, self.plan.dns_timeout),
            },
        )
    }

    /// The next data check, after so many pings and DNS checks, or the end of the probe.
    pub open spec fn next_check(self, pings: int, names: int, now: int, draws: Draws) -> (
        RunModel,
        ProbeActionModel,
    ) {
        if pings < self.plan.pings.len() {
            self.ping_step(pings, now, draws)
        } else if names < self.plan.resolves.len() {
            self.dns_step(names, now, draws)
        } else {
            (
                self.ended(
                    if self.confirmed {
                        Verdict::DataPlaneConfirmed
                    } else {
                        self.report.verdict
                    },
                    now,
                ),
                ProbeActionModel::Finished,
            )
        }
    }

    /// The end of the probe after a local fault in the current phase.
    pub open spec fn local_fault(self, phase: PhaseModel, now: int) -> (RunModel, ProbeActionModel) {
        (
            self.with_phase(phase, now).ended(Verdict::LocalError, now),
            ProbeActionModel::Finished,
        )
    }

    /// The course after the endpoint was resolved.
    pub open spec fn resolved(
        self,
        result: Result<Option<SocketModel>, Seq<char>>,
        now: int,
    ) -> (RunModel, ProbeActionModel) {
        match result {
            Err(error) => self.local_fault(
                error_phase("endpoint_resolution"@, None, self.phase_ms(now), error),
                now,
            ),
            Ok(None) => self.local_fault(
                error_phase(
                    "endpoint_resolution"@,
                    None,
                    self.phase_ms(now),
                    "endpoint resolved to no addresses"@,
                ),
                now,
            ),
            Ok(Some(endpoint)) => {
                let text = SocketAddr::text_spec(endpoint);
                let found = RunModel {
                    report: ReportModel { resolved_endpoint: Some(endpoint), ..self.report },
                    ..self
                };
                (
                    found.with_phase(
                        passed_phase(
                            "endpoint_resolution"@,
                            Some(text),
                            self.phase_ms(now),
                            0,
                            0,
                            None,
                        ),
                        now,
                    ).with_start("socket"@, Some(text), now).at_stage(RunStage::Opening, 0, now),
                    ProbeActionModel::Open { bind: unspecified_like(endpoint), endpoint },
                )
            },
        }
    }

    /// The course after the socket was opened.
    pub open spec fn opened(
        self,
        result: Result<Option<SocketModel>, Seq<char>>,
        now: int,
    ) -> (RunModel, ProbeActionModel) {
        let text = self.endpoint_text();
        match result {
            Err(error) => self.local_fault(
                error_phase("socket"@, Some(text), self.phase_ms(now), error),
                now,
            ),
            Ok(local) => {
                let found = RunModel {
                    report: ReportModel { local_udp_address: local, ..self.report },
                    ..self
                };
                (
                    found.with_phase(
                        passed_phase(
                            "socket"@,
                            match local {
                                Some(address) => Some(SocketAddr::text_spec(address)),
                                None => None,
                            },
                            self.phase_ms(now),
                            0,
                            0,
                            Some("single connected UDP socket"@),
                        ),
                        now,
                    ).with_start("handshake"@, Some(text), now).at_stage(
                        RunStage::Handshaking,
                        0,
                        now,
                    ),
                    ProbeActionModel::Handshake {
                        endpoint: self.report.resolved_endpoint.unwrap(),
                        deadline: deadline_spec(
                            self.plan.overall_timeout,
                            now,
                            self.plan.handshake_timeout,
                        ),
                    },
                )
            },
        }
    }

    /// The course after the handshake established a session.
    pub open spec fn authenticated(
        self,
        sent: int,
        received: int,
        keepalive: Result<int, Seq<char>>,
        now: int,
        draws: Draws,
    ) -> (RunModel, ProbeActionModel) {
        let text = self.endpoint_text();
        let shaken = self.with_phase(
            passed_phase(
                "handshake"@,
                Some(text),
                self.phase_ms(now),
                sent,
                received,
                Some("authenticated WireGuard response"@),
            ),
            now,
        ).with_start("keepalive"@, Some(text), now).with_phase(
            keepalive_phase(text, keepalive),
            now,
        );
        RunModel {
            report: ReportModel {
                verdict: Verdict::AuthenticationConfirmed,
                ..shaken.report
            },
            ..shaken
        }.next_check(0, 0, now, draws)
    }

    /// The end of the probe after a handshake without a session: all data checks are skipped.
    pub open spec fn not_authenticated(self, failure: FailureModel, now: int) -> (
        RunModel,
        ProbeActionModel,
    ) {
        let failed = self.with_phase(
            PhaseModel {
                phase: "handshake"@,
                target: Some(self.endpoint_text()),
                status: failure.status,
                duration_ms: self.phase_ms(now),
                sent_bytes: failure.sent,
                received_bytes: failure.received,
                detail: Some(failure.detail),
            },
            now,
        ).with_skipped_pings(0, now).with_skipped_names(0, now);
        (
            failed.ended(
                if failure.status == PhaseStatus::Error {
                    Verdict::LocalError
                } else {
                    self.report.verdict
                },
                now,
            ),
            ProbeActionModel::Finished,
        )
    }

    /// The course after a data check. A check that passed confirms the data plane.
    pub open spec fn checked(self, outcome: OutcomeModel, now: int, draws: Draws) -> (
        RunModel,
        ProbeActionModel,
    ) {
        let phase = if self.stage == RunStage::Pinging {
            check_phase_spec(
                "ping"@,
                self.plan.pings[self.index].text_spec(),
                self.phase_ms(now),
                outcome,
            )
        } else {
            let phase = check_phase_spec(
                "dns"@,
                self.dns_target(self.index),
                self.phase_ms(now),
                outcome,
            );
            match outcome {
                OutcomeModel::Passed { sent, received, answers } => PhaseModel {
                    detail: Some(dns_detail(answers)),
                    ..phase
                },
                _ => phase,
            }
        };
        let done = RunModel { confirmed: self.confirmed || outcome is Passed, ..self }.with_phase(
            phase,
            now,
        );
        if self.stage == RunStage::Pinging {
            done.next_check(self.index + 1, 0, now, draws)
        } else {
            done.next_check(self.plan.pings.len() as int, self.index + 1, now, draws)
        }
    }

    /// Whether the input is one that the stage waits for.
    pub open spec fn expects(self, input: ProbeInputModel) -> bool {
        match self.stage {
            RunStage::Resolving => input is Resolved,
            RunStage::Opening => input is Opened,
            RunStage::Handshaking => input is Authenticated || input is NotAuthenticated,
            RunStage::Pinging => input is Checked,
            RunStage::Asking => input is Checked,
            RunStage::Over => false,
        }
    }

    /// The course after an input that the stage waits for, and what is needed next.
    pub open spec fn advance(self, input: ProbeInputModel, now: int, draws: Draws) -> (
        RunModel,
        ProbeActionModel,
    ) {
        match input {
            ProbeInputModel::Resolved(result) => self.resolved(result, now),
            ProbeInputModel::Opened(result) => self.opened(result, now),
            ProbeInputModel::Authenticated { sent, received, keepalive } => self.authenticated(
                sent,
                received,
                keepalive,
                now,
                draws,
            ),
            ProbeInputModel::NotAuthenticated(failure) => self.not_authenticated(failure, now),
            ProbeInputModel::Checked(outcome) => self.checked(outcome, now, draws),
        }
    }

    /// What holds at every point of a probe: the plan was accepted, the totals are right, and what
    /// later stages need is known.
    pub open spec fn wf(self) -> bool {
        &&& self.stage != RunStage::Over ==> self.plan.refusal() is None
        &&& self.report.totals_hold()
        &&& 0 <= self.report.sent_bytes <= u64::MAX
        &&& 0 <= self.report.received_bytes <= u64::MAX
        &&& self.stage != RunStage::Over && self.stage != RunStage::Resolving
            ==> self.report.resolved_endpoint is Some
        &&& self.stage == RunStage::Pinging ==> 0 <= self.index < self.plan.pings.len()
        &&& self.stage == RunStage::Asking ==> 0 <= self.index < self.plan.resolves.len()
    }
}

/// The address of the same family that stands for any address, with any port.
pub open spec fn unspecified_like(endpoint: SocketModel) -> SocketModel {
    match endpoint {
        SocketModel::V4 { address, port } => SocketModel::V4 {
            address: Ipv4Addr { a: 0, b: 0, c: 0, d: 0 },
            port: 0,
        },
        SocketModel::V6 { groups, port, flowinfo, scope_id } => SocketModel::V6 {
            groups: seq![0u16, 0u16, 0u16, 0u16, 0u16, 0u16, 0u16, 0u16],
            port: 0,
            flowinfo: 0,
            scope_id: 0,
        },
    }
}

/// A report in which nothing has happened yet.
pub open spec fn fresh_report(plan: PlanModel) -> ReportModel {
    ReportModel {
        schema_version: 1,
        verdict: Verdict::Unconfirmed,
        endpoint: plan.config.endpoint,
        resolved_endpoint: None,
        local_udp_address: None,
        client_public_key: base64_text(x25519_public(plan.config.private_key)),
        duration_ms: 0,
        sent_bytes: 0,
        received_bytes: 0,
        phases: Seq::empty(),
    }
}

/// The start of a probe. A plan that is refused ends it at once with a local error; otherwise the
/// endpoint is to be resolved.
pub open spec fn begin_spec(plan: PlanModel, refusal: Option<Seq<char>>, now: int) -> (
    RunModel,
    ProbeActionModel,
) {
    let fresh = RunModel {
        plan,
        report: fresh_report(plan),
        events: Seq::empty(),
        stage: RunStage::Resolving,
        index: 0,
        started: now,
        confirmed: false,
    };
    match refusal {
        Some(detail) => fresh.with_start("validation"@, None, now).local_fault(
            error_phase("validation"@, None, 0, detail),
            now,
        ),
        None => (
            fresh.with_start("endpoint_resolution"@, Some(plan.config.endpoint), now),
            ProbeActionModel::Resolve {
                name: plan.config.endpoint,
                timeout: if plan.overall_timeout >= now {
                    plan.overall_timeout - now
                } else {
                    0
                },
            },
        ),
    }
}

/// The list of addresses with commas between them.
pub(crate) fn address_list(list: &[Ipv4Addr]) -> (r: String)
    ensures
        r@ == joined_addresses(list@),
{
    let mut text = String::new();
    let mut i: usize = 0;
    assert(list@.take(0) =~= Seq::empty());
    assert(text@ =~= Seq::empty());
    while i < list.len()
        invariant
            i <= list@.len(),
            text@ == joined_addresses(list@.take(i as int)),
        decreases list@.len() - i,
    {
        let ghost before = list@.take(i as int);
        let ghost after = list@.take(i + 1);
        assert(after.drop_last() =~= before);
        assert(after.last() == list@[i as int]);
        if i > 0 {
            text.append(", ");
        }
        text.append(list[i].text().as_str());
        assert(text@ =~= joined_addresses(after));
        i = i + 1;
    }
    assert(list@.take(list@.len() as int) =~= list@);
    text
}

/// The phase that a data check adds to the report.
pub fn check_phase(phase: &str, target: String, duration_ms: u64, outcome: &CheckOutcome) -> (r:
    PhaseResult)
    ensures
        r@ == check_phase_spec(phase@, target@, duration_ms as int, outcome@),
{
    match outcome {
        CheckOutcome::Passed { sent, received, answers } => PhaseResult {
            phase: phase.to_string(),
            target: Some(target),
            status: PhaseStatus::Passed,
            duration_ms,
            sent_bytes: *sent,
            received_bytes: *received,
            detail: Some("valid matching reply".to_string()),
        },
        CheckOutcome::Unconfirmed { sent, received } => PhaseResult {
            phase: phase.to_string(),
            target: Some(target),
            status: PhaseStatus::Unconfirmed,
            duration_ms,
            sent_bytes: *sent,
            received_bytes: *received,
            detail: Some("no valid matching reply before the check deadline".to_string()),
        },
        CheckOutcome::Error { detail, sent, received } => PhaseResult {
            phase: phase.to_string(),
            target: Some(target),
            status: PhaseStatus::Error,
            duration_ms,
            sent_bytes: *sent,
            received_bytes: *received,
            detail: Some(detail.clone()),
        },
    }
}

fn phase_passed(
    phase: &str,
    target: Option<String>,
    duration_ms: u64,
    sent_bytes: u64,
    received_bytes: u64,
    detail: Option<String>,
) -> (r: PhaseResult)
    ensures
        r@ == passed_phase(
            phase@,
            option_text(target),
            duration_ms as int,
            sent_bytes as int,
            received_bytes as int,
            option_text(detail),
        ),
{
    PhaseResult {
        phase: phase.to_string(),
        target,
        status: PhaseStatus::Passed,
        duration_ms,
        sent_bytes,
        received_bytes,
        detail,
    }
}

fn phase_error(phase: &str, target: Option<String>, duration_ms: u64, error: &str) -> (r:
    PhaseResult)
    ensures
        r@ == error_phase(phase@, option_text(target), duration_ms as int, error@),
{
    PhaseResult {
        phase: phase.to_string(),
        target,
        status: PhaseStatus::Error,
        duration_ms,
        sent_bytes: 0,
        received_bytes: 0,
        detail: Some(error.to_string()),
    }
}

/// A probe in progress.
pub struct ProbeRun {
    plan: ProbePlan,
    report: ProbeReport,
    events: Vec<ProbeEvent>,
    stage: RunStage,
    index: usize,
    started: Duration,
    confirmed: bool,
}

impl View for ProbeRun {
    type V = RunModel;

    closed spec fn view(&self) -> RunModel {
        RunModel {
            plan: self.plan@,
            report: self.report@,
            events: event_models(self.events@),
            stage: self.stage,
            index: self.index as int,
            started: self.started.nanos(),
            confirmed: self.confirmed,
        }
    }
}

proof fn lemma_totals_bounds(run: RunModel, phase: PhaseModel)
    requires
        run.report.totals_hold(),
    ensures
        run.report.with_phase(phase).totals_hold(),
{
    with_phase_keeps_totals(run.report, phase);
}

impl ProbeRun {
    fn emit(&mut self, phase: &str, target: Option<&str>, now: Duration)
        ensures
            final(self)@ == old(self)@.with_start(
                phase@,
                match target {
                    Some(target) => Some(target@),
                    None => None,
                },
                now.nanos(),
            ),
    {
        emit_start(&mut self.events, millis(now), phase, target);
    }

    fn push(&mut self, phase: PhaseResult, now: Duration)
        requires
            old(self)@.report.sent_bytes + phase.sent_bytes <= u64::MAX,
            old(self)@.report.received_bytes + phase.received_bytes <= u64::MAX,
            old(self)@.report.totals_hold(),
        ensures
            final(self)@ == old(self)@.with_phase(phase@, now.nanos()),
            final(self)@.report.totals_hold(),
    {
        proof {
            lemma_totals_bounds(self@, phase@);
        }
        push_phase(&mut self.report, &mut self.events, millis(now), phase);
    }

    fn enter(&mut self, stage: RunStage, index: usize, now: Duration)
        ensures
            final(self)@ == old(self)@.at_stage(stage, index as int, now.nanos()),
    {
        self.stage = stage;
        self.index = index;
        self.started = now;
    }

    fn end(&mut self, verdict: Verdict, now: Duration)
        ensures
            final(self)@ == old(self)@.ended(verdict, now.nanos()),
    {
        self.report.verdict = verdict;
        self.report.duration_ms = millis(now);
        self.stage = RunStage::Over;
    }

    fn phase_ms(&self, now: Duration) -> (r: u64)
        ensures
            r == self@.phase_ms(now.nanos()),
    {
        millis(now.saturating_sub(self.started))
    }

    fn fail(&mut self, phase: PhaseResult, now: Duration) -> (r: ProbeAction)
        requires
            old(self)@.wf(),
            phase.sent_bytes == 0,
            phase.received_bytes == 0,
        ensures
            (final(self)@, r@) == old(self)@.local_fault(phase@, now.nanos()),
            final(self)@.wf(),
    {
        self.push(phase, now);
        self.end(Verdict::LocalError, now);
        ProbeAction::Finished
    }

    /// The start of a probe whose plan is refused for the given reason, or accepted. The time is
    /// counted from the start of the probe.
    fn begin_checked(plan: ProbePlan, refusal: Option<String>, now: Duration) -> (r: (
        ProbeRun,
        ProbeAction,
    ))
        requires
            refusal is None ==> plan@.refusal() is None,
        ensures
            (r.0@, r.1@) == begin_spec(plan@, option_text(refusal), now.nanos()),
            r.0@.wf(),
    {
        let endpoint = plan.config.endpoint().to_string();
        let report = ProbeReport {
            schema_version: 1,
            verdict: Verdict::Unconfirmed,
            endpoint: endpoint.clone(),
            resolved_endpoint: None,
            local_udp_address: None,
            client_public_key: plan.config.client_public_key(),
            duration_ms: 0,
            sent_bytes: 0,
            received_bytes: 0,
            phases: Vec::new(),
        };
        assert(report@.phases =~= Seq::empty());
        let timeout = plan.overall_timeout.saturating_sub(now);
        let mut run = ProbeRun {
            plan,
            report,
            events: Vec::new(),
            stage: RunStage::Resolving,
            index: 0,
            started: now,
            confirmed: false,
        };
        assert(run@.events =~= Seq::empty());
        match refusal {
            Some(detail) => {
                run.emit("validation", None, now);
                let phase = phase_error("validation", None, 0, detail.as_str());
                run.push(phase, now);
                run.end(Verdict::LocalError, now);
                (run, ProbeAction::Finished)
            },
            None => {
                run.emit("endpoint_resolution", Some(endpoint.as_str()), now);
                (run, ProbeAction::Resolve { name: endpoint, timeout })
            },
        }
    }

    /// Starts a probe, where the clock can represent all times of the plan or not. The time is
    /// counted from the start of the probe.
    pub fn begin_with(plan: ProbePlan, representable: bool, now: Duration) -> (r: (
        ProbeRun,
        ProbeAction,
    ))
        ensures
            (r.0@, r.1@) == begin_spec(
                plan@,
                if representable {
                    plan@.refusal()
                } else {
                    Some(clock_refusal())
                },
                now.nanos(),
            ),
            r.0@.wf(),
    {
        let refusal = match plan.validate_with(representable) {
            Ok(()) => None,
            Err(ProbeError::InvalidPlan(detail)) => Some(detail),
        };
        Self::begin_checked(plan, refusal, now)
    }

    /// Starts a probe. The time is counted from its start.
    pub fn begin(plan: ProbePlan, now: Duration) -> (r: (ProbeRun, ProbeAction))
        ensures
            exists|reading: Instant|
                (r.0@, r.1@) == begin_spec(
                    plan@,
                    if #[trigger] plan@.fits_clock(reading) {
                        plan@.refusal()
                    } else {
                        Some(clock_refusal())
                    },
                    now.nanos(),
                ),
            r.0@.wf(),
    {
        let representable = plan.representable();
        Self::begin_with(plan, representable, now)
    }

    fn resolved(&mut self, result: Result<Option<SocketAddr>, String>, now: Duration) -> (r:
        ProbeAction)
        requires
            old(self)@.wf(),
            old(self)@.stage == RunStage::Resolving,
        ensures
            (final(self)@, r@) == old(self)@.resolved(address_model(result), now.nanos()),
            final(self)@.wf(),
    {
        let spent: u64 = self.phase_ms(now);
        let found = match result {
            Ok(found) => found,
            Err(error) => {
                let phase = phase_error("endpoint_resolution", None, spent, error.as_str());
                return self.fail(phase, now);
            },
        };
        let endpoint = match found {
            Some(endpoint) => endpoint,
            None => {
                let phase = phase_error(
                    "endpoint_resolution",
                    None,
                    spent,
                    "endpoint resolved to no addresses",
                );
                return self.fail(phase, now);
            },
        };
        self.report.resolved_endpoint = Some(endpoint);
        let text = endpoint.text();
        let phase = phase_passed("endpoint_resolution", Some(text.clone()), spent, 0, 0, None);
        self.push(phase, now);
        self.emit("socket", Some(text.as_str()), now);
        self.enter(RunStage::Opening, 0, now);
        let bind = any_address_like(endpoint);
        ProbeAction::Open { bind, endpoint }
    }

    fn opened(&mut self, result: Result<Option<SocketAddr>, String>, now: Duration) -> (r:
        ProbeAction)
        requires
            old(self)@.wf(),
            old(self)@.stage == RunStage::Opening,
        ensures
            (final(self)@, r@) == old(self)@.opened(address_model(result), now.nanos()),
            final(self)@.wf(),
    {
        let spent: u64 = self.phase_ms(now);
        let endpoint = self.endpoint();
        let text = endpoint.text();
        let local = match result {
            Ok(local) => local,
            Err(error) => {
                let phase = phase_error("socket", Some(text), spent, error.as_str());
                return self.fail(phase, now);
            },
        };
        self.report.local_udp_address = local;
        let local_text = match local {
            Some(address) => Some(address.text()),
            None => None,
        };
        let phase = phase_passed(
            "socket",
            local_text,
            spent,
            0,
            0,
            Some("single connected UDP socket".to_string()),
        );
        self.push(phase, now);
        self.emit("handshake", Some(text.as_str()), now);
        self.enter(RunStage::Handshaking, 0, now);
        let end = deadline(self.plan.overall_timeout, now, self.plan.handshake_timeout);
        ProbeAction::Handshake { endpoint, deadline: end }
    }

    fn endpoint(&self) -> (r: SocketAddr)
        requires
            self@.report.resolved_endpoint is Some,
        ensures
            Some(r@) == self@.report.resolved_endpoint,
    {
        self.report.resolved_endpoint.unwrap()
    }

    fn next_check(&mut self, pings: usize, names: usize, now: Duration, draws: Draws) -> (r:
        ProbeAction)
        requires
            old(self)@.wf(),
            old(self)@.stage != RunStage::Over,
            old(self)@.stage != RunStage::Resolving,
        ensures
            (final(self)@, r@) == old(self)@.next_check(
                pings as int,
                names as int,
                now.nanos(),
                draws,
            ),
            final(self)@.wf(),
    {
        if pings < self.plan.pings.len() {
            let target = self.plan.pings[pings];
            proof {
                lemma_accepted_plan(self@.plan);
            }
            let source = self.plan.source().unwrap();
            let sequence: u16 = (pings % 0x10000) as u16;
            let echo_id: u16 = (draws.first % 0x10000) as u16;
            let ip_id: u16 = (draws.second % 0x10000) as u16;
            let packet = echo_packet(source, target, ip_id, echo_id, sequence);
            let text = target.text();
            self.emit("ping", Some(text.as_str()), now);
            self.enter(RunStage::Pinging, pings, now);
            let end = deadline(self.plan.overall_timeout, now, self.plan.ping_timeout);
            let expectation = Expectation::Echo {
                source: target,
                destination: source,
                echo_id,
                sequence,
            };
            return ProbeAction::Check { packet, expectation, deadline: end };
        }
        if names < self.plan.resolves.len() {
            return self.next_name(names, now, draws);
        }
        let verdict = if self.confirmed {
            Verdict::DataPlaneConfirmed
        } else {
            self.report.verdict
        };
        self.end(verdict, now);
        ProbeAction::Finished
    }

    fn dns_target(&self, i: usize) -> (r: String)
        requires
            i < self@.plan.resolves.len(),
            self@.plan.effective_dns_server() is Some,
        ensures
            r@ == self@.dns_target(i as int),
    {
        assert(self@.plan.resolves[i as int] == self.plan.resolves@[i as int]@);
        let server = self.plan.effective_dns_server().unwrap();
        let mut text = self.plan.resolves[i].clone();
        text.append(" via ");
        text.append(server.text().as_str());
        text
    }

    fn next_name(&mut self, i: usize, now: Duration, draws: Draws) -> (r: ProbeAction)
        requires
            old(self)@.wf(),
            old(self)@.stage != RunStage::Over,
            old(self)@.stage != RunStage::Resolving,
            i < old(self)@.plan.resolves.len(),
        ensures
            (final(self)@, r@) == old(self)@.dns_step(i as int, now.nanos(), draws),
            final(self)@.wf(),
    {
        proof {
            lemma_accepted_plan(self@.plan);
            lemma_accepted_name(self@.plan, 0, i as int);
        }
        let source = self.plan.source().unwrap();
        let server = self.plan.effective_dns_server().unwrap();
        let client_port: u16 = (32768 + draws.first % 28232) as u16;
        let transaction_id: u16 = (draws.second % 0x10000) as u16;
        let ip_id: u16 = (draws.third % 0x10000) as u16;
        assert(self@.plan.resolves[i as int] == self.plan.resolves@[i as int]@);
        let name = self.plan.resolves[i].clone();
        let packet = match dns_query(
            source,
            server,
            client_port,
            transaction_id,
            ip_id,
            name.as_str(),
        ) {
            Ok(packet) => packet,
            Err(_) => Vec::new(),
        };
        let text = self.dns_target(i);
        self.emit("dns", Some(text.as_str()), now);
        self.enter(RunStage::Asking, i, now);
        let end = deadline(self.plan.overall_timeout, now, self.plan.dns_timeout);
        let expectation = Expectation::Dns {
            server,
            client: source,
            client_port,
            transaction_id,
            name,
        };
        ProbeAction::Check { packet, expectation, deadline: end }
    }

    fn authenticated(
        &mut self,
        sent: u64,
        received: u64,
        keepalive: Result<u64, String>,
        now: Duration,
        draws: Draws,
    ) -> (r: ProbeAction)
        requires
            old(self)@.wf(),
            old(self)@.stage == RunStage::Handshaking,
            old(self)@.report.sent_bytes + sent + (match keepalive {
                Ok(count) => count as int,
                Err(_) => 0,
            }) <= u64::MAX,
            old(self)@.report.received_bytes + received <= u64::MAX,
        ensures
            (final(self)@, r@) == old(self)@.authenticated(
                sent as int,
                received as int,
                match keepalive {
                    Ok(count) => Ok(count as int),
                    Err(detail) => Err(detail@),
                },
                now.nanos(),
                draws,
            ),
            final(self)@.wf(),
    {
        let text = self.endpoint().text();
        let spent: u64 = self.phase_ms(now);
        let phase = phase_passed(
            "handshake",
            Some(text.clone()),
            spent,
            sent,
            received,
            Some("authenticated WireGuard response".to_string()),
        );
        self.push(phase, now);
        self.emit("keepalive", Some(text.as_str()), now);
        let (status, count, detail) = match keepalive {
            Ok(count) => (
                PhaseStatus::Sent,
                count,
                "initial encrypted keepalive sent; no acknowledgement expected".to_string(),
            ),
            Err(detail) => (PhaseStatus::Error, 0, detail),
        };
        let phase = PhaseResult {
            phase: "keepalive".to_string(),
            target: Some(text),
            status,
            duration_ms: 0,
            sent_bytes: count,
            received_bytes: 0,
            detail: Some(detail),
        };
        self.push(phase, now);
        self.report.verdict = Verdict::AuthenticationConfirmed;
        self.next_check(0, 0, now, draws)
    }

    fn skip_pings(&mut self, now: Duration)
        requires
            old(self)@.wf(),
        ensures
            final(self)@ == old(self)@.with_skipped_pings(0, now.nanos()),
            final(self)@.wf(),
    {
        let ghost start = self@;
        let mut i: usize = 0;
        while i < self.plan.pings.len()
            invariant
                i <= self.plan.pings@.len(),
                self@.wf(),
                self@.with_skipped_pings(i as int, now.nanos()) == start.with_skipped_pings(
                    0,
                    now.nanos(),
                ),
            decreases self.plan.pings@.len() - i,
        {
            let target = self.plan.pings[i].text();
            let phase = skipped("ping", target);
            self.push(phase, now);
            i = i + 1;
        }
    }

    fn skip_names(&mut self, now: Duration)
        requires
            old(self)@.wf(),
        ensures
            final(self)@ == old(self)@.with_skipped_names(0, now.nanos()),
            final(self)@.wf(),
    {
        let ghost start = self@;
        let mut i: usize = 0;
        while i < self.plan.resolves.len()
            invariant
                i <= self.plan.resolves@.len(),
                self@.wf(),
                self@.with_skipped_names(i as int, now.nanos()) == start.with_skipped_names(
                    0,
                    now.nanos(),
                ),
            decreases self.plan.resolves@.len() - i,
        {
            assert(self@.plan.resolves[i as int] == self.plan.resolves@[i as int]@);
            let target = self.plan.resolves[i].clone();
            let phase = skipped("dns", target);
            self.push(phase, now);
            i = i + 1;
        }
    }

    fn not_authenticated(&mut self, failure: HandshakeFailure, now: Duration) -> (r: ProbeAction)
        requires
            old(self)@.wf(),
            old(self)@.stage == RunStage::Handshaking,
            old(self)@.report.sent_bytes + failure.sent <= u64::MAX,
            old(self)@.report.received_bytes + failure.received <= u64::MAX,
        ensures
            (final(self)@, r@) == old(self)@.not_authenticated(failure@, now.nanos()),
            final(self)@.wf(),
    {
        let text = self.endpoint().text();
        let verdict = if failure.status == PhaseStatus::Error {
            Verdict::LocalError
        } else {
            self.report.verdict
        };
        let phase = PhaseResult {
            phase: "handshake".to_string(),
            target: Some(text),
            status: failure.status,
            duration_ms: self.phase_ms(now),
            sent_bytes: failure.sent,
            received_bytes: failure.received,
            detail: Some(failure.detail),
        };
        self.push(phase, now);
        self.skip_pings(now);
        self.skip_names(now);
        self.end(verdict, now);
        ProbeAction::Finished
    }

    fn checked(&mut self, outcome: CheckOutcome, now: Duration, draws: Draws) -> (r: ProbeAction)
        requires
            old(self)@.wf(),
            old(self)@.stage == RunStage::Pinging || old(self)@.stage == RunStage::Asking,
            old(self)@.report.sent_bytes + ProbeInputModel::Checked(outcome@).sent() <= u64::MAX,
            old(self)@.report.received_bytes + ProbeInputModel::Checked(outcome@).received()
                <= u64::MAX,
        ensures
            (final(self)@, r@) == old(self)@.checked(outcome@, now.nanos(), draws),
            final(self)@.wf(),
    {
        let spent: u64 = self.phase_ms(now);
        let index: usize = self.index;
        let pings: usize = self.plan.pings.len();
        let names: usize = self.plan.resolves.len();
        assert(index < pings || index < names);
        let passed: bool = match &outcome {
            CheckOutcome::Passed { sent, received, answers } => true,
            _ => false,
        };
        self.confirmed = self.confirmed || passed;
        if self.stage == RunStage::Pinging {
            let phase = check_phase("ping", self.plan.pings[index].text(), spent, &outcome);
            self.push(phase, now);
            self.next_check(index + 1, 0, now, draws)
        } else {
            proof {
                lemma_accepted_plan(self@.plan);
            }
            let mut phase = check_phase("dns", self.dns_target(index), spent, &outcome);
            if let CheckOutcome::Passed { sent, received, answers } = &outcome {
                let mut detail = "valid DNS response; A records: ".to_string();
                if answers.len() == 0 {
                    detail.append("none");
                } else {
                    detail.append(address_list(answers).as_str());
                }
                phase.detail = Some(detail);
            }
            self.push(phase, now);
            self.next_check(pings, index + 1, now, draws)
        }
    }

    /// Takes an input that the stage waits for, with random numbers for the next data check, and
    /// says what is needed next. The time is counted from the start of the probe.
    pub fn advance_with(&mut self, input: ProbeInput, now: Duration, draws: Draws) -> (r:
        ProbeAction)
        requires
            old(self)@.wf(),
            old(self)@.expects(input@),
            old(self)@.report.sent_bytes + input@.sent() <= u64::MAX,
            old(self)@.report.received_bytes + input@.received() <= u64::MAX,
        ensures
            (final(self)@, r@) == old(self)@.advance(input@, now.nanos(), draws),
            final(self)@.wf(),
    {
        match input {
            ProbeInput::Resolved(result) => self.resolved(result, now),
            ProbeInput::Opened(result) => self.opened(result, now),
            ProbeInput::Authenticated { sent, received, keepalive } => self.authenticated(
                sent,
                received,
                keepalive,
                now,
                draws,
            ),
            ProbeInput::NotAuthenticated(failure) => self.not_authenticated(failure, now),
            ProbeInput::Checked(outcome) => self.checked(outcome, now, draws),
        }
    }

    /// Takes an input that the stage waits for, and says what is needed next. The identifiers of
    /// data checks come from the system's random source.
    pub fn advance(&mut self, input: ProbeInput, now: Duration) -> (r: ProbeAction)
        requires
            old(self)@.wf(),
            old(self)@.expects(input@),
            old(self)@.report.sent_bytes + input@.sent() <= u64::MAX,
            old(self)@.report.received_bytes + input@.received() <= u64::MAX,
        ensures
            exists|draws: Draws|
                (final(self)@, r@) == #[trigger] old(self)@.advance(input@, now.nanos(), draws),
            final(self)@.wf(),
    {
        let draws = Draws { first: random_u32(), second: random_u32(), third: random_u32() };
        self.advance_with(input, now, draws)
    }

    /// Hands out the notices since the last call.
    pub fn take_events(&mut self) -> (r: Vec<ProbeEvent>)
        ensures
            event_models(r@) == old(self)@.events,
            final(self)@ == (RunModel { events: Seq::empty(), ..old(self)@ }),
    {
        let mut events: Vec<ProbeEvent> = Vec::new();
        std::mem::swap(&mut events, &mut self.events);
        assert(self@.events =~= Seq::empty());
        events
    }

    /// The stage that the probe is in.
    pub fn stage(&self) -> (r: RunStage)
        ensures
            r == self@.stage,
    {
        self.stage
    }

    /// A tunnel with the configured keys.
    pub fn open_tunnel(&self) -> (r: Tunnel)
        ensures
            r.keys() == (
                self@.plan.config.private_key,
                self@.plan.config.peer_public_key,
                self@.plan.config.preshared_key,
            ),
    {
        self.plan.config.open_tunnel()
    }

    /// The report as it stands.
    pub fn report(&self) -> (r: &ProbeReport)
        ensures
            r@ == self@.report,
    {
        &self.report
    }

    /// The report of a probe that has ended.
    pub fn into_report(self) -> (r: ProbeReport)
        ensures
            r@ == self@.report,
    {
        self.report
    }
}

fn echo_packet(
    source: Ipv4Addr,
    target: Ipv4Addr,
    ip_id: u16,
    echo_id: u16,
    sequence: u16,
) -> (r: Vec<u8>)
    ensures
        r@ == ipv4_packet_spec(source, target, 1, ip_id, echo_request_spec(echo_id, sequence)),
{
    icmp_echo_request(source, target, ip_id, echo_id, sequence)
}

fn skipped(phase: &str, target: String) -> (r: PhaseResult)
    ensures
        r@ == skipped_phase(phase@, target@),
{
    PhaseResult {
        phase: phase.to_string(),
        target: Some(target),
        status: PhaseStatus::Skipped,
        duration_ms: 0,
        sent_bytes: 0,
        received_bytes: 0,
        detail: Some("skipped because authentication was not confirmed".to_string()),
    }
}

fn any_address_like(endpoint: SocketAddr) -> (r: SocketAddr)
    ensures
        r@ == unspecified_like(endpoint@),
{
    match endpoint {
        SocketAddr::V4(_) => SocketAddr::V4(
            SocketAddrV4 { ip: Ipv4Addr::new(0, 0, 0, 0), port: 0 },
        ),
        SocketAddr::V6(_) => {
            let segments: [u16; 8] = [0, 0, 0, 0, 0, 0, 0, 0];
            assert(segments@ =~= seq![0u16, 0u16, 0u16, 0u16, 0u16, 0u16, 0u16, 0u16]);
            SocketAddr::V6(
                SocketAddrV6 { ip: Ipv6Addr { segments }, port: 0, flowinfo: 0, scope_id: 0 },
            )
        },
    }
}

/// An accepted plan with data checks has a source address, and one with DNS checks a server.
proof fn lemma_accepted_plan(plan: PlanModel)
    requires
        plan.refusal() is None,
    ensures
        plan.pings.len() > 0 || plan.resolves.len() > 0 ==> plan.source() is Some,
        plan.resolves.len() > 0 ==> plan.effective_dns_server() is Some,
        plan.resolves.len() > 0 ==> plan.refused_name(0) is None,
{
}

/// Every name of an accepted plan can be asked for.
proof fn lemma_accepted_name(plan: PlanModel, from: int, i: int)
    requires
        plan.refused_name(from) is None,
        0 <= from <= i < plan.resolves.len(),
    ensures
        encode_name_spec(plan.resolves[i]).0 is None,
    decreases i - from,
{
    if from < i {
        lemma_accepted_name(plan, from + 1, i);
    }
}

} // verus!
