use base64::Engine;
use boringtun::noise::{Tunn, TunnResult};
use boringtun::x25519::{PublicKey, StaticSecret};
use rand_core::{OsRng, RngCore};
use wgprobe::net::{IpAddr, Ipv4Addr, SocketAddr};
use wgprobe::packet::checksum;
use wgprobe::probe::{check_phase, is_allowed, Draws, ProbeAction, ProbeInput, ProbeRun, RunStage};
use wgprobe::resolver::{
    lookup_result, resolve_endpoint, LookupOutcome, Resolution, ResolverSlot, MAX_RESOLVER_WORKERS,
};
use wgprobe::session::{
    handshake_local, handshake_protocol, handshake_timeout, Check, CheckAction, CheckInput,
    CheckOutcome, Expectation, Handshake, HandshakeAction, HandshakeInput, HandshakeStage,
    ReceiveError, SendError,
};
use wgprobe::time::{deadline, millis, Duration};
use wgprobe::engine::{TunnelOutput, BUFFER_SIZE};
use wgprobe::tunnel::Tunnel;
use wgprobe::{
    Ipv4Cidr, PhaseStatus, ProbeConfig, ProbeError, ProbeEventKind, ProbePlan, ProbeReport, Verdict,
};

const KEY: &str = "AAAAAAAAAAAAAAAAAAAAAAAAAAAAAAAAAAAAAAAAAAA=";

fn ip(text: &str) -> Ipv4Addr {
    Ipv4Addr::parse(text).unwrap()
}

fn socket(text: &str) -> SocketAddr {
    SocketAddr::parse(text).unwrap()
}

fn base64(bytes: &[u8]) -> String {
    base64::engine::general_purpose::STANDARD.encode(bytes)
}

fn config(endpoint: &str) -> ProbeConfig {
    ProbeConfig::from_parts(KEY, KEY, endpoint).unwrap_or_else(|e| panic!("{}", e.message()))
}

fn data_config(endpoint: &str) -> ProbeConfig {
    let mut config = config(endpoint);
    config.set_data_config(
        Ipv4Cidr::parse("10.0.0.2/32").unwrap(),
        vec![IpAddr::V4(ip("10.0.0.53"))],
        vec![Ipv4Cidr::parse("10.0.0.0/24").unwrap()],
    );
    config
}

fn secs(n: u64) -> Duration {
    Duration::from_secs(n)
}

/// A peer that answers handshakes and pings, as a WireGuard server would.
struct Server {
    tunnel: Tunn,
    seen: Vec<usize>,
}

impl Server {
    fn answer(&mut self, datagram: &[u8]) -> Vec<Vec<u8>> {
        self.seen.push(datagram.len());
        let mut output = vec![0u8; BUFFER_SIZE];
        let source = [127, 0, 0, 1].into();
        let request = match self.tunnel.decapsulate(Some(source), datagram, &mut output) {
            TunnResult::WriteToNetwork(packet) => return vec![packet.to_vec()],
            TunnResult::Done => return Vec::new(),
            TunnResult::WriteToTunnelV4(packet, _) => packet.to_vec(),
            result => panic!("unexpected result: {result:?}"),
        };
        let mut reply = request;
        reply[12..16].copy_from_slice(&[10, 0, 0, 1]);
        reply[16..20].copy_from_slice(&[10, 0, 0, 2]);
        reply[10..12].fill(0);
        let ip_sum = checksum(&reply[..20]);
        reply[10..12].copy_from_slice(&ip_sum.to_be_bytes());
        reply[20] = 0;
        reply[22..24].fill(0);
        let icmp_sum = checksum(&reply[20..]);
        reply[22..24].copy_from_slice(&icmp_sum.to_be_bytes());
        match self.tunnel.encapsulate(&reply, &mut output) {
            TunnResult::WriteToNetwork(packet) => vec![packet.to_vec()],
            result => panic!("unexpected reply result: {result:?}"),
        }
    }
}

/// Runs a probe against the server, with every datagram handed over directly.
fn run_probe(plan: ProbePlan, server: &mut Server) -> ProbeReport {
    let from = IpAddr::V4(ip("127.0.0.1"));
    let (mut run, mut action) = ProbeRun::begin(plan, secs(0));
    let mut tunnel = run.open_tunnel();
    let mut inbox: Vec<Vec<u8>> = Vec::new();
    let mut active = 0usize;
    loop {
        let input = match action {
            ProbeAction::Resolve { name, timeout } => {
                match resolve_endpoint(&name, timeout, &mut active) {
                    Resolution::Settled(result) => ProbeInput::Resolved(result),
                    Resolution::Lookup(_) => panic!("the endpoint is numeric"),
                }
            }
            ProbeAction::Open { bind, .. } => ProbeInput::Opened(Ok(Some(bind))),
            ProbeAction::Handshake { .. } => {
                let mut handshake = Handshake::new();
                let mut input = HandshakeInput::Start;
                loop {
                    input = match handshake.drive(&mut tunnel, from, input) {
                        HandshakeAction::Send(datagram) => {
                            inbox.extend(server.answer(&datagram));
                            HandshakeInput::Sent(Ok(datagram.len() as u64))
                        }
                        HandshakeAction::Receive => HandshakeInput::Received(if inbox.is_empty() {
                            Err(ReceiveError::Timeout)
                        } else {
                            Ok(inbox.remove(0))
                        }),
                        HandshakeAction::Established { sent, received, keepalive } => {
                            break ProbeInput::Authenticated { sent, received, keepalive };
                        }
                        HandshakeAction::Failed(failure) => {
                            break ProbeInput::NotAuthenticated(failure);
                        }
                        other => panic!("not an I/O action: {other:?}"),
                    };
                }
            }
            ProbeAction::Check { packet, expectation, .. } => {
                let mut check = Check::new();
                let mut input = CheckInput::Start { expired: false };
                loop {
                    input = match check.drive(&mut tunnel, from, &packet, &expectation, input) {
                        CheckAction::Send(datagram) => {
                            inbox.extend(server.answer(&datagram));
                            CheckInput::Sent(Ok(datagram.len() as u64))
                        }
                        CheckAction::Receive => CheckInput::Received(if inbox.is_empty() {
                            Err(ReceiveError::Timeout)
                        } else {
                            Ok(inbox.remove(0))
                        }),
                        CheckAction::Ended(outcome) => break ProbeInput::Checked(outcome),
                        other => panic!("not an I/O action: {other:?}"),
                    };
                }
            }
            ProbeAction::Finished => return run.into_report(),
        };
        action = run.advance(input, secs(0));
    }
}

fn status_of(report: &ProbeReport, phase: &str) -> PhaseStatus {
    report.phases.iter().find(|p| p.phase == phase).unwrap().status
}

#[test]
fn transmits_keepalive_and_completes_userspace_ping() {
    let client_secret = StaticSecret::random_from_rng(OsRng);
    let client_public = PublicKey::from(&client_secret);
    let server_secret = StaticSecret::random_from_rng(OsRng);
    let server_public = PublicKey::from(&server_secret);
    let mut server = Server {
        tunnel: Tunn::new(server_secret, client_public, None, None, OsRng.next_u32(), None),
        seen: Vec::new(),
    };
    let mut config = ProbeConfig::from_parts(
        &base64(client_secret.as_bytes()),
        &base64(server_public.as_bytes()),
        "127.0.0.1:51820",
    )
    .unwrap_or_else(|e| panic!("{}", e.message()));
    config.set_data_config(
        Ipv4Cidr::parse("10.0.0.2/32").unwrap(),
        Vec::new(),
        vec![Ipv4Cidr::parse("10.0.0.0/24").unwrap()],
    );
    assert_eq!(config.client_public_key(), base64(client_public.as_bytes()));
    let plan =
        ProbePlan::new(config).ping(ip("10.0.0.1")).timeouts(secs(1), secs(1), secs(1), secs(3));
    let report = run_probe(plan, &mut server);
    assert_eq!(report.verdict, Verdict::DataPlaneConfirmed);
    assert_eq!(status_of(&report, "keepalive"), PhaseStatus::Sent);
    assert_eq!(status_of(&report, "ping"), PhaseStatus::Passed);
    assert_eq!(server.seen[..2], [148, 32]);
    assert_eq!(server.seen.len(), 3);
    assert_eq!(report.sent_bytes, server.seen.iter().sum::<usize>() as u64);
}

#[test]
fn reports_missing_data_configuration_without_network_io() {
    let plan = ProbePlan::new(config("127.0.0.1:1")).ping(ip("127.0.0.1"));
    let (run, action) = ProbeRun::begin(plan, secs(0));
    assert_eq!(action, ProbeAction::Finished);
    let report = run.into_report();
    assert_eq!(report.verdict, Verdict::LocalError);
    assert!(report.phases[0].detail.as_ref().unwrap().contains("Address"));
}

#[test]
fn expired_handshake_deadline_sends_no_datagram() {
    let mut tunnel = config("127.0.0.1:1").open_tunnel();
    let from = IpAddr::V4(ip("127.0.0.1"));
    let mut handshake = Handshake::new();
    let action = handshake.drive(&mut tunnel, from, HandshakeInput::Start);
    assert!(matches!(action, HandshakeAction::Send(_)));
    assert_eq!(handshake.stage, HandshakeStage::SendingInitiation);
    let action =
        handshake.drive(&mut tunnel, from, HandshakeInput::Sent(Err(SendError::Timeout)));
    let failure = match action {
        HandshakeAction::Failed(failure) => failure,
        other => panic!("{other:?}"),
    };
    assert_eq!(failure.status, PhaseStatus::Unconfirmed);
    assert_eq!(failure.sent, 0);
    assert_eq!(failure, handshake_timeout(0, 0));
}

#[test]
fn expired_data_check_deadline_sends_no_datagram() {
    let mut tunnel = config("127.0.0.1:1").open_tunnel();
    let from = IpAddr::V4(ip("127.0.0.1"));
    let expectation = Expectation::Echo {
        source: ip("10.0.0.1"),
        destination: ip("10.0.0.2"),
        echo_id: 1,
        sequence: 1,
    };
    let mut check = Check::new();
    let action = check.drive(
        &mut tunnel,
        from,
        &[0; 20],
        &expectation,
        CheckInput::Start { expired: true },
    );
    assert_eq!(
        action,
        CheckAction::Ended(CheckOutcome::Unconfirmed { sent: 0, received: 0 })
    );
}

#[test]
fn rejects_unrepresentable_timeouts_without_panicking() {
    let plan = ProbePlan::new(config("127.0.0.1:1")).timeouts(
        Duration::max(),
        secs(1),
        secs(1),
        Duration::max(),
    );
    assert!(matches!(plan.validate(), Err(ProbeError::InvalidPlan(_))));
    let (run, action) = ProbeRun::begin(plan, secs(0));
    assert_eq!(action, ProbeAction::Finished);
    let report = run.into_report();
    assert_eq!(report.verdict, Verdict::LocalError);
    assert!(report.phases[0].detail.as_deref().unwrap().contains("representable"));
}

#[test]
fn resolver_slots_are_bounded_and_numeric_endpoints_bypass_them() {
    let mut active = 0usize;
    let slots = (0..MAX_RESOLVER_WORKERS)
        .map(|_| ResolverSlot::acquire(&mut active).unwrap())
        .collect::<Vec<_>>();
    assert!(ResolverSlot::acquire(&mut active).is_none());
    match resolve_endpoint("hostname.test:51820", secs(1), &mut active) {
        Resolution::Settled(Err(detail)) => assert!(detail.contains("capacity exhausted")),
        other => panic!("{other:?}"),
    }
    match resolve_endpoint("127.0.0.1:51820", secs(1), &mut active) {
        Resolution::Settled(found) => assert_eq!(found, Ok(Some(socket("127.0.0.1:51820")))),
        other => panic!("{other:?}"),
    }
    for slot in slots {
        slot.release(&mut active);
    }
    assert_eq!(active, 0);
    let slot = match resolve_endpoint("localhost:51820", secs(1), &mut active) {
        Resolution::Lookup(slot) => slot,
        other => panic!("{other:?}"),
    };
    assert_eq!(active, 1);
    let found = socket("127.0.0.1:51820");
    assert_eq!(
        lookup_result(LookupOutcome::Answered(Ok(Some(found)))),
        Ok(Some(found))
    );
    slot.release(&mut active);
    assert_eq!(active, 0);
}

#[test]
fn lookups_fail_with_their_cause() {
    let mut active = 0usize;
    match resolve_endpoint("127.0.0.1:1", secs(0), &mut active) {
        Resolution::Settled(Err(detail)) => {
            assert_eq!(detail, "overall deadline expired before endpoint resolution");
        }
        other => panic!("{other:?}"),
    }
    assert_eq!(
        lookup_result(LookupOutcome::TimedOut),
        Err("endpoint resolution exceeded the overall deadline".to_string())
    );
    assert_eq!(
        lookup_result(LookupOutcome::Stopped),
        Err("endpoint resolver stopped unexpectedly".to_string())
    );
    assert_eq!(
        lookup_result(LookupOutcome::NotStarted("limit".to_string())),
        Err("could not start endpoint resolver: limit".to_string())
    );
    assert_eq!(
        lookup_result(LookupOutcome::Answered(Err("no such name".to_string()))),
        Err("no such name".to_string())
    );
}

#[test]
fn plans_are_refused_for_their_faults() {
    let refusal = |plan: ProbePlan| match plan.validate_with(true) {
        Ok(()) => None,
        Err(error) => Some(error.message()),
    };
    assert_eq!(refusal(ProbePlan::new(data_config("h:1"))), None);
    assert_eq!(refusal(ProbePlan::new(data_config("h:1")).ping(ip("10.0.0.1"))), None);
    assert!(refusal(ProbePlan::new(data_config("h:1")).ping(ip("10.0.1.1")))
        .unwrap()
        .contains("ping target 10.0.1.1 is outside Peer AllowedIPs"));
    assert!(refusal(
        ProbePlan::new(data_config("h:1")).resolve("example.com").dns_server(ip("9.9.9.9"))
    )
    .unwrap()
    .contains("DNS server 9.9.9.9 is outside Peer AllowedIPs"));
    assert_eq!(refusal(ProbePlan::new(data_config("h:1")).resolve("example.com")), None);
    assert!(refusal(ProbePlan::new(data_config("h:1")).resolve("bad..name")).is_some());
    assert!(refusal(ProbePlan::new(config("h:1")).resolve("example.com")).is_some());
    assert!(refusal(
        ProbePlan::new(config("h:1")).timeouts(secs(0), secs(1), secs(1), secs(1))
    )
    .is_some());
    let plan = ProbePlan::new(data_config("h:1"));
    assert_eq!(
        plan.validate_with(false).unwrap_err().message(),
        "timeouts and the overall deadline must be representable by the system clock"
    );
    assert!(plan.validate().is_ok());
    assert!(plan.representable());
}

#[test]
fn allowed_networks_decide() {
    let networks = [
        Ipv4Cidr::parse("10.0.0.0/24").unwrap(),
        Ipv4Cidr::parse("192.0.2.1/32").unwrap(),
    ];
    assert!(is_allowed(&networks, ip("10.0.0.9")));
    assert!(is_allowed(&networks, ip("192.0.2.1")));
    assert!(!is_allowed(&networks, ip("192.0.2.2")));
    assert!(!is_allowed(&[], ip("10.0.0.9")));
}

#[test]
fn unresolved_endpoint_is_a_local_error() {
    let (mut run, action) = ProbeRun::begin_with(ProbePlan::new(config("h:1")), true, secs(5));
    assert!(matches!(action, ProbeAction::Resolve { ref name, .. } if name == "h:1"));
    assert_eq!(run.stage(), RunStage::Resolving);
    let action = run.advance(ProbeInput::Resolved(Err("no such host".to_string())), secs(6));
    assert_eq!(action, ProbeAction::Finished);
    let events = run.take_events();
    assert!(events.iter().any(|event| event.kind == ProbeEventKind::Started));
    assert!(run.take_events().is_empty());
    let report = run.into_report();
    assert_eq!(report.verdict, Verdict::LocalError);
    assert_eq!(report.duration_ms, 6000);
    assert_eq!(report.phases.last().unwrap().detail.as_deref(), Some("no such host"));
}

#[test]
fn checks_are_skipped_without_a_session() {
    let plan = ProbePlan::new(data_config("192.0.2.1:1")).ping(ip("10.0.0.1")).resolve("example.com");
    let (mut run, _) = ProbeRun::begin_with(plan, true, secs(0));
    let endpoint = socket("192.0.2.1:1");
    let action = run.advance(ProbeInput::Resolved(Ok(Some(endpoint))), secs(0));
    assert_eq!(
        action,
        ProbeAction::Open { bind: socket("0.0.0.0:0"), endpoint }
    );
    let action = run.advance(ProbeInput::Opened(Ok(Some(socket("192.0.2.9:4")))), secs(0));
    assert!(matches!(action, ProbeAction::Handshake { .. }));
    let failure = handshake_timeout(148, 0);
    let action = run.advance(ProbeInput::NotAuthenticated(failure), secs(1));
    assert_eq!(action, ProbeAction::Finished);
    let report = run.into_report();
    assert_eq!(report.verdict, Verdict::Unconfirmed);
    assert_eq!(report.sent_bytes, 148);
    assert!(report.phases.iter().all(|p| p.phase != "keepalive"));
    assert_eq!(status_of(&report, "ping"), PhaseStatus::Skipped);
    assert_eq!(status_of(&report, "dns"), PhaseStatus::Skipped);
    assert_eq!(report.local_udp_address, Some(socket("192.0.2.9:4")));
}

#[test]
fn checks_run_in_order_with_given_draws() {
    let plan = ProbePlan::new(data_config("192.0.2.1:1")).ping(ip("10.0.0.1")).resolve("example.com");
    let (mut run, _) = ProbeRun::begin_with(plan, true, secs(0));
    run.advance(ProbeInput::Resolved(Ok(Some(socket("192.0.2.1:1")))), secs(0));
    run.advance(ProbeInput::Opened(Ok(None)), secs(0));
    let draws = Draws { first: 0x0001_0002, second: 3, third: 4 };
    let action = run.advance_with(
        ProbeInput::Authenticated { sent: 148, received: 92, keepalive: Ok(32) },
        secs(0),
        draws,
    );
    match action {
        ProbeAction::Check { packet, expectation, .. } => {
            assert_eq!(packet.len(), 36);
            assert!(matches!(expectation, Expectation::Echo { .. }));
            assert_eq!(expectation.answers(&packet), None);
        }
        other => panic!("{other:?}"),
    }
    let action = run.advance_with(
        ProbeInput::Checked(CheckOutcome::Unconfirmed { sent: 68, received: 0 }),
        secs(1),
        draws,
    );
    match action {
        ProbeAction::Check { expectation, .. } => {
            assert!(matches!(
                expectation,
                Expectation::Dns { client_port, .. } if (32768..61000).contains(&client_port)
            ));
        }
        other => panic!("{other:?}"),
    }
    let action = run.advance_with(
        ProbeInput::Checked(CheckOutcome::Passed {
            sent: 80,
            received: 100,
            answers: vec![ip("192.0.2.10")],
        }),
        secs(2),
        draws,
    );
    assert_eq!(action, ProbeAction::Finished);
    let report = run.into_report();
    assert_eq!(report.verdict, Verdict::DataPlaneConfirmed);
    assert_eq!(report.sent_bytes, 148 + 32 + 68 + 80);
    assert_eq!(report.received_bytes, 92 + 100);
    assert_eq!(status_of(&report, "ping"), PhaseStatus::Unconfirmed);
    assert_eq!(status_of(&report, "dns"), PhaseStatus::Passed);
}

#[test]
fn check_outcomes_become_phases() {
    let phase = check_phase(
        "ping",
        "10.0.0.1".to_string(),
        7,
        &CheckOutcome::Error { detail: "broken".to_string(), sent: 1, received: 2 },
    );
    assert_eq!(phase.status, PhaseStatus::Error);
    assert_eq!(phase.detail.as_deref(), Some("broken"));
    assert_eq!((phase.duration_ms, phase.sent_bytes, phase.received_bytes), (7, 1, 2));
}

#[test]
fn handshake_failures_are_described() {
    let failure = handshake_protocol("InvalidMac", 1, 2);
    assert_eq!(failure.status, PhaseStatus::Error);
    assert_eq!((failure.sent, failure.received), (1, 2));
    assert_eq!(failure.detail, "WireGuard protocol error: InvalidMac");
    let failure = handshake_local("refused", 3, 4);
    assert_eq!(failure.status, PhaseStatus::Error);
    assert_eq!(failure.detail, "local UDP error: refused");
    assert_eq!((failure.sent, failure.received), (3, 4));
    assert_eq!(handshake_timeout(0, 0).status, PhaseStatus::Unconfirmed);
    assert_eq!(
        handshake_timeout(0, 0).detail,
        "no authenticated response before the handshake deadline"
    );
}

#[test]
fn handshake_follows_the_engine() {
    let mut handshake = Handshake::new();
    assert_eq!(
        handshake.advance(HandshakeInput::Start),
        HandshakeAction::Initiate { force: false }
    );
    let mut initiation = vec![0u8; 148];
    initiation[0] = 1;
    assert_eq!(
        handshake.advance(HandshakeInput::Engine(TunnelOutput::Network(initiation.clone()))),
        HandshakeAction::Send(initiation)
    );
    assert_eq!(
        handshake.advance(HandshakeInput::Sent(Ok(148))),
        HandshakeAction::Receive
    );
    assert_eq!(
        handshake.advance(HandshakeInput::Received(Ok(vec![7; 10]))),
        HandshakeAction::Receive
    );
    let mut response = vec![0u8; 92];
    response[0] = 2;
    assert_eq!(
        handshake.advance(HandshakeInput::Received(Ok(response.clone()))),
        HandshakeAction::Decapsulate(response)
    );
    assert_eq!(
        handshake.advance(HandshakeInput::Engine(TunnelOutput::Network(vec![1; 32]))),
        HandshakeAction::Send(vec![1; 32])
    );
    assert_eq!(
        handshake.advance(HandshakeInput::Sent(Ok(32))),
        HandshakeAction::Established { sent: 148, received: 102, keepalive: Ok(32) }
    );
}

#[test]
fn tunnel_needs_a_session_to_send_data() {
    let mut tunnel: Tunnel = config("127.0.0.1:1").open_tunnel();
    match tunnel.encapsulate(&[0x45; 20]) {
        TunnelOutput::Network(datagram) => assert_eq!(datagram.len(), 148),
        other => panic!("{other:?}"),
    }
    assert_eq!(tunnel.initiate(false), TunnelOutput::Done);
    assert!(matches!(tunnel.initiate(true), TunnelOutput::Network(_)));
    let from = IpAddr::V4(ip("127.0.0.1"));
    assert!(matches!(tunnel.decapsulate(from, &[9; 40]), TunnelOutput::Failed(_)));
}

#[test]
fn times_saturate() {
    assert_eq!(millis(Duration::new(1, 999_999)), 1000);
    assert_eq!(millis(Duration::max()), u64::MAX);
    assert_eq!(deadline(secs(10), secs(2), secs(3)), secs(5));
    assert_eq!(deadline(secs(4), secs(2), secs(3)), secs(4));
    assert_eq!(deadline(secs(4), Duration::max(), secs(3)), secs(4));
}

#[test]
fn overall_deadline_caps_the_handshake() {
    let plan = ProbePlan::new(config("192.0.2.1:1")).timeouts(secs(10), secs(1), secs(1), secs(3));
    let (mut run, action) = ProbeRun::begin_with(plan, true, secs(1));
    assert!(matches!(action, ProbeAction::Resolve { timeout, .. } if timeout == secs(2)));
    run.advance(ProbeInput::Resolved(Ok(Some(socket("192.0.2.1:1")))), secs(1));
    let action = run.advance(ProbeInput::Opened(Ok(None)), secs(2));
    assert!(matches!(action, ProbeAction::Handshake { deadline, .. } if deadline == secs(3)));
}

#[test]
fn reports_are_the_same_for_any_preshared_key() {
    let report = |line: &str| {
        let config = ProbeConfig::parse(&format!(
            "[Interface]\nPrivateKey={KEY}\n[Peer]\nPublicKey={KEY}\n{line}Endpoint=h:1\n"
        ))
        .unwrap_or_else(|e| panic!("{}", e.message()));
        let (mut run, _) = ProbeRun::begin_with(ProbePlan::new(config), true, secs(0));
        run.advance(ProbeInput::Resolved(Ok(None)), secs(1));
        run.into_report()
    };
    let plain = report("");
    let shared = report("PresharedKey=AQEBAQEBAQEBAQEBAQEBAQEBAQEBAQEBAQEBAQEBAQE=\n");
    assert_eq!(plain, shared);
    assert!(!format!("{plain:?}").contains(KEY));
}

#[test]
fn a_protocol_failure_is_a_local_error() {
    let mut handshake = Handshake::new();
    handshake.advance(HandshakeInput::Start);
    let action =
        handshake.advance(HandshakeInput::Engine(TunnelOutput::Failed("InvalidMac".to_string())));
    let failure = match action {
        HandshakeAction::Failed(failure) => failure,
        other => panic!("{other:?}"),
    };
    assert_eq!(failure.status, PhaseStatus::Error);
    let (mut run, _) =
        ProbeRun::begin_with(ProbePlan::new(config("192.0.2.1:1")), true, secs(0));
    run.advance(ProbeInput::Resolved(Ok(Some(socket("192.0.2.1:1")))), secs(0));
    run.advance(ProbeInput::Opened(Ok(None)), secs(0));
    run.advance(ProbeInput::NotAuthenticated(failure), secs(0));
    let report = run.into_report();
    assert_eq!(report.verdict, Verdict::LocalError);
    assert_eq!(status_of(&report, "handshake"), PhaseStatus::Error);
}

#[test]
fn a_used_up_counter_is_refused() {
    let mut tunnel: Tunnel = config("127.0.0.1:1").open_tunnel();
    let from = IpAddr::V4(ip("127.0.0.1"));
    let mut datagram = vec![0u8; 32];
    datagram[0] = 4;
    datagram[8..16].copy_from_slice(&(u64::MAX - 1023).to_le_bytes());
    assert_eq!(
        tunnel.decapsulate(from, &datagram),
        TunnelOutput::Failed("InvalidCounter".to_string())
    );
    datagram[8..16].copy_from_slice(&(u64::MAX - 1024).to_le_bytes());
    assert_eq!(
        tunnel.decapsulate(from, &datagram),
        TunnelOutput::Failed("NoCurrentSession".to_string())
    );
}

#[test]
fn notices_tell_the_report() {
    let plan = ProbePlan::new(data_config("192.0.2.1:1")).ping(ip("10.0.0.1")).resolve("example.com");
    let (mut run, _) = ProbeRun::begin_with(plan, true, secs(0));
    let mut events = run.take_events();
    run.advance(ProbeInput::Resolved(Ok(Some(socket("192.0.2.1:1")))), secs(0));
    run.advance(ProbeInput::Opened(Ok(None)), secs(0));
    events.extend(run.take_events());
    run.advance(
        ProbeInput::Authenticated { sent: 148, received: 92, keepalive: Ok(32) },
        secs(0),
    );
    let outcome = || CheckOutcome::Unconfirmed { sent: 1, received: 0 };
    run.advance(ProbeInput::Checked(outcome()), secs(1));
    run.advance(ProbeInput::Checked(outcome()), secs(2));
    events.extend(run.take_events());
    let report = run.into_report();
    let finished: Vec<_> = events.iter().filter_map(|event| event.result.clone()).collect();
    assert_eq!(finished, report.phases);
    for pair in events.chunks(2) {
        assert_eq!(pair[0].kind, ProbeEventKind::Started);
        assert_eq!(pair[1].kind, ProbeEventKind::Finished);
        assert_eq!(pair[0].phase, pair[1].phase);
    }
}
