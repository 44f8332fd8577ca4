//! Which checks a probe makes, in which order, and what it says of each.
use crate::exchange::{
    dns_query_asks_for_name, echo_request_asks_for_reply, is_dns_datagram, is_question,
};
use crate::net::{IpModel, Ipv4Addr, SocketAddr, SocketModel};
use crate::packet::{checksum_spec, encode_name_spec, parse_ipv4_spec};
use crate::probe::{
    begin_spec, dns_detail, Draws, PlanModel, ProbeActionModel, ProbeInputModel, RunModel, RunStage,
};
use crate::report::{EventModel, PhaseModel, PhaseStatus, ProbeEventKind, Verdict};
use crate::session::{ExpectationModel, FailureModel, OutcomeModel};
use vstd::prelude::*;
use vstd::string::*;

verus! {

/// Whether a packet is an echo request from one address to another, with the given identifier and
/// sequence number.
pub open spec fn is_echo_request(
    packet: Seq<u8>,
    source: Ipv4Addr,
    target: Ipv4Addr,
    echo_id: u16,
    sequence: u16,
) -> bool {
    parse_ipv4_spec(packet) matches Some((protocol, from, to, icmp)) && {
        &&& protocol == 1 && from == source && to == target
        &&& icmp.len() >= 8 && icmp[0] == 8 && icmp[1] == 0
        &&& checksum_spec(icmp) == 0
        &&& icmp[4] * 256 + icmp[5] == echo_id
        &&& icmp[6] * 256 + icmp[7] == sequence
    }
}

/// Whether a packet is a query from one address to a server for the addresses of a name, with the
/// given port and number.
pub open spec fn is_name_query(
    packet: Seq<u8>,
    source: Ipv4Addr,
    server: Ipv4Addr,
    port: u16,
    transaction_id: u16,
    name: Seq<char>,
) -> bool {
    parse_ipv4_spec(packet) matches Some((protocol, from, to, udp)) && protocol == 17 && from
        == source && to == server && is_dns_datagram(udp, source, server, port) && is_question(
        udp.skip(8),
        transaction_id,
        name,
    )
}

/// The earlier of two moments.
pub open spec fn earlier(a: int, b: int) -> int {
    if a < b {
        a
    } else {
        b
    }
}

/// Whether the last notice is that a phase starts.
pub open spec fn announced(events: Seq<EventModel>, phase: Seq<char>, target: Seq<char>) -> bool {
    events.len() > 0 && events.last().kind == ProbeEventKind::Started && events.last().phase == phase
        && events.last().target == Some(target)
}

/// Whether an address is the server for names: the one that the plan names, or else the first of the
/// configuration.
pub open spec fn serves_names(plan: PlanModel, server: Ipv4Addr) -> bool {
    match plan.dns_server {
        Some(given) => server == given,
        None => plan.config.dns_servers.len() > 0 && plan.config.dns_servers[0] == IpModel::V4(
            server,
        ),
    }
}

/// A step that leads to a ping asks the target that is next: the packet is an echo request from the
/// client's address to the target, only the reply of that target to that request is expected, in the
/// time that pings have, and the notice names the target.
pub proof fn ping_asks_its_target(run: RunModel, input: ProbeInputModel, now: int, draws: Draws)
    requires
        run.wf(),
        run.expects(input),
        run.advance(input, now, draws).0.stage == RunStage::Pinging,
    ensures
        ({
            let (after, action) = run.advance(input, now, draws);
            let target = run.plan.pings[after.index];
            &&& after.plan == run.plan
            &&& 0 <= after.index < run.plan.pings.len()
            &&& announced(after.events, "ping"@, target.text_spec())
            &&& action matches ProbeActionModel::Check { packet, expectation, deadline } && {
                &&& deadline == earlier(now + run.plan.ping_timeout, run.plan.overall_timeout)
                &&& expectation matches ExpectationModel::Echo {
                    source,
                    destination,
                    echo_id,
                    sequence,
                } && {
                    &&& source == target
                    &&& run.plan.config.address is Some
                    &&& destination == run.plan.config.address.unwrap().0
                    &&& sequence == after.index % 0x10000
                    &&& is_echo_request(packet, destination, target, echo_id, sequence)
                }
            }
        }),
{
    let (after, action) = run.advance(input, now, draws);
    let target = run.plan.pings[after.index];
    let source = run.plan.source().unwrap();
    echo_request_asks_for_reply(
        source,
        target,
        draws.second_word(),
        draws.first_word(),
        (after.index % 0x10000) as u16,
        0,
    );
}

/// A step that leads to a DNS check asks for the name that is next: the packet is a query from the
/// client's address to the server for names, only the answer to that query is expected, in the time
/// that such checks have, and the notice names both.
pub proof fn query_asks_for_its_name(run: RunModel, input: ProbeInputModel, now: int, draws: Draws)
    requires
        run.wf(),
        run.expects(input),
        run.advance(input, now, draws).0.stage == RunStage::Asking,
    ensures
        ({
            let (after, action) = run.advance(input, now, draws);
            let asked = run.plan.resolves[after.index];
            &&& after.plan == run.plan
            &&& 0 <= after.index < run.plan.resolves.len()
            &&& action matches ProbeActionModel::Check { packet, expectation, deadline } && {
                &&& deadline == earlier(now + run.plan.dns_timeout, run.plan.overall_timeout)
                &&& expectation matches ExpectationModel::Dns {
                    server,
                    client,
                    client_port,
                    transaction_id,
                    name,
                } && {
                    &&& name == asked
                    &&& serves_names(run.plan, server)
                    &&& run.plan.config.address is Some
                    &&& client == run.plan.config.address.unwrap().0
                    &&& 32768 <= client_port < 61000
                    &&& is_name_query(packet, client, server, client_port, transaction_id, asked)
                    &&& announced(after.events, "dns"@, asked + " via "@ + server.text_spec())
                }
            }
        }),
{
    let (after, action) = run.advance(input, now, draws);
    let asked = run.plan.resolves[after.index];
    let source = run.plan.source().unwrap();
    let server = run.plan.effective_dns_server().unwrap();
    crate::verdict::lemma_names_encoded(run.plan, 0);
    assert(encode_name_spec(asked).0 is None);
    dns_query_asks_for_name(
        source,
        server,
        draws.port(),
        draws.second_word(),
        draws.third_word(),
        asked,
    );
}

/// The stage after so many pings and so many DNS checks: the next ping, or else the next DNS check,
/// or else the end.
pub open spec fn stage_after(plan: PlanModel, pings: int, names: int) -> (RunStage, int) {
    if pings < plan.pings.len() {
        (RunStage::Pinging, pings)
    } else if names < plan.resolves.len() {
        (RunStage::Asking, names)
    } else {
        (RunStage::Over, 0)
    }
}

/// Every planned check is made once, in order, once there is a session: first the pings and then the
/// DNS checks, each in the order of the plan, whatever became of those before.
pub proof fn checks_follow_the_plan(run: RunModel, input: ProbeInputModel, now: int, draws: Draws)
    requires
        run.wf(),
        run.expects(input),
    ensures
        ({
            let after = run.advance(input, now, draws).0;
            match run.stage {
                RunStage::Handshaking => if input is Authenticated {
                    after.stage == stage_after(run.plan, 0, 0).0 && (after.stage != RunStage::Over
                        ==> after.index == 0)
                } else {
                    after.stage == RunStage::Over
                },
                RunStage::Pinging => after.stage == stage_after(run.plan, run.index + 1, 0).0 && (
                after.stage != RunStage::Over ==> after.index == stage_after(
                    run.plan,
                    run.index + 1,
                    0,
                ).1),
                RunStage::Asking => {
                    let n = run.plan.pings.len() as int;
                    &&& after.stage == stage_after(run.plan, n, run.index + 1).0
                    &&& after.stage != RunStage::Over ==> after.index == run.index + 1
                },
                RunStage::Resolving => after.stage == RunStage::Opening || after.stage
                    == RunStage::Over,
                RunStage::Opening => after.stage == RunStage::Handshaking || after.stage
                    == RunStage::Over,
                RunStage::Over => true,
            }
        }),
        (run.advance(input, now, draws).1 is Finished) == (run.advance(input, now, draws).0.stage
            == RunStage::Over),
        (run.advance(input, now, draws).1 is Check) == (run.advance(input, now, draws).0.stage
            == RunStage::Pinging || run.advance(input, now, draws).0.stage == RunStage::Asking),
{
}

/// The status of a check that ended so.
pub open spec fn status_of(outcome: OutcomeModel) -> PhaseStatus {
    match outcome {
        OutcomeModel::Passed { .. } => PhaseStatus::Passed,
        OutcomeModel::Unconfirmed { .. } => PhaseStatus::Unconfirmed,
        OutcomeModel::Error { .. } => PhaseStatus::Error,
    }
}

/// The bytes that a check sent and received.
pub open spec fn traffic_of(outcome: OutcomeModel) -> (int, int) {
    match outcome {
        OutcomeModel::Passed { sent, received, .. } => (sent, received),
        OutcomeModel::Unconfirmed { sent, received } => (sent, received),
        OutcomeModel::Error { sent, received, .. } => (sent, received),
    }
}

/// The outcome of a check adds one phase, which names the check that was made: its kind, the target
/// that was asked, how it ended and what it sent and received. All phases before stay.
pub proof fn outcome_names_its_check(run: RunModel, outcome: OutcomeModel, now: int, draws: Draws)
    requires
        run.wf(),
        run.stage == RunStage::Pinging || run.stage == RunStage::Asking,
    ensures
        ({
            let after = run.advance(ProbeInputModel::Checked(outcome), now, draws).0;
            let n = run.report.phases.len() as int;
            let phase = after.report.phases[n];
            &&& after.report.phases.len() == n + 1
            &&& after.report.phases.take(n) == run.report.phases
            &&& phase.status == status_of(outcome)
            &&& phase.sent_bytes == traffic_of(outcome).0
            &&& phase.received_bytes == traffic_of(outcome).1
            &&& outcome matches OutcomeModel::Error { detail, .. } ==> phase.detail == Some(detail)
            &&& run.stage == RunStage::Pinging ==> phase.phase == "ping"@ && phase.target == Some(
                run.plan.pings[run.index].text_spec(),
            )
            &&& run.stage == RunStage::Asking ==> phase.phase == "dns"@ && exists|server: Ipv4Addr|
                serves_names(run.plan, server) && phase.target == Some(
                    run.plan.resolves[run.index] + " via "@ + #[trigger] server.text_spec(),
                )
            &&& run.stage == RunStage::Asking ==> (outcome matches OutcomeModel::Passed {
                answers,
                ..
            } ==> phase.detail == Some(dns_detail(answers)))
            &&& after.report.sent_bytes == run.report.sent_bytes + traffic_of(outcome).0
            &&& after.report.received_bytes == run.report.received_bytes + traffic_of(outcome).1
        }),
{
    let after = run.advance(ProbeInputModel::Checked(outcome), now, draws).0;
    assert(after.report.phases.take(run.report.phases.len() as int) =~= run.report.phases);
    if run.stage == RunStage::Asking {
        let server = run.plan.effective_dns_server().unwrap();
        assert(serves_names(run.plan, server));
        assert(after.report.phases[run.report.phases.len() as int].target == Some(
            run.plan.resolves[run.index] + " via "@ + server.text_spec(),
        ));
    }
}

/// What a DNS check found names every address, in order, with a comma between two: one more address
/// is written behind the others.
pub proof fn dns_detail_names_every_address(answers: Seq<Ipv4Addr>, last: Ipv4Addr)
    ensures
        dns_detail(Seq::empty()) == "valid DNS response; A records: none"@,
        dns_detail(seq![last]) == "valid DNS response; A records: "@ + last.text_spec(),
        answers.len() > 0 ==> dns_detail(answers.push(last)) == dns_detail(answers) + ", "@
            + last.text_spec(),
{
    reveal_strlit("valid DNS response; A records: ");
    reveal_strlit("valid DNS response; A records: none");
    reveal_strlit("none");
    assert("valid DNS response; A records: "@ + "none"@ =~= "valid DNS response; A records: none"@);
    if answers.len() > 0 {
        assert(answers.push(last).drop_last() =~= answers);
        assert(dns_detail(answers.push(last)) =~= dns_detail(answers) + ", "@ + last.text_spec());
    }
}

/// The first steps of a probe keep to the endpoint that was found: the socket is connected to it from
/// any address of its family, the handshake is with it and ends by the time of handshakes, and the
/// report names it and the address of the socket.
pub proof fn probe_keeps_to_its_endpoint(
    run: RunModel,
    endpoint: SocketModel,
    local: Option<SocketModel>,
    now: int,
    draws: Draws,
)
    requires
        run.wf(),
    ensures
        run.stage == RunStage::Resolving ==> ({
            let (after, action) = run.advance(
                ProbeInputModel::Resolved(Ok(Some(endpoint))),
                now,
                draws,
            );
            &&& after.stage == RunStage::Opening
            &&& after.report.resolved_endpoint == Some(endpoint)
            &&& action matches ProbeActionModel::Open { bind, endpoint: to } && to == endpoint && (
            match (bind, endpoint) {
                (SocketModel::V4 { address, port }, SocketModel::V4 { .. }) => address.a == 0
                    && address.b == 0 && address.c == 0 && address.d == 0 && port == 0,
                (SocketModel::V6 { groups, port, flowinfo, scope_id }, SocketModel::V6 { .. }) => {
                    groups.len() == 8 && (forall|i: int| 0 <= i < 8 ==> #[trigger] groups[i] == 0)
                        && port == 0
                },
                _ => false,
            })
        }),
        run.stage == RunStage::Opening ==> ({
            let (after, action) = run.advance(ProbeInputModel::Opened(Ok(local)), now, draws);
            &&& after.stage == RunStage::Handshaking
            &&& after.report.resolved_endpoint == run.report.resolved_endpoint
            &&& after.report.local_udp_address == local
            &&& action matches ProbeActionModel::Handshake { endpoint: to, deadline } && Some(to)
                == run.report.resolved_endpoint && deadline == earlier(
                now + run.plan.handshake_timeout,
                run.plan.overall_timeout,
            )
        }),
{
}

/// A local fault ends the probe as a local error that names it: an endpoint that cannot be resolved
/// or has no address, or a socket that cannot be opened.
pub proof fn local_faults_end_the_probe(
    run: RunModel,
    error: Seq<char>,
    now: int,
    draws: Draws,
)
    requires
        run.wf(),
    ensures
        run.stage == RunStage::Resolving ==> ({
            let after = run.advance(ProbeInputModel::Resolved(Err(error)), now, draws).0;
            let empty = run.advance(ProbeInputModel::Resolved(Ok(None)), now, draws).0;
            &&& after.stage == RunStage::Over && empty.stage == RunStage::Over
            &&& after.report.verdict == Verdict::LocalError
            &&& empty.report.verdict == Verdict::LocalError
            &&& after.report.phases.last().phase == "endpoint_resolution"@
            &&& after.report.phases.last().status == PhaseStatus::Error
            &&& after.report.phases.last().detail == Some(error)
            &&& empty.report.phases.last().status == PhaseStatus::Error
        }),
        run.stage == RunStage::Opening ==> ({
            let after = run.advance(ProbeInputModel::Opened(Err(error)), now, draws).0;
            &&& after.stage == RunStage::Over
            &&& after.report.verdict == Verdict::LocalError
            &&& after.report.phases.last().phase == "socket"@
            &&& after.report.phases.last().status == PhaseStatus::Error
            &&& after.report.phases.last().detail == Some(error)
        }),
{
}

/// A plan that is refused is reported with the reason, and nothing is asked for; one that is accepted
/// starts with the resolution of its endpoint, in the time that is left of the whole.
pub proof fn refused_plan_does_nothing(plan: PlanModel, refusal: Option<Seq<char>>, now: int)
    requires
        0 <= now,
    ensures
        ({
            let (run, action) = begin_spec(plan, refusal, now);
            &&& run.plan == plan
            &&& refusal matches Some(reason) ==> {
                &&& action is Finished && run.stage == RunStage::Over
                &&& run.report.verdict == Verdict::LocalError
                &&& run.report.phases.len() == 1
                &&& run.report.phases[0].phase == "validation"@
                &&& run.report.phases[0].status == PhaseStatus::Error
                &&& run.report.phases[0].detail == Some(reason)
                &&& run.report.sent_bytes == 0 && run.report.received_bytes == 0
            }
            &&& refusal is None ==> {
                &&& run.stage == RunStage::Resolving && run.report.phases.len() == 0
                &&& run.report.verdict == Verdict::Unconfirmed
                &&& run.report.endpoint == plan.config.endpoint
                &&& action matches ProbeActionModel::Resolve { name, timeout } && name
                    == plan.config.endpoint && timeout == (if now < plan.overall_timeout {
                    plan.overall_timeout - now
                } else {
                    0
                })
            }
        }),
{
}

/// A session adds two phases: the handshake, which passed, with its traffic, and the keepalive behind
/// it, which was sent or not and adds what was sent of it.
pub proof fn session_is_reported(
    run: RunModel,
    sent: int,
    received: int,
    keepalive: Result<int, Seq<char>>,
    now: int,
    draws: Draws,
)
    requires
        run.wf(),
        run.stage == RunStage::Handshaking,
    ensures
        ({
            let after = run.advance(
                ProbeInputModel::Authenticated { sent, received, keepalive },
                now,
                draws,
            ).0;
            let n = run.report.phases.len() as int;
            let first = after.report.phases[n];
            let second = after.report.phases[n + 1];
            &&& after.report.phases.len() == n + 2
            &&& after.report.phases.take(n) == run.report.phases
            &&& first.phase == "handshake"@ && first.status == PhaseStatus::Passed
            &&& first.target == Some(SocketAddr::text_spec(run.report.resolved_endpoint.unwrap()))
            &&& first.sent_bytes == sent && first.received_bytes == received
            &&& second.phase == "keepalive"@ && second.received_bytes == 0
            &&& match keepalive {
                Ok(count) => second.status == PhaseStatus::Sent && second.sent_bytes == count,
                Err(detail) => second.status == PhaseStatus::Error && second.sent_bytes == 0
                    && second.detail == Some(detail),
            }
            &&& after.report.received_bytes == run.report.received_bytes + received
            &&& after.report.sent_bytes == run.report.sent_bytes + sent + (match keepalive {
                Ok(count) => count,
                Err(_) => 0,
            })
            &&& after.report.verdict == Verdict::AuthenticationConfirmed || (after.report.verdict
                == Verdict::DataPlaneConfirmed && run.confirmed)
        }),
{
    let after = run.advance(
        ProbeInputModel::Authenticated { sent, received, keepalive },
        now,
        draws,
    ).0;
    assert(after.report.phases.take(run.report.phases.len() as int) =~= run.report.phases);
}

/// A handshake that failed is reported with its status, reason and traffic, and the identity of the
/// client and the endpoints of the report never change.
pub proof fn failed_handshake_is_reported(
    run: RunModel,
    failure: FailureModel,
    now: int,
    draws: Draws,
)
    requires
        run.wf(),
        run.stage == RunStage::Handshaking,
    ensures
        ({
            let after = run.advance(ProbeInputModel::NotAuthenticated(failure), now, draws).0;
            let phase = after.report.phases[run.report.phases.len() as int];
            &&& phase.phase == "handshake"@
            &&& phase.status == failure.status
            &&& phase.detail == Some(failure.detail)
            &&& phase.sent_bytes == failure.sent && phase.received_bytes == failure.received
        }),
{
    let phase = PhaseModel {
        phase: "handshake"@,
        target: Some(run.endpoint_text()),
        status: failure.status,
        duration_ms: run.phase_ms(now),
        sent_bytes: failure.sent,
        received_bytes: failure.received,
        detail: Some(failure.detail),
    };
    let failed = run.with_phase(phase, now);
    crate::verdict::lemma_skip_phases(failed, 0, now);
    let middle = failed.with_skipped_pings(0, now);
    crate::verdict::lemma_skip_name_phases(middle, 0, now);
    let after = middle.with_skipped_names(0, now);
    let n = run.report.phases.len() as int;
    assert(failed.report.phases[n] == phase);
    assert(middle.report.phases.take(n + 1)[n] == failed.report.phases[n]);
    assert(after.report.phases.take(middle.report.phases.len() as int)[n]
        == middle.report.phases[n]);
}

/// Times are told in whole milliseconds: a phase by the time since it started, a notice and the end of
/// the probe by the time since the probe started; and every stage starts when the one before ends.
pub proof fn times_are_told_in_milliseconds(
    run: RunModel,
    input: ProbeInputModel,
    now: int,
    draws: Draws,
)
    requires
        run.wf(),
        run.expects(input),
        0 <= run.started <= now <= u64::MAX,
    ensures
        ({
            let (after, action) = run.advance(input, now, draws);
            let n = run.report.phases.len() as int;
            let m = run.events.len() as int;
            &&& after.report.phases.len() > n && after.events.len() > m
            &&& after.report.phases[n].duration_ms == (now - run.started) / 1_000_000
            &&& after.events[m].elapsed_ms == now / 1_000_000
            &&& after.events[m].kind == ProbeEventKind::Finished
            &&& after.events[m].result == Some(after.report.phases[n])
            &&& after.stage == RunStage::Over ==> after.report.duration_ms == now / 1_000_000
            &&& after.stage != RunStage::Over ==> after.started == now
            &&& after.stage != RunStage::Over ==> after.events.last().elapsed_ms == now / 1_000_000
        }),
{
    if let ProbeInputModel::NotAuthenticated(failure) = input {
        lemma_failed_course(run, failure, now);
    }
}

proof fn lemma_failed_course(run: RunModel, failure: FailureModel, now: int)
    requires
        run.stage == RunStage::Handshaking,
    ensures
        ({
            let after = run.not_authenticated(failure, now).0;
            let n = run.report.phases.len() as int;
            let m = run.events.len() as int;
            &&& after.report.phases.len() > n && after.events.len() > m
            &&& after.report.phases[n].duration_ms == run.phase_ms(now)
            &&& after.events[m].elapsed_ms == crate::time::millis_spec(now)
            &&& after.events[m].kind == ProbeEventKind::Finished
            &&& after.events[m].result == Some(after.report.phases[n])
        }),
{
    let phase = PhaseModel {
        phase: "handshake"@,
        target: Some(run.endpoint_text()),
        status: failure.status,
        duration_ms: run.phase_ms(now),
        sent_bytes: failure.sent,
        received_bytes: failure.received,
        detail: Some(failure.detail),
    };
    let failed = run.with_phase(phase, now);
    let n = run.report.phases.len() as int;
    let m = run.events.len() as int;
    lemma_pings_skipped(failed, 0, now, n, m);
    lemma_names_skipped(failed.with_skipped_pings(0, now), 0, now, n, m);
}

proof fn lemma_pings_skipped(run: RunModel, i: int, now: int, n: int, m: int)
    requires
        0 <= n < run.report.phases.len(),
        0 <= m < run.events.len(),
    ensures
        ({
            let after = run.with_skipped_pings(i, now);
            &&& after.report.phases.len() >= run.report.phases.len()
            &&& after.events.len() >= run.events.len()
            &&& after.report.phases[n] == run.report.phases[n]
            &&& after.events[m] == run.events[m]
        }),
    decreases run.plan.pings.len() - i,
{
    if i < run.plan.pings.len() {
        let next = run.with_phase(
            crate::probe::skipped_phase("ping"@, run.plan.pings[i].text_spec()),
            now,
        );
        lemma_pings_skipped(next, i + 1, now, n, m);
    }
}

proof fn lemma_names_skipped(run: RunModel, i: int, now: int, n: int, m: int)
    requires
        0 <= n < run.report.phases.len(),
        0 <= m < run.events.len(),
    ensures
        ({
            let after = run.with_skipped_names(i, now);
            &&& after.report.phases.len() >= run.report.phases.len()
            &&& after.events.len() >= run.events.len()
            &&& after.report.phases[n] == run.report.phases[n]
            &&& after.events[m] == run.events[m]
        }),
    decreases run.plan.resolves.len() - i,
{
    if i < run.plan.resolves.len() {
        let next = run.with_phase(
            crate::probe::skipped_phase("dns"@, run.plan.resolves[i]),
            now,
        );
        lemma_names_skipped(next, i + 1, now, n, m);
    }
}

proof fn lemma_skipped_pings(run: RunModel, i: int, now: int, k: int)
    requires
        0 <= i <= k < run.plan.pings.len(),
    ensures
        ({
            let after = run.with_skipped_pings(i, now);
            let n = run.report.phases.len() as int;
            &&& after.plan == run.plan
            &&& after.report.phases.len() == n + run.plan.pings.len() - i
            &&& after.report.phases[n + k - i].phase == "ping"@
            &&& after.report.phases[n + k - i].target == Some(run.plan.pings[k].text_spec())
            &&& after.report.phases[n + k - i].status == PhaseStatus::Skipped
            &&& after.report.phases[n + k - i].sent_bytes == 0
            &&& after.report.phases[n + k - i].received_bytes == 0
        }),
    decreases k - i,
{
    let phase = crate::probe::skipped_phase("ping"@, run.plan.pings[i].text_spec());
    let next = run.with_phase(phase, now);
    let n = run.report.phases.len() as int;
    crate::verdict::lemma_skip_phases(next, i + 1, now);
    if i < k {
        lemma_skipped_pings(next, i + 1, now, k);
    } else {
        lemma_pings_skipped(next, i + 1, now, n, run.events.len() as int);
        assert(next.report.phases[n] == phase);
    }
}

proof fn lemma_skipped_names(run: RunModel, i: int, now: int, k: int)
    requires
        0 <= i <= k < run.plan.resolves.len(),
    ensures
        ({
            let after = run.with_skipped_names(i, now);
            let n = run.report.phases.len() as int;
            &&& after.report.phases.len() == n + run.plan.resolves.len() - i
            &&& after.report.phases[n + k - i].phase == "dns"@
            &&& after.report.phases[n + k - i].target == Some(run.plan.resolves[k])
            &&& after.report.phases[n + k - i].status == PhaseStatus::Skipped
            &&& after.report.phases[n + k - i].sent_bytes == 0
            &&& after.report.phases[n + k - i].received_bytes == 0
        }),
    decreases k - i,
{
    let phase = crate::probe::skipped_phase("dns"@, run.plan.resolves[i]);
    let next = run.with_phase(phase, now);
    let n = run.report.phases.len() as int;
    crate::verdict::lemma_skip_name_phases(next, i + 1, now);
    if i < k {
        lemma_skipped_names(next, i + 1, now, k);
    } else {
        lemma_names_skipped(next, i + 1, now, n, run.events.len() as int);
        assert(next.report.phases[n] == phase);
    }
}

/// The checks that a failed handshake leaves out are named one by one, behind the handshake: first the
/// pings and then the names, each in the order of the plan.
pub proof fn skipped_checks_are_named(
    run: RunModel,
    failure: FailureModel,
    now: int,
    draws: Draws,
    k: int,
)
    requires
        run.wf(),
        run.stage == RunStage::Handshaking,
    ensures
        ({
            let after = run.advance(ProbeInputModel::NotAuthenticated(failure), now, draws).0;
            let n = run.report.phases.len() + 1;
            let pings = run.plan.pings.len();
            &&& after.report.phases.len() == n + pings + run.plan.resolves.len()
            &&& 0 <= k < pings ==> {
                let phase = after.report.phases[n + k];
                &&& phase.phase == "ping"@ && phase.status == PhaseStatus::Skipped
                &&& phase.target == Some(run.plan.pings[k].text_spec())
                &&& phase.sent_bytes == 0 && phase.received_bytes == 0
            }
            &&& 0 <= k < run.plan.resolves.len() ==> {
                let phase = after.report.phases[n + pings + k];
                &&& phase.phase == "dns"@ && phase.status == PhaseStatus::Skipped
                &&& phase.target == Some(run.plan.resolves[k])
                &&& phase.sent_bytes == 0 && phase.received_bytes == 0
            }
        }),
{
    let phase = PhaseModel {
        phase: "handshake"@,
        target: Some(run.endpoint_text()),
        status: failure.status,
        duration_ms: run.phase_ms(now),
        sent_bytes: failure.sent,
        received_bytes: failure.received,
        detail: Some(failure.detail),
    };
    let failed = run.with_phase(phase, now);
    let middle = failed.with_skipped_pings(0, now);
    let after = middle.with_skipped_names(0, now);
    let result = run.advance(ProbeInputModel::NotAuthenticated(failure), now, draws).0;
    crate::verdict::lemma_skip_phases(failed, 0, now);
    crate::verdict::lemma_skip_name_phases(middle, 0, now);
    assert(result.report.phases == after.report.phases);
    let n = failed.report.phases.len() as int;
    if 0 <= k < run.plan.pings.len() {
        lemma_skipped_pings(failed, 0, now, k);
        assert(after.report.phases.take(middle.report.phases.len() as int)[n + k]
            == middle.report.phases[n + k]);
    }
    if 0 <= k < run.plan.resolves.len() {
        lemma_skipped_names(middle, 0, now, k);
    }
}

} // verus!
