//! What the report of a probe says as a whole.
use crate::config::ConfigModel;
use crate::keys::x25519_public;
use crate::packet::{
    dns_query_verifies, echo_request_spec, encode_name_spec, ipv4_packet_parses, parse_ipv4_spec,
};
use crate::probe::{
    allowed, begin_spec, error_phase, skipped_phase, Draws, PlanModel, ProbeActionModel,
    ProbeInputModel, RunModel, RunStage,
};
use crate::report::{PhaseModel, PhaseStatus, Verdict};
use crate::session::{ExpectationModel, FailureModel};
use vstd::prelude::*;

verus! {

/// Whether a phase is a data check.
pub open spec fn is_data_check(phase: PhaseModel) -> bool {
    phase.phase == "ping"@ || phase.phase == "dns"@
}

/// Whether some data check passed.
pub open spec fn data_passed(phases: Seq<PhaseModel>) -> bool {
    exists|i: int|
        0 <= i < phases.len() && is_data_check(#[trigger] phases[i]) && phases[i].status
            == PhaseStatus::Passed
}

/// Whether the handshake passed.
pub open spec fn handshake_passed(phases: Seq<PhaseModel>) -> bool {
    exists|i: int|
        0 <= i < phases.len() && (#[trigger] phases[i]).phase == "handshake"@ && phases[i].status
            == PhaseStatus::Passed
}

/// How many phases have the given name.
pub open spec fn phase_count(phases: Seq<PhaseModel>, name: Seq<char>) -> int
    decreases phases.len(),
{
    if phases.len() == 0 {
        0
    } else {
        phase_count(phases.drop_last(), name) + if phases.last().phase == name {
            1int
        } else {
            0
        }
    }
}

/// What the verdict says of the phases, in every stage of a probe: data checks that passed confirm
/// the data plane; a handshake that passed confirms authentication, whatever became of the data
/// checks; and without either nothing is confirmed.
pub open spec fn verdict_holds(run: RunModel) -> bool {
    let phases = run.report.phases;
    &&& run.confirmed == data_passed(phases)
    &&& match run.stage {
        RunStage::Resolving | RunStage::Opening | RunStage::Handshaking => run.report.verdict
            == Verdict::Unconfirmed && !handshake_passed(phases) && !data_passed(phases),
        RunStage::Pinging | RunStage::Asking => run.report.verdict
            == Verdict::AuthenticationConfirmed && handshake_passed(phases),
        RunStage::Over => match run.report.verdict {
            Verdict::DataPlaneConfirmed => data_passed(phases) && handshake_passed(phases),
            Verdict::AuthenticationConfirmed => !data_passed(phases) && handshake_passed(phases),
            Verdict::Unconfirmed => !data_passed(phases) && !handshake_passed(phases),
            Verdict::LocalError => !data_passed(phases) && !handshake_passed(phases),
        },
    }
}

/// How many data checks the report holds, in every stage: those that were done so far, and each
/// planned check once as soon as the handshake has ended and the probe is over.
pub open spec fn checks_counted(run: RunModel) -> bool {
    let phases = run.report.phases;
    let pings = phase_count(phases, "ping"@);
    let names = phase_count(phases, "dns"@);
    match run.stage {
        RunStage::Resolving | RunStage::Opening | RunStage::Handshaking => pings == 0 && names == 0
            && phase_count(phases, "handshake"@) == 0,
        RunStage::Pinging => pings == run.index && names == 0,
        RunStage::Asking => pings == run.plan.pings.len() && names == run.index,
        RunStage::Over => phase_count(phases, "handshake"@) > 0 ==> pings == run.plan.pings.len()
            && names == run.plan.resolves.len(),
    }
}

proof fn lemma_names()
    ensures
        "ping"@ != "dns"@,
        "ping"@ != "handshake"@,
        "ping"@ != "keepalive"@,
        "ping"@ != "socket"@,
        "ping"@ != "validation"@,
        "ping"@ != "endpoint_resolution"@,
        "dns"@ != "handshake"@,
        "dns"@ != "keepalive"@,
        "dns"@ != "socket"@,
        "dns"@ != "validation"@,
        "dns"@ != "endpoint_resolution"@,
        "handshake"@ != "keepalive"@,
        "handshake"@ != "socket"@,
        "handshake"@ != "validation"@,
        "handshake"@ != "endpoint_resolution"@,
{
    reveal_strlit("ping");
    reveal_strlit("dns");
    reveal_strlit("handshake");
    reveal_strlit("keepalive");
    reveal_strlit("socket");
    reveal_strlit("validation");
    reveal_strlit("endpoint_resolution");
    assert("ping"@.len() == 4 && "dns"@.len() == 3 && "handshake"@.len() == 9 && "keepalive"@.len()
        == 9 && "socket"@.len() == 6 && "validation"@.len() == 10 && "endpoint_resolution"@.len()
        == 19);
    assert("handshake"@[0] != "keepalive"@[0]);
}

proof fn lemma_push(phases: Seq<PhaseModel>, phase: PhaseModel)
    ensures
        data_passed(phases.push(phase)) == (data_passed(phases) || (is_data_check(phase)
            && phase.status == PhaseStatus::Passed)),
        handshake_passed(phases.push(phase)) == (handshake_passed(phases) || (phase.phase
            == "handshake"@ && phase.status == PhaseStatus::Passed)),
        forall|name: Seq<char>| #[trigger]
            phase_count(phases.push(phase), name) == phase_count(phases, name) + if phase.phase
                == name {
                1int
            } else {
                0
            },
{
    let all = phases.push(phase);
    assert(all.drop_last() =~= phases);
    assert(all[phases.len() as int] == phase);
    if data_passed(phases) {
        let i = choose|i: int|
            0 <= i < phases.len() && is_data_check(#[trigger] phases[i]) && phases[i].status
                == PhaseStatus::Passed;
        assert(all[i] == phases[i]);
    }
    if handshake_passed(phases) {
        let i = choose|i: int|
            0 <= i < phases.len() && (#[trigger] phases[i]).phase == "handshake"@
                && phases[i].status == PhaseStatus::Passed;
        assert(all[i] == phases[i]);
    }
    if data_passed(all) {
        let i = choose|i: int|
            0 <= i < all.len() && is_data_check(#[trigger] all[i]) && all[i].status
                == PhaseStatus::Passed;
        if i < phases.len() {
            assert(all[i] == phases[i]);
        }
    }
    if handshake_passed(all) {
        let i = choose|i: int|
            0 <= i < all.len() && (#[trigger] all[i]).phase == "handshake"@ && all[i].status
                == PhaseStatus::Passed;
        if i < phases.len() {
            assert(all[i] == phases[i]);
        }
    }
}

proof fn lemma_skipped_pings(run: RunModel, i: int, now: int)
    requires
        0 <= i <= run.plan.pings.len(),
    ensures
        ({
            let after = run.with_skipped_pings(i, now);
            &&& after.plan == run.plan
            &&& after.confirmed == run.confirmed
            &&& after.report.verdict == run.report.verdict
            &&& data_passed(after.report.phases) == data_passed(run.report.phases)
            &&& handshake_passed(after.report.phases) == handshake_passed(run.report.phases)
            &&& phase_count(after.report.phases, "ping"@) == phase_count(
                run.report.phases,
                "ping"@,
            ) + (run.plan.pings.len() - i)
            &&& phase_count(after.report.phases, "dns"@) == phase_count(
                run.report.phases,
                "dns"@,
            )
        }),
    decreases run.plan.pings.len() - i,
{
    lemma_names();
    if i < run.plan.pings.len() {
        let phase = skipped_phase("ping"@, run.plan.pings[i].text_spec());
        lemma_push(run.report.phases, phase);
        lemma_skipped_pings(run.with_phase(phase, now), i + 1, now);
    }
}

proof fn lemma_skipped_names(run: RunModel, i: int, now: int)
    requires
        0 <= i <= run.plan.resolves.len(),
    ensures
        ({
            let after = run.with_skipped_names(i, now);
            &&& after.plan == run.plan
            &&& after.confirmed == run.confirmed
            &&& after.report.verdict == run.report.verdict
            &&& data_passed(after.report.phases) == data_passed(run.report.phases)
            &&& handshake_passed(after.report.phases) == handshake_passed(run.report.phases)
            &&& phase_count(after.report.phases, "ping"@) == phase_count(
                run.report.phases,
                "ping"@,
            )
            &&& phase_count(after.report.phases, "dns"@) == phase_count(
                run.report.phases,
                "dns"@,
            ) + (run.plan.resolves.len() - i)
        }),
    decreases run.plan.resolves.len() - i,
{
    lemma_names();
    if i < run.plan.resolves.len() {
        let phase = skipped_phase("dns"@, run.plan.resolves[i]);
        lemma_push(run.report.phases, phase);
        lemma_skipped_names(run.with_phase(phase, now), i + 1, now);
    }
}

/// A probe starts with a verdict that its phases bear out, and with no data check counted.
pub proof fn verdict_holds_at_start(plan: PlanModel, refusal: Option<Seq<char>>, now: int)
    ensures
        verdict_holds(begin_spec(plan, refusal, now).0),
        checks_counted(begin_spec(plan, refusal, now).0),
{
    lemma_names();
    assert(!data_passed(Seq::empty()));
    assert(!handshake_passed(Seq::empty()));
    if let Some(detail) = refusal {
        lemma_push(Seq::empty(), error_phase("validation"@, None, 0, detail));
    }
}

/// Every step of a probe keeps the verdict true of the phases, and every planned data check is in
/// the report once.
pub proof fn verdict_follows_phases(
    run: RunModel,
    input: ProbeInputModel,
    now: int,
    draws: Draws,
)
    requires
        run.wf(),
        run.expects(input),
        verdict_holds(run),
        checks_counted(run),
        input matches ProbeInputModel::NotAuthenticated(failure) ==> failure.status
            != PhaseStatus::Passed,
    ensures
        verdict_holds(run.advance(input, now, draws).0),
        checks_counted(run.advance(input, now, draws).0),
{
    lemma_names();
    assert forall|phases: Seq<PhaseModel>, phase: PhaseModel|
        data_passed(#[trigger] phases.push(phase)) == (data_passed(phases) || (is_data_check(phase)
            && phase.status == PhaseStatus::Passed)) && handshake_passed(phases.push(phase)) == (
        handshake_passed(phases) || (phase.phase == "handshake"@ && phase.status
            == PhaseStatus::Passed)) && (forall|name: Seq<char>| #[trigger]
            phase_count(phases.push(phase), name) == phase_count(phases, name) + if phase.phase
                == name {
                1int
            } else {
                0
            }) by {
        lemma_push(phases, phase);
    }
    match input {
        ProbeInputModel::Resolved(result) => {},
        ProbeInputModel::Opened(result) => {},
        ProbeInputModel::Authenticated { sent, received, keepalive } => {},
        ProbeInputModel::NotAuthenticated(failure) => {
            lemma_not_authenticated(run, failure, now);
        },
        ProbeInputModel::Checked(outcome) => {},
    }
}

proof fn lemma_not_authenticated(run: RunModel, failure: FailureModel, now: int)
    requires
        run.stage == RunStage::Handshaking,
        verdict_holds(run),
        checks_counted(run),
        failure.status != PhaseStatus::Passed,
    ensures
        verdict_holds(run.not_authenticated(failure, now).0),
        checks_counted(run.not_authenticated(failure, now).0),
{
    lemma_names();
    let phase = PhaseModel {
        phase: "handshake"@,
        target: Some(run.endpoint_text()),
        status: failure.status,
        duration_ms: run.phase_ms(now),
        sent_bytes: failure.sent,
        received_bytes: failure.received,
        detail: Some(failure.detail),
    };
    let failed = run.with_phase(phase, now);
    lemma_push(run.report.phases, phase);
    lemma_skipped_pings(failed, 0, now);
    lemma_skipped_names(failed.with_skipped_pings(0, now), 0, now);
}

/// Without authentication every planned data check is reported as skipped, and nothing is sent for
/// it: the totals are those of the handshake.
pub proof fn checks_are_skipped_without_session(run: RunModel, failure: FailureModel, now: int)
    requires
        run.stage == RunStage::Handshaking,
    ensures
        ({
            let after = run.not_authenticated(failure, now).0;
            &&& after.stage == RunStage::Over
            &&& after.report.sent_bytes == run.report.sent_bytes + failure.sent
            &&& after.report.received_bytes == run.report.received_bytes + failure.received
            &&& after.report.phases.len() == run.report.phases.len() + 1 + run.plan.pings.len()
                + run.plan.resolves.len()
            &&& forall|i: int|
                run.report.phases.len() < i < after.report.phases.len() ==> (
                #[trigger] after.report.phases[i]).status == PhaseStatus::Skipped
        }),
{
    let phase = PhaseModel {
        phase: "handshake"@,
        target: Some(run.endpoint_text()),
        status: failure.status,
        duration_ms: run.phase_ms(now),
        sent_bytes: failure.sent,
        received_bytes: failure.received,
        detail: Some(failure.detail),
    };
    let failed = run.with_phase(phase, now);
    let middle = failed.with_skipped_pings(0, now);
    lemma_skip_phases(failed, 0, now);
    lemma_skip_name_phases(middle, 0, now);
    let after = middle.with_skipped_names(0, now);
    let result = run.not_authenticated(failure, now).0;
    assert(result.report.phases == after.report.phases);
    assert forall|i: int| run.report.phases.len() < i < result.report.phases.len() implies (
    #[trigger] result.report.phases[i]).status == PhaseStatus::Skipped by {
        if i < middle.report.phases.len() {
            assert(after.report.phases.take(middle.report.phases.len() as int)[i]
                == middle.report.phases[i]);
        }
    }
}

pub(crate) proof fn lemma_skip_phases(run: RunModel, i: int, now: int)
    requires
        0 <= i <= run.plan.pings.len(),
    ensures
        ({
            let after = run.with_skipped_pings(i, now);
            &&& after.plan == run.plan
            &&& after.report.sent_bytes == run.report.sent_bytes
            &&& after.report.received_bytes == run.report.received_bytes
            &&& after.report.phases.len() == run.report.phases.len() + run.plan.pings.len() - i
            &&& forall|k: int|
                run.report.phases.len() <= k < after.report.phases.len() ==> (
                #[trigger] after.report.phases[k]).status == PhaseStatus::Skipped
            &&& after.report.phases.take(run.report.phases.len() as int) =~= run.report.phases
        }),
    decreases run.plan.pings.len() - i,
{
    if i < run.plan.pings.len() {
        let next = run.with_phase(skipped_phase("ping"@, run.plan.pings[i].text_spec()), now);
        lemma_skip_phases(next, i + 1, now);
        let after = run.with_skipped_pings(i, now);
        assert(after.report.phases.take(next.report.phases.len() as int) =~= next.report.phases);
        assert(after.report.phases[run.report.phases.len() as int]
            == after.report.phases.take(next.report.phases.len() as int)[run.report.phases.len() as int]);
        assert(after.report.phases.take(run.report.phases.len() as int)
            =~= next.report.phases.take(run.report.phases.len() as int));
    }
}

pub(crate) proof fn lemma_skip_name_phases(run: RunModel, i: int, now: int)
    requires
        0 <= i <= run.plan.resolves.len(),
    ensures
        ({
            let after = run.with_skipped_names(i, now);
            &&& after.plan == run.plan
            &&& after.report.sent_bytes == run.report.sent_bytes
            &&& after.report.received_bytes == run.report.received_bytes
            &&& after.report.phases.len() == run.report.phases.len() + run.plan.resolves.len() - i
            &&& forall|k: int|
                run.report.phases.len() <= k < after.report.phases.len() ==> (
                #[trigger] after.report.phases[k]).status == PhaseStatus::Skipped
            &&& after.report.phases.take(run.report.phases.len() as int) =~= run.report.phases
        }),
    decreases run.plan.resolves.len() - i,
{
    if i < run.plan.resolves.len() {
        let next = run.with_phase(skipped_phase("dns"@, run.plan.resolves[i]), now);
        lemma_skip_name_phases(next, i + 1, now);
        let after = run.with_skipped_names(i, now);
        assert(after.report.phases.take(next.report.phases.len() as int) =~= next.report.phases);
        assert(after.report.phases[run.report.phases.len() as int]
            == after.report.phases.take(next.report.phases.len() as int)[run.report.phases.len() as int]);
        assert(after.report.phases.take(run.report.phases.len() as int)
            =~= next.report.phases.take(run.report.phases.len() as int));
    }
}

/// Where authentication fails, the verdict says why: an error makes it a local error, and silence
/// leaves the peer unconfirmed.
pub proof fn failed_handshake_decides_verdict(run: RunModel, failure: FailureModel, now: int)
    requires
        run.stage == RunStage::Handshaking,
        verdict_holds(run),
    ensures
        run.not_authenticated(failure, now).0.report.verdict == if failure.status
            == PhaseStatus::Error {
            Verdict::LocalError
        } else {
            Verdict::Unconfirmed
        },
{
}

/// The overall deadline caps every step: name resolution, the handshake and each data check end by
/// then.
pub proof fn overall_deadline_caps_steps(
    run: RunModel,
    input: ProbeInputModel,
    now: int,
    draws: Draws,
)
    ensures
        match run.advance(input, now, draws).1 {
            ProbeActionModel::Handshake { endpoint, deadline } => deadline
                <= run.plan.overall_timeout,
            ProbeActionModel::Check { packet, expectation, deadline } => deadline
                <= run.plan.overall_timeout,
            _ => true,
        },
        forall|refusal: Option<Seq<char>>|
            match (#[trigger] begin_spec(run.plan, refusal, now)).1 {
                ProbeActionModel::Resolve { name, timeout } => timeout == 0 || now + timeout
                    <= run.plan.overall_timeout,
                _ => true,
            },
{
}

proof fn lemma_pings_allowed(plan: PlanModel, i: int)
    requires
        0 <= i <= plan.pings.len(),
        plan.refused_ping(i) is None,
    ensures
        forall|k: int| i <= k < plan.pings.len() ==> allowed(
            plan.config.allowed_ips,
            #[trigger] plan.pings[k],
        ),
    decreases plan.pings.len() - i,
{
    if i < plan.pings.len() {
        lemma_pings_allowed(plan, i + 1);
    }
}

pub(crate) proof fn lemma_names_encoded(plan: PlanModel, i: int)
    requires
        0 <= i <= plan.resolves.len(),
        plan.refused_name(i) is None,
    ensures
        forall|k: int| i <= k < plan.resolves.len() ==> (encode_name_spec(
            #[trigger] plan.resolves[k],
        ).0 is None),
    decreases plan.resolves.len() - i,
{
    if i < plan.resolves.len() {
        lemma_names_encoded(plan, i + 1);
    }
}

/// A data check only asks where the peer may route: its packet goes to an address in the allowed
/// networks, and a reply is taken from this address alone.
pub proof fn data_checks_stay_in_allowed_networks(
    run: RunModel,
    input: ProbeInputModel,
    now: int,
    draws: Draws,
)
    requires
        run.wf(),
        run.expects(input),
    ensures
        run.advance(input, now, draws).1 matches ProbeActionModel::Check {
            packet,
            expectation,
            deadline,
        } ==> ({
            let peer = match expectation {
                ExpectationModel::Echo { source, destination, echo_id, sequence } => source,
                ExpectationModel::Dns { server, client, client_port, transaction_id, name } => server,
            };
            &&& allowed(run.plan.config.allowed_ips, peer)
            &&& parse_ipv4_spec(packet) matches Some((protocol, from, to, payload)) && to == peer
                && Some(from) == run.plan.source()
        }),
{
    if run.advance(input, now, draws).1 is Check {
        lemma_pings_allowed(run.plan, 0);
        lemma_names_encoded(run.plan, 0);
        let source = run.plan.source().unwrap();
        match run.advance(input, now, draws).1->Check_expectation {
            ExpectationModel::Echo { source: target, destination, echo_id, sequence } => {
                ipv4_packet_parses(
                    source,
                    target,
                    1,
                    draws.second_word(),
                    echo_request_spec(echo_id, sequence),
                );
            },
            ExpectationModel::Dns { server, client, client_port, transaction_id, name } => {
                dns_query_verifies(
                    source,
                    server,
                    client_port,
                    transaction_id,
                    draws.third_word(),
                    name,
                );
            },
        }
    }
}

/// The plan with other secrets.
pub open spec fn with_secrets(
    plan: PlanModel,
    private_key: Seq<u8>,
    preshared_key: Option<Seq<u8>>,
) -> PlanModel {
    PlanModel { config: ConfigModel { private_key, preshared_key, ..plan.config }, ..plan }
}

/// The course with other secrets.
spec fn run_with_secrets(
    run: RunModel,
    private_key: Seq<u8>,
    preshared_key: Option<Seq<u8>>,
) -> RunModel {
    RunModel { plan: with_secrets(run.plan, private_key, preshared_key), ..run }
}

/// A report starts without secrets: of the private key, only the public key that belongs to it
/// plays a part, and the preshared key plays none.
pub proof fn secrets_stay_out_of_first_report(
    plan: PlanModel,
    private_key: Seq<u8>,
    preshared_key: Option<Seq<u8>>,
    refusal: Option<Seq<char>>,
    now: int,
)
    requires
        x25519_public(private_key) == x25519_public(plan.config.private_key),
    ensures
        ({
            let (run, action) = begin_spec(plan, refusal, now);
            let (other, same) = begin_spec(
                with_secrets(plan, private_key, preshared_key),
                refusal,
                now,
            );
            &&& other.report == run.report
            &&& other.events == run.events
            &&& same == action
        }),
{
}

/// No step brings secrets into a report: the report, the notices and what is asked for are the same
/// for any private and preshared key.
pub proof fn secrets_stay_out_of_reports(
    run: RunModel,
    private_key: Seq<u8>,
    preshared_key: Option<Seq<u8>>,
    input: ProbeInputModel,
    now: int,
    draws: Draws,
)
    ensures
        ({
            let other = RunModel {
                plan: with_secrets(run.plan, private_key, preshared_key),
                ..run
            };
            &&& other.advance(input, now, draws).0.report == run.advance(input, now, draws).0.report
            &&& other.advance(input, now, draws).0.events == run.advance(input, now, draws).0.events
            &&& other.advance(input, now, draws).1 == run.advance(input, now, draws).1
        }),
{
    if let ProbeInputModel::NotAuthenticated(failure) = input {
        let failed = run.with_phase(
            PhaseModel {
                phase: "handshake"@,
                target: Some(run.endpoint_text()),
                status: failure.status,
                duration_ms: run.phase_ms(now),
                sent_bytes: failure.sent,
                received_bytes: failure.received,
                detail: Some(failure.detail),
            },
            now,
        );
        lemma_secret_free_pings(failed, private_key, preshared_key, 0, now);
        lemma_secret_free_names(
            failed.with_skipped_pings(0, now),
            private_key,
            preshared_key,
            0,
            now,
        );
    }
}

proof fn lemma_secret_free_pings(
    run: RunModel,
    private_key: Seq<u8>,
    preshared_key: Option<Seq<u8>>,
    i: int,
    now: int,
)
    ensures
        run_with_secrets(run, private_key, preshared_key).with_skipped_pings(i, now)
            == run_with_secrets(run.with_skipped_pings(i, now), private_key, preshared_key),
    decreases run.plan.pings.len() - i,
{
    if i < run.plan.pings.len() {
        let phase = skipped_phase("ping"@, run.plan.pings[i].text_spec());
        lemma_secret_free_pings(
            run.with_phase(phase, now),
            private_key,
            preshared_key,
            i + 1,
            now,
        );
    }
}

proof fn lemma_secret_free_names(
    run: RunModel,
    private_key: Seq<u8>,
    preshared_key: Option<Seq<u8>>,
    i: int,
    now: int,
)
    ensures
        run_with_secrets(run, private_key, preshared_key).with_skipped_names(i, now)
            == run_with_secrets(run.with_skipped_names(i, now), private_key, preshared_key),
    decreases run.plan.resolves.len() - i,
{
    if i < run.plan.resolves.len() {
        let phase = skipped_phase("dns"@, run.plan.resolves[i]);
        lemma_secret_free_names(
            run.with_phase(phase, now),
            private_key,
            preshared_key,
            i + 1,
            now,
        );
    }
}

} // verus!
