//! What the notices of a probe say as a whole.
use crate::probe::{
    begin_spec, skipped_phase, Draws, PlanModel, ProbeInputModel, RunModel, RunStage,
};
use crate::report::{
    finished_event, started_event, EventModel, PhaseModel, PhaseStatus, ProbeEventKind,
};
use crate::session::FailureModel;
use vstd::prelude::*;

verus! {

/// The results in the notices on phases that have ended, in order.
pub open spec fn finished_phases(events: Seq<EventModel>) -> Seq<PhaseModel>
    decreases events.len(),
{
    if events.len() == 0 {
        Seq::empty()
    } else {
        let before = finished_phases(events.drop_last());
        if events.last().kind == ProbeEventKind::Finished {
            before.push(events.last().result.unwrap())
        } else {
            before
        }
    }
}

/// Whether the notice is that the phase starts.
pub open spec fn announces(event: EventModel, phase: Seq<char>) -> bool {
    event.kind == ProbeEventKind::Started && event.phase == phase
}

/// Whether every notice on a phase that has ended comes with its result, and, unless the phase was
/// skipped, directly behind the notice that the phase starts.
pub open spec fn is_paired(events: Seq<EventModel>) -> bool {
    forall|i: int|
        0 <= i < events.len() && (#[trigger] events[i]).kind == ProbeEventKind::Finished ==> {
            &&& events[i].result is Some
            &&& events[i].result.unwrap().phase == events[i].phase
            &&& events[i].result.unwrap().status != PhaseStatus::Skipped ==> i > 0 && announces(
                events[i - 1],
                events[i].phase,
            )
        }
}

/// The phase that a stage belongs to.
pub open spec fn stage_phase(stage: RunStage) -> Seq<char> {
    match stage {
        RunStage::Resolving => "endpoint_resolution"@,
        RunStage::Opening => "socket"@,
        RunStage::Handshaking => "handshake"@,
        RunStage::Pinging => "ping"@,
        RunStage::Asking => "dns"@,
        RunStage::Over => Seq::empty(),
    }
}

/// Whether the notices of a probe tell its report: the phases that they say have ended are those of
/// the report, each after it was announced, and the phase in progress was announced last.
pub open spec fn tells_report(run: RunModel) -> bool {
    &&& finished_phases(run.events) == run.report.phases
    &&& is_paired(run.events)
    &&& run.stage != RunStage::Over ==> run.events.len() > 0 && announces(
        run.events.last(),
        stage_phase(run.stage),
    )
}

proof fn lemma_announced(events: Seq<EventModel>, event: EventModel)
    requires
        is_paired(events),
        event.kind == ProbeEventKind::Started,
    ensures
        finished_phases(events.push(event)) == finished_phases(events),
        is_paired(events.push(event)),
{
    let more = events.push(event);
    assert(more.drop_last() =~= events);
    assert forall|i: int|
        0 <= i < more.len() && (#[trigger] more[i]).kind == ProbeEventKind::Finished implies {
        &&& more[i].result is Some
        &&& more[i].result.unwrap().phase == more[i].phase
        &&& more[i].result.unwrap().status != PhaseStatus::Skipped ==> i > 0 && announces(
            more[i - 1],
            more[i].phase,
        )
    } by {
        assert(more[i] == events[i]);
        if i > 0 {
            assert(more[i - 1] == events[i - 1]);
        }
    }
}

proof fn lemma_ended(events: Seq<EventModel>, phase: PhaseModel, elapsed: int)
    requires
        is_paired(events),
        phase.status == PhaseStatus::Skipped || (events.len() > 0 && announces(
            events.last(),
            phase.phase,
        )),
    ensures
        finished_phases(events.push(finished_event(phase, elapsed))) == finished_phases(
            events,
        ).push(phase),
        is_paired(events.push(finished_event(phase, elapsed))),
{
    let more = events.push(finished_event(phase, elapsed));
    assert(more.drop_last() =~= events);
    assert forall|i: int|
        0 <= i < more.len() && (#[trigger] more[i]).kind == ProbeEventKind::Finished implies {
        &&& more[i].result is Some
        &&& more[i].result.unwrap().phase == more[i].phase
        &&& more[i].result.unwrap().status != PhaseStatus::Skipped ==> i > 0 && announces(
            more[i - 1],
            more[i].phase,
        )
    } by {
        if i < events.len() {
            assert(more[i] == events[i]);
        }
        if i > 0 {
            assert(more[i - 1] == events[i - 1]);
        }
    }
}

proof fn lemma_skipped_pings(run: RunModel, i: int, now: int)
    requires
        is_paired(run.events),
        finished_phases(run.events) == run.report.phases,
    ensures
        ({
            let after = run.with_skipped_pings(i, now);
            is_paired(after.events) && finished_phases(after.events) == after.report.phases
        }),
    decreases run.plan.pings.len() - i,
{
    if i < run.plan.pings.len() {
        let phase = skipped_phase("ping"@, run.plan.pings[i].text_spec());
        lemma_ended(run.events, phase, crate::time::millis_spec(now));
        lemma_skipped_pings(run.with_phase(phase, now), i + 1, now);
    }
}

proof fn lemma_skipped_names(run: RunModel, i: int, now: int)
    requires
        is_paired(run.events),
        finished_phases(run.events) == run.report.phases,
    ensures
        ({
            let after = run.with_skipped_names(i, now);
            is_paired(after.events) && finished_phases(after.events) == after.report.phases
        }),
    decreases run.plan.resolves.len() - i,
{
    if i < run.plan.resolves.len() {
        let phase = skipped_phase("dns"@, run.plan.resolves[i]);
        lemma_ended(run.events, phase, crate::time::millis_spec(now));
        lemma_skipped_names(run.with_phase(phase, now), i + 1, now);
    }
}

/// The notices tell the report from the start of a probe.
pub proof fn notices_tell_report_at_start(plan: PlanModel, refusal: Option<Seq<char>>, now: int)
    ensures
        tells_report(begin_spec(plan, refusal, now).0),
{
    lemma_notices();
    assert(is_paired(Seq::empty()));
    assert(finished_phases(Seq::empty()) =~= Seq::empty());
    if let Some(detail) = refusal {
        let event = started_event("validation"@, None, crate::time::millis_spec(now));
        assert(Seq::<EventModel>::empty().push(event).last() == event);
    }
}

/// The notices tell the report after every step: those on phases that have ended carry exactly the
/// phases of the report, in order, and each that was not skipped comes directly behind the notice
/// that it starts.
pub proof fn notices_tell_report(run: RunModel, input: ProbeInputModel, now: int, draws: Draws)
    requires
        run.expects(input),
        tells_report(run),
    ensures
        tells_report(run.advance(input, now, draws).0),
{
    lemma_notices();
    if let ProbeInputModel::NotAuthenticated(failure) = input {
        lemma_not_authenticated(run, failure, now);
    }
}

proof fn lemma_not_authenticated(run: RunModel, failure: FailureModel, now: int)
    requires
        run.stage == RunStage::Handshaking,
        tells_report(run),
    ensures
        tells_report(run.not_authenticated(failure, now).0),
{
    let phase = PhaseModel {
        phase: "handshake"@,
        target: Some(run.endpoint_text()),
        status: failure.status,
        duration_ms: run.phase_ms(now),
        sent_bytes: failure.sent,
        received_bytes: failure.received,
        detail: Some(failure.detail),
    };
    lemma_ended(run.events, phase, crate::time::millis_spec(now));
    let failed = run.with_phase(phase, now);
    lemma_skipped_pings(failed, 0, now);
    lemma_skipped_names(failed.with_skipped_pings(0, now), 0, now);
}

/// What one more notice does, whatever was told before.
proof fn lemma_notices()
    ensures
        forall|events: Seq<EventModel>, phase: Seq<char>, target: Option<Seq<char>>, elapsed: int|
            is_paired(events) ==> ({
                let more = #[trigger] events.push(started_event(phase, target, elapsed));
                &&& is_paired(more)
                &&& finished_phases(more) == finished_phases(events)
                &&& announces(more.last(), phase)
            }),
        forall|events: Seq<EventModel>, phase: PhaseModel, elapsed: int|
            is_paired(events) && events.len() > 0 && announces(events.last(), phase.phase) ==> ({
                let more = #[trigger] events.push(finished_event(phase, elapsed));
                &&& is_paired(more)
                &&& finished_phases(more) == finished_phases(events).push(phase)
            }),
{
    assert forall|events: Seq<EventModel>, phase: Seq<char>, target: Option<Seq<char>>, elapsed: int|
        is_paired(events) implies ({
        let more = #[trigger] events.push(started_event(phase, target, elapsed));
        &&& is_paired(more)
        &&& finished_phases(more) == finished_phases(events)
        &&& announces(more.last(), phase)
    }) by {
        lemma_announced(events, started_event(phase, target, elapsed));
    }
    assert forall|events: Seq<EventModel>, phase: PhaseModel, elapsed: int|
        is_paired(events) && events.len() > 0 && announces(events.last(), phase.phase) implies ({
        let more = #[trigger] events.push(finished_event(phase, elapsed));
        &&& is_paired(more)
        &&& finished_phases(more) == finished_phases(events).push(phase)
    }) by {
        lemma_ended(events, phase, elapsed);
    }
}

/// Notices are only added: what was told before, and whether it was taken already, changes nothing
/// in those that follow.
pub proof fn notices_are_only_added(
    run: RunModel,
    told: Seq<EventModel>,
    input: ProbeInputModel,
    now: int,
    draws: Draws,
)
    ensures
        ({
            let before = RunModel { events: told, ..run };
            let fresh = RunModel { events: Seq::empty(), ..run };
            before.advance(input, now, draws).0.events == told + fresh.advance(
                input,
                now,
                draws,
            ).0.events
        }),
{
    let before = RunModel { events: told, ..run };
    let fresh = RunModel { events: Seq::empty(), ..run };
    if let ProbeInputModel::NotAuthenticated(failure) = input {
        let phase = PhaseModel {
            phase: "handshake"@,
            target: Some(run.endpoint_text()),
            status: failure.status,
            duration_ms: run.phase_ms(now),
            sent_bytes: failure.sent,
            received_bytes: failure.received,
            detail: Some(failure.detail),
        };
        let x = before.with_phase(phase, now);
        let y = fresh.with_phase(phase, now);
        assert(x.events =~= told + y.events);
        lemma_prefixed_pings(x, y, told, 0, now);
        lemma_prefixed_names(
            x.with_skipped_pings(0, now),
            y.with_skipped_pings(0, now),
            told,
            0,
            now,
        );
    } else {
        assert(told + Seq::empty() =~= told);
        lemma_prefixed_step(before, fresh, told, input, now, draws);
    }
}

proof fn lemma_prefixed_push(told: Seq<EventModel>)
    ensures
        forall|events: Seq<EventModel>, event: EventModel|
            #[trigger] (told + events).push(event) == told + events.push(event),
{
    assert forall|events: Seq<EventModel>, event: EventModel|
        #[trigger] (told + events).push(event) == told + events.push(event) by {
        assert((told + events).push(event) =~= told + events.push(event));
    }
}

proof fn lemma_prefixed_step(
    x: RunModel,
    y: RunModel,
    told: Seq<EventModel>,
    input: ProbeInputModel,
    now: int,
    draws: Draws,
)
    requires
        x == (RunModel { events: told + y.events, ..y }),
        !(input is NotAuthenticated),
    ensures
        x.advance(input, now, draws).0.events == told + y.advance(input, now, draws).0.events,
{
    lemma_prefixed_push(told);
}

proof fn lemma_prefixed_pings(x: RunModel, y: RunModel, told: Seq<EventModel>, i: int, now: int)
    requires
        x == (RunModel { events: told + y.events, ..y }),
    ensures
        x.with_skipped_pings(i, now) == (RunModel {
            events: told + y.with_skipped_pings(i, now).events,
            ..y.with_skipped_pings(i, now)
        }),
    decreases x.plan.pings.len() - i,
{
    if i < x.plan.pings.len() {
        let phase = skipped_phase("ping"@, x.plan.pings[i].text_spec());
        assert(x.with_phase(phase, now).events =~= told + y.with_phase(phase, now).events);
        lemma_prefixed_pings(x.with_phase(phase, now), y.with_phase(phase, now), told, i + 1, now);
    }
}

proof fn lemma_prefixed_names(x: RunModel, y: RunModel, told: Seq<EventModel>, i: int, now: int)
    requires
        x == (RunModel { events: told + y.events, ..y }),
    ensures
        x.with_skipped_names(i, now) == (RunModel {
            events: told + y.with_skipped_names(i, now).events,
            ..y.with_skipped_names(i, now)
        }),
    decreases x.plan.resolves.len() - i,
{
    if i < x.plan.resolves.len() {
        let phase = skipped_phase("dns"@, x.plan.resolves[i]);
        assert(x.with_phase(phase, now).events =~= told + y.with_phase(phase, now).events);
        lemma_prefixed_names(x.with_phase(phase, now), y.with_phase(phase, now), told, i + 1, now);
    }
}

} // verus!
