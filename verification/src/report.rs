//! What a probe reports: phases, events and the verdict.
use crate::net::{SocketAddr, SocketModel};
use vstd::prelude::*;
use vstd::string::*;

verus! {

/// How a phase of a probe ended.
#[derive(Clone, Copy, Debug, PartialEq, Eq, Structural)]
pub enum PhaseStatus {
    Passed,
    Sent,
    Unconfirmed,
    Skipped,
    Error,
}

/// What a probe has shown.
#[derive(Clone, Copy, Debug, PartialEq, Eq, Structural)]
pub enum Verdict {
    AuthenticationConfirmed,
    DataPlaneConfirmed,
    Unconfirmed,
    LocalError,
}

/// The result of one phase.
#[derive(Debug, Clone, PartialEq, Eq)]
pub struct PhaseResult {
    pub phase: String,
    pub target: Option<String>,
    pub status: PhaseStatus,
    pub duration_ms: u64,
    pub sent_bytes: u64,
    pub received_bytes: u64,
    pub detail: Option<String>,
}

/// The result of a probe.
#[derive(Debug, Clone, PartialEq, Eq)]
pub struct ProbeReport {
    pub schema_version: u8,
    pub verdict: Verdict,
    pub endpoint: String,
    pub resolved_endpoint: Option<SocketAddr>,
    pub local_udp_address: Option<SocketAddr>,
    pub client_public_key: String,
    pub duration_ms: u64,
    pub sent_bytes: u64,
    pub received_bytes: u64,
    pub phases: Vec<PhaseResult>,
}

/// Whether a phase starts or has ended.
#[derive(Clone, Copy, Debug, PartialEq, Eq, Structural)]
pub enum ProbeEventKind {
    Started,
    Finished,
}

/// A notice on the progress of a probe.
#[derive(Debug, Clone, PartialEq, Eq)]
pub struct ProbeEvent {
    pub kind: ProbeEventKind,
    pub phase: String,
    pub target: Option<String>,
    pub elapsed_ms: u64,
    pub result: Option<PhaseResult>,
}

/// Why a plan is refused.
#[derive(Debug)]
pub enum ProbeError {
    InvalidPlan(String),
}

impl ProbeError {
    /// The message for the user.
    pub open spec fn message_spec(self) -> Seq<char> {
        match self {
            ProbeError::InvalidPlan(detail) => detail@,
        }
    }

    /// The message for the user.
    pub fn message(&self) -> (r: String)
        ensures
            r@ == self.message_spec(),
    {
        match self {
            ProbeError::InvalidPlan(detail) => detail.clone(),
        }
    }
}

/// The view of an optional text.
pub open spec fn option_text(text: Option<String>) -> Option<Seq<char>> {
    match text {
        Some(text) => Some(text@),
        None => None,
    }
}

/// The view of an optional endpoint.
pub open spec fn option_socket(address: Option<SocketAddr>) -> Option<SocketModel> {
    match address {
        Some(address) => Some(address@),
        None => None,
    }
}

/// The result of one phase, as a mathematical value.
#[verifier::ext_equal]
pub struct PhaseModel {
    pub phase: Seq<char>,
    pub target: Option<Seq<char>>,
    pub status: PhaseStatus,
    pub duration_ms: int,
    pub sent_bytes: int,
    pub received_bytes: int,
    pub detail: Option<Seq<char>>,
}

/// The result of a probe, as a mathematical value.
#[verifier::ext_equal]
pub struct ReportModel {
    pub schema_version: int,
    pub verdict: Verdict,
    pub endpoint: Seq<char>,
    pub resolved_endpoint: Option<SocketModel>,
    pub local_udp_address: Option<SocketModel>,
    pub client_public_key: Seq<char>,
    pub duration_ms: int,
    pub sent_bytes: int,
    pub received_bytes: int,
    pub phases: Seq<PhaseModel>,
}

/// A notice on the progress of a probe, as a mathematical value.
#[verifier::ext_equal]
pub struct EventModel {
    pub kind: ProbeEventKind,
    pub phase: Seq<char>,
    pub target: Option<Seq<char>>,
    pub elapsed_ms: int,
    pub result: Option<PhaseModel>,
}

impl View for PhaseResult {
    type V = PhaseModel;

    open spec fn view(&self) -> PhaseModel {
        PhaseModel {
            phase: self.phase@,
            target: option_text(self.target),
            status: self.status,
            duration_ms: self.duration_ms as int,
            sent_bytes: self.sent_bytes as int,
            received_bytes: self.received_bytes as int,
            detail: option_text(self.detail),
        }
    }
}

/// The phases as mathematical values.
pub open spec fn phase_models(list: Seq<PhaseResult>) -> Seq<PhaseModel> {
    Seq::new(list.len(), |i: int| list[i]@)
}

impl View for ProbeReport {
    type V = ReportModel;

    open spec fn view(&self) -> ReportModel {
        ReportModel {
            schema_version: self.schema_version as int,
            verdict: self.verdict,
            endpoint: self.endpoint@,
            resolved_endpoint: option_socket(self.resolved_endpoint),
            local_udp_address: option_socket(self.local_udp_address),
            client_public_key: self.client_public_key@,
            duration_ms: self.duration_ms as int,
            sent_bytes: self.sent_bytes as int,
            received_bytes: self.received_bytes as int,
            phases: phase_models(self.phases@),
        }
    }
}

impl View for ProbeEvent {
    type V = EventModel;

    open spec fn view(&self) -> EventModel {
        EventModel {
            kind: self.kind,
            phase: self.phase@,
            target: option_text(self.target),
            elapsed_ms: self.elapsed_ms as int,
            result: match self.result {
                Some(phase) => Some(phase@),
                None => None,
            },
        }
    }
}

/// The events as mathematical values.
pub open spec fn event_models(list: Seq<ProbeEvent>) -> Seq<EventModel> {
    Seq::new(list.len(), |i: int| list[i]@)
}

/// A copy of an optional text.
pub fn copy_text(text: &Option<String>) -> (r: Option<String>)
    ensures
        option_text(r) == option_text(*text),
{
    match text {
        Some(text) => Some(text.clone()),
        None => None,
    }
}

impl PhaseResult {
    /// A copy of the result.
    pub fn copy(&self) -> (r: PhaseResult)
        ensures
            r@ == self@,
    {
        PhaseResult {
            phase: self.phase.clone(),
            target: copy_text(&self.target),
            status: self.status,
            duration_ms: self.duration_ms,
            sent_bytes: self.sent_bytes,
            received_bytes: self.received_bytes,
            detail: copy_text(&self.detail),
        }
    }
}

/// The bytes sent in all phases.
pub open spec fn total_sent(phases: Seq<PhaseModel>) -> int
    decreases phases.len(),
{
    if phases.len() == 0 {
        0
    } else {
        total_sent(phases.drop_last()) + phases.last().sent_bytes
    }
}

/// The bytes received in all phases.
pub open spec fn total_received(phases: Seq<PhaseModel>) -> int
    decreases phases.len(),
{
    if phases.len() == 0 {
        0
    } else {
        total_received(phases.drop_last()) + phases.last().received_bytes
    }
}

impl ReportModel {
    /// The totals of a report are the sums over its phases.
    pub open spec fn totals_hold(self) -> bool {
        self.sent_bytes == total_sent(self.phases) && self.received_bytes == total_received(
            self.phases,
        )
    }

    /// The report with one more phase.
    pub open spec fn with_phase(self, phase: PhaseModel) -> ReportModel {
        ReportModel {
            sent_bytes: self.sent_bytes + phase.sent_bytes,
            received_bytes: self.received_bytes + phase.received_bytes,
            phases: self.phases.push(phase),
            ..self
        }
    }
}

/// Adding a phase keeps the totals.
pub proof fn with_phase_keeps_totals(report: ReportModel, phase: PhaseModel)
    requires
        report.totals_hold(),
    ensures
        report.with_phase(phase).totals_hold(),
{
    assert(report.phases.push(phase).drop_last() =~= report.phases);
}

/// The notice that a phase starts.
pub open spec fn started_event(phase: Seq<char>, target: Option<Seq<char>>, elapsed: int) -> EventModel {
    EventModel {
        kind: ProbeEventKind::Started,
        phase,
        target,
        elapsed_ms: elapsed,
        result: None,
    }
}

/// The notice that a phase has ended.
pub open spec fn finished_event(phase: PhaseModel, elapsed: int) -> EventModel {
    EventModel {
        kind: ProbeEventKind::Finished,
        phase: phase.phase,
        target: phase.target,
        elapsed_ms: elapsed,
        result: Some(phase),
    }
}

/// Adds the notice that a phase starts.
pub fn emit_start(events: &mut Vec<ProbeEvent>, elapsed_ms: u64, phase: &str, target: Option<&str>)
    ensures
        event_models(final(events)@) == event_models(old(events)@).push(
            started_event(
                phase@,
                match target {
                    Some(target) => Some(target@),
                    None => None,
                },
                elapsed_ms as int,
            ),
        ),
{
    events.push(
        ProbeEvent {
            kind: ProbeEventKind::Started,
            phase: phase.to_string(),
            target: match target {
                Some(target) => Some(target.to_string()),
                None => None,
            },
            elapsed_ms,
            result: None,
        },
    );
    assert(event_models(events@) =~= event_models(old(events)@).push(event_models(events@).last()));
}

/// Adds a phase to the report, and the notice that it has ended.
pub fn push_phase(
    report: &mut ProbeReport,
    events: &mut Vec<ProbeEvent>,
    elapsed_ms: u64,
    phase: PhaseResult,
)
    requires
        old(report).sent_bytes + phase.sent_bytes <= u64::MAX,
        old(report).received_bytes + phase.received_bytes <= u64::MAX,
    ensures
        final(report)@ == old(report)@.with_phase(phase@),
        event_models(final(events)@) == event_models(old(events)@).push(
            finished_event(phase@, elapsed_ms as int),
        ),
{
    report.sent_bytes = report.sent_bytes + phase.sent_bytes;
    report.received_bytes = report.received_bytes + phase.received_bytes;
    events.push(
        ProbeEvent {
            kind: ProbeEventKind::Finished,
            phase: phase.phase.clone(),
            target: copy_text(&phase.target),
            elapsed_ms,
            result: Some(phase.copy()),
        },
    );
    assert(event_models(events@) =~= event_models(old(events)@).push(event_models(events@).last()));
    report.phases.push(phase);
    assert(report@.phases =~= old(report)@.phases.push(phase@));
}

} // verus!
