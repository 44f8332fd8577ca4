//! A run of probes over many servers: what each attempt does, and when the run is over.
use crate::config::{cidr_parts, ip_models, ConfigModel, Ipv4Cidr};
use crate::console::{build_plan, ProbeArguments};
use crate::identity::RunIdentity;
use crate::inventory::{target_models, NordTarget, TargetModel};
use crate::keys::key_spec;
use crate::net::{IpAddr, IpModel, Ipv4Addr, SocketAddr};
use crate::probe::{PlanModel, ProbePlan};
use crate::report::{
    phase_models, PhaseModel, PhaseResult, PhaseStatus, ProbeEvent, ProbeEventKind, ProbeReport,
    ReportModel, Verdict,
};
use crate::scheduler::{
    is_probing_order, lemma_first_ready, lemma_shortest_wait, Scheduler, SchedulerModel,
    MAX_CONCURRENCY,
};
use crate::text::{same_text, string_views, trim_spec};
use crate::time::{millis, millis_spec, Duration};
use vstd::prelude::*;
use vstd::string::*;

verus! {

/// The data checks of a full probe.
#[derive(Debug, Clone, PartialEq, Eq)]
pub struct FullCheckPlan {
    pub ping_targets: Vec<Ipv4Addr>,
    pub resolve_names: Vec<String>,
    pub dns_server: Ipv4Addr,
}

impl Default for FullCheckPlan {
    fn default() -> (r: Self)
        ensures
            r.ping_targets@ == seq![(Ipv4Addr { a: 1, b: 1, c: 1, d: 1 })],
            string_views(r.resolve_names@) == seq!["example.com"@],
            r.dns_server == (Ipv4Addr { a: 103, b: 86, c: 96, d: 100 }),
    {
        let mut ping_targets: Vec<Ipv4Addr> = Vec::new();
        ping_targets.push(Ipv4Addr::new(1, 1, 1, 1));
        let mut resolve_names: Vec<String> = Vec::new();
        resolve_names.push("example.com".to_string());
        assert(ping_targets@ =~= seq![(Ipv4Addr { a: 1, b: 1, c: 1, d: 1 })]);
        assert(string_views(resolve_names@) =~= seq!["example.com"@]);
        FullCheckPlan { ping_targets, resolve_names, dns_server: Ipv4Addr::new(103, 86, 96, 100) }
    }
}

impl FullCheckPlan {
    /// A copy of the plan.
    pub fn copy(&self) -> (r: FullCheckPlan)
        ensures
            r.ping_targets@ == self.ping_targets@,
            string_views(r.resolve_names@) == string_views(self.resolve_names@),
            r.dns_server == self.dns_server,
    {
        FullCheckPlan {
            ping_targets: copy_addresses(&self.ping_targets),
            resolve_names: copy_names(&self.resolve_names),
            dns_server: self.dns_server,
        }
    }
}

pub(crate) fn copy_addresses(list: &Vec<Ipv4Addr>) -> (r: Vec<Ipv4Addr>)
    ensures
        r@ == list@,
{
    let mut r: Vec<Ipv4Addr> = Vec::new();
    let mut i: usize = 0;
    assert(r@ =~= list@.take(0));
    while i < list.len()
        invariant
            i <= list@.len(),
            r@ == list@.take(i as int),
        decreases list@.len() - i,
    {
        r.push(list[i]);
        assert(list@.take(i + 1) =~= list@.take(i as int).push(list@[i as int]));
        i = i + 1;
    }
    assert(list@.take(i as int) =~= list@);
    r
}

pub(crate) fn copy_names(list: &Vec<String>) -> (r: Vec<String>)
    ensures
        string_views(r@) == string_views(list@),
{
    let ghost all = string_views(list@);
    let mut r: Vec<String> = Vec::new();
    let mut i: usize = 0;
    assert(string_views(r@) =~= all.take(0));
    while i < list.len()
        invariant
            i <= list@.len(),
            all == string_views(list@),
            string_views(r@) == all.take(i as int),
        decreases list@.len() - i,
    {
        let ghost before = string_views(r@);
        r.push(list[i].clone());
        assert(string_views(r@) =~= before.push(all[i as int]));
        assert(all.take(i + 1) =~= all.take(i as int).push(all[i as int]));
        i = i + 1;
    }
    assert(all.take(i as int) =~= all);
    r
}

/// How far a probe goes.
#[derive(Debug, Clone, PartialEq, Eq)]
pub enum CheckMode {
    HandshakeOnly,
    Full(FullCheckPlan),
}

impl CheckMode {
    /// A copy of the mode.
    pub fn copy(&self) -> (r: CheckMode)
        ensures
            match (self, r) {
                (CheckMode::HandshakeOnly, CheckMode::HandshakeOnly) => true,
                (CheckMode::Full(a), CheckMode::Full(b)) => a.ping_targets@ == b.ping_targets@
                    && string_views(a.resolve_names@) == string_views(b.resolve_names@)
                    && a.dns_server == b.dns_server,
                _ => false,
            },
    {
        match self {
            CheckMode::HandshakeOnly => CheckMode::HandshakeOnly,
            CheckMode::Full(plan) => CheckMode::Full(plan.copy()),
        }
    }
}

/// What a run is to do.
#[derive(Debug, Clone)]
pub struct ProbeOptions {
    pub desired_confirmed: usize,
    pub max_candidates: usize,
    pub mode: CheckMode,
}

/// How an attempt ended.
#[derive(Debug, Clone, PartialEq, Eq)]
pub enum AttemptOutcome {
    Confirmed,
    Unconfirmed,
    Error(String),
}

/// How an attempt ended, as a mathematical value.
#[verifier::ext_equal]
pub enum AttemptModel {
    Confirmed,
    Unconfirmed,
    Error(Seq<char>),
}

impl View for AttemptOutcome {
    type V = AttemptModel;

    open spec fn view(&self) -> AttemptModel {
        match self {
            AttemptOutcome::Confirmed => AttemptModel::Confirmed,
            AttemptOutcome::Unconfirmed => AttemptModel::Unconfirmed,
            AttemptOutcome::Error(detail) => AttemptModel::Error(detail@),
        }
    }
}

/// An attempt that has ended.
#[derive(Debug)]
pub struct Attempt {
    pub id: u64,
    pub target: NordTarget,
    pub report: Option<ProbeReport>,
    pub outcome: AttemptOutcome,
    pub client_public_key: String,
}

/// What a run tells.
#[derive(Debug)]
pub enum WorkerMessage {
    Started { id: u64, target: NordTarget },
    Phase { id: u64, event: ProbeEvent },
    Finished(Attempt),
    Pacing(Duration),
    Fatal(String),
    Complete { cancelled: bool },
}

/// The position of the first phase from `i` on that failed, or their number.
pub open spec fn first_error(phases: Seq<PhaseModel>, i: int) -> int
    decreases phases.len() - i,
{
    if i >= phases.len() || phases[i].status == PhaseStatus::Error {
        i
    } else {
        first_error(phases, i + 1)
    }
}

/// The details of the first phase that failed.
pub open spec fn local_error_detail_spec(phases: Seq<PhaseModel>) -> Seq<char> {
    let i = first_error(phases, 0);
    if i < phases.len() && phases[i].detail is Some {
        phases[i].detail.unwrap()
    } else {
        "local probe error without phase detail"@
    }
}

/// The details of the first phase that failed.
pub fn local_error_detail(phases: &[PhaseResult]) -> (r: String)
    ensures
        r@ == local_error_detail_spec(phase_models(phases@)),
{
    let ghost models = phase_models(phases@);
    let mut i: usize = 0;
    while i < phases.len()
        invariant
            i <= phases@.len(),
            models == phase_models(phases@),
            first_error(models, 0) == first_error(models, i as int),
        decreases phases@.len() - i,
    {
        assert(models[i as int] == phases@[i as int]@);
        if phases[i].status == PhaseStatus::Error {
            return match &phases[i].detail {
                Some(detail) => detail.clone(),
                None => "local probe error without phase detail".to_string(),
            };
        }
        i = i + 1;
    }
    "local probe error without phase detail".to_string()
}

/// What a report says of an attempt.
pub open spec fn outcome_spec(report: ReportModel) -> AttemptModel {
    match report.verdict {
        Verdict::AuthenticationConfirmed => AttemptModel::Confirmed,
        Verdict::DataPlaneConfirmed => AttemptModel::Confirmed,
        Verdict::Unconfirmed => AttemptModel::Unconfirmed,
        Verdict::LocalError => AttemptModel::Error(local_error_detail_spec(report.phases)),
    }
}

/// What a report says of an attempt.
pub fn attempt_outcome(report: &ProbeReport) -> (r: AttemptOutcome)
    ensures
        r@ == outcome_spec(report@),
{
    match report.verdict {
        Verdict::AuthenticationConfirmed => AttemptOutcome::Confirmed,
        Verdict::DataPlaneConfirmed => AttemptOutcome::Confirmed,
        Verdict::Unconfirmed => AttemptOutcome::Unconfirmed,
        Verdict::LocalError => AttemptOutcome::Error(local_error_detail(&report.phases)),
    }
}

/// The attempt that a report completes.
pub fn finish_attempt(id: u64, target: NordTarget, report: ProbeReport) -> (r: Attempt)
    ensures
        r.id == id,
        r.target == target,
        r.report == Some(report),
        r.outcome@ == outcome_spec(report@),
        r.client_public_key@ == report.client_public_key@,
{
    let outcome = attempt_outcome(&report);
    let client_public_key = report.client_public_key.clone();
    Attempt { id, target, report: Some(report), outcome, client_public_key }
}

/// An attempt that ended without a report.
pub fn failed_attempt(id: u64, target: NordTarget, error: &str, client_public_key: &str) -> (r:
    Attempt)
    ensures
        r.id == id,
        r.target == target,
        r.report is None,
        r.outcome@ == AttemptModel::Error(error@),
        r.client_public_key@ == client_public_key@,
{
    Attempt {
        id,
        target,
        report: None,
        outcome: AttemptOutcome::Error(error.to_string()),
        client_public_key: client_public_key.to_string(),
    }
}

/// An attempt whose worker went away without an answer.
pub fn disconnected_attempt(id: u64, target: NordTarget, client_public_key: &str) -> (r: Attempt)
    ensures
        r.id == id,
        r.target == target,
        r.report is None,
        r.outcome@ == AttemptModel::Error("probe attempt worker disconnected unexpectedly"@),
        r.client_public_key@ == client_public_key@,
{
    failed_attempt(id, target, "probe attempt worker disconnected unexpectedly", client_public_key)
}

/// An attempt whose worker panicked.
pub fn panicked_attempt(id: u64, target: NordTarget, client_public_key: &str) -> (r: Attempt)
    ensures
        r.id == id,
        r.target == target,
        r.report is None,
        r.outcome@ == AttemptModel::Error("probe attempt stopped after an internal panic"@),
        r.client_public_key@ == client_public_key@,
{
    failed_attempt(id, target, "probe attempt stopped after an internal panic", client_public_key)
}

/// The data checks of a mode as pings, names and a server.
pub open spec fn checks_of(mode: CheckMode) -> Option<(Seq<Ipv4Addr>, Seq<Seq<char>>, Ipv4Addr)> {
    match mode {
        CheckMode::HandshakeOnly => None,
        CheckMode::Full(plan) => Some(
            (plan.ping_targets@, string_views(plan.resolve_names@), plan.dns_server),
        ),
    }
}

/// The plan of an attempt. Data checks go from the address that clients have in these networks,
/// and everything is allowed.
pub open spec fn attempt_plan_spec(
    private_key: Seq<u8>,
    peer: Seq<u8>,
    endpoint: Seq<char>,
    mode: CheckMode,
) -> PlanModel {
    let checks = checks_of(mode);
    PlanModel {
        config: ConfigModel {
            private_key,
            peer_public_key: peer,
            preshared_key: None,
            endpoint,
            address: match checks {
                Some(_) => Some((Ipv4Addr { a: 10, b: 5, c: 0, d: 2 }, 32)),
                None => None,
            },
            dns_servers: match checks {
                Some((pings, names, server)) => seq![IpModel::V4(server)],
                None => Seq::empty(),
            },
            allowed_ips: match checks {
                Some(_) => seq![(Ipv4Addr { a: 0, b: 0, c: 0, d: 0 }, 0int)],
                None => Seq::empty(),
            },
        },
        pings: match checks {
            Some((pings, names, server)) => pings,
            None => Seq::empty(),
        },
        resolves: match checks {
            Some((pings, names, server)) => names,
            None => Seq::empty(),
        },
        dns_server: None,
        handshake_timeout: 3_000_000_000,
        ping_timeout: 1_000_000_000,
        dns_timeout: 2_000_000_000,
        overall_timeout: 9_000_000_000,
    }
}

/// The plan of an attempt on a server, or why there is none.
pub fn attempt_plan(identity: &RunIdentity, target: &NordTarget, mode: &CheckMode) -> (r: Result<
    ProbePlan,
    String,
>)
    requires
        identity.wf(),
    ensures
        match r {
            Ok(plan) => key_spec(trim_spec(target.public_key@)) matches Some(peer) && plan@
                == attempt_plan_spec(
                key_spec(identity.private_key_spec()).unwrap(),
                peer,
                SocketAddr::text_spec(target.endpoint@),
                *mode,
            ),
            Err(message) => key_spec(trim_spec(target.public_key@)) is None && message@
                == "invalid probe configuration: "@
                + crate::config::ConfigErrorModel::InvalidKey("PublicKey"@).message(),
        },
{
    let endpoint = target.endpoint.text();
    let mut config = match identity.probe_config(target.public_key.as_str(), endpoint.as_str()) {
        Ok(config) => config,
        Err(error) => {
            let mut message = "invalid probe configuration: ".to_string();
            message.append(error.message().as_str());
            return Err(message);
        },
    };
    let arguments = match mode {
        CheckMode::HandshakeOnly => ProbeArguments {
            pings: Vec::new(),
            resolves: Vec::new(),
            dns_server: None,
            handshake_timeout: Duration::from_secs(3),
            ping_timeout: Duration::from_secs(1),
            dns_timeout: Duration::from_secs(2),
            deadline: Duration::from_secs(9),
        },
        CheckMode::Full(checks) => {
            let mut servers: Vec<IpAddr> = Vec::new();
            servers.push(IpAddr::V4(checks.dns_server));
            assert(ip_models(servers@) =~= seq![IpModel::V4(checks.dns_server)]);
            let mut networks: Vec<Ipv4Cidr> = Vec::new();
            networks.push(Ipv4Cidr::new(Ipv4Addr::new(0, 0, 0, 0), 0));
            assert(cidr_parts(networks@) =~= seq![(Ipv4Addr { a: 0, b: 0, c: 0, d: 0 }, 0int)]);
            config.set_data_config(
                Ipv4Cidr::new(Ipv4Addr::new(10, 5, 0, 2), 32),
                servers,
                networks,
            );
            ProbeArguments {
                pings: copy_addresses(&checks.ping_targets),
                resolves: copy_names(&checks.resolve_names),
                dns_server: None,
                handshake_timeout: Duration::from_secs(3),
                ping_timeout: Duration::from_secs(1),
                dns_timeout: Duration::from_secs(2),
                deadline: Duration::from_secs(9),
            }
        },
    };
    assert(mode is HandshakeOnly ==> string_views(arguments.resolves@) =~= Seq::empty());
    assert(mode is HandshakeOnly ==> arguments.pings@ =~= Seq::empty());
    Ok(build_plan(config, &arguments))
}

/// The time since the start of a run in milliseconds.
pub fn elapsed_ms(elapsed: Duration) -> (r: u64)
    ensures
        r == millis_spec(elapsed.nanos()),
{
    millis(elapsed)
}

/// A run in progress: which servers wait, how many were confirmed, and the next attempt's number.
#[derive(Debug)]
pub struct Coordinator {
    scheduler: Scheduler,
    desired: usize,
    confirmed: usize,
    next_id: u64,
}

/// A run in progress, as a mathematical value.
#[verifier::ext_equal]
pub struct RunState {
    pub scheduler: SchedulerModel,
    pub desired: int,
    pub confirmed: int,
    pub next_id: int,
}

/// What a run does next.
#[derive(Debug)]
pub enum RunStep {
    /// Start an attempt.
    Start { id: u64, target: NordTarget },
    /// Wait for so long; tell of it where a server has to rest for so long first.
    Wait { pacing: Option<Duration>, sleep: Duration },
    /// Nothing any more.
    Done,
}

impl View for Coordinator {
    type V = RunState;

    closed spec fn view(&self) -> RunState {
        RunState {
            scheduler: self.scheduler@,
            desired: self.desired as int,
            confirmed: self.confirmed as int,
            next_id: self.next_id as int,
        }
    }
}

impl RunState {
    /// Whether no more attempts are to be started.
    pub open spec fn stopping(self, cancelled: bool) -> bool {
        cancelled || self.confirmed >= self.desired
    }

    /// Whether an attempt can start now.
    pub open spec fn can_start(self, cancelled: bool, now: u64) -> bool {
        !self.stopping(cancelled) && self.scheduler.active.len() < MAX_CONCURRENCY
            && self.scheduler.first_ready(0, now) < self.scheduler.pending.len()
    }

    /// Whether the run is over: nothing runs, and nothing is to be started.
    pub open spec fn is_over(self, cancelled: bool) -> bool {
        self.scheduler.active.len() == 0 && (self.stopping(cancelled)
            || self.scheduler.pending.len() == 0)
    }

    /// The milliseconds until a server has rested, where one has to.
    pub open spec fn ready_in(self, cancelled: bool, now: u64) -> int {
        if self.stopping(cancelled) {
            0
        } else {
            match self.scheduler.shortest_wait(self.scheduler.pending.len() as int, now) {
                Some(wait) => wait,
                None => 0,
            }
        }
    }

    /// The milliseconds to sleep: until the next server is ready, and never long.
    pub open spec fn sleep_ms(self, cancelled: bool, now: u64) -> int {
        let ready = self.ready_in(cancelled, now);
        if ready == 0 {
            20
        } else if ready < 200 {
            ready
        } else {
            200
        }
    }
}

impl Coordinator {
    pub closed spec fn wf(self) -> bool {
        self.scheduler.wf()
    }

    /// A run over the first candidates in probing order.
    pub fn new(targets: Vec<NordTarget>, options: &ProbeOptions) -> (r: Coordinator)
        ensures
            r.wf(),
            exists|ordered: Seq<TargetModel>| #[trigger]
                is_probing_order(target_models(targets@), ordered) && r@ == (RunState {
                    scheduler: SchedulerModel {
                        pending: ordered.take(
                            if options.max_candidates < ordered.len() {
                                options.max_candidates as int
                            } else {
                                ordered.len() as int
                            },
                        ),
                        active: Set::empty(),
                        last: Map::empty(),
                    },
                    desired: options.desired_confirmed as int,
                    confirmed: 0,
                    next_id: 1,
                }),
    {
        Coordinator {
            scheduler: Scheduler::new(targets, options.max_candidates),
            desired: options.desired_confirmed,
            confirmed: 0,
            next_id: 1,
        }
    }

    /// Takes a notice of an attempt with the given key. The start of a handshake counts as the use
    /// of the key.
    pub fn on_phase(&mut self, public_key: &str, event: &ProbeEvent, at_ms: u64)
        requires
            old(self).wf(),
        ensures
            final(self).wf(),
            final(self)@ == (if event.kind == ProbeEventKind::Started && event.phase@
                == "handshake"@ {
                RunState {
                    scheduler: SchedulerModel {
                        last: old(self)@.scheduler.last.insert(public_key@, at_ms),
                        ..old(self)@.scheduler
                    },
                    ..old(self)@
                }
            } else {
                old(self)@
            }),
    {
        if event.kind == ProbeEventKind::Started && same_text(event.phase.as_str(), "handshake") {
            self.scheduler.acknowledge_handshake_start(public_key, at_ms);
        }
    }

    /// Takes the end of an attempt.
    pub fn on_finished(&mut self, attempt: &Attempt)
        requires
            old(self).wf(),
            old(self)@.confirmed < usize::MAX,
        ensures
            final(self).wf(),
            final(self)@ == (RunState {
                scheduler: SchedulerModel {
                    active: old(self)@.scheduler.active.remove(attempt.target.public_key@),
                    ..old(self)@.scheduler
                },
                confirmed: if attempt.outcome@ is Confirmed {
                    old(self)@.confirmed + 1
                } else {
                    old(self)@.confirmed
                },
                ..old(self)@
            }),
    {
        self.scheduler.finish(attempt.target.public_key.as_str());
        if let AttemptOutcome::Confirmed = attempt.outcome {
            self.confirmed = self.confirmed + 1;
        }
    }

    /// Gives up a server that was to be started when the run was cancelled.
    pub fn abandon(&mut self, public_key: &str)
        requires
            old(self).wf(),
        ensures
            final(self).wf(),
            final(self)@ == (RunState {
                scheduler: SchedulerModel {
                    active: old(self)@.scheduler.active.remove(public_key@),
                    ..old(self)@.scheduler
                },
                ..old(self)@
            }),
    {
        self.scheduler.finish(public_key);
    }

    /// How many attempts were confirmed.
    pub fn confirmed(&self) -> (r: usize)
        ensures
            r == self@.confirmed,
    {
        self.confirmed
    }

    /// What the run does next, so many milliseconds after its start. All notices of attempts are
    /// to be taken before.
    pub fn next(&mut self, cancelled: bool, now_ms: u64) -> (r: RunStep)
        requires
            old(self).wf(),
            old(self)@.next_id < u64::MAX,
        ensures
            final(self).wf(),
            match r {
                RunStep::Start { id, target } => {
                    let i = old(self)@.scheduler.first_ready(0, now_ms);
                    &&& old(self)@.can_start(cancelled, now_ms)
                    &&& id == old(self)@.next_id
                    &&& target@ == old(self)@.scheduler.pending[i]
                    &&& final(self)@ == (RunState {
                        scheduler: SchedulerModel {
                            pending: old(self)@.scheduler.pending.remove(i),
                            active: old(self)@.scheduler.active.insert(target@.public_key),
                            ..old(self)@.scheduler
                        },
                        next_id: old(self)@.next_id + 1,
                        ..old(self)@
                    })
                },
                RunStep::Wait { pacing, sleep } => {
                    &&& !old(self)@.can_start(cancelled, now_ms)
                    &&& !old(self)@.is_over(cancelled)
                    &&& final(self)@ == old(self)@
                    &&& sleep.nanos() == old(self)@.sleep_ms(cancelled, now_ms) * 1_000_000
                    &&& match pacing {
                        Some(wait) => wait.nanos() == old(self)@.ready_in(cancelled, now_ms)
                            * 1_000_000 && wait.nanos() != 0,
                        None => old(self)@.ready_in(cancelled, now_ms) == 0,
                    }
                },
                RunStep::Done => !old(self)@.can_start(cancelled, now_ms) && old(self)@.is_over(
                    cancelled,
                ) && final(self)@ == old(self)@,
            },
            r is Start ==> !cancelled && old(self)@.confirmed < old(self)@.desired
                && old(self)@.scheduler.active.len() < 4,
            !cancelled && old(self)@.confirmed < old(self)@.desired
                && old(self)@.scheduler.active.len() < 4 && (exists|k: int|
                0 <= k < old(self)@.scheduler.pending.len() && may_use(
                    old(self)@.scheduler,
                    (#[trigger] old(self)@.scheduler.pending[k]).public_key,
                    now_ms,
                )) ==> r is Start,
            r is Done <==> old(self)@.scheduler.active.len() == 0 && (cancelled || old(
                self,
            )@.confirmed >= old(self)@.desired || old(self)@.scheduler.pending.len() == 0),
    {
        proof {
            let state = old(self)@;
            assert forall|k: int|
                0 <= k < state.scheduler.pending.len() && may_use(
                    state.scheduler,
                    (#[trigger] state.scheduler.pending[k]).public_key,
                    now_ms,
                ) && state.confirmed < state.desired && state.scheduler.active.len()
                    < 4 implies state.can_start(false, now_ms) by {
                run_goes_on_below_goal(state, now_ms, k);
            }
            if state.can_start(cancelled, now_ms) {
                run_starts_only_below_goal(state, cancelled, now_ms);
            }
        }
        let stopping: bool = cancelled || self.confirmed >= self.desired;
        if !stopping {
            if let Some(target) = self.scheduler.start_ready(now_ms) {
                let id: u64 = self.next_id;
                self.next_id = self.next_id + 1;
                return RunStep::Start { id, target };
            }
        }
        if self.scheduler.active() == 0 && (stopping || self.scheduler.is_done()) {
            return RunStep::Done;
        }
        let wait = if stopping {
            None
        } else {
            self.scheduler.next_ready_in(now_ms)
        };
        match wait {
            Some(wait) => if wait.is_zero() {
                RunStep::Wait { pacing: None, sleep: Duration::from_millis(20) }
            } else {
                let longest = Duration::from_millis(200);
                let sleep = if wait.less(longest) {
                    wait
                } else {
                    longest
                };
                RunStep::Wait { pacing: Some(wait), sleep }
            },
            None => RunStep::Wait { pacing: None, sleep: Duration::from_millis(20) },
        }
    }
}

/// Whether a key may be used: no attempt uses it, and six seconds have passed since the last
/// handshake with it.
pub open spec fn may_use(scheduler: SchedulerModel, key: Seq<char>, now: u64) -> bool {
    &&& !scheduler.active.contains(key)
    &&& scheduler.last.dom().contains(key) ==> now - scheduler.last[key] >= 6000
}

/// A run goes on below its goal: as long as fewer servers were confirmed than wanted, fewer than
/// four attempts run and the key of a waiting server may be used, an attempt starts, with the first
/// such server in order.
pub proof fn run_goes_on_below_goal(state: RunState, now: u64, k: int)
    requires
        state.confirmed < state.desired,
        state.scheduler.active.len() < 4,
        0 <= k < state.scheduler.pending.len(),
        may_use(state.scheduler, state.scheduler.pending[k].public_key, now),
    ensures
        state.can_start(false, now),
        state.scheduler.first_ready(0, now) <= k,
        may_use(
            state.scheduler,
            state.scheduler.pending[state.scheduler.first_ready(0, now)].public_key,
            now,
        ),
{
    lemma_first_ready(state.scheduler, 0, now);
    let i = state.scheduler.first_ready(0, now);
    if k < i {
        assert(!state.scheduler.key_ready(state.scheduler.pending[k].public_key, now));
    }
}

/// An attempt starts only below the goal, without a cancellation, with fewer than four others, and
/// with a server whose key may be used.
pub proof fn run_starts_only_below_goal(state: RunState, cancelled: bool, now: u64)
    requires
        state.can_start(cancelled, now),
    ensures
        !cancelled,
        state.confirmed < state.desired,
        state.scheduler.active.len() < 4,
        0 <= state.scheduler.first_ready(0, now) < state.scheduler.pending.len(),
        may_use(
            state.scheduler,
            state.scheduler.pending[state.scheduler.first_ready(0, now)].public_key,
            now,
        ),
{
    lemma_first_ready(state.scheduler, 0, now);
}

/// A run ends when no attempt runs and either it was cancelled, or as many servers were confirmed as
/// wanted, or none waits; and never otherwise.
pub proof fn run_ends_at_its_goal(state: RunState, cancelled: bool)
    ensures
        state.is_over(cancelled) <==> state.scheduler.active.len() == 0 && (cancelled
            || state.confirmed >= state.desired || state.scheduler.pending.len() == 0),
{
}

/// A run that has to wait sleeps no longer than until the key of some waiting server that no attempt
/// uses has rested, and never longer than a fifth of a second; and what it tells of pacing is just
/// that rest.
pub proof fn run_waits_for_rested_keys(state: RunState, now: u64, k: int)
    requires
        state.confirmed < state.desired,
        0 <= k < state.scheduler.pending.len(),
        !state.scheduler.active.contains(state.scheduler.pending[k].public_key),
        state.scheduler.last.dom().contains(state.scheduler.pending[k].public_key),
        state.scheduler.last[state.scheduler.pending[k].public_key] <= now,
        now < state.scheduler.last[state.scheduler.pending[k].public_key] + 6000,
    ensures
        0 <= state.ready_in(false, now) <= state.scheduler.last[state.scheduler.pending[k].public_key]
            + 6000 - now,
        0 < state.sleep_ms(false, now) <= 200,
        state.ready_in(false, now) > 0 ==> state.sleep_ms(false, now) <= state.ready_in(false, now),
        exists|j: int|
            0 <= j < state.scheduler.pending.len() && state.ready_in(false, now)
                == rest_left(state.scheduler, #[trigger] state.scheduler.pending[j].public_key, now),
{
    let n = state.scheduler.pending.len() as int;
    lemma_least_wait(state.scheduler, n, now, k);
    let j = lemma_shortest_wait(state.scheduler, n, now);
    assert(state.ready_in(false, now) == rest_left(
        state.scheduler,
        state.scheduler.pending[j].public_key,
        now,
    ));
}

/// How long a key has to rest yet.
pub open spec fn rest_left(scheduler: SchedulerModel, key: Seq<char>, now: u64) -> int {
    if scheduler.last.dom().contains(key) && now < scheduler.last[key] {
        6000
    } else if scheduler.last.dom().contains(key) && now < scheduler.last[key] + 6000 {
        scheduler.last[key] + 6000 - now
    } else {
        0
    }
}

proof fn lemma_least_wait(scheduler: SchedulerModel, n: int, now: u64, k: int)
    requires
        0 <= k < n <= scheduler.pending.len(),
        !scheduler.active.contains(scheduler.pending[k].public_key),
    ensures
        scheduler.shortest_wait(n, now) matches Some(wait) && wait <= scheduler.wait_for(
            scheduler.pending[k].public_key,
            now,
        ),
    decreases n,
{
    if k < n - 1 {
        lemma_least_wait(scheduler, n - 1, now, k);
    }
}

/// A run that has as many confirmations as it wants, or was cancelled, starts nothing more; and as
/// soon as nothing runs it is over.
pub proof fn stopping_run_ends(state: RunState, cancelled: bool, now: u64)
    requires
        state.stopping(cancelled),
    ensures
        !state.can_start(cancelled, now),
        state.scheduler.active.len() == 0 ==> state.is_over(cancelled),
{
}

} // verus!
