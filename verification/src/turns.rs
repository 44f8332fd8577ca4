//! Whose turn it is: the order in which servers are probed, and the rest that keys get.
use crate::inventory::TargetModel;
use crate::net::{Ipv4Addr, SocketModel};
use crate::order::text_less;
use crate::probe::PlanModel;
use crate::probing::{
    attempt_plan_spec, may_use, outcome_spec, rest_left, AttemptModel, CheckMode,
};
use crate::report::{PhaseModel, PhaseStatus, ReportModel, Verdict};
use crate::scheduler::{
    candidate_before, endpoint_before, groups_less, has_all_groups, in_order, ipv4_prefix_spec,
    is_probing_order, lemma_first_ready, lemma_shortest_wait, planned, prefix_seen,
    probing_order_samples_prefixes, SchedulerModel,
};
use vstd::prelude::*;
use vstd::string::*;

verus! {

/// The first server in order whose key may be used is the next; where no key may be used, there is
/// none.
pub proof fn first_rested_server_is_next(scheduler: SchedulerModel, now: u64)
    ensures
        ({
            let i = scheduler.first_ready(0, now);
            &&& 0 <= i <= scheduler.pending.len()
            &&& i < scheduler.pending.len() ==> may_use(
                scheduler,
                scheduler.pending[i].public_key,
                now,
            )
            &&& forall|k: int|
                0 <= k < i ==> !may_use(
                    scheduler,
                    (#[trigger] scheduler.pending[k]).public_key,
                    now,
                )
        }),
{
    lemma_first_ready(scheduler, 0, now);
    let i = scheduler.first_ready(0, now);
    assert forall|k: int| 0 <= k < i implies !may_use(
        scheduler,
        (#[trigger] scheduler.pending[k]).public_key,
        now,
    ) by {
        assert(!scheduler.key_ready(scheduler.pending[k].public_key, now));
    }
}

/// The wait is the least rest that a key of a waiting server still needs, keys in use aside; where all
/// are in use, or none waits, there is none.
pub proof fn wait_is_least_rest(scheduler: SchedulerModel, n: int, now: u64)
    requires
        0 <= n <= scheduler.pending.len(),
    ensures
        scheduler.shortest_wait(n, now) is None <==> forall|k: int|
            0 <= k < n ==> scheduler.active.contains((#[trigger] scheduler.pending[k]).public_key),
        scheduler.shortest_wait(n, now) matches Some(wait) ==> {
            &&& forall|k: int|
                0 <= k < n && !scheduler.active.contains(
                    (#[trigger] scheduler.pending[k]).public_key,
                ) ==> wait <= rest_left(scheduler, scheduler.pending[k].public_key, now)
            &&& exists|k: int|
                0 <= k < n && !scheduler.active.contains(
                    (#[trigger] scheduler.pending[k]).public_key,
                ) && wait == rest_left(scheduler, scheduler.pending[k].public_key, now)
        },
    decreases n,
{
    if n > 0 {
        wait_is_least_rest(scheduler, n - 1, now);
        let key = scheduler.pending[n - 1].public_key;
        assert(scheduler.wait_for(key, now) == rest_left(scheduler, key, now));
    }
    if scheduler.shortest_wait(n, now) is Some {
        let k = lemma_shortest_wait(scheduler, n, now);
        let key = scheduler.pending[k].public_key;
        assert(scheduler.wait_for(key, now) == rest_left(scheduler, key, now));
    }
}

/// Whether an IPv4 address comes before another: the first octets that differ decide.
pub open spec fn octets_before(x: Ipv4Addr, y: Ipv4Addr) -> bool {
    ||| x.a < y.a
    ||| x.a == y.a && x.b < y.b
    ||| x.a == y.a && x.b == y.b && x.c < y.c
    ||| x.a == y.a && x.b == y.b && x.c == y.c && x.d < y.d
}

/// Whether an endpoint comes before another: IPv4 first, then by address and by port, and for IPv6
/// then by flow information and scope.
pub open spec fn reached_before(a: SocketModel, b: SocketModel) -> bool {
    match (a, b) {
        (SocketModel::V4 { address: x, port: p }, SocketModel::V4 { address: y, port: q }) => {
            octets_before(x, y) || (x == y && p < q)
        },
        (
            SocketModel::V6 { groups: x, port: p, flowinfo: f, scope_id: s },
            SocketModel::V6 { groups: y, port: q, flowinfo: g, scope_id: t },
        ) => {
            ||| exists|i: int|
                0 <= i < 8 && #[trigger] x.take(i) == y.take(i) && x[i] < y[i]
            ||| x == y && p < q
            ||| x == y && p == q && f < g
            ||| x == y && p == q && f == g && s < t
        },
        (SocketModel::V4 { .. }, SocketModel::V6 { .. }) => true,
        (SocketModel::V6 { .. }, SocketModel::V4 { .. }) => false,
    }
}

/// Whether a server is probed before another, prefixes aside: by load, host name and endpoint, one
/// after the other.
pub open spec fn probed_before(a: TargetModel, b: TargetModel) -> bool {
    ||| a.load < b.load
    ||| a.load == b.load && text_less(a.hostname, b.hostname)
    ||| a.load == b.load && a.hostname == b.hostname && reached_before(a.endpoint, b.endpoint)
}

/// Whether two servers have IPv4 addresses with the same first three octets.
pub open spec fn neighbours(a: TargetModel, b: TargetModel) -> bool {
    match (a.endpoint, b.endpoint) {
        (SocketModel::V4 { address: x, .. }, SocketModel::V4 { address: y, .. }) => x.a == y.a && x.b
            == y.b && x.c == y.c,
        _ => false,
    }
}

/// Whether a server has an IPv4 address.
pub open spec fn has_ipv4(target: TargetModel) -> bool {
    target.endpoint is V4
}

proof fn lemma_groups(x: Seq<u16>, y: Seq<u16>, from: int)
    requires
        x.len() == y.len(),
        0 <= from <= x.len(),
        x.take(from) == y.take(from),
    ensures
        groups_less(x.skip(from), y.skip(from)) <==> exists|i: int|
            0 <= i < x.len() && #[trigger] x.take(i) == y.take(i) && x[i] < y[i],
    decreases x.len() - from,
{
    let a = x.skip(from);
    let b = y.skip(from);
    if from < x.len() {
        assert(a[0] == x[from] && b[0] == y[from]);
        if x[from] == y[from] {
            assert(x.take(from + 1) =~= x.take(from).push(x[from]));
            assert(y.take(from + 1) =~= y.take(from).push(y[from]));
            assert(a.drop_first() =~= x.skip(from + 1));
            assert(b.drop_first() =~= y.skip(from + 1));
            lemma_groups(x, y, from + 1);
        } else {
            assert forall|i: int|
                0 <= i < x.len() && #[trigger] x.take(i) == y.take(i) && x[i] < y[i] implies i
                == from by {
                if i < from {
                    assert(x.take(from)[i] == x[i] && y.take(from)[i] == y[i]);
                } else if i > from {
                    assert(x.take(i)[from] == x[from] && y.take(i)[from] == y[from]);
                }
            }
            assert(x.take(from) == y.take(from));
        }
    } else {
        assert forall|i: int|
            0 <= i < x.len() && #[trigger] x.take(i) == y.take(i) implies x[i] == y[i] by {
            assert(x.take(from)[i] == x[i] && y.take(from)[i] == y[i]);
        }
    }
}

proof fn lemma_reached(a: SocketModel, b: SocketModel)
    requires
        has_all_groups(a),
        has_all_groups(b),
    ensures
        endpoint_before(a, b) == reached_before(a, b),
{
    match (a, b) {
        (
            SocketModel::V6 { groups: x, port: p, flowinfo: f, scope_id: s },
            SocketModel::V6 { groups: y, port: q, flowinfo: g, scope_id: t },
        ) => {
            assert(x.take(0) =~= y.take(0));
            lemma_groups(x, y, 0);
            assert(x.skip(0) =~= x);
            assert(y.skip(0) =~= y);
            if x == y {
                assert(!(exists|i: int|
                    0 <= i < 8 && #[trigger] x.take(i) == y.take(i) && x[i] < y[i]));
            }
        },
        _ => {},
    }
}

proof fn lemma_probed(a: TargetModel, b: TargetModel)
    requires
        has_all_groups(a.endpoint),
        has_all_groups(b.endpoint),
    ensures
        candidate_before(a, b) == probed_before(a, b),
        neighbours(a, b) <==> ipv4_prefix_spec(a) == ipv4_prefix_spec(b) && has_ipv4(a),
{
    lemma_reached(a.endpoint, b.endpoint);
    crate::order::text_order_total(a.hostname, b.hostname);
}

/// Whether the first `n` servers of a list are one of each neighbourhood, the best of it, and both they
/// and the rest are in order.
pub open spec fn samples_first(ordered: Seq<TargetModel>, n: int) -> bool {
    &&& 0 <= n <= ordered.len()
    &&& forall|i: int| 0 <= i < n ==> has_ipv4(#[trigger] ordered[i])
    &&& forall|i: int, j: int|
        0 <= i < j < n ==> !#[trigger] neighbours(ordered[i], ordered[j]) && !probed_before(
            ordered[j],
            ordered[i],
        )
    &&& forall|j: int|
        n <= j < ordered.len() && has_ipv4(#[trigger] ordered[j]) ==> has_better(ordered, n, j)
    &&& forall|i: int, j: int|
        n <= i < j < ordered.len() ==> !#[trigger] probed_before(ordered[j], ordered[i])
}

/// Whether one of the first `n` servers is a neighbour that is not to be probed behind that at `j`.
pub open spec fn has_better(ordered: Seq<TargetModel>, n: int, j: int) -> bool {
    exists|i: int|
        0 <= i < n && #[trigger] neighbours(ordered[i], ordered[j]) && !probed_before(
            ordered[j],
            ordered[i],
        )
}

/// Servers are probed by load, host name and endpoint, but one of each IPv4 neighbourhood first, the
/// best of it. None is lost and none is probed twice.
pub proof fn neighbourhoods_are_sampled_first(list: Seq<TargetModel>, ordered: Seq<TargetModel>)
    requires
        list.len() <= usize::MAX,
        forall|i: int| 0 <= i < list.len() ==> has_all_groups((#[trigger] list[i]).endpoint),
        is_probing_order(list, ordered),
    ensures
        ordered.len() == list.len(),
        exists|n: int| samples_first(ordered, n),
{
    probing_order_samples_prefixes(list, ordered);
    let n = choose|n: int|
        0 <= n <= ordered.len() && crate::scheduler::samples_prefixes(
            #[trigger] ordered.take(n),
            ordered,
        ) && crate::scheduler::leads_prefixes(ordered.take(n), ordered) && in_order(ordered.take(n))
            && in_order(ordered.skip(n));
    let head = ordered.take(n);
    let rest = ordered.skip(n);
    assert forall|i: int| 0 <= i < ordered.len() implies has_all_groups(
        (#[trigger] ordered[i]).endpoint,
    ) by {
        assert(list.contains(ordered[i]));
        let k = choose|k: int| 0 <= k < list.len() && list[k] == ordered[i];
        assert(has_all_groups(list[k].endpoint));
    }
    assert forall|i: int| 0 <= i < n implies has_ipv4(#[trigger] ordered[i]) by {
        assert(ipv4_prefix_spec(head[i]) is Some);
    }
    assert forall|i: int, j: int| 0 <= i < j < n implies !#[trigger] neighbours(
        ordered[i],
        ordered[j],
    ) && !probed_before(ordered[j], ordered[i]) by {
        assert(ipv4_prefix_spec(head[i]) != ipv4_prefix_spec(head[j]));
        assert(!candidate_before(head[j], head[i]));
        assert(has_all_groups(ordered[i].endpoint) && has_all_groups(ordered[j].endpoint));
        lemma_probed(ordered[i], ordered[j]);
        lemma_probed(ordered[j], ordered[i]);
    }
    assert forall|j: int| n <= j < ordered.len() && has_ipv4(#[trigger] ordered[j]) implies has_better(
        ordered,
        n,
        j,
    ) by {
        let prefix = ipv4_prefix_spec(ordered[j]);
        assert(prefix_seen(head, prefix));
        let i = choose|i: int| 0 <= i < head.len() && ipv4_prefix_spec(#[trigger] head[i]) == prefix;
        assert(head.contains(head[i]));
        assert(ordered.contains(ordered[j]));
        assert(!candidate_before(ordered[j], head[i]));
        assert(has_all_groups(ordered[i].endpoint) && has_all_groups(ordered[j].endpoint));
        lemma_probed(ordered[i], ordered[j]);
        lemma_probed(ordered[j], ordered[i]);
        assert(neighbours(ordered[i], ordered[j]));
    }
    assert forall|i: int, j: int| n <= i < j < ordered.len() implies !#[trigger] probed_before(
        ordered[j],
        ordered[i],
    ) by {
        assert(rest[i - n] == ordered[i] && rest[j - n] == ordered[j]);
        assert(!candidate_before(rest[j - n], rest[i - n]));
        assert(has_all_groups(ordered[i].endpoint) && has_all_groups(ordered[j].endpoint));
        lemma_probed(ordered[j], ordered[i]);
    }
    assert(samples_first(ordered, n));
}

/// At most so many candidates are planned as are wanted: the first ones, and all where they are
/// fewer.
pub proof fn first_candidates_are_planned(list: Seq<TargetModel>, maximum: int, ordered: Seq<TargetModel>)
    requires
        is_probing_order(list, ordered),
        maximum >= 0,
    ensures
        planned(list, maximum).len() <= maximum,
        planned(list, maximum).len() == maximum || planned(list, maximum) == ordered,
        planned(list, maximum) == ordered.take(planned(list, maximum).len() as int),
{
    crate::scheduler::lemma_probing_order(list, ordered);
    assert(ordered.take(ordered.len() as int) =~= ordered);
}

/// An attempt that fails locally is told by the details of the first phase that failed.
pub proof fn first_fault_is_told(report: ReportModel, i: int)
    requires
        0 <= i < report.phases.len(),
        report.phases[i].status == PhaseStatus::Error,
        forall|j: int| 0 <= j < i ==> (#[trigger] report.phases[j]).status != PhaseStatus::Error,
        report.phases[i].detail is Some,
        report.verdict == Verdict::LocalError,
    ensures
        outcome_spec(report) == AttemptModel::Error(report.phases[i].detail.unwrap()),
{
    lemma_first_fault(report.phases, i, 0);
}

proof fn lemma_first_fault(phases: Seq<PhaseModel>, i: int, from: int)
    requires
        0 <= from <= i < phases.len(),
        phases[i].status == PhaseStatus::Error,
        forall|j: int| 0 <= j < i ==> (#[trigger] phases[j]).status != PhaseStatus::Error,
    ensures
        crate::probing::first_error(phases, from) == i,
    decreases i - from,
{
    if from < i {
        assert(phases[from].status != PhaseStatus::Error);
        lemma_first_fault(phases, i, from + 1);
    }
}

/// A server counts as confirmed exactly where the peer was authenticated, with or without an answered
/// data check; silence leaves it unconfirmed.
pub proof fn authentication_confirms(report: ReportModel)
    ensures
        outcome_spec(report) is Confirmed <==> report.verdict == Verdict::AuthenticationConfirmed
            || report.verdict == Verdict::DataPlaneConfirmed,
        outcome_spec(report) is Unconfirmed <==> report.verdict == Verdict::Unconfirmed,
        outcome_spec(report) is Error <==> report.verdict == Verdict::LocalError,
{
}

/// An attempt makes the data checks that were asked for and no others: every ping and every name, with
/// the server for names that was asked for, from an address of its own and with every network
/// allowed. Without data checks it makes a handshake only.
pub proof fn attempt_makes_its_checks(
    private_key: Seq<u8>,
    peer: Seq<u8>,
    endpoint: Seq<char>,
    mode: CheckMode,
)
    ensures
        ({
            let plan = attempt_plan_spec(private_key, peer, endpoint, mode);
            &&& plan.config.private_key == private_key
            &&& plan.config.peer_public_key == peer
            &&& plan.config.preshared_key is None
            &&& plan.config.endpoint == endpoint
            &&& match mode {
                CheckMode::HandshakeOnly => plan.pings.len() == 0 && plan.resolves.len() == 0,
                CheckMode::Full(checks) => {
                    &&& plan.pings == checks.ping_targets@
                    &&& plan.resolves.len() == checks.resolve_names@.len()
                    &&& forall|i: int|
                        0 <= i < plan.resolves.len() ==> #[trigger] plan.resolves[i]
                            == checks.resolve_names@[i]@
                    &&& crate::checks::serves_names(plan, checks.dns_server)
                    &&& plan.config.address is Some
                    &&& forall|target: Ipv4Addr| #[trigger] reaches(plan, target)
                },
            }
            &&& 0 < plan.ping_timeout <= plan.handshake_timeout <= plan.overall_timeout
            &&& 0 < plan.dns_timeout <= plan.handshake_timeout
        }),
{
    let plan = attempt_plan_spec(private_key, peer, endpoint, mode);
    if mode is Full {
        assert forall|target: Ipv4Addr| #[trigger] reaches(plan, target) by {
            assert(plan.config.allowed_ips[0].1 == 0);
        }
    }
}

/// Whether a network that the peer may use has no fixed bits, or is the address itself.
pub open spec fn reaches(plan: PlanModel, target: Ipv4Addr) -> bool {
    exists|i: int|
        0 <= i < plan.config.allowed_ips.len() && ((#[trigger] plan.config.allowed_ips[i]).1 == 0
            || plan.config.allowed_ips[i] == (target, 32int))
}

} // verus!
