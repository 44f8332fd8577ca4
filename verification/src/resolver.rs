//! Endpoint resolution: what needs a lookup, and how many lookups run at once.
use crate::net::{ipv4_endpoint_reads_back, Ipv4Addr, SocketAddr, SocketModel};
use crate::probe::address_model;
use crate::text::decimal_spec;
use crate::time::Duration;
use vstd::prelude::*;
use vstd::string::*;

verus! {

/// How many lookups may run at once.
pub const MAX_RESOLVER_WORKERS: usize = 4;

/// The right to run one lookup.
#[derive(Debug)]
pub struct ResolverSlot {
    taken: bool,
}

impl ResolverSlot {
    /// Takes a slot and counts it, if fewer than the maximum are taken.
    pub fn acquire(active: &mut usize) -> (r: Option<ResolverSlot>)
        ensures
            r is Some <==> *old(active) < MAX_RESOLVER_WORKERS,
            *final(active) == if *old(active) < MAX_RESOLVER_WORKERS {
                *old(active) + 1
            } else {
                *old(active) as int
            },
            r is Some ==> *final(active) <= 4,
            *old(active) < 4 ==> r is Some,
    {
        if *active < MAX_RESOLVER_WORKERS {
            *active = *active + 1;
            Some(ResolverSlot { taken: true })
        } else {
            None
        }
    }

    /// Gives the slot back.
    pub fn release(self, active: &mut usize)
        requires
            *old(active) > 0,
        ensures
            *final(active) == *old(active) - 1,
    {
        *active = *active - 1;
    }
}

/// How an endpoint is resolved.
#[derive(Debug)]
pub enum Resolution {
    /// At once, or not at all.
    Settled(Result<Option<SocketAddr>, String>),
    /// By a lookup that holds the slot.
    Lookup(ResolverSlot),
}

/// What is known of an endpoint without a lookup. Numeric endpoints need none; no time is an
/// error.
pub open spec fn settled_spec(endpoint: Seq<char>, timeout: int) -> Option<
    Result<Option<SocketModel>, Seq<char>>,
> {
    if timeout == 0 {
        Some(Err("overall deadline expired before endpoint resolution"@))
    } else {
        match SocketAddr::parse_spec(endpoint) {
            Some(address) => Some(Ok(Some(address))),
            None => None,
        }
    }
}

/// Resolves a numeric endpoint, or takes a slot for the lookup of another. Without a free slot
/// the lookup is refused.
pub fn resolve_endpoint(endpoint: &str, timeout: Duration, active: &mut usize) -> (r: Resolution)
    ensures
        match settled_spec(endpoint@, timeout.nanos()) {
            Some(result) => *final(active) == *old(active) && (r matches Resolution::Settled(found)
                && address_model(found) == result),
            None => if *old(active) < MAX_RESOLVER_WORKERS {
                r is Lookup && *final(active) == *old(active) + 1
            } else {
                *final(active) == *old(active) && (r matches Resolution::Settled(found)
                    && address_model(found) == Err::<Option<SocketModel>, Seq<char>>(
                    "endpoint resolver capacity exhausted (4 workers)"@,
                ))
            },
        },
{
    if timeout.is_zero() {
        return Resolution::Settled(
            Err("overall deadline expired before endpoint resolution".to_string()),
        );
    }
    if let Some(address) = SocketAddr::parse(endpoint) {
        return Resolution::Settled(Ok(Some(address)));
    }
    match ResolverSlot::acquire(active) {
        Some(slot) => Resolution::Lookup(slot),
        None => Resolution::Settled(
            Err("endpoint resolver capacity exhausted (4 workers)".to_string()),
        ),
    }
}

/// How a lookup ended.
#[derive(Debug)]
pub enum LookupOutcome {
    /// With the first address, with none, or with an error.
    Answered(Result<Option<SocketAddr>, String>),
    /// It could not be started.
    NotStarted(String),
    /// Not before the deadline.
    TimedOut,
    /// Without an answer.
    Stopped,
}

/// The result of a lookup.
pub open spec fn lookup_result_spec(outcome: LookupOutcome) -> Result<
    Option<SocketModel>,
    Seq<char>,
> {
    match outcome {
        LookupOutcome::Answered(result) => address_model(result),
        LookupOutcome::NotStarted(error) => Err("could not start endpoint resolver: "@ + error@),
        LookupOutcome::TimedOut => Err("endpoint resolution exceeded the overall deadline"@),
        LookupOutcome::Stopped => Err("endpoint resolver stopped unexpectedly"@),
    }
}

/// The result of a lookup.
pub fn lookup_result(outcome: LookupOutcome) -> (r: Result<Option<SocketAddr>, String>)
    ensures
        address_model(r) == lookup_result_spec(outcome),
{
    match outcome {
        LookupOutcome::Answered(result) => result,
        LookupOutcome::NotStarted(error) => {
            let mut message = "could not start endpoint resolver: ".to_string();
            message.append(error.as_str());
            Err(message)
        },
        LookupOutcome::TimedOut => Err(
            "endpoint resolution exceeded the overall deadline".to_string(),
        ),
        LookupOutcome::Stopped => Err("endpoint resolver stopped unexpectedly".to_string()),
    }
}

/// A numeric endpoint is settled as what it denotes as long as there is time, and nothing but a lack of
/// time or a numeric endpoint settles without a lookup.
pub proof fn numeric_endpoints_need_no_lookup(address: Ipv4Addr, port: u16, other: Seq<char>, timeout: int)
    requires
        timeout > 0,
    ensures
        settled_spec(address.text_spec() + seq![':'] + decimal_spec(port as int), timeout) == Some(
            Ok::<Option<SocketModel>, Seq<char>>(Some(SocketModel::V4 { address, port })),
        ),
        settled_spec(other, timeout) is None <==> SocketAddr::parse_spec(other) is None,
        settled_spec(other, 0) matches Some(result) && result is Err,
{
    ipv4_endpoint_reads_back(address, port);
}

/// A lookup gives what was answered, and any other end is an error.
pub proof fn lookup_gives_its_answer(outcome: LookupOutcome)
    ensures
        match outcome {
            LookupOutcome::Answered(Ok(Some(address))) => lookup_result_spec(outcome) == Ok::<
                Option<SocketModel>,
                Seq<char>,
            >(Some(address@)),
            LookupOutcome::Answered(Ok(None)) => lookup_result_spec(outcome) == Ok::<
                Option<SocketModel>,
                Seq<char>,
            >(None),
            LookupOutcome::Answered(Err(error)) => lookup_result_spec(outcome) == Err::<
                Option<SocketModel>,
                Seq<char>,
            >(error@),
            _ => lookup_result_spec(outcome) is Err,
        },
{
}

} // verus!
