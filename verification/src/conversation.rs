//! What a handshake and a data check do with the datagrams of the peer.
use crate::engine::TunnelModel;
use crate::report::PhaseStatus;
use crate::session::{
    Check, CheckActionModel, CheckInputModel, CheckStage, ExpectationModel, Handshake,
    HandshakeActionModel, HandshakeInputModel, HandshakeStage, IoModel, OutcomeModel,
};
use vstd::prelude::*;
use vstd::string::*;

verus! {

/// Whether a datagram has the type and the length of a kind of message.
pub open spec fn is_message(datagram: Seq<u8>, kind: u8, length: int) -> bool {
    datagram.len() == length && length >= 4 && datagram[0] == kind && datagram[1] == 0
        && datagram[2] == 0 && datagram[3] == 0
}

/// A handshake after so many answers, and what it asked for last.
pub open spec fn handshake_after(inputs: Seq<HandshakeInputModel>) -> (
    (HandshakeStage, int, int),
    HandshakeActionModel,
)
    decreases inputs.len(),
{
    if inputs.len() == 0 {
        ((HandshakeStage::Starting, 0, 0), HandshakeActionModel::Receive)
    } else {
        Handshake::advance_spec(handshake_after(inputs.drop_last()).0, inputs.last())
    }
}

/// Whether every answer is one to what the handshake asked for.
pub open spec fn handshake_follows(inputs: Seq<HandshakeInputModel>) -> bool
    decreases inputs.len(),
{
    inputs.len() > 0 ==> handshake_follows(inputs.drop_last()) && Handshake::expects(
        (handshake_after(inputs.drop_last()).0).0,
        inputs.last(),
    )
}

/// How many bytes were sent and received.
pub open spec fn handshake_traffic(inputs: Seq<HandshakeInputModel>) -> (int, int)
    decreases inputs.len(),
{
    if inputs.len() == 0 {
        (0, 0)
    } else {
        let (sent, received) = handshake_traffic(inputs.drop_last());
        match inputs.last() {
            HandshakeInputModel::Sent(IoModel::Done(count)) => (sent + count, received),
            HandshakeInputModel::Received(IoModel::Done(datagram)) => (
                sent,
                received + datagram.len(),
            ),
            _ => (sent, received),
        }
    }
}

/// A handshake counts every byte that was sent and received, whatever became of it; what was sent of
/// the keepalive is told apart.
pub proof fn handshake_counts_all_traffic(inputs: Seq<HandshakeInputModel>)
    requires
        handshake_follows(inputs),
    ensures
        ({
            let (state, action) = handshake_after(inputs);
            let (sent, received) = handshake_traffic(inputs);
            &&& state.2 == received
            &&& match action {
                HandshakeActionModel::Established { sent: first, received: all, keepalive } => {
                    &&& all == received
                    &&& first == state.1
                    &&& first + (match keepalive {
                        Ok(count) => count,
                        Err(_) => 0,
                    }) == sent
                },
                HandshakeActionModel::Failed(failure) => failure.sent == sent && failure.received
                    == received,
                _ => state.1 == sent,
            }
            &&& (action is Established || action is Failed) <==> state.0 == HandshakeStage::Over
        }),
    decreases inputs.len(),
{
    if inputs.len() > 0 {
        handshake_counts_all_traffic(inputs.drop_last());
    }
}

/// A handshake starts with an initiation of the engine, which is sent as it is, and then waits for the
/// peer.
pub proof fn handshake_starts_with_initiation(message: Seq<u8>, count: int)
    ensures
        ({
            let start = HandshakeInputModel::Start;
            let made = HandshakeInputModel::Engine(TunnelModel::Network(message));
            let sent = HandshakeInputModel::Sent(IoModel::Done(count));
            &&& handshake_follows(seq![start, made, sent])
            &&& handshake_after(seq![start]).1 == (HandshakeActionModel::Initiate { force: false })
            &&& handshake_after(seq![start, made]).1 == HandshakeActionModel::Send(message)
            &&& handshake_after(seq![start, made, sent]) == (
                (HandshakeStage::Receiving, count, 0int),
                HandshakeActionModel::Receive,
            )
        }),
{
    let start = HandshakeInputModel::Start;
    let made = HandshakeInputModel::Engine(TunnelModel::Network(message));
    let sent = HandshakeInputModel::Sent(IoModel::Done(count));
    assert(seq![start].drop_last() =~= Seq::empty());
    assert(seq![start, made].drop_last() =~= seq![start]);
    assert(seq![start, made, sent].drop_last() =~= seq![start, made]);
    assert(handshake_follows(Seq::empty()));
    assert(handshake_follows(seq![start]));
    assert(handshake_follows(seq![start, made]));
}

/// A handshake response is given to the engine; where the engine accepts it by a datagram, that
/// datagram is sent and the session stands, whether or not the sending succeeds.
pub proof fn accepted_response_establishes(
    sent: int,
    received: int,
    datagram: Seq<u8>,
    message: Seq<u8>,
    result: IoModel<int>,
)
    requires
        is_message(datagram, 2, 92),
    ensures
        ({
            let waiting = (HandshakeStage::Receiving, sent, received);
            let (asked, first) = Handshake::advance_spec(
                waiting,
                HandshakeInputModel::Received(IoModel::Done(datagram)),
            );
            let (answered, second) = Handshake::advance_spec(
                asked,
                HandshakeInputModel::Engine(TunnelModel::Network(message)),
            );
            let (over, third) = Handshake::advance_spec(answered, HandshakeInputModel::Sent(result));
            &&& first == HandshakeActionModel::Decapsulate(datagram)
            &&& second == HandshakeActionModel::Send(message)
            &&& third matches HandshakeActionModel::Established {
                sent: before,
                received: all,
                keepalive,
            } && before == sent && all == received + 92 && (match result {
                IoModel::Done(count) => keepalive == Ok::<int, Seq<char>>(count),
                _ => keepalive is Err,
            })
        }),
{
}

/// A cookie reply is given to the engine; where the engine takes it, one more initiation is forced and
/// sent, and the handshake goes on waiting.
pub proof fn cookie_is_answered_by_retry(
    sent: int,
    received: int,
    datagram: Seq<u8>,
    message: Seq<u8>,
    count: int,
)
    requires
        is_message(datagram, 3, 64),
    ensures
        ({
            let waiting = (HandshakeStage::Receiving, sent, received);
            let (asked, first) = Handshake::advance_spec(
                waiting,
                HandshakeInputModel::Received(IoModel::Done(datagram)),
            );
            let (taken, second) = Handshake::advance_spec(
                asked,
                HandshakeInputModel::Engine(TunnelModel::Done),
            );
            let (made, third) = Handshake::advance_spec(
                taken,
                HandshakeInputModel::Engine(TunnelModel::Network(message)),
            );
            &&& first == HandshakeActionModel::Decapsulate(datagram)
            &&& second == (HandshakeActionModel::Initiate { force: true })
            &&& third == HandshakeActionModel::Send(message)
            &&& Handshake::advance_spec(made, HandshakeInputModel::Sent(IoModel::Done(count))) == (
                (HandshakeStage::Receiving, sent + count, received + 64),
                HandshakeActionModel::Receive,
            )
        }),
{
}

/// Datagrams of any other kind are counted and passed over.
pub proof fn other_datagrams_are_passed_over(sent: int, received: int, datagram: Seq<u8>)
    requires
        !is_message(datagram, 2, 92),
        !is_message(datagram, 3, 64),
    ensures
        Handshake::advance_spec(
            (HandshakeStage::Receiving, sent, received),
            HandshakeInputModel::Received(IoModel::Done(datagram)),
        ) == (
            (HandshakeStage::Receiving, sent, received + datagram.len()),
            HandshakeActionModel::Receive,
        ),
{
}

/// A handshake that the engine or the socket fails ends with the words of the fault, and one that the
/// engine leaves without what is due ends as an error.
pub proof fn handshake_faults_are_told(
    stage: HandshakeStage,
    sent: int,
    received: int,
    output: TunnelModel,
    error: Seq<char>,
)
    ensures
        Handshake::expects(stage, HandshakeInputModel::Engine(output)) && output
            == TunnelModel::Failed(error) ==> (Handshake::advance_spec(
            (stage, sent, received),
            HandshakeInputModel::Engine(output),
        ).1 matches HandshakeActionModel::Failed(failure) && failure.status == PhaseStatus::Error
            && failure.detail == "WireGuard protocol error: "@ + error),
        Handshake::expects(stage, HandshakeInputModel::Engine(output)) && (match output {
            TunnelModel::Network(_) => stage == HandshakeStage::Cookie,
            TunnelModel::Done => stage != HandshakeStage::Cookie,
            _ => true,
        }) ==> (Handshake::advance_spec(
            (stage, sent, received),
            HandshakeInputModel::Engine(output),
        ).1 matches HandshakeActionModel::Failed(failure) && failure.status == PhaseStatus::Error),
        stage == HandshakeStage::Receiving || stage == HandshakeStage::SendingInitiation || stage
            == HandshakeStage::SendingRetry ==> ({
            let fault = if stage == HandshakeStage::Receiving {
                HandshakeInputModel::Received(IoModel::Failed(error))
            } else {
                HandshakeInputModel::Sent(IoModel::Failed(error))
            };
            Handshake::advance_spec((stage, sent, received), fault).1 matches
                HandshakeActionModel::Failed(failure) && failure.status == PhaseStatus::Error
                && failure.detail == "local UDP error: "@ + error
        }),
{
}

/// A data check after so many answers, and what it asked for last.
pub open spec fn check_after(expectation: ExpectationModel, inputs: Seq<CheckInputModel>) -> (
    (CheckStage, int, int),
    CheckActionModel,
)
    decreases inputs.len(),
{
    if inputs.len() == 0 {
        ((CheckStage::Starting, 0, 0), CheckActionModel::Receive)
    } else {
        Check::advance_spec(
            check_after(expectation, inputs.drop_last()).0,
            expectation,
            inputs.last(),
        )
    }
}

/// Whether every answer is one to what the check asked for.
pub open spec fn check_follows(expectation: ExpectationModel, inputs: Seq<CheckInputModel>) -> bool
    decreases inputs.len(),
{
    inputs.len() > 0 ==> check_follows(expectation, inputs.drop_last()) && Check::expects(
        (check_after(expectation, inputs.drop_last()).0).0,
        inputs.last(),
    )
}

/// How many bytes were sent and received.
pub open spec fn check_traffic(inputs: Seq<CheckInputModel>) -> (int, int)
    decreases inputs.len(),
{
    if inputs.len() == 0 {
        (0, 0)
    } else {
        let (sent, received) = check_traffic(inputs.drop_last());
        match inputs.last() {
            CheckInputModel::Sent(IoModel::Done(count)) => (sent + count, received),
            CheckInputModel::Received(IoModel::Done(datagram)) => (sent, received + datagram.len()),
            _ => (sent, received),
        }
    }
}

/// A data check counts every byte that was sent and received, also of datagrams that are not its
/// reply, and its outcome tells them.
pub proof fn check_counts_all_traffic(expectation: ExpectationModel, inputs: Seq<CheckInputModel>)
    requires
        check_follows(expectation, inputs),
    ensures
        ({
            let (state, action) = check_after(expectation, inputs);
            &&& (state.1, state.2) == check_traffic(inputs)
            &&& action matches CheckActionModel::Ended(outcome) ==> state.0 == CheckStage::Over && (
            match outcome {
                OutcomeModel::Passed { sent, received, .. } => (sent, received),
                OutcomeModel::Unconfirmed { sent, received } => (sent, received),
                OutcomeModel::Error { sent, received, .. } => (sent, received),
            }) == check_traffic(inputs)
        }),
    decreases inputs.len(),
{
    if inputs.len() > 0 {
        check_counts_all_traffic(expectation, inputs.drop_last());
    }
}

/// A data check that starts in time encrypts its packet, sends what the engine made of it, and waits;
/// every datagram is decrypted.
pub proof fn check_sends_and_waits(
    expectation: ExpectationModel,
    sent: int,
    received: int,
    message: Seq<u8>,
    count: int,
    datagram: Seq<u8>,
)
    ensures
        Check::advance_spec(
            (CheckStage::Starting, sent, received),
            expectation,
            CheckInputModel::Start { expired: false },
        ) == ((CheckStage::Encrypting, sent, received), CheckActionModel::Encapsulate),
        Check::advance_spec(
            (CheckStage::Encrypting, sent, received),
            expectation,
            CheckInputModel::Engine(TunnelModel::Network(message)),
        ) == ((CheckStage::Sending, sent, received), CheckActionModel::Send(message)),
        Check::advance_spec(
            (CheckStage::Sending, sent, received),
            expectation,
            CheckInputModel::Sent(IoModel::Done(count)),
        ) == ((CheckStage::Receiving, sent + count, received), CheckActionModel::Receive),
        Check::advance_spec(
            (CheckStage::Receiving, sent, received),
            expectation,
            CheckInputModel::Received(IoModel::Done(datagram)),
        ) == (
            (CheckStage::Decrypting, sent, received + datagram.len()),
            CheckActionModel::Decapsulate(datagram),
        ),
{
}

/// What a decrypted datagram means for a check: the expected reply ends it, a datagram of the engine is
/// sent on, anything else is passed over, and after both the check goes on waiting.
pub proof fn check_waits_for_its_reply(
    expectation: ExpectationModel,
    sent: int,
    received: int,
    packet: Seq<u8>,
    count: int,
)
    ensures
        ({
            let state = (CheckStage::Decrypting, sent, received);
            let waiting = ((CheckStage::Receiving, sent, received), CheckActionModel::Receive);
            let plain = CheckInputModel::Engine(TunnelModel::PacketV4(packet));
            let relay = Check::advance_spec(
                state,
                expectation,
                CheckInputModel::Engine(TunnelModel::Network(packet)),
            );
            &&& expectation.answers(packet) matches Some(answers) ==> Check::advance_spec(
                state,
                expectation,
                plain,
            ).1 == CheckActionModel::Ended(OutcomeModel::Passed { sent, received, answers })
            &&& expectation.answers(packet) is None ==> Check::advance_spec(state, expectation, plain)
                == waiting
            &&& Check::advance_spec(state, expectation, CheckInputModel::Engine(TunnelModel::Done))
                == waiting
            &&& Check::advance_spec(
                state,
                expectation,
                CheckInputModel::Engine(TunnelModel::PacketV6(packet)),
            ) == waiting
            &&& relay.1 == CheckActionModel::Send(packet)
            &&& Check::advance_spec(
                relay.0,
                expectation,
                CheckInputModel::Sent(IoModel::Done(count)),
            ) == ((CheckStage::Receiving, sent + count, received), CheckActionModel::Receive)
        }),
{
}

/// A data check that hears nothing until its deadline stays unconfirmed, and only then; a fault of the
/// engine or the socket is an error that names it.
pub proof fn check_tells_silence_from_faults(
    state: (CheckStage, int, int),
    expectation: ExpectationModel,
    input: CheckInputModel,
    error: Seq<char>,
)
    requires
        Check::expects(state.0, input),
    ensures
        ({
            let action = Check::advance_spec(state, expectation, input).1;
            let silent = match input {
                CheckInputModel::Start { expired } => expired,
                CheckInputModel::Sent(result) => result is Timeout,
                CheckInputModel::Received(result) => result is Timeout,
                CheckInputModel::Engine(_) => false,
            };
            let failed = match input {
                CheckInputModel::Start { .. } => false,
                CheckInputModel::Sent(result) => result == IoModel::<int>::Failed(error),
                CheckInputModel::Received(result) => result == IoModel::<Seq<u8>>::Failed(error),
                CheckInputModel::Engine(output) => output == TunnelModel::Failed(error),
            };
            &&& silent <==> (action matches CheckActionModel::Ended(outcome) && outcome is Unconfirmed)
            &&& failed ==> (action matches CheckActionModel::Ended(
                OutcomeModel::Error { detail, .. },
            ) && exists|what: Seq<char>| detail == #[trigger] (what + error))
        }),
{
}

} // verus!
