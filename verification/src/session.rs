//! The handshake and the data checks of a probe, decided one message at a time.
use crate::engine::{
    answers_decryption, answers_encryption, answers_initiation, is_exhausted, packet_kind,
    packet_kind_spec, PacketKind, Question, TunnelModel, TunnelOutput, BUFFER_SIZE,
};
use crate::net::{IpAddr, IpModel, Ipv4Addr};
use crate::packet::{
    is_echo_reply_spec, is_icmp_echo_reply, parse_dns_a_response, parse_dns_a_response_spec,
};
use crate::report::PhaseStatus;
use crate::tunnel::{exhausted_answer, Tunnel};
use vstd::prelude::*;
use vstd::string::*;

verus! {

/// Why a datagram was not sent.
#[derive(Debug, PartialEq, Eq)]
pub enum SendError {
    Timeout,
    Io(String),
}

/// Why no datagram was received.
#[derive(Debug, PartialEq, Eq)]
pub enum ReceiveError {
    Timeout,
    Io(String),
}

/// Why no session was established.
#[derive(Debug, PartialEq, Eq)]
pub struct HandshakeFailure {
    pub status: PhaseStatus,
    pub detail: String,
    pub sent: u64,
    pub received: u64,
}

/// Why no session was established, as a mathematical value.
#[verifier::ext_equal]
pub struct FailureModel {
    pub status: PhaseStatus,
    pub detail: Seq<char>,
    pub sent: int,
    pub received: int,
}

impl View for HandshakeFailure {
    type V = FailureModel;

    open spec fn view(&self) -> FailureModel {
        FailureModel {
            status: self.status,
            detail: self.detail@,
            sent: self.sent as int,
            received: self.received as int,
        }
    }
}

/// The result of an I/O operation, as a mathematical value: nothing where time ran out.
#[verifier::ext_equal]
pub enum IoModel<T> {
    Done(T),
    Timeout,
    Failed(Seq<char>),
}

/// The view of the result of sending.
pub open spec fn sent_model(result: Result<u64, SendError>) -> IoModel<int> {
    match result {
        Ok(count) => IoModel::Done(count as int),
        Err(SendError::Timeout) => IoModel::Timeout,
        Err(SendError::Io(error)) => IoModel::Failed(error@),
    }
}

/// The view of the result of receiving.
pub open spec fn received_model(result: Result<Vec<u8>, ReceiveError>) -> IoModel<Seq<u8>> {
    match result {
        Ok(datagram) => IoModel::Done(datagram@),
        Err(ReceiveError::Timeout) => IoModel::Timeout,
        Err(ReceiveError::Io(error)) => IoModel::Failed(error@),
    }
}

/// A fault of the protocol is an error.
pub open spec fn protocol_failure(error: Seq<char>, sent: int, received: int) -> FailureModel {
    FailureModel {
        status: PhaseStatus::Error,
        detail: "WireGuard protocol error: "@ + error,
        sent,
        received,
    }
}

/// A fault of the local socket is an error.
pub open spec fn local_failure(error: Seq<char>, sent: int, received: int) -> FailureModel {
    FailureModel {
        status: PhaseStatus::Error,
        detail: "local UDP error: "@ + error,
        sent,
        received,
    }
}

/// Silence until the deadline leaves the peer unconfirmed.
pub open spec fn timeout_failure(sent: int, received: int) -> FailureModel {
    FailureModel {
        status: PhaseStatus::Unconfirmed,
        detail: "no authenticated response before the handshake deadline"@,
        sent,
        received,
    }
}

/// A fault of the protocol is an error.
pub fn handshake_protocol(error: &str, sent: u64, received: u64) -> (r: HandshakeFailure)
    ensures
        r@ == protocol_failure(error@, sent as int, received as int),
{
    let mut detail = "WireGuard protocol error: ".to_string();
    detail.append(error);
    HandshakeFailure { status: PhaseStatus::Error, detail, sent, received }
}

/// A fault of the local socket is an error.
pub fn handshake_local(error: &str, sent: u64, received: u64) -> (r: HandshakeFailure)
    ensures
        r@ == local_failure(error@, sent as int, received as int),
{
    let mut detail = "local UDP error: ".to_string();
    detail.append(error);
    HandshakeFailure { status: PhaseStatus::Error, detail, sent, received }
}

/// Silence until the deadline leaves the peer unconfirmed.
pub fn handshake_timeout(sent: u64, received: u64) -> (r: HandshakeFailure)
    ensures
        r@ == timeout_failure(sent as int, received as int),
{
    HandshakeFailure {
        status: PhaseStatus::Unconfirmed,
        detail: "no authenticated response before the handshake deadline".to_string(),
        sent,
        received,
    }
}

/// What a handshake waits for.
#[derive(Clone, Copy, Debug, PartialEq, Eq, Structural)]
pub enum HandshakeStage {
    /// To be started.
    Starting,
    /// The first initiation from the engine.
    Initiating,
    /// The first initiation to be sent.
    SendingInitiation,
    /// A datagram from the peer.
    Receiving,
    /// The engine's judgement on a handshake response.
    Answered,
    /// The first keepalive to be sent.
    SendingKeepalive,
    /// The engine's judgement on a cookie reply.
    Cookie,
    /// Another initiation, with the cookie, from the engine.
    Retrying,
    /// That initiation to be sent.
    SendingRetry,
    /// Nothing any more.
    Over,
}

/// A handshake in progress, with the bytes sent and received so far.
#[derive(Clone, Copy, Debug, PartialEq, Eq, Structural)]
pub struct Handshake {
    pub stage: HandshakeStage,
    pub sent: u64,
    pub received: u64,
}

/// What happened to a handshake.
#[derive(Debug, PartialEq, Eq)]
pub enum HandshakeInput {
    Start,
    Engine(TunnelOutput),
    Sent(Result<u64, SendError>),
    Received(Result<Vec<u8>, ReceiveError>),
}

/// What happened to a handshake, as a mathematical value.
#[verifier::ext_equal]
pub enum HandshakeInputModel {
    Start,
    Engine(TunnelModel),
    Sent(IoModel<int>),
    Received(IoModel<Seq<u8>>),
}

impl View for HandshakeInput {
    type V = HandshakeInputModel;

    open spec fn view(&self) -> HandshakeInputModel {
        match self {
            HandshakeInput::Start => HandshakeInputModel::Start,
            HandshakeInput::Engine(output) => HandshakeInputModel::Engine(output@),
            HandshakeInput::Sent(result) => HandshakeInputModel::Sent(sent_model(*result)),
            HandshakeInput::Received(result) => HandshakeInputModel::Received(
                received_model(*result),
            ),
        }
    }
}

/// What a handshake needs next, or how it ended.
#[derive(Debug, PartialEq, Eq)]
pub enum HandshakeAction {
    /// An initiation from the engine.
    Initiate { force: bool },
    /// The engine's judgement on a datagram.
    Decapsulate(Vec<u8>),
    /// To send a datagram.
    Send(Vec<u8>),
    /// To receive a datagram.
    Receive,
    /// There is a session; the keepalive that confirms it was sent or not.
    Established { sent: u64, received: u64, keepalive: Result<u64, String> },
    /// There is no session.
    Failed(HandshakeFailure),
}

/// What a handshake needs next, as a mathematical value.
#[verifier::ext_equal]
pub enum HandshakeActionModel {
    Initiate { force: bool },
    Decapsulate(Seq<u8>),
    Send(Seq<u8>),
    Receive,
    Established { sent: int, received: int, keepalive: Result<int, Seq<char>> },
    Failed(FailureModel),
}

impl View for HandshakeAction {
    type V = HandshakeActionModel;

    open spec fn view(&self) -> HandshakeActionModel {
        match self {
            HandshakeAction::Initiate { force } => HandshakeActionModel::Initiate { force: *force },
            HandshakeAction::Decapsulate(datagram) => HandshakeActionModel::Decapsulate(datagram@),
            HandshakeAction::Send(datagram) => HandshakeActionModel::Send(datagram@),
            HandshakeAction::Receive => HandshakeActionModel::Receive,
            HandshakeAction::Established { sent, received, keepalive } => {
                HandshakeActionModel::Established {
                    sent: *sent as int,
                    received: *received as int,
                    keepalive: match keepalive {
                        Ok(count) => Ok(*count as int),
                        Err(detail) => Err(detail@),
                    },
                }
            },
            HandshakeAction::Failed(failure) => HandshakeActionModel::Failed(failure@),
        }
    }
}

/// The state after a step, and what is needed next.
pub open spec fn wait(stage: HandshakeStage, sent: int, received: int, action: HandshakeActionModel) -> (
    (HandshakeStage, int, int),
    HandshakeActionModel,
) {
    ((stage, sent, received), action)
}

/// The end of a handshake without a session.
pub open spec fn give_up(failure: FailureModel) -> (
    (HandshakeStage, int, int),
    HandshakeActionModel,
) {
    wait(HandshakeStage::Over, failure.sent, failure.received, HandshakeActionModel::Failed(failure))
}

impl Handshake {
    /// The state as stage, bytes sent and bytes received.
    pub open spec fn state(self) -> (HandshakeStage, int, int) {
        (self.stage, self.sent as int, self.received as int)
    }

    /// Whether the input is one that the stage waits for.
    pub open spec fn expects(stage: HandshakeStage, input: HandshakeInputModel) -> bool {
        match stage {
            HandshakeStage::Starting => input is Start,
            HandshakeStage::Initiating => input is Engine,
            HandshakeStage::SendingInitiation => input is Sent,
            HandshakeStage::Receiving => input is Received,
            HandshakeStage::Answered => input is Engine,
            HandshakeStage::SendingKeepalive => input is Sent,
            HandshakeStage::Cookie => input is Engine,
            HandshakeStage::Retrying => input is Engine,
            HandshakeStage::SendingRetry => input is Sent,
            HandshakeStage::Over => false,
        }
    }

    /// Whether the byte counts can take what the input adds to them.
    pub open spec fn fits(self, input: HandshakeInputModel) -> bool {
        match input {
            HandshakeInputModel::Sent(IoModel::Done(count)) => self.sent + count <= u64::MAX,
            HandshakeInputModel::Received(IoModel::Done(datagram)) => self.received + datagram.len()
                <= u64::MAX,
            _ => true,
        }
    }

    /// The state after an input that the stage waits for, and what is needed next. A response that
    /// the engine accepts establishes the session, a cookie reply that it accepts leads to one
    /// more initiation, other datagrams are ignored, and everything else ends the handshake.
    pub open spec fn advance_spec(
        state: (HandshakeStage, int, int),
        input: HandshakeInputModel,
    ) -> ((HandshakeStage, int, int), HandshakeActionModel) {
        let (stage, sent, received) = state;
        match (stage, input) {
            (HandshakeStage::Starting, _) => wait(
                HandshakeStage::Initiating,
                sent,
                received,
                HandshakeActionModel::Initiate { force: false },
            ),
            (HandshakeStage::Initiating, HandshakeInputModel::Engine(output)) => match output {
                TunnelModel::Network(packet) => wait(
                    HandshakeStage::SendingInitiation,
                    sent,
                    received,
                    HandshakeActionModel::Send(packet),
                ),
                TunnelModel::Failed(error) => give_up(protocol_failure(error, sent, received)),
                _ => give_up(
                    protocol_failure("\"no handshake initiation was produced\""@, sent, received),
                ),
            },
            (HandshakeStage::Receiving, HandshakeInputModel::Received(result)) => match result {
                IoModel::Done(datagram) => {
                    let received = received + datagram.len();
                    match packet_kind_spec(datagram) {
                        PacketKind::Response => wait(
                            HandshakeStage::Answered,
                            sent,
                            received,
                            HandshakeActionModel::Decapsulate(datagram),
                        ),
                        PacketKind::CookieReply => wait(
                            HandshakeStage::Cookie,
                            sent,
                            received,
                            HandshakeActionModel::Decapsulate(datagram),
                        ),
                        _ => wait(
                            HandshakeStage::Receiving,
                            sent,
                            received,
                            HandshakeActionModel::Receive,
                        ),
                    }
                },
                IoModel::Timeout => give_up(timeout_failure(sent, received)),
                IoModel::Failed(error) => give_up(local_failure(error, sent, received)),
            },
            (HandshakeStage::Answered, HandshakeInputModel::Engine(output)) => match output {
                TunnelModel::Network(packet) => wait(
                    HandshakeStage::SendingKeepalive,
                    sent,
                    received,
                    HandshakeActionModel::Send(packet),
                ),
                TunnelModel::Failed(error) => give_up(protocol_failure(error, sent, received)),
                _ => give_up(
                    protocol_failure(
                        "\"handshake response did not establish a session\""@,
                        sent,
                        received,
                    ),
                ),
            },
            (HandshakeStage::SendingKeepalive, HandshakeInputModel::Sent(result)) => wait(
                HandshakeStage::Over,
                sent,
                received,
                HandshakeActionModel::Established {
                    sent,
                    received,
                    keepalive: match result {
                        IoModel::Done(count) => Ok(count),
                        IoModel::Timeout => Err(
                            "handshake deadline expired before initial keepalive"@,
                        ),
                        IoModel::Failed(error) => Err("could not send initial keepalive: "@ + error),
                    },
                },
            ),
            (HandshakeStage::Cookie, HandshakeInputModel::Engine(output)) => match output {
                TunnelModel::Done => wait(
                    HandshakeStage::Retrying,
                    sent,
                    received,
                    HandshakeActionModel::Initiate { force: true },
                ),
                TunnelModel::Failed(error) => give_up(protocol_failure(error, sent, received)),
                _ => give_up(protocol_failure("\"invalid cookie reply\""@, sent, received)),
            },
            (HandshakeStage::Retrying, HandshakeInputModel::Engine(output)) => match output {
                TunnelModel::Network(packet) => wait(
                    HandshakeStage::SendingRetry,
                    sent,
                    received,
                    HandshakeActionModel::Send(packet),
                ),
                TunnelModel::Failed(error) => give_up(protocol_failure(error, sent, received)),
                _ => give_up(
                    protocol_failure(
                        "\"no cookie-authenticated retry was produced\""@,
                        sent,
                        received,
                    ),
                ),
            },
            (_, HandshakeInputModel::Sent(result)) => match result {
                IoModel::Done(count) => wait(
                    HandshakeStage::Receiving,
                    sent + count,
                    received,
                    HandshakeActionModel::Receive,
                ),
                IoModel::Timeout => give_up(timeout_failure(sent, received)),
                IoModel::Failed(error) => give_up(local_failure(error, sent, received)),
            },
            _ => (state, HandshakeActionModel::Receive),
        }
    }

    /// A handshake to be started.
    pub fn new() -> (r: Handshake)
        ensures
            r.state() == (HandshakeStage::Starting, 0int, 0int),
    {
        Handshake { stage: HandshakeStage::Starting, sent: 0, received: 0 }
    }

    fn fail(&mut self, failure: HandshakeFailure) -> (r: HandshakeAction)
        requires
            failure.sent == old(self).sent,
            failure.received == old(self).received,
        ensures
            (final(self).state(), r@) == give_up(failure@),
    {
        self.stage = HandshakeStage::Over;
        HandshakeAction::Failed(failure)
    }

    fn on_engine(&mut self, output: TunnelOutput) -> (r: HandshakeAction)
        requires
            Handshake::expects(old(self).stage, HandshakeInputModel::Engine(output@)),
        ensures
            (final(self).state(), r@) == Handshake::advance_spec(
                old(self).state(),
                HandshakeInputModel::Engine(output@),
            ),
    {
        match self.stage {
            HandshakeStage::Initiating => match output {
                TunnelOutput::Network(packet) => {
                    self.stage = HandshakeStage::SendingInitiation;
                    HandshakeAction::Send(packet)
                },
                TunnelOutput::Failed(error) => self.fail(
                    handshake_protocol(error.as_str(), self.sent, self.received),
                ),
                _ => self.fail(
                    handshake_protocol(
                        "\"no handshake initiation was produced\"",
                        self.sent,
                        self.received,
                    ),
                ),
            },
            HandshakeStage::Answered => match output {
                TunnelOutput::Network(packet) => {
                    self.stage = HandshakeStage::SendingKeepalive;
                    HandshakeAction::Send(packet)
                },
                TunnelOutput::Failed(error) => self.fail(
                    handshake_protocol(error.as_str(), self.sent, self.received),
                ),
                _ => self.fail(
                    handshake_protocol(
                        "\"handshake response did not establish a session\"",
                        self.sent,
                        self.received,
                    ),
                ),
            },
            HandshakeStage::Cookie => match output {
                TunnelOutput::Done => {
                    self.stage = HandshakeStage::Retrying;
                    HandshakeAction::Initiate { force: true }
                },
                TunnelOutput::Failed(error) => self.fail(
                    handshake_protocol(error.as_str(), self.sent, self.received),
                ),
                _ => self.fail(
                    handshake_protocol("\"invalid cookie reply\"", self.sent, self.received),
                ),
            },
            _ => match output {
                TunnelOutput::Network(packet) => {
                    self.stage = HandshakeStage::SendingRetry;
                    HandshakeAction::Send(packet)
                },
                TunnelOutput::Failed(error) => self.fail(
                    handshake_protocol(error.as_str(), self.sent, self.received),
                ),
                _ => self.fail(
                    handshake_protocol(
                        "\"no cookie-authenticated retry was produced\"",
                        self.sent,
                        self.received,
                    ),
                ),
            },
        }
    }

    fn on_sent(&mut self, result: Result<u64, SendError>) -> (r: HandshakeAction)
        requires
            Handshake::expects(old(self).stage, HandshakeInputModel::Sent(sent_model(result))),
            old(self).fits(HandshakeInputModel::Sent(sent_model(result))),
        ensures
            (final(self).state(), r@) == Handshake::advance_spec(
                old(self).state(),
                HandshakeInputModel::Sent(sent_model(result)),
            ),
    {
        if self.stage == HandshakeStage::SendingKeepalive {
            self.stage = HandshakeStage::Over;
            let keepalive = match result {
                Ok(count) => Ok(count),
                Err(SendError::Timeout) => Err(
                    "handshake deadline expired before initial keepalive".to_string(),
                ),
                Err(SendError::Io(error)) => {
                    let mut detail = "could not send initial keepalive: ".to_string();
                    detail.append(error.as_str());
                    Err(detail)
                },
            };
            return HandshakeAction::Established {
                sent: self.sent,
                received: self.received,
                keepalive,
            };
        }
        match result {
            Ok(count) => {
                self.stage = HandshakeStage::Receiving;
                self.sent = self.sent + count;
                HandshakeAction::Receive
            },
            Err(SendError::Timeout) => self.fail(handshake_timeout(self.sent, self.received)),
            Err(SendError::Io(error)) => self.fail(
                handshake_local(error.as_str(), self.sent, self.received),
            ),
        }
    }

    fn on_received(&mut self, result: Result<Vec<u8>, ReceiveError>) -> (r: HandshakeAction)
        requires
            old(self).stage == HandshakeStage::Receiving,
            old(self).fits(HandshakeInputModel::Received(received_model(result))),
        ensures
            (final(self).state(), r@) == Handshake::advance_spec(
                old(self).state(),
                HandshakeInputModel::Received(received_model(result)),
            ),
    {
        match result {
            Ok(datagram) => {
                self.received = self.received + datagram.len() as u64;
                match packet_kind(&datagram) {
                    PacketKind::Response => {
                        self.stage = HandshakeStage::Answered;
                        HandshakeAction::Decapsulate(datagram)
                    },
                    PacketKind::CookieReply => {
                        self.stage = HandshakeStage::Cookie;
                        HandshakeAction::Decapsulate(datagram)
                    },
                    _ => HandshakeAction::Receive,
                }
            },
            Err(ReceiveError::Timeout) => self.fail(handshake_timeout(self.sent, self.received)),
            Err(ReceiveError::Io(error)) => self.fail(
                handshake_local(error.as_str(), self.sent, self.received),
            ),
        }
    }

    /// Takes an input that the stage waits for, and says what is needed next.
    pub fn advance(&mut self, input: HandshakeInput) -> (r: HandshakeAction)
        requires
            Handshake::expects(old(self).stage, input@),
            old(self).fits(input@),
        ensures
            (final(self).state(), r@) == Handshake::advance_spec(old(self).state(), input@),
    {
        match input {
            HandshakeInput::Start => {
                self.stage = HandshakeStage::Initiating;
                HandshakeAction::Initiate { force: false }
            },
            HandshakeInput::Engine(output) => self.on_engine(output),
            HandshakeInput::Sent(result) => self.on_sent(result),
            HandshakeInput::Received(result) => self.on_received(result),
        }
    }
}

impl HandshakeActionModel {
    /// Whether the engine is asked.
    pub open spec fn asks_engine(self) -> bool {
        self is Initiate || self is Decapsulate
    }

    /// Whether the engine may answer so.
    pub open spec fn may_answer(self, output: TunnelModel) -> bool {
        match self {
            HandshakeActionModel::Initiate { force } => answers_initiation(force, output),
            HandshakeActionModel::Decapsulate(datagram) => answers_decryption(datagram, output),
            _ => false,
        }
    }

    /// What the engine is asked, where datagrams come from the given address.
    pub open spec fn question(self, from: IpModel) -> Question {
        match self {
            HandshakeActionModel::Decapsulate(datagram) => Question::Decapsulate { from, datagram },
            HandshakeActionModel::Initiate { force } => Question::Initiate { force },
            _ => arbitrary(),
        }
    }
}

impl Handshake {
    /// The state after an input and what is needed then, where `talk` is what the engine is asked
    /// meanwhile and what it answers: just the questions that come up, each with an answer that may
    /// come.
    pub open spec fn run_spec(
        state: (HandshakeStage, int, int),
        from: IpModel,
        input: HandshakeInputModel,
        talk: Seq<(Question, TunnelModel)>,
    ) -> Option<((HandshakeStage, int, int), HandshakeActionModel)>
        decreases talk.len(),
    {
        let (next, action) = Self::advance_spec(state, input);
        if !action.asks_engine() {
            if talk.len() == 0 {
                Some((next, action))
            } else {
                None
            }
        } else if talk.len() == 0 || talk[0].0 != action.question(from) || !action.may_answer(
            talk[0].1,
        ) {
            None
        } else {
            Self::run_spec(next, from, HandshakeInputModel::Engine(talk[0].1), talk.drop_first())
        }
    }

    /// How many questions to the engine can follow an input, at most.
    pub open spec fn rank(stage: HandshakeStage) -> int {
        match stage {
            HandshakeStage::Starting => 3,
            HandshakeStage::Receiving => 3,
            HandshakeStage::Cookie => 2,
            HandshakeStage::Initiating => 1,
            HandshakeStage::Answered => 1,
            HandshakeStage::Retrying => 1,
            _ => 0,
        }
    }

    /// Takes an input, asks the engine what it has to decide, and says which I/O is needed next.
    /// The engine is asked what `run_spec` has it asked and nothing else, and whatever it answers,
    /// the result is what `run_spec` gives for these answers.
    pub fn drive(&mut self, tunnel: &mut Tunnel, from: IpAddr, input: HandshakeInput) -> (r:
        HandshakeAction)
        requires
            Handshake::expects(old(self).stage, input@),
            old(self).fits(input@),
            input@ matches HandshakeInputModel::Received(IoModel::Done(datagram)) ==> datagram.len()
                <= BUFFER_SIZE,
        ensures
            old(tunnel).asked().is_prefix_of(final(tunnel).asked()),
            Handshake::run_spec(
                old(self).state(),
                from@,
                input@,
                final(tunnel).asked().skip(old(tunnel).asked().len() as int),
            ) == Some((final(self).state(), r@)),
            !Handshake::advance_spec(old(self).state(), input@).1.asks_engine() ==> (
                final(self).state(),
                r@,
            ) == Handshake::advance_spec(old(self).state(), input@),
            final(tunnel).keys() == old(tunnel).keys(),
        decreases Handshake::rank(old(self).stage),
    {
        let ghost before = tunnel.asked();
        let action = self.advance(input);
        let output = match action {
            HandshakeAction::Initiate { force } => tunnel.initiate(force),
            HandshakeAction::Decapsulate(datagram) => tunnel.decapsulate(from, &datagram),
            other => {
                assert(tunnel.asked().skip(before.len() as int) =~= Seq::empty());
                return other;
            },
        };
        let ghost asked = tunnel.asked();
        let result = self.drive(tunnel, from, HandshakeInput::Engine(output));
        proof {
            let talk = tunnel.asked().skip(before.len() as int);
            assert(asked.len() == before.len() + 1);
            assert(tunnel.asked()[before.len() as int] == asked[before.len() as int]);
            assert(talk[0] == asked.last());
            assert(talk.drop_first() =~= tunnel.asked().skip(asked.len() as int));
        }
        result
    }
}

/// The reply that a data check looks for.
#[derive(Debug, PartialEq, Eq)]
pub enum Expectation {
    Echo { source: Ipv4Addr, destination: Ipv4Addr, echo_id: u16, sequence: u16 },
    Dns {
        server: Ipv4Addr,
        client: Ipv4Addr,
        client_port: u16,
        transaction_id: u16,
        name: String,
    },
}

/// The reply that a data check looks for, as a mathematical value.
#[verifier::ext_equal]
pub enum ExpectationModel {
    Echo { source: Ipv4Addr, destination: Ipv4Addr, echo_id: u16, sequence: u16 },
    Dns {
        server: Ipv4Addr,
        client: Ipv4Addr,
        client_port: u16,
        transaction_id: u16,
        name: Seq<char>,
    },
}

impl View for Expectation {
    type V = ExpectationModel;

    open spec fn view(&self) -> ExpectationModel {
        match self {
            Expectation::Echo { source, destination, echo_id, sequence } => ExpectationModel::Echo {
                source: *source,
                destination: *destination,
                echo_id: *echo_id,
                sequence: *sequence,
            },
            Expectation::Dns { server, client, client_port, transaction_id, name } => {
                ExpectationModel::Dns {
                    server: *server,
                    client: *client,
                    client_port: *client_port,
                    transaction_id: *transaction_id,
                    name: name@,
                }
            },
        }
    }
}

impl ExpectationModel {
    /// The addresses that a matching reply brings: those of a DNS answer, none for an echo.
    pub open spec fn answers(self, packet: Seq<u8>) -> Option<Seq<Ipv4Addr>> {
        match self {
            ExpectationModel::Echo { source, destination, echo_id, sequence } => {
                if is_echo_reply_spec(packet, source, destination, echo_id, sequence) {
                    Some(Seq::empty())
                } else {
                    None
                }
            },
            ExpectationModel::Dns { server, client, client_port, transaction_id, name } => {
                parse_dns_a_response_spec(packet, server, client, client_port, transaction_id, name)
            },
        }
    }
}

impl Expectation {
    /// The addresses that a matching reply brings.
    pub fn answers(&self, packet: &[u8]) -> (r: Option<Vec<Ipv4Addr>>)
        ensures
            match r {
                Some(list) => self@.answers(packet@) == Some(list@),
                None => self@.answers(packet@) is None,
            },
    {
        match self {
            Expectation::Echo { source, destination, echo_id, sequence } => {
                if is_icmp_echo_reply(packet, *source, *destination, *echo_id, *sequence) {
                    let none: Vec<Ipv4Addr> = Vec::new();
                    assert(none@ =~= Seq::empty());
                    Some(none)
                } else {
                    None
                }
            },
            Expectation::Dns { server, client, client_port, transaction_id, name } => {
                parse_dns_a_response(
                    packet,
                    *server,
                    *client,
                    *client_port,
                    *transaction_id,
                    name.as_str(),
                )
            },
        }
    }
}

/// How a data check ended.
#[derive(Debug, PartialEq, Eq)]
pub enum CheckOutcome {
    Passed { sent: u64, received: u64, answers: Vec<Ipv4Addr> },
    Unconfirmed { sent: u64, received: u64 },
    Error { detail: String, sent: u64, received: u64 },
}

/// How a data check ended, as a mathematical value.
#[verifier::ext_equal]
pub enum OutcomeModel {
    Passed { sent: int, received: int, answers: Seq<Ipv4Addr> },
    Unconfirmed { sent: int, received: int },
    Error { detail: Seq<char>, sent: int, received: int },
}

impl View for CheckOutcome {
    type V = OutcomeModel;

    open spec fn view(&self) -> OutcomeModel {
        match self {
            CheckOutcome::Passed { sent, received, answers } => OutcomeModel::Passed {
                sent: *sent as int,
                received: *received as int,
                answers: answers@,
            },
            CheckOutcome::Unconfirmed { sent, received } => OutcomeModel::Unconfirmed {
                sent: *sent as int,
                received: *received as int,
            },
            CheckOutcome::Error { detail, sent, received } => OutcomeModel::Error {
                detail: detail@,
                sent: *sent as int,
                received: *received as int,
            },
        }
    }
}

/// What a data check waits for.
#[derive(Clone, Copy, Debug, PartialEq, Eq, Structural)]
pub enum CheckStage {
    /// To be started.
    Starting,
    /// The encrypted packet from the engine.
    Encrypting,
    /// The encrypted packet to be sent.
    Sending,
    /// A datagram from the peer.
    Receiving,
    /// The engine's judgement on a datagram.
    Decrypting,
    /// A protocol message to be sent.
    Forwarding,
    /// Nothing any more.
    Over,
}

/// A data check in progress, with the bytes sent and received so far.
#[derive(Clone, Copy, Debug, PartialEq, Eq, Structural)]
pub struct Check {
    pub stage: CheckStage,
    pub sent: u64,
    pub received: u64,
}

/// What happened to a data check.
#[derive(Debug, PartialEq, Eq)]
pub enum CheckInput {
    /// It starts, before or after its deadline.
    Start { expired: bool },
    Engine(TunnelOutput),
    Sent(Result<u64, SendError>),
    Received(Result<Vec<u8>, ReceiveError>),
}

/// What happened to a data check, as a mathematical value.
#[verifier::ext_equal]
pub enum CheckInputModel {
    Start { expired: bool },
    Engine(TunnelModel),
    Sent(IoModel<int>),
    Received(IoModel<Seq<u8>>),
}

impl View for CheckInput {
    type V = CheckInputModel;

    open spec fn view(&self) -> CheckInputModel {
        match self {
            CheckInput::Start { expired } => CheckInputModel::Start { expired: *expired },
            CheckInput::Engine(output) => CheckInputModel::Engine(output@),
            CheckInput::Sent(result) => CheckInputModel::Sent(sent_model(*result)),
            CheckInput::Received(result) => CheckInputModel::Received(received_model(*result)),
        }
    }
}

/// What a data check needs next, or how it ended.
#[derive(Debug, PartialEq, Eq)]
pub enum CheckAction {
    /// The check's packet encrypted by the engine.
    Encapsulate,
    /// The engine's judgement on a datagram.
    Decapsulate(Vec<u8>),
    /// To send a datagram.
    Send(Vec<u8>),
    /// To receive a datagram.
    Receive,
    /// Nothing: the check has ended.
    Ended(CheckOutcome),
}

/// What a data check needs next, as a mathematical value.
#[verifier::ext_equal]
pub enum CheckActionModel {
    Encapsulate,
    Decapsulate(Seq<u8>),
    Send(Seq<u8>),
    Receive,
    Ended(OutcomeModel),
}

impl View for CheckAction {
    type V = CheckActionModel;

    open spec fn view(&self) -> CheckActionModel {
        match self {
            CheckAction::Encapsulate => CheckActionModel::Encapsulate,
            CheckAction::Decapsulate(datagram) => CheckActionModel::Decapsulate(datagram@),
            CheckAction::Send(datagram) => CheckActionModel::Send(datagram@),
            CheckAction::Receive => CheckActionModel::Receive,
            CheckAction::Ended(outcome) => CheckActionModel::Ended(outcome@),
        }
    }
}

impl CheckActionModel {
    /// Whether the engine is asked.
    pub open spec fn asks_engine(self) -> bool {
        self is Encapsulate || self is Decapsulate
    }

    /// Whether the engine may answer so, where `packet` is the packet of the check.
    pub open spec fn may_answer(self, packet: Seq<u8>, output: TunnelModel) -> bool {
        match self {
            CheckActionModel::Encapsulate => answers_encryption(packet, output),
            CheckActionModel::Decapsulate(datagram) => answers_decryption(datagram, output),
            _ => false,
        }
    }

    /// Whether the engine is not asked because a counter is used up.
    pub open spec fn fails_at_once(self) -> bool {
        self matches CheckActionModel::Decapsulate(datagram) && is_exhausted(datagram)
    }

    /// What the engine is asked, where `packet` is the packet of the check and datagrams come from
    /// the given address.
    pub open spec fn question(self, packet: Seq<u8>, from: IpModel) -> Question {
        match self {
            CheckActionModel::Encapsulate => Question::Encapsulate { packet },
            CheckActionModel::Decapsulate(datagram) => Question::Decapsulate { from, datagram },
            _ => arbitrary(),
        }
    }
}

/// The end of a data check without a reply.
pub open spec fn check_silent(sent: int, received: int) -> ((CheckStage, int, int), CheckActionModel) {
    (
        (CheckStage::Over, sent, received),
        CheckActionModel::Ended(OutcomeModel::Unconfirmed { sent, received }),
    )
}

/// The end of a data check by an error.
pub open spec fn check_error(detail: Seq<char>, sent: int, received: int) -> (
    (CheckStage, int, int),
    CheckActionModel,
) {
    (
        (CheckStage::Over, sent, received),
        CheckActionModel::Ended(OutcomeModel::Error { detail, sent, received }),
    )
}

impl Check {
    /// The state as stage, bytes sent and bytes received.
    pub open spec fn state(self) -> (CheckStage, int, int) {
        (self.stage, self.sent as int, self.received as int)
    }

    /// Whether the input is one that the stage waits for.
    pub open spec fn expects(stage: CheckStage, input: CheckInputModel) -> bool {
        match stage {
            CheckStage::Starting => input is Start,
            CheckStage::Encrypting => input is Engine,
            CheckStage::Sending => input is Sent,
            CheckStage::Receiving => input is Received,
            CheckStage::Decrypting => input is Engine,
            CheckStage::Forwarding => input is Sent,
            CheckStage::Over => false,
        }
    }

    /// Whether the byte counts can take what the input adds to them.
    pub open spec fn fits(self, input: CheckInputModel) -> bool {
        match input {
            CheckInputModel::Sent(IoModel::Done(count)) => self.sent + count <= u64::MAX,
            CheckInputModel::Received(IoModel::Done(datagram)) => self.received + datagram.len()
                <= u64::MAX,
            _ => true,
        }
    }

    /// The state after an input that the stage waits for, and what is needed next. A decrypted
    /// IPv4 packet that matches ends the check; what the engine wants sent is sent; other packets
    /// are ignored; and every failure ends the check.
    pub open spec fn advance_spec(
        state: (CheckStage, int, int),
        expectation: ExpectationModel,
        input: CheckInputModel,
    ) -> ((CheckStage, int, int), CheckActionModel) {
        let (stage, sent, received) = state;
        match (stage, input) {
            (CheckStage::Starting, CheckInputModel::Start { expired }) => if expired {
                check_silent(sent, received)
            } else {
                ((CheckStage::Encrypting, sent, received), CheckActionModel::Encapsulate)
            },
            (CheckStage::Encrypting, CheckInputModel::Engine(output)) => match output {
                TunnelModel::Network(packet) => (
                    (CheckStage::Sending, sent, received),
                    CheckActionModel::Send(packet),
                ),
                TunnelModel::Failed(error) => check_error(
                    "WireGuard encapsulation error: "@ + error,
                    sent,
                    received,
                ),
                _ => check_error(
                    "WireGuard session did not encrypt the data packet"@,
                    sent,
                    received,
                ),
            },
            (CheckStage::Sending, CheckInputModel::Sent(result)) => match result {
                IoModel::Done(count) => (
                    (CheckStage::Receiving, sent + count, received),
                    CheckActionModel::Receive,
                ),
                IoModel::Timeout => check_silent(sent, received),
                IoModel::Failed(error) => check_error(
                    "could not send encrypted packet: "@ + error,
                    sent,
                    received,
                ),
            },
            (CheckStage::Receiving, CheckInputModel::Received(result)) => match result {
                IoModel::Done(datagram) => (
                    (CheckStage::Decrypting, sent, received + datagram.len()),
                    CheckActionModel::Decapsulate(datagram),
                ),
                IoModel::Timeout => check_silent(sent, received),
                IoModel::Failed(error) => check_error(
                    "could not receive encrypted response: "@ + error,
                    sent,
                    received,
                ),
            },
            (CheckStage::Decrypting, CheckInputModel::Engine(output)) => match output {
                TunnelModel::PacketV4(packet) => match expectation.answers(packet) {
                    Some(answers) => (
                        (CheckStage::Over, sent, received),
                        CheckActionModel::Ended(OutcomeModel::Passed { sent, received, answers }),
                    ),
                    None => ((CheckStage::Receiving, sent, received), CheckActionModel::Receive),
                },
                TunnelModel::Network(packet) => (
                    (CheckStage::Forwarding, sent, received),
                    CheckActionModel::Send(packet),
                ),
                TunnelModel::Failed(error) => check_error(
                    "WireGuard decapsulation error: "@ + error,
                    sent,
                    received,
                ),
                _ => ((CheckStage::Receiving, sent, received), CheckActionModel::Receive),
            },
            (CheckStage::Forwarding, CheckInputModel::Sent(result)) => match result {
                IoModel::Done(count) => (
                    (CheckStage::Receiving, sent + count, received),
                    CheckActionModel::Receive,
                ),
                IoModel::Timeout => check_silent(sent, received),
                IoModel::Failed(error) => check_error(
                    "could not send WireGuard protocol packet: "@ + error,
                    sent,
                    received,
                ),
            },
            _ => (state, CheckActionModel::Receive),
        }
    }

    /// A data check to be started.
    pub fn new() -> (r: Check)
        ensures
            r.state() == (CheckStage::Starting, 0int, 0int),
    {
        Check { stage: CheckStage::Starting, sent: 0, received: 0 }
    }

    fn silent(&mut self) -> (r: CheckAction)
        ensures
            (final(self).state(), r@) == check_silent(
                old(self).sent as int,
                old(self).received as int,
            ),
    {
        self.stage = CheckStage::Over;
        CheckAction::Ended(CheckOutcome::Unconfirmed { sent: self.sent, received: self.received })
    }

    fn error(&mut self, message: &str, error: &str) -> (r: CheckAction)
        ensures
            (final(self).state(), r@) == check_error(
                message@ + error@,
                old(self).sent as int,
                old(self).received as int,
            ),
    {
        self.stage = CheckStage::Over;
        let mut detail = message.to_string();
        detail.append(error);
        CheckAction::Ended(
            CheckOutcome::Error { detail, sent: self.sent, received: self.received },
        )
    }

    fn on_engine(&mut self, expectation: &Expectation, output: TunnelOutput) -> (r: CheckAction)
        requires
            Check::expects(old(self).stage, CheckInputModel::Engine(output@)),
        ensures
            (final(self).state(), r@) == Check::advance_spec(
                old(self).state(),
                expectation@,
                CheckInputModel::Engine(output@),
            ),
    {
        if self.stage == CheckStage::Encrypting {
            match output {
                TunnelOutput::Network(packet) => {
                    self.stage = CheckStage::Sending;
                    CheckAction::Send(packet)
                },
                TunnelOutput::Failed(error) => self.error(
                    "WireGuard encapsulation error: ",
                    error.as_str(),
                ),
                _ => {
                    self.stage = CheckStage::Over;
                    CheckAction::Ended(
                        CheckOutcome::Error {
                            detail: "WireGuard session did not encrypt the data packet".to_string(),
                            sent: self.sent,
                            received: self.received,
                        },
                    )
                },
            }
        } else {
            match output {
                TunnelOutput::PacketV4(packet) => match expectation.answers(&packet) {
                    Some(answers) => {
                        self.stage = CheckStage::Over;
                        CheckAction::Ended(
                            CheckOutcome::Passed {
                                sent: self.sent,
                                received: self.received,
                                answers,
                            },
                        )
                    },
                    None => {
                        self.stage = CheckStage::Receiving;
                        CheckAction::Receive
                    },
                },
                TunnelOutput::Network(packet) => {
                    self.stage = CheckStage::Forwarding;
                    CheckAction::Send(packet)
                },
                TunnelOutput::Failed(error) => self.error(
                    "WireGuard decapsulation error: ",
                    error.as_str(),
                ),
                _ => {
                    self.stage = CheckStage::Receiving;
                    CheckAction::Receive
                },
            }
        }
    }

    fn on_sent(&mut self, result: Result<u64, SendError>) -> (r: CheckAction)
        requires
            Check::expects(old(self).stage, CheckInputModel::Sent(sent_model(result))),
            old(self).fits(CheckInputModel::Sent(sent_model(result))),
        ensures
            forall|e: ExpectationModel|
                (final(self).state(), r@) == #[trigger] Check::advance_spec(
                    old(self).state(),
                    e,
                    CheckInputModel::Sent(sent_model(result)),
                ),
    {
        match result {
            Ok(count) => {
                self.stage = CheckStage::Receiving;
                self.sent = self.sent + count;
                CheckAction::Receive
            },
            Err(SendError::Timeout) => self.silent(),
            Err(SendError::Io(error)) => if self.stage == CheckStage::Sending {
                self.error("could not send encrypted packet: ", error.as_str())
            } else {
                self.error("could not send WireGuard protocol packet: ", error.as_str())
            },
        }
    }

    /// Takes an input that the stage waits for, and says what is needed next.
    pub fn advance(&mut self, expectation: &Expectation, input: CheckInput) -> (r: CheckAction)
        requires
            Check::expects(old(self).stage, input@),
            old(self).fits(input@),
        ensures
            (final(self).state(), r@) == Check::advance_spec(
                old(self).state(),
                expectation@,
                input@,
            ),
    {
        match input {
            CheckInput::Start { expired } => if expired {
                self.silent()
            } else {
                self.stage = CheckStage::Encrypting;
                CheckAction::Encapsulate
            },
            CheckInput::Engine(output) => self.on_engine(expectation, output),
            CheckInput::Sent(result) => self.on_sent(result),
            CheckInput::Received(result) => match result {
                Ok(datagram) => {
                    self.stage = CheckStage::Decrypting;
                    self.received = self.received + datagram.len() as u64;
                    CheckAction::Decapsulate(datagram)
                },
                Err(ReceiveError::Timeout) => self.silent(),
                Err(ReceiveError::Io(error)) => self.error(
                    "could not receive encrypted response: ",
                    error.as_str(),
                ),
            },
        }
    }

    /// The state after an input and what is needed then, where `talk` is what the engine is asked
    /// meanwhile and what it answers: the question that comes up, if one does, with an answer that
    /// may come. A data message with a counter that is used up fails without a question.
    pub open spec fn run_spec(
        state: (CheckStage, int, int),
        from: IpModel,
        packet: Seq<u8>,
        expectation: ExpectationModel,
        input: CheckInputModel,
        talk: Seq<(Question, TunnelModel)>,
    ) -> Option<((CheckStage, int, int), CheckActionModel)> {
        let (next, action) = Self::advance_spec(state, expectation, input);
        if !action.asks_engine() {
            if talk.len() == 0 {
                Some((next, action))
            } else {
                None
            }
        } else if action.fails_at_once() {
            if talk.len() == 0 {
                Some(
                    Self::advance_spec(
                        next,
                        expectation,
                        CheckInputModel::Engine(exhausted_answer()),
                    ),
                )
            } else {
                None
            }
        } else if talk.len() != 1 || talk[0].0 != action.question(packet, from)
            || !action.may_answer(packet, talk[0].1) {
            None
        } else {
            Some(Self::advance_spec(next, expectation, CheckInputModel::Engine(talk[0].1)))
        }
    }

    /// Takes an input, asks the engine what it has to decide, and says which I/O is needed next.
    /// The engine is asked what `run_spec` has it asked and nothing else, and whatever it answers,
    /// the result is what `run_spec` gives for this answer.
    pub fn drive(
        &mut self,
        tunnel: &mut Tunnel,
        from: IpAddr,
        packet: &[u8],
        expectation: &Expectation,
        input: CheckInput,
    ) -> (r: CheckAction)
        requires
            Check::expects(old(self).stage, input@),
            old(self).fits(input@),
            !(input@ is Engine),
            packet@.len() + 32 <= BUFFER_SIZE,
            input@ matches CheckInputModel::Received(IoModel::Done(datagram)) ==> datagram.len()
                <= BUFFER_SIZE,
        ensures
            old(tunnel).asked().is_prefix_of(final(tunnel).asked()),
            Check::run_spec(
                old(self).state(),
                from@,
                packet@,
                expectation@,
                input@,
                final(tunnel).asked().skip(old(tunnel).asked().len() as int),
            ) == Some((final(self).state(), r@)),
            !Check::advance_spec(old(self).state(), expectation@, input@).1.asks_engine() ==> (
                final(self).state(),
                r@,
            ) == Check::advance_spec(old(self).state(), expectation@, input@),
            final(tunnel).keys() == old(tunnel).keys(),
    {
        let ghost before = tunnel.asked();
        let action = self.advance(expectation, input);
        let output = match action {
            CheckAction::Encapsulate => tunnel.encapsulate(packet),
            CheckAction::Decapsulate(datagram) => tunnel.decapsulate(from, &datagram),
            other => {
                assert(tunnel.asked().skip(before.len() as int) =~= Seq::empty());
                return other;
            },
        };
        proof {
            let talk = tunnel.asked().skip(before.len() as int);
            if tunnel.asked() == before {
                assert(talk =~= Seq::empty());
            } else {
                assert(talk =~= seq![tunnel.asked().last()]);
            }
        }
        self.advance(expectation, CheckInput::Engine(output))
    }
}

/// Every way that a handshake ends without a session leaves the byte counts as they were. Only
/// silence until the deadline leaves the peer unconfirmed: a fault of the local socket is an error,
/// and so is an answer of the engine that fails or cannot be used.
pub proof fn only_silence_leaves_unconfirmed(
    state: (HandshakeStage, int, int),
    input: HandshakeInputModel,
)
    requires
        Handshake::expects(state.0, input),
    ensures
        Handshake::advance_spec(state, input).1 matches HandshakeActionModel::Failed(failure) ==> {
            &&& (failure.status == PhaseStatus::Unconfirmed || failure.status == PhaseStatus::Error)
            &&& (failure.status == PhaseStatus::Unconfirmed <==> (match input {
                HandshakeInputModel::Sent(result) => result is Timeout,
                HandshakeInputModel::Received(result) => result is Timeout,
                _ => false,
            }))
            &&& (input is Engine ==> failure.status == PhaseStatus::Error)
            &&& failure.sent == state.1
            &&& failure.received == state.2
        },
{
}

/// A session needs the engine's consent: it is only reported after the engine has answered a
/// handshake response with a datagram to send, and that datagram was tried.
pub proof fn session_needs_accepted_response(
    state: (HandshakeStage, int, int),
    input: HandshakeInputModel,
)
    requires
        Handshake::expects(state.0, input),
    ensures
        Handshake::advance_spec(state, input).1 is Established ==> state.0
            == HandshakeStage::SendingKeepalive,
        (Handshake::advance_spec(state, input).0).0 == HandshakeStage::SendingKeepalive ==> state.0
            == HandshakeStage::Answered && (input matches HandshakeInputModel::Engine(
            TunnelModel::Network(_),
        )),
        (Handshake::advance_spec(state, input).0).0 == HandshakeStage::Answered ==> (
        input matches HandshakeInputModel::Received(IoModel::Done(datagram)) && packet_kind_spec(
            datagram,
        ) == PacketKind::Response),
{
}

/// A data check passes only by a decrypted IPv4 packet that matches, and one that starts after its
/// deadline sends nothing.
pub proof fn check_passes_only_by_matching_reply(
    state: (CheckStage, int, int),
    expectation: ExpectationModel,
    input: CheckInputModel,
)
    requires
        Check::expects(state.0, input),
    ensures
        Check::advance_spec(state, expectation, input).1 matches CheckActionModel::Ended(
            OutcomeModel::Passed { sent, received, answers },
        ) ==> (input matches CheckInputModel::Engine(TunnelModel::PacketV4(packet))
            && expectation.answers(packet) == Some(answers)),
        input == (CheckInputModel::Start { expired: true }) ==> Check::advance_spec(
            state,
            expectation,
            input,
        ).1 == CheckActionModel::Ended(
            OutcomeModel::Unconfirmed { sent: state.1, received: state.2 },
        ),
{
}

} // verus!
