//! The WireGuard protocol engine: what it is asked, and what it answers. Every question goes through
//! the functions here, and nothing else writes the record of them.
use crate::net::{IpAddr, IpModel};
use boringtun::noise::{Packet, Tunn, TunnResult};
use boringtun::x25519::{PublicKey, StaticSecret};
use rand_core::{OsRng, RngCore};
use vstd::prelude::*;
use vstd::string::*;

verus! {

/// The largest datagram, and the size of the buffers that the engine writes to.
pub const BUFFER_SIZE: usize = 65_535;

/// The state of one WireGuard tunnel.
#[verifier::external_type_specification]
#[verifier::external_body]
pub struct ExTunn(Tunn);

/// What the engine asks for after an operation.
#[derive(Debug, PartialEq, Eq)]
pub enum TunnelOutput {
    /// Nothing.
    Done,
    /// The operation failed, for the given reason.
    Failed(String),
    /// A datagram to send to the peer.
    Network(Vec<u8>),
    /// A decrypted IPv4 packet.
    PacketV4(Vec<u8>),
    /// A decrypted IPv6 packet.
    PacketV6(Vec<u8>),
}

/// What the engine asks for, as a mathematical value.
#[verifier::ext_equal]
pub enum TunnelModel {
    Done,
    Failed(Seq<char>),
    Network(Seq<u8>),
    PacketV4(Seq<u8>),
    PacketV6(Seq<u8>),
}

impl View for TunnelOutput {
    type V = TunnelModel;

    open spec fn view(&self) -> TunnelModel {
        match self {
            TunnelOutput::Done => TunnelModel::Done,
            TunnelOutput::Failed(reason) => TunnelModel::Failed(reason@),
            TunnelOutput::Network(packet) => TunnelModel::Network(packet@),
            TunnelOutput::PacketV4(packet) => TunnelModel::PacketV4(packet@),
            TunnelOutput::PacketV6(packet) => TunnelModel::PacketV6(packet@),
        }
    }
}

/// The kind of a WireGuard message.
#[derive(Clone, Copy, Debug, PartialEq, Eq, Structural)]
pub enum PacketKind {
    Initiation,
    Response,
    CookieReply,
    Data,
    Invalid,
}

/// The kind of a datagram: a type byte, three zero bytes, and the length that the type has.
pub open spec fn packet_kind_spec(datagram: Seq<u8>) -> PacketKind {
    if datagram.len() < 4 || datagram[1] != 0 || datagram[2] != 0 || datagram[3] != 0 {
        PacketKind::Invalid
    } else if datagram[0] == 1 && datagram.len() == 148 {
        PacketKind::Initiation
    } else if datagram[0] == 2 && datagram.len() == 92 {
        PacketKind::Response
    } else if datagram[0] == 3 && datagram.len() == 64 {
        PacketKind::CookieReply
    } else if datagram[0] == 4 && datagram.len() >= 32 {
        PacketKind::Data
    } else {
        PacketKind::Invalid
    }
}

/// `Tunn::parse_incoming_packet` of boringtun: tells the kind of a datagram by its first four
/// bytes, a little-endian number, and its length.
#[verifier::external_body]
pub(crate) fn packet_kind(datagram: &[u8]) -> (r: PacketKind)
    ensures
        r == packet_kind_spec(datagram@),
{
    match Tunn::parse_incoming_packet(datagram) {
        Ok(Packet::HandshakeInit(_)) => PacketKind::Initiation,
        Ok(Packet::HandshakeResponse(_)) => PacketKind::Response,
        Ok(Packet::PacketCookieReply(_)) => PacketKind::CookieReply,
        Ok(Packet::PacketData(_)) => PacketKind::Data,
        Err(_) => PacketKind::Invalid,
    }
}

/// What may come out where a handshake is asked for.
pub open spec fn answers_initiation(force: bool, output: TunnelModel) -> bool {
    match output {
        TunnelModel::Done => !force,
        TunnelModel::Failed(_) => true,
        TunnelModel::Network(message) => packet_kind_spec(message) == PacketKind::Initiation,
        _ => false,
    }
}

/// What may come out where a packet is to be encrypted.
pub open spec fn answers_encryption(packet: Seq<u8>, output: TunnelModel) -> bool {
    match output {
        TunnelModel::Done => true,
        TunnelModel::Failed(_) => true,
        TunnelModel::Network(message) => packet_kind_spec(message) == PacketKind::Initiation || (
        packet_kind_spec(message) == PacketKind::Data && message.len() == packet.len() + 32),
        _ => false,
    }
}

/// The counter of a data message: a little-endian number behind its type and its index.
pub open spec fn message_counter(datagram: Seq<u8>) -> int {
    datagram[8] + datagram[9] * 0x100 + datagram[10] * 0x1_0000 + datagram[11] * 0x100_0000
        + datagram[12] * 0x1_0000_0000 + datagram[13] * 0x100_0000_0000 + datagram[14]
        * 0x1_0000_0000_0000 + datagram[15] * 0x100_0000_0000_0000
}

/// The largest counter that a data message is decrypted with. The engine adds the size of its
/// window of counters, 1024, to it.
pub const MAX_COUNTER: u64 = 0xffff_ffff_ffff_fbff;

/// Whether a datagram is a data message with a counter that is used up.
pub open spec fn is_exhausted(datagram: Seq<u8>) -> bool {
    packet_kind_spec(datagram) == PacketKind::Data && message_counter(datagram) > MAX_COUNTER
}

/// What may come out where a datagram is to be decrypted.
pub open spec fn answers_decryption(datagram: Seq<u8>, output: TunnelModel) -> bool {
    &&& datagram.len() > 0 && packet_kind_spec(datagram) == PacketKind::Invalid ==> output is Failed
    &&& match output {
        TunnelModel::PacketV4(packet) => packet_kind_spec(datagram) == PacketKind::Data
            && packet.len() <= datagram.len(),
        TunnelModel::PacketV6(packet) => packet_kind_spec(datagram) == PacketKind::Data
            && packet.len() <= datagram.len(),
        _ => true,
    }
}

/// What the engine is asked, as a mathematical value.
#[verifier::ext_equal]
pub enum Question {
    Initiate { force: bool },
    Encapsulate { packet: Seq<u8> },
    Decapsulate { from: IpModel, datagram: Seq<u8> },
}

/// The engine of one tunnel, with the keys that it was made with, and a record of what it was asked
/// and what it answered. Keys and record are ghost, of no value at run time: the contracts below say
/// what they are.
pub struct Engine {
    tunn: Tunn,
    keys: Ghost<(Seq<u8>, Seq<u8>, Option<Seq<u8>>)>,
    asked: Ghost<Seq<(Question, TunnelModel)>>,
}

impl Engine {
    /// The private key, the public key of the peer, and the preshared key where there is one.
    pub closed spec fn keys(&self) -> (Seq<u8>, Seq<u8>, Option<Seq<u8>>) {
        self.keys@
    }

    /// What the engine was asked so far, and what it answered.
    pub closed spec fn asked(&self) -> Seq<(Question, TunnelModel)> {
        self.asked@
    }
}

/// `RngCore::next_u32` of rand_core's `OsRng`: a number from the system's random source. Nothing is
/// stated of it.
#[verifier::external_body]
pub(crate) fn random_u32() -> u32 {
    OsRng.next_u32()
}

/// `Tunn::new` of boringtun, without keepalive and with a rate limiter of its own: an engine with the
/// given keys that was asked nothing yet. The index only numbers its sessions, and nothing is stated
/// of it. It panics where the system clock is set before 1970, which no argument decides.
#[verifier::external_body]
pub(crate) fn new_engine(
    private_key: &[u8; 32],
    peer_public_key: &[u8; 32],
    preshared_key: Option<[u8; 32]>,
    index: u32,
) -> (r: Engine)
    ensures
        r.keys() == (
            private_key@,
            peer_public_key@,
            match preshared_key {
                Some(key) => Some(key@),
                None => None,
            },
        ),
        r.asked().len() == 0,
{
    let private = StaticSecret::from(*private_key);
    let public = PublicKey::from(*peer_public_key);
    Engine {
        tunn: Tunn::new(private, public, preshared_key, None, index, None),
        keys: Ghost(arbitrary()),
        asked: Ghost(arbitrary()),
    }
}

/// `Tunn::format_handshake_initiation` of boringtun, with a buffer that is large enough: fails, or
/// gives an initiation message, or does nothing where a handshake is in progress and `force` is
/// not set. The message depends on the time and on random keys and is not stated.
/// The question and the answer are added to the record, and the keys stay.
#[verifier::external_body]
pub(crate) fn format_initiation(engine: &mut Engine, force: bool) -> (r: TunnelOutput)
    ensures
        answers_initiation(force, r@),
        final(engine).asked() == old(engine).asked().push(
            (Question::Initiate { force }, r@),
        ),
        final(engine).keys() == old(engine).keys(),
{
    let mut output = vec![0u8; BUFFER_SIZE];
    match engine.tunn.format_handshake_initiation(&mut output, force) {
        TunnResult::Done => TunnelOutput::Done,
        TunnResult::Err(error) => TunnelOutput::Failed(format!("{error:?}")),
        TunnResult::WriteToNetwork(packet) => TunnelOutput::Network(packet.to_vec()),
        TunnResult::WriteToTunnelV4(packet, _) => TunnelOutput::PacketV4(packet.to_vec()),
        TunnResult::WriteToTunnelV6(packet, _) => TunnelOutput::PacketV6(packet.to_vec()),
    }
}

/// `Tunn::encapsulate` of boringtun, with a buffer of `BUFFER_SIZE` bytes: a packet that this
/// buffer has room for is encrypted for the peer; without a session it is queued and a handshake
/// is initiated. What is decrypted never comes out here.
/// The question and the answer are added to the record, and the keys stay.
#[verifier::external_body]
pub(crate) fn encrypt(engine: &mut Engine, packet: &[u8]) -> (r: TunnelOutput)
    requires
        packet@.len() + 32 <= BUFFER_SIZE,
    ensures
        answers_encryption(packet@, r@),
        final(engine).asked() == old(engine).asked().push(
            (Question::Encapsulate { packet: packet@ }, r@),
        ),
        final(engine).keys() == old(engine).keys(),
{
    let mut output = vec![0u8; BUFFER_SIZE];
    match engine.tunn.encapsulate(packet, &mut output) {
        TunnResult::Done => TunnelOutput::Done,
        TunnResult::Err(error) => TunnelOutput::Failed(format!("{error:?}")),
        TunnResult::WriteToNetwork(packet) => TunnelOutput::Network(packet.to_vec()),
        TunnResult::WriteToTunnelV4(packet, _) => TunnelOutput::PacketV4(packet.to_vec()),
        TunnResult::WriteToTunnelV6(packet, _) => TunnelOutput::PacketV6(packet.to_vec()),
    }
}

/// `Tunn::decapsulate` of boringtun, with a buffer of `BUFFER_SIZE` bytes, for a datagram from the
/// given address. A datagram of no kind fails, and only data messages are decrypted to packets,
/// which are then no longer than the datagram. Whether a message is authentic is the engine's
/// decision. Counters that are used up are left out: the engine's arithmetic on them overflows.
/// The question and the answer are added to the record, and the keys stay.
#[verifier::external_body]
pub(crate) fn decrypt(engine: &mut Engine, from: IpAddr, datagram: &[u8]) -> (r: TunnelOutput)
    requires
        datagram@.len() <= BUFFER_SIZE,
        !is_exhausted(datagram@),
    ensures
        answers_decryption(datagram@, r@),
        final(engine).asked() == old(engine).asked().push(
            (Question::Decapsulate { from: from@, datagram: datagram@ }, r@),
        ),
        final(engine).keys() == old(engine).keys(),
{
    let mut output = vec![0u8; BUFFER_SIZE];
    let address = match from {
        IpAddr::V4(ip) => ip.octets().into(),
        IpAddr::V6(ip) => ip.segments.into(),
    };
    match engine.tunn.decapsulate(Some(address), datagram, &mut output) {
        TunnResult::Done => TunnelOutput::Done,
        TunnResult::Err(error) => TunnelOutput::Failed(format!("{error:?}")),
        TunnResult::WriteToNetwork(packet) => TunnelOutput::Network(packet.to_vec()),
        TunnResult::WriteToTunnelV4(packet, _) => TunnelOutput::PacketV4(packet.to_vec()),
        TunnResult::WriteToTunnelV6(packet, _) => TunnelOutput::PacketV6(packet.to_vec()),
    }
}

} // verus!
