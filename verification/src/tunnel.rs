//! A tunnel to one peer.
use crate::engine::{
    answers_decryption, answers_encryption, answers_initiation, decrypt, encrypt,
    format_initiation, is_exhausted, new_engine, packet_kind, random_u32, Engine, PacketKind,
    Question, TunnelModel, TunnelOutput, BUFFER_SIZE, MAX_COUNTER,
};
use crate::keys::SecretKey;
use crate::net::IpAddr;
use vstd::prelude::*;
use vstd::string::*;

verus! {

/// A tunnel to one peer.
pub struct Tunnel {
    engine: Engine,
}

impl Tunnel {
    /// The private key, the public key of the peer, and the preshared key.
    pub closed spec fn keys(&self) -> (Seq<u8>, Seq<u8>, Option<Seq<u8>>) {
        self.engine.keys()
    }

    /// What the engine was asked so far, and what it answered.
    pub closed spec fn asked(&self) -> Seq<(Question, TunnelModel)> {
        self.engine.asked()
    }

    /// A tunnel without a session yet, with an index from the system's random source.
    pub fn new(
        private_key: &SecretKey,
        peer_public_key: &[u8; 32],
        preshared_key: &Option<SecretKey>,
    ) -> (r: Tunnel)
        ensures
            r.keys() == (
                private_key@,
                peer_public_key@,
                match *preshared_key {
                    Some(key) => Some(key@),
                    None => None,
                },
            ),
            r.asked().len() == 0,
    {
        let shared: Option<[u8; 32]> = match preshared_key {
            Some(key) => Some(*key.bytes()),
            None => None,
        };
        let index: u32 = random_u32();
        Tunnel { engine: new_engine(private_key.bytes(), peer_public_key, shared, index) }
    }

    /// Asks for a handshake initiation.
    pub fn initiate(&mut self, force: bool) -> (r: TunnelOutput)
        ensures
            answers_initiation(force, r@),
            final(self).asked() == old(self).asked().push((Question::Initiate { force }, r@)),
            final(self).keys() == old(self).keys(),
    {
        format_initiation(&mut self.engine, force)
    }

    /// Encrypts a packet for the peer.
    pub fn encapsulate(&mut self, packet: &[u8]) -> (r: TunnelOutput)
        requires
            packet@.len() + 32 <= BUFFER_SIZE,
        ensures
            answers_encryption(packet@, r@),
            final(self).asked() == old(self).asked().push(
                (Question::Encapsulate { packet: packet@ }, r@),
            ),
            final(self).keys() == old(self).keys(),
    {
        encrypt(&mut self.engine, packet)
    }

    /// Takes a datagram from the peer. A data message with a counter that is used up fails, without
    /// a question to the engine, which cannot count any further.
    pub fn decapsulate(&mut self, from: IpAddr, datagram: &[u8]) -> (r: TunnelOutput)
        requires
            datagram@.len() <= BUFFER_SIZE,
        ensures
            answers_decryption(datagram@, r@),
            if is_exhausted(datagram@) {
                r@ == exhausted_answer() && final(self).asked() == old(self).asked()
            } else {
                final(self).asked() == old(self).asked().push(
                    (Question::Decapsulate { from: from@, datagram: datagram@ }, r@),
                )
            },
            final(self).keys() == old(self).keys(),
    {
        if has_exhausted_counter(datagram) {
            return TunnelOutput::Failed("InvalidCounter".to_string());
        }
        decrypt(&mut self.engine, from, datagram)
    }
}

/// The answer to a data message with a counter that is used up.
pub open spec fn exhausted_answer() -> TunnelModel {
    TunnelModel::Failed("InvalidCounter"@)
}

fn has_exhausted_counter(datagram: &[u8]) -> (r: bool)
    ensures
        r == is_exhausted(datagram@),
{
    if packet_kind(datagram) != PacketKind::Data {
        return false;
    }
    let counter: u64 = datagram[8] as u64 + datagram[9] as u64 * 0x100 + datagram[10] as u64
        * 0x1_0000 + datagram[11] as u64 * 0x100_0000 + datagram[12] as u64 * 0x1_0000_0000
        + datagram[13] as u64 * 0x100_0000_0000 + datagram[14] as u64 * 0x1_0000_0000_0000
        + datagram[15] as u64 * 0x100_0000_0000_0000;
    counter > MAX_COUNTER
}

} // verus!
