//! Dispatch logic: feed one received datagram through the codec and the
//! pluggable handler capability, producing at most one reply. The
//! surrounding reactor owns the socket and hands in plain bytes; no
//! cross-datagram state exists.

use vstd::prelude::*;

use crate::codec::spec_decode;
use crate::message::Message;

verus! {

/// A peer's datagram address as plain values: the address bytes and the
/// port. The dispatch logic never inspects it; it is carried through to the
/// handler and identifies where a reply must go.
#[derive(Clone, Copy, PartialEq, Eq, Debug)]
pub enum PeerAddr {
    V4 { octets: [u8; 4], port: u16 },
    V6 { octets: [u8; 16], port: u16 },
}

/// The handler capability: a single operation mapping the sender's address
/// and a decoded message to an optional raw reply. Handlers only ever see
/// messages the codec accepted; a reply is transmitted verbatim, so the
/// handler owns the framing of its own reply (typically by building a
/// `Message` and encoding it).
pub trait MsgHandler {
    fn handle_msg(&self, addr: &PeerAddr, request: &Message) -> Option<Vec<u8>>;
}

/// Process one datagram: decode it, hand a valid message to the handler,
/// and pass back the handler's optional reply bytes. A malformed datagram
/// is silently dropped — it never reaches the handler and produces no
/// reply, which keeps this endpoint useless as a reflection amplifier.
pub fn dispatch<H: MsgHandler>(handler: &H, peer: &PeerAddr, pkt: &[u8]) -> (r: Option<Vec<u8>>)
    ensures
        spec_decode(pkt@) is None ==> r is None,
        r is Some ==> spec_decode(pkt@) is Some,
{
    match Message::from_bytes(pkt) {
        Ok(msg) => handler.handle_msg(peer, &msg),
        Err(_) => None,
    }
}

} // verus!
