//! An earlier spelling of the minimal reset-answering policy, kept as a
//! second stand-in handler.

use vstd::prelude::*;

use crate::endpoint::MsgHandler;
use crate::endpoint::PeerAddr;
use crate::message::Code;
use crate::message::Message;
use crate::message::Mtype;

verus! {

/// Replies to every request with a Reset carrying the request's message id
/// and token, and ignores acknowledgements and resets.
pub struct NullServer;

impl MsgHandler for NullServer {
    fn handle_msg(&self, _addr: &PeerAddr, request: &Message) -> Option<Vec<u8>> {
        match request.mtype {
            Mtype::Confirmable | Mtype::NonConfirmable => {
                let reply = Message {
                    version: 1,
                    mtype: Mtype::Reset,
                    code: Code::Empty,
                    mid: request.mid,
                    token: request.token.clone(),
                    options: Vec::new(),
                    payload: Vec::new(),
                };
                match reply.to_bytes() {
                    Ok(bytes) => Some(bytes),
                    Err(_) => None,
                }
            },
            _ => None,
        }
    }
}

} // verus!
