//! A minimal handler policy: answer every Confirmable or NonConfirmable
//! message with an empty Reset, and stay silent on everything else.

use vstd::prelude::*;

use crate::endpoint::MsgHandler;
use crate::endpoint::PeerAddr;
use crate::message::Code;
use crate::message::Message;
use crate::message::Mtype;

verus! {

/// Replies to every request with a Reset carrying the request's message id
/// and token, the stand-in for a real application policy.
pub struct NullHandler;

impl MsgHandler for NullHandler {
    fn handle_msg(&self, _addr: &PeerAddr, request: &Message) -> Option<Vec<u8>> {
        match request.mtype {
            Mtype::Confirmable | Mtype::NonConfirmable => {
                let reply = Message {
                    version: 1,
                    mtype: Mtype::Reset,
                    code: Code::Empty,
                    mid: request.mid,
                    token: request.token.clone(),
                    options: Vec::new(),
                    payload: Vec::new(),
                };
                match reply.to_bytes() {
                    Ok(bytes) => Some(bytes),
                    Err(_) => None,
                }
            },
            _ => None,
        }
    }
}

} // verus!
