//! Command dispatcher: the state-free interpretation of one inbound
//! command.
//!
//! A plain `Ping` is always answered `Pong`. An opaque payload is first
//! read as a trust-ping envelope; a well-formed envelope whose type tag is
//! the trust-ping literal gets the fixed handshake acknowledgment, and
//! everything else — malformed text, a foreign envelope, an unknown type
//! tag — falls through to the fixed default acknowledgment. No inbound
//! request is ever left unanswered: malformed input is a soft failure
//! answered in the payload, never a transport error.

use vstd::prelude::*;

use crate::codec::CommandRequest;
use crate::codec::CommandResponse;
use crate::codec::ReqModel;
use crate::codec::RespModel;
use crate::didcomm::DIDComm;
use crate::didcomm::classify_env;
use crate::didcomm::classify_envelope;
use crate::didcomm::parse_env;
use crate::didcomm::parse_trust_ping;

verus! {

/// The handshake acknowledgment payload.
pub open spec fn trust_ping_ack() -> Seq<u8> {
    seq![84u8, 114, 117, 115, 116, 112, 105, 110, 103, 32, 112, 111, 110, 103, 33]
}

/// The default acknowledgment payload.
pub open spec fn default_ack() -> Seq<u8> {
    seq![83u8, 117, 99, 99, 101, 115, 115]
}

fn lit_trust_ping_ack() -> (r: Vec<u8>)
    ensures
        r@ == trust_ping_ack(),
{
    let mut v: Vec<u8> = Vec::new();
    v.push(84);
    v.push(114);
    v.push(117);
    v.push(115);
    v.push(116);
    v.push(112);
    v.push(105);
    v.push(110);
    v.push(103);
    v.push(32);
    v.push(112);
    v.push(111);
    v.push(110);
    v.push(103);
    v.push(33);
    proof {
        assert(v@ =~= trust_ping_ack());
    }
    v
}

fn lit_default_ack() -> (r: Vec<u8>)
    ensures
        r@ == default_ack(),
{
    let mut v: Vec<u8> = Vec::new();
    v.push(83);
    v.push(117);
    v.push(99);
    v.push(99);
    v.push(101);
    v.push(115);
    v.push(115);
    proof {
        assert(v@ =~= default_ack());
    }
    v
}

/// The reply owed to a request.
pub open spec fn dispatch_model(req: ReqModel) -> RespModel {
    match req {
        ReqModel::Ping => RespModel::Pong,
        ReqModel::Opaque(p) => match parse_env(p) {
            Some(e) => if classify_env(e.typ) is Some {
                RespModel::Opaque(trust_ping_ack())
            } else {
                RespModel::Opaque(default_ack())
            },
            None => RespModel::Opaque(default_ack()),
        },
    }
}

/// Responder side of the handshake: the fixed acknowledgment of a
/// recognized trust ping. This version signs nothing.
pub fn trust_ping_response() -> (r: CommandResponse)
    ensures
        r@ == RespModel::Opaque(trust_ping_ack()),
{
    CommandResponse::Opaque(lit_trust_ping_ack())
}

/// The fixed acknowledgment of an unrecognized opaque payload.
pub fn default_response() -> (r: CommandResponse)
    ensures
        r@ == RespModel::Opaque(default_ack()),
{
    CommandResponse::Opaque(lit_default_ack())
}

/// Decides the reply to one inbound request. Always returns a response.
pub fn dispatch(request: &CommandRequest) -> (r: CommandResponse)
    ensures
        r@ == dispatch_model(request@),
{
    match request {
        CommandRequest::Ping => CommandResponse::Pong,
        CommandRequest::Opaque(p) => match parse_trust_ping(p) {
            Some(env) => match classify_envelope(&env) {
                Some(DIDComm::TrustPing) => trust_ping_response(),
                None => default_response(),
            },
            None => default_response(),
        },
    }
}

/// Fallback correctness: an opaque payload that is not a well-formed
/// trust-ping envelope — or whose type tag is not the trust-ping literal —
/// is answered with the default acknowledgment, not with an error.
pub proof fn lemma_dispatch_fallback(p: Seq<u8>)
    requires
        parse_env(p) is None || (parse_env(p) matches Some(e) && classify_env(e.typ) is None),
    ensures
        dispatch_model(ReqModel::Opaque(p)) == RespModel::Opaque(default_ack()),
{
}

} // verus!
