//! Command codec: frames a command request or response as bytes so that a
//! reader can find the message boundary and the variant tag without help
//! from the transport.
//!
//! Wire form, identical in both directions:
//! - tag byte `0`: the plain variant (`Ping` on the request path, `Pong` on
//!   the reply path), nothing follows;
//! - tag byte `1`: the opaque variant, followed by the payload length as
//!   four big-endian bytes and then the payload itself.
//!
//! Which direction a frame belongs to is decided by the stream it was read
//! from, so requests and responses are decoded by separate functions.

use vstd::prelude::*;

verus! {

/// Tag byte of the payload-free variant (`Ping` / `Pong`).
pub const TAG_PLAIN: u8 = 0;

/// Tag byte of the opaque variant, followed by a length-prefixed payload.
pub const TAG_OPAQUE: u8 = 1;

/// A command sent to a peer: a plain liveness ping, or an opaque payload
/// carrying a higher-level message such as a trust-ping envelope.
#[derive(Debug, Clone, PartialEq, Eq)]
pub enum CommandRequest {
    Ping,
    Opaque(Vec<u8>),
}

/// The reply to a command: a plain pong, or an opaque payload.
#[derive(Debug, Clone, PartialEq, Eq)]
pub enum CommandResponse {
    Pong,
    Opaque(Vec<u8>),
}

/// Mathematical model of a request: the variant and the payload bytes.
pub enum ReqModel {
    Ping,
    Opaque(Seq<u8>),
}

/// Mathematical model of a response.
pub enum RespModel {
    Pong,
    Opaque(Seq<u8>),
}

impl View for CommandRequest {
    type V = ReqModel;

    open spec fn view(&self) -> ReqModel {
        match self {
            CommandRequest::Ping => ReqModel::Ping,
            CommandRequest::Opaque(p) => ReqModel::Opaque(p@),
        }
    }
}

impl View for CommandResponse {
    type V = RespModel;

    open spec fn view(&self) -> RespModel {
        match self {
            CommandResponse::Pong => RespModel::Pong,
            CommandResponse::Opaque(p) => RespModel::Opaque(p@),
        }
    }
}

/// Why a frame was rejected: an unknown tag byte, fewer bytes than the
/// header or the announced payload length demand, or bytes left over after
/// the announced end of the message.
#[derive(Debug, Clone, Copy, PartialEq, Eq, Structural)]
pub enum DecodeError {
    UnknownTag,
    Truncated,
    TrailingData,
}

/// The four big-endian bytes of a 32-bit length.
pub open spec fn be32(n: u32) -> Seq<u8> {
    seq![(n >> 24) as u8, (n >> 16) as u8, (n >> 8) as u8, n as u8]
}

/// The 32-bit value read back from four big-endian bytes.
pub open spec fn be32_value(b0: u8, b1: u8, b2: u8, b3: u8) -> u32 {
    ((b0 as u32) << 24) | ((b1 as u32) << 16) | ((b2 as u32) << 8) | (b3 as u32)
}

proof fn lemma_be32_round_trip(n: u32)
    ensures
        be32_value(be32(n)[0], be32(n)[1], be32(n)[2], be32(n)[3]) == n,
{
    assert((((n >> 24) as u8 as u32) << 24) | (((n >> 16) as u8 as u32) << 16)
        | (((n >> 8) as u8 as u32) << 8) | (n as u8 as u32) == n) by (bit_vector);
}

/// An opaque payload is encodable when its length fits the 32-bit prefix.
pub open spec fn req_encodable(m: ReqModel) -> bool {
    match m {
        ReqModel::Ping => true,
        ReqModel::Opaque(p) => p.len() <= u32::MAX,
    }
}

/// An opaque payload is encodable when its length fits the 32-bit prefix.
pub open spec fn resp_encodable(m: RespModel) -> bool {
    match m {
        RespModel::Pong => true,
        RespModel::Opaque(p) => p.len() <= u32::MAX,
    }
}

/// The frame of a request.
pub open spec fn encode_req(m: ReqModel) -> Seq<u8> {
    match m {
        ReqModel::Ping => seq![TAG_PLAIN],
        ReqModel::Opaque(p) => seq![TAG_OPAQUE] + be32(p.len() as u32) + p,
    }
}

/// The frame of a response.
pub open spec fn encode_resp(m: RespModel) -> Seq<u8> {
    match m {
        RespModel::Pong => seq![TAG_PLAIN],
        RespModel::Opaque(p) => seq![TAG_OPAQUE] + be32(p.len() as u32) + p,
    }
}

/// The request read back from a frame, or the reason the frame is rejected.
pub open spec fn decode_req(b: Seq<u8>) -> Result<ReqModel, DecodeError> {
    if b.len() == 0 {
        Err(DecodeError::Truncated)
    } else if b[0] == TAG_PLAIN {
        if b.len() == 1 {
            Ok(ReqModel::Ping)
        } else {
            Err(DecodeError::TrailingData)
        }
    } else if b[0] == TAG_OPAQUE {
        if b.len() < 5 {
            Err(DecodeError::Truncated)
        } else if be32_value(b[1], b[2], b[3], b[4]) > b.len() - 5 {
            Err(DecodeError::Truncated)
        } else if be32_value(b[1], b[2], b[3], b[4]) < b.len() - 5 {
            Err(DecodeError::TrailingData)
        } else {
            Ok(ReqModel::Opaque(b.skip(5)))
        }
    } else {
        Err(DecodeError::UnknownTag)
    }
}

/// The response read back from a frame, or the reason the frame is rejected.
pub open spec fn decode_resp(b: Seq<u8>) -> Result<RespModel, DecodeError> {
    if b.len() == 0 {
        Err(DecodeError::Truncated)
    } else if b[0] == TAG_PLAIN {
        if b.len() == 1 {
            Ok(RespModel::Pong)
        } else {
            Err(DecodeError::TrailingData)
        }
    } else if b[0] == TAG_OPAQUE {
        if b.len() < 5 {
            Err(DecodeError::Truncated)
        } else if be32_value(b[1], b[2], b[3], b[4]) > b.len() - 5 {
            Err(DecodeError::Truncated)
        } else if be32_value(b[1], b[2], b[3], b[4]) < b.len() - 5 {
            Err(DecodeError::TrailingData)
        } else {
            Ok(RespModel::Opaque(b.skip(5)))
        }
    } else {
        Err(DecodeError::UnknownTag)
    }
}

/// Round trip: decoding an encoded request yields the request back.
pub proof fn lemma_request_round_trip(m: ReqModel)
    requires
        req_encodable(m),
    ensures
        decode_req(encode_req(m)) == Ok::<ReqModel, DecodeError>(m),
{
    match m {
        ReqModel::Ping => {
            assert(encode_req(m).len() == 1);
        }
        ReqModel::Opaque(p) => {
            let b = encode_req(m);
            let n = p.len() as u32;
            lemma_be32_round_trip(n);
            assert(b[1] == be32(n)[0] && b[2] == be32(n)[1] && b[3] == be32(n)[2]
                && b[4] == be32(n)[3]);
            assert(be32_value(b[1], b[2], b[3], b[4]) == n);
            assert(b.skip(5) =~= p);
        }
    }
}

/// Round trip: decoding an encoded response yields the response back.
pub proof fn lemma_response_round_trip(m: RespModel)
    requires
        resp_encodable(m),
    ensures
        decode_resp(encode_resp(m)) == Ok::<RespModel, DecodeError>(m),
{
    match m {
        RespModel::Pong => {
            assert(encode_resp(m).len() == 1);
        }
        RespModel::Opaque(p) => {
            let b = encode_resp(m);
            let n = p.len() as u32;
            lemma_be32_round_trip(n);
            assert(b[1] == be32(n)[0] && b[2] == be32(n)[1] && b[3] == be32(n)[2]
                && b[4] == be32(n)[3]);
            assert(be32_value(b[1], b[2], b[3], b[4]) == n);
            assert(b.skip(5) =~= p);
        }
    }
}

proof fn lemma_be32_bytes_round_trip(b0: u8, b1: u8, b2: u8, b3: u8)
    ensures
        be32(be32_value(b0, b1, b2, b3)) == seq![b0, b1, b2, b3],
{
    let n = be32_value(b0, b1, b2, b3);
    assert(((((b0 as u32) << 24) | ((b1 as u32) << 16) | ((b2 as u32) << 8) | (b3 as u32)) >> 24)
        as u8 == b0) by (bit_vector);
    assert(((((b0 as u32) << 24) | ((b1 as u32) << 16) | ((b2 as u32) << 8) | (b3 as u32)) >> 16)
        as u8 == b1) by (bit_vector);
    assert(((((b0 as u32) << 24) | ((b1 as u32) << 16) | ((b2 as u32) << 8) | (b3 as u32)) >> 8)
        as u8 == b2) by (bit_vector);
    assert((((b0 as u32) << 24) | ((b1 as u32) << 16) | ((b2 as u32) << 8) | (b3 as u32)) as u8
        == b3) by (bit_vector);
    assert(be32(n) =~= seq![b0, b1, b2, b3]);
}

/// Decoding is sound: a frame that decodes at all is exactly the encoding
/// of what it decodes to, so no two requests share a frame.
pub proof fn lemma_request_decode_sound(b: Seq<u8>, m: ReqModel)
    requires
        decode_req(b) == Ok::<ReqModel, DecodeError>(m),
    ensures
        req_encodable(m),
        b == encode_req(m),
{
    if b[0] == TAG_PLAIN {
        assert(b =~= seq![TAG_PLAIN]);
    } else {
        let p = b.skip(5);
        lemma_be32_bytes_round_trip(b[1], b[2], b[3], b[4]);
        assert(be32(p.len() as u32) == seq![b[1], b[2], b[3], b[4]]);
        assert(b =~= seq![TAG_OPAQUE] + be32(p.len() as u32) + p);
    }
}

/// Decoding is sound: a frame that decodes at all is exactly the encoding
/// of what it decodes to, so no two responses share a frame.
pub proof fn lemma_response_decode_sound(b: Seq<u8>, m: RespModel)
    requires
        decode_resp(b) == Ok::<RespModel, DecodeError>(m),
    ensures
        resp_encodable(m),
        b == encode_resp(m),
{
    if b[0] == TAG_PLAIN {
        assert(b =~= seq![TAG_PLAIN]);
    } else {
        let p = b.skip(5);
        lemma_be32_bytes_round_trip(b[1], b[2], b[3], b[4]);
        assert(be32(p.len() as u32) == seq![b[1], b[2], b[3], b[4]]);
        assert(b =~= seq![TAG_OPAQUE] + be32(p.len() as u32) + p);
    }
}

fn encode_opaque_frame(payload: &Vec<u8>) -> (r: Vec<u8>)
    requires
        payload@.len() <= u32::MAX,
    ensures
        r@ == seq![TAG_OPAQUE] + be32(payload@.len() as u32) + payload@,
{
    let n = payload.len() as u32;
    let mut out: Vec<u8> = Vec::new();
    out.push(TAG_OPAQUE);
    out.push((n >> 24) as u8);
    out.push((n >> 16) as u8);
    out.push((n >> 8) as u8);
    out.push(n as u8);
    out.extend_from_slice(payload.as_slice());
    proof {
        assert(out@ =~= seq![TAG_OPAQUE] + be32(payload@.len() as u32) + payload@);
    }
    out
}

/// Encodes a request as one wire frame.
pub fn encode_request(request: &CommandRequest) -> (r: Vec<u8>)
    requires
        req_encodable(request@),
    ensures
        r@ == encode_req(request@),
{
    match request {
        CommandRequest::Ping => {
            let mut out: Vec<u8> = Vec::new();
            out.push(TAG_PLAIN);
            proof {
                assert(out@ =~= seq![TAG_PLAIN]);
            }
            out
        }
        CommandRequest::Opaque(p) => encode_opaque_frame(p),
    }
}

/// Encodes a response as one wire frame.
pub fn encode_response(response: &CommandResponse) -> (r: Vec<u8>)
    requires
        resp_encodable(response@),
    ensures
        r@ == encode_resp(response@),
{
    match response {
        CommandResponse::Pong => {
            let mut out: Vec<u8> = Vec::new();
            out.push(TAG_PLAIN);
            proof {
                assert(out@ =~= seq![TAG_PLAIN]);
            }
            out
        }
        CommandResponse::Opaque(p) => encode_opaque_frame(p),
    }
}

/// Checks the opaque-frame header and copies the payload out; `Ok` exactly
/// when the announced length matches the bytes that follow the header.
fn decode_opaque_payload(bytes: &Vec<u8>) -> (r: Result<Vec<u8>, DecodeError>)
    requires
        bytes@.len() >= 1,
        bytes@[0] == TAG_OPAQUE,
    ensures
        match r {
            Ok(p) => bytes@.len() >= 5 && be32_value(bytes@[1], bytes@[2], bytes@[3], bytes@[4])
                == bytes@.len() - 5 && p@ == bytes@.skip(5),
            Err(e) => {
                &&& (e == DecodeError::Truncated || e == DecodeError::TrailingData)
                &&& bytes@.len() < 5 ==> e == DecodeError::Truncated
                &&& bytes@.len() >= 5 ==> {
                    let n = be32_value(bytes@[1], bytes@[2], bytes@[3], bytes@[4]);
                    &&& n != bytes@.len() - 5
                    &&& e == (if n > bytes@.len() - 5 {
                        DecodeError::Truncated
                    } else {
                        DecodeError::TrailingData
                    })
                }
            },
        },
{
    if bytes.len() < 5 {
        return Err(DecodeError::Truncated);
    }
    let n = be32_value_exec(bytes[1], bytes[2], bytes[3], bytes[4]);
    let body_len = bytes.len() - 5;
    if n as usize > body_len {
        return Err(DecodeError::Truncated);
    }
    if (n as usize) < body_len {
        return Err(DecodeError::TrailingData);
    }
    let mut payload: Vec<u8> = Vec::new();
    let mut i: usize = 5;
    while i < bytes.len()
        invariant
            5 <= i <= bytes@.len(),
            payload@ == bytes@.subrange(5, i as int),
        decreases bytes@.len() - i,
    {
        payload.push(bytes[i]);
        i = i + 1;
        proof {
            assert(payload@ =~= bytes@.subrange(5, i as int));
        }
    }
    proof {
        assert(payload@ =~= bytes@.skip(5));
    }
    Ok(payload)
}

fn be32_value_exec(b0: u8, b1: u8, b2: u8, b3: u8) -> (r: u32)
    ensures
        r == be32_value(b0, b1, b2, b3),
{
    ((b0 as u32) << 24) | ((b1 as u32) << 16) | ((b2 as u32) << 8) | (b3 as u32)
}

/// A fresh response with the same content.
pub fn clone_response(response: &CommandResponse) -> (r: CommandResponse)
    ensures
        r@ == response@,
{
    match response {
        CommandResponse::Pong => CommandResponse::Pong,
        CommandResponse::Opaque(p) => CommandResponse::Opaque(crate::bytes::copy_bytes(p)),
    }
}

/// A fresh request with the same content.
pub fn clone_request(request: &CommandRequest) -> (r: CommandRequest)
    ensures
        r@ == request@,
{
    match request {
        CommandRequest::Ping => CommandRequest::Ping,
        CommandRequest::Opaque(p) => CommandRequest::Opaque(crate::bytes::copy_bytes(p)),
    }
}

/// Decodes one frame read on the request direction of a stream.
pub fn decode_request(bytes: &Vec<u8>) -> (r: Result<CommandRequest, DecodeError>)
    ensures
        match r {
            Ok(request) => decode_req(bytes@) == Ok::<ReqModel, DecodeError>(request@),
            Err(e) => decode_req(bytes@) == Err::<ReqModel, DecodeError>(e),
        },
{
    if bytes.len() == 0 {
        return Err(DecodeError::Truncated);
    }
    let tag = bytes[0];
    if tag == TAG_PLAIN {
        if bytes.len() == 1 {
            Ok(CommandRequest::Ping)
        } else {
            Err(DecodeError::TrailingData)
        }
    } else if tag == TAG_OPAQUE {
        match decode_opaque_payload(bytes) {
            Ok(payload) => Ok(CommandRequest::Opaque(payload)),
            Err(e) => Err(e),
        }
    } else {
        Err(DecodeError::UnknownTag)
    }
}

/// Decodes one frame read on the reply direction of a stream.
pub fn decode_response(bytes: &Vec<u8>) -> (r: Result<CommandResponse, DecodeError>)
    ensures
        match r {
            Ok(response) => decode_resp(bytes@) == Ok::<RespModel, DecodeError>(response@),
            Err(e) => decode_resp(bytes@) == Err::<RespModel, DecodeError>(e),
        },
{
    if bytes.len() == 0 {
        return Err(DecodeError::Truncated);
    }
    let tag = bytes[0];
    if tag == TAG_PLAIN {
        if bytes.len() == 1 {
            Ok(CommandResponse::Pong)
        } else {
            Err(DecodeError::TrailingData)
        }
    } else if tag == TAG_OPAQUE {
        match decode_opaque_payload(bytes) {
            Ok(payload) => Ok(CommandResponse::Opaque(payload)),
            Err(e) => Err(e),
        }
    } else {
        Err(DecodeError::UnknownTag)
    }
}

} // verus!
