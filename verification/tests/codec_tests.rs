use iota_p2p_poc::codec::CommandRequest;
use iota_p2p_poc::codec::CommandResponse;
use iota_p2p_poc::codec::DecodeError;
use iota_p2p_poc::codec::decode_request;
use iota_p2p_poc::codec::decode_response;
use iota_p2p_poc::codec::encode_request;
use iota_p2p_poc::codec::encode_response;

#[test]
fn ping_round_trip() {
    let frame = encode_request(&CommandRequest::Ping);
    assert_eq!(frame, vec![0u8]);
    assert_eq!(decode_request(&frame), Ok(CommandRequest::Ping));
}

#[test]
fn pong_round_trip() {
    let frame = encode_response(&CommandResponse::Pong);
    assert_eq!(frame, vec![0u8]);
    assert_eq!(decode_response(&frame), Ok(CommandResponse::Pong));
}

#[test]
fn opaque_request_round_trip() {
    let request = CommandRequest::Opaque(b"hello".to_vec());
    let frame = encode_request(&request);
    assert_eq!(frame, vec![1, 0, 0, 0, 5, b'h', b'e', b'l', b'l', b'o']);
    assert_eq!(decode_request(&frame), Ok(request));
}

#[test]
fn opaque_response_round_trip() {
    let response = CommandResponse::Opaque(vec![0, 1, 2, 255]);
    let frame = encode_response(&response);
    assert_eq!(frame, vec![1, 0, 0, 0, 4, 0, 1, 2, 255]);
    assert_eq!(decode_response(&frame), Ok(response));
}

#[test]
fn empty_opaque_payload_round_trips() {
    let request = CommandRequest::Opaque(Vec::new());
    let frame = encode_request(&request);
    assert_eq!(frame, vec![1, 0, 0, 0, 0]);
    assert_eq!(decode_request(&frame), Ok(request));
}

#[test]
fn decode_empty_frame_is_truncated() {
    assert_eq!(decode_request(&Vec::new()), Err(DecodeError::Truncated));
    assert_eq!(decode_response(&Vec::new()), Err(DecodeError::Truncated));
}

#[test]
fn decode_unknown_tag() {
    assert_eq!(decode_request(&vec![7u8]), Err(DecodeError::UnknownTag));
    assert_eq!(decode_response(&vec![255u8, 0]), Err(DecodeError::UnknownTag));
}

#[test]
fn decode_short_opaque_header_is_truncated() {
    assert_eq!(decode_request(&vec![1u8, 0, 0, 0]), Err(DecodeError::Truncated));
}

#[test]
fn decode_announced_length_beyond_frame_is_truncated() {
    assert_eq!(decode_request(&vec![1u8, 0, 0, 0, 9, b'x']), Err(DecodeError::Truncated));
}

#[test]
fn decode_extra_bytes_after_plain_frame() {
    assert_eq!(decode_request(&vec![0u8, 0]), Err(DecodeError::TrailingData));
}

#[test]
fn decode_extra_bytes_after_announced_length() {
    assert_eq!(decode_response(&vec![1u8, 0, 0, 0, 1, b'x', b'y']), Err(DecodeError::TrailingData));
}
