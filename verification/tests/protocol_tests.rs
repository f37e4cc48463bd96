use iota_p2p_poc::codec::CommandRequest;
use iota_p2p_poc::codec::CommandResponse;
use iota_p2p_poc::didcomm::DIDComm;
use iota_p2p_poc::didcomm::TrustPingEnvelope;
use iota_p2p_poc::didcomm::classify_envelope;
use iota_p2p_poc::didcomm::envelope_header;
use iota_p2p_poc::didcomm::parse_trust_ping;
use iota_p2p_poc::didcomm::serialize_trust_ping;
use iota_p2p_poc::dispatch::default_response;
use iota_p2p_poc::dispatch::dispatch;
use iota_p2p_poc::dispatch::trust_ping_response;
use iota_p2p_poc::peer::PeerIdentifier;
use iota_p2p_poc::peer::make_did;
use iota_p2p_poc::peer::parse_did;
use iota_p2p_poc::peer::parse_peer_id;

fn envelope(id: &str, typ: &str, from: &str, rr: bool) -> TrustPingEnvelope {
    TrustPingEnvelope {
        message_id: id.as_bytes().to_vec(),
        typ: typ.as_bytes().to_vec(),
        from: from.as_bytes().to_vec(),
        response_requested: rr,
    }
}

#[test]
fn serialize_exact_text() {
    let env = envelope("42", "TrustPing", "did:iota:abc123", true);
    let text = serialize_trust_ping(&env);
    assert_eq!(
        String::from_utf8(text).unwrap(),
        "{\"id\":\"42\",\"type\":\"TrustPing\",\"from\":\"did:iota:abc123\",\"body\":{\"response_requested\":true}}"
    );
}

#[test]
fn envelope_round_trip() {
    let env = envelope("20240101T000000", "TrustPing", "did:iota:abc123", true);
    let text = serialize_trust_ping(&env);
    assert_eq!(parse_trust_ping(&text), Some(env));
}

#[test]
fn envelope_round_trip_response_not_requested() {
    let env = envelope("7", "TrustPing", "did:iota:xyz", false);
    let text = serialize_trust_ping(&env);
    assert!(String::from_utf8(text.clone()).unwrap().ends_with("\"response_requested\":false}}"));
    assert_eq!(parse_trust_ping(&text), Some(env));
}

#[test]
fn empty_string_values_round_trip() {
    let env = envelope("", "", "", true);
    let text = serialize_trust_ping(&env);
    assert_eq!(parse_trust_ping(&text), Some(env));
}

#[test]
fn parse_rejects_foreign_text() {
    assert_eq!(parse_trust_ping(&b"hello".to_vec()), None);
    assert_eq!(parse_trust_ping(&Vec::new()), None);
    assert_eq!(parse_trust_ping(&b"{\"id\":\"x\"}".to_vec()), None);
}

#[test]
fn parse_rejects_trailing_bytes() {
    let env = envelope("1", "TrustPing", "did:iota:a", true);
    let mut text = serialize_trust_ping(&env);
    text.push(b' ');
    assert_eq!(parse_trust_ping(&text), None);
}

#[test]
fn parse_rejects_escapes_and_bad_bool() {
    let with_escape =
        b"{\"id\":\"a\\b\",\"type\":\"T\",\"from\":\"f\",\"body\":{\"response_requested\":true}}";
    assert_eq!(parse_trust_ping(&with_escape.to_vec()), None);
    let bad_bool = b"{\"id\":\"a\",\"type\":\"T\",\"from\":\"f\",\"body\":{\"response_requested\":yes}}";
    assert_eq!(parse_trust_ping(&bad_bool.to_vec()), None);
}

#[test]
fn parse_accepts_foreign_type_tag() {
    let env = envelope("1", "SomethingElse", "did:iota:a", true);
    let text = serialize_trust_ping(&env);
    let parsed = parse_trust_ping(&text).unwrap();
    assert_eq!(classify_envelope(&parsed), None);
}

#[test]
fn classify_recognizes_trust_ping() {
    let env = envelope("1", "TrustPing", "did:iota:a", true);
    assert_eq!(classify_envelope(&env), Some(DIDComm::TrustPing));
}

#[test]
fn header_of_envelope() {
    let env = envelope("1", "TrustPing", "did:iota:abc", true);
    let header = envelope_header(&env);
    assert_eq!(header.did, b"did:iota:abc".to_vec());
    assert_eq!(header._type, b"TrustPing".to_vec());
}

#[test]
fn dispatch_ping_yields_pong() {
    assert_eq!(dispatch(&CommandRequest::Ping), CommandResponse::Pong);
}

#[test]
fn dispatch_trust_ping_yields_fixed_acknowledgment() {
    let env = envelope("9", "TrustPing", "did:iota:abc123", true);
    let payload = serialize_trust_ping(&env);
    let reply = dispatch(&CommandRequest::Opaque(payload));
    assert_eq!(reply, CommandResponse::Opaque(b"Trustping pong!".to_vec()));
    assert_eq!(reply, trust_ping_response());
}

#[test]
fn dispatch_falls_back_on_plain_text() {
    let reply = dispatch(&CommandRequest::Opaque(b"hello".to_vec()));
    assert_eq!(reply, CommandResponse::Opaque(b"Success".to_vec()));
    assert_eq!(reply, default_response());
}

#[test]
fn dispatch_falls_back_on_wrong_type_tag() {
    let env = envelope("9", "OtherThing", "did:iota:abc123", true);
    let payload = serialize_trust_ping(&env);
    assert_eq!(dispatch(&CommandRequest::Opaque(payload)), CommandResponse::Opaque(b"Success".to_vec()));
}

#[test]
fn dispatch_falls_back_on_invalid_utf8() {
    let reply = dispatch(&CommandRequest::Opaque(vec![0xff, 0xfe, 0x80]));
    assert_eq!(reply, CommandResponse::Opaque(b"Success".to_vec()));
}

#[test]
fn peer_id_parsing() {
    assert!(parse_peer_id(&b"12D3KooWxyz".to_vec()).is_some());
    assert!(parse_peer_id(&Vec::new()).is_none());
    assert!(parse_peer_id(&b"has space".to_vec()).is_none());
    assert!(parse_peer_id(&b"zero0digit".to_vec()).is_none());
    assert!(parse_peer_id(&b"bigO".to_vec()).is_none());
    assert!(parse_peer_id(&b"Illegal".to_vec()).is_none());
    assert!(parse_peer_id(&b"smalll".to_vec()).is_none());
}

#[test]
fn did_construction_and_parsing() {
    let peer = parse_peer_id(&b"abc123".to_vec()).unwrap();
    let did = make_did(&peer);
    assert_eq!(did.text, b"did:iota:abc123".to_vec());
    let (method, id) = parse_did(&did.text).unwrap();
    assert_eq!(method, b"iota".to_vec());
    assert_eq!(id, b"abc123".to_vec());
}

#[test]
fn did_parsing_rejects_malformed_text() {
    assert!(parse_did(&b"iota:abc".to_vec()).is_none());
    assert!(parse_did(&b"did:".to_vec()).is_none());
    assert!(parse_did(&b"did:iota".to_vec()).is_none());
    assert!(parse_did(&b"did:iota:".to_vec()).is_none());
    assert!(parse_did(&b"did::abc".to_vec()).is_none());
}

#[test]
fn peer_identifier_keeps_text() {
    let peer = PeerIdentifier { text: b"abc123".to_vec() };
    assert_eq!(parse_peer_id(&b"abc123".to_vec()).unwrap(), peer);
}
