use iota_p2p_poc::codec::CommandRequest;
use iota_p2p_poc::codec::CommandResponse;
use iota_p2p_poc::composer::ComposedEvent;
use iota_p2p_poc::composer::DiscoveryEvent;
use iota_p2p_poc::composer::ExchangeEvent;
use iota_p2p_poc::composer::RoutingEvent;
use iota_p2p_poc::dispatch::dispatch;
use iota_p2p_poc::exchange::CommandExchange;
use iota_p2p_poc::exchange::FailureCause;
use iota_p2p_poc::exchange::InboundReplyHandle;
use iota_p2p_poc::exchange::ReplyError;
use iota_p2p_poc::node::LineOutcome;
use iota_p2p_poc::node::Node;
use iota_p2p_poc::node::RejectReason;
use iota_p2p_poc::node::UserAction;
use iota_p2p_poc::node::interpret_tokens;
use iota_p2p_poc::node::render_timestamp;
use iota_p2p_poc::node::tokenize;
use iota_p2p_poc::peer::parse_peer_id;
use iota_p2p_poc::didcomm::parse_trust_ping;

fn peer(text: &str) -> iota_p2p_poc::peer::PeerIdentifier {
    parse_peer_id(&text.as_bytes().to_vec()).unwrap()
}

fn line(text: &str) -> Vec<u8> {
    text.as_bytes().to_vec()
}

#[test]
fn tokenize_splits_on_whitespace() {
    assert_eq!(tokenize(&line("PING abc")), vec![b"PING".to_vec(), b"abc".to_vec()]);
    assert_eq!(
        tokenize(&line("  CMD\tabc  hello ")),
        vec![b"CMD".to_vec(), b"abc".to_vec(), b"hello".to_vec()]
    );
    assert_eq!(tokenize(&line("")), Vec::<Vec<u8>>::new());
    assert_eq!(tokenize(&line("   \t ")), Vec::<Vec<u8>>::new());
}

#[test]
fn interpret_command_forms() {
    assert!(matches!(interpret_tokens(&tokenize(&line("LIST"))), UserAction::ListEntries));
    assert!(matches!(interpret_tokens(&tokenize(&line("nonsense"))), UserAction::Invalid));
    assert!(matches!(interpret_tokens(&tokenize(&line(""))), UserAction::Invalid));
    assert!(matches!(interpret_tokens(&tokenize(&line("PING"))), UserAction::MissingPeer));
    assert!(matches!(interpret_tokens(&tokenize(&line("PING ha!s"))), UserAction::InvalidPeer));
    assert!(matches!(interpret_tokens(&tokenize(&line("TRUSTPING abc"))), UserAction::SendTrustPing { .. }));
    assert!(matches!(interpret_tokens(&tokenize(&line("CMD abc"))), UserAction::MissingToken));
    assert!(matches!(
        interpret_tokens(&tokenize(&line("CMD abc TRUSTPING"))),
        UserAction::StartHandshake { .. }
    ));
    match interpret_tokens(&tokenize(&line("CMD abc hello"))) {
        UserAction::SendCommand { peer, token } => {
            assert_eq!(peer.text, b"abc".to_vec());
            assert_eq!(token, b"hello".to_vec());
        }
        other => panic!("unexpected action {:?}", std::mem::discriminant(&other)),
    }
}

#[test]
fn timestamp_is_twenty_sortable_digits() {
    assert_eq!(render_timestamp(1234567890), b"00000000001234567890".to_vec());
    assert_eq!(render_timestamp(0), b"00000000000000000000".to_vec());
    assert!(render_timestamp(5) < render_timestamp(10));
}

#[test]
fn reply_handle_is_single_use() {
    let mut exchange = CommandExchange::new(100);
    let mut handle = InboundReplyHandle::new(peer("abc"), 7);
    assert_eq!(exchange.send_response(&mut handle, CommandResponse::Pong), Ok(()));
    assert_eq!(
        exchange.send_response(&mut handle, CommandResponse::Pong),
        Err(ReplyError::AlreadyConsumed)
    );
    assert_eq!(exchange.replies.len(), 1);
}

#[test]
fn request_resolves_at_most_once() {
    let mut exchange = CommandExchange::new(100);
    let id = exchange.send_request(peer("abc"), CommandRequest::Ping, 0);
    let first = exchange.take_pending(id).unwrap();
    assert_eq!(first.id, id);
    assert_eq!(first.request, CommandRequest::Ping);
    assert!(exchange.take_pending(id).is_none());
}

#[test]
fn default_timeout_is_conservative() {
    let exchange = CommandExchange::with_default_timeout();
    assert_eq!(exchange.timeout, 30);
    assert_eq!(exchange.next_id, 0);
    assert!(exchange.pending.is_empty());
}

#[test]
fn request_identifiers_are_fresh() {
    let mut exchange = CommandExchange::new(100);
    let a = exchange.send_request(peer("abc"), CommandRequest::Ping, 0);
    let b = exchange.send_request(peer("abc"), CommandRequest::Ping, 0);
    assert_ne!(a, b);
    assert_eq!(exchange.pending.len(), 2);
}

#[test]
fn timeouts_expire_once() {
    let mut node = Node::new(peer("node1"), 5);
    match node.handle_line(&line("PING target1"), 10) {
        LineOutcome::RequestSent { request_id, .. } => assert_eq!(request_id, 0),
        _ => panic!("expected a request"),
    }
    assert!(node.expire_timeouts(14).is_empty());
    let events = node.expire_timeouts(15);
    assert_eq!(events.len(), 1);
    match &events[0] {
        ComposedEvent::OutboundFailed { request_id, cause, known, .. } => {
            assert_eq!(*request_id, 0);
            assert_eq!(*cause, FailureCause::Timeout);
            assert!(*known);
        }
        _ => panic!("expected a timeout failure"),
    }
    assert!(node.exchange.pending.is_empty());
    assert!(node.expire_timeouts(15).is_empty());
}

#[test]
fn poll_cycle_is_fair_across_ready_sources() {
    let mut node = Node::new(peer("node1"), 100);
    node.events.push_discovery(DiscoveryEvent { peer: peer("abc"), address: b"/ip4/1".to_vec() });
    node.events.push_discovery(DiscoveryEvent { peer: peer("xyz"), address: b"/ip4/2".to_vec() });
    node.events.push_routing(RoutingEvent { detail: b"bucket".to_vec() });
    node.events.push_exchange(ExchangeEvent::InboundFailure {
        peer: peer("abc"),
        cause: FailureCause::Refused,
    });
    let (first, second, third) = {
        let node_ref = &mut node;
        node_ref.events.poll_cycle(&mut node_ref.table, &mut node_ref.exchange)
    };
    assert!(matches!(first, Some(ComposedEvent::PeerDiscovered { .. })));
    assert!(matches!(second, Some(ComposedEvent::RoutingObserved { .. })));
    assert!(matches!(third, Some(ComposedEvent::InboundFailed { .. })));
    assert_eq!(node.events.discovery.len(), 1);
    assert_eq!(node.events.routing.len(), 0);
    assert_eq!(node.events.exchange.len(), 0);
    let (first2, second2, third2) = {
        let node_ref = &mut node;
        node_ref.events.poll_cycle(&mut node_ref.table, &mut node_ref.exchange)
    };
    assert!(matches!(first2, Some(ComposedEvent::PeerDiscovered { .. })));
    assert!(second2.is_none());
    assert!(third2.is_none());
    assert_eq!(node.table.entries.len(), 2);
}

#[test]
fn inbound_request_is_answered_through_dispatcher() {
    let mut node = Node::new(peer("node1"), 100);
    node.events.push_exchange(ExchangeEvent::InboundRequest {
        from: peer("abc"),
        request: CommandRequest::Ping,
        handle: InboundReplyHandle::new(peer("abc"), 3),
    });
    let (_, _, third) = node.events.poll_cycle(&mut node.table, &mut node.exchange);
    match third {
        Some(ComposedEvent::InboundHandled { response, accepted, .. }) => {
            assert_eq!(response, CommandResponse::Pong);
            assert!(accepted);
        }
        _ => panic!("expected a handled inbound request"),
    }
    assert_eq!(node.exchange.replies, vec![CommandResponse::Pong]);
}

#[test]
fn trust_ping_scenario_end_to_end() {
    // The initiator builds the envelope and sends it as an opaque request.
    let mut initiator = Node::new(peer("abc123"), 100);
    let (target, request_id, payload) =
        match initiator.handle_line(&line("CMD abc123 TRUSTPING"), 1700000000) {
            LineOutcome::RequestSent { peer, request_id, request: CommandRequest::Opaque(p) } => {
                (peer, request_id, p)
            }
            _ => panic!("expected an opaque request"),
        };
    assert_eq!(target.text, b"abc123".to_vec());
    let env = parse_trust_ping(&payload).unwrap();
    assert_eq!(env.from, b"did:iota:abc123".to_vec());
    assert_eq!(env.typ, b"TrustPing".to_vec());
    assert!(env.response_requested);
    assert_eq!(env.message_id, b"00000000001700000000".to_vec());

    // The responder's dispatcher replies with the fixed acknowledgment.
    let reply = dispatch(&CommandRequest::Opaque(payload));
    assert_eq!(reply, CommandResponse::Opaque(b"Trustping pong!".to_vec()));

    // The response resolves the initiator's pending request with it.
    initiator.events.push_exchange(ExchangeEvent::ResponseArrived { request_id, response: reply });
    let (_, _, third) = initiator.events.poll_cycle(&mut initiator.table, &mut initiator.exchange);
    match third {
        Some(ComposedEvent::ResponseResolved { request_id: rid, response, known }) => {
            assert_eq!(rid, request_id);
            assert_eq!(response, CommandResponse::Opaque(b"Trustping pong!".to_vec()));
            assert!(known);
        }
        _ => panic!("expected a resolved response"),
    }
    assert!(initiator.exchange.pending.is_empty());

    // A second arrival of the same identifier resolves nothing.
    initiator.events.push_exchange(ExchangeEvent::ResponseArrived {
        request_id,
        response: CommandResponse::Pong,
    });
    let (_, _, third2) = initiator.events.poll_cycle(&mut initiator.table, &mut initiator.exchange);
    match third2 {
        Some(ComposedEvent::ResponseResolved { known, .. }) => assert!(!known),
        _ => panic!("expected a surfaced but unknown response"),
    }
}

#[test]
fn plain_command_scenario() {
    let mut node = Node::new(peer("node1"), 100);
    let (request_id, payload) = match node.handle_line(&line("CMD 12D3KooWxyz hello"), 5) {
        LineOutcome::RequestSent { request_id, request: CommandRequest::Opaque(p), .. } => {
            (request_id, p)
        }
        _ => panic!("expected an opaque request"),
    };
    assert_eq!(request_id, 0);
    assert_eq!(payload, b"hello".to_vec());
    assert_eq!(
        dispatch(&CommandRequest::Opaque(payload)),
        CommandResponse::Opaque(b"Success".to_vec())
    );
}

#[test]
fn rejected_lines_send_nothing() {
    let mut node = Node::new(peer("node1"), 100);
    for (text, reason) in [
        ("garbage", RejectReason::NoValidCommand),
        ("PING", RejectReason::MissingPeerId),
        ("PING not!valid", RejectReason::FaultyPeerId),
        ("CMD abc", RejectReason::MissingCommandToken),
        ("TRUSTPING", RejectReason::MissingPeerId),
    ] {
        match node.handle_line(&line(text), 0) {
            LineOutcome::Rejected { reason: got } => assert_eq!(got, reason),
            _ => panic!("expected a rejection for {:?}", text),
        }
    }
    assert!(node.exchange.pending.is_empty());
    assert_eq!(node.exchange.next_id, 0);
}

#[test]
fn trustping_line_sends_plain_ping() {
    let mut node = Node::new(peer("node1"), 100);
    match node.handle_line(&line("TRUSTPING abc"), 0) {
        LineOutcome::RequestSent { request, peer, .. } => {
            assert_eq!(request, CommandRequest::Ping);
            assert_eq!(peer.text, b"abc".to_vec());
        }
        _ => panic!("expected a plain ping"),
    }
}

#[test]
fn listing_scenario() {
    let mut node = Node::new(peer("node1"), 100);
    match node.handle_line(&line("LIST"), 0) {
        LineOutcome::Listing { lines } => {
            assert_eq!(lines, vec![b"Current Buckets:".to_vec()]);
        }
        _ => panic!("expected a listing"),
    }
    node.events.push_discovery(DiscoveryEvent { peer: peer("abc"), address: b"/ip4/1/tcp/4".to_vec() });
    node.events.poll_cycle(&mut node.table, &mut node.exchange);
    node.events.push_discovery(DiscoveryEvent { peer: peer("xyz"), address: b"/ip4/2/tcp/4".to_vec() });
    node.events.poll_cycle(&mut node.table, &mut node.exchange);
    match node.handle_line(&line("LIST"), 0) {
        LineOutcome::Listing { lines } => {
            assert_eq!(
                lines,
                vec![
                    b"Current Buckets:".to_vec(),
                    b"key: abc, values: /ip4/1/tcp/4".to_vec(),
                    b"key: xyz, values: /ip4/2/tcp/4".to_vec(),
                ]
            );
        }
        _ => panic!("expected a listing"),
    }
}

#[test]
fn duplicate_discovery_is_idempotent() {
    let mut node = Node::new(peer("node1"), 100);
    for _ in 0..2 {
        node.events.push_discovery(DiscoveryEvent {
            peer: peer("abc"),
            address: b"/ip4/1".to_vec(),
        });
        node.events.poll_cycle(&mut node.table, &mut node.exchange);
    }
    assert_eq!(node.table.entries.len(), 1);
    assert_eq!(node.table.entries[0].addresses, vec![b"/ip4/1".to_vec()]);
    node.events.push_discovery(DiscoveryEvent { peer: peer("abc"), address: b"/ip4/2".to_vec() });
    node.events.poll_cycle(&mut node.table, &mut node.exchange);
    assert_eq!(node.table.entries.len(), 1);
    assert_eq!(
        node.table.entries[0].addresses,
        vec![b"/ip4/1".to_vec(), b"/ip4/2".to_vec()]
    );
}

#[test]
fn outbound_failure_resolves_pending() {
    let mut node = Node::new(peer("node1"), 100);
    let request_id = match node.handle_line(&line("PING abc"), 0) {
        LineOutcome::RequestSent { request_id, .. } => request_id,
        _ => panic!("expected a request"),
    };
    node.events.push_exchange(ExchangeEvent::OutboundFailure {
        request_id,
        peer: peer("abc"),
        cause: FailureCause::Unreachable,
    });
    let (_, _, third) = node.events.poll_cycle(&mut node.table, &mut node.exchange);
    match third {
        Some(ComposedEvent::OutboundFailed { known, cause, .. }) => {
            assert!(known);
            assert_eq!(cause, FailureCause::Unreachable);
        }
        _ => panic!("expected an outbound failure"),
    }
    assert!(node.exchange.pending.is_empty());
}
