//! Peer-behavior composition: one pollable event source over the three
//! independent subsystems — local discovery, the DHT routing table, and
//! the command exchange.
//!
//! Each poll cycle looks at all three queues and drains at most one ready
//! event from each, in a fixed order, before yielding, so no subsystem is
//! starved however busy the others are. A discovery event is recorded
//! into the routing table before it is surfaced; a routing event carries
//! nothing actionable and is surfaced for observability only; an inbound
//! request is answered through the command dispatcher before the node
//! loop sees it, so the loop itself never dispatches.

use vstd::prelude::*;

use crate::bytes::copy_bytes;
use crate::codec::CommandRequest;
use crate::codec::CommandResponse;
use crate::codec::ReqModel;
use crate::codec::RespModel;
use crate::codec::clone_response;
use crate::dispatch::dispatch;
use crate::dispatch::dispatch_model;
use crate::exchange::CommandExchange;
use crate::exchange::ExchangeModel;
use crate::exchange::FailureCause;
use crate::exchange::HandleModel;
use crate::exchange::InboundReplyHandle;
use crate::exchange::RequestId;
use crate::exchange::exchange_wf;
use crate::exchange::reply_transition;
use crate::exchange::take_transition;
use crate::peer::PeerIdentifier;
use crate::peer::clone_peer;
use crate::routing::RoutingTable;
use crate::routing::peers_unique;
use crate::routing::record_model;

verus! {

/// A "peer discovered at address" notification from local discovery.
pub struct DiscoveryEvent {
    pub peer: PeerIdentifier,
    pub address: Vec<u8>,
}

/// Mathematical model of a discovery notification.
pub struct DiscoveryModel {
    pub peer: Seq<u8>,
    pub address: Seq<u8>,
}

impl View for DiscoveryEvent {
    type V = DiscoveryModel;

    open spec fn view(&self) -> DiscoveryModel {
        DiscoveryModel { peer: self.peer@, address: self.address@ }
    }
}

/// An event of the DHT's own algorithm: nothing actionable here, only a
/// detail text surfaced for observability.
pub struct RoutingEvent {
    pub detail: Vec<u8>,
}

impl View for RoutingEvent {
    type V = Seq<u8>;

    open spec fn view(&self) -> Seq<u8> {
        self.detail@
    }
}

/// An event of the command exchange, as the transport delivers it.
pub enum ExchangeEvent {
    /// A request from a peer, with the single-use channel to answer it.
    InboundRequest { from: PeerIdentifier, request: CommandRequest, handle: InboundReplyHandle },
    /// The response correlated to an earlier outbound request.
    ResponseArrived { request_id: RequestId, response: CommandResponse },
    /// An outbound request failed: unreachable, refused, or timed out.
    OutboundFailure { request_id: RequestId, peer: PeerIdentifier, cause: FailureCause },
    /// A peer misbehaved while a reply was in flight.
    InboundFailure { peer: PeerIdentifier, cause: FailureCause },
}

/// Mathematical model of an exchange event.
pub enum ExchangeEventModel {
    InboundRequest { from: Seq<u8>, request: ReqModel, handle: HandleModel },
    ResponseArrived { request_id: RequestId, response: RespModel },
    OutboundFailure { request_id: RequestId, peer: Seq<u8>, cause: FailureCause },
    InboundFailure { peer: Seq<u8>, cause: FailureCause },
}

impl View for ExchangeEvent {
    type V = ExchangeEventModel;

    open spec fn view(&self) -> ExchangeEventModel {
        match self {
            ExchangeEvent::InboundRequest { from, request, handle } => (
            ExchangeEventModel::InboundRequest {
                from: from@,
                request: request@,
                handle: handle@,
            }),
            ExchangeEvent::ResponseArrived { request_id, response } => (
            ExchangeEventModel::ResponseArrived {
                request_id: *request_id,
                response: response@,
            }),
            ExchangeEvent::OutboundFailure { request_id, peer, cause } => (
            ExchangeEventModel::OutboundFailure {
                request_id: *request_id,
                peer: peer@,
                cause: *cause,
            }),
            ExchangeEvent::InboundFailure { peer, cause } => (ExchangeEventModel::InboundFailure {
                peer: peer@,
                cause: *cause,
            }),
        }
    }
}

/// What one poll cycle surfaces to the node loop.
pub enum ComposedEvent {
    /// A discovered peer, already recorded into the routing table.
    PeerDiscovered { peer: PeerIdentifier, address: Vec<u8> },
    /// A DHT event, surfaced for logging and then discarded.
    RoutingObserved { detail: Vec<u8> },
    /// An inbound request, already answered through the dispatcher;
    /// `accepted` says whether the reply reached the wire.
    InboundHandled {
        from: PeerIdentifier,
        request: CommandRequest,
        response: CommandResponse,
        accepted: bool,
    },
    /// A response arrived; `known` says whether it resolved a pending
    /// request.
    ResponseResolved { request_id: RequestId, response: CommandResponse, known: bool },
    /// An outbound request failed; `known` says whether it resolved a
    /// pending request.
    OutboundFailed { request_id: RequestId, peer: PeerIdentifier, cause: FailureCause, known: bool },
    /// A peer misbehaved on the inbound path.
    InboundFailed { peer: PeerIdentifier, cause: FailureCause },
}

/// Mathematical model of a surfaced event.
pub enum ComposedEventModel {
    PeerDiscovered { peer: Seq<u8>, address: Seq<u8> },
    RoutingObserved { detail: Seq<u8> },
    InboundHandled { from: Seq<u8>, request: ReqModel, response: RespModel, accepted: bool },
    ResponseResolved { request_id: RequestId, response: RespModel, known: bool },
    OutboundFailed { request_id: RequestId, peer: Seq<u8>, cause: FailureCause, known: bool },
    InboundFailed { peer: Seq<u8>, cause: FailureCause },
}

impl View for ComposedEvent {
    type V = ComposedEventModel;

    open spec fn view(&self) -> ComposedEventModel {
        match self {
            ComposedEvent::PeerDiscovered { peer, address } => (ComposedEventModel::PeerDiscovered {
                peer: peer@,
                address: address@,
            }),
            ComposedEvent::RoutingObserved { detail } => (ComposedEventModel::RoutingObserved {
                detail: detail@,
            }),
            ComposedEvent::InboundHandled { from, request, response, accepted } => (
            ComposedEventModel::InboundHandled {
                from: from@,
                request: request@,
                response: response@,
                accepted: *accepted,
            }),
            ComposedEvent::ResponseResolved { request_id, response, known } => (
            ComposedEventModel::ResponseResolved {
                request_id: *request_id,
                response: response@,
                known: *known,
            }),
            ComposedEvent::OutboundFailed { request_id, peer, cause, known } => (
            ComposedEventModel::OutboundFailed {
                request_id: *request_id,
                peer: peer@,
                cause: *cause,
                known: *known,
            }),
            ComposedEvent::InboundFailed { peer, cause } => (ComposedEventModel::InboundFailed {
                peer: peer@,
                cause: *cause,
            }),
        }
    }
}

/// What one exchange event does to the exchange, and what it surfaces: an
/// inbound request is answered by the dispatcher through its handle; a
/// response or an outbound failure resolves the pending request, if it is
/// still pending; an inbound failure only surfaces.
pub open spec fn exchange_step(m: ExchangeModel, ev: ExchangeEventModel) -> (
    ExchangeModel,
    ComposedEventModel,
) {
    match ev {
        ExchangeEventModel::InboundRequest { from, request, handle } => {
            let response = dispatch_model(request);
            let (replies, h2, accepted) = reply_transition(m.replies, handle, response);
            (
                (ExchangeModel { replies, ..m }),
                (ComposedEventModel::InboundHandled { from, request, response, accepted }),
            )
        },
        ExchangeEventModel::ResponseArrived { request_id, response } => {
            let (pending, taken) = take_transition(m.pending, request_id);
            (
                (ExchangeModel { pending, ..m }),
                (ComposedEventModel::ResponseResolved { request_id, response, known: taken is Some }),
            )
        },
        ExchangeEventModel::OutboundFailure { request_id, peer, cause } => {
            let (pending, taken) = take_transition(m.pending, request_id);
            (
                (ExchangeModel { pending, ..m }),
                (ComposedEventModel::OutboundFailed {
                    request_id,
                    peer,
                    cause,
                    known: taken is Some,
                }),
            )
        },
        ExchangeEventModel::InboundFailure { peer, cause } => (
            m,
            (ComposedEventModel::InboundFailed { peer, cause }),
        ),
    }
}

/// Applies one exchange event: dispatches and answers an inbound request,
/// resolves a pending request, or surfaces an inbound failure.
pub fn handle_exchange_event(exchange: &mut CommandExchange, event: ExchangeEvent) -> (r:
    ComposedEvent)
    requires
        exchange_wf(old(exchange)@),
    ensures
        exchange_wf(final(exchange)@),
        final(exchange)@ == exchange_step(old(exchange)@, event@).0,
        r@ == exchange_step(old(exchange)@, event@).1,
{
    match event {
        ExchangeEvent::InboundRequest { from, request, mut handle } => {
            let response = dispatch(&request);
            let surfaced = clone_response(&response);
            let sent = exchange.send_response(&mut handle, response);
            ComposedEvent::InboundHandled {
                from,
                request,
                response: surfaced,
                accepted: sent.is_ok(),
            }
        },
        ExchangeEvent::ResponseArrived { request_id, response } => {
            let taken = exchange.take_pending(request_id);
            ComposedEvent::ResponseResolved { request_id, response, known: taken.is_some() }
        },
        ExchangeEvent::OutboundFailure { request_id, peer, cause } => {
            let taken = exchange.take_pending(request_id);
            ComposedEvent::OutboundFailed { request_id, peer, cause, known: taken.is_some() }
        },
        ExchangeEvent::InboundFailure { peer, cause } => ComposedEvent::InboundFailed {
            peer,
            cause,
        },
    }
}

/// A queue with its ready head drained, if it had one.
pub open spec fn drain1<T>(q: Seq<T>) -> Seq<T> {
    if q.len() == 0 {
        q
    } else {
        q.drop_first()
    }
}

/// The composer's three event queues, fed by the subsystems and drained
/// fairly by `poll_cycle`.
pub struct Composer {
    pub discovery: Vec<DiscoveryEvent>,
    pub routing: Vec<RoutingEvent>,
    pub exchange: Vec<ExchangeEvent>,
}

/// Mathematical model of the three queues.
pub struct ComposerModel {
    pub discovery: Seq<DiscoveryModel>,
    pub routing: Seq<Seq<u8>>,
    pub exchange: Seq<ExchangeEventModel>,
}

impl View for Composer {
    type V = ComposerModel;

    open spec fn view(&self) -> ComposerModel {
        ComposerModel {
            discovery: self.discovery@.map_values(|e: DiscoveryEvent| e@),
            routing: self.routing@.map_values(|e: RoutingEvent| e@),
            exchange: self.exchange@.map_values(|e: ExchangeEvent| e@),
        }
    }
}

impl Composer {
    /// Three empty queues.
    pub fn new() -> (r: Composer)
        ensures
            r@.discovery == Seq::<DiscoveryModel>::empty(),
            r@.routing == Seq::<Seq<u8>>::empty(),
            r@.exchange == Seq::<ExchangeEventModel>::empty(),
    {
        let r = Composer { discovery: Vec::new(), routing: Vec::new(), exchange: Vec::new() };
        proof {
            assert(r@.discovery =~= Seq::<DiscoveryModel>::empty());
            assert(r@.routing =~= Seq::<Seq<u8>>::empty());
            assert(r@.exchange =~= Seq::<ExchangeEventModel>::empty());
        }
        r
    }

    /// Enqueues a discovery notification.
    pub fn push_discovery(&mut self, event: DiscoveryEvent)
        ensures
            final(self)@.discovery == old(self)@.discovery.push(event@),
            final(self)@.routing == old(self)@.routing,
            final(self)@.exchange == old(self)@.exchange,
    {
        self.discovery.push(event);
        proof {
            assert(self@.discovery =~= old(self)@.discovery.push(event@));
            assert(self@.routing =~= old(self)@.routing);
            assert(self@.exchange =~= old(self)@.exchange);
        }
    }

    /// Enqueues a routing-table event.
    pub fn push_routing(&mut self, event: RoutingEvent)
        ensures
            final(self)@.discovery == old(self)@.discovery,
            final(self)@.routing == old(self)@.routing.push(event@),
            final(self)@.exchange == old(self)@.exchange,
    {
        self.routing.push(event);
        proof {
            assert(self@.discovery =~= old(self)@.discovery);
            assert(self@.routing =~= old(self)@.routing.push(event@));
            assert(self@.exchange =~= old(self)@.exchange);
        }
    }

    /// Enqueues a command-exchange event.
    pub fn push_exchange(&mut self, event: ExchangeEvent)
        ensures
            final(self)@.discovery == old(self)@.discovery,
            final(self)@.routing == old(self)@.routing,
            final(self)@.exchange == old(self)@.exchange.push(event@),
    {
        self.exchange.push(event);
        proof {
            assert(self@.discovery =~= old(self)@.discovery);
            assert(self@.routing =~= old(self)@.routing);
            assert(self@.exchange =~= old(self)@.exchange.push(event@));
        }
    }

    /// One fair poll cycle: drains at most one ready event from each of
    /// the three queues, in a fixed order, and surfaces what it did. A
    /// queue that was ready is never skipped, so no subsystem goes a full
    /// cycle without progress while it has an event ready.
    pub fn poll_cycle(&mut self, table: &mut RoutingTable, exchange: &mut CommandExchange) -> (r: (
        Option<ComposedEvent>,
        Option<ComposedEvent>,
        Option<ComposedEvent>,
    ))
        requires
            peers_unique(old(table)@),
            exchange_wf(old(exchange)@),
        ensures
            peers_unique(final(table)@),
            exchange_wf(final(exchange)@),
            final(self)@.discovery == drain1(old(self)@.discovery),
            final(self)@.routing == drain1(old(self)@.routing),
            final(self)@.exchange == drain1(old(self)@.exchange),
            r.0 is Some <==> old(self)@.discovery.len() > 0,
            r.1 is Some <==> old(self)@.routing.len() > 0,
            r.2 is Some <==> old(self)@.exchange.len() > 0,
            match r.0 {
                Some(ev) => {
                    let head = old(self)@.discovery[0];
                    &&& ev@ == (ComposedEventModel::PeerDiscovered {
                        peer: head.peer,
                        address: head.address,
                    })
                    &&& final(table)@ == record_model(old(table)@, head.peer, head.address)
                },
                None => final(table)@ == old(table)@,
            },
            match r.1 {
                Some(ev) => ev@ == (ComposedEventModel::RoutingObserved {
                    detail: old(self)@.routing[0],
                }),
                None => true,
            },
            match r.2 {
                Some(ev) => {
                    let (m2, surfaced) = exchange_step(old(exchange)@, old(self)@.exchange[0]);
                    final(exchange)@ == m2 && ev@ == surfaced
                },
                None => final(exchange)@ == old(exchange)@,
            },
    {
        let first: Option<ComposedEvent> = if self.discovery.len() > 0 {
            let ev = self.discovery.remove(0);
            proof {
                assert(ev@ == old(self)@.discovery[0]);
                assert(self@.discovery =~= drain1(old(self)@.discovery));
                assert(self@.routing =~= old(self)@.routing);
                assert(self@.exchange =~= old(self)@.exchange);
            }
            let peer = clone_peer(&ev.peer);
            let address = copy_bytes(&ev.address);
            table.record_address(ev.peer, ev.address);
            Some(ComposedEvent::PeerDiscovered { peer, address })
        } else {
            proof {
                assert(self@.discovery =~= drain1(old(self)@.discovery));
            }
            None
        };
        let ghost mid1 = self@;
        let second: Option<ComposedEvent> = if self.routing.len() > 0 {
            let ev = self.routing.remove(0);
            proof {
                assert(ev@ == old(self)@.routing[0]);
                assert(self@.routing =~= drain1(old(self)@.routing));
                assert(self@.discovery =~= mid1.discovery);
                assert(self@.exchange =~= mid1.exchange);
            }
            Some(ComposedEvent::RoutingObserved { detail: ev.detail })
        } else {
            None
        };
        let ghost mid2 = self@;
        let third: Option<ComposedEvent> = if self.exchange.len() > 0 {
            let ev = self.exchange.remove(0);
            proof {
                assert(ev@ == old(self)@.exchange[0]);
                assert(self@.exchange =~= drain1(old(self)@.exchange));
                assert(self@.discovery =~= mid2.discovery);
                assert(self@.routing =~= mid2.routing);
            }
            Some(handle_exchange_event(exchange, ev))
        } else {
            None
        };
        (first, second, third)
    }
}

} // verus!
