//! Command exchange: the correlation layer between outbound requests and
//! their eventual responses.
//!
//! `send_request` hands out a fresh request identifier and parks the
//! request in the pending table; the identifier is never reused while the
//! request is pending. A pending request leaves the table through exactly
//! one call of `take_pending` — on a response, on an explicit failure, or
//! on expiry — so every identifier resolves at most once. An inbound
//! request carries a single-use reply handle: the first `send_response`
//! through it reaches the wire, every later one is rejected.

use vstd::prelude::*;

use crate::codec::CommandRequest;
use crate::codec::CommandResponse;
use crate::codec::ReqModel;
use crate::codec::RespModel;
use crate::peer::PeerIdentifier;

verus! {

/// Correlates an outbound request with its response.
pub type RequestId = u64;

/// The conservative default for how long a request may stay pending, in
/// seconds, before it counts as a timeout-derived outbound failure.
pub const DEFAULT_TIMEOUT_SECONDS: u64 = 30;

/// Why an outbound or inbound exchange failed.
#[derive(Debug, Clone, Copy, PartialEq, Eq, Structural)]
pub enum FailureCause {
    /// No connection to the peer could be made.
    Unreachable,
    /// The peer refused the protocol.
    Refused,
    /// The bytes read from the peer were not a valid frame.
    DecodeFailure,
    /// No response arrived within the configured duration.
    Timeout,
}

/// An outbound request parked until its response, failure or expiry.
pub struct PendingRequest {
    pub id: RequestId,
    pub peer: PeerIdentifier,
    pub request: CommandRequest,
    /// When the request was sent, for the expiry check.
    pub sent_at: u64,
}

/// Mathematical model of a pending request.
pub struct PendingModel {
    pub id: RequestId,
    pub peer: Seq<u8>,
    pub request: ReqModel,
    pub sent_at: u64,
}

impl View for PendingRequest {
    type V = PendingModel;

    open spec fn view(&self) -> PendingModel {
        PendingModel { id: self.id, peer: self.peer@, request: self.request@, sent_at: self.sent_at }
    }
}

/// The channel back to the sender of one inbound request. Consumed by the
/// first response sent through it; never cloned.
pub struct InboundReplyHandle {
    pub peer: PeerIdentifier,
    /// The sender's own identifier of its request.
    pub inbound_id: u64,
    pub consumed: bool,
}

/// Mathematical model of a reply handle.
pub struct HandleModel {
    pub peer: Seq<u8>,
    pub inbound_id: u64,
    pub consumed: bool,
}

impl View for InboundReplyHandle {
    type V = HandleModel;

    open spec fn view(&self) -> HandleModel {
        HandleModel { peer: self.peer@, inbound_id: self.inbound_id, consumed: self.consumed }
    }
}

impl InboundReplyHandle {
    /// A fresh, unconsumed handle for one inbound request.
    pub fn new(peer: PeerIdentifier, inbound_id: u64) -> (h: InboundReplyHandle)
        ensures
            h@ == (HandleModel { peer: peer@, inbound_id, consumed: false }),
    {
        InboundReplyHandle { peer, inbound_id, consumed: false }
    }
}

/// The error of replying through an already-consumed handle.
#[derive(Debug, Clone, Copy, PartialEq, Eq, Structural)]
pub enum ReplyError {
    AlreadyConsumed,
}

/// The exchange: the pending-request table, the identifier counter, the
/// configured timeout, and the responses handed to the wire.
pub struct CommandExchange {
    pub next_id: u64,
    /// How long a request may stay pending before it counts as failed.
    pub timeout: u64,
    pub pending: Vec<PendingRequest>,
    /// Responses sent so far, in wire order.
    pub replies: Vec<CommandResponse>,
}

/// Mathematical model of the exchange.
pub struct ExchangeModel {
    pub next_id: u64,
    pub timeout: u64,
    pub pending: Seq<PendingModel>,
    pub replies: Seq<RespModel>,
}

impl View for CommandExchange {
    type V = ExchangeModel;

    open spec fn view(&self) -> ExchangeModel {
        ExchangeModel {
            next_id: self.next_id,
            timeout: self.timeout,
            pending: self.pending@.map_values(|p: PendingRequest| p@),
            replies: self.replies@.map_values(|r: CommandResponse| r@),
        }
    }
}

/// Whether some pending request carries this identifier.
pub open spec fn has_pending(s: Seq<PendingModel>, id: RequestId) -> bool {
    exists|i: int| 0 <= i < s.len() && #[trigger] s[i].id == id
}

/// The index of the pending request with this identifier.
pub open spec fn pending_index(s: Seq<PendingModel>, id: RequestId) -> int {
    choose|i: int| 0 <= i < s.len() && #[trigger] s[i].id == id
}

/// No two pending requests share an identifier.
pub open spec fn ids_unique(s: Seq<PendingModel>) -> bool {
    forall|i: int, j: int| 0 <= i < j < s.len() ==> #[trigger] s[i].id != #[trigger] s[j].id
}

/// Well-formed exchange: pending identifiers are unique and below the
/// counter, so a fresh identifier never collides.
pub open spec fn exchange_wf(m: ExchangeModel) -> bool {
    &&& ids_unique(m.pending)
    &&& forall|i: int| 0 <= i < m.pending.len() ==> #[trigger] m.pending[i].id < m.next_id
}

/// Removing a request: the table without the identifier's entry and the
/// entry itself, or the table unchanged and nothing.
pub open spec fn take_transition(s: Seq<PendingModel>, id: RequestId) -> (Seq<PendingModel>, Option<
    PendingModel,
>) {
    if has_pending(s, id) {
        (s.remove(pending_index(s, id)), Some(s[pending_index(s, id)]))
    } else {
        (s, None)
    }
}

/// Replying through a handle: the first use appends to the wire and
/// consumes the handle; a use of a consumed handle changes nothing and is
/// not accepted.
pub open spec fn reply_transition(
    replies: Seq<RespModel>,
    h: HandleModel,
    resp: RespModel,
) -> (Seq<RespModel>, HandleModel, bool) {
    if h.consumed {
        (replies, h, false)
    } else {
        (replies.push(resp), (HandleModel { consumed: true, ..h }), true)
    }
}

/// After a request is taken out, its identifier is pending no more, every
/// other identifier is untouched, and uniqueness is kept.
pub proof fn lemma_take_removes(s: Seq<PendingModel>, id: RequestId)
    requires
        ids_unique(s),
    ensures
        !has_pending(take_transition(s, id).0, id),
        ids_unique(take_transition(s, id).0),
        forall|o: RequestId| o != id ==> has_pending(take_transition(s, id).0, o) == has_pending(
            s,
            o,
        ),
{
    if has_pending(s, id) {
        let i = pending_index(s, id);
        let s1 = s.remove(i);
        assert forall|k: int| 0 <= k < s1.len() implies s1[k].id != id by {
            if k < i {
                assert(s1[k] == s[k]);
            } else {
                assert(s1[k] == s[k + 1]);
            }
        }
        assert forall|a: int, b: int| 0 <= a < b < s1.len() implies s1[a].id != s1[b].id by {
            let a0 = if a < i { a } else { a + 1 };
            let b0 = if b < i { b } else { b + 1 };
            assert(s1[a] == s[a0]);
            assert(s1[b] == s[b0]);
        }
        assert forall|o: RequestId| o != id implies has_pending(s1, o) == has_pending(s, o) by {
            if has_pending(s1, o) {
                let k = choose|k: int| 0 <= k < s1.len() && #[trigger] s1[k].id == o;
                if k < i {
                    assert(s[k].id == o);
                } else {
                    assert(s[k + 1].id == o);
                }
            }
            if has_pending(s, o) {
                let k = choose|k: int| 0 <= k < s.len() && #[trigger] s[k].id == o;
                if k < i {
                    assert(s1[k].id == o);
                } else {
                    assert(k != i);
                    assert(s1[k - 1] == s[k]);
                }
            }
        }
    }
}

/// At-most-one resolution: a request identifier leaves the pending table
/// through exactly one event — a response, an explicit outbound failure,
/// or a timeout-derived failure, whichever takes it first. A later event
/// with the same identifier finds nothing and changes nothing.
pub proof fn lemma_at_most_one_resolution(pending: Seq<PendingModel>, id: RequestId)
    requires
        ids_unique(pending),
    ensures
        ({
            let (p1, r1) = take_transition(pending, id);
            let (p2, r2) = take_transition(p1, id);
            r2 is None && p2 == p1
        }),
{
    lemma_take_removes(pending, id);
}

/// At-most-one reply: the first response through a fresh handle is
/// accepted and reaches the wire; a second through the same handle is
/// rejected and the wire sees nothing new.
pub proof fn lemma_at_most_one_reply(
    replies: Seq<RespModel>,
    h: HandleModel,
    first: RespModel,
    second: RespModel,
)
    requires
        !h.consumed,
    ensures
        ({
            let (q1, h1, a1) = reply_transition(replies, h, first);
            let (q2, h2, a2) = reply_transition(q1, h1, second);
            a1 && !a2 && q2 == q1 && h2 == h1 && q1 == replies.push(first)
        }),
{
}

/// The expired identifiers are identifiers of pending requests, and no
/// identifier appears twice among them.
pub proof fn lemma_expired_of_pending(s: Seq<PendingModel>, timeout: u64, now: u64)
    requires
        ids_unique(s),
    ensures
        ({
            let expired = CommandExchange::expired_of(s, timeout, now);
            &&& forall|j: int| 0 <= j < expired.len() ==> has_pending(s, #[trigger] expired[j])
            &&& forall|j1: int, j2: int| 0 <= j1 < j2 < expired.len() ==> #[trigger] expired[j1]
                != #[trigger] expired[j2]
        }),
    decreases s.len(),
{
    if s.len() > 0 {
        let prefix = s.drop_last();
        assert(ids_unique(prefix)) by {
            assert forall|i: int, j: int| 0 <= i < j < prefix.len() implies #[trigger] prefix[i].id
                != #[trigger] prefix[j].id by {
                assert(prefix[i] == s[i]);
                assert(prefix[j] == s[j]);
            }
        }
        lemma_expired_of_pending(prefix, timeout, now);
        let sub = CommandExchange::expired_of(prefix, timeout, now);
        let expired = CommandExchange::expired_of(s, timeout, now);
        assert forall|j: int| 0 <= j < sub.len() implies has_pending(s, #[trigger] sub[j]) by {
            let k = choose|k: int| 0 <= k < prefix.len() && #[trigger] prefix[k].id == sub[j];
            assert(s[k].id == sub[j]);
        }
        if CommandExchange::expired_at(s.last(), timeout, now) {
            assert(expired == sub.push(s.last().id));
            assert(has_pending(s, s.last().id)) by {
                assert(s[s.len() - 1].id == s.last().id);
            }
            assert forall|j: int| 0 <= j < sub.len() implies #[trigger] sub[j] != s.last().id by {
                let k = choose|k: int| 0 <= k < prefix.len() && #[trigger] prefix[k].id == sub[j];
                assert(s[k].id != s[s.len() - 1].id);
            }
        }
    }
}

impl CommandExchange {
    /// A fresh exchange with no pending requests and the given timeout.
    pub fn new(timeout: u64) -> (r: CommandExchange)
        ensures
            r@ == (ExchangeModel {
                next_id: 0,
                timeout,
                pending: Seq::<PendingModel>::empty(),
                replies: Seq::<RespModel>::empty(),
            }),
            exchange_wf(r@),
    {
        let r = CommandExchange { next_id: 0, timeout, pending: Vec::new(), replies: Vec::new() };
        proof {
            assert(r@.pending =~= Seq::<PendingModel>::empty());
            assert(r@.replies =~= Seq::<RespModel>::empty());
        }
        r
    }

    /// A fresh exchange with the conservative default timeout.
    pub fn with_default_timeout() -> (r: CommandExchange)
        ensures
            r@ == (ExchangeModel {
                next_id: 0,
                timeout: DEFAULT_TIMEOUT_SECONDS,
                pending: Seq::<PendingModel>::empty(),
                replies: Seq::<RespModel>::empty(),
            }),
            exchange_wf(r@),
    {
        CommandExchange::new(DEFAULT_TIMEOUT_SECONDS)
    }

    /// Sends a request: parks it under a fresh identifier and returns the
    /// identifier. Never blocks; a failure to reach the peer surfaces
    /// later as an asynchronous failure event, not here.
    pub fn send_request(
        &mut self,
        peer: PeerIdentifier,
        request: CommandRequest,
        now: u64,
    ) -> (id: RequestId)
        requires
            exchange_wf(old(self)@),
            old(self).next_id < u64::MAX,
        ensures
            id == old(self)@.next_id,
            final(self)@.next_id == old(self)@.next_id + 1,
            final(self)@.timeout == old(self)@.timeout,
            final(self)@.replies == old(self)@.replies,
            final(self)@.pending == old(self)@.pending.push(
                (PendingModel { id, peer: peer@, request: request@, sent_at: now }),
            ),
            exchange_wf(final(self)@),
            !has_pending(old(self)@.pending, id),
    {
        let id = self.next_id;
        self.next_id = self.next_id + 1;
        let entry = PendingRequest { id, peer, request, sent_at: now };
        self.pending.push(entry);
        proof {
            assert(self@.pending =~= old(self)@.pending.push(entry@));
            assert(self@.replies =~= old(self)@.replies);
            let p = self@.pending;
            assert forall|a: int, b: int| 0 <= a < b < p.len() implies p[a].id != p[b].id by {
                if b < p.len() - 1 {
                    assert(old(self)@.pending[a].id != old(self)@.pending[b].id);
                }
            }
            if has_pending(old(self)@.pending, id) {
                let k = pending_index(old(self)@.pending, id);
                assert(old(self)@.pending[k].id < id);
            }
        }
        id
    }

    /// Takes the pending request with this identifier out of the table,
    /// if it is still there. All three resolution paths — response,
    /// explicit failure, timeout — go through here, so each identifier
    /// resolves at most once.
    pub fn take_pending(&mut self, id: RequestId) -> (r: Option<PendingRequest>)
        requires
            exchange_wf(old(self)@),
        ensures
            final(self)@.next_id == old(self)@.next_id,
            final(self)@.timeout == old(self)@.timeout,
            final(self)@.replies == old(self)@.replies,
            final(self)@.pending == take_transition(old(self)@.pending, id).0,
            (match r {
                Some(p) => Some(p@),
                None => None::<PendingModel>,
            }) == take_transition(old(self)@.pending, id).1,
            exchange_wf(final(self)@),
            !has_pending(final(self)@.pending, id),
            forall|o: RequestId| o != id ==> has_pending(final(self)@.pending, o) == has_pending(
                old(self)@.pending,
                o,
            ),
    {
        proof {
            lemma_take_removes(old(self)@.pending, id);
        }
        let mut i: usize = 0;
        while i < self.pending.len()
            invariant
                self == old(self),
                exchange_wf(self@),
                i <= self@.pending.len(),
                forall|j: int| 0 <= j < i ==> self@.pending[j].id != id,
            decreases self@.pending.len() - i,
        {
            if self.pending[i].id == id {
                let ghost m0 = self@.pending;
                let p = self.pending.remove(i);
                proof {
                    assert(m0[i as int] == old(self).pending@[i as int]@);
                    assert(m0[i as int].id == id);
                    assert(has_pending(m0, id));
                    assert(pending_index(m0, id) == i) by {
                        let k = pending_index(m0, id);
                        if k < i {
                            assert(m0[k].id != id);
                        }
                        if k > i {
                            assert(m0[i as int].id != m0[k].id);
                        }
                    }
                    assert(self@.pending =~= m0.remove(i as int));
                    assert(self@.replies =~= old(self)@.replies);
                    assert(take_transition(m0, id).0 == self@.pending);
                    assert(take_transition(m0, id).1 == Some(m0[i as int]));
                    assert forall|o: RequestId| o != id implies has_pending(self@.pending, o)
                        == has_pending(m0, o) by {
                        lemma_take_removes(m0, id);
                    }
                }
                return Some(p);
            }
            i = i + 1;
        }
        proof {
            assert(!has_pending(self@.pending, id));
        }
        None
    }

    /// Sends the one response a reply handle is good for. The first call
    /// consumes the handle and reaches the wire; a call with a consumed
    /// handle is rejected and sends nothing.
    pub fn send_response(
        &mut self,
        handle: &mut InboundReplyHandle,
        response: CommandResponse,
    ) -> (r: Result<(), ReplyError>)
        ensures
            final(self)@.next_id == old(self)@.next_id,
            final(self)@.timeout == old(self)@.timeout,
            final(self)@.pending == old(self)@.pending,
            ({
                let (q2, h2, accepted) = reply_transition(
                    old(self)@.replies,
                    old(handle)@,
                    response@,
                );
                final(self)@.replies == q2 && final(handle)@ == h2 && (r is Ok <==> accepted)
            }),
            old(handle)@.consumed ==> r == Err::<(), ReplyError>(ReplyError::AlreadyConsumed),
    {
        if handle.consumed {
            return Err(ReplyError::AlreadyConsumed);
        }
        handle.consumed = true;
        self.replies.push(response);
        proof {
            assert(self@.replies =~= old(self)@.replies.push(response@));
            assert(self@.pending =~= old(self)@.pending);
        }
        Ok(())
    }

    /// Whether this pending request has outlived the timeout at `now`.
    pub open spec fn expired_at(p: PendingModel, timeout: u64, now: u64) -> bool {
        p.sent_at <= now && now - p.sent_at >= timeout
    }

    /// The identifiers of the pending requests that have expired, in
    /// table order.
    pub open spec fn expired_of(s: Seq<PendingModel>, timeout: u64, now: u64) -> Seq<RequestId>
        decreases s.len(),
    {
        if s.len() == 0 {
            Seq::empty()
        } else {
            let rest = Self::expired_of(s.drop_last(), timeout, now);
            if Self::expired_at(s.last(), timeout, now) {
                rest.push(s.last().id)
            } else {
                rest
            }
        }
    }

    /// Lists the identifiers whose requests have waited at least the
    /// configured timeout: each counts as a timeout-derived outbound
    /// failure and is then resolved through `take_pending`.
    pub fn expired_ids(&self, now: u64) -> (r: Vec<RequestId>)
        ensures
            r@ == Self::expired_of(self@.pending, self@.timeout, now),
    {
        let mut out: Vec<RequestId> = Vec::new();
        let mut i: usize = 0;
        while i < self.pending.len()
            invariant
                i <= self@.pending.len(),
                out@ == Self::expired_of(
                    self@.pending.take(i as int),
                    self@.timeout,
                    now,
                ),
            decreases self@.pending.len() - i,
        {
            let p = &self.pending[i];
            if p.sent_at <= now && now - p.sent_at >= self.timeout {
                out.push(p.id);
            }
            i = i + 1;
            proof {
                let taken = self@.pending.take(i as int);
                assert(taken.drop_last() =~= self@.pending.take(i - 1));
                assert(taken.last() == self@.pending[i - 1]);
            }
        }
        proof {
            assert(self@.pending.take(self@.pending.len() as int) =~= self@.pending);
        }
        out
    }
}

} // verus!
