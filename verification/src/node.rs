//! The node control loop's decisions: the line-oriented control
//! interface, the trust-ping initiator, and the owning state of one node.
//!
//! One line of user input is split on whitespace and interpreted as one
//! of the control commands; a malformed peer identifier or a missing
//! argument rejects the line with a diagnostic and sends nothing. The
//! loop itself — reading input, moving bytes, sleeping — lives outside;
//! this module turns a line and the current time into the next state and
//! the action taken.

use vstd::prelude::*;

use crate::bytes::copy_bytes;
use crate::codec::CommandRequest;
use crate::codec::ReqModel;
use crate::composer::ComposedEvent;
use crate::composer::ComposedEventModel;
use crate::composer::Composer;
use crate::didcomm::EnvModel;
use crate::didcomm::TrustPingEnvelope;
use crate::didcomm::byte_ok;
use crate::didcomm::env_wf;
use crate::didcomm::ser_trust_ping_type;
use crate::didcomm::serialize_env;
use crate::didcomm::serialize_trust_ping;
use crate::didcomm::text_ok;
use crate::didcomm::lit_trust_ping_type;
use crate::exchange::CommandExchange;
use crate::exchange::ExchangeModel;
use crate::exchange::FailureCause;
use crate::exchange::PendingModel;
use crate::exchange::RequestId;
use crate::exchange::exchange_wf;
use crate::exchange::has_pending;
use crate::peer::Did;
use crate::peer::PeerIdentifier;
use crate::peer::clone_peer;
use crate::peer::did_text_of;
use crate::peer::is_base58_byte;
use crate::peer::make_did;
use crate::peer::parse_peer_id;
use crate::peer::valid_peer_text;
use crate::routing::RoutingTable;
use crate::routing::listing_model;
use crate::routing::peers_unique;

verus! {

/// A whitespace byte of the control interface: space or tab.
pub open spec fn is_space(b: u8) -> bool {
    b == 32 || b == 9
}

/// The tokens of `s` with `cur` as the token being read: spaces end the
/// current token, every other byte extends it.
pub open spec fn tok_rec(s: Seq<u8>, cur: Seq<u8>) -> Seq<Seq<u8>>
    decreases s.len(),
{
    if s.len() == 0 {
        if cur.len() == 0 {
            Seq::empty()
        } else {
            seq![cur]
        }
    } else if is_space(s[0]) {
        if cur.len() == 0 {
            tok_rec(s.drop_first(), Seq::empty())
        } else {
            seq![cur] + tok_rec(s.drop_first(), Seq::empty())
        }
    } else {
        tok_rec(s.drop_first(), cur.push(s[0]))
    }
}

/// The whitespace-separated tokens of one input line.
pub open spec fn tokens_of(s: Seq<u8>) -> Seq<Seq<u8>> {
    tok_rec(s, Seq::empty())
}

/// Splits one line on whitespace.
pub fn tokenize(line: &Vec<u8>) -> (r: Vec<Vec<u8>>)
    ensures
        r@.map_values(|t: Vec<u8>| t@) == tokens_of(line@),
{
    let mut out: Vec<Vec<u8>> = Vec::new();
    let mut cur: Vec<u8> = Vec::new();
    let mut i: usize = 0;
    proof {
        assert(line@.skip(0) =~= line@);
    }
    while i < line.len()
        invariant
            i <= line@.len(),
            tokens_of(line@) == out@.map_values(|t: Vec<u8>| t@) + tok_rec(
                line@.skip(i as int),
                cur@,
            ),
        decreases line@.len() - i,
    {
        let ghost rest = line@.skip(i as int);
        proof {
            assert(rest[0] == line@[i as int]);
            assert(rest.drop_first() =~= line@.skip(i + 1));
        }
        let b = line[i];
        if b == 32 || b == 9 {
            if cur.len() > 0 {
                let ghost prevout = out@;
                let ghost curv = cur@;
                out.push(cur);
                cur = Vec::new();
                proof {
                    assert(cur@ =~= Seq::<u8>::empty());
                    assert(tok_rec(rest, curv) == seq![curv] + tok_rec(
                        line@.skip(i + 1),
                        Seq::<u8>::empty(),
                    ));
                    assert(out@.map_values(|t: Vec<u8>| t@) =~= prevout.map_values(
                        |t: Vec<u8>| t@,
                    ) + seq![curv]);
                    assert(prevout.map_values(|t: Vec<u8>| t@) + (seq![curv] + tok_rec(
                        line@.skip(i + 1),
                        Seq::<u8>::empty(),
                    )) =~= out@.map_values(|t: Vec<u8>| t@) + tok_rec(
                        line@.skip(i + 1),
                        Seq::<u8>::empty(),
                    ));
                }
            } else {
                proof {
                    assert(cur@ =~= Seq::<u8>::empty());
                    assert(tok_rec(rest, cur@) == tok_rec(line@.skip(i + 1), Seq::<u8>::empty()));
                }
            }
        } else {
            let ghost curv = cur@;
            cur.push(b);
            proof {
                assert(tok_rec(rest, curv) == tok_rec(line@.skip(i + 1), curv.push(b)));
                assert(cur@ == curv.push(b));
            }
        }
        i = i + 1;
    }
    proof {
        assert(line@.skip(line@.len() as int) =~= Seq::<u8>::empty());
    }
    if cur.len() > 0 {
        let ghost prevout = out@;
        let ghost curv = cur@;
        out.push(cur);
        proof {
            assert(tok_rec(Seq::<u8>::empty(), curv) == seq![curv]);
            assert(out@.map_values(|t: Vec<u8>| t@) =~= prevout.map_values(|t: Vec<u8>| t@)
                + seq![curv]);
        }
    } else {
        proof {
            assert(tok_rec(Seq::<u8>::empty(), cur@) =~= Seq::<Seq<u8>>::empty());
            assert(out@.map_values(|t: Vec<u8>| t@) + Seq::<Seq<u8>>::empty() =~= out@.map_values(
                |t: Vec<u8>| t@,
            ));
        }
    }
    out
}

/// The control keyword that sends a plain ping.
pub open spec fn kw_ping() -> Seq<u8> {
    seq![80u8, 73, 78, 71]
}

/// The control keyword of the trust-ping paths.
pub open spec fn kw_trustping() -> Seq<u8> {
    seq![84u8, 82, 85, 83, 84, 80, 73, 78, 71]
}

/// The control keyword that sends a command token.
pub open spec fn kw_cmd() -> Seq<u8> {
    seq![67u8, 77, 68]
}

/// The control keyword that lists the routing table.
pub open spec fn kw_list() -> Seq<u8> {
    seq![76u8, 73, 83, 84]
}

fn lit_kw_ping() -> (r: Vec<u8>)
    ensures
        r@ == kw_ping(),
{
    let mut v: Vec<u8> = Vec::new();
    v.push(80);
    v.push(73);
    v.push(78);
    v.push(71);
    proof {
        assert(v@ =~= kw_ping());
    }
    v
}

fn lit_kw_trustping() -> (r: Vec<u8>)
    ensures
        r@ == kw_trustping(),
{
    let mut v: Vec<u8> = Vec::new();
    v.push(84);
    v.push(82);
    v.push(85);
    v.push(83);
    v.push(84);
    v.push(80);
    v.push(73);
    v.push(78);
    v.push(71);
    proof {
        assert(v@ =~= kw_trustping());
    }
    v
}

fn lit_kw_cmd() -> (r: Vec<u8>)
    ensures
        r@ == kw_cmd(),
{
    let mut v: Vec<u8> = Vec::new();
    v.push(67);
    v.push(77);
    v.push(68);
    proof {
        assert(v@ =~= kw_cmd());
    }
    v
}

fn lit_kw_list() -> (r: Vec<u8>)
    ensures
        r@ == kw_list(),
{
    let mut v: Vec<u8> = Vec::new();
    v.push(76);
    v.push(73);
    v.push(83);
    v.push(84);
    proof {
        assert(v@ =~= kw_list());
    }
    v
}

/// What one line of user input asks the node to do, or why it is
/// rejected.
pub enum UserAction {
    /// `PING <peer>`: send a plain ping.
    SendPing { peer: PeerIdentifier },
    /// `TRUSTPING <peer>`: sends a plain ping in this version; whether it
    /// should start the handshake instead is an open question of the
    /// control interface.
    SendTrustPing { peer: PeerIdentifier },
    /// `CMD <peer> TRUSTPING`: start the identity handshake.
    StartHandshake { peer: PeerIdentifier },
    /// `CMD <peer> <token>`: send the token as an opaque payload.
    SendCommand { peer: PeerIdentifier, token: Vec<u8> },
    /// `LIST`: print the routing table.
    ListEntries,
    /// The first token is no known command.
    Invalid,
    /// A peer argument was given but is no plausible identifier.
    InvalidPeer,
    /// The peer argument is missing.
    MissingPeer,
    /// `CMD` without a command token.
    MissingToken,
}

/// Mathematical model of an interpreted line.
pub enum ActionModel {
    SendPing { peer: Seq<u8> },
    SendTrustPing { peer: Seq<u8> },
    StartHandshake { peer: Seq<u8> },
    SendCommand { peer: Seq<u8>, token: Seq<u8> },
    ListEntries,
    Invalid,
    InvalidPeer,
    MissingPeer,
    MissingToken,
}

impl View for UserAction {
    type V = ActionModel;

    open spec fn view(&self) -> ActionModel {
        match self {
            UserAction::SendPing { peer } => (ActionModel::SendPing { peer: peer@ }),
            UserAction::SendTrustPing { peer } => (ActionModel::SendTrustPing { peer: peer@ }),
            UserAction::StartHandshake { peer } => (ActionModel::StartHandshake { peer: peer@ }),
            UserAction::SendCommand { peer, token } => (ActionModel::SendCommand {
                peer: peer@,
                token: token@,
            }),
            UserAction::ListEntries => ActionModel::ListEntries,
            UserAction::Invalid => ActionModel::Invalid,
            UserAction::InvalidPeer => ActionModel::InvalidPeer,
            UserAction::MissingPeer => ActionModel::MissingPeer,
            UserAction::MissingToken => ActionModel::MissingToken,
        }
    }
}

/// The meaning of a token list: the first token picks the command, the
/// second is the peer where one is due, and `CMD` takes a command token
/// whose value `TRUSTPING` starts the handshake.
pub open spec fn interpret_model(toks: Seq<Seq<u8>>) -> ActionModel {
    if toks.len() == 0 {
        ActionModel::Invalid
    } else if toks[0] == kw_ping() {
        if toks.len() < 2 {
            ActionModel::MissingPeer
        } else if !valid_peer_text(toks[1]) {
            ActionModel::InvalidPeer
        } else {
            ActionModel::SendPing { peer: toks[1] }
        }
    } else if toks[0] == kw_trustping() {
        if toks.len() < 2 {
            ActionModel::MissingPeer
        } else if !valid_peer_text(toks[1]) {
            ActionModel::InvalidPeer
        } else {
            ActionModel::SendTrustPing { peer: toks[1] }
        }
    } else if toks[0] == kw_cmd() {
        if toks.len() < 2 {
            ActionModel::MissingPeer
        } else if !valid_peer_text(toks[1]) {
            ActionModel::InvalidPeer
        } else if toks.len() < 3 {
            ActionModel::MissingToken
        } else if toks[2] == kw_trustping() {
            ActionModel::StartHandshake { peer: toks[1] }
        } else {
            ActionModel::SendCommand { peer: toks[1], token: toks[2] }
        }
    } else if toks[0] == kw_list() {
        ActionModel::ListEntries
    } else {
        ActionModel::Invalid
    }
}

/// Interprets a token list as one control command.
pub fn interpret_tokens(tokens: &Vec<Vec<u8>>) -> (r: UserAction)
    ensures
        r@ == interpret_model(tokens@.map_values(|t: Vec<u8>| t@)),
{
    let ghost toks = tokens@.map_values(|t: Vec<u8>| t@);
    if tokens.len() == 0 {
        return UserAction::Invalid;
    }
    let ping = lit_kw_ping();
    let trustping = lit_kw_trustping();
    let cmd = lit_kw_cmd();
    let list = lit_kw_list();
    if crate::bytes::bytes_eq(&tokens[0], &ping) {
        if tokens.len() < 2 {
            return UserAction::MissingPeer;
        }
        match parse_peer_id(&tokens[1]) {
            Some(peer) => UserAction::SendPing { peer },
            None => UserAction::InvalidPeer,
        }
    } else if crate::bytes::bytes_eq(&tokens[0], &trustping) {
        if tokens.len() < 2 {
            return UserAction::MissingPeer;
        }
        match parse_peer_id(&tokens[1]) {
            Some(peer) => UserAction::SendTrustPing { peer },
            None => UserAction::InvalidPeer,
        }
    } else if crate::bytes::bytes_eq(&tokens[0], &cmd) {
        if tokens.len() < 2 {
            return UserAction::MissingPeer;
        }
        match parse_peer_id(&tokens[1]) {
            Some(peer) => {
                if tokens.len() < 3 {
                    return UserAction::MissingToken;
                }
                if crate::bytes::bytes_eq(&tokens[2], &trustping) {
                    UserAction::StartHandshake { peer }
                } else {
                    UserAction::SendCommand { peer, token: copy_bytes(&tokens[2]) }
                }
            },
            None => UserAction::InvalidPeer,
        }
    } else if crate::bytes::bytes_eq(&tokens[0], &list) {
        UserAction::ListEntries
    } else {
        UserAction::Invalid
    }
}

/// The fixed-width decimal rendering of `n`: `k` digits, most
/// significant first, zero-padded.
pub open spec fn dec_digits(n: nat, k: nat) -> Seq<u8>
    decreases k,
{
    if k == 0 {
        Seq::empty()
    } else {
        dec_digits(n / 10, (k - 1) as nat).push((48 + n % 10) as u8)
    }
}

/// A message identifier derived from the time: the sending instant as
/// twenty zero-padded decimal digits, so identifiers sort as their
/// instants do.
pub open spec fn timestamp_text(now: u64) -> Seq<u8> {
    dec_digits(now as nat, 20)
}

/// Ten to the `k`.
pub open spec fn pow10(k: nat) -> nat
    decreases k,
{
    if k == 0 {
        1
    } else {
        10 * pow10((k - 1) as nat)
    }
}

/// Lexicographic order on equal-length byte strings: at the first index
/// where they differ, the first is smaller.
pub open spec fn lex_lt(a: Seq<u8>, b: Seq<u8>) -> bool {
    exists|i: int|
        {
            &&& 0 <= i < a.len()
            &&& i < b.len()
            &&& #[trigger] a[i] < b[i]
            &&& forall|j: int| 0 <= j < i ==> a[j] == b[j]
        }
}

proof fn lemma_dec_digits_sorted(n1: nat, n2: nat, k: nat)
    requires
        n1 < n2 < pow10(k),
    ensures
        lex_lt(dec_digits(n1, k), dec_digits(n2, k)),
    decreases k,
{
    let a = dec_digits(n1, k);
    let b = dec_digits(n2, k);
    lemma_digits_ok(n1, k);
    lemma_digits_ok(n2, k);
    assert(k > 0) by {
        if k == 0 {
            assert(pow10(0) == 1);
        }
    }
    let q1 = n1 / 10;
    let q2 = n2 / 10;
    vstd::arithmetic::div_mod::lemma_fundamental_div_mod(n1 as int, 10);
    vstd::arithmetic::div_mod::lemma_fundamental_div_mod(n2 as int, 10);
    if q1 == q2 {
        assert(n1 % 10 < n2 % 10);
        assert(a[k - 1] == (48 + n1 % 10) as u8);
        assert(b[k - 1] == (48 + n2 % 10) as u8);
        assert(a[k - 1] < b[k - 1]);
        assert forall|j: int| 0 <= j < k - 1 implies a[j] == b[j] by {
            assert(a[j] == dec_digits(q1, (k - 1) as nat)[j]);
            assert(b[j] == dec_digits(q2, (k - 1) as nat)[j]);
        }
        assert(lex_lt(a, b));
    } else {
        assert(q1 <= q2) by {
            vstd::arithmetic::div_mod::lemma_div_is_ordered(n1 as int, n2 as int, 10);
        }
        assert(q2 < pow10((k - 1) as nat)) by (nonlinear_arith)
            requires
                n2 < pow10(k),
                pow10(k) == 10 * pow10((k - 1) as nat),
                q2 == n2 / 10,
        ;
        lemma_dec_digits_sorted(q1, q2, (k - 1) as nat);
        let pa = dec_digits(q1, (k - 1) as nat);
        let pb = dec_digits(q2, (k - 1) as nat);
        let i = choose|i: int|
            {
                &&& 0 <= i < pa.len()
                &&& i < pb.len()
                &&& #[trigger] pa[i] < pb[i]
                &&& forall|j: int| 0 <= j < i ==> pa[j] == pb[j]
            };
        assert(a[i] == pa[i]);
        assert(b[i] == pb[i]);
        assert forall|j: int| 0 <= j < i implies a[j] == b[j] by {
            assert(a[j] == pa[j]);
            assert(b[j] == pb[j]);
        }
        assert(lex_lt(a, b));
    }
}

proof fn lemma_pow10_20()
    ensures
        pow10(20) > u64::MAX,
{
    assert(pow10(0) == 1);
    assert(pow10(1) == 10);
    assert(pow10(2) == 100);
    assert(pow10(3) == 1000);
    assert(pow10(4) == 10000);
    assert(pow10(5) == 100000);
    assert(pow10(6) == 1000000);
    assert(pow10(7) == 10000000);
    assert(pow10(8) == 100000000);
    assert(pow10(9) == 1000000000);
    assert(pow10(10) == 10000000000);
    assert(pow10(11) == 100000000000);
    assert(pow10(12) == 1000000000000);
    assert(pow10(13) == 10000000000000);
    assert(pow10(14) == 100000000000000);
    assert(pow10(15) == 1000000000000000);
    assert(pow10(16) == 10000000000000000);
    assert(pow10(17) == 100000000000000000);
    assert(pow10(18) == 1000000000000000000);
    assert(pow10(19) == 10000000000000000000);
    assert(pow10(20) == 100000000000000000000);
}

/// The message identifier is a sortable rendering of the time: an
/// earlier instant's identifier is lexicographically smaller.
pub proof fn lemma_timestamp_sortable(n1: u64, n2: u64)
    requires
        n1 < n2,
    ensures
        lex_lt(timestamp_text(n1), timestamp_text(n2)),
{
    lemma_pow10_20();
    lemma_dec_digits_sorted(n1 as nat, n2 as nat, 20);
}

fn render_digits(n: u64, k: usize) -> (r: Vec<u8>)
    ensures
        r@ == dec_digits(n as nat, k as nat),
    decreases k,
{
    if k == 0 {
        let r: Vec<u8> = Vec::new();
        proof {
            assert(r@ =~= dec_digits(n as nat, 0));
        }
        r
    } else {
        let mut r = render_digits(n / 10, k - 1);
        let d: u8 = 48 + (n % 10) as u8;
        r.push(d);
        proof {
            assert((n / 10) as nat == (n as nat) / 10);
            assert(d == (48 + (n as nat) % 10) as u8);
            assert(r@ =~= dec_digits(n as nat, k as nat));
        }
        r
    }
}

/// Renders the sending instant as the message identifier text.
pub fn render_timestamp(now: u64) -> (r: Vec<u8>)
    ensures
        r@ == timestamp_text(now),
{
    render_digits(now, 20)
}

proof fn lemma_digits_ok(n: nat, k: nat)
    ensures
        text_ok(dec_digits(n, k)),
        dec_digits(n, k).len() == k,
    decreases k,
{
    if k > 0 {
        lemma_digits_ok(n / 10, (k - 1) as nat);
        let s = dec_digits(n, k);
        assert forall|i: int| 0 <= i < s.len() implies byte_ok(#[trigger] s[i]) by {
            if i < k - 1 {
                assert(s[i] == dec_digits(n / 10, (k - 1) as nat)[i]);
            } else {
                assert(n % 10 < 10);
                assert(s[i] == (48 + n % 10) as u8);
            }
        }
    }
}

/// The DID text of a plausible peer identifier is escape-free envelope
/// text, so it can stand in an envelope's `from` value.
pub proof fn lemma_did_text_ok(peer_text: Seq<u8>)
    requires
        valid_peer_text(peer_text),
    ensures
        text_ok(did_text_of(peer_text)),
{
    let s = did_text_of(peer_text);
    assert forall|i: int| 0 <= i < s.len() implies byte_ok(#[trigger] s[i]) by {
        if i < 9 {
            assert(s[i] == crate::peer::did_prefix()[i]);
        } else {
            assert(s[i] == peer_text[i - 9]);
            assert(is_base58_byte(peer_text[i - 9]));
        }
    }
}

/// The envelope an initiator sends: a timestamp-derived identifier, the
/// node's own DID, the trust-ping type, and a requested response.
pub open spec fn handshake_env(did: Seq<u8>, now: u64) -> EnvModel {
    EnvModel {
        message_id: timestamp_text(now),
        typ: ser_trust_ping_type(),
        from: did,
        response_requested: true,
    }
}

/// Builds the initiator's trust-ping envelope.
pub fn build_trust_ping(self_did: &Did, now: u64) -> (env: TrustPingEnvelope)
    ensures
        env@ == handshake_env(self_did@, now),
{
    TrustPingEnvelope {
        message_id: render_timestamp(now),
        typ: lit_trust_ping_type(),
        from: copy_bytes(&self_did.text),
        response_requested: true,
    }
}

/// The initiator's envelope is well-formed whenever the DID text is,
/// which a DID built from a plausible peer identifier always is.
pub proof fn lemma_handshake_env_wf(did: Seq<u8>, now: u64)
    requires
        text_ok(did),
    ensures
        env_wf(handshake_env(did, now)),
{
    lemma_digits_ok(now as nat, 20);
    let t = ser_trust_ping_type();
    assert forall|i: int| 0 <= i < t.len() implies byte_ok(#[trigger] t[i]) by {
        assert(t.len() == 9);
    }
}

/// The handshake always survives the wire: the envelope an initiator
/// builds serializes to a text that parses back to that envelope.
pub proof fn lemma_handshake_round_trip(did: Seq<u8>, now: u64)
    requires
        text_ok(did),
    ensures
        crate::didcomm::parse_env(serialize_env(handshake_env(did, now))) == Some(
            handshake_env(did, now),
        ),
{
    lemma_handshake_env_wf(did, now);
    crate::didcomm::lemma_envelope_round_trip(handshake_env(did, now));
}

/// Why a line of input was rejected without sending anything.
#[derive(Debug, Clone, Copy, PartialEq, Eq, Structural)]
pub enum RejectReason {
    /// The first token is no known command.
    NoValidCommand,
    /// The peer argument is no plausible identifier.
    FaultyPeerId,
    /// The peer argument is missing.
    MissingPeerId,
    /// `CMD` came without a command token.
    MissingCommandToken,
}

/// What handling one line did.
pub enum LineOutcome {
    /// A request went out under this identifier.
    RequestSent { peer: PeerIdentifier, request: CommandRequest, request_id: RequestId },
    /// The routing-table listing to print.
    Listing { lines: Vec<Vec<u8>> },
    /// Nothing was sent; the reason to print.
    Rejected { reason: RejectReason },
}

/// Mathematical model of a line's outcome.
pub enum LineOutcomeModel {
    RequestSent { peer: Seq<u8>, request: ReqModel, request_id: RequestId },
    Listing { lines: Seq<Seq<u8>> },
    Rejected { reason: RejectReason },
}

impl View for LineOutcome {
    type V = LineOutcomeModel;

    open spec fn view(&self) -> LineOutcomeModel {
        match self {
            LineOutcome::RequestSent { peer, request, request_id } => (
            LineOutcomeModel::RequestSent {
                peer: peer@,
                request: request@,
                request_id: *request_id,
            }),
            LineOutcome::Listing { lines } => (LineOutcomeModel::Listing {
                lines: lines@.map_values(|line: Vec<u8>| line@),
            }),
            LineOutcome::Rejected { reason } => (LineOutcomeModel::Rejected { reason: *reason }),
        }
    }
}

/// The exchange after one request went out: the identifier counter moved
/// on and the request is pending.
pub open spec fn sent_model(m: ExchangeModel, peer: Seq<u8>, request: ReqModel, now: u64) -> ExchangeModel {
    ExchangeModel {
        next_id: (m.next_id + 1) as u64,
        timeout: m.timeout,
        pending: m.pending.push((PendingModel { id: m.next_id, peer, request, sent_at: now })),
        replies: m.replies,
    }
}

/// The single owning state of one node: its identity, the command
/// exchange's pending table, the routing table, and the composed event
/// queues. Every operation takes this state explicitly; there is no
/// process-wide state.
pub struct Node {
    pub peer: PeerIdentifier,
    pub did: Did,
    pub exchange: CommandExchange,
    pub table: RoutingTable,
    pub events: Composer,
}

impl Node {
    /// The node's invariant: a plausible own identifier, the DID derived
    /// from it, and the parts' own invariants.
    pub open spec fn wf(&self) -> bool {
        &&& valid_peer_text(self.peer@)
        &&& self.did@ == did_text_of(self.peer@)
        &&& exchange_wf(self.exchange@)
        &&& peers_unique(self.table@)
    }

    /// A fresh node under the given identifier.
    pub fn new(peer: PeerIdentifier, timeout: u64) -> (r: Node)
        requires
            valid_peer_text(peer@),
        ensures
            r.wf(),
            r.peer@ == peer@,
            r.did@ == did_text_of(peer@),
            r.exchange@.next_id == 0,
            r.exchange@.timeout == timeout,
            r.exchange@.pending.len() == 0,
            r.exchange@.replies.len() == 0,
            r.table@.len() == 0,
            r.events@.discovery.len() == 0,
            r.events@.routing.len() == 0,
            r.events@.exchange.len() == 0,
    {
        let did = make_did(&peer);
        Node {
            peer,
            did,
            exchange: CommandExchange::new(timeout),
            table: RoutingTable::new(),
            events: Composer::new(),
        }
    }

    /// Handles one line of user input: sends what the line asks for, or
    /// lists the table, or rejects the line with a diagnostic and sends
    /// nothing. The trust-ping paths follow the control table: `CMD
    /// <peer> TRUSTPING` starts the handshake, the standalone `TRUSTPING`
    /// command sends a plain ping in this version.
    pub fn handle_line(&mut self, line: &Vec<u8>, now: u64) -> (r: LineOutcome)
        requires
            old(self).wf(),
            old(self).exchange.next_id < u64::MAX,
        ensures
            final(self).wf(),
            final(self).peer@ == old(self).peer@,
            final(self).did@ == old(self).did@,
            final(self).table@ == old(self).table@,
            final(self).events@ == old(self).events@,
            ({
                let action = interpret_model(tokens_of(line@));
                let m0 = old(self).exchange@;
                match action {
                    ActionModel::SendPing { peer } => {
                        &&& r@ == (LineOutcomeModel::RequestSent {
                            peer,
                            request: ReqModel::Ping,
                            request_id: m0.next_id,
                        })
                        &&& final(self).exchange@ == sent_model(m0, peer, ReqModel::Ping, now)
                    },
                    ActionModel::SendTrustPing { peer } => {
                        &&& r@ == (LineOutcomeModel::RequestSent {
                            peer,
                            request: ReqModel::Ping,
                            request_id: m0.next_id,
                        })
                        &&& final(self).exchange@ == sent_model(m0, peer, ReqModel::Ping, now)
                    },
                    ActionModel::StartHandshake { peer } => {
                        let payload = serialize_env(handshake_env(old(self).did@, now));
                        &&& r@ == (LineOutcomeModel::RequestSent {
                            peer,
                            request: ReqModel::Opaque(payload),
                            request_id: m0.next_id,
                        })
                        &&& final(self).exchange@ == sent_model(
                            m0,
                            peer,
                            ReqModel::Opaque(payload),
                            now,
                        )
                    },
                    ActionModel::SendCommand { peer, token } => {
                        &&& r@ == (LineOutcomeModel::RequestSent {
                            peer,
                            request: ReqModel::Opaque(token),
                            request_id: m0.next_id,
                        })
                        &&& final(self).exchange@ == sent_model(
                            m0,
                            peer,
                            ReqModel::Opaque(token),
                            now,
                        )
                    },
                    ActionModel::ListEntries => {
                        &&& r@ == (LineOutcomeModel::Listing {
                            lines: listing_model(old(self).table@),
                        })
                        &&& final(self).exchange@ == m0
                    },
                    ActionModel::Invalid => {
                        &&& r@ == (LineOutcomeModel::Rejected {
                            reason: RejectReason::NoValidCommand,
                        })
                        &&& final(self).exchange@ == m0
                    },
                    ActionModel::InvalidPeer => {
                        &&& r@ == (LineOutcomeModel::Rejected { reason: RejectReason::FaultyPeerId })
                        &&& final(self).exchange@ == m0
                    },
                    ActionModel::MissingPeer => {
                        &&& r@ == (LineOutcomeModel::Rejected { reason: RejectReason::MissingPeerId })
                        &&& final(self).exchange@ == m0
                    },
                    ActionModel::MissingToken => {
                        &&& r@ == (LineOutcomeModel::Rejected {
                            reason: RejectReason::MissingCommandToken,
                        })
                        &&& final(self).exchange@ == m0
                    },
                }
            }),
    {
        let tokens = tokenize(line);
        let action = interpret_tokens(&tokens);
        match action {
            UserAction::SendPing { peer } => {
                let surfaced = clone_peer(&peer);
                let id = self.exchange.send_request(peer, CommandRequest::Ping, now);
                LineOutcome::RequestSent {
                    peer: surfaced,
                    request: CommandRequest::Ping,
                    request_id: id,
                }
            },
            UserAction::SendTrustPing { peer } => {
                let surfaced = clone_peer(&peer);
                let id = self.exchange.send_request(peer, CommandRequest::Ping, now);
                LineOutcome::RequestSent {
                    peer: surfaced,
                    request: CommandRequest::Ping,
                    request_id: id,
                }
            },
            UserAction::StartHandshake { peer } => {
                let env = build_trust_ping(&self.did, now);
                let payload = serialize_trust_ping(&env);
                let echoed = copy_bytes(&payload);
                let surfaced = clone_peer(&peer);
                let id = self.exchange.send_request(peer, CommandRequest::Opaque(payload), now);
                LineOutcome::RequestSent {
                    peer: surfaced,
                    request: CommandRequest::Opaque(echoed),
                    request_id: id,
                }
            },
            UserAction::SendCommand { peer, token } => {
                let echoed = copy_bytes(&token);
                let surfaced = clone_peer(&peer);
                let id = self.exchange.send_request(peer, CommandRequest::Opaque(token), now);
                LineOutcome::RequestSent {
                    peer: surfaced,
                    request: CommandRequest::Opaque(echoed),
                    request_id: id,
                }
            },
            UserAction::ListEntries => LineOutcome::Listing { lines: self.table.list_lines() },
            UserAction::Invalid => LineOutcome::Rejected { reason: RejectReason::NoValidCommand },
            UserAction::InvalidPeer => LineOutcome::Rejected { reason: RejectReason::FaultyPeerId },
            UserAction::MissingPeer => LineOutcome::Rejected { reason: RejectReason::MissingPeerId },
            UserAction::MissingToken => LineOutcome::Rejected {
                reason: RejectReason::MissingCommandToken,
            },
        }
    }

    /// Resolves every pending request that has outlived the timeout as a
    /// timeout-derived outbound failure, one surfaced event per request.
    /// Expiry goes through the same single removal as any other
    /// resolution, so an identifier still resolves at most once.
    pub fn expire_timeouts(&mut self, now: u64) -> (r: Vec<ComposedEvent>)
        requires
            old(self).wf(),
        ensures
            final(self).wf(),
            final(self).peer@ == old(self).peer@,
            final(self).did@ == old(self).did@,
            final(self).table@ == old(self).table@,
            final(self).events@ == old(self).events@,
            final(self).exchange@.next_id == old(self).exchange@.next_id,
            final(self).exchange@.timeout == old(self).exchange@.timeout,
            final(self).exchange@.replies == old(self).exchange@.replies,
            ({
                let expired = CommandExchange::expired_of(
                    old(self).exchange@.pending,
                    old(self).exchange@.timeout,
                    now,
                );
                &&& r@.len() == expired.len()
                &&& final(self).exchange@.pending.len() == old(self).exchange@.pending.len()
                    - expired.len()
                &&& forall|j: int| 0 <= j < expired.len() ==> !has_pending(
                    final(self).exchange@.pending,
                    #[trigger] expired[j],
                )
                &&& forall|o: RequestId| !expired.contains(o) ==> has_pending(
                    final(self).exchange@.pending,
                    o,
                ) == has_pending(old(self).exchange@.pending, o)
                &&& forall|j: int| 0 <= j < expired.len() ==> ((#[trigger] r@[j])@ matches
                    ComposedEventModel::OutboundFailed { request_id, cause, known, .. }
                    && request_id == expired[j] && cause == FailureCause::Timeout && known)
            }),
    {
        let ids = self.exchange.expired_ids(now);
        let ghost expired = ids@;
        proof {
            crate::exchange::lemma_expired_of_pending(
                old(self).exchange@.pending,
                old(self).exchange@.timeout,
                now,
            );
        }
        let mut out: Vec<ComposedEvent> = Vec::new();
        let mut i: usize = 0;
        while i < ids.len()
            invariant
                expired == ids@,
                i <= expired.len(),
                out@.len() == i,
                old(self).wf(),
                exchange_wf(self.exchange@),
                self.peer == old(self).peer,
                self.did == old(self).did,
                self.table == old(self).table,
                self.events == old(self).events,
                self.exchange@.next_id == old(self).exchange@.next_id,
                self.exchange@.timeout == old(self).exchange@.timeout,
                self.exchange@.replies == old(self).exchange@.replies,
                self.exchange@.pending.len() == old(self).exchange@.pending.len() - i,
                forall|j1: int, j2: int| 0 <= j1 < j2 < expired.len() ==> #[trigger] expired[j1]
                    != #[trigger] expired[j2],
                forall|j: int| i <= j < expired.len() ==> has_pending(
                    self.exchange@.pending,
                    #[trigger] expired[j],
                ),
                forall|j: int| 0 <= j < i ==> !has_pending(
                    self.exchange@.pending,
                    #[trigger] expired[j],
                ),
                forall|o: RequestId| !expired.subrange(0, i as int).contains(o) ==> has_pending(
                    self.exchange@.pending,
                    o,
                ) == has_pending(old(self).exchange@.pending, o),
                forall|j: int| 0 <= j < i ==> ((#[trigger] out@[j])@ matches
                    ComposedEventModel::OutboundFailed { request_id, cause, known, .. }
                    && request_id == expired[j] && cause == FailureCause::Timeout && known),
            decreases expired.len() - i,
        {
            let id = ids[i];
            let ghost before = self.exchange@.pending;
            let taken = self.exchange.take_pending(id);
            let known = taken.is_some();
            let peer = match taken {
                Some(p) => p.peer,
                None => clone_peer(&self.peer),
            };
            out.push(
                ComposedEvent::OutboundFailed {
                    request_id: id,
                    peer,
                    cause: FailureCause::Timeout,
                    known,
                },
            );
            i = i + 1;
            proof {
                assert(has_pending(before, expired[i - 1]));
                assert forall|j: int| i <= j < expired.len() implies has_pending(
                    self.exchange@.pending,
                    #[trigger] expired[j],
                ) by {
                    assert(expired[j] != expired[i - 1]);
                }
                assert forall|j: int| 0 <= j < i implies !has_pending(
                    self.exchange@.pending,
                    #[trigger] expired[j],
                ) by {
                    if expired[j] == id {
                    } else {
                        assert(has_pending(self.exchange@.pending, expired[j]) == has_pending(
                            before,
                            expired[j],
                        ));
                    }
                }
                assert forall|o: RequestId| !expired.subrange(0, i as int).contains(o) implies
                    has_pending(self.exchange@.pending, o) == has_pending(
                    old(self).exchange@.pending,
                    o,
                ) by {
                    assert(o != id) by {
                        if o == id {
                            assert(expired.subrange(0, i as int)[i - 1] == id);
                        }
                    }
                    assert(!expired.subrange(0, i - 1).contains(o)) by {
                        if expired.subrange(0, i - 1).contains(o) {
                            let k = choose|k: int|
                                0 <= k < i - 1 && #[trigger] expired.subrange(0, i - 1)[k] == o;
                            assert(expired.subrange(0, i as int)[k] == o);
                        }
                    }
                }
            }
        }
        proof {
            assert(expired.subrange(0, expired.len() as int) =~= expired);
        }
        out
    }
}

} // verus!
