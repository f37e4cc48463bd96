//! Peer identities and decentralized identifiers.
//!
//! A peer is addressed by the textual (base58) encoding of its identifier,
//! which this core treats as opaque: it only checks that the text is a
//! plausible encoding before using it as a destination. A peer's DID is the
//! string `did:iota:<peer-text>`, built deterministically from the
//! identifier and never resolved here.

use vstd::prelude::*;

use crate::bytes::copy_bytes;

verus! {

/// Whether `b` is a byte of the base58 alphabet (digits and letters
/// without `0`, `O`, `I` and `l`).
pub open spec fn is_base58_byte(b: u8) -> bool {
    ||| 49 <= b <= 57
    ||| 65 <= b <= 72
    ||| 74 <= b <= 78
    ||| 80 <= b <= 90
    ||| 97 <= b <= 107
    ||| 109 <= b <= 122
}

/// A plausible textual peer identifier: nonempty base58 text.
pub open spec fn valid_peer_text(s: Seq<u8>) -> bool {
    s.len() > 0 && forall|i: int| 0 <= i < s.len() ==> is_base58_byte(#[trigger] s[i])
}

/// The textual identifier of a peer, opaque and stable for a node's
/// lifetime. The model of a value is its byte sequence.
#[derive(Debug, Clone, PartialEq, Eq)]
pub struct PeerIdentifier {
    pub text: Vec<u8>,
}

impl View for PeerIdentifier {
    type V = Seq<u8>;

    open spec fn view(&self) -> Seq<u8> {
        self.text@
    }
}

impl PeerIdentifier {
    /// A well-formed identifier carries plausible base58 text.
    pub open spec fn wf(&self) -> bool {
        valid_peer_text(self@)
    }
}

fn check_base58_byte(b: u8) -> (r: bool)
    ensures
        r == is_base58_byte(b),
{
    (49 <= b && b <= 57) || (65 <= b && b <= 72) || (74 <= b && b <= 78) || (80 <= b && b <= 90)
        || (97 <= b && b <= 107) || (109 <= b && b <= 122)
}

/// Reads a peer identifier from its textual encoding; `Some` exactly when
/// the text is nonempty base58.
pub fn parse_peer_id(bytes: &Vec<u8>) -> (r: Option<PeerIdentifier>)
    ensures
        match r {
            Some(p) => valid_peer_text(bytes@) && p@ == bytes@,
            None => !valid_peer_text(bytes@),
        },
{
    if bytes.len() == 0 {
        return None;
    }
    let mut i: usize = 0;
    while i < bytes.len()
        invariant
            i <= bytes@.len(),
            forall|j: int| 0 <= j < i ==> is_base58_byte(#[trigger] bytes@[j]),
        decreases bytes@.len() - i,
    {
        if !check_base58_byte(bytes[i]) {
            return None;
        }
        i = i + 1;
    }
    Some(PeerIdentifier { text: copy_bytes(bytes) })
}

/// A fresh identifier with the same text.
pub fn clone_peer(peer: &PeerIdentifier) -> (r: PeerIdentifier)
    ensures
        r@ == peer@,
{
    PeerIdentifier { text: copy_bytes(&peer.text) }
}

/// The fixed DID scheme and method of this system: `did:iota:`.
pub open spec fn did_prefix() -> Seq<u8> {
    seq![100u8, 105, 100, 58, 105, 111, 116, 97, 58]
}

/// The DID text derived from a peer's textual identifier.
pub open spec fn did_text_of(peer_text: Seq<u8>) -> Seq<u8> {
    did_prefix() + peer_text
}

/// A decentralized identifier, held as its text. Built from a peer
/// identifier; used as an opaque self-identifying token, never resolved.
#[derive(Debug, Clone, PartialEq, Eq)]
pub struct Did {
    pub text: Vec<u8>,
}

impl View for Did {
    type V = Seq<u8>;

    open spec fn view(&self) -> Seq<u8> {
        self.text@
    }
}

fn lit_did_prefix() -> (r: Vec<u8>)
    ensures
        r@ == did_prefix(),
{
    let mut v: Vec<u8> = Vec::new();
    v.push(100);
    v.push(105);
    v.push(100);
    v.push(58);
    v.push(105);
    v.push(111);
    v.push(116);
    v.push(97);
    v.push(58);
    proof {
        assert(v@ =~= did_prefix());
    }
    v
}

/// Builds the node's own DID string, `did:iota:` followed by the peer text.
pub fn make_did(peer: &PeerIdentifier) -> (r: Did)
    ensures
        r@ == did_text_of(peer@),
{
    let mut text = lit_did_prefix();
    crate::bytes::append_bytes(&mut text, &peer.text);
    Did { text }
}

/// Splits DID text into its method and identifier segment: `Some` exactly
/// for `did:<method>:<id>` with a nonempty, colon-free method and a
/// nonempty id segment.
pub open spec fn parse_did_text(s: Seq<u8>) -> Option<(Seq<u8>, Seq<u8>)> {
    if s.len() >= 4 && s.take(4) == seq![100u8, 105, 100, 58] {
        let rest = s.skip(4);
        let m = first_colon(rest, 0);
        if m == rest.len() || m == 0 || m == rest.len() - 1 {
            None
        } else {
            Some((rest.take(m), rest.skip(m + 1)))
        }
    } else {
        None
    }
}

/// The first index at or after `i` holding a colon, or the length.
pub open spec fn first_colon(s: Seq<u8>, i: int) -> int
    decreases s.len() - i when 0 <= i <= s.len()
{
    if i >= s.len() {
        s.len() as int
    } else if s[i] == 58 {
        i
    } else {
        first_colon(s, i + 1)
    }
}

proof fn lemma_first_colon(s: Seq<u8>, i: int)
    requires
        0 <= i <= s.len(),
    ensures
        i <= first_colon(s, i) <= s.len(),
        first_colon(s, i) < s.len() ==> s[first_colon(s, i)] == 58,
        forall|j: int| i <= j < first_colon(s, i) ==> s[j] != 58,
    decreases s.len() - i,
{
    if i < s.len() && s[i] != 58 {
        lemma_first_colon(s, i + 1);
    }
}

/// Reads the method and identifier segment out of DID text.
pub fn parse_did(bytes: &Vec<u8>) -> (r: Option<(Vec<u8>, Vec<u8>)>)
    ensures
        match r {
            Some((method, id)) => parse_did_text(bytes@) == Some((method@, id@)),
            None => parse_did_text(bytes@) is None,
        },
{
    if bytes.len() < 4 || bytes[0] != 100 || bytes[1] != 105 || bytes[2] != 100 || bytes[3] != 58 {
        proof {
            if bytes@.len() >= 4 && bytes@.take(4) == seq![100u8, 105, 100, 58] {
                assert(bytes@[0] == bytes@.take(4)[0]);
                assert(bytes@[1] == bytes@.take(4)[1]);
                assert(bytes@[2] == bytes@.take(4)[2]);
                assert(bytes@[3] == bytes@.take(4)[3]);
            }
        }
        return None;
    }
    proof {
        assert(bytes@.take(4) =~= seq![100u8, 105, 100, 58]);
    }
    let ghost rest = bytes@.skip(4);
    let mut i: usize = 4;
    while i < bytes.len() && bytes[i] != 58
        invariant
            4 <= i <= bytes@.len(),
            forall|j: int| 4 <= j < i ==> bytes@[j] != 58,
        decreases bytes@.len() - i,
    {
        i = i + 1;
    }
    proof {
        lemma_first_colon(rest, 0);
        assert forall|j: int| 0 <= j < i - 4 implies rest[j] != 58 by {
            assert(rest[j] == bytes@[j + 4]);
        }
        if i < bytes@.len() {
            assert(rest[i - 4] == bytes@[i as int]);
            assert(first_colon(rest, 0) == i - 4) by {
                if first_colon(rest, 0) < i - 4 {
                    assert(rest[first_colon(rest, 0)] == 58);
                }
            }
        } else {
            assert(first_colon(rest, 0) == rest.len()) by {
                if first_colon(rest, 0) < rest.len() {
                    assert(rest[first_colon(rest, 0)] == 58);
                }
            }
        }
    }
    if i == bytes.len() || i == 4 || i == bytes.len() - 1 {
        return None;
    }
    let mut method: Vec<u8> = Vec::new();
    let mut j: usize = 4;
    while j < i
        invariant
            4 <= j <= i <= bytes@.len(),
            method@ == bytes@.subrange(4, j as int),
        decreases i - j,
    {
        method.push(bytes[j]);
        j = j + 1;
        proof {
            assert(method@ =~= bytes@.subrange(4, j as int));
        }
    }
    let mut id: Vec<u8> = Vec::new();
    let mut k: usize = i + 1;
    while k < bytes.len()
        invariant
            i + 1 <= k <= bytes@.len(),
            id@ == bytes@.subrange(i + 1, k as int),
        decreases bytes@.len() - k,
    {
        id.push(bytes[k]);
        k = k + 1;
        proof {
            assert(id@ =~= bytes@.subrange(i + 1, k as int));
        }
    }
    proof {
        assert(method@ =~= rest.take(i - 4));
        assert(id@ =~= rest.skip(i - 4 + 1));
    }
    Some((method, id))
}

} // verus!
