//! The routing-table model and the discovery adapter.
//!
//! The distributed hash table itself is an external collaborator; this
//! core only appends addresses to it and lists it for the user. The table
//! here holds, per known peer, the addresses it was discovered at.
//! Recording is idempotent per (peer, address) pair, so duplicate
//! discovery notifications change nothing.

use vstd::prelude::*;

use crate::bytes::append_bytes;
use crate::bytes::bytes_eq;
use crate::peer::PeerIdentifier;

verus! {

/// One known peer and the addresses it was discovered at, as the textual
/// multiaddress of each.
pub struct RoutingTableEntry {
    pub peer: PeerIdentifier,
    pub addresses: Vec<Vec<u8>>,
}

/// Mathematical model of an entry.
pub struct EntryModel {
    pub peer: Seq<u8>,
    pub addresses: Seq<Seq<u8>>,
}

impl View for RoutingTableEntry {
    type V = EntryModel;

    open spec fn view(&self) -> EntryModel {
        EntryModel {
            peer: self.peer@,
            addresses: self.addresses@.map_values(|a: Vec<u8>| a@),
        }
    }
}

/// The table of known peers, one entry per peer.
pub struct RoutingTable {
    pub entries: Vec<RoutingTableEntry>,
}

impl View for RoutingTable {
    type V = Seq<EntryModel>;

    open spec fn view(&self) -> Seq<EntryModel> {
        self.entries@.map_values(|e: RoutingTableEntry| e@)
    }
}

/// Whether some entry belongs to this peer.
pub open spec fn has_peer(t: Seq<EntryModel>, p: Seq<u8>) -> bool {
    exists|i: int| 0 <= i < t.len() && #[trigger] t[i].peer == p
}

/// The index of this peer's entry.
pub open spec fn peer_at(t: Seq<EntryModel>, p: Seq<u8>) -> int {
    choose|i: int| 0 <= i < t.len() && #[trigger] t[i].peer == p
}

/// No two entries belong to the same peer.
pub open spec fn peers_unique(t: Seq<EntryModel>) -> bool {
    forall|i: int, j: int| 0 <= i < j < t.len() ==> #[trigger] t[i].peer != #[trigger] t[j].peer
}

/// Recording a discovered (peer, address) pair: a new entry for an
/// unknown peer, a new address under a known one, and nothing for a pair
/// already present.
pub open spec fn record_model(t: Seq<EntryModel>, p: Seq<u8>, a: Seq<u8>) -> Seq<EntryModel> {
    if has_peer(t, p) {
        let i = peer_at(t, p);
        if t[i].addresses.contains(a) {
            t
        } else {
            t.update(i, (EntryModel { peer: t[i].peer, addresses: t[i].addresses.push(a) }))
        }
    } else {
        t.push((EntryModel { peer: p, addresses: seq![a] }))
    }
}

/// Idempotence of the discovery adapter: recording the same (peer,
/// address) pair twice leaves exactly what one recording leaves.
pub proof fn lemma_record_idempotent(t: Seq<EntryModel>, p: Seq<u8>, a: Seq<u8>)
    requires
        peers_unique(t),
    ensures
        record_model(record_model(t, p, a), p, a) == record_model(t, p, a),
{
    let t1 = record_model(t, p, a);
    if has_peer(t, p) {
        let i = peer_at(t, p);
        if t[i].addresses.contains(a) {
            assert(t1 == t);
        } else {
            assert(t1[i].peer == p);
            assert(has_peer(t1, p));
            assert(peer_at(t1, p) == i) by {
                let k = peer_at(t1, p);
                if k != i {
                    assert(t1[k].peer == t[k].peer);
                }
            }
            assert(t1[i].addresses.contains(a)) by {
                assert(t1[i].addresses[t[i].addresses.len() as int] == a);
            }
        }
    } else {
        let n = t.len() as int;
        assert(t1[n].peer == p);
        assert(has_peer(t1, p));
        assert(peer_at(t1, p) == n) by {
            let k = peer_at(t1, p);
            if k < n {
                assert(t1[k] == t[k]);
                assert(has_peer(t, p));
            }
        }
        assert(t1[n].addresses.contains(a)) by {
            assert(t1[n].addresses[0] == a);
        }
    }
}

/// The first line of a routing-table listing.
pub open spec fn header_line() -> Seq<u8> {
    seq![67u8, 117, 114, 114, 101, 110, 116, 32, 66, 117, 99, 107, 101, 116, 115, 58]
}

/// Opens an entry line, before the peer text.
pub open spec fn key_text() -> Seq<u8> {
    seq![107u8, 101, 121, 58, 32]
}

/// Separates the peer text from its addresses.
pub open spec fn values_text() -> Seq<u8> {
    seq![44u8, 32, 118, 97, 108, 117, 101, 115, 58]
}

fn lit_header_line() -> (r: Vec<u8>)
    ensures
        r@ == header_line(),
{
    let mut v: Vec<u8> = Vec::new();
    v.push(67);
    v.push(117);
    v.push(114);
    v.push(114);
    v.push(101);
    v.push(110);
    v.push(116);
    v.push(32);
    v.push(66);
    v.push(117);
    v.push(99);
    v.push(107);
    v.push(101);
    v.push(116);
    v.push(115);
    v.push(58);
    proof {
        assert(v@ =~= header_line());
    }
    v
}

fn lit_key_text() -> (r: Vec<u8>)
    ensures
        r@ == key_text(),
{
    let mut v: Vec<u8> = Vec::new();
    v.push(107);
    v.push(101);
    v.push(121);
    v.push(58);
    v.push(32);
    proof {
        assert(v@ =~= key_text());
    }
    v
}

fn lit_values_text() -> (r: Vec<u8>)
    ensures
        r@ == values_text(),
{
    let mut v: Vec<u8> = Vec::new();
    v.push(44);
    v.push(32);
    v.push(118);
    v.push(97);
    v.push(108);
    v.push(117);
    v.push(101);
    v.push(115);
    v.push(58);
    proof {
        assert(v@ =~= values_text());
    }
    v
}

/// The textual address list of one entry: one leading space before each
/// address.
pub open spec fn addrs_text(addrs: Seq<Seq<u8>>) -> Seq<u8>
    decreases addrs.len(),
{
    if addrs.len() == 0 {
        Seq::empty()
    } else {
        addrs_text(addrs.drop_last()) + seq![32u8] + addrs.last()
    }
}

/// The listing line of one entry.
pub open spec fn entry_line(e: EntryModel) -> Seq<u8> {
    key_text() + e.peer + values_text() + addrs_text(e.addresses)
}

/// The whole listing: the header, then one line per entry in table order.
pub open spec fn listing_model(t: Seq<EntryModel>) -> Seq<Seq<u8>> {
    seq![header_line()] + t.map_values(|e: EntryModel| entry_line(e))
}

/// Whether this entry already knows the address.
fn entry_has_address(entry: &RoutingTableEntry, address: &Vec<u8>) -> (r: bool)
    ensures
        r == entry@.addresses.contains(address@),
{
    let m = entry.addresses.len();
    let mut j: usize = 0;
    while j < m
        invariant
            m == entry@.addresses.len(),
            j <= m,
            forall|k: int| 0 <= k < j ==> #[trigger] entry@.addresses[k] != address@,
        decreases m - j,
    {
        if bytes_eq(&entry.addresses[j], address) {
            proof {
                assert(entry@.addresses[j as int] == entry.addresses@[j as int]@);
            }
            return true;
        }
        j = j + 1;
    }
    proof {
        if entry@.addresses.contains(address@) {
            let k = choose|k: int|
                0 <= k < entry@.addresses.len() && entry@.addresses[k] == address@;
            assert(entry@.addresses[k] != address@);
        }
    }
    false
}

impl RoutingTable {
    /// An empty table.
    pub fn new() -> (r: RoutingTable)
        ensures
            r@ == Seq::<EntryModel>::empty(),
            peers_unique(r@),
    {
        let r = RoutingTable { entries: Vec::new() };
        proof {
            assert(r@ =~= Seq::<EntryModel>::empty());
        }
        r
    }

    /// The index of this peer's entry, if the peer is known.
    fn find_peer(&self, peer: &PeerIdentifier) -> (r: Option<usize>)
        requires
            peers_unique(self@),
        ensures
            match r {
                Some(i) => i < self@.len() && self@[i as int].peer == peer@ && has_peer(
                    self@,
                    peer@,
                ) && peer_at(self@, peer@) == i,
                None => !has_peer(self@, peer@),
            },
    {
        let n = self.entries.len();
        let mut i: usize = 0;
        while i < n
            invariant
                n == self@.len(),
                peers_unique(self@),
                i <= n,
                forall|j: int| 0 <= j < i ==> #[trigger] self@[j].peer != peer@,
            decreases n - i,
        {
            if bytes_eq(&self.entries[i].peer.text, &peer.text) {
                proof {
                    assert(self@[i as int] == self.entries@[i as int]@);
                    assert(self@[i as int].peer == peer@);
                    assert(peer_at(self@, peer@) == i) by {
                        let k = peer_at(self@, peer@);
                        if k < i {
                            assert(self@[k].peer != peer@);
                        }
                        if k > i {
                            assert(self@[i as int].peer != self@[k].peer);
                        }
                    }
                }
                return Some(i);
            }
            i = i + 1;
        }
        proof {
            if has_peer(self@, peer@) {
                let k = peer_at(self@, peer@);
                assert(self@[k].peer != peer@);
            }
        }
        None
    }

    /// The discovery adapter: records one "peer discovered at address"
    /// notification. Idempotent per (peer, address) pair.
    pub fn record_address(&mut self, peer: PeerIdentifier, address: Vec<u8>)
        requires
            peers_unique(old(self)@),
        ensures
            final(self)@ == record_model(old(self)@, peer@, address@),
            peers_unique(final(self)@),
    {
        let ghost t0 = self@;
        match self.find_peer(&peer) {
            Some(i) => {
                if entry_has_address(&self.entries[i], &address) {
                    proof {
                        assert(self@[i as int] == self.entries@[i as int]@);
                        assert(record_model(t0, peer@, address@) == t0);
                    }
                    return ;
                }
                proof {
                    assert(self@[i as int] == self.entries@[i as int]@);
                }
                let mut entry = self.entries.remove(i);
                proof {
                    assert(entry@ == t0[i as int]);
                }
                entry.addresses.push(address);
                proof {
                    assert(entry@.addresses =~= t0[i as int].addresses.push(address@));
                }
                self.entries.insert(i, entry);
                proof {
                    assert(self@ =~= t0.update(
                        i as int,
                        (EntryModel {
                            peer: t0[i as int].peer,
                            addresses: t0[i as int].addresses.push(address@),
                        }),
                    ));
                    assert forall|x: int, y: int| 0 <= x < y < self@.len() implies #[trigger] self@[
                        x
                    ].peer != #[trigger] self@[y].peer by {
                        assert(self@[x].peer == t0[x].peer);
                        assert(self@[y].peer == t0[y].peer);
                    }
                }
            },
            None => {
                let entry = RoutingTableEntry { peer, addresses: vec_of_one(address) };
                self.entries.push(entry);
                proof {
                    assert(entry@.addresses =~= seq![address@]);
                    assert(self@ =~= t0.push(
                        (EntryModel { peer: peer@, addresses: seq![address@] }),
                    ));
                    assert forall|x: int, y: int| 0 <= x < y < self@.len() implies #[trigger] self@[
                        x
                    ].peer != #[trigger] self@[y].peer by {
                        assert(self@[x] == t0[x]);
                        if y < t0.len() {
                            assert(self@[y] == t0[y]);
                        } else {
                            assert(self@[y].peer == peer@);
                            assert(t0[x].peer != peer@);
                        }
                    }
                }
            },
        }
    }

    /// The user-facing listing: the header line, then `key: <peer>,
    /// values:` followed by each known address of the entry's peer.
    pub fn list_lines(&self) -> (r: Vec<Vec<u8>>)
        ensures
            r@.map_values(|line: Vec<u8>| line@) == listing_model(self@),
    {
        let mut out: Vec<Vec<u8>> = Vec::new();
        out.push(lit_header_line());
        proof {
            assert(out@.map_values(|line: Vec<u8>| line@) =~= listing_model(self@.take(0)));
        }
        let n = self.entries.len();
        let mut i: usize = 0;
        while i < n
            invariant
                n == self@.len(),
                i <= n,
                out@.map_values(|line: Vec<u8>| line@) == listing_model(self@.take(i as int)),
            decreases n - i,
        {
            let e = &self.entries[i];
            proof {
                assert(e@ == self@[i as int]);
            }
            let mut line = lit_key_text();
            append_bytes(&mut line, &e.peer.text);
            let values = lit_values_text();
            append_bytes(&mut line, &values);
            proof {
                assert(e@.addresses.take(0) =~= Seq::<Seq<u8>>::empty());
                assert(line@ =~= key_text() + e@.peer + values_text() + addrs_text(
                    e@.addresses.take(0),
                ));
            }
            let m = e.addresses.len();
            let mut j: usize = 0;
            while j < m
                invariant
                    m == e@.addresses.len(),
                    j <= m,
                    e@ == self@[i as int],
                    line@ == key_text() + e@.peer + values_text() + addrs_text(
                        e@.addresses.take(j as int),
                    ),
                decreases m - j,
            {
                line.push(32);
                append_bytes(&mut line, &e.addresses[j]);
                j = j + 1;
                proof {
                    let taken = e@.addresses.take(j as int);
                    assert(taken.drop_last() =~= e@.addresses.take(j - 1));
                    assert(taken.last() == e@.addresses[j - 1]);
                    assert(e@.addresses[j - 1] == e.addresses@[j - 1]@);
                    assert(line@ =~= key_text() + e@.peer + values_text() + addrs_text(taken));
                }
            }
            proof {
                assert(e@.addresses.take(m as int) =~= e@.addresses);
                assert(line@ == entry_line(self@[i as int]));
            }
            let ghost prev = out@;
            out.push(line);
            i = i + 1;
            proof {
                assert(out@ == prev.push(line));
                assert(listing_model(self@.take(i as int)) =~= listing_model(
                    self@.take(i - 1),
                ).push(entry_line(self@[i - 1])));
                assert(out@.map_values(|line: Vec<u8>| line@) =~= listing_model(
                    self@.take(i as int),
                ));
            }
        }
        proof {
            assert(self@.take(n as int) =~= self@);
        }
        out
    }
}

/// A vector holding one element.
fn vec_of_one(address: Vec<u8>) -> (r: Vec<Vec<u8>>)
    ensures
        r@.len() == 1,
        r@[0] == address,
{
    let mut v: Vec<Vec<u8>> = Vec::new();
    v.push(address);
    v
}

} // verus!
