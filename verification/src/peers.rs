//! Compact peer lists: six bytes for each peer, four of the IPv4 address and
//! two of the port, both in network byte order.

use crate::chunks::{
    divides_evenly, join_chunks, lemma_join_then_split, split_chunks, uniform, WidthError,
};
use vstd::prelude::*;

verus! {

/// The bytes of a peer in a compact peer list.
pub const PEER_WIDTH: usize = 6;

/// The address of a peer.
#[derive(Debug, Clone, Copy, PartialEq, Eq)]
pub struct PeerAddress {
    pub ip: [u8; 4],
    pub port: u16,
}

/// The peers of a tracker's answer, in order.
#[derive(Debug, Clone, PartialEq, Eq)]
pub struct Peers(pub Vec<PeerAddress>);

/// The reader of compact peer lists.
#[derive(Debug, Clone, Copy, PartialEq, Eq)]
pub struct PeersVisitor;

/// The six bytes of a peer: the address, then the port with its high byte
/// first.
pub open spec fn peer_bytes(peer: PeerAddress) -> Seq<u8> {
    seq![
        peer.ip@[0],
        peer.ip@[1],
        peer.ip@[2],
        peer.ip@[3],
        (peer.port / 256) as u8,
        (peer.port % 256) as u8,
    ]
}

/// The records of a list of peers, peer by peer.
pub open spec fn peer_records(peers: Seq<PeerAddress>) -> Seq<Seq<u8>> {
    Seq::new(peers.len(), |i: int| peer_bytes(peers[i]))
}

impl View for Peers {
    type V = Seq<PeerAddress>;

    open spec fn view(&self) -> Seq<PeerAddress> {
        self.0@
    }
}

impl PeerAddress {
    /// Reads a peer from its six bytes.
    pub fn from_bytes(record: &[u8]) -> (r: PeerAddress)
        requires
            record@.len() == PEER_WIDTH,
        ensures
            peer_bytes(r) == record@,
    {
        let ip = [record[0], record[1], record[2], record[3]];
        let port = record[4] as u16 * 256 + record[5] as u16;
        let r = PeerAddress { ip, port };
        assert(peer_bytes(r) =~= record@);
        r
    }

    /// Appends the six bytes of the peer.
    pub fn push_bytes(&self, out: &mut Vec<u8>)
        ensures
            final(out)@ == old(out)@ + peer_bytes(*self),
    {
        out.push(self.ip[0]);
        out.push(self.ip[1]);
        out.push(self.ip[2]);
        out.push(self.ip[3]);
        out.push((self.port / 256) as u8);
        out.push((self.port % 256) as u8);
        assert(out@ =~= old(out)@ + peer_bytes(*self));
    }
}

impl Peers {
    /// Reads a compact peer list. Fails where its length is not a multiple
    /// of six.
    pub fn from_bytes(bytes: &[u8]) -> (r: Result<Peers, WidthError>)
        ensures
            r is Ok <==> divides_evenly(bytes@.len(), PEER_WIDTH as nat),
            r matches Ok(peers) ==> peer_records(peers@) == split_chunks(bytes@, PEER_WIDTH as nat),
            r matches Err(e) ==> e == (WidthError { len: bytes.len(), width: PEER_WIDTH }),
    {
        let len = bytes.len();
        if len % PEER_WIDTH != 0 {
            return Err(WidthError { len, width: PEER_WIDTH });
        }
        let count = len / PEER_WIDTH;
        let mut peers: Vec<PeerAddress> = Vec::new();
        let mut i: usize = 0;
        while i < count
            invariant
                len == bytes@.len(),
                len == count * 6,
                i <= count,
                peers@.len() == i,
                forall|k: int|
                    0 <= k < i ==> peer_bytes(#[trigger] peers@[k]) == bytes@.subrange(
                        k * 6,
                        k * 6 + 6,
                    ),
            decreases count - i,
        {
            let start: usize = i * PEER_WIDTH;
            let record = vstd::slice::slice_subrange(bytes, start, start + PEER_WIDTH);
            peers.push(PeerAddress::from_bytes(record));
            i += 1;
        }
        let peers = Peers(peers);
        assert(peer_records(peers@) =~= split_chunks(bytes@, PEER_WIDTH as nat));
        Ok(peers)
    }

    /// Writes the peers as a compact peer list.
    pub fn to_bytes(&self) -> (r: Vec<u8>)
        ensures
            r@ == join_chunks(peer_records(self@)),
    {
        let mut out: Vec<u8> = Vec::new();
        let mut i: usize = 0;
        while i < self.0.len()
            invariant
                i <= self.0.len(),
                out@ == join_chunks(peer_records(self@).take(i as int)),
            decreases self.0.len() - i,
        {
            proof {
                let records = peer_records(self@);
                assert(records.take(i + 1).drop_last() =~= records.take(i as int));
                assert(records.take(i + 1).last() == peer_bytes(self.0@[i as int]));
            }
            self.0[i].push_bytes(&mut out);
            i += 1;
        }
        assert(peer_records(self@).take(self.0.len() as int) =~= peer_records(self@));
        out
    }
}

impl PeersVisitor {
    /// Reads a compact peer list.
    pub fn visit_bytes(&self, v: &[u8]) -> (r: Result<Peers, WidthError>)
        ensures
            r is Ok <==> divides_evenly(v@.len(), PEER_WIDTH as nat),
            r matches Ok(peers) ==> peer_records(peers@) == split_chunks(v@, PEER_WIDTH as nat),
            r matches Err(e) ==> e == (WidthError { len: v.len(), width: PEER_WIDTH }),
    {
        Peers::from_bytes(v)
    }
}

/// Two peers with the same six bytes are the same peer.
pub proof fn lemma_peer_bytes_injective(a: PeerAddress, b: PeerAddress)
    requires
        peer_bytes(a) == peer_bytes(b),
    ensures
        a == b,
{
    let x = peer_bytes(a);
    let y = peer_bytes(b);
    assert(x[0] == y[0] && x[1] == y[1] && x[2] == y[2] && x[3] == y[3] && x[4] == y[4] && x[5]
        == y[5]);
    assert(a.ip =~= b.ip);
}

/// Writing peers as a compact peer list and reading the list gives the
/// peers back.
pub proof fn lemma_peers_round_trip(peers: Seq<PeerAddress>, read: Seq<PeerAddress>)
    requires
        peer_records(read) == split_chunks(join_chunks(peer_records(peers)), PEER_WIDTH as nat),
    ensures
        divides_evenly(join_chunks(peer_records(peers)).len(), PEER_WIDTH as nat),
        read == peers,
{
    let records = peer_records(peers);
    assert(uniform(records, PEER_WIDTH as nat));
    lemma_join_then_split(records, PEER_WIDTH as nat);
    assert(peer_records(read).len() == records.len());
    assert forall|i: int| 0 <= i < peers.len() implies read[i] == peers[i] by {
        assert(peer_records(read)[i] == records[i]);
        lemma_peer_bytes_injective(read[i], peers[i]);
    }
    assert(read =~= peers);
}

} // verus!
