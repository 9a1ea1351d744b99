//! The connection multiplexer's state and its echo laws: an append-only
//! peer set owned by one service thread, fed new connections in FIFO
//! order by an accept thread through a handoff queue, with every peer
//! serviced once per pass in insertion order.

use crate::chunk::concat_all;
use vstd::prelude::*;

verus! {

/// Capacity of the fixed per-read buffer the service loop uses for each
/// peer; bytes beyond it wait for a later service pass.
pub const SERVICE_BUFFER_CAPACITY: usize = 10;

/// The growable, ordered set of live connections of one listening port.
/// Entries are appended as the handoff queue is drained and never
/// removed; the service loop visits them in insertion order.
pub struct PeerSet {
    peers: Vec<u64>,
}

impl PeerSet {
    /// The peer handles, oldest first.
    pub closed spec fn ids(self) -> Seq<u64> {
        self.peers@
    }

    /// An empty peer set, as the service loop starts with.
    pub fn new() -> (r: Self)
        ensures
            r.ids() == Seq::<u64>::empty(),
    {
        PeerSet { peers: Vec::new() }
    }

    /// Append one newly accepted connection behind all current peers.
    pub fn add_peer(&mut self, peer: u64)
        ensures
            final (self).ids() == old(self).ids().push(peer),
    {
        self.peers.push(peer);
    }

    /// Drain one batch from the handoff queue: the new peers join behind
    /// the existing ones, in the order the queue delivered them, and no
    /// existing entry moves or disappears.
    pub fn add_peers(&mut self, fresh: &Vec<u64>)
        ensures
            final (self).ids() == old(self).ids() + fresh@,
    {
        let mut i: usize = 0;
        while i < fresh.len()
            invariant
                i <= fresh@.len(),
                self.peers@ == old(self).peers@ + fresh@.take(i as int),
            decreases fresh@.len() - i,
        {
            self.peers.push(fresh[i]);
            proof {
                assert(self.peers@ =~= old(self).peers@ + fresh@.take(i + 1 as int));
            }
            i = i + 1;
        }
        proof {
            assert(fresh@.take(fresh@.len() as int) =~= fresh@);
        }
    }

    /// How many peers are currently serviced.
    pub fn count(&self) -> (r: usize)
        ensures
            r == self.ids().len(),
    {
        self.peers.len()
    }

    /// The peer at one position of the service order.
    pub fn get(&self, i: usize) -> (r: u64)
        requires
            i < self.ids().len(),
        ensures
            r == self.ids()[i as int],
    {
        self.peers[i]
    }
}

/// Echoing back, per read, exactly the bytes read keeps the whole byte
/// stream intact: over any run of reads from one connection, the bytes
/// written back concatenate to the bytes received, in order, with no
/// loss or duplication — only the chunking may differ.
pub proof fn lemma_echo_preserves_stream(reads: Seq<Seq<u8>>, writes: Seq<Seq<u8>>)
    requires
        writes.len() == reads.len(),
        forall|i: int| 0 <= i < reads.len() ==> writes[i] == reads[i],
    ensures
        concat_all(writes) == concat_all(reads),
{
    assert(writes =~= reads);
}

/// Servicing many connections in one loop keeps them independent: since
/// each peer is written exactly what was read from that peer, every
/// client gets its own byte stream back, in its own order, and never a
/// byte of another client's payload.
pub proof fn lemma_peers_echoed_independently(
    reads_by_peer: Seq<Seq<Seq<u8>>>,
    writes_by_peer: Seq<Seq<Seq<u8>>>,
)
    requires
        writes_by_peer.len() == reads_by_peer.len(),
        forall|p: int| 0 <= p < reads_by_peer.len() ==> (#[trigger] writes_by_peer[p]).len()
            == reads_by_peer[p].len(),
        forall|p: int, k: int|
            0 <= p < reads_by_peer.len() && 0 <= k < reads_by_peer[p].len()
                ==> #[trigger] writes_by_peer[p][k] == reads_by_peer[p][k],
    ensures
        forall|p: int| 0 <= p < reads_by_peer.len() ==> concat_all(#[trigger] writes_by_peer[p])
            == concat_all(reads_by_peer[p]),
{
    assert forall|p: int| 0 <= p < reads_by_peer.len() implies concat_all(
        #[trigger] writes_by_peer[p],
    ) == concat_all(reads_by_peer[p]) by {
        lemma_echo_preserves_stream(reads_by_peer[p], writes_by_peer[p]);
    }
}

} // verus!
