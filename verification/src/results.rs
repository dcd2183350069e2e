//! Result types of the endpoint: packets grouped by peer.

use std::collections::HashMap;
use vstd::prelude::*;

use crate::config::PeerId;

verus! {

/// Packets grouped by peer: for each peer at most one queue, in the order the
/// packets were added. The queues are kept in a hash map keyed by the peer's
/// handle number, so two groupings are equal when they hold the same queues.
#[derive(Debug, PartialEq, Eq)]
pub struct PeerQueues {
    entries: HashMap<u32, Vec<Vec<u8>>>,
}

/// The packets of a queue, as byte sequences.
pub open spec fn packet_seqs(queue: Seq<Vec<u8>>) -> Seq<Seq<u8>> {
    queue.map_values(|p: Vec<u8>| p@)
}

/// The queue of `id` in `m`, empty when `id` has none.
pub open spec fn queue_of(m: Map<PeerId, Seq<Seq<u8>>>, id: PeerId) -> Seq<Seq<u8>> {
    if m.contains_key(id) {
        m[id]
    } else {
        Seq::empty()
    }
}

impl View for PeerQueues {
    type V = Map<PeerId, Seq<Seq<u8>>>;

    closed spec fn view(&self) -> Map<PeerId, Seq<Seq<u8>>> {
        Map::new(
            |id: PeerId| self.entries@.contains_key(id.0),
            |id: PeerId| packet_seqs(self.entries@[id.0]@),
        )
    }
}

impl PeerQueues {
    /// No queues.
    pub fn new() -> (r: PeerQueues)
        ensures
            r@ == Map::<PeerId, Seq<Seq<u8>>>::empty(),
    {
        let r = PeerQueues { entries: HashMap::new() };
        assert(r@ =~= Map::<PeerId, Seq<Seq<u8>>>::empty());
        r
    }

    /// Add `packet` at the end of the queue of `id`, starting that queue if
    /// there is none.
    pub fn push(&mut self, id: PeerId, packet: Vec<u8>)
        ensures
            final(self)@ == old(self)@.insert(id, queue_of(old(self)@, id).push(packet@)),
    {
        let ghost packet_view = packet@;
        let mut queue = match self.entries.remove(&id.0) {
            Some(q) => q,
            None => Vec::new(),
        };
        let ghost before = queue@;
        queue.push(packet);
        proof {
            assert(packet_seqs(queue@) =~= packet_seqs(before).push(packet_view));
            if !old(self)@.contains_key(id) {
                assert(packet_seqs(before) =~= Seq::<Seq<u8>>::empty());
            }
        }
        self.entries.insert(id.0, queue);
        proof {
            assert forall|q: PeerId| q.0 == id.0 implies q == id by {}
            assert(self@ =~= old(self)@.insert(id, queue_of(old(self)@, id).push(packet_view)));
        }
    }

    /// Start an empty queue for `id` if it has none.
    pub fn touch(&mut self, id: PeerId)
        ensures
            final(self)@ == old(self)@.insert(id, queue_of(old(self)@, id)),
    {
        if !self.entries.contains_key(&id.0) {
            self.entries.insert(id.0, Vec::new());
            proof {
                assert(packet_seqs(Seq::<Vec<u8>>::empty()) =~= Seq::<Seq<u8>>::empty());
            }
        }
        proof {
            assert forall|q: PeerId| q.0 == id.0 implies q == id by {}
            assert(self@ =~= old(self)@.insert(id, queue_of(old(self)@, id)));
        }
    }

    /// The queue of `id`, if it has one.
    pub fn get(&self, id: &PeerId) -> (r: Option<&Vec<Vec<u8>>>)
        ensures
            match r {
                Some(q) => self@.contains_key(*id) && packet_seqs(q@) == self@[*id],
                None => !self@.contains_key(*id),
            },
    {
        self.entries.get(&id.0)
    }

    /// Whether no peer has a queue.
    pub fn is_empty(&self) -> (r: bool)
        ensures
            r == (self@ == Map::<PeerId, Seq<Seq<u8>>>::empty()),
    {
        let r = self.entries.is_empty();
        proof {
            if r {
                assert(self.entries@ =~= Map::<u32, Vec<Vec<u8>>>::empty());
                assert(self@ =~= Map::<PeerId, Seq<Seq<u8>>>::empty());
            } else {
                let k = choose|k: u32| self.entries@.contains_key(k);
                assert(self@.contains_key(PeerId(k)));
            }
        }
        r
    }
}

impl Default for PeerQueues {
    fn default() -> (r: PeerQueues)
        ensures
            r@ == Map::<PeerId, Seq<Seq<u8>>>::empty(),
    {
        PeerQueues::new()
    }
}

/// The outcome of attempting to send packets to peers.
#[derive(Debug, PartialEq, Eq)]
pub struct SendResult {
    /// Wire datagrams to be sent to remote peers.
    pub to_peers: PeerQueues,
}

/// The outcome of processing received packets.
#[derive(Debug, PartialEq, Eq)]
pub struct RecvResult {
    /// Valid packets from peers to be delivered locally.
    pub to_local: PeerQueues,
    /// Wire datagrams to be sent to remote peers. Always empty: there is no
    /// handshake to respond to.
    pub to_peers: PeerQueues,
}

/// The outcome of processing time-based events. Always empty: the data plane
/// has no timers.
#[derive(Debug, PartialEq, Eq)]
pub struct EventResult {
    /// Wire datagrams to be sent to remote peers.
    pub to_peers: PeerQueues,
}

impl Default for SendResult {
    fn default() -> (r: SendResult)
        ensures
            r.to_peers@ == Map::<PeerId, Seq<Seq<u8>>>::empty(),
    {
        SendResult { to_peers: PeerQueues::new() }
    }
}

impl Default for RecvResult {
    fn default() -> (r: RecvResult)
        ensures
            r.to_local@ == Map::<PeerId, Seq<Seq<u8>>>::empty(),
            r.to_peers@ == Map::<PeerId, Seq<Seq<u8>>>::empty(),
    {
        RecvResult { to_local: PeerQueues::new(), to_peers: PeerQueues::new() }
    }
}

impl Default for EventResult {
    fn default() -> (r: EventResult)
        ensures
            r.to_peers@ == Map::<PeerId, Seq<Seq<u8>>>::empty(),
    {
        EventResult { to_peers: PeerQueues::new() }
    }
}

} // verus!
