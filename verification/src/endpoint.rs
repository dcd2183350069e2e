//! The tunnel endpoint: peer management, and the transformation of plaintext
//! packets into wire datagrams and back.

use vstd::prelude::*;

use crate::config::{PeerConfig, PeerId};
use crate::crypto::{
    accepts_plaintext, decrypt_packet, encrypt_packet, spec_datagram, spec_decrypt, Cipher,
};
use crate::results::{queue_of, EventResult, PeerQueues, RecvResult, SendResult};
use crate::keys::{NodeKeyPair, NodePublicKey};
use crate::obfs::{same_framing, Obfuscator};

verus! {

/// A point in time, from the standard library's monotonic clock.
#[verifier::external_type_specification]
#[verifier::external_body]
pub struct ExInstant(std::time::Instant);

/// A window of time in which an event is due.
pub struct TimeRange {
    /// The earliest time at which the event may be dispatched.
    pub start: std::time::Instant,
    /// The latest time by which the event should be dispatched.
    pub end: std::time::Instant,
}

/// Minimum decrypted plaintext length delivered to the local system.
///
/// The ShadowVPN keepalive convention sends a tiny (1-byte) encrypted datagram to
/// hold NAT/firewall mappings open; the receiver drops any decrypted payload
/// smaller than a 20-byte IPv4 header so the keepalive never reaches the local
/// delivery path.
pub const MIN_DELIVER_LEN: usize = 20;

/// Per-peer cryptographic state: its identity plus the pre-shared master key
/// used to seal and open its datagrams.
struct Peer {
    id: PeerId,
    config: PeerConfig,
    /// Master key bytes (`config.psk` truncated to the cipher's key length).
    master_key: Vec<u8>,
}

impl Peer {
    fn new(id: PeerId, config: PeerConfig, cipher: Cipher) -> (r: Peer)
        ensures
            r.id == id,
            r.config == config,
            r.master_key@ == peer_master(cipher, config),
    {
        let master_key = vstd::slice::slice_to_vec(&config.psk[0..cipher.key_len()]);
        Peer { id, config, master_key }
    }
}

/// The master key a peer's datagrams are sealed with: the leading key-length
/// bytes of its pre-shared key.
pub open spec fn peer_master(cipher: Cipher, config: PeerConfig) -> Seq<u8> {
    config.psk@.subrange(0, cipher.spec_key_len() as int)
}

/// Whether two public keys are the same bytes.
pub open spec fn same_key(a: NodePublicKey, b: NodePublicKey) -> bool {
    a.0@ == b.0@
}

/// Whether a list of peers names each handle at most once and each public key
/// at most once.
pub open spec fn peers_distinct(peers: Seq<(PeerId, PeerConfig)>) -> bool {
    forall|i: int, j: int|
        0 <= i < peers.len() && 0 <= j < peers.len() && i != j ==> #[trigger] peers[i].0
            != #[trigger] peers[j].0 && !same_key(peers[i].1.key, peers[j].1.key)
}

/// Whether handle `id` is in the list.
pub open spec fn has_id(peers: Seq<(PeerId, PeerConfig)>, id: PeerId) -> bool {
    exists|i: int| 0 <= i < peers.len() && peers[i].0 == id
}

/// The position of handle `id` in the list.
pub open spec fn id_index(peers: Seq<(PeerId, PeerConfig)>, id: PeerId) -> int {
    choose|i: int| 0 <= i < peers.len() && peers[i].0 == id
}

/// Whether public key `key` is in the list.
pub open spec fn has_key(peers: Seq<(PeerId, PeerConfig)>, key: NodePublicKey) -> bool {
    exists|i: int| 0 <= i < peers.len() && same_key(peers[i].1.key, key)
}

/// The position of public key `key` in the list.
pub open spec fn key_index(peers: Seq<(PeerId, PeerConfig)>, key: NodePublicKey) -> int {
    choose|i: int| 0 <= i < peers.len() && same_key(peers[i].1.key, key)
}

/// Whether inserting `config` under `id` keeps public keys distinct: no other
/// handle holds the same key.
pub open spec fn no_key_clash(peers: Seq<(PeerId, PeerConfig)>, id: PeerId, config: PeerConfig) -> bool {
    forall|i: int| 0 <= i < peers.len() && same_key(#[trigger] peers[i].1.key, config.key) ==> peers[i].0 == id
}

/// The peers after inserting or updating `id`: an existing handle keeps its
/// place, a new one goes last.
pub open spec fn spec_upsert(peers: Seq<(PeerId, PeerConfig)>, id: PeerId, config: PeerConfig) -> Seq<
    (PeerId, PeerConfig),
> {
    if has_id(peers, id) {
        peers.update(id_index(peers, id), (id, config))
    } else {
        peers.push((id, config))
    }
}

/// The peers after removing `id`.
pub open spec fn spec_remove(peers: Seq<(PeerId, PeerConfig)>, id: PeerId) -> Seq<(PeerId, PeerConfig)> {
    if has_id(peers, id) {
        peers.remove(id_index(peers, id))
    } else {
        peers
    }
}

/// The configuration stored under `id`.
pub open spec fn spec_peer_config(peers: Seq<(PeerId, PeerConfig)>, id: PeerId) -> Option<PeerConfig> {
    if has_id(peers, id) {
        Some(peers[id_index(peers, id)].1)
    } else {
        None
    }
}

/// The public key stored under `id`.
pub open spec fn spec_peer_key(peers: Seq<(PeerId, PeerConfig)>, id: PeerId) -> Option<NodePublicKey> {
    match spec_peer_config(peers, id) {
        Some(c) => Some(c.key),
        None => None,
    }
}

/// The handle whose public key is `key`.
pub open spec fn spec_peer_id(peers: Seq<(PeerId, PeerConfig)>, key: NodePublicKey) -> Option<PeerId> {
    if has_key(peers, key) {
        Some(peers[key_index(peers, key)].0)
    } else {
        None
    }
}

/// The first peer, from position `i` on, whose master key opens `datagram`,
/// with the plaintext it opens to.
pub open spec fn first_opener(
    cipher: Cipher,
    peers: Seq<(PeerId, PeerConfig)>,
    datagram: Seq<u8>,
    i: nat,
) -> Option<(PeerId, Seq<u8>)>
    decreases peers.len() - i,
{
    if i >= peers.len() {
        None
    } else {
        match spec_decrypt(cipher, peer_master(cipher, peers[i as int].1), datagram) {
            Some(p) => Some((peers[i as int].0, p)),
            None => first_opener(cipher, peers, datagram, i + 1),
        }
    }
}

/// The local delivery a received wire packet makes: it unwraps under the
/// obfuscation, the first peer whose key opens it is its sender, and
/// plaintexts shorter than [`MIN_DELIVER_LEN`] (keepalives, runts) are not
/// delivered.
pub open spec fn delivery(
    cipher: Cipher,
    obfs: Obfuscator,
    peers: Seq<(PeerId, PeerConfig)>,
    wire: Seq<u8>,
) -> Option<(PeerId, Seq<u8>)> {
    match obfs.spec_unwrap(wire) {
        Some(datagram) => match first_opener(cipher, peers, datagram, 0) {
            Some((id, p)) => if p.len() >= MIN_DELIVER_LEN {
                Some((id, p))
            } else {
                None
            },
            None => None,
        },
        None => None,
    }
}

/// The plaintexts a sequence of received wire packets delivers, grouped by
/// sender in arrival order.
pub open spec fn deliveries(
    cipher: Cipher,
    obfs: Obfuscator,
    peers: Seq<(PeerId, PeerConfig)>,
    wires: Seq<Seq<u8>>,
) -> Map<PeerId, Seq<Seq<u8>>>
    decreases wires.len(),
{
    if wires.len() == 0 {
        Map::empty()
    } else {
        let m = deliveries(cipher, obfs, peers, wires.drop_last());
        match delivery(cipher, obfs, peers, wires.last()) {
            Some((id, p)) => m.insert(id, queue_of(m, id).push(p)),
            None => m,
        }
    }
}

/// The byte contents of a list of packets.
pub open spec fn packet_views(packets: Seq<Vec<u8>>) -> Seq<Seq<u8>> {
    packets.map_values(|p: Vec<u8>| p@)
}

/// The packets of `packets` that the cipher accepts, in order.
pub open spec fn accepted(cipher: Cipher, packets: Seq<Seq<u8>>) -> Seq<Seq<u8>>
    decreases packets.len(),
{
    if packets.len() == 0 {
        Seq::empty()
    } else {
        let prev = accepted(cipher, packets.drop_last());
        if accepts_plaintext(cipher, packets.last().len()) {
            prev.push(packets.last())
        } else {
            prev
        }
    }
}

/// The plaintexts a batch of `(peer, packets)` entries sends, grouped by
/// peer: entries for unknown peers are skipped, a known peer gets a queue
/// even when its packets are all refused, and packets the cipher does not
/// accept are dropped.
pub open spec fn outgoing(
    cipher: Cipher,
    peers: Seq<(PeerId, PeerConfig)>,
    entries: Seq<(PeerId, Seq<Seq<u8>>)>,
) -> Map<PeerId, Seq<Seq<u8>>>
    decreases entries.len(),
{
    if entries.len() == 0 {
        Map::empty()
    } else {
        let m = outgoing(cipher, peers, entries.drop_last());
        let (id, packets) = entries.last();
        if has_id(peers, id) {
            m.insert(id, queue_of(m, id) + accepted(cipher, packets))
        } else {
            m
        }
    }
}

/// What a wire packet opens to under a master key.
pub open spec fn wire_opens(cipher: Cipher, obfs: Obfuscator, master_key: Seq<u8>, wire: Seq<u8>) -> Option<
    Seq<u8>,
> {
    match obfs.spec_unwrap(wire) {
        Some(datagram) => spec_decrypt(cipher, master_key, datagram),
        None => None,
    }
}

/// Whether `wire` is a sealing of `plaintext` under `master_key`: the
/// framing of the datagram for some salt, which opens to the plaintext.
pub open spec fn is_sealing(
    cipher: Cipher,
    obfs: Obfuscator,
    master_key: Seq<u8>,
    plaintext: Seq<u8>,
    wire: Seq<u8>,
) -> bool {
    &&& exists|salt: Seq<u8>|
        salt.len() == cipher.spec_key_len() && obfs.is_framing(
            #[trigger] spec_datagram(cipher, master_key, salt, plaintext),
            wire,
        )
    &&& wire_opens(cipher, obfs, master_key, wire) == Some(plaintext)
}

/// Whether `wires` holds, for each peer of `plain` and no other, one sealing
/// under that peer's master key of each of its plaintexts, in order.
pub open spec fn seals_all(
    cipher: Cipher,
    obfs: Obfuscator,
    peers: Seq<(PeerId, PeerConfig)>,
    plain: Map<PeerId, Seq<Seq<u8>>>,
    wires: Map<PeerId, Seq<Seq<u8>>>,
) -> bool {
    &&& wires.dom() == plain.dom()
    &&& forall|id: PeerId| #[trigger]
        wires.contains_key(id) ==> wires[id].len() == plain[id].len() && forall|k: int|
            0 <= k < wires[id].len() ==> is_sealing(
                cipher,
                obfs,
                peer_master(cipher, spec_peer_config(peers, id)->0),
                plain[id][k],
                wires[id][k],
            )
}

/// The byte contents of a batch of `(peer, packets)` entries.
pub open spec fn entry_views(entries: Seq<(PeerId, Vec<Vec<u8>>)>) -> Seq<(PeerId, Seq<Seq<u8>>)> {
    entries.map_values(|e: (PeerId, Vec<Vec<u8>>)| (e.0, packet_views(e.1@)))
}

proof fn lemma_seals_touch(
    cipher: Cipher,
    obfs: Obfuscator,
    peers: Seq<(PeerId, PeerConfig)>,
    plain: Map<PeerId, Seq<Seq<u8>>>,
    wires: Map<PeerId, Seq<Seq<u8>>>,
    id: PeerId,
)
    requires
        seals_all(cipher, obfs, peers, plain, wires),
    ensures
        seals_all(
            cipher,
            obfs,
            peers,
            plain.insert(id, queue_of(plain, id)),
            wires.insert(id, queue_of(wires, id)),
        ),
{
    let p2 = plain.insert(id, queue_of(plain, id));
    let w2 = wires.insert(id, queue_of(wires, id));
    assert(w2.dom() =~= p2.dom());
    assert forall|q: PeerId| #[trigger] w2.contains_key(q) implies w2[q].len() == p2[q].len() && forall|k: int|
        0 <= k < w2[q].len() ==> is_sealing(
            cipher,
            obfs,
            peer_master(cipher, spec_peer_config(peers, q)->0),
            p2[q][k],
            w2[q][k],
        ) by {
        if q == id && !wires.contains_key(id) {
        } else {
            assert(wires.contains_key(q));
        }
    }
}

proof fn lemma_seals_push(
    cipher: Cipher,
    obfs: Obfuscator,
    peers: Seq<(PeerId, PeerConfig)>,
    plain: Map<PeerId, Seq<Seq<u8>>>,
    wires: Map<PeerId, Seq<Seq<u8>>>,
    id: PeerId,
    plaintext: Seq<u8>,
    wire: Seq<u8>,
)
    requires
        seals_all(cipher, obfs, peers, plain, wires),
        is_sealing(cipher, obfs, peer_master(cipher, spec_peer_config(peers, id)->0), plaintext, wire),
    ensures
        seals_all(
            cipher,
            obfs,
            peers,
            plain.insert(id, queue_of(plain, id).push(plaintext)),
            wires.insert(id, queue_of(wires, id).push(wire)),
        ),
{
    let p2 = plain.insert(id, queue_of(plain, id).push(plaintext));
    let w2 = wires.insert(id, queue_of(wires, id).push(wire));
    assert(w2.dom() =~= p2.dom());
    assert forall|q: PeerId| #[trigger] w2.contains_key(q) implies w2[q].len() == p2[q].len() && forall|k: int|
        0 <= k < w2[q].len() ==> is_sealing(
            cipher,
            obfs,
            peer_master(cipher, spec_peer_config(peers, q)->0),
            p2[q][k],
            w2[q][k],
        ) by {
        if q == id {
            if wires.contains_key(id) {
                assert(plain.contains_key(id));
                assert forall|k: int| 0 <= k < w2[q].len() implies is_sealing(
                    cipher,
                    obfs,
                    peer_master(cipher, spec_peer_config(peers, q)->0),
                    p2[q][k],
                    w2[q][k],
                ) by {
                    if k < wires[id].len() {
                        assert(w2[q][k] == wires[id][k]);
                        assert(p2[q][k] == plain[id][k]);
                    }
                }
            } else {
                assert(!plain.contains_key(id));
            }
        } else {
            assert(wires.contains_key(q));
        }
    }
}

/// A tunnel endpoint capable of communicating with multiple remote peers using
/// the ShadowVPN protocol: a pre-shared-key (PSK) shadowsocks AEAD UDP scheme
/// with optional QUIC carrier obfuscation.
///
/// The endpoint is sans-I/O: it transforms packets handed to it and reports the
/// packets the caller should transmit or deliver, but performs no socket I/O and
/// holds no timers (the protocol is stateless).
pub struct Endpoint {
    /// Our own identity, retained for management; the data plane is
    /// symmetric-key and does not use it cryptographically.
    my_key: NodeKeyPair,
    /// The AEAD cipher used for every peer.
    cipher: Cipher,
    /// Carrier obfuscation applied to every datagram on the wire.
    obfs: Obfuscator,
    /// The peers, in the order they were first inserted.
    peers: Vec<Peer>,
}

/// The handles and configurations of a list of peer states.
spec fn peer_list(peers: Seq<Peer>) -> Seq<(PeerId, PeerConfig)> {
    peers.map_values(|p: Peer| (p.id, p.config))
}

impl Endpoint {
    #[verifier::type_invariant]
    closed spec fn inv(&self) -> bool {
        &&& peers_distinct(peer_list(self.peers@))
        &&& forall|i: int|
            0 <= i < self.peers@.len() ==> #[trigger] self.peers@[i].master_key@ == peer_master(
                self.cipher,
                self.peers@[i].config,
            )
    }

    /// The peers, in the order they were first inserted. Every endpoint keeps
    /// them distinct (its invariant); the view is taken only of such a list,
    /// so that distinctness holds of every value of the type.
    pub closed spec fn spec_peers(&self) -> Seq<(PeerId, PeerConfig)> {
        let list = peer_list(self.peers@);
        if peers_distinct(list) {
            list
        } else {
            Seq::empty()
        }
    }

    /// The AEAD cipher used for every peer.
    pub closed spec fn spec_cipher(&self) -> Cipher {
        self.cipher
    }

    /// The carrier obfuscation applied to every datagram.
    pub closed spec fn spec_obfs(&self) -> Obfuscator {
        self.obfs
    }

    /// Our own keypair.
    pub closed spec fn spec_node_keys(&self) -> NodeKeyPair {
        self.my_key
    }

    /// Construct a new endpoint with the given keypair, using the default cipher
    /// (`chacha20-poly1305`) and QUIC carrier obfuscation.
    pub fn new(my_key: NodeKeyPair) -> (r: Endpoint)
        ensures
            r.spec_node_keys() == my_key,
            r.spec_cipher() == Cipher::ChaCha20Poly1305,
            r.spec_obfs() is Quic,
            r.spec_peers() == Seq::<(PeerId, PeerConfig)>::empty(),
            peers_distinct(r.spec_peers()),
    {
        proof {
            reveal_strlit("quic");
        }
        Self::with_config(my_key, Cipher::ChaCha20Poly1305, Obfuscator::from_name("quic"))
    }

    /// Construct a new endpoint with an explicit cipher and obfuscator.
    ///
    /// Both ends of the tunnel must agree on the cipher and obfuscation; a
    /// mismatched peer simply sees its datagrams fail to decode and dropped.
    pub fn with_config(my_key: NodeKeyPair, cipher: Cipher, obfs: Obfuscator) -> (r: Endpoint)
        ensures
            r.spec_node_keys() == my_key,
            r.spec_cipher() == cipher,
            r.spec_obfs() == obfs,
            r.spec_peers() == Seq::<(PeerId, PeerConfig)>::empty(),
            peers_distinct(r.spec_peers()),
    {
        let r = Endpoint { my_key, cipher, obfs, peers: Vec::new() };
        assert(r.spec_peers() =~= Seq::<(PeerId, PeerConfig)>::empty());
        r
    }

    /// The cipher this endpoint uses for all peers.
    pub fn cipher(&self) -> (r: Cipher)
        ensures
            r == self.spec_cipher(),
    {
        self.cipher
    }

    /// Our own keypair.
    pub fn node_keys(&self) -> (r: &NodeKeyPair)
        ensures
            *r == self.spec_node_keys(),
    {
        &self.my_key
    }

    /// The position of handle `id` among `peers`.
    fn find_id(peers: &Vec<Peer>, id: PeerId) -> (r: Option<usize>)
        ensures
            match r {
                Some(i) => i < peers@.len() && peers@[i as int].id == id,
                None => !has_id(peer_list(peers@), id),
            },
    {
        let mut i: usize = 0;
        while i < peers.len()
            invariant
                i <= peers@.len(),
                forall|j: int| 0 <= j < i ==> peers@[j].id != id,
            decreases peers@.len() - i,
        {
            if peers[i].id == id {
                return Some(i);
            }
            i = i + 1;
        }
        proof {
            assert forall|j: int| 0 <= j < peers@.len() implies peer_list(peers@)[j].0 != id by {
                assert(peer_list(peers@)[j] == (peers@[j].id, peers@[j].config));
            }
        }
        None
    }

    /// The position of public key `key` among `peers`.
    fn find_key(peers: &Vec<Peer>, key: &NodePublicKey) -> (r: Option<usize>)
        ensures
            match r {
                Some(i) => i < peers@.len() && same_key(peers@[i as int].config.key, *key),
                None => !has_key(peer_list(peers@), *key),
            },
    {
        let mut i: usize = 0;
        while i < peers.len()
            invariant
                i <= peers@.len(),
                forall|j: int| 0 <= j < i ==> !same_key(peers@[j].config.key, *key),
            decreases peers@.len() - i,
        {
            if peers[i].config.key.same_as(key) {
                return Some(i);
            }
            i = i + 1;
        }
        proof {
            assert forall|j: int| 0 <= j < peers@.len() implies !same_key(
                peer_list(peers@)[j].1.key,
                *key,
            ) by {
                assert(peer_list(peers@)[j] == (peers@[j].id, peers@[j].config));
            }
        }
        None
    }

    /// Insert a peer if it doesn't exist, otherwise update the peer with the
    /// given `id` with the given config.
    ///
    /// Returns the old [`PeerConfig`] if there was one. The public key in
    /// `cfg` must not belong to a peer with a different `id`.
    pub fn upsert_peer(&mut self, id: PeerId, cfg: PeerConfig) -> (r: Option<PeerConfig>)
        requires
            no_key_clash(old(self).spec_peers(), id, cfg),
        ensures
            r == spec_peer_config(old(self).spec_peers(), id),
            final(self).spec_peers() == spec_upsert(old(self).spec_peers(), id, cfg),
            peers_distinct(final(self).spec_peers()),
            final(self).spec_cipher() == old(self).spec_cipher(),
            final(self).spec_obfs() == old(self).spec_obfs(),
            final(self).spec_node_keys() == old(self).spec_node_keys(),
    {
        proof {
            use_type_invariant(&*self);
        }
        let peer = Peer::new(id, cfg, self.cipher);
        let mut peers: Vec<Peer> = Vec::new();
        std::mem::swap(&mut peers, &mut self.peers);
        let ghost old_peers = peers@;
        let ghost old_list = peer_list(old_peers);
        let r = match Self::find_id(&peers, id) {
            Some(i) => {
                let old_config = peers[i].config;
                peers.set(i, peer);
                proof {
                    assert(old_list[i as int].0 == id);
                    let k = id_index(old_list, id);
                    assert(k == i);
                    assert(peer_list(peers@) =~= old_list.update(i as int, (id, cfg)));
                }
                Some(old_config)
            },
            None => {
                peers.push(peer);
                proof {
                    assert(peer_list(peers@) =~= old_list.push((id, cfg)));
                }
                None
            },
        };
        proof {
            let new_list = peer_list(peers@);
            assert forall|i: int, j: int|
                0 <= i < new_list.len() && 0 <= j < new_list.len() && i != j implies #[trigger] new_list[i].0
                != #[trigger] new_list[j].0 && !same_key(new_list[i].1.key, new_list[j].1.key) by {
                if new_list[i].0 != id && new_list[j].0 != id {
                    assert(new_list[i] == old_list[i]);
                    assert(new_list[j] == old_list[j]);
                } else if new_list[i].0 == id {
                    if j < old_list.len() {
                        assert(new_list[j] == old_list[j] || new_list[j].0 == id);
                    }
                } else {
                    if i < old_list.len() {
                        assert(new_list[i] == old_list[i] || new_list[i].0 == id);
                    }
                }
            }
        }
        self.peers = peers;
        r
    }

    /// Remove the given peer.
    ///
    /// Returns whether the peer in question existed.
    pub fn remove_peer(&mut self, peer: PeerId) -> (r: bool)
        ensures
            r == has_id(old(self).spec_peers(), peer),
            final(self).spec_peers() == spec_remove(old(self).spec_peers(), peer),
            peers_distinct(final(self).spec_peers()),
            final(self).spec_cipher() == old(self).spec_cipher(),
            final(self).spec_obfs() == old(self).spec_obfs(),
            final(self).spec_node_keys() == old(self).spec_node_keys(),
    {
        proof {
            use_type_invariant(&*self);
        }
        let mut peers: Vec<Peer> = Vec::new();
        std::mem::swap(&mut peers, &mut self.peers);
        let ghost old_peers = peers@;
        let ghost old_list = peer_list(old_peers);
        let r = match Self::find_id(&peers, peer) {
            Some(i) => {
                let _removed = peers.remove(i);
                proof {
                    assert(old_list[i as int].0 == peer);
                    assert(id_index(old_list, peer) == i);
                    assert(peer_list(peers@) =~= old_list.remove(i as int));
                }
                true
            },
            None => false,
        };
        proof {
            let new_list = peer_list(peers@);
            assert forall|a: int, b: int|
                0 <= a < new_list.len() && 0 <= b < new_list.len() && a != b implies #[trigger] new_list[a].0
                != #[trigger] new_list[b].0 && !same_key(new_list[a].1.key, new_list[b].1.key) by {
                if r {
                    let i = id_index(old_list, peer);
                    let oa = if a < i { a } else { a + 1 };
                    let ob = if b < i { b } else { b + 1 };
                    assert(new_list[a] == old_list[oa]);
                    assert(new_list[b] == old_list[ob]);
                    assert(old_list[oa].0 != old_list[ob].0);
                }
            }
            assert forall|k: int| 0 <= k < peers@.len() implies #[trigger] peers@[k].master_key@
                == peer_master(self.cipher, peers@[k].config) by {
                if r {
                    let i = id_index(old_list, peer);
                    let ok = if k < i { k } else { k + 1 };
                    assert(peers@[k] == old_peers[ok]);
                }
            }
        }
        self.peers = peers;
        r
    }

    /// Return the node key for the selected peer.
    pub fn peer_key(&self, id: PeerId) -> (r: Option<NodePublicKey>)
        ensures
            r == spec_peer_key(self.spec_peers(), id),
    {
        proof {
            use_type_invariant(self);
        }
        match Self::find_id(&self.peers, id) {
            Some(i) => {
                proof {
                    let list = self.spec_peers();
                    assert(list[i as int].0 == id);
                    assert(id_index(list, id) == i);
                }
                Some(self.peers[i].config.key)
            },
            None => None,
        }
    }

    /// Return the peer id that has the selected node key.
    pub fn peer_id(&self, key: NodePublicKey) -> (r: Option<PeerId>)
        ensures
            r == spec_peer_id(self.spec_peers(), key),
    {
        proof {
            use_type_invariant(self);
        }
        match Self::find_key(&self.peers, &key) {
            Some(i) => {
                proof {
                    let list = self.spec_peers();
                    assert(same_key(list[i as int].1.key, key));
                    let j = key_index(list, key);
                    if j != i {
                        assert(list[j].0 != list[i as int].0);
                    }
                    assert(key_index(list, key) == i);
                }
                Some(self.peers[i].id)
            },
            None => None,
        }
    }

    /// The first peer whose master key opens `datagram`, with the plaintext.
    fn open_from_any(&self, datagram: &[u8]) -> (r: Option<(PeerId, Vec<u8>)>)
        ensures
            match first_opener(self.spec_cipher(), self.spec_peers(), datagram@, 0) {
                Some((id, p)) => r matches Some(x) && x.0 == id && x.1@ == p,
                None => r is None,
            },
    {
        proof {
            use_type_invariant(self);
        }
        let mut i: usize = 0;
        while i < self.peers.len()
            invariant
                i <= self.peers@.len(),
                self.inv(),
                first_opener(self.spec_cipher(), self.spec_peers(), datagram@, 0) == first_opener(
                    self.spec_cipher(),
                    self.spec_peers(),
                    datagram@,
                    i as nat,
                ),
            decreases self.peers@.len() - i,
        {
            let peer = &self.peers[i];
            proof {
                assert(self.spec_peers()[i as int] == (peer.id, peer.config));
                assert(peer.master_key@ == peer_master(self.cipher, peer.config));
            }
            match decrypt_packet(self.cipher, peer.master_key.as_slice(), datagram) {
                Ok(plaintext) => {
                    return Some((peer.id, plaintext));
                },
                Err(_) => {},
            }
            i = i + 1;
        }
        None
    }

    /// Decrypt received wire datagrams and report the plaintext packets to
    /// deliver locally, tagged with the originating peer.
    ///
    /// Datagrams carry no peer identifier, so each one is obfs-decoded and then
    /// trial-decrypted against each configured peer's master key, in the order
    /// the peers were inserted. The AEAD tag authenticates the match, so the
    /// first peer whose key opens the datagram is the sender. Datagrams that no
    /// peer can open, or that decode to fewer than 20 bytes (a runt smaller
    /// than an IPv4 header, e.g. a keepalive), are dropped.
    pub fn recv(&mut self, packets: Vec<Vec<u8>>) -> (r: RecvResult)
        ensures
            r.to_local@ == deliveries(
                old(self).spec_cipher(),
                old(self).spec_obfs(),
                old(self).spec_peers(),
                packet_views(packets@),
            ),
            r.to_peers@ == Map::<PeerId, Seq<Seq<u8>>>::empty(),
            final(self).spec_peers() == old(self).spec_peers(),
            final(self).spec_cipher() == old(self).spec_cipher(),
            final(self).spec_obfs() == old(self).spec_obfs(),
            final(self).spec_node_keys() == old(self).spec_node_keys(),
    {
        let mut to_local = PeerQueues::new();
        let ghost wires = packet_views(packets@);
        let mut i: usize = 0;
        while i < packets.len()
            invariant
                i <= packets@.len(),
                wires == packet_views(packets@),
                to_local@ == deliveries(
                    self.spec_cipher(),
                    self.spec_obfs(),
                    self.spec_peers(),
                    wires.subrange(0, i as int),
                ),
            decreases packets@.len() - i,
        {
            proof {
                assert(wires.subrange(0, i + 1).drop_last() =~= wires.subrange(0, i as int));
                assert(wires.subrange(0, i + 1).last() == packets@[i as int]@);
            }
            match self.obfs.unwrap(packets[i].as_slice()) {
                Some(datagram) => match self.open_from_any(datagram.as_slice()) {
                    Some((id, plaintext)) => {
                        if plaintext.len() >= MIN_DELIVER_LEN {
                            to_local.push(id, plaintext);
                        }
                    },
                    None => {},
                },
                None => {},
            }
            i = i + 1;
        }
        proof {
            assert(wires.subrange(0, packets@.len() as int) =~= wires);
        }
        RecvResult { to_local, to_peers: PeerQueues::new() }
    }

    /// Encrypt packets and report the wire datagrams to send to each peer.
    ///
    /// Each plaintext packet becomes exactly one wire datagram
    /// (`obfs(salt ++ AEAD(plaintext))`) sealed under its peer's master key.
    /// Entries for unknown peers are skipped, and packets the cipher refuses
    /// (too long) are dropped.
    pub fn send(&mut self, packets: Vec<(PeerId, Vec<Vec<u8>>)>) -> (r: SendResult)
        ensures
            seals_all(
                old(self).spec_cipher(),
                old(self).spec_obfs(),
                old(self).spec_peers(),
                outgoing(old(self).spec_cipher(), old(self).spec_peers(), entry_views(packets@)),
                r.to_peers@,
            ),
            final(self).spec_peers() == old(self).spec_peers(),
            final(self).spec_cipher() == old(self).spec_cipher(),
            final(self).spec_obfs() == old(self).spec_obfs(),
            final(self).spec_node_keys() == old(self).spec_node_keys(),
    {
        proof {
            use_type_invariant(&*self);
        }
        let mut to_peers = PeerQueues::new();
        let ghost entries = entry_views(packets@);
        let ghost peers = self.spec_peers();
        let mut i: usize = 0;
        proof {
            assert(to_peers@.dom() =~= outgoing(self.cipher, peers, entries.subrange(0, 0)).dom());
        }
        while i < packets.len()
            invariant
                i <= packets@.len(),
                self.inv(),
                peers == self.spec_peers(),
                entries == entry_views(packets@),
                seals_all(
                    self.cipher,
                    self.obfs,
                    peers,
                    outgoing(self.cipher, peers, entries.subrange(0, i as int)),
                    to_peers@,
                ),
            decreases packets@.len() - i,
        {
            let ghost before = outgoing(self.cipher, peers, entries.subrange(0, i as int));
            proof {
                assert(entries.subrange(0, i + 1).drop_last() =~= entries.subrange(0, i as int));
                assert(entries.subrange(0, i + 1).last() == entries[i as int]);
            }
            let peer_id = packets[i].0;
            let batch = &packets[i].1;
            match Self::find_id(&self.peers, peer_id) {
                None => {},
                Some(pi) => {
                    proof {
                        assert(peers[pi as int].0 == peer_id);
                        assert(id_index(peers, peer_id) == pi);
                        lemma_seals_touch(self.cipher, self.obfs, peers, before, to_peers@, peer_id);
                    }
                    to_peers.touch(peer_id);
                    let peer = &self.peers[pi];
                    let ghost master = peer_master(self.cipher, spec_peer_config(peers, peer_id)->0);
                    let ghost batch_view = packet_views(batch@);
                    assert(peer.master_key@ == master);
                    let mut k: usize = 0;
                    while k < batch.len()
                        invariant
                            k <= batch@.len(),
                            batch_view == packet_views(batch@),
                            peer.master_key@ == master,
                            master == peer_master(self.cipher, spec_peer_config(peers, peer_id)->0),
                            seals_all(
                                self.cipher,
                                self.obfs,
                                peers,
                                before.insert(
                                    peer_id,
                                    queue_of(before, peer_id) + accepted(
                                        self.cipher,
                                        batch_view.subrange(0, k as int),
                                    ),
                                ),
                                to_peers@,
                            ),
                        decreases batch@.len() - k,
                    {
                        let ghost plain_k = before.insert(
                            peer_id,
                            queue_of(before, peer_id) + accepted(
                                self.cipher,
                                batch_view.subrange(0, k as int),
                            ),
                        );
                        proof {
                            assert(batch_view.subrange(0, k + 1).drop_last() =~= batch_view.subrange(
                                0,
                                k as int,
                            ));
                            assert(batch_view.subrange(0, k + 1).last() == batch@[k as int]@);
                        }
                        match encrypt_packet(self.cipher, peer.master_key.as_slice(), batch[k].as_slice()) {
                            Ok(datagram) => {
                                let wire = self.obfs.wrap(datagram.as_slice());
                                proof {
                                    assert(wire_opens(self.cipher, self.obfs, master, wire@) == Some(
                                        batch@[k as int]@,
                                    ));
                                    lemma_seals_push(
                                        self.cipher,
                                        self.obfs,
                                        peers,
                                        plain_k,
                                        to_peers@,
                                        peer_id,
                                        batch@[k as int]@,
                                        wire@,
                                    );
                                    assert(queue_of(plain_k, peer_id).push(batch@[k as int]@) =~= queue_of(
                                        before,
                                        peer_id,
                                    ) + accepted(self.cipher, batch_view.subrange(0, k + 1)));
                                    assert(plain_k.insert(peer_id, queue_of(plain_k, peer_id).push(batch@[k as int]@))
                                        =~= before.insert(
                                        peer_id,
                                        queue_of(before, peer_id) + accepted(
                                            self.cipher,
                                            batch_view.subrange(0, k + 1),
                                        ),
                                    ));
                                }
                                to_peers.push(peer_id, wire);
                            },
                            Err(_) => {
                                proof {
                                    assert(accepted(self.cipher, batch_view.subrange(0, k + 1)) == accepted(
                                        self.cipher,
                                        batch_view.subrange(0, k as int),
                                    ));
                                }
                            },
                        }
                        k = k + 1;
                    }
                    proof {
                        assert(batch_view.subrange(0, batch@.len() as int) =~= batch_view);
                        assert(entries[i as int] == (peer_id, batch_view));
                        assert(has_id(peers, peer_id));
                    }
                },
            }
            i = i + 1;
        }
        proof {
            assert(entries.subrange(0, packets@.len() as int) =~= entries);
        }
        SendResult { to_peers }
    }

    /// Dispatch time-based events. The data plane is stateless and has no
    /// timers, so there is never anything to send.
    pub fn dispatch_events(&mut self, _now: std::time::Instant) -> (r: EventResult)
        ensures
            r.to_peers@ == Map::<PeerId, Seq<Seq<u8>>>::empty(),
            final(self).spec_peers() == old(self).spec_peers(),
            final(self).spec_cipher() == old(self).spec_cipher(),
            final(self).spec_obfs() == old(self).spec_obfs(),
            final(self).spec_node_keys() == old(self).spec_node_keys(),
    {
        EventResult { to_peers: PeerQueues::new() }
    }

    /// The next time range in which [`Endpoint::dispatch_events`] should be
    /// called. Always `None`: the stateless data plane schedules no events.
    pub fn next_event(&self) -> (r: Option<TimeRange>)
        ensures
            r is None,
    {
        None
    }
}

/// After inserting or updating handle `id` with `config`, the handle maps to
/// the configuration's key and the key back to the handle, and the peers stay
/// distinct.
pub proof fn lemma_upsert_then_lookup(
    peers: Seq<(PeerId, PeerConfig)>,
    id: PeerId,
    config: PeerConfig,
)
    requires
        peers_distinct(peers),
        no_key_clash(peers, id, config),
    ensures
        peers_distinct(spec_upsert(peers, id, config)),
        spec_peer_config(spec_upsert(peers, id, config), id) == Some(config),
        spec_peer_key(spec_upsert(peers, id, config), id) == Some(config.key),
        spec_peer_id(spec_upsert(peers, id, config), config.key) == Some(id),
{
    let new = spec_upsert(peers, id, config);
    let at = if has_id(peers, id) { id_index(peers, id) } else { peers.len() as int };
    assert(new[at] == (id, config));
    assert forall|i: int, j: int|
        0 <= i < new.len() && 0 <= j < new.len() && i != j implies #[trigger] new[i].0
        != #[trigger] new[j].0 && !same_key(new[i].1.key, new[j].1.key) by {
        if i != at && j != at {
            assert(new[i] == peers[i] && new[j] == peers[j]);
        } else if i == at {
            assert(new[j] == peers[j]);
            if j < peers.len() && peers[j].0 == id {
                assert(has_id(peers, id));
            }
        } else {
            assert(new[i] == peers[i]);
            if i < peers.len() && peers[i].0 == id {
                assert(has_id(peers, id));
            }
        }
    }
    assert(has_id(new, id));
    let k = id_index(new, id);
    if k != at {
        assert(new[k].0 != new[at].0);
    }
    assert(has_key(new, config.key));
    let kk = key_index(new, config.key);
    if kk != at {
        assert(new[kk].0 != new[at].0);
    }
}

/// After removing handle `id`, neither the handle nor the key it held is
/// found, and the peers stay distinct.
pub proof fn lemma_remove_then_lookup(peers: Seq<(PeerId, PeerConfig)>, id: PeerId)
    requires
        peers_distinct(peers),
    ensures
        peers_distinct(spec_remove(peers, id)),
        spec_peer_key(spec_remove(peers, id), id) is None,
        spec_peer_key(peers, id) matches Some(key) ==> spec_peer_id(spec_remove(peers, id), key) is None,
{
    let new = spec_remove(peers, id);
    if has_id(peers, id) {
        let at = id_index(peers, id);
        assert forall|i: int, j: int|
            0 <= i < new.len() && 0 <= j < new.len() && i != j implies #[trigger] new[i].0
            != #[trigger] new[j].0 && !same_key(new[i].1.key, new[j].1.key) by {
            let oi = if i < at { i } else { i + 1 };
            let oj = if j < at { j } else { j + 1 };
            assert(new[i] == peers[oi] && new[j] == peers[oj]);
            assert(peers[oi].0 != peers[oj].0);
        }
        if has_id(new, id) {
            let k = id_index(new, id);
            let ok = if k < at { k } else { k + 1 };
            assert(new[k] == peers[ok]);
            assert(peers[ok].0 != peers[at].0);
        }
        let key = peers[at].1.key;
        if has_key(new, key) {
            let k = key_index(new, key);
            let ok = if k < at { k } else { k + 1 };
            assert(new[k] == peers[ok]);
            assert(peers[ok].0 != peers[at].0);
        }
    }
}

/// A handle's key leads back to the handle.
pub proof fn lemma_peer_id_of_peer_key(peers: Seq<(PeerId, PeerConfig)>, id: PeerId)
    requires
        peers_distinct(peers),
        has_id(peers, id),
    ensures
        spec_peer_key(peers, id) matches Some(key) && spec_peer_id(peers, key) == Some(id),
{
    let i = id_index(peers, id);
    let key = peers[i].1.key;
    assert(has_key(peers, key));
    let k = key_index(peers, key);
    if k != i {
        assert(peers[k].0 != peers[i].0);
    }
}

/// Every endpoint, however it was reached, names each handle at most once and
/// each public key at most once.
pub proof fn lemma_endpoint_peers_distinct(e: &Endpoint)
    ensures
        peers_distinct(e.spec_peers()),
{
}

/// Among distinct peers, looking a handle's key up and looking a key's handle
/// up are inverse: `id` has key `key` exactly when `key` leads to `id`.
pub proof fn lemma_key_lookup_inverse(peers: Seq<(PeerId, PeerConfig)>, id: PeerId, key: NodePublicKey)
    requires
        peers_distinct(peers),
    ensures
        (spec_peer_key(peers, id) == Some(key)) == (spec_peer_id(peers, key) == Some(id)),
{
    if spec_peer_key(peers, id) == Some(key) {
        lemma_peer_id_of_peer_key(peers, id);
    }
    if spec_peer_id(peers, key) == Some(id) {
        let k = key_index(peers, key);
        assert(peers[k].0 == id);
        assert(has_id(peers, id));
        let i = id_index(peers, id);
        if i != k {
            assert(peers[i].0 != peers[k].0);
        }
        assert(peers[k].1.key.0 =~= key.0);
    }
}

/// In every endpoint, the key of a handle and the handle of a key are inverse
/// lookups.
pub proof fn lemma_endpoint_key_lookup_inverse(e: &Endpoint, id: PeerId, key: NodePublicKey)
    ensures
        (spec_peer_key(e.spec_peers(), id) == Some(key)) == (spec_peer_id(e.spec_peers(), key)
            == Some(id)),
{
    lemma_endpoint_peers_distinct(e);
    lemma_key_lookup_inverse(e.spec_peers(), id, key);
}

/// Inserting or updating handle `id` leaves the configuration of every other
/// handle as it was.
pub proof fn lemma_upsert_keeps_others(
    peers: Seq<(PeerId, PeerConfig)>,
    id: PeerId,
    config: PeerConfig,
    other: PeerId,
)
    requires
        peers_distinct(peers),
        other != id,
    ensures
        spec_peer_config(spec_upsert(peers, id, config), other) == spec_peer_config(peers, other),
{
    let new = spec_upsert(peers, id, config);
    let at = if has_id(peers, id) { id_index(peers, id) } else { peers.len() as int };
    assert(new[at].0 == id);
    if has_id(peers, other) {
        let j = id_index(peers, other);
        assert(new[j] == peers[j]);
        assert(has_id(new, other));
    }
    if has_id(new, other) {
        let j = id_index(new, other);
        assert(j != at);
        assert(new[j] == peers[j]);
        assert(has_id(peers, other));
        let i = id_index(peers, other);
        if i != j {
            assert(peers[i].0 != peers[j].0);
        }
    }
}

/// Removing handle `id` leaves the configuration of every other handle as it
/// was.
pub proof fn lemma_remove_keeps_others(peers: Seq<(PeerId, PeerConfig)>, id: PeerId, other: PeerId)
    requires
        peers_distinct(peers),
        other != id,
    ensures
        spec_peer_config(spec_remove(peers, id), other) == spec_peer_config(peers, other),
{
    if has_id(peers, id) {
        let new = spec_remove(peers, id);
        let at = id_index(peers, id);
        if has_id(peers, other) {
            let j = id_index(peers, other);
            assert(j != at);
            let nj = if j < at { j } else { j - 1 };
            assert(new[nj] == peers[j]);
            assert(has_id(new, other));
        }
        if has_id(new, other) {
            let j = id_index(new, other);
            let oj = if j < at { j } else { j + 1 };
            assert(new[j] == peers[oj]);
            assert(has_id(peers, other));
            let i = id_index(peers, other);
            if i != oj {
                assert(peers[i].0 != peers[oj].0);
            }
        }
    }
}

/// From position `i` on, the peer a datagram is credited to holds a master
/// key that opens it to the credited plaintext, and no peer before that one
/// (from `i` on) opens it; nothing is credited exactly when no key opens it.
proof fn lemma_first_opener_from(cipher: Cipher, peers: Seq<(PeerId, PeerConfig)>, datagram: Seq<u8>, i: nat)
    ensures
        first_opener(cipher, peers, datagram, i) matches Some((id, p)) ==> exists|k: int|
            i <= k < peers.len() && peers[k].0 == id && spec_decrypt(
                cipher,
                peer_master(cipher, peers[k].1),
                datagram,
            ) == Some(p) && forall|j: int|
                i <= j < k ==> (#[trigger] spec_decrypt(
                    cipher,
                    peer_master(cipher, peers[j].1),
                    datagram,
                )) is None,
        (first_opener(cipher, peers, datagram, i) is None) == (forall|j: int|
            i <= j < peers.len() ==> (#[trigger] spec_decrypt(
                cipher,
                peer_master(cipher, peers[j].1),
                datagram,
            )) is None),
    decreases peers.len() - i,
{
    if i < peers.len() {
        lemma_first_opener_from(cipher, peers, datagram, i + 1);
        if spec_decrypt(cipher, peer_master(cipher, peers[i as int].1), datagram) is None {
            if let Some((id, p)) = first_opener(cipher, peers, datagram, i + 1) {
                let k = choose|k: int|
                    i + 1 <= k < peers.len() && peers[k].0 == id && spec_decrypt(
                        cipher,
                        peer_master(cipher, peers[k].1),
                        datagram,
                    ) == Some(p) && forall|j: int|
                        i + 1 <= j < k ==> (#[trigger] spec_decrypt(
                            cipher,
                            peer_master(cipher, peers[j].1),
                            datagram,
                        )) is None;
                assert forall|j: int| i <= j < k implies (#[trigger] spec_decrypt(
                    cipher,
                    peer_master(cipher, peers[j].1),
                    datagram,
                )) is None by {
                    if j == i {
                    } else {
                        assert(i + 1 <= j < k);
                    }
                }
            }
        }
    }
}

/// Trial decryption credits a datagram to the first peer, in list order,
/// whose master key opens it, with the plaintext that key opens it to; no
/// peer is credited exactly when no peer's key opens it.
pub proof fn lemma_first_opener_opens(cipher: Cipher, peers: Seq<(PeerId, PeerConfig)>, datagram: Seq<u8>)
    ensures
        first_opener(cipher, peers, datagram, 0) matches Some((id, p)) ==> exists|k: int|
            0 <= k < peers.len() && peers[k].0 == id && spec_decrypt(
                cipher,
                peer_master(cipher, peers[k].1),
                datagram,
            ) == Some(p) && forall|j: int|
                0 <= j < k ==> (#[trigger] spec_decrypt(
                    cipher,
                    peer_master(cipher, peers[j].1),
                    datagram,
                )) is None,
        (first_opener(cipher, peers, datagram, 0) is None) == (forall|j: int|
            0 <= j < peers.len() ==> (#[trigger] spec_decrypt(
                cipher,
                peer_master(cipher, peers[j].1),
                datagram,
            )) is None),
{
    lemma_first_opener_from(cipher, peers, datagram, 0);
}

/// A received wire packet delivered as `(id, p)` opens to `p` under the
/// master key of the peer stored under `id`, and `p` is long enough to be a
/// packet: the sender is the peer whose key opens it.
pub proof fn lemma_delivered_under_sender_key(
    cipher: Cipher,
    obfs: Obfuscator,
    peers: Seq<(PeerId, PeerConfig)>,
    wire: Seq<u8>,
)
    requires
        peers_distinct(peers),
    ensures
        delivery(cipher, obfs, peers, wire) matches Some((id, p)) ==> (spec_peer_config(peers, id)
            matches Some(c) && wire_opens(cipher, obfs, peer_master(cipher, c), wire) == Some(p)
            && p.len() >= MIN_DELIVER_LEN),
{
    if let Some(datagram) = obfs.spec_unwrap(wire) {
        lemma_first_opener_opens(cipher, peers, datagram);
        if let Some((id, p)) = first_opener(cipher, peers, datagram, 0) {
            let k = choose|k: int|
                0 <= k < peers.len() && peers[k].0 == id && spec_decrypt(
                    cipher,
                    peer_master(cipher, peers[k].1),
                    datagram,
                ) == Some(p) && forall|j: int|
                    0 <= j < k ==> (#[trigger] spec_decrypt(
                        cipher,
                        peer_master(cipher, peers[j].1),
                        datagram,
                    )) is None;
            assert(has_id(peers, id));
            let i = id_index(peers, id);
            if i != k {
                assert(peers[i].0 != peers[k].0);
            }
        }
    }
}

/// Every packet a batch of received wire packets delivers to `id` is what
/// one of those wire packets opens to under the master key of the peer
/// stored under `id`.
pub proof fn lemma_deliveries_under_sender_key(
    cipher: Cipher,
    obfs: Obfuscator,
    peers: Seq<(PeerId, PeerConfig)>,
    wires: Seq<Seq<u8>>,
)
    requires
        peers_distinct(peers),
    ensures
        forall|id: PeerId| #[trigger]
            deliveries(cipher, obfs, peers, wires).contains_key(id) ==> spec_peer_config(peers, id)
                is Some && forall|k: int|
                0 <= k < deliveries(cipher, obfs, peers, wires)[id].len() ==> exists|w: int|
                    0 <= w < wires.len() && wire_opens(
                        cipher,
                        obfs,
                        peer_master(cipher, spec_peer_config(peers, id)->0),
                        #[trigger] wires[w],
                    ) == Some(#[trigger] deliveries(cipher, obfs, peers, wires)[id][k]),
    decreases wires.len(),
{
    if wires.len() > 0 {
        let rest = wires.drop_last();
        lemma_deliveries_under_sender_key(cipher, obfs, peers, rest);
        lemma_delivered_under_sender_key(cipher, obfs, peers, wires.last());
        let m = deliveries(cipher, obfs, peers, rest);
        let all = deliveries(cipher, obfs, peers, wires);
        assert forall|id: PeerId| #[trigger] all.contains_key(id) implies spec_peer_config(peers, id)
            is Some && forall|k: int|
            0 <= k < all[id].len() ==> exists|w: int|
                0 <= w < wires.len() && wire_opens(
                    cipher,
                    obfs,
                    peer_master(cipher, spec_peer_config(peers, id)->0),
                    #[trigger] wires[w],
                ) == Some(#[trigger] all[id][k]) by {
            assert forall|k: int| 0 <= k < all[id].len() implies exists|w: int|
                0 <= w < wires.len() && wire_opens(
                    cipher,
                    obfs,
                    peer_master(cipher, spec_peer_config(peers, id)->0),
                    #[trigger] wires[w],
                ) == Some(#[trigger] all[id][k]) by {
                let last = wires.len() - 1;
                match delivery(cipher, obfs, peers, wires.last()) {
                    Some((did, p)) => {
                        if did == id && k == all[id].len() - 1 {
                            assert(wires[last] == wires.last());
                        } else {
                            assert(m.contains_key(id));
                            assert(all[id][k] == m[id][k]);
                            let w = choose|w: int|
                                0 <= w < rest.len() && wire_opens(
                                    cipher,
                                    obfs,
                                    peer_master(cipher, spec_peer_config(peers, id)->0),
                                    #[trigger] rest[w],
                                ) == Some(m[id][k]);
                            assert(wires[w] == rest[w]);
                        }
                    },
                    None => {
                        let w = choose|w: int|
                            0 <= w < rest.len() && wire_opens(
                                cipher,
                                obfs,
                                peer_master(cipher, spec_peer_config(peers, id)->0),
                                #[trigger] rest[w],
                            ) == Some(m[id][k]);
                        assert(wires[w] == rest[w]);
                    },
                }
            }
        }
    }
}

/// The packets sent are exactly those whose length the cipher accepts, in
/// their order: no other condition drops a packet.
pub proof fn lemma_accepted_is_filter(cipher: Cipher, packets: Seq<Seq<u8>>)
    ensures
        accepted(cipher, packets) == packets.filter(|p: Seq<u8>| accepts_plaintext(cipher, p.len())),
    decreases packets.len(),
{
    reveal(Seq::filter);
    if packets.len() > 0 {
        lemma_accepted_is_filter(cipher, packets.drop_last());
    }
}

/// Every packet of at most 2^36 bytes (64 GiB) is sent, whatever the cipher:
/// short packets such as keepalives included.
pub proof fn lemma_small_packets_all_sent(cipher: Cipher, packets: Seq<Seq<u8>>)
    requires
        forall|i: int| 0 <= i < packets.len() ==> #[trigger] packets[i].len() <= 0x10_0000_0000,
    ensures
        accepted(cipher, packets) == packets,
    decreases packets.len(),
{
    if packets.len() > 0 {
        let rest = packets.drop_last();
        assert forall|i: int| 0 <= i < rest.len() implies #[trigger] rest[i].len() <= 0x10_0000_0000 by {
            assert(rest[i] == packets[i]);
        }
        lemma_small_packets_all_sent(cipher, rest);
        assert(packets.last().len() <= 0x10_0000_0000);
        assert(packets.last().len() / 64 < 0xFFFF_FFFF);
        assert(rest.push(packets.last()) =~= packets);
    }
}

/// Sending one batch of packets of at most 2^36 bytes each to a known peer
/// gives that peer, and no other, exactly one wire packet per plaintext
/// packet, in order, each opening to its plaintext under the peer's master
/// key.
pub proof fn lemma_one_wire_packet_per_packet(
    cipher: Cipher,
    obfs: Obfuscator,
    peers: Seq<(PeerId, PeerConfig)>,
    id: PeerId,
    packets: Seq<Seq<u8>>,
    wires: Map<PeerId, Seq<Seq<u8>>>,
)
    requires
        has_id(peers, id),
        forall|i: int| 0 <= i < packets.len() ==> #[trigger] packets[i].len() <= 0x10_0000_0000,
        seals_all(cipher, obfs, peers, outgoing(cipher, peers, seq![(id, packets)]), wires),
    ensures
        wires.dom() == set![id],
        wires[id].len() == packets.len(),
        forall|k: int|
            0 <= k < packets.len() ==> wire_opens(
                cipher,
                obfs,
                peer_master(cipher, spec_peer_config(peers, id)->0),
                #[trigger] wires[id][k],
            ) == Some(packets[k]),
{
    let entries = seq![(id, packets)];
    lemma_small_packets_all_sent(cipher, packets);
    assert(entries.drop_last() =~= Seq::<(PeerId, Seq<Seq<u8>>)>::empty());
    assert(entries.last() == (id, packets));
    let plain = outgoing(cipher, peers, entries);
    let empty = Map::<PeerId, Seq<Seq<u8>>>::empty();
    assert(outgoing(cipher, peers, entries.drop_last()) == empty);
    assert(plain == empty.insert(id, queue_of(empty, id) + accepted(cipher, packets)));
    assert(queue_of(empty, id) + packets =~= packets);
    assert(plain =~= empty.insert(id, packets));
    assert(wires.dom() =~= set![id]);
    assert(wires.contains_key(id));
    assert forall|k: int| 0 <= k < packets.len() implies wire_opens(
        cipher,
        obfs,
        peer_master(cipher, spec_peer_config(peers, id)->0),
        #[trigger] wires[id][k],
    ) == Some(packets[k]) by {
        assert(plain[id][k] == packets[k]);
    }
}

/// The plaintexts of `packets` that are long enough to be delivered, in order.
pub open spec fn deliverable(packets: Seq<Seq<u8>>) -> Seq<Seq<u8>>
    decreases packets.len(),
{
    if packets.len() == 0 {
        Seq::empty()
    } else {
        let prev = deliverable(packets.drop_last());
        if packets.last().len() >= MIN_DELIVER_LEN {
            prev.push(packets.last())
        } else {
            prev
        }
    }
}

/// What one end seals for its single peer, the other end, whose single peer
/// holds the same master key and which frames datagrams the same way,
/// delivers: every plaintext long enough to be a packet, in order, attributed
/// to that peer; keepalives and runts are dropped.
pub proof fn lemma_sealed_are_delivered(
    cipher: Cipher,
    sender_obfs: Obfuscator,
    receiver_obfs: Obfuscator,
    receiver_peer: (PeerId, PeerConfig),
    plaintexts: Seq<Seq<u8>>,
    wires: Seq<Seq<u8>>,
)
    requires
        same_framing(sender_obfs, receiver_obfs),
        wires.len() == plaintexts.len(),
        forall|k: int|
            0 <= k < wires.len() ==> is_sealing(
                cipher,
                sender_obfs,
                peer_master(cipher, receiver_peer.1),
                #[trigger] plaintexts[k],
                wires[k],
            ),
    ensures
        deliverable(plaintexts).len() == 0 ==> deliveries(
            cipher,
            receiver_obfs,
            seq![receiver_peer],
            wires,
        ) == Map::<PeerId, Seq<Seq<u8>>>::empty(),
        deliverable(plaintexts).len() > 0 ==> deliveries(
            cipher,
            receiver_obfs,
            seq![receiver_peer],
            wires,
        ) == Map::<PeerId, Seq<Seq<u8>>>::empty().insert(receiver_peer.0, deliverable(plaintexts)),
    decreases wires.len(),
{
    if wires.len() > 0 {
        let n = wires.len() - 1;
        let peers = seq![receiver_peer];
        lemma_sealed_are_delivered(
            cipher,
            sender_obfs,
            receiver_obfs,
            receiver_peer,
            plaintexts.drop_last(),
            wires.drop_last(),
        );
        assert(is_sealing(cipher, sender_obfs, peer_master(cipher, receiver_peer.1), plaintexts[n], wires[n]));
        let w = wires.last();
        assert(receiver_obfs.spec_unwrap(w) == sender_obfs.spec_unwrap(w));
        let d = sender_obfs.spec_unwrap(w)->0;
        assert(first_opener(cipher, peers, d, 0) == Some((receiver_peer.0, plaintexts[n])));
        let prev = deliveries(cipher, receiver_obfs, peers, wires.drop_last());
        if plaintexts[n].len() >= MIN_DELIVER_LEN {
            assert(delivery(cipher, receiver_obfs, peers, w) == Some((receiver_peer.0, plaintexts[n])));
            let dl = deliverable(plaintexts.drop_last());
            assert(plaintexts.last() == plaintexts[n]);
            assert(deliverable(plaintexts) == dl.push(plaintexts[n]));
            assert(queue_of(prev, receiver_peer.0) =~= dl);
            assert(deliveries(cipher, receiver_obfs, peers, wires) =~= Map::<PeerId, Seq<Seq<u8>>>::empty().insert(
                receiver_peer.0,
                deliverable(plaintexts),
            ));
        } else {
            assert(delivery(cipher, receiver_obfs, peers, w) is None);
        }
    }
}

} // verus!
