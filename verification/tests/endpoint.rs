use ts_tunnel::{
    Cipher, Endpoint, NodeKeyPair, NodePublicKey, Obfuscator, PeerConfig, PeerId, PeerQueues, Psk,
};

fn peer_cfg(key: NodePublicKey, psk: Psk) -> PeerConfig {
    PeerConfig { key, psk }
}

const ALL: [Cipher; 3] = [Cipher::Aes128Gcm, Cipher::Aes256Gcm, Cipher::ChaCha20Poly1305];

/// Two endpoints sharing a PSK round-trip packets in both directions, for
/// every cipher, with QUIC obfuscation on the wire.
#[test]
fn two_endpoints_round_trip() {
    for cipher in ALL {
        let (a_static, b_static) = (NodeKeyPair::new(), NodeKeyPair::new());
        let psk: Psk = rand::random();

        let mut a_ep = Endpoint::with_config(a_static.clone(), cipher, Obfuscator::from_name("quic"));
        let mut b_ep = Endpoint::with_config(b_static.clone(), cipher, Obfuscator::from_name("quic"));

        let a_peer = PeerId(1);
        let b_peer = PeerId(1);

        assert!(a_ep.upsert_peer(a_peer, peer_cfg(b_static.public, psk)).is_none());
        assert!(b_ep.upsert_peer(b_peer, peer_cfg(a_static.public, psk)).is_none());

        // A sends two packets to B. Both are encrypted immediately (no handshake).
        let payloads = [vec![0x45u8; 40], vec![0x46u8; 60]];
        let a_acts = a_ep.send(vec![(a_peer, payloads.to_vec())]);
        let wire = a_acts.to_peers.get(&a_peer).expect("packets for peer");
        assert_eq!(wire.len(), 2, "one datagram per packet ({})", cipher.name());

        // B receives and decrypts them, attributing to the right peer.
        let b_acts = b_ep.recv(wire.clone());
        assert!(b_acts.to_peers.is_empty(), "no handshake response");
        let got = b_acts.to_local.get(&b_peer).expect("delivered packets");
        assert_eq!(got, &payloads, "B recovered A's packets ({})", cipher.name());

        // B replies; A decrypts.
        let reply = vec![0x47u8; 50];
        let b_acts = b_ep.send(vec![(b_peer, vec![reply.clone()])]);
        let wire = b_acts.to_peers.get(&b_peer).expect("packets for peer");
        let a_acts = a_ep.recv(wire.clone());
        let got = a_acts.to_local.get(&a_peer).expect("delivered packets");
        assert_eq!(got, &[reply], "A recovered B's reply ({})", cipher.name());
    }
}

/// A datagram encrypted under a different PSK is dropped, not delivered.
#[test]
fn wrong_psk_is_dropped() {
    let (a_static, b_static) = (NodeKeyPair::new(), NodeKeyPair::new());
    let cipher = Cipher::ChaCha20Poly1305;

    let mut a_ep = Endpoint::with_config(a_static.clone(), cipher, Obfuscator::Plain);
    let mut b_ep = Endpoint::with_config(b_static.clone(), cipher, Obfuscator::Plain);

    a_ep.upsert_peer(PeerId(1), peer_cfg(b_static.public, [1u8; 32]));
    b_ep.upsert_peer(PeerId(1), peer_cfg(a_static.public, [2u8; 32]));

    let wire = a_ep.send(vec![(PeerId(1), vec![vec![0x45u8; 40]])]);
    let datagrams = wire.to_peers.get(&PeerId(1)).unwrap();
    let b_acts = b_ep.recv(datagrams.clone());
    assert!(b_acts.to_local.is_empty(), "mismatched PSK must drop");
}

/// Keepalive-sized plaintext (< 20 bytes) authenticates but is not delivered.
#[test]
fn keepalive_is_not_delivered() {
    let (a_static, b_static) = (NodeKeyPair::new(), NodeKeyPair::new());
    let cipher = Cipher::ChaCha20Poly1305;
    let psk: Psk = rand::random();

    let mut a_ep = Endpoint::with_config(a_static.clone(), cipher, Obfuscator::Plain);
    let mut b_ep = Endpoint::with_config(b_static.clone(), cipher, Obfuscator::Plain);
    a_ep.upsert_peer(PeerId(1), peer_cfg(b_static.public, psk));
    b_ep.upsert_peer(PeerId(1), peer_cfg(a_static.public, psk));

    let wire = a_ep.send(vec![(PeerId(1), vec![vec![0x00]])]);
    let datagrams = wire.to_peers.get(&PeerId(1)).unwrap();
    let b_acts = b_ep.recv(datagrams.clone());
    assert!(b_acts.to_local.is_empty(), "keepalive must not be delivered");
}

/// Peer management: upsert returns the old config, key reverse-lookup works,
/// and removal forgets the peer.
#[test]
fn peer_management() {
    let me = NodeKeyPair::new();
    let mut ep = Endpoint::new(me);
    let peer_key = NodeKeyPair::new().public;

    assert!(ep.upsert_peer(PeerId(7), peer_cfg(peer_key, [9u8; 32])).is_none());
    assert_eq!(ep.peer_id(peer_key), Some(PeerId(7)));
    assert_eq!(ep.peer_key(PeerId(7)), Some(peer_key));

    let old = ep.upsert_peer(PeerId(7), peer_cfg(peer_key, [10u8; 32]));
    assert_eq!(old.map(|c| c.psk), Some([9u8; 32]));

    assert!(ep.remove_peer(PeerId(7)));
    assert!(!ep.remove_peer(PeerId(7)));
    assert_eq!(ep.peer_id(peer_key), None);
}

#[test]
fn default_endpoint_uses_chacha_and_quic() {
    let me = NodeKeyPair::new();
    let ep = Endpoint::new(me);
    assert_eq!(ep.cipher(), Cipher::ChaCha20Poly1305);
    assert_eq!(ep.node_keys().public, me.public);
    assert!(ep.next_event().is_none());
}

#[test]
fn unknown_peer_is_skipped_on_send() {
    let mut ep = Endpoint::with_config(NodeKeyPair::new(), Cipher::Aes128Gcm, Obfuscator::Plain);
    ep.upsert_peer(PeerId(1), peer_cfg(NodeKeyPair::new().public, [3u8; 32]));
    let out = ep.send(vec![(PeerId(2), vec![vec![1u8; 30]]), (PeerId(1), vec![])]);
    assert!(out.to_peers.get(&PeerId(2)).is_none());
    // A known peer gets a (possibly empty) queue.
    assert_eq!(out.to_peers.get(&PeerId(1)).unwrap().len(), 0);
}

#[test]
fn entries_for_one_peer_are_merged_in_order() {
    let (a, b) = (NodeKeyPair::new(), NodeKeyPair::new());
    let psk = [5u8; 32];
    let mut a_ep = Endpoint::with_config(a, Cipher::Aes256Gcm, Obfuscator::Base64);
    let mut b_ep = Endpoint::with_config(b, Cipher::Aes256Gcm, Obfuscator::Base64);
    a_ep.upsert_peer(PeerId(3), peer_cfg(b.public, psk));
    b_ep.upsert_peer(PeerId(9), peer_cfg(a.public, psk));
    let p1 = vec![1u8; 20];
    let p2 = vec![2u8; 21];
    let p3 = vec![3u8; 22];
    let out = a_ep.send(vec![(PeerId(3), vec![p1.clone()]), (PeerId(3), vec![p2.clone(), p3.clone()])]);
    let wire = out.to_peers.get(&PeerId(3)).unwrap();
    assert_eq!(wire.len(), 3);
    let got = b_ep.recv(wire.clone());
    assert_eq!(got.to_local.get(&PeerId(9)).unwrap(), &vec![p1, p2, p3]);
}

#[test]
fn recv_attributes_to_the_peer_whose_key_opens() {
    let me = NodeKeyPair::new();
    let (x, y) = (NodeKeyPair::new(), NodeKeyPair::new());
    let mut ep = Endpoint::with_config(me, Cipher::ChaCha20Poly1305, Obfuscator::Plain);
    ep.upsert_peer(PeerId(1), peer_cfg(x.public, [1u8; 32]));
    ep.upsert_peer(PeerId(2), peer_cfg(y.public, [2u8; 32]));
    let mut sender = Endpoint::with_config(y, Cipher::ChaCha20Poly1305, Obfuscator::Plain);
    sender.upsert_peer(PeerId(5), peer_cfg(me.public, [2u8; 32]));
    let out = sender.send(vec![(PeerId(5), vec![vec![0x45u8; 28]])]);
    let got = ep.recv(out.to_peers.get(&PeerId(5)).unwrap().clone());
    assert!(got.to_local.get(&PeerId(1)).is_none());
    assert_eq!(got.to_local.get(&PeerId(2)).unwrap(), &vec![vec![0x45u8; 28]]);
}

#[test]
fn obfs_mismatch_is_dropped() {
    let (a, b) = (NodeKeyPair::new(), NodeKeyPair::new());
    let psk = [4u8; 32];
    let mut a_ep = Endpoint::with_config(a, Cipher::ChaCha20Poly1305, Obfuscator::from_name("quic"));
    let mut b_ep = Endpoint::with_config(b, Cipher::ChaCha20Poly1305, Obfuscator::Base64);
    a_ep.upsert_peer(PeerId(1), peer_cfg(b.public, psk));
    b_ep.upsert_peer(PeerId(1), peer_cfg(a.public, psk));
    let out = a_ep.send(vec![(PeerId(1), vec![vec![0x45u8; 40]])]);
    let got = b_ep.recv(out.to_peers.get(&PeerId(1)).unwrap().clone());
    assert!(got.to_local.is_empty());
}

#[test]
fn changing_a_peers_key_updates_reverse_lookup() {
    let mut ep = Endpoint::new(NodeKeyPair::new());
    let (k1, k2) = (NodeKeyPair::new().public, NodeKeyPair::new().public);
    ep.upsert_peer(PeerId(1), peer_cfg(k1, [0u8; 32]));
    ep.upsert_peer(PeerId(1), peer_cfg(k2, [0u8; 32]));
    assert_eq!(ep.peer_id(k1), None);
    assert_eq!(ep.peer_id(k2), Some(PeerId(1)));
    assert_eq!(ep.peer_key(PeerId(1)), Some(k2));
}

#[test]
fn dispatch_events_is_empty() {
    let mut ep = Endpoint::new(NodeKeyPair::new());
    let r = ep.dispatch_events(std::time::Instant::now());
    assert!(r.to_peers.is_empty());
}

/// RFC 7748, section 6.1: Alice's key pair.
#[test]
fn key_pair_from_private_matches_rfc7748() {
    let hex = |s: &str| -> [u8; 32] {
        let mut out = [0u8; 32];
        for i in 0..32 {
            out[i] = u8::from_str_radix(&s[2 * i..2 * i + 2], 16).unwrap();
        }
        out
    };
    let private = hex("77076d0a7318a57d3c16c17251b26645df4c2f87ebc0992ab177fba51db92c2a");
    let public = hex("8520f0098930a754748b7ddcb43ef75a0dbf3a0d26381af4eba4a98eaa9b4e6a");
    let pair = NodeKeyPair::from_private(ts_tunnel::NodePrivateKey(private));
    assert_eq!(pair.public, NodePublicKey(public));
}

/// Inserting, updating and removing one peer leaves the others as they were,
/// and each remaining key still leads back to its handle.
#[test]
fn other_peers_are_untouched() {
    let mut ep = Endpoint::new(NodeKeyPair::new());
    let (k1, k2, k3) = (
        NodeKeyPair::new().public,
        NodeKeyPair::new().public,
        NodeKeyPair::new().public,
    );
    ep.upsert_peer(PeerId(1), peer_cfg(k1, [1u8; 32]));
    ep.upsert_peer(PeerId(2), peer_cfg(k2, [2u8; 32]));
    ep.upsert_peer(PeerId(2), peer_cfg(k3, [3u8; 32]));
    assert_eq!(ep.peer_key(PeerId(1)), Some(k1));
    assert_eq!(ep.peer_id(k1), Some(PeerId(1)));
    assert!(ep.remove_peer(PeerId(2)));
    assert_eq!(ep.peer_key(PeerId(1)), Some(k1));
    assert_eq!(ep.peer_id(k1), Some(PeerId(1)));
    assert_eq!(ep.peer_id(k3), None);
}

/// Groupings of packets compare by their queues, not by the order in which
/// the peers were first added.
#[test]
fn peer_queues_compare_as_maps() {
    let mut a = PeerQueues::new();
    a.push(PeerId(1), vec![1]);
    a.push(PeerId(2), vec![2]);
    a.push(PeerId(1), vec![3]);
    let mut b = PeerQueues::new();
    b.push(PeerId(2), vec![2]);
    b.push(PeerId(1), vec![1]);
    b.push(PeerId(1), vec![3]);
    assert_eq!(a, b);
    assert_eq!(a.get(&PeerId(1)).unwrap(), &vec![vec![1u8], vec![3u8]]);
    let mut c = PeerQueues::new();
    c.push(PeerId(1), vec![3]);
    c.push(PeerId(1), vec![1]);
    c.push(PeerId(2), vec![2]);
    assert_ne!(a, c);
    c.touch(PeerId(4));
    assert!(c.get(&PeerId(4)).unwrap().is_empty());
    assert!(!c.is_empty());
}
