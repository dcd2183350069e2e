//! The server's demultiplexing of clients by inner tunnel IPv4 address, and
//! the per-packet decisions of the server and client loops.
//!
//! All clients share one pre-shared password, so the server cannot tell them
//! apart cryptographically. Instead it learns each client's inner source IPv4
//! address → UDP endpoint from inbound traffic, and routes replies by inner
//! destination address. Each client must therefore use a distinct tunnel IP.

use std::collections::HashMap;
use vstd::prelude::*;

use crate::crypto::{accepts_plaintext, spec_datagram, CryptoError};
use crate::vpn::crypto::Crypto;
use crate::vpn::MIN_IP_PACKET;

verus! {

/// The inner source address of an IPv4 packet: bytes 12..16 of a packet that
/// holds at least a 20-byte header and whose version nibble is 4.
pub open spec fn spec_ipv4_source(packet: Seq<u8>) -> Option<Seq<u8>> {
    if packet.len() >= 20 && packet[0] >> 4 == 4 {
        Some(packet.subrange(12, 16))
    } else {
        None
    }
}

/// The inner destination address of an IPv4 packet: bytes 16..20.
pub open spec fn spec_ipv4_destination(packet: Seq<u8>) -> Option<Seq<u8>> {
    if packet.len() >= 20 && packet[0] >> 4 == 4 {
        Some(packet.subrange(16, 20))
    } else {
        None
    }
}

/// Four bytes of `packet` from `at`.
fn four_bytes(packet: &[u8], at: usize) -> (r: [u8; 4])
    requires
        at + 4 <= packet@.len(),
    ensures
        r@ == packet@.subrange(at as int, at + 4),
{
    let r = [packet[at], packet[at + 1], packet[at + 2], packet[at + 3]];
    assert(r@ =~= packet@.subrange(at as int, at + 4));
    r
}

/// The inner source address of an IPv4 packet, if it is one.
pub fn ipv4_source(packet: &[u8]) -> (r: Option<[u8; 4]>)
    ensures
        match spec_ipv4_source(packet@) {
            Some(a) => r matches Some(x) && x@ == a,
            None => r is None,
        },
{
    if packet.len() >= 20 && packet[0] >> 4 == 4 {
        Some(four_bytes(packet, 12))
    } else {
        None
    }
}

/// The inner destination address of an IPv4 packet, if it is one.
pub fn ipv4_destination(packet: &[u8]) -> (r: Option<[u8; 4]>)
    ensures
        match spec_ipv4_destination(packet@) {
            Some(a) => r matches Some(x) && x@ == a,
            None => r is None,
        },
{
    if packet.len() >= 20 && packet[0] >> 4 == 4 {
        Some(four_bytes(packet, 16))
    } else {
        None
    }
}

/// Maps each client's inner tunnel address to the UDP endpoint it was last
/// seen from. The table is keyed by the address read as a big-endian number.
pub struct ClientTable<A: Copy> {
    entries: HashMap<u32, A>,
}

/// The big-endian number of a 4-byte IPv4 address.
pub open spec fn address_number(ip: Seq<u8>) -> int {
    ip[0] * 0x100_0000 + ip[1] * 0x1_0000 + ip[2] * 0x100 + ip[3]
}

/// Distinct 4-byte addresses have distinct numbers.
proof fn lemma_address_number_injective(a: Seq<u8>, b: Seq<u8>)
    requires
        a.len() == 4,
        b.len() == 4,
        address_number(a) == address_number(b),
    ensures
        a == b,
{
    assert(a[0] == b[0]);
    assert(a[1] == b[1]);
    assert(a[2] == b[2]);
    assert(a =~= b);
}

/// The table key of `ip`.
fn address_key(ip: &[u8; 4]) -> (r: u32)
    ensures
        r as int == address_number(ip@),
{
    (ip[0] as u32) * 0x100_0000 + (ip[1] as u32) * 0x1_0000 + (ip[2] as u32) * 0x100 + (
    ip[3] as u32)
}

impl<A: Copy> View for ClientTable<A> {
    type V = Map<Seq<u8>, A>;

    closed spec fn view(&self) -> Map<Seq<u8>, A> {
        Map::new(
            |ip: Seq<u8>| ip.len() == 4 && self.entries@.contains_key(address_number(ip) as u32),
            |ip: Seq<u8>| self.entries@[address_number(ip) as u32],
        )
    }
}

impl<A: Copy> ClientTable<A> {
    /// An empty table.
    pub fn new() -> (r: ClientTable<A>)
        ensures
            r@ == Map::<Seq<u8>, A>::empty(),
    {
        let r = ClientTable { entries: HashMap::new() };
        assert(r@ =~= Map::<Seq<u8>, A>::empty());
        r
    }

    /// Record that the client with inner address `ip` was last seen at `addr`.
    pub fn learn(&mut self, ip: [u8; 4], addr: A)
        ensures
            final(self)@ == old(self)@.insert(ip@, addr),
    {
        let key = address_key(&ip);
        let ghost before = self.entries@;
        self.entries.insert(key, addr);
        proof {
            assert forall|q: Seq<u8>| q.len() == 4 && address_number(q) as u32 == key implies q
                == ip@ by {
                lemma_address_number_injective(q, ip@);
            }
            assert(self@ =~= old(self)@.insert(ip@, addr));
        }
    }

    /// The UDP endpoint of the client with inner address `ip`, if it has been
    /// seen.
    pub fn lookup(&self, ip: &[u8; 4]) -> (r: Option<A>)
        ensures
            match r {
                Some(a) => self@.contains_key(ip@) && self@[ip@] == a,
                None => !self@.contains_key(ip@),
            },
    {
        let key = address_key(ip);
        match self.entries.get(&key) {
            Some(a) => Some(*a),
            None => None,
        }
    }
}

/// What the server writes to its TUN device for a datagram received from
/// `from`, and the client address it learns: the datagram must open, be at
/// least an IPv4 header long (keepalives and runts are dropped), and carry an
/// IPv4 source address.
pub open spec fn spec_server_inbound(crypto: &Crypto, wire: Seq<u8>) -> Option<(Seq<u8>, Seq<u8>)> {
    match crypto.spec_open(wire) {
        Some(p) => if p.len() >= MIN_IP_PACKET {
            match spec_ipv4_source(p) {
                Some(src) => Some((p, src)),
                None => None,
            }
        } else {
            None
        },
        None => None,
    }
}

/// Handle a datagram a client sent from `from`: return the packet to write to
/// the TUN device, after learning that the packet's inner source address is
/// reached at `from`; `None` (and nothing learned) when it is dropped.
pub fn server_inbound<A: Copy>(crypto: &Crypto, clients: &mut ClientTable<A>, wire: &[u8], from: A) -> (r:
    Option<Vec<u8>>)
    ensures
        match spec_server_inbound(crypto, wire@) {
            Some((p, src)) => r matches Some(v) && v@ == p && final(clients)@ == old(clients)@.insert(src, from),
            None => r is None && final(clients)@ == old(clients)@,
        },
{
    let plaintext = match crypto.open(wire) {
        Some(p) => p,
        None => {
            return None;
        },
    };
    if plaintext.len() < MIN_IP_PACKET {
        return None;
    }
    match ipv4_source(plaintext.as_slice()) {
        Some(src) => {
            clients.learn(src, from);
            Some(plaintext)
        },
        None => None,
    }
}

/// What the server does with a packet read from its TUN device.
pub enum ServerOutbound<A> {
    /// Send this wire datagram to the client at `to`.
    Send {
        /// The sealed datagram.
        wire: Vec<u8>,
        /// The client's UDP endpoint.
        to: A,
    },
    /// The packet is not IPv4, so it has no client to go to.
    NotIpv4,
    /// No client with the packet's inner destination address has been seen.
    NoClient,
    /// Sealing failed.
    SealFailed(CryptoError),
}

/// Route a packet read from the TUN device by its inner destination address
/// and seal it for that client.
pub fn server_outbound<A: Copy>(crypto: &Crypto, clients: &ClientTable<A>, packet: &[u8]) -> (r:
    ServerOutbound<A>)
    ensures
        match spec_ipv4_destination(packet@) {
            None => r is NotIpv4,
            Some(dst) => if !clients@.contains_key(dst) {
                r is NoClient
            } else if !accepts_plaintext(crypto.spec_cipher(), packet@.len()) {
                r matches ServerOutbound::SealFailed(CryptoError::Aead)
            } else {
                r matches ServerOutbound::Send { wire, to } && to == clients@[dst]
                    && crypto.spec_open(wire@) == Some(packet@) && exists|salt: Seq<u8>|
                    salt.len() == crypto.spec_cipher().spec_key_len()
                    && crypto.spec_obfs().is_framing(
                    #[trigger] spec_datagram(
                        crypto.spec_cipher(),
                        crypto.spec_master_key(),
                        salt,
                        packet@,
                    ),
                    wire@,
                )
            },
        },
{
    let dst = match ipv4_destination(packet) {
        Some(d) => d,
        None => {
            return ServerOutbound::NotIpv4;
        },
    };
    let to = match clients.lookup(&dst) {
        Some(a) => a,
        None => {
            return ServerOutbound::NoClient;
        },
    };
    match crypto.seal(packet) {
        Ok(wire) => ServerOutbound::Send { wire, to },
        Err(e) => ServerOutbound::SealFailed(e),
    }
}

/// What the client writes to its TUN device for a datagram from the server:
/// the plaintext, if it opens and is at least an IPv4 header long.
pub fn client_inbound(crypto: &Crypto, wire: &[u8]) -> (r: Option<Vec<u8>>)
    ensures
        match crypto.spec_open(wire@) {
            Some(p) => if p.len() >= MIN_IP_PACKET {
                r matches Some(v) && v@ == p
            } else {
                r is None
            },
            None => r is None,
        },
{
    match crypto.open(wire) {
        Some(p) => if p.len() >= MIN_IP_PACKET {
            Some(p)
        } else {
            None
        },
        None => None,
    }
}

/// A client's replies reach it at the address it was last seen from: once
/// the server has learned `ip` at `addr`, looking `ip` up gives `addr`.
pub proof fn lemma_learned_is_found<A>(table: Map<Seq<u8>, A>, ip: Seq<u8>, addr: A)
    ensures
        table.insert(ip, addr).contains_key(ip),
        table.insert(ip, addr)[ip] == addr,
{
}

} // verus!
