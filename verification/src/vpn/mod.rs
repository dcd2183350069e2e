//! A ShadowVPN server and client built on the tunnel's datagram crypto.
//!
//! All peers share one pre-shared password, from which the same master key is
//! derived on every end. The server demultiplexes its clients by their inner
//! tunnel IPv4 address; each client tunnels to a single server and sends
//! periodic keepalives. This module holds the decisions those daemons make;
//! the sockets, the TUN device and the event loops live with the binaries.


pub mod config;
pub mod crypto;
pub mod route;


use vstd::prelude::*;

verus! {

/// Largest plaintext IP packet read from a TUN device in one go.
pub const MAX_IP_PACKET: usize = 65535;

/// Receive-buffer size for the encrypted (UDP) side: the largest plaintext plus
/// headroom for the salt, AEAD tag, and obfuscation header.
pub const MAX_DATAGRAM: usize = MAX_IP_PACKET + 256;

/// Minimum decrypted length treated as a real IP packet. Shorter payloads
/// (e.g. the 1-byte keepalive) authenticate but are never written to the TUN.
pub const MIN_IP_PACKET: usize = 20;

/// The single-byte keepalive plaintext a client periodically sends so stateful
/// NAT/firewall mappings to the server stay open.
pub fn keepalive_payload() -> (r: [u8; 1])
    ensures
        r@ == seq![0u8],
{
    let r = [0u8];
    assert(r@ =~= seq![0u8]);
    r
}

/// The keepalive period in seconds for a configured `keepalive_secs`: none
/// when it is zero (keepalives are off), else that many seconds.
pub fn keepalive_interval(keepalive_secs: u64) -> (r: Option<u64>)
    ensures
        r == (if keepalive_secs == 0 {
            None
        } else {
            Some(keepalive_secs)
        }),
{
    if keepalive_secs == 0 {
        None
    } else {
        Some(keepalive_secs)
    }
}

/// The address a host name resolves to: the first IPv4 address among the
/// resolved candidates (each flagged whether it is IPv4), else the last one.
pub open spec fn spec_preferred_address<A>(candidates: Seq<(A, bool)>) -> Option<A>
    decreases candidates.len(),
{
    if candidates.len() == 0 {
        None
    } else if candidates[0].1 || candidates.len() == 1 {
        Some(candidates[0].0)
    } else {
        spec_preferred_address(candidates.drop_first())
    }
}

/// Pick the address to use among a host name's resolved addresses, each
/// flagged whether it is IPv4: the first IPv4 one, else the last one.
pub fn preferred_address<A: Copy>(candidates: &Vec<(A, bool)>) -> (r: Option<A>)
    ensures
        r == spec_preferred_address(candidates@),
{
    let n = candidates.len();
    let mut i: usize = 0;
    assert(candidates@.subrange(0, n as int) =~= candidates@);
    while i < n
        invariant
            n == candidates@.len(),
            i <= n,
            i < n ==> spec_preferred_address(candidates@) == spec_preferred_address(
                candidates@.subrange(i as int, n as int),
            ),
            i == n ==> n == 0,
        decreases n - i,
    {
        let ghost rest = candidates@.subrange(i as int, n as int);
        assert(rest[0] == candidates@[i as int]);
        if candidates[i].1 || i + 1 == n {
            return Some(candidates[i].0);
        }
        assert(rest.drop_first() =~= candidates@.subrange(i + 1, n as int));
        i = i + 1;
    }
    proof {
        assert(candidates@.len() == 0);
    }
    None
}

} // verus!
