//! Node identity keys. The data plane is symmetric-key; these keys only name
//! the peers.

use vstd::prelude::*;

use crate::backend::{random_bytes, x25519, x25519_scalar_mult};

verus! {

/// A node's X25519 public key, used as its stable identity.
#[derive(Debug, Clone, Copy, PartialEq, Eq, Hash)]
pub struct NodePublicKey(pub [u8; 32]);

/// A node's X25519 private key.
#[derive(Clone, Copy)]
pub struct NodePrivateKey(pub [u8; 32]);

/// A node's key pair.
#[derive(Clone, Copy)]
pub struct NodeKeyPair {
    /// The private half.
    pub private: NodePrivateKey,
    /// The public half: the X25519 base-point multiple of the private key.
    pub public: NodePublicKey,
}

/// The X25519 base point (u = 9).
pub open spec fn base_point() -> Seq<u8> {
    seq![9u8].add(Seq::new(31, |i: int| 0u8))
}

fn base_point_bytes() -> (r: [u8; 32])
    ensures
        r@ == base_point(),
{
    let mut r = [0u8; 32];
    r[0] = 9;
    assert(r@ =~= base_point());
    r
}

impl NodePublicKey {
    /// Whether two keys are the same bytes.
    pub fn same_as(&self, other: &NodePublicKey) -> (r: bool)
        ensures
            r == (self.0@ == other.0@),
    {
        let mut i: usize = 0;
        while i < 32
            invariant
                i <= 32,
                self.0@.len() == 32,
                other.0@.len() == 32,
                forall|j: int| 0 <= j < i ==> self.0@[j] == other.0@[j],
            decreases 32 - i,
        {
            if self.0[i] != other.0[i] {
                return false;
            }
            i = i + 1;
        }
        assert(self.0@ =~= other.0@);
        true
    }
}

impl NodeKeyPair {
    /// The key pair of a private key: its public half is the X25519 multiple
    /// of the base point.
    pub fn from_private(private: NodePrivateKey) -> (r: NodeKeyPair)
        ensures
            r.private == private,
            r.public.0@ == x25519(private.0@, base_point()),
    {
        let public = x25519_scalar_mult(private.0, base_point_bytes());
        NodeKeyPair { private, public: NodePublicKey(public) }
    }

    /// A fresh key pair with a random private key.
    pub fn new() -> (r: NodeKeyPair)
        ensures
            r.public.0@ == x25519(r.private.0@, base_point()),
    {
        let bytes = random_bytes(32);
        let mut private = [0u8; 32];
        let mut i: usize = 0;
        while i < 32
            invariant
                i <= 32,
                bytes@.len() == 32,
            decreases 32 - i,
        {
            private[i] = bytes[i];
            i = i + 1;
        }
        Self::from_private(NodePrivateKey(private))
    }
}

} // verus!
