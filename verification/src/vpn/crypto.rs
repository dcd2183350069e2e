//! Per-datagram seal/open for the VPN, wrapping the tunnel's shadowsocks AEAD
//! primitives plus carrier obfuscation.
//!
//! Server and client share one pre-shared password, from which the same master
//! key is derived on both ends. Each datagram is independent
//! (`obfs(salt ++ AEAD(plaintext))`), so this type holds no per-peer state.

use vstd::prelude::*;
use vstd::string::StringSliceAdditionalSpecFns;

use crate::crypto::{
    accepts_plaintext, cipher_named, decrypt_packet, encrypt_packet, evp_bytes_to_key,
    spec_datagram, spec_decrypt, spec_evp_bytes_to_key, Cipher, CryptoError,
};
use crate::obfs::{same_framing, Obfuscator};

verus! {

/// Errors constructing a [`Crypto`].
#[derive(Debug)]
pub enum CryptoSetupError {
    /// The cipher name was not one of the supported ciphers.
    Cipher(CryptoError),
}

/// Stateless per-datagram sealer/opener for one pre-shared password.
pub struct Crypto {
    cipher: Cipher,
    master_key: Vec<u8>,
    obfs: Obfuscator,
}

impl Crypto {
    /// The AEAD cipher.
    pub closed spec fn spec_cipher(&self) -> Cipher {
        self.cipher
    }

    /// The master key.
    pub closed spec fn spec_master_key(&self) -> Seq<u8> {
        self.master_key@
    }

    /// The carrier obfuscation.
    pub closed spec fn spec_obfs(&self) -> Obfuscator {
        self.obfs
    }

    /// What a wire datagram opens to: `None` when it does not unwrap under the
    /// obfuscation or does not decrypt under the master key.
    pub open spec fn spec_open(&self, wire: Seq<u8>) -> Option<Seq<u8>> {
        match self.spec_obfs().spec_unwrap(wire) {
            Some(d) => spec_decrypt(self.spec_cipher(), self.spec_master_key(), d),
            None => None,
        }
    }

    /// Build a [`Crypto`] from a password, cipher name, and obfuscation name.
    ///
    /// The master key is derived from the password with shadowsocks'
    /// `EVP_BytesToKey` to the cipher's key length. `obfs` is one of `none`,
    /// `quic`, or `base64`; both ends must agree.
    pub fn new(password: &str, cipher: &str, obfs: &str) -> (r: Result<Crypto, CryptoSetupError>)
        ensures
            match cipher_named(cipher@) {
                Some(c) => r matches Ok(x) && x.spec_cipher() == c && x.spec_master_key()
                    == spec_evp_bytes_to_key(password.spec_bytes(), c.spec_key_len()) && (
                x.spec_obfs() is Quic) == (obfs@ == "quic"@) && (x.spec_obfs() is Base64) == (
                obfs@ == "base64"@),
                None => r matches Err(CryptoSetupError::Cipher(CryptoError::UnknownCipher(s)))
                    && s@ == cipher@,
            },
    {
        let cipher = match Cipher::from_name(cipher) {
            Ok(c) => c,
            Err(e) => {
                return Err(CryptoSetupError::Cipher(e));
            },
        };
        let master_key = evp_bytes_to_key(password.as_bytes(), cipher.key_len());
        Ok(Crypto { cipher, master_key, obfs: Obfuscator::from_name(obfs) })
    }

    /// The AEAD cipher in use.
    pub fn cipher(&self) -> (r: Cipher)
        ensures
            r == self.spec_cipher(),
    {
        self.cipher
    }

    /// Encrypt one plaintext packet into a wire datagram
    /// (`obfs(salt ++ AEAD(plaintext))`). Opening the result gives the
    /// plaintext back.
    pub fn seal(&self, plaintext: &[u8]) -> (r: Result<Vec<u8>, CryptoError>)
        ensures
            accepts_plaintext(self.spec_cipher(), plaintext@.len()) ==> (r matches Ok(wire)
                && self.spec_open(wire@) == Some(plaintext@) && exists|salt: Seq<u8>|
                salt.len() == self.spec_cipher().spec_key_len() && self.spec_obfs().is_framing(
                #[trigger] spec_datagram(
                    self.spec_cipher(),
                    self.spec_master_key(),
                    salt,
                    plaintext@,
                ),
                wire@,
            )),
            !accepts_plaintext(self.spec_cipher(), plaintext@.len()) ==> (r matches Err(
                CryptoError::Aead,
            )),
    {
        let datagram = encrypt_packet(self.cipher, self.master_key.as_slice(), plaintext)?;
        let wire = self.obfs.wrap(datagram.as_slice());
        Ok(wire)
    }

    /// Decrypt a received wire datagram back to its plaintext, or `None` if it
    /// fails to de-obfuscate or authenticate (the caller drops it).
    pub fn open(&self, wire: &[u8]) -> (r: Option<Vec<u8>>)
        ensures
            match self.spec_open(wire@) {
                Some(p) => r matches Some(v) && v@ == p,
                None => r is None,
            },
    {
        let datagram = self.obfs.unwrap(wire)?;
        match decrypt_packet(self.cipher, self.master_key.as_slice(), datagram.as_slice()) {
            Ok(p) => Some(p),
            Err(_) => None,
        }
    }
}

/// Two ends configured alike (same cipher, same master key, same kind of
/// framing) open every wire datagram alike: what one seals, the other opens.
pub proof fn lemma_alike_ends_agree(a: &Crypto, b: &Crypto, wire: Seq<u8>)
    requires
        a.spec_cipher() == b.spec_cipher(),
        a.spec_master_key() == b.spec_master_key(),
        same_framing(a.spec_obfs(), b.spec_obfs()),
    ensures
        a.spec_open(wire) == b.spec_open(wire),
{
}

} // verus!
