//! The cryptographic primitives this library builds on, each behind a small
//! trusted wrapper: MD5 (`md-5`), HKDF-SHA1 (`hkdf`, `sha1`), the three AEAD
//! ciphers (`aes-gcm`, `chacha20poly1305`), X25519 (`x25519-dalek`) and the
//! operating-system random number generator (`rand`).
//!
//! Verus does not read the bodies below; their contracts are what the rest of
//! the library is proved against. Results that take pages to define (a digest,
//! a key derivation, a ciphertext) are given names: functions without a body,
//! about which the wrappers state only what the crates document.

use aead::generic_array::GenericArray;
use aead::{AeadInPlace, KeyInit};
use md5::Digest;
use vstd::prelude::*;

verus! {

/// The error type of `aead`'s in-place sealing and opening.
#[verifier::external_type_specification]
#[verifier::external_body]
pub struct ExAeadError(aead::Error);

/// The error `hkdf` reports when more output is requested than HKDF can give.
#[verifier::external_type_specification]
#[verifier::external_body]
pub struct ExHkdfInvalidLength(hkdf::InvalidLength);

/// The MD5 digest of `data`.
pub uninterp spec fn md5_digest(data: Seq<u8>) -> Seq<u8>;

/// `md5::Md5`: feeds `prefix` and then `data` to a fresh hasher and finalizes.
///
/// Claimed: the result is the digest of the concatenation (what `Digest::update`
/// documents), and it is 16 bytes long.
#[verifier::external_body]
pub(crate) fn md5_of_concat(prefix: &[u8], data: &[u8]) -> (r: Vec<u8>)
    ensures
        r@ == md5_digest(prefix@ + data@),
        r@.len() == 16,
{
    let mut hasher = md5::Md5::new();
    hasher.update(prefix);
    hasher.update(data);
    hasher.finalize().to_vec()
}

/// `len` bytes of HKDF-SHA1 output keying material for input key material
/// `ikm`, extraction salt `salt` and expansion info `info`.
pub uninterp spec fn hkdf_sha1(ikm: Seq<u8>, salt: Seq<u8>, info: Seq<u8>, len: nat) -> Seq<u8>;

/// The most output HKDF-SHA1 can give: 255 blocks of 20 bytes.
pub open spec fn hkdf_sha1_max_len() -> nat {
    255 * 20
}

/// `hkdf::Hkdf::<Sha1>::new(Some(salt), ikm)` followed by `expand(info, okm)`
/// into a buffer of `len` bytes.
///
/// Claimed: the expansion fails exactly when `len` exceeds 255 SHA-1 blocks
/// (the check at the top of `expand_multi_info`); otherwise the result is
/// `len` bytes of the named output.
#[verifier::external_body]
pub(crate) fn hkdf_sha1_expand(ikm: &[u8], salt: &[u8], info: &[u8], len: usize) -> (r: Result<
    Vec<u8>,
    hkdf::InvalidLength,
>)
    ensures
        (r is Ok) == (len <= hkdf_sha1_max_len()),
        r matches Ok(okm) ==> okm@ == hkdf_sha1(ikm@, salt@, info@, len as nat) && okm@.len()
            == len,
{
    let hk = hkdf::Hkdf::<sha1::Sha1>::new(Some(salt), ikm);
    let mut okm = vec![0u8; len];
    hk.expand(info, &mut okm).map(|_| okm)
}

/// The largest plaintext that AES-GCM accepts: `P_MAX` of the `aes-gcm` crate.
pub open spec fn aes_gcm_p_max() -> nat {
    0x10_0000_0000
}

/// The largest ciphertext that AES-GCM opens: `C_MAX` of the `aes-gcm` crate.
pub open spec fn aes_gcm_c_max() -> nat {
    0x10_0000_0010
}

/// The most associated data AES-GCM accepts: `A_MAX` of the `aes-gcm` crate.
pub open spec fn aes_gcm_a_max() -> nat {
    0x10_0000_0000
}

/// Whether ChaCha20-Poly1305 accepts a buffer of `len` bytes: fewer than
/// `u32::MAX` whole 64-byte blocks (the check in `chacha20poly1305`'s cipher).
pub open spec fn chacha_accepts(len: nat) -> bool {
    len / 64 < 0xFFFF_FFFF
}

/// AES-128-GCM sealing of `plaintext` under `key`, 12-byte `nonce` and
/// associated data `aad`: the ciphertext followed by the 16-byte tag.
pub uninterp spec fn aes128gcm_seal(
    key: Seq<u8>,
    nonce: Seq<u8>,
    aad: Seq<u8>,
    plaintext: Seq<u8>,
) -> Seq<u8>;

/// AES-128-GCM opening of `ciphertext` with detached `tag` under `key`,
/// `nonce` and `aad`: the plaintext, or `None` when the call fails.
pub uninterp spec fn aes128gcm_open(
    key: Seq<u8>,
    nonce: Seq<u8>,
    aad: Seq<u8>,
    ciphertext: Seq<u8>,
    tag: Seq<u8>,
) -> Option<Seq<u8>>;

/// AES-256-GCM sealing, as `aes128gcm_seal` with a 32-byte key.
pub uninterp spec fn aes256gcm_seal(
    key: Seq<u8>,
    nonce: Seq<u8>,
    aad: Seq<u8>,
    plaintext: Seq<u8>,
) -> Seq<u8>;

/// AES-256-GCM opening, as `aes128gcm_open` with a 32-byte key.
pub uninterp spec fn aes256gcm_open(
    key: Seq<u8>,
    nonce: Seq<u8>,
    aad: Seq<u8>,
    ciphertext: Seq<u8>,
    tag: Seq<u8>,
) -> Option<Seq<u8>>;

/// ChaCha20-Poly1305 sealing, as `aes128gcm_seal` with a 32-byte key.
pub uninterp spec fn chacha20poly1305_seal(
    key: Seq<u8>,
    nonce: Seq<u8>,
    aad: Seq<u8>,
    plaintext: Seq<u8>,
) -> Seq<u8>;

/// ChaCha20-Poly1305 opening, as `aes128gcm_open` with a 32-byte key.
pub uninterp spec fn chacha20poly1305_open(
    key: Seq<u8>,
    nonce: Seq<u8>,
    aad: Seq<u8>,
    ciphertext: Seq<u8>,
    tag: Seq<u8>,
) -> Option<Seq<u8>>;

/// `aes_gcm::Aes128Gcm::encrypt_in_place_detached` with `nonce` and
/// associated data `aad`; `buf` holds the plaintext before and the ciphertext
/// after.
///
/// Claimed: it fails exactly when the plaintext is longer than `P_MAX` or the
/// associated data longer than `A_MAX`, and then leaves `buf` as it was;
/// otherwise the ciphertext has the plaintext's length (counter mode),
/// ciphertext and tag are the named sealing, and opening them under the same
/// key, nonce and associated data gives the plaintext back (AEAD correctness).
#[verifier::external_body]
pub(crate) fn aes128gcm_seal_in_place(
    key: &[u8],
    nonce: &[u8; 12],
    aad: &[u8],
    buf: &mut Vec<u8>,
) -> (r: Result<[u8; 16], aead::Error>)
    requires
        key@.len() == 16,
    ensures
        (r is Ok) == (old(buf)@.len() <= aes_gcm_p_max() && aad@.len() <= aes_gcm_a_max()),
        r is Err ==> final(buf)@ == old(buf)@,
        r matches Ok(tag) ==> final(buf)@.len() == old(buf)@.len() && final(buf)@ + tag@
            == aes128gcm_seal(key@, nonce@, aad@, old(buf)@) && aes128gcm_open(
            key@,
            nonce@,
            aad@,
            final(buf)@,
            tag@,
        ) == Some(old(buf)@),
{
    let aead = aes_gcm::Aes128Gcm::new(GenericArray::from_slice(key));
    let nonce = GenericArray::from_slice(&nonce[..]);
    aead.encrypt_in_place_detached(nonce, aad, buf.as_mut_slice()).map(|tag| tag.into())
}

/// `aes_gcm::Aes128Gcm::decrypt_in_place_detached` with `nonce` and
/// associated data `aad`; `buf` holds the ciphertext before and, on success,
/// the plaintext after.
///
/// Claimed: it succeeds exactly when the named opening does, and then leaves
/// that plaintext in `buf`; on failure `buf` is as it was (the crate checks
/// the lengths and the tag before it decrypts).
#[verifier::external_body]
pub(crate) fn aes128gcm_open_in_place(
    key: &[u8],
    nonce: &[u8; 12],
    aad: &[u8],
    buf: &mut Vec<u8>,
    tag: &[u8],
) -> (r: Result<(), aead::Error>)
    requires
        key@.len() == 16,
        tag@.len() == 16,
    ensures
        (r is Ok) == (aes128gcm_open(key@, nonce@, aad@, old(buf)@, tag@) is Some),
        r is Ok ==> aes128gcm_open(key@, nonce@, aad@, old(buf)@, tag@) == Some(final(buf)@),
        r is Err ==> final(buf)@ == old(buf)@,
        final(buf)@.len() == old(buf)@.len(),
{
    let aead = aes_gcm::Aes128Gcm::new(GenericArray::from_slice(key));
    let nonce = GenericArray::from_slice(&nonce[..]);
    aead.decrypt_in_place_detached(nonce, aad, buf.as_mut_slice(), GenericArray::from_slice(tag))
}

/// `aes_gcm::Aes256Gcm::encrypt_in_place_detached`; as
/// `aes128gcm_seal_in_place` with a 32-byte key.
#[verifier::external_body]
pub(crate) fn aes256gcm_seal_in_place(
    key: &[u8],
    nonce: &[u8; 12],
    aad: &[u8],
    buf: &mut Vec<u8>,
) -> (r: Result<[u8; 16], aead::Error>)
    requires
        key@.len() == 32,
    ensures
        (r is Ok) == (old(buf)@.len() <= aes_gcm_p_max() && aad@.len() <= aes_gcm_a_max()),
        r is Err ==> final(buf)@ == old(buf)@,
        r matches Ok(tag) ==> final(buf)@.len() == old(buf)@.len() && final(buf)@ + tag@
            == aes256gcm_seal(key@, nonce@, aad@, old(buf)@) && aes256gcm_open(
            key@,
            nonce@,
            aad@,
            final(buf)@,
            tag@,
        ) == Some(old(buf)@),
{
    let aead = aes_gcm::Aes256Gcm::new(GenericArray::from_slice(key));
    let nonce = GenericArray::from_slice(&nonce[..]);
    aead.encrypt_in_place_detached(nonce, aad, buf.as_mut_slice()).map(|tag| tag.into())
}

/// `aes_gcm::Aes256Gcm::decrypt_in_place_detached`; as
/// `aes128gcm_open_in_place` with a 32-byte key.
#[verifier::external_body]
pub(crate) fn aes256gcm_open_in_place(
    key: &[u8],
    nonce: &[u8; 12],
    aad: &[u8],
    buf: &mut Vec<u8>,
    tag: &[u8],
) -> (r: Result<(), aead::Error>)
    requires
        key@.len() == 32,
        tag@.len() == 16,
    ensures
        (r is Ok) == (aes256gcm_open(key@, nonce@, aad@, old(buf)@, tag@) is Some),
        r is Ok ==> aes256gcm_open(key@, nonce@, aad@, old(buf)@, tag@) == Some(final(buf)@),
        r is Err ==> final(buf)@ == old(buf)@,
        final(buf)@.len() == old(buf)@.len(),
{
    let aead = aes_gcm::Aes256Gcm::new(GenericArray::from_slice(key));
    let nonce = GenericArray::from_slice(&nonce[..]);
    aead.decrypt_in_place_detached(nonce, aad, buf.as_mut_slice(), GenericArray::from_slice(tag))
}

/// `chacha20poly1305::ChaCha20Poly1305::encrypt_in_place_detached`; as
/// `aes128gcm_seal_in_place` with a 32-byte key, failing instead when the
/// plaintext spans `u32::MAX` or more 64-byte blocks (the associated data has
/// no limit here).
#[verifier::external_body]
pub(crate) fn chacha20poly1305_seal_in_place(
    key: &[u8],
    nonce: &[u8; 12],
    aad: &[u8],
    buf: &mut Vec<u8>,
) -> (r: Result<[u8; 16], aead::Error>)
    requires
        key@.len() == 32,
    ensures
        (r is Ok) == chacha_accepts(old(buf)@.len()),
        r is Err ==> final(buf)@ == old(buf)@,
        r matches Ok(tag) ==> final(buf)@.len() == old(buf)@.len() && final(buf)@ + tag@
            == chacha20poly1305_seal(key@, nonce@, aad@, old(buf)@) && chacha20poly1305_open(
            key@,
            nonce@,
            aad@,
            final(buf)@,
            tag@,
        ) == Some(old(buf)@),
{
    let aead = chacha20poly1305::ChaCha20Poly1305::new(GenericArray::from_slice(key));
    let nonce = GenericArray::from_slice(&nonce[..]);
    aead.encrypt_in_place_detached(nonce, aad, buf.as_mut_slice()).map(|tag| tag.into())
}

/// `chacha20poly1305::ChaCha20Poly1305::decrypt_in_place_detached`; as
/// `aes128gcm_open_in_place` with a 32-byte key.
#[verifier::external_body]
pub(crate) fn chacha20poly1305_open_in_place(
    key: &[u8],
    nonce: &[u8; 12],
    aad: &[u8],
    buf: &mut Vec<u8>,
    tag: &[u8],
) -> (r: Result<(), aead::Error>)
    requires
        key@.len() == 32,
        tag@.len() == 16,
    ensures
        (r is Ok) == (chacha20poly1305_open(key@, nonce@, aad@, old(buf)@, tag@) is Some),
        r is Ok ==> chacha20poly1305_open(key@, nonce@, aad@, old(buf)@, tag@) == Some(
            final(buf)@,
        ),
        r is Err ==> final(buf)@ == old(buf)@,
        final(buf)@.len() == old(buf)@.len(),
{
    let aead = chacha20poly1305::ChaCha20Poly1305::new(GenericArray::from_slice(key));
    let nonce = GenericArray::from_slice(&nonce[..]);
    aead.decrypt_in_place_detached(nonce, aad, buf.as_mut_slice(), GenericArray::from_slice(tag))
}

/// `rand::fill` on a fresh buffer of `n` bytes, drawn from the thread-local,
/// OS-seeded generator.
///
/// Claimed: only the length. The bytes are random; nothing else is stated.
#[verifier::external_body]
pub(crate) fn random_bytes(n: usize) -> (r: Vec<u8>)
    ensures
        r@.len() == n,
{
    let mut buf = vec![0u8; n];
    rand::fill(&mut buf[..]);
    buf
}

/// The X25519 function of scalar `k` and u-coordinate `u`.
pub uninterp spec fn x25519(k: Seq<u8>, u: Seq<u8>) -> Seq<u8>;

/// `x25519_dalek::x25519`.
///
/// Claimed: the result is the named X25519 value of its arguments.
#[verifier::external_body]
pub(crate) fn x25519_scalar_mult(k: [u8; 32], u: [u8; 32]) -> (r: [u8; 32])
    ensures
        r@ == x25519(k@, u@),
{
    x25519_dalek::x25519(k, u)
}

} // verus!
