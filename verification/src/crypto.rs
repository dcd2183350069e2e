//! Cipher selection and the per-datagram AEAD construction.

use vstd::prelude::*;
use vstd::slice::slice_to_vec;

use crate::backend::{
    aes128gcm_open, aes128gcm_open_in_place, aes128gcm_seal, aes128gcm_seal_in_place,
    aes256gcm_open, aes256gcm_open_in_place, aes256gcm_seal, aes256gcm_seal_in_place,
    aes_gcm_p_max, chacha20poly1305_open, chacha20poly1305_open_in_place, chacha20poly1305_seal,
    chacha20poly1305_seal_in_place, chacha_accepts, hkdf_sha1, hkdf_sha1_expand,
    hkdf_sha1_max_len, md5_digest, md5_of_concat, random_bytes,
};

verus! {

/// AEAD nonce length in bytes. All supported ciphers use a 12-byte nonce.
pub const NONCE_LEN: usize = 12;

/// AEAD authentication tag length in bytes. All supported ciphers use a
/// 16-byte (128-bit) Poly1305 / GCM tag.
pub const TAG_LEN: usize = 16;

/// The set of supported AEAD ciphers.
#[derive(Debug, Clone, Copy, PartialEq, Eq, Structural)]
pub enum Cipher {
    /// AES-128-GCM. 16-byte key, 16-byte salt.
    Aes128Gcm,
    /// AES-256-GCM. 32-byte key, 32-byte salt.
    Aes256Gcm,
    /// ChaCha20-Poly1305 (IETF). 32-byte key, 32-byte salt.
    ChaCha20Poly1305,
}

/// Errors that can occur while encrypting or decrypting a datagram.
#[derive(Debug)]
pub enum CryptoError {
    /// The cipher name string was not one of the supported ciphers.
    UnknownCipher(String),
    /// An incoming datagram was shorter than `salt_len + tag_len`.
    TooShort {
        /// Number of bytes actually received.
        got: usize,
        /// Minimum number of bytes required (`salt_len + TAG_LEN`).
        need: usize,
    },
    /// HKDF subkey derivation failed.
    Hkdf,
    /// AEAD open/seal failed.
    Aead,
}

/// The cipher that a shadowsocks cipher name denotes, if any.
pub open spec fn cipher_named(name: Seq<char>) -> Option<Cipher> {
    if name == "aes-128-gcm"@ {
        Some(Cipher::Aes128Gcm)
    } else if name == "aes-256-gcm"@ {
        Some(Cipher::Aes256Gcm)
    } else if name == "chacha20-poly1305"@ || name == "chacha20-ietf-poly1305"@ {
        Some(Cipher::ChaCha20Poly1305)
    } else {
        None
    }
}

/// Byte-wise equality of two slices.
fn bytes_eq(a: &[u8], b: &[u8]) -> (r: bool)
    ensures
        r == (a@ == b@),
{
    if a.len() != b.len() {
        return false;
    }
    let mut i: usize = 0;
    while i < a.len()
        invariant
            a@.len() == b@.len(),
            0 <= i <= a@.len(),
            forall|j: int| 0 <= j < i ==> a@[j] == b@[j],
        decreases a@.len() - i,
    {
        if a[i] != b[i] {
            return false;
        }
        i = i + 1;
    }
    assert(a@ =~= b@);
    true
}

/// Whether the string `s` is exactly the literal `lit`.
pub(crate) fn str_is(s: &str, lit: &str) -> (r: bool)
    ensures
        r == (s@ == lit@),
{
    let a = s.as_bytes();
    let b = lit.as_bytes();
    proof {
        vstd::utf8::encode_utf8_decode_utf8(s@);
        vstd::utf8::encode_utf8_decode_utf8(lit@);
    }
    bytes_eq(a, b)
}

/// Each cipher's canonical name parses back to the cipher.
pub proof fn lemma_name_parses(c: Cipher)
    ensures
        cipher_named(c.spec_name()) == Some(c),
{
    reveal_strlit("aes-128-gcm");
    reveal_strlit("aes-256-gcm");
    reveal_strlit("chacha20-poly1305");
    reveal_strlit("chacha20-ietf-poly1305");
    assert("aes-128-gcm"@[4] != "aes-256-gcm"@[4]);
    assert("aes-128-gcm"@.len() != "chacha20-poly1305"@.len());
    assert("aes-256-gcm"@.len() != "chacha20-poly1305"@.len());
}

impl Cipher {
    /// Key length in bytes (equal to the salt length on the wire).
    pub open spec fn spec_key_len(self) -> nat {
        match self {
            Cipher::Aes128Gcm => 16,
            Cipher::Aes256Gcm => 32,
            Cipher::ChaCha20Poly1305 => 32,
        }
    }

    /// The canonical shadowsocks name of the cipher.
    pub open spec fn spec_name(self) -> Seq<char> {
        match self {
            Cipher::Aes128Gcm => "aes-128-gcm"@,
            Cipher::Aes256Gcm => "aes-256-gcm"@,
            Cipher::ChaCha20Poly1305 => "chacha20-poly1305"@,
        }
    }

    /// The canonical shadowsocks name of this cipher.
    pub fn name(self) -> (r: &'static str)
        ensures
            r@ == self.spec_name(),
    {
        match self {
            Cipher::Aes128Gcm => "aes-128-gcm",
            Cipher::Aes256Gcm => "aes-256-gcm",
            Cipher::ChaCha20Poly1305 => "chacha20-poly1305",
        }
    }

    /// Key length in bytes for this cipher. Also equals the salt length on the
    /// wire (per the shadowsocks AEAD spec).
    pub fn key_len(self) -> (r: usize)
        ensures
            r == self.spec_key_len(),
    {
        match self {
            Cipher::Aes128Gcm => 16,
            Cipher::Aes256Gcm | Cipher::ChaCha20Poly1305 => 32,
        }
    }

    /// Salt length in bytes for this cipher (equal to [`Cipher::key_len`]).
    pub fn salt_len(self) -> (r: usize)
        ensures
            r == self.spec_key_len(),
    {
        self.key_len()
    }

    /// Parse a cipher from its shadowsocks cipher name.
    ///
    /// Accepted names: `"aes-128-gcm"`, `"aes-256-gcm"`, `"chacha20-poly1305"`
    /// (also the alias `"chacha20-ietf-poly1305"`).
    pub fn from_name(name: &str) -> (r: Result<Cipher, CryptoError>)
        ensures
            match cipher_named(name@) {
                Some(c) => r matches Ok(x) && x == c,
                None => r matches Err(CryptoError::UnknownCipher(s)) && s@ == name@,
            },
    {
        if str_is(name, "aes-128-gcm") {
            Ok(Cipher::Aes128Gcm)
        } else if str_is(name, "aes-256-gcm") {
            Ok(Cipher::Aes256Gcm)
        } else if str_is(name, "chacha20-poly1305") || str_is(name, "chacha20-ietf-poly1305") {
            Ok(Cipher::ChaCha20Poly1305)
        } else {
            Err(CryptoError::UnknownCipher(name.to_owned()))
        }
    }
}

/// The `i`-th MD5 block of OpenSSL's `EVP_BytesToKey`: `d_0 = MD5(password)`,
/// `d_i = MD5(d_{i-1} ++ password)`.
pub open spec fn evp_digest(password: Seq<u8>, i: nat) -> Seq<u8>
    decreases i,
{
    if i == 0 {
        md5_digest(Seq::<u8>::empty() + password)
    } else {
        md5_digest(evp_digest(password, (i - 1) as nat) + password)
    }
}

/// The master key `EVP_BytesToKey` derives from `password`: its first
/// `key_len` bytes of the stream `d_0 ++ d_1 ++ ...`, where byte `j` is byte
/// `j % 16` of the 16-byte block `d_(j / 16)`.
pub open spec fn spec_evp_bytes_to_key(password: Seq<u8>, key_len: nat) -> Seq<u8> {
    Seq::new(key_len, |j: int| evp_digest(password, (j / 16) as nat)[j % 16])
}

/// A shorter master key is a prefix of a longer one derived from the same
/// password: the derivation only ever appends blocks.
pub proof fn lemma_evp_key_prefix(password: Seq<u8>, short_len: nat, long_len: nat)
    requires
        short_len <= long_len,
    ensures
        spec_evp_bytes_to_key(password, short_len) == spec_evp_bytes_to_key(
            password,
            long_len,
        ).subrange(0, short_len as int),
{
    assert(spec_evp_bytes_to_key(password, short_len) =~= spec_evp_bytes_to_key(
        password,
        long_len,
    ).subrange(0, short_len as int));
}

/// Derive the shadowsocks master key from a password using OpenSSL's legacy
/// `EVP_BytesToKey` (MD5-based) KDF.
///
/// The algorithm concatenates successive MD5 digests until at least `key_len`
/// bytes are produced:
///
/// ```text
/// d_0 = MD5(password)
/// d_i = MD5(d_{i-1} ++ password)
/// master_key = (d_0 ++ d_1 ++ ...)[..key_len]
/// ```
///
/// For 16-byte keys this is simply `MD5(password)`.
pub fn evp_bytes_to_key(password: &[u8], key_len: usize) -> (r: Vec<u8>)
    ensures
        r@ == spec_evp_bytes_to_key(password@, key_len as nat),
        r@.len() == key_len,
        forall|i: nat|
            16 * (i + 1) <= key_len ==> r@.subrange(16 * i as int, 16 * i as int + 16) == #[trigger] evp_digest(
                password@,
                i,
            ),
        key_len >= 16 ==> r@.subrange(0, 16) == md5_digest(password@),
        key_len >= 32 ==> r@.subrange(16, 32) == md5_digest(r@.subrange(0, 16) + password@),
        key_len == 16 ==> r@ == md5_digest(password@),
{
    let mut key: Vec<u8> = Vec::new();
    let mut prev: Vec<u8> = Vec::new();
    let ghost mut n: nat = 0;
    while key.len() < key_len
        invariant
            key@.len() == 16 * n,
            forall|j: int|
                0 <= j < 16 * n ==> key@[j] == #[trigger] evp_digest(password@, (j / 16) as nat)[j
                    % 16],
            forall|i: nat| i < n ==> (#[trigger] evp_digest(password@, i)).len() == 16,
            n > 0 ==> prev@ == evp_digest(password@, (n - 1) as nat),
            n == 0 ==> prev@ == Seq::<u8>::empty(),
            n > 0 ==> 16 * (n - 1) < key_len,
        decreases key_len + 16 - key@.len(),
    {
        let ghost before = key@;
        prev = md5_of_concat(prev.as_slice(), password);
        assert(prev@ == evp_digest(password@, n));
        append_bytes(&mut key, prev.as_slice());
        proof {
            assert forall|j: int| 0 <= j < 16 * (n + 1) implies key@[j] == #[trigger] evp_digest(
                password@,
                (j / 16) as nat,
            )[j % 16] by {
                if j >= 16 * n {
                    vstd::arithmetic::div_mod::lemma_fundamental_div_mod_converse(
                        j,
                        16,
                        n as int,
                        j - 16 * n,
                    );
                    assert(key@[j] == prev@[j - 16 * n]);
                } else {
                    assert(key@[j] == before[j]);
                }
            }
            n = n + 1;
        }
    }
    key.truncate(key_len);
    proof {
        let f = |j: int| evp_digest(password@, (j / 16) as nat)[j % 16];
        assert(key@ =~= Seq::new(key_len as nat, f));
        assert forall|i: nat| 16 * (i + 1) <= key_len implies key@.subrange(16 * i as int, 16 * i as int + 16)
            == #[trigger] evp_digest(password@, i) by {
            assert(i < n);
            assert forall|m: int| 0 <= m < 16 implies key@.subrange(16 * i as int, 16 * i as int + 16)[m]
                == evp_digest(password@, i)[m] by {
                vstd::arithmetic::div_mod::lemma_fundamental_div_mod_converse(
                    16 * i + m,
                    16,
                    i as int,
                    m,
                );
                assert(key@[16 * i + m] == evp_digest(password@, ((16 * i + m) / 16) as nat)[(16 * i
                    + m) % 16]);
            }
            assert(key@.subrange(16 * i as int, 16 * i as int + 16) =~= evp_digest(password@, i));
        }
        assert(Seq::<u8>::empty() + password@ =~= password@);
        if key_len >= 16 {
            assert(key@.subrange(0, 16) == evp_digest(password@, 0));
        }
        if key_len >= 32 {
            assert(key@.subrange(16, 32) == evp_digest(password@, 1));
        }
        if key_len == 16 {
            assert(key@ =~= key@.subrange(0, 16));
        }
    }
    key
}

/// The HKDF `info` string of the shadowsocks subkey derivation: `"ss-subkey"`.
pub open spec fn ss_subkey_info() -> Seq<u8> {
    seq![0x73u8, 0x73, 0x2d, 0x73, 0x75, 0x62, 0x6b, 0x65, 0x79]
}

fn subkey_info() -> (r: Vec<u8>)
    ensures
        r@ == ss_subkey_info(),
{
    let r: Vec<u8> = vec![0x73u8, 0x73, 0x2d, 0x73, 0x75, 0x62, 0x6b, 0x65, 0x79];
    assert(r@ =~= ss_subkey_info());
    r
}

/// The per-datagram subkey: `HKDF-SHA1(ikm = master_key, salt, info =
/// "ss-subkey", L = key_len)`.
pub open spec fn spec_subkey(cipher: Cipher, master_key: Seq<u8>, salt: Seq<u8>) -> Seq<u8> {
    hkdf_sha1(master_key, salt, ss_subkey_info(), cipher.spec_key_len())
}

/// Derive a per-datagram subkey of `key_len` bytes via `HKDF-SHA1(ikm =
/// master_key, salt, info = "ss-subkey", L = key_len)`.
fn derive_subkey(master_key: &[u8], salt: &[u8], key_len: usize) -> (r: Result<
    Vec<u8>,
    CryptoError,
>)
    ensures
        key_len <= hkdf_sha1_max_len() ==> (r matches Ok(k) && k@ == hkdf_sha1(
            master_key@,
            salt@,
            ss_subkey_info(),
            key_len as nat,
        ) && k@.len() == key_len),
        key_len > hkdf_sha1_max_len() ==> (r matches Err(CryptoError::Hkdf)),
{
    let info = subkey_info();
    match hkdf_sha1_expand(master_key, salt, info.as_slice(), key_len) {
        Ok(k) => Ok(k),
        Err(_) => Err(CryptoError::Hkdf),
    }
}

/// Whether the cipher accepts a plaintext of `len` bytes.
pub open spec fn accepts_plaintext(cipher: Cipher, len: nat) -> bool {
    match cipher {
        Cipher::Aes128Gcm | Cipher::Aes256Gcm => len <= aes_gcm_p_max(),
        Cipher::ChaCha20Poly1305 => chacha_accepts(len),
    }
}

/// The UDP nonce of every datagram: twelve zero bytes. Each datagram has a
/// fresh salt, hence a fresh subkey, so the nonce never repeats under a key.
pub open spec fn zero_nonce() -> Seq<u8> {
    Seq::new(12, |i: int| 0u8)
}

/// AEAD sealing under `key` with the all-zero nonce and no associated data:
/// ciphertext followed by tag.
pub open spec fn spec_seal(cipher: Cipher, key: Seq<u8>, plaintext: Seq<u8>) -> Seq<u8> {
    let aad = Seq::<u8>::empty();
    match cipher {
        Cipher::Aes128Gcm => aes128gcm_seal(key, zero_nonce(), aad, plaintext),
        Cipher::Aes256Gcm => aes256gcm_seal(key, zero_nonce(), aad, plaintext),
        Cipher::ChaCha20Poly1305 => chacha20poly1305_seal(key, zero_nonce(), aad, plaintext),
    }
}

/// AEAD opening under `key` with the all-zero nonce, no associated data and a
/// detached tag.
pub open spec fn spec_open(cipher: Cipher, key: Seq<u8>, ciphertext: Seq<u8>, tag: Seq<u8>) -> Option<
    Seq<u8>,
> {
    let aad = Seq::<u8>::empty();
    match cipher {
        Cipher::Aes128Gcm => aes128gcm_open(key, zero_nonce(), aad, ciphertext, tag),
        Cipher::Aes256Gcm => aes256gcm_open(key, zero_nonce(), aad, ciphertext, tag),
        Cipher::ChaCha20Poly1305 => chacha20poly1305_open(key, zero_nonce(), aad, ciphertext, tag),
    }
}

/// The UDP nonce, as bytes.
fn udp_nonce() -> (r: [u8; 12])
    ensures
        r@ == zero_nonce(),
{
    let r = [0u8; 12];
    assert(r@ =~= zero_nonce());
    r
}

/// AEAD-seal `buf` (the plaintext) in place with `subkey` and the all-zero UDP
/// nonce, returning the detached authentication tag. Fails with
/// [`CryptoError::Aead`], leaving `buf` as it was, when `subkey` is not a key
/// of the cipher's length or the cipher refuses a plaintext of this length.
fn aead_seal_in_place(cipher: Cipher, subkey: &[u8], buf: &mut Vec<u8>) -> (r: Result<
    [u8; 16],
    CryptoError,
>)
    ensures
        subkey@.len() == cipher.spec_key_len() && accepts_plaintext(cipher, old(buf)@.len()) ==> (
        r matches Ok(tag) && final(buf)@.len() == old(buf)@.len() && final(buf)@ + tag@
            == spec_seal(cipher, subkey@, old(buf)@) && spec_open(cipher, subkey@, final(buf)@, tag@)
            == Some(old(buf)@)),
        !(subkey@.len() == cipher.spec_key_len() && accepts_plaintext(cipher, old(buf)@.len()))
            ==> (r matches Err(CryptoError::Aead) && final(buf)@ == old(buf)@),
{
    if subkey.len() != cipher.key_len() {
        return Err(CryptoError::Aead);
    }
    let nonce = udp_nonce();
    let aad: Vec<u8> = Vec::new();
    let sealed = match cipher {
        Cipher::Aes128Gcm => aes128gcm_seal_in_place(subkey, &nonce, aad.as_slice(), buf),
        Cipher::Aes256Gcm => aes256gcm_seal_in_place(subkey, &nonce, aad.as_slice(), buf),
        Cipher::ChaCha20Poly1305 => chacha20poly1305_seal_in_place(
            subkey,
            &nonce,
            aad.as_slice(),
            buf,
        ),
    };
    match sealed {
        Ok(tag) => Ok(tag),
        Err(_) => Err(CryptoError::Aead),
    }
}

/// AEAD-open `buf` (the ciphertext) in place with `subkey`, the all-zero UDP
/// nonce, and the detached `tag`. On success `buf` holds the recovered
/// plaintext; fails with [`CryptoError::Aead`], leaving `buf` as it was, when
/// `subkey` is not a key of the cipher's length or on authentication failure.
fn aead_open_in_place(cipher: Cipher, subkey: &[u8], buf: &mut Vec<u8>, tag: &[u8]) -> (r: Result<
    (),
    CryptoError,
>)
    requires
        tag@.len() == TAG_LEN,
    ensures
        subkey@.len() != cipher.spec_key_len() ==> (r matches Err(CryptoError::Aead)),
        subkey@.len() == cipher.spec_key_len() ==> match spec_open(cipher, subkey@, old(buf)@, tag@) {
            Some(p) => r is Ok && final(buf)@ == p,
            None => r matches Err(CryptoError::Aead),
        },
        r is Err ==> final(buf)@ == old(buf)@,
        final(buf)@.len() == old(buf)@.len(),
{
    if subkey.len() != cipher.key_len() {
        return Err(CryptoError::Aead);
    }
    let nonce = udp_nonce();
    let aad: Vec<u8> = Vec::new();
    let opened = match cipher {
        Cipher::Aes128Gcm => aes128gcm_open_in_place(subkey, &nonce, aad.as_slice(), buf, tag),
        Cipher::Aes256Gcm => aes256gcm_open_in_place(subkey, &nonce, aad.as_slice(), buf, tag),
        Cipher::ChaCha20Poly1305 => chacha20poly1305_open_in_place(
            subkey,
            &nonce,
            aad.as_slice(),
            buf,
            tag,
        ),
    };
    match opened {
        Ok(()) => Ok(()),
        Err(_) => Err(CryptoError::Aead),
    }
}

/// The wire datagram for `plaintext` under salt `salt`:
/// `salt ++ ciphertext ++ tag`, sealed with the salt's subkey.
pub open spec fn spec_datagram(
    cipher: Cipher,
    master_key: Seq<u8>,
    salt: Seq<u8>,
    plaintext: Seq<u8>,
) -> Seq<u8> {
    salt + spec_seal(cipher, spec_subkey(cipher, master_key, salt), plaintext)
}

/// The smallest datagram that can hold a salt and a tag.
pub open spec fn min_datagram_len(cipher: Cipher) -> nat {
    cipher.spec_key_len() + 16
}

/// What a wire datagram decrypts to: `None` when it is too short to hold a
/// salt and a tag, or when it does not authenticate under the subkey of its
/// salt.
pub open spec fn spec_decrypt(cipher: Cipher, master_key: Seq<u8>, datagram: Seq<u8>) -> Option<
    Seq<u8>,
> {
    let salt_len = cipher.spec_key_len() as int;
    if datagram.len() < min_datagram_len(cipher) {
        None
    } else {
        spec_open(
            cipher,
            spec_subkey(cipher, master_key, datagram.subrange(0, salt_len)),
            datagram.subrange(salt_len, datagram.len() - TAG_LEN),
            datagram.subrange(datagram.len() - TAG_LEN, datagram.len() as int),
        )
    }
}

/// Each cipher seals with its own AEAD, for every plaintext length: the
/// datagram is the salt followed by that cipher's sealing of the plaintext
/// under the salt's HKDF-SHA1 subkey of the cipher's key length, twelve zero
/// nonce bytes and no associated data.
pub proof fn lemma_datagram_uses_configured_cipher(
    cipher: Cipher,
    master_key: Seq<u8>,
    salt: Seq<u8>,
    plaintext: Seq<u8>,
)
    ensures
        spec_datagram(cipher, master_key, salt, plaintext) == salt + match cipher {
            Cipher::Aes128Gcm => aes128gcm_seal(
                hkdf_sha1(master_key, salt, ss_subkey_info(), 16),
                Seq::new(12, |i: int| 0u8),
                Seq::empty(),
                plaintext,
            ),
            Cipher::Aes256Gcm => aes256gcm_seal(
                hkdf_sha1(master_key, salt, ss_subkey_info(), 32),
                Seq::new(12, |i: int| 0u8),
                Seq::empty(),
                plaintext,
            ),
            Cipher::ChaCha20Poly1305 => chacha20poly1305_seal(
                hkdf_sha1(master_key, salt, ss_subkey_info(), 32),
                Seq::new(12, |i: int| 0u8),
                Seq::empty(),
                plaintext,
            ),
        },
{
    assert(zero_nonce() =~= Seq::new(12, |i: int| 0u8));
}

/// Each cipher opens with its own AEAD, for every datagram long enough to
/// hold a salt of the cipher's key length and a 16-byte tag: the salt's
/// HKDF-SHA1 subkey, twelve zero nonce bytes and no associated data open the
/// bytes between salt and tag against the tag.
pub proof fn lemma_decrypt_uses_configured_cipher(cipher: Cipher, master_key: Seq<u8>, datagram: Seq<u8>)
    ensures
        spec_decrypt(cipher, master_key, datagram) == match cipher {
            Cipher::Aes128Gcm => if datagram.len() < 32 {
                None
            } else {
                aes128gcm_open(
                    hkdf_sha1(master_key, datagram.subrange(0, 16), ss_subkey_info(), 16),
                    Seq::new(12, |i: int| 0u8),
                    Seq::empty(),
                    datagram.subrange(16, datagram.len() - 16),
                    datagram.subrange(datagram.len() - 16, datagram.len() as int),
                )
            },
            Cipher::Aes256Gcm => if datagram.len() < 48 {
                None
            } else {
                aes256gcm_open(
                    hkdf_sha1(master_key, datagram.subrange(0, 32), ss_subkey_info(), 32),
                    Seq::new(12, |i: int| 0u8),
                    Seq::empty(),
                    datagram.subrange(32, datagram.len() - 16),
                    datagram.subrange(datagram.len() - 16, datagram.len() as int),
                )
            },
            Cipher::ChaCha20Poly1305 => if datagram.len() < 48 {
                None
            } else {
                chacha20poly1305_open(
                    hkdf_sha1(master_key, datagram.subrange(0, 32), ss_subkey_info(), 32),
                    Seq::new(12, |i: int| 0u8),
                    Seq::empty(),
                    datagram.subrange(32, datagram.len() - 16),
                    datagram.subrange(datagram.len() - 16, datagram.len() as int),
                )
            },
        },
{
    assert(zero_nonce() =~= Seq::new(12, |i: int| 0u8));
}

/// Appends the bytes of `src` to `dst`.
fn append_bytes(dst: &mut Vec<u8>, src: &[u8])
    ensures
        final(dst)@ == old(dst)@ + src@,
{
    let mut i: usize = 0;
    while i < src.len()
        invariant
            0 <= i <= src@.len(),
            dst@ == old(dst)@ + src@.subrange(0, i as int),
        decreases src@.len() - i,
    {
        dst.push(src[i]);
        i = i + 1;
        assert(dst@ =~= old(dst)@ + src@.subrange(0, i as int));
    }
    assert(src@.subrange(0, src@.len() as int) =~= src@);
}

/// Encrypt one plaintext packet into a wire datagram under a given salt.
///
/// Produces `salt ++ ciphertext ++ tag`, where the AEAD subkey is
/// `HKDF-SHA1(master_key, salt, "ss-subkey")` and the nonce is all zero.
/// Fails with [`CryptoError::Aead`] when the cipher does not accept a
/// plaintext of this length.
pub fn encrypt_packet_with_salt(
    cipher: Cipher,
    master_key: &[u8],
    salt: &[u8],
    plaintext: &[u8],
) -> (r: Result<Vec<u8>, CryptoError>)
    requires
        salt@.len() == cipher.spec_key_len(),
    ensures
        accepts_plaintext(cipher, plaintext@.len()) ==> (r matches Ok(d) && d@ == spec_datagram(
            cipher,
            master_key@,
            salt@,
            plaintext@,
        ) && d@.len() == salt@.len() + plaintext@.len() + TAG_LEN && spec_decrypt(
            cipher,
            master_key@,
            d@,
        ) == Some(plaintext@)),
        !accepts_plaintext(cipher, plaintext@.len()) ==> (r matches Err(CryptoError::Aead)),
{
    let subkey = derive_subkey(master_key, salt, cipher.key_len())?;
    let mut body = slice_to_vec(plaintext);
    let tag = aead_seal_in_place(cipher, subkey.as_slice(), &mut body)?;
    let mut datagram = slice_to_vec(salt);
    append_bytes(&mut datagram, body.as_slice());
    append_bytes(&mut datagram, &tag);
    proof {
        let d = datagram@;
        let sl = salt@.len() as int;
        assert(d =~= salt@ + (body@ + tag@));
        assert(d.subrange(0, sl) =~= salt@);
        assert(d.subrange(sl, d.len() - TAG_LEN) =~= body@);
        assert(d.subrange(d.len() - TAG_LEN, d.len() as int) =~= tag@);
    }
    Ok(datagram)
}

/// Encrypt one plaintext packet into a wire datagram.
///
/// Produces `salt ++ ciphertext ++ tag`, where `salt` is `cipher.salt_len()`
/// random bytes and the AEAD subkey is `HKDF-SHA1(master_key, salt,
/// "ss-subkey")`.
pub fn encrypt_packet(cipher: Cipher, master_key: &[u8], plaintext: &[u8]) -> (r: Result<
    Vec<u8>,
    CryptoError,
>)
    ensures
        accepts_plaintext(cipher, plaintext@.len()) ==> (r matches Ok(d) && (exists|salt: Seq<u8>|
            salt.len() == cipher.spec_key_len() && d@ == #[trigger] spec_datagram(
                cipher,
                master_key@,
                salt,
                plaintext@,
            )) && d@.len() == cipher.spec_key_len() + plaintext@.len() + TAG_LEN && spec_decrypt(
            cipher,
            master_key@,
            d@,
        ) == Some(plaintext@)),
        !accepts_plaintext(cipher, plaintext@.len()) ==> (r matches Err(CryptoError::Aead)),
{
    let salt = random_bytes(cipher.salt_len());
    encrypt_packet_with_salt(cipher, master_key, salt.as_slice(), plaintext)
}

/// Decrypt one wire datagram back into the plaintext packet.
///
/// Splits off the leading `cipher.salt_len()` salt bytes, derives the subkey,
/// and AEAD-opens the remainder. Returns [`CryptoError::TooShort`] if the
/// datagram cannot hold a salt + tag, or [`CryptoError::Aead`] if
/// authentication fails.
pub fn decrypt_packet(cipher: Cipher, master_key: &[u8], datagram: &[u8]) -> (r: Result<
    Vec<u8>,
    CryptoError,
>)
    ensures
        datagram@.len() < min_datagram_len(cipher) ==> (r matches Err(CryptoError::TooShort { got, need })
            && got == datagram@.len() && need == min_datagram_len(cipher)),
        datagram@.len() >= min_datagram_len(cipher) ==> match spec_decrypt(
            cipher,
            master_key@,
            datagram@,
        ) {
            Some(p) => r matches Ok(v) && v@ == p,
            None => r matches Err(CryptoError::Aead),
        },
        r matches Ok(v) ==> v@.len() == datagram@.len() - min_datagram_len(cipher),
{
    let salt_len = cipher.salt_len();
    let need = salt_len + TAG_LEN;
    if datagram.len() < need {
        return Err(CryptoError::TooShort { got: datagram.len(), need });
    }
    let salt = &datagram[0..salt_len];
    let subkey = derive_subkey(master_key, salt, cipher.key_len())?;
    let ct_end = datagram.len() - TAG_LEN;
    let mut plaintext = slice_to_vec(&datagram[salt_len..ct_end]);
    let tag = &datagram[ct_end..datagram.len()];
    aead_open_in_place(cipher, subkey.as_slice(), &mut plaintext, tag)?;
    Ok(plaintext)
}

} // verus!
