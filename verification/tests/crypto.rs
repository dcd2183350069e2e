use aes_gcm::aead::{Aead, KeyInit, Payload};
use ts_tunnel::{
    decrypt_packet, encrypt_packet, encrypt_packet_with_salt, evp_bytes_to_key, Cipher,
    CryptoError, TAG_LEN,
};

/// Minimal local hex encoder.
fn hex_encode(bytes: &[u8]) -> String {
    let mut s = String::with_capacity(bytes.len() * 2);
    for b in bytes {
        s.push_str(&format!("{b:02x}"));
    }
    s
}

const ALL: [Cipher; 3] = [Cipher::Aes128Gcm, Cipher::Aes256Gcm, Cipher::ChaCha20Poly1305];

/// `EVP_BytesToKey` reference vector: password "test", 16-byte key
/// (aes-128-gcm) must equal MD5("test").
#[test]
fn evp_bytes_to_key_reference_vector() {
    let key = evp_bytes_to_key(b"test", 16);
    assert_eq!(hex_encode(&key), "098f6bcd4621d373cade4e832627b4f6");
}

/// `EVP_BytesToKey` for a 32-byte key concatenates MD5("test") and
/// MD5(MD5("test") ++ "test").
#[test]
fn evp_bytes_to_key_32_byte_length() {
    let key = evp_bytes_to_key(b"test", 32);
    assert_eq!(key.len(), 32);
    assert_eq!(hex_encode(&key[..16]), "098f6bcd4621d373cade4e832627b4f6");
}

/// `encrypt_packet` then `decrypt_packet` round-trips for all ciphers.
#[test]
fn round_trip_all_ciphers() {
    let plaintext = b"the raw IP packet bytes that traverse the tunnel";
    for cipher in ALL {
        let master_key = evp_bytes_to_key(b"correct horse battery staple", cipher.key_len());
        let datagram = encrypt_packet(cipher, &master_key, plaintext).expect("encrypt");
        assert_eq!(
            datagram.len(),
            cipher.salt_len() + plaintext.len() + TAG_LEN,
            "datagram length for {}",
            cipher.name()
        );
        let recovered = decrypt_packet(cipher, &master_key, &datagram).expect("decrypt");
        assert_eq!(recovered, plaintext, "round trip for {}", cipher.name());
    }
}

/// An empty plaintext (degenerate packet) still round-trips.
#[test]
fn round_trip_empty_plaintext() {
    let cipher = Cipher::ChaCha20Poly1305;
    let master_key = evp_bytes_to_key(b"pw", cipher.key_len());
    let datagram = encrypt_packet(cipher, &master_key, b"").expect("encrypt");
    let recovered = decrypt_packet(cipher, &master_key, &datagram).expect("decrypt");
    assert!(recovered.is_empty());
}

/// Flipping any single byte of a datagram makes decryption fail.
#[test]
fn flipped_byte_is_rejected() {
    let plaintext = b"authenticate me";
    for cipher in ALL {
        let master_key = evp_bytes_to_key(b"password", cipher.key_len());
        let datagram = encrypt_packet(cipher, &master_key, plaintext).expect("encrypt");

        let mut bad_salt = datagram.clone();
        bad_salt[0] ^= 0xff;
        assert!(
            decrypt_packet(cipher, &master_key, &bad_salt).is_err(),
            "flipped salt byte must be rejected for {}",
            cipher.name()
        );

        let mut bad_ct = datagram.clone();
        let last = bad_ct.len() - 1;
        bad_ct[last] ^= 0x01;
        assert!(
            decrypt_packet(cipher, &master_key, &bad_ct).is_err(),
            "flipped tag byte must be rejected for {}",
            cipher.name()
        );
    }
}

/// A datagram shorter than `salt_len + tag_len` is rejected as too short.
#[test]
fn too_short_datagram_is_rejected() {
    let cipher = Cipher::Aes128Gcm;
    let master_key = evp_bytes_to_key(b"pw", cipher.key_len());
    let short = vec![0u8; cipher.salt_len() + TAG_LEN - 1];
    let err = decrypt_packet(cipher, &master_key, &short).unwrap_err();
    assert!(matches!(err, CryptoError::TooShort { .. }));
}

/// Unknown cipher names are rejected; known names round-trip through
/// `from_name`/`name`.
#[test]
fn cipher_name_parsing() {
    assert_eq!(Cipher::from_name("aes-128-gcm").unwrap(), Cipher::Aes128Gcm);
    assert_eq!(Cipher::from_name("aes-256-gcm").unwrap(), Cipher::Aes256Gcm);
    assert_eq!(
        Cipher::from_name("chacha20-poly1305").unwrap(),
        Cipher::ChaCha20Poly1305
    );
    assert_eq!(
        Cipher::from_name("chacha20-ietf-poly1305").unwrap(),
        Cipher::ChaCha20Poly1305
    );
    assert!(Cipher::from_name("rc4-md5").is_err());
    assert_eq!(Cipher::Aes256Gcm.name(), "aes-256-gcm");
}

#[test]
fn every_cipher_name_parses_back() {
    for cipher in ALL {
        assert_eq!(Cipher::from_name(cipher.name()).unwrap(), cipher);
    }
}

#[test]
fn unknown_cipher_error_carries_the_name() {
    match Cipher::from_name("rc4-md5") {
        Err(CryptoError::UnknownCipher(name)) => assert_eq!(name, "rc4-md5"),
        other => panic!("unexpected {other:?}"),
    }
}

#[test]
fn key_and_salt_lengths() {
    assert_eq!(Cipher::Aes128Gcm.key_len(), 16);
    assert_eq!(Cipher::Aes256Gcm.key_len(), 32);
    assert_eq!(Cipher::ChaCha20Poly1305.key_len(), 32);
    for cipher in ALL {
        assert_eq!(cipher.salt_len(), cipher.key_len());
    }
}

/// EVP_BytesToKey of "test" to 32 bytes: MD5("test") ++ MD5(MD5("test") ++ "test").
#[test]
fn evp_bytes_to_key_second_block() {
    let key = evp_bytes_to_key(b"test", 32);
    assert_eq!(hex_encode(&key[16..]), "0a9172716ae6428409885b8b829ccb05");
    let short = evp_bytes_to_key(b"test", 20);
    assert_eq!(short[..], key[..20]);
    assert!(evp_bytes_to_key(b"test", 0).is_empty());
}

/// With a fixed salt the datagram is deterministic: the salt leads, and the
/// sealed body differs from the plaintext.
#[test]
fn fixed_salt_datagram_layout() {
    let plaintext = b"0123456789abcdefghij";
    for cipher in ALL {
        let master_key = evp_bytes_to_key(b"pw", cipher.key_len());
        let salt = vec![7u8; cipher.salt_len()];
        let a = encrypt_packet_with_salt(cipher, &master_key, &salt, plaintext).unwrap();
        let b = encrypt_packet_with_salt(cipher, &master_key, &salt, plaintext).unwrap();
        assert_eq!(a, b);
        assert_eq!(&a[..salt.len()], &salt[..]);
        assert_ne!(&a[salt.len()..salt.len() + plaintext.len()], &plaintext[..]);
        assert_eq!(decrypt_packet(cipher, &master_key, &a).unwrap(), plaintext);
        // A different salt gives a different subkey, hence a different body.
        let other_salt = vec![8u8; cipher.salt_len()];
        let c = encrypt_packet_with_salt(cipher, &master_key, &other_salt, plaintext).unwrap();
        assert_ne!(&a[salt.len()..], &c[salt.len()..]);
    }
}

/// Every datagram gets a fresh random salt.
#[test]
fn salts_are_fresh() {
    let cipher = Cipher::ChaCha20Poly1305;
    let master_key = evp_bytes_to_key(b"pw", cipher.key_len());
    let a = encrypt_packet(cipher, &master_key, b"same").unwrap();
    let b = encrypt_packet(cipher, &master_key, b"same").unwrap();
    assert_ne!(a[..cipher.salt_len()], b[..cipher.salt_len()]);
}

#[test]
fn wrong_key_is_an_aead_error() {
    let cipher = Cipher::Aes256Gcm;
    let k1 = evp_bytes_to_key(b"one", cipher.key_len());
    let k2 = evp_bytes_to_key(b"two", cipher.key_len());
    let d = encrypt_packet(cipher, &k1, b"payload").unwrap();
    assert!(matches!(decrypt_packet(cipher, &k2, &d), Err(CryptoError::Aead)));
}

#[test]
fn too_short_reports_lengths() {
    let cipher = Cipher::ChaCha20Poly1305;
    match decrypt_packet(cipher, &[0u8; 32], &[0u8; 10]) {
        Err(CryptoError::TooShort { got, need }) => {
            assert_eq!(got, 10);
            assert_eq!(need, 48);
        }
        other => panic!("unexpected {other:?}"),
    }
}

/// A datagram is sealed under the all-zero 12-byte nonce with no associated
/// data: sealing the same plaintext directly with the `aes-gcm` crate under
/// the HKDF subkey gives the same ciphertext and tag.
#[test]
fn datagram_uses_zero_nonce_and_no_aad() {
    let cipher = Cipher::Aes128Gcm;
    let master_key = evp_bytes_to_key(b"pw", cipher.key_len());
    let salt = vec![5u8; cipher.salt_len()];
    let plaintext = b"an inner packet of some length";
    let d = encrypt_packet_with_salt(cipher, &master_key, &salt, plaintext).unwrap();

    let hk = hkdf::Hkdf::<sha1::Sha1>::new(Some(&salt), &master_key);
    let mut subkey = [0u8; 16];
    hk.expand(b"ss-subkey", &mut subkey).unwrap();
    let aead = aes_gcm::Aes128Gcm::new_from_slice(&subkey).unwrap();
    let nonce = aes_gcm::Nonce::from_slice(&[0u8; 12]);
    let sealed = aead.encrypt(nonce, Payload { msg: plaintext, aad: b"" }).unwrap();
    assert_eq!(&d[salt.len()..], &sealed[..]);
    assert_eq!(d.len(), salt.len() + plaintext.len() + TAG_LEN);
}
