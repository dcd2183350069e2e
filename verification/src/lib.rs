//! A secure packet tunnel over UDP.
//!
//! The ShadowVPN data-plane protocol: a pre-shared-key (PSK), user-mode VPN
//! that uses the shadowsocks.org AEAD **UDP** wire scheme, with optional
//! carrier obfuscation. Each plaintext packet maps to exactly one datagram,
//! `salt ++ AEAD ciphertext ++ tag`, sealed with a per-datagram subkey
//! `HKDF-SHA1(master_key, salt, "ss-subkey")` and the all-zero nonce.
//!
//! The [`Endpoint`] is sans-I/O: the caller feeds it packets and gets back the
//! datagrams to transmit and the packets to deliver. The [`vpn`] module holds
//! the decisions of a multi-client server and its clients.

mod backend;
pub mod base64;
mod config;
mod crypto;
mod endpoint;
mod keys;
mod obfs;
mod results;
pub mod vpn;

pub use crate::config::{PeerConfig, PeerId, Psk};
pub use crate::crypto::{
    decrypt_packet, encrypt_packet, encrypt_packet_with_salt, evp_bytes_to_key, Cipher,
    CryptoError, NONCE_LEN, TAG_LEN,
};
pub use crate::endpoint::{Endpoint, TimeRange, MIN_DELIVER_LEN};
pub use crate::keys::{NodeKeyPair, NodePrivateKey, NodePublicKey};
pub use crate::obfs::{Obfuscator, QuicObfs, QUIC_CID_LEN, QUIC_FIRST_BYTE, QUIC_PN_LEN};
pub use crate::results::{EventResult, PeerQueues, RecvResult, SendResult};
