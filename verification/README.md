# ts_tunnel

A pre-shared-key packet tunnel over UDP (the ShadowVPN data plane), written in
Verus: every datagram is `salt ++ AEAD(plaintext) ++ tag` under the subkey
`HKDF-SHA1(master_key, salt, "ss-subkey")` and the all-zero nonce, optionally
framed as a QUIC short-header packet or as base64 text.

Layout:

* `src/` — the verified library.
  * `crypto.rs` — ciphers, `EVP_BytesToKey`, datagram encryption/decryption;
  * `base64.rs`, `obfs.rs` — carrier framing, with round-trip proofs;
  * `endpoint.rs`, `results.rs`, `config.rs`, `keys.rs` — the sans-I/O
    multi-peer endpoint;
  * `vpn/` — the server/client decisions: per-password crypto, config merging,
    demultiplexing clients by inner IPv4 address;
  * `backend.rs` — the trusted wrappers around `md-5`, `hkdf`/`sha1`,
    `aes-gcm`, `chacha20poly1305`, `x25519-dalek` and `rand`.
* `tests/` — executable tests of the library.
* `app/` — the `tsvpn` daemon (`tsvpn server …` / `tsvpn client …`): CLI and
  JSON config, UDP sockets, the TUN device, and the event loops.
