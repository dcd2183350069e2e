[package]
name = "ts_tunnel"
version = "0.1.0"
edition = "2021"
publish = false

[dependencies]
aead = "0.5"
aes-gcm = "0.10"
chacha20poly1305 = "0.10"
hkdf = "0.12"
sha1 = "0.10"
md-5 = "0.10"
rand = "*"
x25519-dalek = "2"
clap = { version = "4", features = ["derive"] }
serde = { version = "1", features = ["derive"] }
serde_json = "1"
thiserror = "2"
tokio = { version = "1", features = ["macros", "rt-multi-thread", "net", "time", "sync"] }
tracing = "0.1"
tracing-subscriber = { version = "0.3", features = ["env-filter"] }
tun-rs = { version = "2", features = ["async"] }
