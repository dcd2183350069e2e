//! Configuration for the server and client daemons.
//!
//! Each role has one set of optional fields that come from CLI flags or a JSON
//! config file. [`ServerArgs::resolve`] / [`ClientArgs::resolve`] merge them —
//! **CLI values take precedence over the file** — and apply defaults,
//! validating that the required fields are present. Reading the file, and
//! parsing socket addresses, are left to the caller.

use vstd::prelude::*;

verus! {

/// Default AEAD cipher when none is configured.
pub const DEFAULT_CIPHER: &'static str = "chacha20-poly1305";

/// Default carrier obfuscation when none is configured.
pub const DEFAULT_OBFS: &'static str = "none";

/// Default TUN netmask.
pub const DEFAULT_NETMASK: [u8; 4] = [255, 255, 255, 0];

/// Default TUN MTU.
pub const DEFAULT_MTU: u16 = 1400;

/// Default client keepalive interval, in seconds.
pub const DEFAULT_KEEPALIVE_SECS: u64 = 25;

/// An I/O error.
#[verifier::external_type_specification]
#[verifier::external_body]
pub struct ExIoError(std::io::Error);

/// A JSON parse error.
#[verifier::external_type_specification]
#[verifier::external_body]
pub struct ExJsonError(serde_json::Error);

/// Errors resolving a configuration.
#[derive(Debug)]
#[allow(inconsistent_fields)]
pub enum ConfigError {
    /// The config file could not be read.
    Read {
        /// The path that failed to read.
        path: String,
        /// The underlying I/O error.
        source: std::io::Error,
    },
    /// The config file was not valid JSON.
    Parse {
        /// The path that failed to parse.
        path: String,
        /// The underlying JSON error.
        source: serde_json::Error,
    },
    /// A required field was not supplied by either the CLI or the file.
    Missing(&'static str),
    /// A `host:port` value could not be parsed.
    Addr {
        /// The field name.
        field: &'static str,
        /// The offending value.
        value: String,
    },
}

/// A value from the CLI if there is one, else from the file.
pub open spec fn merged<T>(cli: Option<T>, file: Option<T>) -> Option<T> {
    match cli {
        Some(v) => Some(v),
        None => file,
    }
}

/// A merged value, or `default` when neither source has one.
pub open spec fn merged_or<T>(cli: Option<T>, file: Option<T>, default: T) -> T {
    match merged(cli, file) {
        Some(v) => v,
        None => default,
    }
}

/// A setting given on the command line wins; one given only in the file is
/// taken from the file; the default applies only when neither gives one.
pub proof fn lemma_cli_over_file_over_default<T>(cli: Option<T>, file: Option<T>, default: T)
    ensures
        cli is Some ==> merged(cli, file) == cli && merged_or(cli, file, default) == cli->0,
        cli is None && file is Some ==> merged(cli, file) == file && merged_or(cli, file, default)
            == file->0,
        cli is None && file is None ==> merged(cli, file) is None && merged_or(cli, file, default)
            == default,
{
}

/// The CLI value if there is one, else the file's.
fn merge<T>(cli: Option<T>, file: Option<T>) -> (r: Option<T>)
    ensures
        r == merged(cli, file),
{
    match cli {
        Some(v) => Some(v),
        None => file,
    }
}

/// The default netmask as a value.
pub open spec fn default_netmask() -> [u8; 4] {
    [255u8, 255, 255, 0]
}

/// Server settings, from CLI flags and/or a JSON config file; every field is
/// optional until resolved.
pub struct ServerArgs {
    /// UDP address to bind and listen on (e.g. `0.0.0.0:8388`).
    pub listen: Option<String>,
    /// Pre-shared password shared by the server and all clients.
    pub password: Option<String>,
    /// AEAD cipher: `aes-128-gcm` | `aes-256-gcm` | `chacha20-poly1305`.
    pub cipher: Option<String>,
    /// Carrier obfuscation: `none` | `quic` | `base64` (all peers must match).
    pub obfs: Option<String>,
    /// Explicit TUN interface name.
    pub tun_name: Option<String>,
    /// The server's own IPv4 address on the tunnel subnet.
    pub tun_ip: Option<[u8; 4]>,
    /// IPv4 netmask defining the tunnel subnet.
    pub tun_netmask: Option<[u8; 4]>,
    /// TUN interface MTU.
    pub mtu: Option<u16>,
}

impl Default for ServerArgs {
    fn default() -> (r: ServerArgs)
        ensures
            r.listen is None && r.password is None && r.cipher is None && r.obfs is None
                && r.tun_name is None && r.tun_ip is None && r.tun_netmask is None && r.mtu is None,
    {
        ServerArgs {
            listen: None,
            password: None,
            cipher: None,
            obfs: None,
            tun_name: None,
            tun_ip: None,
            tun_netmask: None,
            mtu: None,
        }
    }
}

/// A fully resolved, validated server configuration, with the listen address
/// of type `A`.
pub struct ServerConfig<A> {
    /// UDP bind address.
    pub listen: A,
    /// Pre-shared password.
    pub password: String,
    /// AEAD cipher name.
    pub cipher: String,
    /// Carrier obfuscation name.
    pub obfs: String,
    /// Explicit TUN name, if any.
    pub tun_name: Option<String>,
    /// Server tunnel IPv4 address.
    pub tun_ip: [u8; 4],
    /// Tunnel subnet netmask.
    pub tun_netmask: [u8; 4],
    /// TUN MTU.
    pub mtu: u16,
}

impl ServerArgs {
    /// Merge these CLI args over the `file` args and apply defaults, producing
    /// a validated [`ServerConfig`]; `parse_addr` parses the listen address.
    ///
    /// The checks run in this order: `listen` present, `listen` parses,
    /// `password` present, `tun_ip` present.
    pub fn resolve<A, F: Fn(String) -> Option<A>>(self, file: ServerArgs, parse_addr: F) -> (r:
        Result<ServerConfig<A>, ConfigError>)
        requires
            forall|s: String| call_requires(parse_addr, (s,)),
        ensures
            merged(self.listen, file.listen) is None ==> (r matches Err(ConfigError::Missing(f))
                && f@ == "listen"@),
            r matches Err(ConfigError::Addr { field, value }) ==> field@ == "listen"@ && merged(
                self.listen,
                file.listen,
            ) == Some(value) && call_ensures(parse_addr, (value,), None),
            r matches Err(ConfigError::Missing(f)) ==> (f@ == "listen"@ && merged(
                self.listen,
                file.listen,
            ) is None) || (f@ == "password"@ && merged(self.password, file.password) is None
                && (merged(self.listen, file.listen) matches Some(l) && exists|a: A|
                call_ensures(parse_addr, (l,), Some(a)))) || (f@ == "tun_ip"@ && merged(
                self.tun_ip,
                file.tun_ip,
            ) is None && merged(self.password, file.password) is Some && (merged(
                self.listen,
                file.listen,
            ) matches Some(l) && exists|a: A| call_ensures(parse_addr, (l,), Some(a)))),
            r is Err ==> (r matches Err(ConfigError::Missing(_)) || r matches Err(
                ConfigError::Addr { .. },
            )),
            r matches Ok(cfg) ==> (merged(self.listen, file.listen) matches Some(l) && call_ensures(
                parse_addr,
                (l,),
                Some(cfg.listen),
            )) && Some(cfg.password) == merged(self.password, file.password) && cfg.cipher@
                == (match merged(self.cipher, file.cipher) {
                Some(c) => c@,
                None => DEFAULT_CIPHER@,
            }) && cfg.obfs@ == (match merged(self.obfs, file.obfs) {
                Some(o) => o@,
                None => DEFAULT_OBFS@,
            }) && cfg.tun_name == merged(self.tun_name, file.tun_name) && Some(cfg.tun_ip)
                == merged(self.tun_ip, file.tun_ip) && cfg.tun_netmask == merged_or(
                self.tun_netmask,
                file.tun_netmask,
                default_netmask(),
            ) && cfg.mtu == merged_or(self.mtu, file.mtu, DEFAULT_MTU),
            (merged(self.listen, file.listen) matches Some(l) && (forall|p: Option<A>|
                call_ensures(parse_addr, (l,), p) ==> p is Some) && merged(
                self.password,
                file.password,
            ) is Some && merged(self.tun_ip, file.tun_ip) is Some) ==> r is Ok,
            r matches Ok(cfg) ==> ((self.mtu is Some ==> cfg.mtu == self.mtu->0) && (
            self.mtu is None && file.mtu is Some ==> cfg.mtu == file.mtu->0) && (
            self.mtu is None && file.mtu is None ==> cfg.mtu == DEFAULT_MTU)),
            r matches Ok(cfg) ==> ((self.tun_netmask is Some ==> cfg.tun_netmask == self.tun_netmask->0) && (
            self.tun_netmask is None && file.tun_netmask is Some ==> cfg.tun_netmask == file.tun_netmask->0) && (
            self.tun_netmask is None && file.tun_netmask is None ==> cfg.tun_netmask@ == seq![255u8, 255, 255, 0])),
            r matches Ok(cfg) ==> (self.tun_name is Some ==> cfg.tun_name == self.tun_name) && (
            self.tun_name is None ==> cfg.tun_name == file.tun_name),
            r matches Ok(cfg) ==> ((self.cipher is Some ==> cfg.cipher@ == self.cipher->0@) && (
            self.cipher is None && file.cipher is Some ==> cfg.cipher@ == file.cipher->0@) && (
            self.cipher is None && file.cipher is None ==> cfg.cipher@ == DEFAULT_CIPHER@)),
            r matches Ok(cfg) ==> ((self.obfs is Some ==> cfg.obfs@ == self.obfs->0@) && (
            self.obfs is None && file.obfs is Some ==> cfg.obfs@ == file.obfs->0@) && (
            self.obfs is None && file.obfs is None ==> cfg.obfs@ == DEFAULT_OBFS@)),
            r matches Ok(cfg) ==> ((self.password is Some ==> cfg.password == self.password->0) && (
            self.password is None ==> file.password == Some(cfg.password))),
            r matches Ok(cfg) ==> ((self.tun_ip is Some ==> cfg.tun_ip == self.tun_ip->0) && (
            self.tun_ip is None ==> file.tun_ip == Some(cfg.tun_ip))),
    {
        let listen = match merge(self.listen, file.listen) {
            Some(l) => l,
            None => {
                return Err(ConfigError::Missing("listen"));
            },
        };
        let ghost listen_value = listen;
        let listen = match parse_addr(listen.clone()) {
            Some(a) => a,
            None => {
                return Err(ConfigError::Addr { field: "listen", value: listen });
            },
        };
        let password = match merge(self.password, file.password) {
            Some(p) => p,
            None => {
                return Err(ConfigError::Missing("password"));
            },
        };
        let cipher = match merge(self.cipher, file.cipher) {
            Some(c) => c,
            None => DEFAULT_CIPHER.to_owned(),
        };
        let obfs = match merge(self.obfs, file.obfs) {
            Some(o) => o,
            None => DEFAULT_OBFS.to_owned(),
        };
        let tun_name = merge(self.tun_name, file.tun_name);
        let tun_ip = match merge(self.tun_ip, file.tun_ip) {
            Some(ip) => ip,
            None => {
                return Err(ConfigError::Missing("tun_ip"));
            },
        };
        let tun_netmask = match merge(self.tun_netmask, file.tun_netmask) {
            Some(m) => m,
            None => DEFAULT_NETMASK,
        };
        let mtu = match merge(self.mtu, file.mtu) {
            Some(m) => m,
            None => DEFAULT_MTU,
        };
        Ok(ServerConfig { listen, password, cipher, obfs, tun_name, tun_ip, tun_netmask, mtu })
    }
}

/// Client settings, from CLI flags and/or a JSON config file; every field is
/// optional until resolved.
pub struct ClientArgs {
    /// Remote server address to connect to (e.g. `vpn.example.com:8388`).
    pub server: Option<String>,
    /// Pre-shared password shared with the server.
    pub password: Option<String>,
    /// AEAD cipher: `aes-128-gcm` | `aes-256-gcm` | `chacha20-poly1305`.
    pub cipher: Option<String>,
    /// Carrier obfuscation: `none` | `quic` | `base64` (must match the server).
    pub obfs: Option<String>,
    /// Explicit TUN interface name.
    pub tun_name: Option<String>,
    /// This client's IPv4 address on the tunnel subnet (must be unique).
    pub tun_ip: Option<[u8; 4]>,
    /// The server's tunnel IPv4 address (point-to-point peer).
    pub peer_ip: Option<[u8; 4]>,
    /// IPv4 netmask for the TUN interface.
    pub tun_netmask: Option<[u8; 4]>,
    /// TUN interface MTU.
    pub mtu: Option<u16>,
    /// Keepalive interval in seconds (0 disables keepalives).
    pub keepalive_secs: Option<u64>,
}

impl Default for ClientArgs {
    fn default() -> (r: ClientArgs)
        ensures
            r.server is None && r.password is None && r.cipher is None && r.obfs is None
                && r.tun_name is None && r.tun_ip is None && r.peer_ip is None && r.tun_netmask is None
                && r.mtu is None && r.keepalive_secs is None,
    {
        ClientArgs {
            server: None,
            password: None,
            cipher: None,
            obfs: None,
            tun_name: None,
            tun_ip: None,
            peer_ip: None,
            tun_netmask: None,
            mtu: None,
            keepalive_secs: None,
        }
    }
}

/// A fully resolved, validated client configuration.
pub struct ClientConfig {
    /// Remote server `host:port`.
    pub server: String,
    /// Pre-shared password.
    pub password: String,
    /// AEAD cipher name.
    pub cipher: String,
    /// Carrier obfuscation name.
    pub obfs: String,
    /// Explicit TUN name, if any.
    pub tun_name: Option<String>,
    /// Client tunnel IPv4 address.
    pub tun_ip: [u8; 4],
    /// Server tunnel IPv4 address (point-to-point peer).
    pub peer_ip: [u8; 4],
    /// TUN netmask.
    pub tun_netmask: [u8; 4],
    /// TUN MTU.
    pub mtu: u16,
    /// Keepalive interval in seconds (0 disables).
    pub keepalive_secs: u64,
}

impl ClientArgs {
    /// Merge these CLI args over the `file` args and apply defaults, producing
    /// a validated [`ClientConfig`].
    ///
    /// The checks run in this order: `server`, `password`, `tun_ip`,
    /// `peer_ip` present.
    pub fn resolve(self, file: ClientArgs) -> (r: Result<ClientConfig, ConfigError>)
        ensures
            r is Err <==> (merged(self.server, file.server) is None || merged(
                self.password,
                file.password,
            ) is None || merged(self.tun_ip, file.tun_ip) is None || merged(
                self.peer_ip,
                file.peer_ip,
            ) is None),
            r matches Err(e) ==> (e matches ConfigError::Missing(f) && f@ == (if merged(
                self.server,
                file.server,
            ) is None {
                "server"@
            } else if merged(self.password, file.password) is None {
                "password"@
            } else if merged(self.tun_ip, file.tun_ip) is None {
                "tun_ip"@
            } else {
                "peer_ip"@
            })),
            r matches Ok(cfg) ==> Some(cfg.server) == merged(self.server, file.server) && Some(
                cfg.password,
            ) == merged(self.password, file.password) && cfg.cipher@ == (match merged(
                self.cipher,
                file.cipher,
            ) {
                Some(c) => c@,
                None => DEFAULT_CIPHER@,
            }) && cfg.obfs@ == (match merged(self.obfs, file.obfs) {
                Some(o) => o@,
                None => DEFAULT_OBFS@,
            }) && cfg.tun_name == merged(self.tun_name, file.tun_name) && Some(cfg.tun_ip)
                == merged(self.tun_ip, file.tun_ip) && Some(cfg.peer_ip) == merged(
                self.peer_ip,
                file.peer_ip,
            ) && cfg.tun_netmask == merged_or(self.tun_netmask, file.tun_netmask, default_netmask())
                && cfg.mtu == merged_or(self.mtu, file.mtu, DEFAULT_MTU) && cfg.keepalive_secs
                == merged_or(self.keepalive_secs, file.keepalive_secs, DEFAULT_KEEPALIVE_SECS),
            r matches Ok(cfg) ==> ((self.mtu is Some ==> cfg.mtu == self.mtu->0) && (
            self.mtu is None && file.mtu is Some ==> cfg.mtu == file.mtu->0) && (
            self.mtu is None && file.mtu is None ==> cfg.mtu == DEFAULT_MTU)),
            r matches Ok(cfg) ==> ((self.tun_netmask is Some ==> cfg.tun_netmask == self.tun_netmask->0) && (
            self.tun_netmask is None && file.tun_netmask is Some ==> cfg.tun_netmask == file.tun_netmask->0) && (
            self.tun_netmask is None && file.tun_netmask is None ==> cfg.tun_netmask@ == seq![255u8, 255, 255, 0])),
            r matches Ok(cfg) ==> (self.tun_name is Some ==> cfg.tun_name == self.tun_name) && (
            self.tun_name is None ==> cfg.tun_name == file.tun_name),
            r matches Ok(cfg) ==> ((self.keepalive_secs is Some ==> cfg.keepalive_secs == self.keepalive_secs->0) && (
            self.keepalive_secs is None && file.keepalive_secs is Some ==> cfg.keepalive_secs == file.keepalive_secs->0) && (
            self.keepalive_secs is None && file.keepalive_secs is None ==> cfg.keepalive_secs == DEFAULT_KEEPALIVE_SECS)),
            r matches Ok(cfg) ==> ((self.cipher is Some ==> cfg.cipher@ == self.cipher->0@) && (
            self.cipher is None && file.cipher is Some ==> cfg.cipher@ == file.cipher->0@) && (
            self.cipher is None && file.cipher is None ==> cfg.cipher@ == DEFAULT_CIPHER@)),
            r matches Ok(cfg) ==> ((self.obfs is Some ==> cfg.obfs@ == self.obfs->0@) && (
            self.obfs is None && file.obfs is Some ==> cfg.obfs@ == file.obfs->0@) && (
            self.obfs is None && file.obfs is None ==> cfg.obfs@ == DEFAULT_OBFS@)),
            r matches Ok(cfg) ==> ((self.password is Some ==> cfg.password == self.password->0) && (
            self.password is None ==> file.password == Some(cfg.password))),
            r matches Ok(cfg) ==> ((self.tun_ip is Some ==> cfg.tun_ip == self.tun_ip->0) && (
            self.tun_ip is None ==> file.tun_ip == Some(cfg.tun_ip))),
            r matches Ok(cfg) ==> ((self.server is Some ==> cfg.server == self.server->0) && (
            self.server is None ==> file.server == Some(cfg.server))),
            r matches Ok(cfg) ==> ((self.peer_ip is Some ==> cfg.peer_ip == self.peer_ip->0) && (
            self.peer_ip is None ==> file.peer_ip == Some(cfg.peer_ip))),
    {
        let server = match merge(self.server, file.server) {
            Some(s) => s,
            None => {
                return Err(ConfigError::Missing("server"));
            },
        };
        let password = match merge(self.password, file.password) {
            Some(p) => p,
            None => {
                return Err(ConfigError::Missing("password"));
            },
        };
        let cipher = match merge(self.cipher, file.cipher) {
            Some(c) => c,
            None => DEFAULT_CIPHER.to_owned(),
        };
        let obfs = match merge(self.obfs, file.obfs) {
            Some(o) => o,
            None => DEFAULT_OBFS.to_owned(),
        };
        let tun_name = merge(self.tun_name, file.tun_name);
        let tun_ip = match merge(self.tun_ip, file.tun_ip) {
            Some(ip) => ip,
            None => {
                return Err(ConfigError::Missing("tun_ip"));
            },
        };
        let peer_ip = match merge(self.peer_ip, file.peer_ip) {
            Some(ip) => ip,
            None => {
                return Err(ConfigError::Missing("peer_ip"));
            },
        };
        let tun_netmask = match merge(self.tun_netmask, file.tun_netmask) {
            Some(m) => m,
            None => DEFAULT_NETMASK,
        };
        let mtu = match merge(self.mtu, file.mtu) {
            Some(m) => m,
            None => DEFAULT_MTU,
        };
        let keepalive_secs = match merge(self.keepalive_secs, file.keepalive_secs) {
            Some(k) => k,
            None => DEFAULT_KEEPALIVE_SECS,
        };
        Ok(
            ClientConfig {
                server,
                password,
                cipher,
                obfs,
                tun_name,
                tun_ip,
                peer_ip,
                tun_netmask,
                mtu,
                keepalive_secs,
            },
        )
    }
}

} // verus!
