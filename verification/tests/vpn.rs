use ts_tunnel::vpn::config::{
    ClientArgs, ConfigError, ServerArgs, DEFAULT_CIPHER, DEFAULT_KEEPALIVE_SECS, DEFAULT_MTU,
    DEFAULT_NETMASK, DEFAULT_OBFS,
};
use ts_tunnel::vpn::crypto::{Crypto, CryptoSetupError};
use ts_tunnel::vpn::route::{
    client_inbound, ipv4_destination, ipv4_source, server_inbound, server_outbound, ClientTable,
    ServerOutbound,
};
use ts_tunnel::vpn::{keepalive_payload, MAX_DATAGRAM, MIN_IP_PACKET};
use ts_tunnel::{Cipher, CryptoError};

/// A literal `a.b.c.d:port` address, as four octets and a port.
fn parse_addr(s: String) -> Option<([u8; 4], u16)> {
    let (host, port) = s.rsplit_once(':')?;
    let port: u16 = port.parse().ok()?;
    let octets: Vec<u8> = host.split('.').map(|o| o.parse().ok()).collect::<Option<Vec<u8>>>()?;
    let octets: [u8; 4] = octets.try_into().ok()?;
    Some((octets, port))
}

#[test]
fn seal_open_round_trips_for_each_cipher_and_obfs() {
    for cipher in ["aes-128-gcm", "aes-256-gcm", "chacha20-poly1305"] {
        for obfs in ["none", "quic", "base64"] {
            let c = Crypto::new("hunter2", cipher, obfs).unwrap();
            let pkt = b"the inner IP packet";
            let wire = c.seal(pkt).unwrap();
            assert_eq!(c.open(&wire).as_deref(), Some(&pkt[..]), "{cipher}/{obfs}");
        }
    }
}

#[test]
fn wrong_password_fails_to_open() {
    let a = Crypto::new("right", "chacha20-poly1305", "none").unwrap();
    let b = Crypto::new("wrong", "chacha20-poly1305", "none").unwrap();
    let wire = a.seal(b"secret").unwrap();
    assert!(b.open(&wire).is_none());
}

#[test]
fn unknown_cipher_is_rejected() {
    assert!(Crypto::new("pw", "rc4-md5", "none").is_err());
}

#[test]
fn unknown_cipher_error_names_the_cipher() {
    match Crypto::new("pw", "rc4-md5", "none") {
        Err(CryptoSetupError::Cipher(CryptoError::UnknownCipher(name))) => {
            assert_eq!(name, "rc4-md5")
        }
        _ => panic!("expected an unknown-cipher error"),
    }
}

#[test]
fn two_ends_with_one_password_interoperate() {
    for obfs in ["none", "quic", "base64"] {
        let server = Crypto::new("shared", "aes-128-gcm", obfs).unwrap();
        let client = Crypto::new("shared", "aes-128-gcm", obfs).unwrap();
        assert_eq!(server.cipher(), Cipher::Aes128Gcm);
        let wire = client.seal(b"ping through the tunnel").unwrap();
        assert_eq!(server.open(&wire).unwrap(), b"ping through the tunnel");
    }
}

#[test]
fn server_cli_overrides_file_and_applies_defaults() {
    let args = ServerArgs {
        listen: Some("0.0.0.0:9999".into()),
        password: Some("pw".into()),
        cipher: Some("aes-256-gcm".into()),
        tun_ip: Some([10, 9, 0, 1]),
        ..Default::default()
    };
    let cfg = args.resolve(ServerArgs::default(), parse_addr).unwrap();
    assert_eq!(cfg.listen, ([0, 0, 0, 0], 9999));
    assert_eq!(cfg.cipher, "aes-256-gcm");
    assert_eq!(cfg.obfs, DEFAULT_OBFS);
    assert_eq!(cfg.tun_netmask, DEFAULT_NETMASK);
    assert_eq!(cfg.mtu, DEFAULT_MTU);
}

#[test]
fn server_missing_required_field_errors() {
    let args = ServerArgs { listen: Some("0.0.0.0:1".into()), ..Default::default() };
    assert!(matches!(
        args.resolve(ServerArgs::default(), parse_addr),
        Err(ConfigError::Missing("password"))
    ));
}

#[test]
fn client_defaults_keepalive_and_netmask() {
    let args = ClientArgs {
        server: Some("example.com:8388".into()),
        password: Some("pw".into()),
        tun_ip: Some([10, 9, 0, 2]),
        peer_ip: Some([10, 9, 0, 1]),
        ..Default::default()
    };
    let cfg = args.resolve(ClientArgs::default()).unwrap();
    assert_eq!(cfg.keepalive_secs, DEFAULT_KEEPALIVE_SECS);
    assert_eq!(cfg.tun_netmask, DEFAULT_NETMASK);
    assert_eq!(cfg.cipher, DEFAULT_CIPHER);
}

#[test]
fn bad_listen_address_errors() {
    let args = ServerArgs {
        listen: Some("not-an-address".into()),
        password: Some("pw".into()),
        tun_ip: Some([10, 9, 0, 1]),
        ..Default::default()
    };
    assert!(matches!(
        args.resolve(ServerArgs::default(), parse_addr),
        Err(ConfigError::Addr { .. })
    ));
}

#[test]
fn file_values_fill_in_and_cli_wins() {
    let cli = ServerArgs { mtu: Some(1300), ..Default::default() };
    let file = ServerArgs {
        listen: Some("127.0.0.1:8388".into()),
        password: Some("from-file".into()),
        tun_ip: Some([10, 9, 0, 1]),
        mtu: Some(1200),
        obfs: Some("quic".into()),
        ..Default::default()
    };
    let cfg = cli.resolve(file, parse_addr).unwrap();
    assert_eq!(cfg.mtu, 1300);
    assert_eq!(cfg.password, "from-file");
    assert_eq!(cfg.obfs, "quic");
    assert_eq!(cfg.tun_ip, [10, 9, 0, 1]);
}

#[test]
fn missing_listen_comes_first() {
    assert!(matches!(
        ServerArgs::default().resolve(ServerArgs::default(), parse_addr),
        Err(ConfigError::Missing("listen"))
    ));
    // A bad address is reported before a missing password.
    let args = ServerArgs { listen: Some("nope".into()), ..Default::default() };
    assert!(matches!(args.resolve(ServerArgs::default(), parse_addr), Err(ConfigError::Addr { .. })));
}

#[test]
fn client_missing_fields_in_order() {
    let r = ClientArgs::default().resolve(ClientArgs::default());
    assert!(matches!(r, Err(ConfigError::Missing("server"))));
    let args = ClientArgs {
        server: Some("s:1".into()),
        password: Some("pw".into()),
        tun_ip: Some([10, 0, 0, 2]),
        ..Default::default()
    };
    assert!(matches!(args.resolve(ClientArgs::default()), Err(ConfigError::Missing("peer_ip"))));
}

fn ipv4_packet(src: [u8; 4], dst: [u8; 4], len: usize) -> Vec<u8> {
    let mut p = vec![0u8; len];
    p[0] = 0x45;
    p[12..16].copy_from_slice(&src);
    p[16..20].copy_from_slice(&dst);
    p
}

#[test]
fn ipv4_addresses_are_read_from_the_header() {
    let p = ipv4_packet([10, 9, 0, 2], [8, 8, 8, 8], 28);
    assert_eq!(ipv4_source(&p), Some([10, 9, 0, 2]));
    assert_eq!(ipv4_destination(&p), Some([8, 8, 8, 8]));
    let mut v6 = p.clone();
    v6[0] = 0x60;
    assert_eq!(ipv4_source(&v6), None);
    assert_eq!(ipv4_destination(&p[..19]), None);
}

#[test]
fn server_learns_clients_and_routes_replies() {
    let crypto = Crypto::new("pw", "chacha20-poly1305", "quic").unwrap();
    let mut clients: ClientTable<u16> = ClientTable::new();
    let from_client = ipv4_packet([10, 9, 0, 2], [10, 9, 0, 1], 40);
    let wire = crypto.seal(&from_client).unwrap();
    assert_eq!(server_inbound(&crypto, &mut clients, &wire, 4000), Some(from_client.clone()));
    assert_eq!(clients.lookup(&[10, 9, 0, 2]), Some(4000));

    let reply = ipv4_packet([10, 9, 0, 1], [10, 9, 0, 2], 40);
    match server_outbound(&crypto, &clients, &reply) {
        ServerOutbound::Send { wire, to } => {
            assert_eq!(to, 4000);
            assert_eq!(client_inbound(&crypto, &wire), Some(reply));
        }
        _ => panic!("expected a datagram to send"),
    }
    let stranger = ipv4_packet([10, 9, 0, 1], [10, 9, 0, 3], 40);
    assert!(matches!(server_outbound(&crypto, &clients, &stranger), ServerOutbound::NoClient));
    assert!(matches!(server_outbound(&crypto, &clients, &[0x60u8; 40]), ServerOutbound::NotIpv4));
}

#[test]
fn keepalives_are_not_written_to_the_tun() {
    let crypto = Crypto::new("pw", "aes-128-gcm", "none").unwrap();
    let mut clients: ClientTable<u8> = ClientTable::new();
    let wire = crypto.seal(&keepalive_payload()).unwrap();
    assert_eq!(server_inbound(&crypto, &mut clients, &wire, 1), None);
    assert_eq!(clients.lookup(&[0, 0, 0, 0]), None);
    assert_eq!(client_inbound(&crypto, &wire), None);
    assert_eq!(keepalive_payload(), [0u8]);
    assert!(MIN_IP_PACKET == 20 && MAX_DATAGRAM == 65535 + 256);
}

#[test]
fn a_client_that_moves_is_found_at_its_new_address() {
    let mut clients: ClientTable<u32> = ClientTable::new();
    clients.learn([10, 0, 0, 5], 1);
    clients.learn([10, 0, 0, 6], 2);
    clients.learn([10, 0, 0, 5], 3);
    assert_eq!(clients.lookup(&[10, 0, 0, 5]), Some(3));
    assert_eq!(clients.lookup(&[10, 0, 0, 6]), Some(2));
    assert_eq!(clients.lookup(&[10, 0, 0, 7]), None);
}

/// The client table keeps one endpoint per inner address: relearning an
/// address replaces its endpoint and leaves the others alone.
#[test]
fn client_table_learns_and_replaces() {
    let mut table: ClientTable<u16> = ClientTable::new();
    assert_eq!(table.lookup(&[10, 9, 0, 2]), None);
    table.learn([10, 9, 0, 2], 1000);
    table.learn([10, 9, 0, 3], 2000);
    table.learn([2, 9, 0, 10], 3000);
    assert_eq!(table.lookup(&[10, 9, 0, 2]), Some(1000));
    table.learn([10, 9, 0, 2], 1001);
    assert_eq!(table.lookup(&[10, 9, 0, 2]), Some(1001));
    assert_eq!(table.lookup(&[10, 9, 0, 3]), Some(2000));
    assert_eq!(table.lookup(&[2, 9, 0, 10]), Some(3000));
    assert_eq!(table.lookup(&[10, 9, 0, 4]), None);
}
