use ts_tunnel::base64::{decode, encode};
use ts_tunnel::{Obfuscator, QuicObfs, QUIC_FIRST_BYTE};

/// RFC 4648, section 10.
#[test]
fn base64_rfc4648_vectors() {
    let cases: [(&[u8], &[u8]); 7] = [
        (b"", b""),
        (b"f", b"Zg=="),
        (b"fo", b"Zm8="),
        (b"foo", b"Zm9v"),
        (b"foob", b"Zm9vYg=="),
        (b"fooba", b"Zm9vYmE="),
        (b"foobar", b"Zm9vYmFy"),
    ];
    for (plain, text) in cases {
        assert_eq!(encode(plain), text.to_vec());
        assert_eq!(decode(text), Some(plain.to_vec()));
    }
}

#[test]
fn base64_uses_the_standard_alphabet() {
    assert_eq!(encode(&[0xfb, 0xff, 0xbf]), b"+/+/".to_vec());
    assert_eq!(decode(b"+/+/"), Some(vec![0xfb, 0xff, 0xbf]));
}

#[test]
fn base64_rejects_malformed_text() {
    assert_eq!(decode(b"Zg="), None); // length not a multiple of four
    assert_eq!(decode(b"Z*=="), None); // not in the alphabet
    assert_eq!(decode(b"Zh=="), None); // non-zero padding bits
    assert_eq!(decode(b"Zg==Zg=="), None); // padding before the end
    assert_eq!(decode(b"=Zg="), None);
}

#[test]
fn base64_round_trips_every_byte() {
    let data: Vec<u8> = (0..=255u8).collect();
    for n in 0..data.len() {
        assert_eq!(decode(&encode(&data[..n])), Some(data[..n].to_vec()));
    }
}

#[test]
fn quic_framing_layout() {
    let q = QuicObfs::with_connection_id([1, 2, 3, 4, 5, 6, 7, 8]);
    assert_eq!(q.connection_id(), [1, 2, 3, 4, 5, 6, 7, 8]);
    let wire = q.wrap_with_packet_number([9, 9, 9, 9], b"datagram");
    assert_eq!(wire[0], QUIC_FIRST_BYTE);
    assert_eq!(&wire[1..9], &[1, 2, 3, 4, 5, 6, 7, 8]);
    assert_eq!(&wire[9..13], &[9, 9, 9, 9]);
    assert_eq!(&wire[13..], b"datagram");
    assert_eq!(QuicObfs::unwrap(&wire), Some(b"datagram".to_vec()));
}

#[test]
fn quic_unwrap_rejects_long_headers_and_runts() {
    assert_eq!(QuicObfs::unwrap(&[]), None);
    assert_eq!(QuicObfs::unwrap(&[0xc3; 40]), None); // long header form
    assert_eq!(QuicObfs::unwrap(&[0x03; 40]), None); // fixed bit clear
    assert_eq!(QuicObfs::unwrap(&[0x43; 12]), None); // shorter than its header
    // A one-byte packet number makes a 10-byte header.
    assert_eq!(QuicObfs::unwrap(&[0x40, 0, 0, 0, 0, 0, 0, 0, 0, 0, 7]), Some(vec![7]));
}

#[test]
fn obfuscators_round_trip() {
    for name in ["none", "quic", "base64", "something-else"] {
        let o = Obfuscator::from_name(name);
        for len in [0usize, 1, 2, 3, 47, 100] {
            let d: Vec<u8> = (0..len).map(|i| i as u8).collect();
            let w = o.wrap(&d);
            assert_eq!(o.unwrap(&w), Some(d.clone()), "{name}/{len}");
        }
    }
}

#[test]
fn obfuscator_names() {
    assert!(matches!(Obfuscator::from_name("quic"), Obfuscator::Quic(_)));
    assert_eq!(Obfuscator::from_name("base64"), Obfuscator::Base64);
    assert_eq!(Obfuscator::from_name("none"), Obfuscator::Plain);
    assert_eq!(Obfuscator::from_name("rot13"), Obfuscator::Plain);
    assert_eq!(Obfuscator::Plain.wrap(b"abc"), b"abc".to_vec());
    assert_eq!(Obfuscator::Base64.wrap(b"abc"), b"YWJj".to_vec());
}

#[test]
fn quic_wraps_differ_in_packet_number() {
    let o = Obfuscator::from_name("quic");
    let a = o.wrap(&[0u8; 64]);
    let b = o.wrap(&[0u8; 64]);
    assert_eq!(a.len(), 13 + 64);
    assert_eq!(a[..9], b[..9]);
    assert_ne!(a[9..13], b[9..13]);
}
