//! Carrier obfuscation: how an encrypted datagram is framed on the wire.
//!
//! * `none` sends the datagram as it is;
//! * `quic` prefixes a QUIC 1-RTT short header (fixed bit set, a 4-byte packet
//!   number, and this endpoint's 8-byte destination connection ID), so the
//!   carrier reads as HTTP/3;
//! * `base64` sends the standard base64 text of the datagram.
//!
//! This is cosmetic framing only; it adds no security. Both ends must agree on
//! the mode: a mismatched peer's datagrams fail to unwrap (or to decrypt) and
//! are dropped.

use vstd::prelude::*;

use crate::backend::random_bytes;
use crate::base64::{decode, encode, lemma_decode_encode, spec_decode, spec_encode};
use crate::crypto::str_is;
use vstd::slice::slice_to_vec;

verus! {

/// Length in bytes of the destination connection ID in the QUIC header.
pub const QUIC_CID_LEN: usize = 8;

/// Length in bytes of the packet number this endpoint writes.
pub const QUIC_PN_LEN: usize = 4;

/// The first header byte this endpoint writes: short header form (top bit
/// clear), fixed bit set, spin/reserved/key-phase bits clear, packet number
/// length 4 (encoded as 3 in the low two bits).
pub const QUIC_FIRST_BYTE: u8 = 0x43;

/// QUIC short-header framing with a fixed destination connection ID.
#[derive(Debug, Clone, Copy, PartialEq, Eq)]
pub struct QuicObfs {
    cid: [u8; 8],
}

/// The length of the short header that a first byte announces: the byte
/// itself, the connection ID, and a packet number of 1 to 4 bytes.
pub open spec fn quic_header_len(first: u8) -> nat {
    (1 + 8 + (first & 3) + 1) as nat
}

/// Whether `first` is a QUIC short-header first byte: header form bit clear
/// and fixed bit set.
pub open spec fn is_short_header(first: u8) -> bool {
    first & 0xc0 == 0x40
}

/// The datagram inside a QUIC-framed wire packet, if it is one.
pub open spec fn spec_quic_unwrap(wire: Seq<u8>) -> Option<Seq<u8>> {
    if wire.len() >= 1 && is_short_header(wire[0]) && wire.len() >= quic_header_len(wire[0]) {
        Some(wire.subrange(quic_header_len(wire[0]) as int, wire.len() as int))
    } else {
        None
    }
}

/// The QUIC-framed wire packet for `datagram`.
pub open spec fn spec_quic_wrap(cid: Seq<u8>, packet_number: Seq<u8>, datagram: Seq<u8>) -> Seq<
    u8,
> {
    seq![QUIC_FIRST_BYTE] + cid + packet_number + datagram
}

impl QuicObfs {
    /// The destination connection ID written into every header.
    pub closed spec fn spec_cid(self) -> Seq<u8> {
        self.cid@
    }

    /// A framing with a fresh random destination connection ID.
    pub fn new() -> (r: QuicObfs) {
        let bytes = random_bytes(QUIC_CID_LEN);
        let mut cid = [0u8; 8];
        let mut i: usize = 0;
        while i < QUIC_CID_LEN
            invariant
                bytes@.len() == QUIC_CID_LEN,
                i <= QUIC_CID_LEN,
            decreases QUIC_CID_LEN - i,
        {
            cid[i] = bytes[i];
            i = i + 1;
        }
        QuicObfs { cid }
    }

    /// A framing with the given destination connection ID.
    pub fn with_connection_id(cid: [u8; 8]) -> (r: QuicObfs)
        ensures
            r.spec_cid() == cid@,
    {
        QuicObfs { cid }
    }

    /// The destination connection ID written into every header.
    pub fn connection_id(&self) -> (r: [u8; 8])
        ensures
            r@ == self.spec_cid(),
    {
        self.cid
    }

    /// Frame `datagram` behind a short header carrying `packet_number`.
    pub fn wrap_with_packet_number(&self, packet_number: [u8; 4], datagram: &[u8]) -> (r: Vec<u8>)
        ensures
            r@ == spec_quic_wrap(self.spec_cid(), packet_number@, datagram@),
    {
        let mut out: Vec<u8> = Vec::new();
        out.push(QUIC_FIRST_BYTE);
        let mut i: usize = 0;
        while i < QUIC_CID_LEN
            invariant
                i <= QUIC_CID_LEN,
                self.cid@.len() == QUIC_CID_LEN,
                out@ =~= seq![QUIC_FIRST_BYTE] + self.cid@.subrange(0, i as int),
            decreases QUIC_CID_LEN - i,
        {
            out.push(self.cid[i]);
            i = i + 1;
        }
        let mut j: usize = 0;
        while j < QUIC_PN_LEN
            invariant
                j <= QUIC_PN_LEN,
                packet_number@.len() == QUIC_PN_LEN,
                self.cid@.len() == QUIC_CID_LEN,
                out@ =~= seq![QUIC_FIRST_BYTE] + self.cid@ + packet_number@.subrange(0, j as int),
            decreases QUIC_PN_LEN - j,
        {
            out.push(packet_number[j]);
            j = j + 1;
        }
        let mut k: usize = 0;
        while k < datagram.len()
            invariant
                k <= datagram@.len(),
                packet_number@.len() == QUIC_PN_LEN,
                self.cid@.len() == QUIC_CID_LEN,
                out@ =~= seq![QUIC_FIRST_BYTE] + self.cid@ + packet_number@ + datagram@.subrange(
                    0,
                    k as int,
                ),
            decreases datagram@.len() - k,
        {
            out.push(datagram[k]);
            k = k + 1;
        }
        out
    }

    /// Strip a short header, returning the datagram behind it; `None` when
    /// `wire` is too short or is not a short-header packet.
    pub fn unwrap(wire: &[u8]) -> (r: Option<Vec<u8>>)
        ensures
            match spec_quic_unwrap(wire@) {
                Some(d) => r matches Some(v) && v@ == d,
                None => r is None,
            },
    {
        if wire.len() < 1 {
            return None;
        }
        let first = wire[0];
        if first & 0xc0 != 0x40 {
            return None;
        }
        let header_len = 1 + QUIC_CID_LEN + ((first & 3) as usize) + 1;
        if wire.len() < header_len {
            return None;
        }
        let mut out: Vec<u8> = Vec::new();
        let mut i = header_len;
        while i < wire.len()
            invariant
                header_len <= i <= wire@.len(),
                out@ =~= wire@.subrange(header_len as int, i as int),
            decreases wire@.len() - i,
        {
            out.push(wire[i]);
            i = i + 1;
        }
        Some(out)
    }
}

proof fn lemma_quic_first_byte()
    ensures
        is_short_header(QUIC_FIRST_BYTE),
        quic_header_len(QUIC_FIRST_BYTE) == 1 + QUIC_CID_LEN + QUIC_PN_LEN,
{
    assert(0x43u8 & 0xc0 == 0x40) by (bit_vector);
    assert(0x43u8 & 3 == 3) by (bit_vector);
}

/// A short-header framing unwraps to the datagram it framed.
pub proof fn lemma_quic_unwrap_wrap(cid: Seq<u8>, packet_number: Seq<u8>, datagram: Seq<u8>)
    requires
        cid.len() == QUIC_CID_LEN,
        packet_number.len() == QUIC_PN_LEN,
    ensures
        spec_quic_unwrap(spec_quic_wrap(cid, packet_number, datagram)) == Some(datagram),
{
    lemma_quic_first_byte();
    let w = spec_quic_wrap(cid, packet_number, datagram);
    assert(w[0] == QUIC_FIRST_BYTE);
    assert(w.subrange(13, w.len() as int) =~= datagram);
}

/// The carrier obfuscation applied to every datagram on the wire.
#[derive(Debug, Clone, Copy, PartialEq, Eq)]
pub enum Obfuscator {
    /// The datagram is sent as it is.
    Plain,
    /// The datagram is framed as a QUIC 1-RTT short-header packet.
    Quic(QuicObfs),
    /// The datagram is sent as standard base64 text.
    Base64,
}

impl Obfuscator {
    /// The datagram inside a wire packet, if it is framed as this mode frames
    /// datagrams.
    pub open spec fn spec_unwrap(self, wire: Seq<u8>) -> Option<Seq<u8>> {
        match self {
            Obfuscator::Plain => Some(wire),
            Obfuscator::Quic(_) => spec_quic_unwrap(wire),
            Obfuscator::Base64 => spec_decode(wire),
        }
    }

    /// Whether `wire` is a framing of `datagram` in this mode. A QUIC framing
    /// may carry any packet number.
    pub open spec fn is_framing(self, datagram: Seq<u8>, wire: Seq<u8>) -> bool {
        match self {
            Obfuscator::Plain => wire == datagram,
            Obfuscator::Quic(q) => exists|pn: Seq<u8>|
                pn.len() == QUIC_PN_LEN && wire == #[trigger] spec_quic_wrap(q.spec_cid(), pn, datagram),
            Obfuscator::Base64 => wire == spec_encode(datagram),
        }
    }

    /// Parse an obfuscation mode from its name: `"quic"` (with a fresh random
    /// connection ID), `"base64"`, and anything else (`"none"` included) means
    /// no obfuscation.
    pub fn from_name(name: &str) -> (r: Obfuscator)
        ensures
            (r is Quic) == (name@ == "quic"@),
            (r is Base64) == (name@ == "base64"@),
    {
        proof {
            reveal_strlit("quic");
            reveal_strlit("base64");
            assert("quic"@.len() != "base64"@.len());
        }
        if str_is(name, "quic") {
            Obfuscator::Quic(QuicObfs::new())
        } else if str_is(name, "base64") {
            Obfuscator::Base64
        } else {
            Obfuscator::Plain
        }
    }

    /// Frame an encrypted datagram for the wire.
    pub fn wrap(&self, datagram: &[u8]) -> (r: Vec<u8>)
        ensures
            self.is_framing(datagram@, r@),
            self.spec_unwrap(r@) == Some(datagram@),
    {
        match self {
            Obfuscator::Plain => slice_to_vec(datagram),
            Obfuscator::Quic(q) => {
                let bytes = random_bytes(QUIC_PN_LEN);
                let pn: [u8; 4] = [bytes[0], bytes[1], bytes[2], bytes[3]];
                let r = q.wrap_with_packet_number(pn, datagram);
                proof {
                    lemma_quic_unwrap_wrap(q.spec_cid(), pn@, datagram@);
                    assert(q.cid@.len() == QUIC_CID_LEN);
                }
                r
            },
            Obfuscator::Base64 => {
                proof {
                    lemma_decode_encode(datagram@);
                }
                encode(datagram)
            },
        }
    }

    /// Recover the encrypted datagram from a wire packet; `None` when the
    /// packet is not framed as this mode frames datagrams.
    pub fn unwrap(&self, wire: &[u8]) -> (r: Option<Vec<u8>>)
        ensures
            match self.spec_unwrap(wire@) {
                Some(d) => r matches Some(v) && v@ == d,
                None => r is None,
            },
    {
        match self {
            Obfuscator::Plain => Some(slice_to_vec(wire)),
            Obfuscator::Quic(_) => QuicObfs::unwrap(wire),
            Obfuscator::Base64 => decode(wire),
        }
    }
}

/// Whether two obfuscators frame datagrams the same way (a QUIC framing
/// unwraps whatever connection ID it carries).
pub open spec fn same_framing(a: Obfuscator, b: Obfuscator) -> bool {
    ||| (a is Plain && b is Plain)
    ||| (a is Quic && b is Quic)
    ||| (a is Base64 && b is Base64)
}

/// Obfuscators of the same mode unwrap every wire packet alike.
pub proof fn lemma_same_framing_unwraps_alike(a: Obfuscator, b: Obfuscator, wire: Seq<u8>)
    requires
        same_framing(a, b),
    ensures
        a.spec_unwrap(wire) == b.spec_unwrap(wire),
{
}

/// Whatever mode frames a datagram, unwrapping the framing gives the datagram
/// back.
pub proof fn lemma_unwrap_framing(obfs: Obfuscator, datagram: Seq<u8>, wire: Seq<u8>)
    requires
        obfs.is_framing(datagram, wire),
    ensures
        obfs.spec_unwrap(wire) == Some(datagram),
{
    match obfs {
        Obfuscator::Plain => {},
        Obfuscator::Quic(q) => {
            let pn = choose|pn: Seq<u8>|
                pn.len() == QUIC_PN_LEN && wire == #[trigger] spec_quic_wrap(q.spec_cid(), pn, datagram);
            assert(q.cid@.len() == QUIC_CID_LEN);
            lemma_quic_unwrap_wrap(q.spec_cid(), pn, datagram);
        },
        Obfuscator::Base64 => {
            lemma_decode_encode(datagram);
        },
    }
}

} // verus!
