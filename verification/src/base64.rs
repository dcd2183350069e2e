//! Standard base64 (RFC 4648 alphabet, `=` padding) over bytes, used by the
//! `base64` carrier obfuscation.
//!
//! Decoding is strict: the input length must be a multiple of four, every
//! character must be in the alphabet, padding may only close the last group,
//! and the bits that padding leaves unused must be zero. Exactly the outputs of
//! [`encode`] decode.

use vstd::prelude::*;

verus! {

/// The padding character `=`.
pub open spec fn pad() -> u8 {
    0x3d
}

/// The alphabet character for a 6-bit value.
pub open spec fn digit(v: u8) -> u8 {
    if v < 26 {
        (v + 0x41) as u8
    } else if v < 52 {
        (v - 26 + 0x61) as u8
    } else if v < 62 {
        (v - 52 + 0x30) as u8
    } else if v == 62 {
        0x2b
    } else {
        0x2f
    }
}

/// The 6-bit value of an alphabet character; `None` for any other byte
/// (padding included).
pub open spec fn digit_value(c: u8) -> Option<u8> {
    if 0x41 <= c <= 0x5a {
        Some((c - 0x41) as u8)
    } else if 0x61 <= c <= 0x7a {
        Some((c - 0x61 + 26) as u8)
    } else if 0x30 <= c <= 0x39 {
        Some((c - 0x30 + 52) as u8)
    } else if c == 0x2b {
        Some(62u8)
    } else if c == 0x2f {
        Some(63u8)
    } else {
        None
    }
}

/// The RFC 4648 base64 alphabet, `A`-`Z`, `a`-`z`, `0`-`9`, `+`, `/`: the
/// character at position `v` encodes the 6-bit value `v`.
pub open spec fn rfc4648_alphabet() -> Seq<u8> {
    seq![
        'A' as u8, 'B' as u8, 'C' as u8, 'D' as u8, 'E' as u8, 'F' as u8, 'G' as u8, 'H' as u8,
        'I' as u8, 'J' as u8, 'K' as u8, 'L' as u8, 'M' as u8, 'N' as u8, 'O' as u8, 'P' as u8,
        'Q' as u8, 'R' as u8, 'S' as u8, 'T' as u8, 'U' as u8, 'V' as u8, 'W' as u8, 'X' as u8,
        'Y' as u8, 'Z' as u8, 'a' as u8, 'b' as u8, 'c' as u8, 'd' as u8, 'e' as u8, 'f' as u8,
        'g' as u8, 'h' as u8, 'i' as u8, 'j' as u8, 'k' as u8, 'l' as u8, 'm' as u8, 'n' as u8,
        'o' as u8, 'p' as u8, 'q' as u8, 'r' as u8, 's' as u8, 't' as u8, 'u' as u8, 'v' as u8,
        'w' as u8, 'x' as u8, 'y' as u8, 'z' as u8, '0' as u8, '1' as u8, '2' as u8, '3' as u8,
        '4' as u8, '5' as u8, '6' as u8, '7' as u8, '8' as u8, '9' as u8, '+' as u8, '/' as u8,
    ]
}

/// The digits are those of the RFC 4648 alphabet, and decoding a character
/// of that alphabet gives back its position; no other byte decodes.
pub proof fn lemma_rfc4648_alphabet()
    ensures
        rfc4648_alphabet().len() == 64,
        forall|v: u8| v < 64 ==> #[trigger] digit(v) == rfc4648_alphabet()[v as int],
        forall|v: u8| v < 64 ==> #[trigger] digit_value(rfc4648_alphabet()[v as int]) == Some(v),
        forall|c: u8| #[trigger] digit_value(c) is Some ==> rfc4648_alphabet().contains(c),
{
    let a = rfc4648_alphabet();
    assert forall|v: u8| v < 64 implies #[trigger] digit(v) == a[v as int] && digit_value(a[v as int]) == Some(v) by {
        if v == 0 {
        } else if v == 1 {
        } else if v == 2 {
        } else if v == 3 {
        } else if v == 4 {
        } else if v == 5 {
        } else if v == 6 {
        } else if v == 7 {
        } else if v == 8 {
        } else if v == 9 {
        } else if v == 10 {
        } else if v == 11 {
        } else if v == 12 {
        } else if v == 13 {
        } else if v == 14 {
        } else if v == 15 {
        } else if v == 16 {
        } else if v == 17 {
        } else if v == 18 {
        } else if v == 19 {
        } else if v == 20 {
        } else if v == 21 {
        } else if v == 22 {
        } else if v == 23 {
        } else if v == 24 {
        } else if v == 25 {
        } else if v == 26 {
        } else if v == 27 {
        } else if v == 28 {
        } else if v == 29 {
        } else if v == 30 {
        } else if v == 31 {
        } else if v == 32 {
        } else if v == 33 {
        } else if v == 34 {
        } else if v == 35 {
        } else if v == 36 {
        } else if v == 37 {
        } else if v == 38 {
        } else if v == 39 {
        } else if v == 40 {
        } else if v == 41 {
        } else if v == 42 {
        } else if v == 43 {
        } else if v == 44 {
        } else if v == 45 {
        } else if v == 46 {
        } else if v == 47 {
        } else if v == 48 {
        } else if v == 49 {
        } else if v == 50 {
        } else if v == 51 {
        } else if v == 52 {
        } else if v == 53 {
        } else if v == 54 {
        } else if v == 55 {
        } else if v == 56 {
        } else if v == 57 {
        } else if v == 58 {
        } else if v == 59 {
        } else if v == 60 {
        } else if v == 61 {
        } else if v == 62 {
        } else if v == 63 {
        }
    }
    assert forall|c: u8| #[trigger] digit_value(c) is Some implies a.contains(c) by {
        let v = digit_value(c)->0;
        assert(v < 64);
        lemma_value_digit(c);
        assert(a[v as int] == c);
    }
}

/// Three bytes encode as the RFC 4648 characters of their four 6-bit groups,
/// most significant bits first, with no padding.
pub proof fn lemma_encode_three_bytes(b0: u8, b1: u8, b2: u8)
    ensures
        spec_encode(seq![b0, b1, b2]) == seq![
            rfc4648_alphabet()[(b0 >> 2) as int],
            rfc4648_alphabet()[(((b0 & 3) << 4) | (b1 >> 4)) as int],
            rfc4648_alphabet()[(((b1 & 15) << 2) | (b2 >> 6)) as int],
            rfc4648_alphabet()[(b2 & 63) as int],
        ],
{
    lemma_rfc4648_alphabet();
    lemma_group_bits(b0, b1, b2);
    let d = seq![b0, b1, b2];
    assert(d.len() == 3 && d[0] == b0 && d[1] == b1 && d[2] == b2);
    assert(d.subrange(3, 3) =~= Seq::<u8>::empty());
    assert(spec_encode(Seq::<u8>::empty()) == Seq::<u8>::empty());
    assert(spec_encode(d) == encode_group(b0, b1, b2) + spec_encode(d.subrange(3, 3)));
    assert(spec_encode(d) =~= encode_group(b0, b1, b2));
}

/// The four characters that encode three bytes.
pub open spec fn encode_group(b0: u8, b1: u8, b2: u8) -> Seq<u8> {
    seq![
        digit(b0 >> 2),
        digit(((b0 & 3) << 4) | (b1 >> 4)),
        digit(((b1 & 15) << 2) | (b2 >> 6)),
        digit(b2 & 63),
    ]
}

/// The base64 encoding of `data`.
pub open spec fn spec_encode(data: Seq<u8>) -> Seq<u8>
    decreases data.len(),
{
    if data.len() == 0 {
        Seq::empty()
    } else if data.len() == 1 {
        seq![digit(data[0] >> 2), digit((data[0] & 3) << 4), pad(), pad()]
    } else if data.len() == 2 {
        seq![
            digit(data[0] >> 2),
            digit(((data[0] & 3) << 4) | (data[1] >> 4)),
            digit((data[1] & 15) << 2),
            pad(),
        ]
    } else {
        encode_group(data[0], data[1], data[2]) + spec_encode(data.subrange(3, data.len() as int))
    }
}

/// The three bytes of four unpadded characters, if all are in the alphabet.
pub open spec fn decode_group(s: Seq<u8>) -> Option<Seq<u8>> {
    match (digit_value(s[0]), digit_value(s[1]), digit_value(s[2]), digit_value(s[3])) {
        (Some(v0), Some(v1), Some(v2), Some(v3)) => Some(
            seq![
                ((v0 << 2) | (v1 >> 4)) as u8,
                (((v1 & 15) << 4) | (v2 >> 2)) as u8,
                (((v2 & 3) << 6) | v3) as u8,
            ],
        ),
        _ => None,
    }
}

/// The bytes of a final group of four characters, which may be padded.
pub open spec fn decode_last_group(s: Seq<u8>) -> Option<Seq<u8>> {
    if s[2] == pad() && s[3] == pad() {
        match (digit_value(s[0]), digit_value(s[1])) {
            (Some(v0), Some(v1)) => if v1 & 15 == 0 {
                Some(seq![((v0 << 2) | (v1 >> 4)) as u8])
            } else {
                None
            },
            _ => None,
        }
    } else if s[3] == pad() {
        match (digit_value(s[0]), digit_value(s[1]), digit_value(s[2])) {
            (Some(v0), Some(v1), Some(v2)) => if v2 & 3 == 0 {
                Some(seq![((v0 << 2) | (v1 >> 4)) as u8, (((v1 & 15) << 4) | (v2 >> 2)) as u8])
            } else {
                None
            },
            _ => None,
        }
    } else {
        decode_group(s)
    }
}

/// The bytes that `text` encodes, or `None` when it is not a strict base64
/// encoding.
pub open spec fn spec_decode(text: Seq<u8>) -> Option<Seq<u8>>
    decreases text.len(),
{
    if text.len() == 0 {
        Some(Seq::empty())
    } else if text.len() < 4 {
        None
    } else if text.len() == 4 {
        decode_last_group(text)
    } else {
        match decode_group(text.subrange(0, 4)) {
            Some(g) => match spec_decode(text.subrange(4, text.len() as int)) {
                Some(rest) => Some(g + rest),
                None => None,
            },
            None => None,
        }
    }
}

/// `prefix` followed by the result of `rest`, when there is one.
pub open spec fn prepend(prefix: Seq<u8>, rest: Option<Seq<u8>>) -> Option<Seq<u8>> {
    match rest {
        Some(r) => Some(prefix + r),
        None => None,
    }
}

proof fn lemma_digit_value(v: u8)
    requires
        v < 64,
    ensures
        digit_value(digit(v)) == Some(v),
        digit(v) != pad(),
{
}

proof fn lemma_group_bits(b0: u8, b1: u8, b2: u8)
    ensures
        b0 >> 2 < 64,
        ((b0 & 3) << 4) | (b1 >> 4) < 64,
        ((b1 & 15) << 2) | (b2 >> 6) < 64,
        b2 & 63 < 64,
        ((b0 >> 2) << 2) | ((((b0 & 3) << 4) | (b1 >> 4)) >> 4) == b0,
        (((((b0 & 3) << 4) | (b1 >> 4)) & 15) << 4) | ((((b1 & 15) << 2) | (b2 >> 6)) >> 2) == b1,
        (((((b1 & 15) << 2) | (b2 >> 6)) & 3) << 6) | (b2 & 63) == b2,
{
    assert(b0 >> 2 < 64) by (bit_vector);
    assert(((b0 & 3) << 4) | (b1 >> 4) < 64) by (bit_vector);
    assert(((b1 & 15) << 2) | (b2 >> 6) < 64) by (bit_vector);
    assert(b2 & 63 < 64) by (bit_vector);
    assert(((b0 >> 2) << 2) | ((((b0 & 3) << 4) | (b1 >> 4)) >> 4) == b0) by (bit_vector);
    assert((((((b0 & 3) << 4) | (b1 >> 4)) & 15) << 4) | ((((b1 & 15) << 2) | (b2 >> 6)) >> 2)
        == b1) by (bit_vector);
    assert((((((b1 & 15) << 2) | (b2 >> 6)) & 3) << 6) | (b2 & 63) == b2) by (bit_vector);
}

proof fn lemma_tail_bits(b0: u8, b1: u8)
    ensures
        b0 >> 2 < 64,
        (b0 & 3) << 4 < 64,
        ((b0 & 3) << 4) & 15 == 0,
        ((b0 >> 2) << 2) | (((b0 & 3) << 4) >> 4) == b0,
        (b1 & 15) << 2 < 64,
        ((b1 & 15) << 2) & 3 == 0,
        (((((b0 & 3) << 4) | (b1 >> 4)) & 15) << 4) | (((b1 & 15) << 2) >> 2) == b1,
{
    assert(b0 >> 2 < 64) by (bit_vector);
    assert((b0 & 3) << 4 < 64) by (bit_vector);
    assert(((b0 & 3) << 4) & 15 == 0) by (bit_vector);
    assert(((b0 >> 2) << 2) | (((b0 & 3) << 4) >> 4) == b0) by (bit_vector);
    assert((b1 & 15) << 2 < 64) by (bit_vector);
    assert(((b1 & 15) << 2) & 3 == 0) by (bit_vector);
    assert((((((b0 & 3) << 4) | (b1 >> 4)) & 15) << 4) | (((b1 & 15) << 2) >> 2) == b1)
        by (bit_vector);
}

proof fn lemma_encode_group_decodes(b0: u8, b1: u8, b2: u8)
    ensures
        decode_group(encode_group(b0, b1, b2)) == Some(seq![b0, b1, b2]),
        encode_group(b0, b1, b2)[3] != pad(),
{
    lemma_group_bits(b0, b1, b2);
    lemma_digit_value(b0 >> 2);
    lemma_digit_value(((b0 & 3) << 4) | (b1 >> 4));
    lemma_digit_value(((b1 & 15) << 2) | (b2 >> 6));
    lemma_digit_value(b2 & 63);
    assert(decode_group(encode_group(b0, b1, b2)).unwrap() =~= seq![b0, b1, b2]);
}

/// The length of an encoding: four characters for every started group of
/// three bytes.
pub proof fn lemma_encode_len(data: Seq<u8>)
    ensures
        spec_encode(data).len() == 4 * ((data.len() + 2) / 3),
    decreases data.len(),
{
    if data.len() >= 3 {
        lemma_encode_len(data.subrange(3, data.len() as int));
    }
}

/// Decoding gives back what was encoded.
pub proof fn lemma_decode_encode(data: Seq<u8>)
    ensures
        spec_decode(spec_encode(data)) == Some(data),
    decreases data.len(),
{
    if data.len() == 0 {
    } else if data.len() == 1 {
        let b0 = data[0];
        lemma_tail_bits(b0, 0);
        lemma_digit_value(b0 >> 2);
        lemma_digit_value((b0 & 3) << 4);
        assert(spec_decode(spec_encode(data)).unwrap() =~= data);
    } else if data.len() == 2 {
        let b0 = data[0];
        let b1 = data[1];
        lemma_tail_bits(b0, b1);
        lemma_group_bits(b0, b1, 0);
        lemma_digit_value(b0 >> 2);
        lemma_digit_value(((b0 & 3) << 4) | (b1 >> 4));
        lemma_digit_value((b1 & 15) << 2);
        assert(spec_decode(spec_encode(data)).unwrap() =~= data);
    } else {
        let rest = data.subrange(3, data.len() as int);
        let e = spec_encode(data);
        let g = encode_group(data[0], data[1], data[2]);
        lemma_decode_encode(rest);
        lemma_encode_group_decodes(data[0], data[1], data[2]);
        lemma_encode_len(rest);
        assert(e =~= g + spec_encode(rest));
        assert(e.subrange(0, 4) =~= g);
        assert(e.subrange(4, e.len() as int) =~= spec_encode(rest));
        if rest.len() == 0 {
            assert(e =~= g);
            assert(decode_last_group(g) == decode_group(g));
            assert(data =~= seq![data[0], data[1], data[2]]);
        } else {
            assert(data =~= seq![data[0], data[1], data[2]] + rest);
        }
    }
}


proof fn lemma_value_digit(c: u8)
    requires
        digit_value(c) is Some,
    ensures
        digit_value(c)->0 < 64,
        digit(digit_value(c)->0) == c,
{
}

proof fn lemma_value_bits(v0: u8, v1: u8, v2: u8, v3: u8)
    requires
        v0 < 64,
        v1 < 64,
        v2 < 64,
        v3 < 64,
    ensures
        ((v0 << 2) | (v1 >> 4)) >> 2 == v0,
        ((((v0 << 2) | (v1 >> 4)) & 3) << 4) | ((((v1 & 15) << 4) | (v2 >> 2)) >> 4) == v1,
        (((((v1 & 15) << 4) | (v2 >> 2)) & 15) << 2) | ((((v2 & 3) << 6) | v3) >> 6) == v2,
        (((v2 & 3) << 6) | v3) & 63 == v3,
        v1 & 15 == 0 ==> (((v0 << 2) | (v1 >> 4)) & 3) << 4 == v1,
        v2 & 3 == 0 ==> ((((v1 & 15) << 4) | (v2 >> 2)) & 15) << 2 == v2,
{
    assert(v0 < 64 && v1 < 64 ==> ((v0 << 2) | (v1 >> 4)) >> 2 == v0) by (bit_vector);
    assert(v0 < 64 && v1 < 64 && v2 < 64 ==> ((((v0 << 2) | (v1 >> 4)) & 3) << 4) | ((((v1 & 15)
        << 4) | (v2 >> 2)) >> 4) == v1) by (bit_vector);
    assert(v1 < 64 && v2 < 64 && v3 < 64 ==> (((((v1 & 15) << 4) | (v2 >> 2)) & 15) << 2) | ((((
    v2 & 3) << 6) | v3) >> 6) == v2) by (bit_vector);
    assert(v2 < 64 && v3 < 64 ==> (((v2 & 3) << 6) | v3) & 63 == v3) by (bit_vector);
    assert(v0 < 64 && v1 < 64 && v1 & 15 == 0 ==> (((v0 << 2) | (v1 >> 4)) & 3) << 4 == v1)
        by (bit_vector);
    assert(v1 < 64 && v2 < 64 && v2 & 3 == 0 ==> ((((v1 & 15) << 4) | (v2 >> 2)) & 15) << 2 == v2)
        by (bit_vector);
}

/// Decoding is strict: whatever decodes is the encoding of what it decodes
/// to.
pub proof fn lemma_encode_decode(text: Seq<u8>)
    requires
        spec_decode(text) is Some,
    ensures
        spec_encode(spec_decode(text)->0) == text,
    decreases text.len(),
{
    if text.len() == 0 {
        assert(text =~= Seq::<u8>::empty());
    } else if text.len() == 4 {
        let s = text;
        if s[2] == pad() && s[3] == pad() {
            lemma_value_digit(s[0]);
            lemma_value_digit(s[1]);
            let v0 = digit_value(s[0])->0;
            let v1 = digit_value(s[1])->0;
            lemma_value_bits(v0, v1, 0, 0);
            assert(spec_encode(spec_decode(text)->0) =~= text);
        } else if s[3] == pad() {
            lemma_value_digit(s[0]);
            lemma_value_digit(s[1]);
            lemma_value_digit(s[2]);
            let v0 = digit_value(s[0])->0;
            let v1 = digit_value(s[1])->0;
            let v2 = digit_value(s[2])->0;
            lemma_value_bits(v0, v1, v2, 0);
            assert(spec_encode(spec_decode(text)->0) =~= text);
        } else {
            lemma_value_digit(s[0]);
            lemma_value_digit(s[1]);
            lemma_value_digit(s[2]);
            lemma_value_digit(s[3]);
            let v0 = digit_value(s[0])->0;
            let v1 = digit_value(s[1])->0;
            let v2 = digit_value(s[2])->0;
            let v3 = digit_value(s[3])->0;
            lemma_value_bits(v0, v1, v2, v3);
            let d = spec_decode(text)->0;
            assert(d.len() == 3);
            assert(d == decode_group(s)->0);
            assert(d.subrange(3, 3) =~= Seq::<u8>::empty());
            assert(spec_encode(d.subrange(3, 3)) =~= Seq::<u8>::empty());
            assert(encode_group(d[0], d[1], d[2]) =~= text);
            assert(spec_encode(d) =~= text);
        }
    } else {
        let head = text.subrange(0, 4);
        let tail = text.subrange(4, text.len() as int);
        lemma_encode_decode(tail);
        lemma_value_digit(head[0]);
        lemma_value_digit(head[1]);
        lemma_value_digit(head[2]);
        lemma_value_digit(head[3]);
        let v0 = digit_value(head[0])->0;
        let v1 = digit_value(head[1])->0;
        let v2 = digit_value(head[2])->0;
        let v3 = digit_value(head[3])->0;
        lemma_value_bits(v0, v1, v2, v3);
        let g = decode_group(head)->0;
        let r = spec_decode(tail)->0;
        let d = g + r;
        assert(spec_decode(text)->0 == d);
        assert(d.subrange(3, d.len() as int) =~= r);
        assert(d[0] == g[0] && d[1] == g[1] && d[2] == g[2]);
        assert(encode_group(g[0], g[1], g[2]) =~= head);
        assert(spec_encode(d) =~= head + tail);
        assert(head + tail =~= text);
    }
}

/// The alphabet character for a 6-bit value.
fn digit_exec(v: u8) -> (c: u8)
    requires
        v < 64,
    ensures
        c == digit(v),
{
    if v < 26 {
        v + 0x41
    } else if v < 52 {
        v - 26 + 0x61
    } else if v < 62 {
        v - 52 + 0x30
    } else if v == 62 {
        0x2b
    } else {
        0x2f
    }
}

/// The 6-bit value of an alphabet character.
fn digit_value_exec(c: u8) -> (r: Option<u8>)
    ensures
        r == digit_value(c),
{
    if 0x41 <= c && c <= 0x5a {
        Some(c - 0x41)
    } else if 0x61 <= c && c <= 0x7a {
        Some(c - 0x61 + 26)
    } else if 0x30 <= c && c <= 0x39 {
        Some(c - 0x30 + 52)
    } else if c == 0x2b {
        Some(62)
    } else if c == 0x2f {
        Some(63)
    } else {
        None
    }
}

/// Encode `data` as base64 with the standard alphabet and `=` padding.
pub fn encode(data: &[u8]) -> (r: Vec<u8>)
    ensures
        r@ == spec_encode(data@),
{
    let mut out: Vec<u8> = Vec::new();
    let mut i: usize = 0;
    let n = data.len();
    assert(data@.subrange(0, n as int) =~= data@);
    while n - i >= 3
        invariant
            n == data@.len(),
            i <= n,
            spec_encode(data@) == out@ + spec_encode(data@.subrange(i as int, n as int)),
        decreases n - i,
    {
        let b0 = data[i];
        let b1 = data[i + 1];
        let b2 = data[i + 2];
        proof {
            lemma_group_bits(b0, b1, b2);
            let rest = data@.subrange(i as int, n as int);
            assert(rest.subrange(3, rest.len() as int) =~= data@.subrange(i + 3, n as int));
            assert(out@ + spec_encode(rest) =~= out@ + encode_group(b0, b1, b2) + spec_encode(
                data@.subrange(i + 3, n as int),
            ));
        }
        out.push(digit_exec(b0 >> 2));
        out.push(digit_exec(((b0 & 3) << 4) | (b1 >> 4)));
        out.push(digit_exec(((b1 & 15) << 2) | (b2 >> 6)));
        out.push(digit_exec(b2 & 63));
        i = i + 3;
    }
    let ghost before = out@;
    if n - i == 1 {
        let b0 = data[i];
        proof {
            lemma_tail_bits(b0, 0);
        }
        out.push(digit_exec(b0 >> 2));
        out.push(digit_exec((b0 & 3) << 4));
        out.push(0x3d);
        out.push(0x3d);
    } else if n - i == 2 {
        let b0 = data[i];
        let b1 = data[i + 1];
        proof {
            lemma_tail_bits(b0, b1);
            lemma_group_bits(b0, b1, 0);
        }
        out.push(digit_exec(b0 >> 2));
        out.push(digit_exec(((b0 & 3) << 4) | (b1 >> 4)));
        out.push(digit_exec((b1 & 15) << 2));
        out.push(0x3d);
    }
    assert(out@ =~= before + spec_encode(data@.subrange(i as int, n as int)));
    out
}

/// Decode the last group of four characters, which may be padded, onto `out`.
fn decode_last_group_onto(text: &[u8], at: usize, out: &mut Vec<u8>) -> (ok: bool)
    requires
        at + 4 == text@.len(),
    ensures
        ok == (decode_last_group(text@.subrange(at as int, at + 4)) is Some),
        ok ==> final(out)@ == old(out)@ + decode_last_group(text@.subrange(at as int, at + 4))->0,
{
    let ghost g = text@.subrange(at as int, at + 4);
    assert(g[0] == text@[at as int] && g[1] == text@[at + 1] && g[2] == text@[at + 2] && g[3]
        == text@[at + 3]);
    let c0 = digit_value_exec(text[at]);
    let c1 = digit_value_exec(text[at + 1]);
    let (v0, v1) = match (c0, c1) {
        (Some(v0), Some(v1)) => (v0, v1),
        _ => {
            return false;
        },
    };
    if text[at + 2] == 0x3d && text[at + 3] == 0x3d {
        if v1 & 15 != 0 {
            return false;
        }
        out.push((v0 << 2) | (v1 >> 4));
        assert(out@ =~= old(out)@ + decode_last_group(g)->0);
        return true;
    }
    let v2 = match digit_value_exec(text[at + 2]) {
        Some(v2) => v2,
        None => {
            return false;
        },
    };
    if text[at + 3] == 0x3d {
        if v2 & 3 != 0 {
            return false;
        }
        out.push((v0 << 2) | (v1 >> 4));
        out.push(((v1 & 15) << 4) | (v2 >> 2));
        assert(out@ =~= old(out)@ + decode_last_group(g)->0);
        return true;
    }
    let v3 = match digit_value_exec(text[at + 3]) {
        Some(v3) => v3,
        None => {
            return false;
        },
    };
    out.push((v0 << 2) | (v1 >> 4));
    out.push(((v1 & 15) << 4) | (v2 >> 2));
    out.push(((v2 & 3) << 6) | v3);
    assert(out@ =~= old(out)@ + decode_last_group(g)->0);
    true
}

/// Decode strict base64 (standard alphabet, `=` padding); `None` when `text`
/// is not such an encoding.
pub fn decode(text: &[u8]) -> (r: Option<Vec<u8>>)
    ensures
        match spec_decode(text@) {
            Some(d) => r matches Some(v) && v@ == d,
            None => r is None,
        },
{
    let n = text.len();
    if n == 0 {
        return Some(Vec::new());
    }
    if n % 4 != 0 {
        proof {
            lemma_decode_len_multiple_of_four(text@);
        }
        return None;
    }
    let mut out: Vec<u8> = Vec::new();
    let mut i: usize = 0;
    assert(text@.subrange(0, n as int) =~= text@);
    while n - i > 4
        invariant
            n == text@.len(),
            n % 4 == 0,
            i % 4 == 0,
            i + 4 <= n,
            spec_decode(text@) == prepend(out@, spec_decode(text@.subrange(i as int, n as int))),
        decreases n - i,
    {
        let ghost rest = text@.subrange(i as int, n as int);
        assert(rest.subrange(0, 4) =~= text@.subrange(i as int, i + 4));
        assert(rest.subrange(4, rest.len() as int) =~= text@.subrange(i + 4, n as int));
        let c0 = digit_value_exec(text[i]);
        let c1 = digit_value_exec(text[i + 1]);
        let c2 = digit_value_exec(text[i + 2]);
        let c3 = digit_value_exec(text[i + 3]);
        match (c0, c1, c2, c3) {
            (Some(v0), Some(v1), Some(v2), Some(v3)) => {
                let ghost g = decode_group(text@.subrange(i as int, i + 4))->0;
                let ghost prev = out@;
                out.push((v0 << 2) | (v1 >> 4));
                out.push(((v1 & 15) << 4) | (v2 >> 2));
                out.push(((v2 & 3) << 6) | v3);
                assert(out@ =~= prev + g);
                assert(prev + (g + spec_decode(text@.subrange(i + 4, n as int))->0) =~= out@
                    + spec_decode(text@.subrange(i + 4, n as int))->0);
            },
            _ => {
                return None;
            },
        }
        i = i + 4;
    }
    assert(text@.subrange(i as int, n as int).len() == 4);
    let ok = decode_last_group_onto(text, i, &mut out);
    if ok {
        Some(out)
    } else {
        None
    }
}

/// Only texts whose length is a multiple of four decode.
proof fn lemma_decode_len_multiple_of_four(text: Seq<u8>)
    ensures
        text.len() % 4 != 0 ==> spec_decode(text) is None,
    decreases text.len(),
{
    if text.len() > 4 {
        lemma_decode_len_multiple_of_four(text.subrange(4, text.len() as int));
    }
}

} // verus!
