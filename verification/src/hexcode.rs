//! Hex transport of keying material.
//!
//! Keys, base nonces and chain identifiers travel as lowercase hex strings.
//! Encoding and decoding are specified exactly here, and the `hex` crate
//! performs them at run time.

use vstd::prelude::*;

verus! {

/// A hex digit: `0..9`, `a..f` or `A..F`.
pub open spec fn is_hex_digit(c: char) -> bool {
    let v = c as u32;
    (48 <= v && v <= 57) || (97 <= v && v <= 102) || (65 <= v && v <= 70)
}

/// Numeric value of a hex digit.
pub open spec fn hex_digit_value(c: char) -> u8
    recommends
        is_hex_digit(c),
{
    let v = c as u32;
    if 48 <= v && v <= 57 {
        (v - 48) as u8
    } else if 97 <= v && v <= 102 {
        (v - 87) as u8
    } else {
        (v - 55) as u8
    }
}

/// The lowercase hex digit for a value below 16.
pub open spec fn hex_char_of(n: u8) -> char
    recommends
        n < 16,
{
    if n < 10 {
        ((n + 48) as u8) as char
    } else {
        ((n + 87) as u8) as char
    }
}

/// A string that `hex` will decode: even length, hex digits only.
pub open spec fn is_hex_seq(s: Seq<char>) -> bool {
    s.len() % 2 == 0 && (forall|i: int| 0 <= i < s.len() ==> is_hex_digit(#[trigger] s[i]))
}

/// Lowercase hex encoding of a byte sequence: two digits per byte,
/// high nibble first.
pub open spec fn hex_encoded(bytes: Seq<u8>) -> Seq<char> {
    Seq::new(bytes.len() * 2, |i: int| if i % 2 == 0 {
        hex_char_of(bytes[i / 2] >> 4)
    } else {
        hex_char_of(bytes[i / 2] & 0xf)
    })
}

/// The bytes denoted by a hex string: each digit pair is one byte.
pub open spec fn hex_decoded(s: Seq<char>) -> Seq<u8>
    recommends
        is_hex_seq(s),
{
    Seq::new(s.len() / 2, |i: int|
        (hex_digit_value(s[2 * i]) * 16 + hex_digit_value(s[2 * i + 1])) as u8)
}

/// A string that is exactly the lowercase hex encoding of the bytes it
/// denotes: valid hex, with no uppercase digit anywhere.
pub open spec fn canonical_hex(s: Seq<char>) -> bool {
    is_hex_seq(s) && hex_encoded(hex_decoded(s)) == s
}

/// A byte splits into two nibbles below 16 that reassemble to the byte.
proof fn lemma_nibbles(x: u8)
    ensures
        x >> 4 < 16,
        x & 0xf < 16,
        (x >> 4) * 16 + (x & 0xf) == x,
{
    assert(x >> 4 < 16 && x & 0xf < 16 && (x >> 4) * 16 + (x & 0xf) == x) by (bit_vector);
}

/// Encoding a nibble yields a hex digit that decodes back to the nibble.
proof fn lemma_hex_char_value(n: u8)
    requires
        n < 16,
    ensures
        is_hex_digit(hex_char_of(n)),
        hex_digit_value(hex_char_of(n)) == n,
{
}

/// Hex round trip: the encoding of any byte sequence is a valid hex string
/// of twice the length, in canonical lowercase form, and decodes back to
/// the original bytes.
pub proof fn lemma_hex_roundtrip(bytes: Seq<u8>)
    ensures
        hex_encoded(bytes).len() == 2 * bytes.len(),
        is_hex_seq(hex_encoded(bytes)),
        hex_decoded(hex_encoded(bytes)) == bytes,
        canonical_hex(hex_encoded(bytes)),
{
    let enc = hex_encoded(bytes);
    assert forall|i: int| 0 <= i < enc.len() implies is_hex_digit(#[trigger] enc[i]) by {
        lemma_nibbles(bytes[i / 2]);
        if i % 2 == 0 {
            lemma_hex_char_value(bytes[i / 2] >> 4);
        } else {
            lemma_hex_char_value(bytes[i / 2] & 0xf);
        }
    }
    assert forall|i: int| 0 <= i < bytes.len() implies hex_decoded(enc)[i] == bytes[i] by {
        lemma_nibbles(bytes[i]);
        lemma_hex_char_value(bytes[i] >> 4);
        lemma_hex_char_value(bytes[i] & 0xf);
        assert(enc[2 * i] == hex_char_of(bytes[i] >> 4));
        assert(enc[2 * i + 1] == hex_char_of(bytes[i] & 0xf));
    }
    assert(hex_decoded(enc) =~= bytes);
}

/// Relies on `hex::encode`: lowercase hex, two digits per byte, high
/// nibble first.
#[verifier::external_body]
pub fn hex_encode(bytes: &[u8]) -> (r: String)
    ensures
        r@ == hex_encoded(bytes@),
{
    hex::encode(bytes)
}

/// Relies on `hex::decode`: succeeds exactly on even-length strings of hex
/// digits (either case) and returns the denoted bytes.
#[verifier::external_body]
pub fn hex_decode(s: &str) -> (r: Option<Vec<u8>>)
    ensures
        r is Some <==> is_hex_seq(s@),
        r is Some ==> r->0@ == hex_decoded(s@),
{
    match hex::decode(s) {
        Ok(v) => Some(v),
        Err(_) => None,
    }
}

} // verus!
