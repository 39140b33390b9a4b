//! The framed AEAD data plane.
//!
//! Each packet travels as `counter (8 bytes, little-endian) ‖ length
//! (4 bytes, little-endian) ‖ ciphertext with tag`. The counter derives the
//! packet's nonce, so the receiver tolerates loss of the other direction;
//! a direction is torn down on a zero or oversized length.

use vstd::prelude::*;
use vstd::bytes::{
    spec_u64_to_le_bytes, spec_u64_from_le_bytes, spec_u32_to_le_bytes, spec_u32_from_le_bytes,
    lemma_auto_spec_u64_to_from_le_bytes, lemma_auto_spec_u32_to_from_le_bytes, u64_to_le_bytes,
    u32_to_le_bytes, u64_from_le_bytes, u32_from_le_bytes,
};
use vstd::slice::{slice_subrange, slice_to_vec};
use crate::crypto::{
    CryptoError, MAX_AEAD_PLAINTEXT, aead_seal, aead_open, spec_derive_nonce, encrypt_with_counter,
    decrypt_with_counter,
};
use crate::hexcode::{is_hex_seq, hex_decoded};

verus! {

/// Most plaintext bytes a packet carries.
pub const CHUNK_SIZE: usize = 16384;

/// Largest ciphertext length a receiver accepts.
pub const MAX_FRAME_PAYLOAD: usize = 2 * CHUNK_SIZE;

/// Why a frame was rejected.
#[derive(Debug, Clone, Copy, PartialEq, Eq, Structural)]
pub enum FrameError {
    /// More bytes are needed than the buffer holds.
    Incomplete,
    /// A zero or oversized length field.
    BadLength,
}

/// A length a receiver accepts: positive and within twice the chunk size.
pub open spec fn valid_payload_len(l: int) -> bool {
    0 < l <= MAX_FRAME_PAYLOAD
}

/// The wire bytes of one packet.
pub open spec fn frame_bytes(counter: u64, payload: Seq<u8>) -> Seq<u8>
    recommends
        payload.len() <= u32::MAX,
{
    spec_u64_to_le_bytes(counter) + spec_u32_to_le_bytes(payload.len() as u32) + payload
}

/// The counter field of a buffered frame.
pub open spec fn parsed_counter(buf: Seq<u8>) -> u64
    recommends
        buf.len() >= 12,
{
    spec_u64_from_le_bytes(buf.subrange(0, 8))
}

/// The length field of a buffered frame.
pub open spec fn parsed_len(buf: Seq<u8>) -> int
    recommends
        buf.len() >= 12,
{
    spec_u32_from_le_bytes(buf.subrange(8, 12)) as int
}

/// The payload of a buffered frame.
pub open spec fn parsed_payload(buf: Seq<u8>) -> Seq<u8>
    recommends
        buf.len() >= 12 + parsed_len(buf),
{
    buf.subrange(12, 12 + parsed_len(buf))
}

/// Whether the buffer holds one whole acceptable frame.
pub open spec fn frame_complete(buf: Seq<u8>) -> bool {
    buf.len() >= 12 && valid_payload_len(parsed_len(buf)) && buf.len() >= 12 + parsed_len(buf)
}

/// Frame a payload under a counter. Fails exactly on a payload no receiver
/// would accept: empty or over twice the chunk size.
pub fn encode_frame(counter: u64, payload: &[u8]) -> (r: Result<Vec<u8>, FrameError>)
    ensures
        (r is Ok) <==> valid_payload_len(payload@.len() as int),
        r is Ok ==> r->Ok_0@ == frame_bytes(counter, payload@),
        r is Err ==> r->Err_0 == FrameError::BadLength,
{
    if payload.len() == 0 || payload.len() > MAX_FRAME_PAYLOAD {
        return Err(FrameError::BadLength);
    }
    let mut v = u64_to_le_bytes(counter);
    let mut len_bytes = u32_to_le_bytes(payload.len() as u32);
    v.append(&mut len_bytes);
    v.extend_from_slice(payload);
    proof {
        assert(v@ =~= frame_bytes(counter, payload@));
    }
    Ok(v)
}

/// Parse one frame from the front of a buffer: the counter, the payload,
/// and how many bytes the frame occupied. `Incomplete` asks for more
/// bytes; `BadLength` aborts the direction.
pub fn parse_frame(buf: &[u8]) -> (r: Result<(u64, Vec<u8>, usize), FrameError>)
    ensures
        buf@.len() < 12 ==> r == Err::<(u64, Vec<u8>, usize), FrameError>(FrameError::Incomplete),
        buf@.len() >= 12 && !valid_payload_len(parsed_len(buf@)) ==> r == Err::<
            (u64, Vec<u8>, usize),
            FrameError,
        >(FrameError::BadLength),
        buf@.len() >= 12 && valid_payload_len(parsed_len(buf@)) && buf@.len() < 12 + parsed_len(
            buf@,
        ) ==> r == Err::<(u64, Vec<u8>, usize), FrameError>(FrameError::Incomplete),
        frame_complete(buf@) ==> {
            &&& r is Ok
            &&& r->Ok_0.0 == parsed_counter(buf@)
            &&& r->Ok_0.1@ == parsed_payload(buf@)
            &&& r->Ok_0.2 == 12 + parsed_len(buf@)
        },
{
    if buf.len() < 12 {
        return Err(FrameError::Incomplete);
    }
    let counter = u64_from_le_bytes(slice_subrange(buf, 0, 8));
    let len32 = u32_from_le_bytes(slice_subrange(buf, 8, 12));
    let len = len32 as usize;
    if len == 0 || len > MAX_FRAME_PAYLOAD {
        return Err(FrameError::BadLength);
    }
    if buf.len() < 12 + len {
        return Err(FrameError::Incomplete);
    }
    let payload = slice_to_vec(slice_subrange(buf, 12, 12 + len));
    Ok((counter, payload, 12 + len))
}

/// A framed packet parses back to exactly what was framed.
pub proof fn lemma_frame_roundtrip(counter: u64, payload: Seq<u8>)
    requires
        valid_payload_len(payload.len() as int),
    ensures
        frame_complete(frame_bytes(counter, payload)),
        parsed_counter(frame_bytes(counter, payload)) == counter,
        parsed_payload(frame_bytes(counter, payload)) == payload,
        frame_bytes(counter, payload).len() == 12 + payload.len(),
{
    lemma_auto_spec_u64_to_from_le_bytes();
    lemma_auto_spec_u32_to_from_le_bytes();
    let f = frame_bytes(counter, payload);
    assert(f.subrange(0, 8) =~= spec_u64_to_le_bytes(counter));
    assert(f.subrange(8, 12) =~= spec_u32_to_le_bytes(payload.len() as u32));
    assert(f.subrange(12, 12 + parsed_len(f)) =~= payload);
}

/// One direction's packet counter: starts at 0 and counts every packet
/// sent, so each packet of a session gets its own derived nonce.
pub struct DirectionCounter {
    counter: u64,
}

impl DirectionCounter {
    /// The counter the next packet will use.
    pub closed spec fn current(&self) -> u64 {
        self.counter
    }

    /// A fresh direction starts at packet 0.
    pub fn new() -> (c: Self)
        ensures
            c.current() == 0,
    {
        DirectionCounter { counter: 0 }
    }

    /// Take the next packet counter. The second result reports a wrap
    /// back to 0 after 2^64 packets; in practice unreachable, and the
    /// caller may log it and carry on.
    pub fn next(&mut self) -> (r: (u64, bool))
        ensures
            r.0 == old(self).current(),
            r.1 == (old(self).current() == u64::MAX),
            !r.1 ==> final(self).current() == old(self).current() + 1,
            r.1 ==> final(self).current() == 0,
    {
        let c = self.counter;
        if c == u64::MAX {
            self.counter = 0;
            (c, true)
        } else {
            self.counter = c + 1;
            (c, false)
        }
    }
}

/// Why a packet could not be sealed or opened.
#[derive(Debug, Clone, Copy, PartialEq, Eq, Structural)]
pub enum DataplaneError {
    /// The frame itself was rejected.
    Frame(FrameError),
    /// The keying material or the authentication tag was rejected.
    Crypto(CryptoError),
}

/// The encrypt path for one packet: seal up to a chunk of plaintext under
/// the counter-derived nonce and frame the result.
pub fn seal_packet(
    key_hex: &str,
    nonce_hex: &str,
    counter: u64,
    plaintext: &[u8],
) -> (r: Result<Vec<u8>, DataplaneError>)
    requires
        is_hex_seq(key_hex@) ==> hex_decoded(key_hex@).len() == 32,
        is_hex_seq(nonce_hex@) ==> hex_decoded(nonce_hex@).len() == 12,
        plaintext@.len() <= CHUNK_SIZE,
    ensures
        (r is Ok) <==> (is_hex_seq(key_hex@) && is_hex_seq(nonce_hex@)),
        r is Ok ==> r->Ok_0@ == frame_bytes(
            counter,
            aead_seal(
                hex_decoded(key_hex@),
                spec_derive_nonce(hex_decoded(nonce_hex@), counter),
                plaintext@,
            ),
        ),
        !is_hex_seq(key_hex@) ==> r == Err::<Vec<u8>, DataplaneError>(
            DataplaneError::Crypto(CryptoError::BadKeyHex),
        ),
        is_hex_seq(key_hex@) && !is_hex_seq(nonce_hex@) ==> r == Err::<Vec<u8>, DataplaneError>(
            DataplaneError::Crypto(CryptoError::BadNonceHex),
        ),
{
    let sealed = match encrypt_with_counter(key_hex, nonce_hex, counter, plaintext) {
        Ok(v) => v,
        Err(e) => {
            return Err(DataplaneError::Crypto(e));
        },
    };
    match encode_frame(counter, sealed.as_slice()) {
        Ok(v) => Ok(v),
        Err(e) => Err(DataplaneError::Frame(e)),
    }
}

/// The decrypt path for one packet: parse the frame at the front of the
/// buffer and open its payload under the nonce derived from the received
/// counter. On success: the counter, the plaintext, and the bytes the
/// frame occupied.
pub fn open_packet(key_hex: &str, nonce_hex: &str, buf: &[u8]) -> (r: Result<
    (u64, Vec<u8>, usize),
    DataplaneError,
>)
    requires
        is_hex_seq(key_hex@) ==> hex_decoded(key_hex@).len() == 32,
        is_hex_seq(nonce_hex@) ==> hex_decoded(nonce_hex@).len() == 12,
    ensures
        buf@.len() < 12 ==> r == Err::<(u64, Vec<u8>, usize), DataplaneError>(
            DataplaneError::Frame(FrameError::Incomplete),
        ),
        buf@.len() >= 12 && !valid_payload_len(parsed_len(buf@)) ==> r == Err::<
            (u64, Vec<u8>, usize),
            DataplaneError,
        >(DataplaneError::Frame(FrameError::BadLength)),
        buf@.len() >= 12 && valid_payload_len(parsed_len(buf@)) && buf@.len() < 12 + parsed_len(
            buf@,
        ) ==> r == Err::<(u64, Vec<u8>, usize), DataplaneError>(
            DataplaneError::Frame(FrameError::Incomplete),
        ),
        frame_complete(buf@) && !is_hex_seq(key_hex@) ==> r == Err::<
            (u64, Vec<u8>, usize),
            DataplaneError,
        >(DataplaneError::Crypto(CryptoError::BadKeyHex)),
        frame_complete(buf@) && is_hex_seq(key_hex@) && !is_hex_seq(nonce_hex@) ==> r == Err::<
            (u64, Vec<u8>, usize),
            DataplaneError,
        >(DataplaneError::Crypto(CryptoError::BadNonceHex)),
        frame_complete(buf@) && is_hex_seq(key_hex@) && is_hex_seq(nonce_hex@) ==> ((r is Ok)
            <==> aead_open(
            hex_decoded(key_hex@),
            spec_derive_nonce(hex_decoded(nonce_hex@), parsed_counter(buf@)),
            parsed_payload(buf@),
        ) is Some),
        r is Ok ==> {
            &&& frame_complete(buf@)
            &&& r->Ok_0.0 == parsed_counter(buf@)
            &&& r->Ok_0.1@ == aead_open(
                hex_decoded(key_hex@),
                spec_derive_nonce(hex_decoded(nonce_hex@), parsed_counter(buf@)),
                parsed_payload(buf@),
            )->0
            &&& r->Ok_0.2 == 12 + parsed_len(buf@)
        },
{
    let (counter, payload, consumed) = match parse_frame(buf) {
        Ok(t) => t,
        Err(e) => {
            return Err(DataplaneError::Frame(e));
        },
    };
    match decrypt_with_counter(key_hex, nonce_hex, counter, payload.as_slice()) {
        Ok(plain) => Ok((counter, plain, consumed)),
        Err(e) => Err(DataplaneError::Crypto(e)),
    }
}

} // verus!
