//! Per-hop AES-256-GCM encryption and decryption.
//!
//! Every outbound payload is encrypted with the exit hop's key before
//! entering the proxy chain; middle hops forward opaque ciphertext. Each
//! packet's nonce is derived from the session base nonce and a per-direction
//! packet counter, so one base nonce never authenticates two packets.

use vstd::prelude::*;
use vstd::bytes::{spec_u64_to_le_bytes, spec_u64_from_le_bytes, lemma_auto_spec_u64_to_from_le_bytes, u64_to_le_bytes};
use vstd::slice::slice_subrange;
use vstd::string::StringExecFns;
use aes_gcm::aead::{Aead, KeyInit};
use aes_gcm::{Aes256Gcm, Key, Nonce};
use crate::hexcode::{is_hex_seq, hex_decoded, hex_decode};

verus! {

/// Largest plaintext AES-GCM will seal (2^36 bytes).
pub const MAX_AEAD_PLAINTEXT: u64 = 0x1000000000;

/// Why an encryption or decryption call was refused.
#[derive(Debug, Clone, Copy, PartialEq, Eq, Structural)]
pub enum CryptoError {
    /// The key string is not valid hex.
    BadKeyHex,
    /// The nonce string is not valid hex.
    BadNonceHex,
    /// A nonce-prefixed blob shorter than a nonce.
    CiphertextTooShort,
    /// The cipher refused the payload or its authentication tag.
    AeadFailure,
}

/// The text shown for each error.
pub open spec fn crypto_error_text(e: CryptoError) -> Seq<char> {
    match e {
        CryptoError::BadKeyHex => "bad key hex"@,
        CryptoError::BadNonceHex => "bad nonce hex"@,
        CryptoError::CiphertextTooShort => "ciphertext too short"@,
        CryptoError::AeadFailure => "AES-GCM error"@,
    }
}

impl CryptoError {
    /// A short description of the error.
    pub fn message(&self) -> (s: String)
        ensures
            s@ == crypto_error_text(*self),
    {
        match self {
            CryptoError::BadKeyHex => String::from_str("bad key hex"),
            CryptoError::BadNonceHex => String::from_str("bad nonce hex"),
            CryptoError::CiphertextTooShort => String::from_str("ciphertext too short"),
            CryptoError::AeadFailure => String::from_str("AES-GCM error"),
        }
    }
}

/// What AES-256-GCM produces for a key, nonce and plaintext: ciphertext
/// with the 16-byte tag appended. A function of its arguments alone.
pub uninterp spec fn aead_seal(key: Seq<u8>, nonce: Seq<u8>, plaintext: Seq<u8>) -> Seq<u8>;

/// What AES-256-GCM decryption yields for a key, nonce and tagged
/// ciphertext: the plaintext when the tag authenticates, nothing otherwise.
/// A function of its arguments alone.
pub uninterp spec fn aead_open(key: Seq<u8>, nonce: Seq<u8>, data: Seq<u8>) -> Option<Seq<u8>>;

/// Relies on `aes_gcm::Aes256Gcm` (`KeyInit::new` plus `Aead::encrypt`):
/// sealing depends on key, nonce and plaintext alone; the tag appends 16
/// bytes; the call succeeds for any plaintext within the cipher's length
/// bound; decrypting the result with the same key and nonce recovers the
/// plaintext.
#[verifier::external_body]
fn aead_encrypt(key: &[u8], nonce: &[u8], plaintext: &[u8]) -> (r: Result<Vec<u8>, CryptoError>)
    requires
        key@.len() == 32,
        nonce@.len() == 12,
    ensures
        plaintext@.len() <= MAX_AEAD_PLAINTEXT ==> r is Ok,
        r is Ok ==> r->Ok_0@ == aead_seal(key@, nonce@, plaintext@),
        r is Ok ==> r->Ok_0@.len() == plaintext@.len() + 16,
        r is Ok ==> aead_open(key@, nonce@, r->Ok_0@) == Some(plaintext@),
        r is Err ==> r->Err_0 == CryptoError::AeadFailure,
{
    let cipher = Aes256Gcm::new(Key::<Aes256Gcm>::from_slice(key));
    match cipher.encrypt(Nonce::from_slice(nonce), plaintext) {
        Ok(v) => Ok(v),
        Err(_) => Err(CryptoError::AeadFailure),
    }
}

/// Relies on `aes_gcm::Aes256Gcm` (`KeyInit::new` plus `Aead::decrypt`):
/// decryption is deterministic in key, nonce and data, succeeding exactly
/// when the authentication tag verifies.
#[verifier::external_body]
fn aead_decrypt(key: &[u8], nonce: &[u8], data: &[u8]) -> (r: Result<Vec<u8>, CryptoError>)
    requires
        key@.len() == 32,
        nonce@.len() == 12,
    ensures
        (r is Ok) == (aead_open(key@, nonce@, data@) is Some),
        r is Ok ==> r->Ok_0@ == aead_open(key@, nonce@, data@)->0,
        r is Err ==> r->Err_0 == CryptoError::AeadFailure,
{
    let cipher = Aes256Gcm::new(Key::<Aes256Gcm>::from_slice(key));
    match cipher.decrypt(Nonce::from_slice(nonce), data) {
        Ok(v) => Ok(v),
        Err(_) => Err(CryptoError::AeadFailure),
    }
}

/// The nonce used for the packet with the given counter: the first 4 bytes
/// of the base nonce unchanged, the last 8 XORed with the little-endian
/// bytes of the counter.
pub open spec fn spec_derive_nonce(base: Seq<u8>, counter: u64) -> Seq<u8>
    recommends
        base.len() == 12,
{
    Seq::new(12, |i: int| if i < 4 {
        base[i]
    } else {
        base[i] ^ spec_u64_to_le_bytes(counter)[i - 4]
    })
}

/// Derive a unique 12-byte nonce from a base nonce and a packet counter.
///
/// The counter is XORed into the last 8 bytes of the base nonce, so the
/// same base nonce yields a distinct nonce for every counter value
/// (see `lemma_derive_nonce_injective`).
pub fn derive_nonce(base_nonce: &[u8], counter: u64) -> (derived: Vec<u8>)
    requires
        base_nonce@.len() == 12,
    ensures
        derived@ == spec_derive_nonce(base_nonce@, counter),
        derived@.len() == 12,
{
    proof {
        lemma_auto_spec_u64_to_from_le_bytes();
    }
    let counter_bytes = u64_to_le_bytes(counter);
    let mut derived: Vec<u8> = Vec::new();
    let mut i: usize = 0;
    while i < 4
        invariant
            i <= 4,
            base_nonce@.len() == 12,
            derived@.len() == i,
            forall|j: int| 0 <= j < i ==> derived@[j] == spec_derive_nonce(base_nonce@, counter)[j],
        decreases 4 - i,
    {
        derived.push(base_nonce[i]);
        i = i + 1;
    }
    let mut k: usize = 0;
    while k < 8
        invariant
            k <= 8,
            base_nonce@.len() == 12,
            counter_bytes@ == spec_u64_to_le_bytes(counter),
            counter_bytes@.len() == 8,
            derived@.len() == 4 + k,
            forall|j: int| 0 <= j < 4 + k ==> derived@[j] == spec_derive_nonce(base_nonce@, counter)[j],
        decreases 8 - k,
    {
        derived.push(base_nonce[4 + k] ^ counter_bytes[k]);
        k = k + 1;
    }
    assert(derived@ =~= spec_derive_nonce(base_nonce@, counter));
    derived
}

/// Nonce uniqueness: for a fixed base nonce, distinct packet counters always
/// derive distinct nonces, so a session never reuses an AES-GCM nonce.
pub proof fn lemma_derive_nonce_injective(base: Seq<u8>, c1: u64, c2: u64)
    requires
        base.len() == 12,
        spec_derive_nonce(base, c1) == spec_derive_nonce(base, c2),
    ensures
        c1 == c2,
{
    lemma_auto_spec_u64_to_from_le_bytes();
    let s1 = spec_u64_to_le_bytes(c1);
    let s2 = spec_u64_to_le_bytes(c2);
    assert forall|i: int| 0 <= i < 8 implies s1[i] == s2[i] by {
        assert(spec_derive_nonce(base, c1)[i + 4] == spec_derive_nonce(base, c2)[i + 4]);
        let x = base[i + 4];
        let b1 = s1[i];
        let b2 = s2[i];
        assert(spec_derive_nonce(base, c1)[i + 4] == x ^ b1);
        assert(spec_derive_nonce(base, c2)[i + 4] == x ^ b2);
        assert(x ^ b1 == x ^ b2);
        assert(b1 == b2) by (bit_vector)
            requires
                x ^ b1 == x ^ b2,
        ;
    }
    assert(s1 =~= s2);
    assert(spec_u64_from_le_bytes(s1) == spec_u64_from_le_bytes(s2));
}

/// Encrypt `plaintext` with AES-256-GCM under a counter-derived nonce.
///
/// The key is 32 bytes as 64 hex chars, the base nonce 12 bytes as 24 hex
/// chars. The result is ciphertext plus tag; the nonce is derived from the
/// counter rather than transmitted, and decrypting with the same counter
/// recovers the plaintext.
pub fn encrypt_with_counter(
    key_hex: &str,
    nonce_hex: &str,
    counter: u64,
    plaintext: &[u8],
) -> (r: Result<Vec<u8>, CryptoError>)
    requires
        is_hex_seq(key_hex@) ==> hex_decoded(key_hex@).len() == 32,
        is_hex_seq(nonce_hex@) ==> hex_decoded(nonce_hex@).len() == 12,
        plaintext@.len() <= MAX_AEAD_PLAINTEXT,
    ensures
        (r == Err::<Vec<u8>, CryptoError>(CryptoError::BadKeyHex)) <==> !is_hex_seq(key_hex@),
        (r == Err::<Vec<u8>, CryptoError>(CryptoError::BadNonceHex))
            <==> (is_hex_seq(key_hex@) && !is_hex_seq(nonce_hex@)),
        (is_hex_seq(key_hex@) && is_hex_seq(nonce_hex@)) ==> r is Ok,
        r is Ok ==> r->Ok_0@ == aead_seal(
            hex_decoded(key_hex@),
            spec_derive_nonce(hex_decoded(nonce_hex@), counter),
            plaintext@,
        ),
        r is Ok ==> r->Ok_0@.len() == plaintext@.len() + 16,
        r is Ok ==> aead_open(
            hex_decoded(key_hex@),
            spec_derive_nonce(hex_decoded(nonce_hex@), counter),
            r->Ok_0@,
        ) == Some(plaintext@),
{
    let key_bytes = match hex_decode(key_hex) {
        Some(v) => v,
        None => {
            return Err(CryptoError::BadKeyHex);
        },
    };
    let base_nonce = match hex_decode(nonce_hex) {
        Some(v) => v,
        None => {
            return Err(CryptoError::BadNonceHex);
        },
    };
    let derived = derive_nonce(base_nonce.as_slice(), counter);
    aead_encrypt(key_bytes.as_slice(), derived.as_slice(), plaintext)
}

/// Decrypt a blob produced by `encrypt_with_counter` with the same key,
/// base nonce and counter. Fails exactly when the tag does not authenticate
/// under the counter-derived nonce.
pub fn decrypt_with_counter(
    key_hex: &str,
    nonce_hex: &str,
    counter: u64,
    data: &[u8],
) -> (r: Result<Vec<u8>, CryptoError>)
    requires
        is_hex_seq(key_hex@) ==> hex_decoded(key_hex@).len() == 32,
        is_hex_seq(nonce_hex@) ==> hex_decoded(nonce_hex@).len() == 12,
    ensures
        (r == Err::<Vec<u8>, CryptoError>(CryptoError::BadKeyHex)) <==> !is_hex_seq(key_hex@),
        (r == Err::<Vec<u8>, CryptoError>(CryptoError::BadNonceHex))
            <==> (is_hex_seq(key_hex@) && !is_hex_seq(nonce_hex@)),
        (is_hex_seq(key_hex@) && is_hex_seq(nonce_hex@)) ==> ((r is Ok) <==> aead_open(
            hex_decoded(key_hex@),
            spec_derive_nonce(hex_decoded(nonce_hex@), counter),
            data@,
        ) is Some),
        r is Ok ==> r->Ok_0@ == aead_open(
            hex_decoded(key_hex@),
            spec_derive_nonce(hex_decoded(nonce_hex@), counter),
            data@,
        )->0,
{
    let key_bytes = match hex_decode(key_hex) {
        Some(v) => v,
        None => {
            return Err(CryptoError::BadKeyHex);
        },
    };
    let base_nonce = match hex_decode(nonce_hex) {
        Some(v) => v,
        None => {
            return Err(CryptoError::BadNonceHex);
        },
    };
    let derived = derive_nonce(base_nonce.as_slice(), counter);
    aead_decrypt(key_bytes.as_slice(), derived.as_slice(), data)
}

/// Encrypt `plaintext` with AES-256-GCM directly under the base nonce and
/// prepend the 12 nonce bytes, so the blob is self-contained.
pub fn encrypt(key_hex: &str, nonce_hex: &str, plaintext: &[u8]) -> (r: Result<
    Vec<u8>,
    CryptoError,
>)
    requires
        is_hex_seq(key_hex@) ==> hex_decoded(key_hex@).len() == 32,
        is_hex_seq(nonce_hex@) ==> hex_decoded(nonce_hex@).len() == 12,
        plaintext@.len() <= MAX_AEAD_PLAINTEXT,
    ensures
        (r == Err::<Vec<u8>, CryptoError>(CryptoError::BadKeyHex)) <==> !is_hex_seq(key_hex@),
        (r == Err::<Vec<u8>, CryptoError>(CryptoError::BadNonceHex))
            <==> (is_hex_seq(key_hex@) && !is_hex_seq(nonce_hex@)),
        (is_hex_seq(key_hex@) && is_hex_seq(nonce_hex@)) ==> r is Ok,
        r is Ok ==> r->Ok_0@ == hex_decoded(nonce_hex@) + aead_seal(
            hex_decoded(key_hex@),
            hex_decoded(nonce_hex@),
            plaintext@,
        ),
        r is Ok ==> r->Ok_0@.len() == 12 + plaintext@.len() + 16,
        r is Ok ==> aead_open(
            hex_decoded(key_hex@),
            hex_decoded(nonce_hex@),
            aead_seal(hex_decoded(key_hex@), hex_decoded(nonce_hex@), plaintext@),
        ) == Some(plaintext@),
{
    let key_bytes = match hex_decode(key_hex) {
        Some(v) => v,
        None => {
            return Err(CryptoError::BadKeyHex);
        },
    };
    let nonce_bytes = match hex_decode(nonce_hex) {
        Some(v) => v,
        None => {
            return Err(CryptoError::BadNonceHex);
        },
    };
    let mut ciphertext = match aead_encrypt(
        key_bytes.as_slice(),
        nonce_bytes.as_slice(),
        plaintext,
    ) {
        Ok(v) => v,
        Err(e) => {
            return Err(e);
        },
    };
    let mut out = nonce_bytes;
    out.append(&mut ciphertext);
    Ok(out)
}

/// Decrypt a blob produced by `encrypt`: the first 12 bytes are the nonce,
/// the rest is ciphertext plus tag.
pub fn decrypt(key_hex: &str, data: &[u8]) -> (r: Result<Vec<u8>, CryptoError>)
    requires
        is_hex_seq(key_hex@) ==> hex_decoded(key_hex@).len() == 32,
    ensures
        (r == Err::<Vec<u8>, CryptoError>(CryptoError::CiphertextTooShort)) <==> data@.len() < 12,
        (r == Err::<Vec<u8>, CryptoError>(CryptoError::BadKeyHex)) <==> (data@.len() >= 12
            && !is_hex_seq(key_hex@)),
        (data@.len() >= 12 && is_hex_seq(key_hex@)) ==> ((r is Ok) <==> aead_open(
            hex_decoded(key_hex@),
            data@.subrange(0, 12),
            data@.subrange(12, data@.len() as int),
        ) is Some),
        r is Ok ==> r->Ok_0@ == aead_open(
            hex_decoded(key_hex@),
            data@.subrange(0, 12),
            data@.subrange(12, data@.len() as int),
        )->0,
{
    if data.len() < 12 {
        return Err(CryptoError::CiphertextTooShort);
    }
    let key_bytes = match hex_decode(key_hex) {
        Some(v) => v,
        None => {
            return Err(CryptoError::BadKeyHex);
        },
    };
    let nonce = slice_subrange(data, 0, 12);
    let ciphertext = slice_subrange(data, 12, data.len());
    aead_decrypt(key_bytes.as_slice(), nonce, ciphertext)
}

} // verus!
