//! Core logic of an anonymizing multi-hop proxy tunnel: proxy inventory
//! bookkeeping, mode-specific pool filtering, weighted chain selection,
//! per-hop keying material, SOCKS5 parsing, upstream handshake framing,
//! and the counter-nonced AEAD data plane.

pub mod circuit;
pub mod crypto;
pub mod frame;
pub mod hexcode;
pub mod liveness;
pub mod polish;
pub mod rotator;
pub mod socks;
pub mod strutil;
pub mod types;

pub use crypto::derive_nonce;
