//! SOCKS5 frontend: the subset of RFC 1928 this system serves.
//!
//! Version 5, NO AUTH method negotiation, CONNECT only; targets arrive as
//! IPv4 or domain addresses. These functions parse and build the wire
//! bytes; the sockets that carry them live outside the library.

use vstd::prelude::*;
use vstd::slice::slice_subrange;
use crate::strutil::{dec_bytes, push_decimal_bytes};

verus! {

/// Why a client request was refused.
#[derive(Debug, Clone, Copy, PartialEq, Eq, Structural)]
pub enum SocksError {
    /// More bytes are needed than the buffer holds.
    Incomplete,
    /// The version byte is not 5.
    InvalidVersion,
    /// A command other than CONNECT.
    UnsupportedCommand,
    /// An address type other than IPv4 or domain.
    UnsupportedAddressType,
    /// A domain that is empty or holds a forbidden byte.
    InvalidDomain,
}

/// A parsed connect target: a host as bytes (dotted-decimal for IPv4, the
/// raw name for domains) and a port.
#[derive(Debug, Clone, PartialEq, Eq)]
pub struct SocksTarget {
    pub host: Vec<u8>,
    pub port: u16,
}

/// A byte allowed in a requested domain name: letters, digits, dot, dash.
pub open spec fn is_domain_byte(b: u8) -> bool {
    (48 <= b && b <= 57) || (65 <= b && b <= 90) || (97 <= b && b <= 122) || b == 46 || b == 45
}

/// A well-formed domain: 1 to 255 allowed bytes.
pub open spec fn valid_domain(s: Seq<u8>) -> bool {
    1 <= s.len() <= 255 && (forall|i: int| 0 <= i < s.len() ==> is_domain_byte(#[trigger] s[i]))
}

/// A big-endian port.
pub open spec fn be_port(hi: u8, lo: u8) -> int {
    hi * 256 + lo
}

/// The dotted-decimal text of an IPv4 address, as bytes.
pub open spec fn dotted_quad(a: u8, b: u8, c: u8, d: u8) -> Seq<u8> {
    dec_bytes(a as nat) + seq![46u8] + dec_bytes(b as nat) + seq![46u8] + dec_bytes(c as nat)
        + seq![46u8] + dec_bytes(d as nat)
}

/// Whether the buffer holds a well-formed request head: version 5 and
/// command CONNECT.
pub open spec fn head_ok(buf: Seq<u8>) -> bool {
    buf.len() >= 4 && buf[0] == 5 && buf[1] == 1
}

/// Check a client greeting: the version must be 5; the reported method
/// count is handed back for the caller to consume.
pub fn parse_client_greeting(ver: u8, nmethods: u8) -> (r: Result<usize, SocksError>)
    ensures
        ver == 5 ==> r == Ok::<usize, SocksError>(nmethods as usize),
        ver != 5 ==> r == Err::<usize, SocksError>(SocksError::InvalidVersion),
{
    if ver == 5 {
        Ok(nmethods as usize)
    } else {
        Err(SocksError::InvalidVersion)
    }
}

/// The method-selection reply: version 5, NO AUTH.
pub fn method_selection_reply() -> (r: Vec<u8>)
    ensures
        r@ == seq![5u8, 0u8],
{
    let mut v: Vec<u8> = Vec::new();
    v.push(5);
    v.push(0);
    proof {
        assert(v@ =~= seq![5u8, 0u8]);
    }
    v
}

/// The success reply sent once the circuit is up: version 5, succeeded,
/// IPv4 bound address of all zeros.
pub fn socks5_success_reply() -> (r: Vec<u8>)
    ensures
        r@ == seq![5u8, 0u8, 0u8, 1u8, 0u8, 0u8, 0u8, 0u8, 0u8, 0u8],
{
    let mut v: Vec<u8> = Vec::new();
    v.push(5);
    v.push(0);
    v.push(0);
    v.push(1);
    let mut i: usize = 0;
    while i < 6
        invariant
            i <= 6,
            v@.len() == 4 + i,
            v@.subrange(0, 4) =~= seq![5u8, 0u8, 0u8, 1u8],
            forall|j: int| 4 <= j < v@.len() ==> v@[j] == 0u8,
        decreases 6 - i,
    {
        v.push(0);
        i = i + 1;
    }
    proof {
        assert(v@ =~= seq![5u8, 0u8, 0u8, 1u8, 0u8, 0u8, 0u8, 0u8, 0u8, 0u8]);
    }
    v
}

/// The dotted-decimal text of an IPv4 address.
fn ipv4_host(a: u8, b: u8, c: u8, d: u8) -> (r: Vec<u8>)
    ensures
        r@ == dotted_quad(a, b, c, d),
{
    let mut v: Vec<u8> = Vec::new();
    push_decimal_bytes(&mut v, a as u16);
    v.push(46);
    push_decimal_bytes(&mut v, b as u16);
    v.push(46);
    push_decimal_bytes(&mut v, c as u16);
    v.push(46);
    push_decimal_bytes(&mut v, d as u16);
    proof {
        assert(v@ =~= dotted_quad(a, b, c, d));
    }
    v
}

/// Check that every byte of a requested domain is allowed.
fn domain_bytes_ok(name: &[u8]) -> (ok: bool)
    ensures
        ok == (forall|i: int| 0 <= i < name@.len() ==> is_domain_byte(#[trigger] name@[i])),
{
    let mut i: usize = 0;
    while i < name.len()
        invariant
            i <= name@.len(),
            forall|j: int| 0 <= j < i ==> is_domain_byte(#[trigger] name@[j]),
        decreases name@.len() - i,
    {
        let b = name[i];
        let ok = (48 <= b && b <= 57) || (65 <= b && b <= 90) || (97 <= b && b <= 122) || b == 46
            || b == 45;
        if !ok {
            return false;
        }
        i = i + 1;
    }
    true
}

/// Parse a SOCKS5 CONNECT request from the bytes that follow method
/// negotiation: the 4-byte head, then an IPv4 or domain target and a
/// big-endian port. On success the target and the number of bytes
/// consumed are returned; `Incomplete` asks the caller for more bytes.
pub fn parse_socks5_request(buf: &[u8]) -> (r: Result<(SocksTarget, usize), SocksError>)
    ensures
        buf@.len() < 4 ==> r == Err::<(SocksTarget, usize), SocksError>(SocksError::Incomplete),
        buf@.len() >= 4 && buf@[0] != 5 ==> r == Err::<(SocksTarget, usize), SocksError>(
            SocksError::InvalidVersion,
        ),
        buf@.len() >= 4 && buf@[0] == 5 && buf@[1] != 1 ==> r == Err::<
            (SocksTarget, usize),
            SocksError,
        >(SocksError::UnsupportedCommand),
        head_ok(buf@) && buf@[3] == 1 ==> {
            if buf@.len() < 10 {
                r == Err::<(SocksTarget, usize), SocksError>(SocksError::Incomplete)
            } else {
                &&& r is Ok
                &&& r->Ok_0.0.host@ == dotted_quad(buf@[4], buf@[5], buf@[6], buf@[7])
                &&& r->Ok_0.0.port == be_port(buf@[8], buf@[9])
                &&& r->Ok_0.1 == 10
            }
        },
        head_ok(buf@) && buf@[3] == 3 ==> {
            if buf@.len() < 5 {
                r == Err::<(SocksTarget, usize), SocksError>(SocksError::Incomplete)
            } else if buf@[4] == 0 {
                r == Err::<(SocksTarget, usize), SocksError>(SocksError::InvalidDomain)
            } else if buf@.len() < 7 + buf@[4] {
                r == Err::<(SocksTarget, usize), SocksError>(SocksError::Incomplete)
            } else if !valid_domain(buf@.subrange(5, 5 + buf@[4])) {
                r == Err::<(SocksTarget, usize), SocksError>(SocksError::InvalidDomain)
            } else {
                &&& r is Ok
                &&& r->Ok_0.0.host@ == buf@.subrange(5, 5 + buf@[4])
                &&& r->Ok_0.0.port == be_port(buf@[5 + buf@[4]], buf@[6 + buf@[4]])
                &&& r->Ok_0.1 == 7 + buf@[4]
            }
        },
        head_ok(buf@) && buf@[3] != 1 && buf@[3] != 3 ==> r == Err::<
            (SocksTarget, usize),
            SocksError,
        >(SocksError::UnsupportedAddressType),
{
    if buf.len() < 4 {
        return Err(SocksError::Incomplete);
    }
    if buf[0] != 5 {
        return Err(SocksError::InvalidVersion);
    }
    if buf[1] != 1 {
        return Err(SocksError::UnsupportedCommand);
    }
    let atyp = buf[3];
    if atyp == 1 {
        if buf.len() < 10 {
            return Err(SocksError::Incomplete);
        }
        let host = ipv4_host(buf[4], buf[5], buf[6], buf[7]);
        let port: u16 = (buf[8] as u16) * 256 + (buf[9] as u16);
        Ok((SocksTarget { host, port }, 10))
    } else if atyp == 3 {
        if buf.len() < 5 {
            return Err(SocksError::Incomplete);
        }
        let l = buf[4] as usize;
        if l == 0 {
            return Err(SocksError::InvalidDomain);
        }
        if buf.len() < 7 + l {
            return Err(SocksError::Incomplete);
        }
        let name = slice_subrange(buf, 5, 5 + l);
        if !domain_bytes_ok(name) {
            return Err(SocksError::InvalidDomain);
        }
        let host = vstd::slice::slice_to_vec(name);
        let port: u16 = (buf[5 + l] as u16) * 256 + (buf[6 + l] as u16);
        Ok((SocksTarget { host, port }, 7 + l))
    } else {
        Err(SocksError::UnsupportedAddressType)
    }
}

} // verus!
