//! Circuit building: the per-hop upstream handshakes.
//!
//! Each hop is told to connect only to the next hop; only the exit hop
//! learns the target. These functions build and check the exact handshake
//! bytes for SOCKS5 and HTTP CONNECT upstreams; the nested sockets that
//! carry them live outside the library.

use vstd::prelude::*;
use vstd::string::StringSliceAdditionalSpecFns;
use vstd::utf8::encode_utf8;
use crate::types::ChainHop;
use crate::strutil::{ascii_bytes, dec_bytes, push_str_bytes, push_decimal_bytes};

verus! {

/// After a failed build, how many more attempts are made.
pub const MAX_BUILD_RETRIES: u32 = 3;

/// Per-hop probe timeout during pre-verification, in seconds.
pub const PROBE_TIMEOUT_SECS: u64 = 5;

/// Upstream SOCKS5 handshake timeout, in seconds.
pub const HANDSHAKE_TIMEOUT_SECS: u64 = 5;

/// HTTP CONNECT header read timeout, in seconds.
pub const HTTP_HEADER_TIMEOUT_SECS: u64 = 3;

/// Largest HTTP CONNECT reply header accepted, in bytes.
pub const HTTP_HEADER_CAP: usize = 4096;

/// Why a handshake frame could not be built or was rejected.
#[derive(Debug, Clone, Copy, PartialEq, Eq, Structural)]
pub enum CircuitError {
    /// A host name that does not fit a SOCKS5 domain field.
    HostTooLong,
    /// An empty host name.
    EmptyHost,
}

/// The greeting this system sends to a SOCKS5 upstream: version 5, one
/// method, NO AUTH.
pub fn socks5_greeting() -> (r: Vec<u8>)
    ensures
        r@ == seq![5u8, 1u8, 0u8],
{
    let mut v: Vec<u8> = Vec::new();
    v.push(5);
    v.push(1);
    v.push(0);
    proof {
        assert(v@ =~= seq![5u8, 1u8, 0u8]);
    }
    v
}

/// Whether a SOCKS5 method-selection reply accepts NO AUTH.
pub fn socks5_method_reply_ok(reply: &[u8]) -> (ok: bool)
    requires
        reply@.len() == 2,
    ensures
        ok == (reply@[0] == 5 && reply@[1] == 0),
{
    reply[0] == 5 && reply[1] == 0
}

/// The SOCKS5 CONNECT request for a host and port, using the DOMAIN
/// address type so the upstream resolves the name itself.
pub open spec fn socks5_connect_request(host: Seq<u8>, port: u16) -> Seq<u8>
    recommends
        1 <= host.len() <= 255,
{
    seq![5u8, 1u8, 0u8, 3u8, host.len() as u8] + host + seq![(port / 256) as u8, (port % 256) as u8]
}

/// Build the SOCKS5 CONNECT request for a host and port. Fails exactly
/// when the host is empty or longer than a domain field can carry.
pub fn build_socks5_connect(host: &[u8], port: u16) -> (r: Result<Vec<u8>, CircuitError>)
    ensures
        host@.len() == 0 ==> r == Err::<Vec<u8>, CircuitError>(CircuitError::EmptyHost),
        host@.len() > 255 ==> r == Err::<Vec<u8>, CircuitError>(CircuitError::HostTooLong),
        1 <= host@.len() <= 255 ==> r is Ok && r->Ok_0@ == socks5_connect_request(host@, port),
{
    if host.len() == 0 {
        return Err(CircuitError::EmptyHost);
    }
    if host.len() > 255 {
        return Err(CircuitError::HostTooLong);
    }
    let mut v: Vec<u8> = Vec::new();
    v.push(5);
    v.push(1);
    v.push(0);
    v.push(3);
    v.push(host.len() as u8);
    v.extend_from_slice(host);
    v.push((port / 256) as u8);
    v.push((port % 256) as u8);
    proof {
        assert(v@ =~= socks5_connect_request(host@, port));
    }
    Ok(v)
}

/// Whether a SOCKS5 CONNECT reply head reports success (reply code 0).
pub fn socks5_connect_reply_ok(head: &[u8]) -> (ok: bool)
    requires
        head@.len() == 4,
    ensures
        ok == (head@[1] == 0),
{
    head[1] == 0
}

/// How many bytes of bound address and port follow a SOCKS5 CONNECT reply
/// head: 6 for IPv4, 18 for IPv6, none known yet for a domain (its length
/// byte comes first), 0 for anything else.
pub open spec fn spec_bound_tail(atyp: u8) -> Option<usize> {
    if atyp == 1 {
        Some(6usize)
    } else if atyp == 4 {
        Some(18usize)
    } else if atyp == 3 {
        None
    } else {
        Some(0usize)
    }
}

/// The bytes still to consume after a SOCKS5 CONNECT reply head, by
/// address type; a domain reply needs its length byte read first.
pub fn socks5_bound_tail(atyp: u8) -> (r: Option<usize>)
    ensures
        r == spec_bound_tail(atyp),
{
    if atyp == 1 {
        Some(6)
    } else if atyp == 4 {
        Some(18)
    } else if atyp == 3 {
        None
    } else {
        Some(0)
    }
}

/// The bytes to consume for a domain-typed bound address of length `l`:
/// the name and the two port bytes.
pub fn socks5_domain_tail(l: u8) -> (r: usize)
    ensures
        r == l + 2,
{
    (l as usize) + 2
}

/// The "host:port" text of a target, as bytes.
pub open spec fn host_port_bytes(host: Seq<u8>, port: u16) -> Seq<u8> {
    host + seq![58u8] + dec_bytes(port as nat)
}

/// The exact HTTP CONNECT request for a target.
pub open spec fn http_connect_request(host: Seq<u8>, port: u16) -> Seq<u8> {
    ascii_bytes("CONNECT "@) + host_port_bytes(host, port) + ascii_bytes(" HTTP/1.1\r\nHost: "@)
        + host_port_bytes(host, port) + ascii_bytes("\r\n\r\n"@)
}

/// Build the HTTP CONNECT request for a host and port.
pub fn build_http_connect(host: &[u8], port: u16) -> (r: Vec<u8>)
    ensures
        r@ == http_connect_request(host@, port),
{
    proof {
        reveal_strlit("CONNECT ");
        reveal_strlit(" HTTP/1.1\r\nHost: ");
        reveal_strlit("\r\n\r\n");
        assert(vstd::string::is_ascii("CONNECT "));
        assert(vstd::string::is_ascii(" HTTP/1.1\r\nHost: "));
        assert(vstd::string::is_ascii("\r\n\r\n"));
    }
    let mut v: Vec<u8> = Vec::new();
    push_str_bytes(&mut v, "CONNECT ");
    v.extend_from_slice(host);
    v.push(58);
    push_decimal_bytes(&mut v, port);
    push_str_bytes(&mut v, " HTTP/1.1\r\nHost: ");
    v.extend_from_slice(host);
    v.push(58);
    push_decimal_bytes(&mut v, port);
    push_str_bytes(&mut v, "\r\n\r\n");
    proof {
        assert(v@ =~= http_connect_request(host@, port));
    }
    v
}

/// Whether `needle` occurs contiguously inside `hay`.
pub open spec fn contains_seq(hay: Seq<u8>, needle: Seq<u8>) -> bool {
    exists|k: int|
        0 <= k <= hay.len() - needle.len() && #[trigger] hay.subrange(k, k + needle.len())
            == needle
}

/// Whether `needle` matches `hay` at offset `k`.
fn match_at(hay: &[u8], needle: &[u8], k: usize) -> (eq: bool)
    requires
        k + needle@.len() <= hay@.len(),
    ensures
        eq == (hay@.subrange(k as int, k + needle@.len()) == needle@),
{
    let hay_len = hay.len();
    let mut i: usize = 0;
    while i < needle.len()
        invariant
            i <= needle@.len(),
            k + needle@.len() <= hay@.len(),
            hay@.len() == hay_len,
            forall|t: int| 0 <= t < i ==> hay@[k + t] == needle@[t],
        decreases needle@.len() - i,
    {
        if hay[k + i] != needle[i] {
            proof {
                assert(hay@.subrange(k as int, k + needle@.len())[i as int] == hay@[k + i]);
            }
            return false;
        }
        i = i + 1;
    }
    proof {
        assert(hay@.subrange(k as int, k + needle@.len()) =~= needle@);
    }
    true
}

/// Search for `needle` inside `hay`.
fn contains_bytes(hay: &[u8], needle: &[u8]) -> (found: bool)
    requires
        needle@.len() >= 1,
    ensures
        found == contains_seq(hay@, needle@),
{
    if hay.len() < needle.len() {
        proof {
            assert(!contains_seq(hay@, needle@));
        }
        return false;
    }
    let end = hay.len() - needle.len();
    let mut k: usize = 0;
    while k <= end
        invariant
            hay@.len() >= needle@.len() >= 1,
            hay@.len() <= usize::MAX,
            end == hay@.len() - needle@.len(),
            k <= end + 1,
            forall|t: int| 0 <= t < k ==> #[trigger] hay@.subrange(t, t + needle@.len())
                != needle@,
        decreases end - k + 1,
    {
        if match_at(hay, needle, k) {
            return true;
        }
        k = k + 1;
    }
    proof {
        assert(!contains_seq(hay@, needle@));
    }
    false
}

/// Whether an HTTP CONNECT reply header reports an established tunnel:
/// it contains "200 Connection established" or "200 OK".
pub fn http_reply_established(header: &[u8]) -> (ok: bool)
    ensures
        ok == (contains_seq(header@, ascii_bytes("200 Connection established"@)) || contains_seq(
            header@,
            ascii_bytes("200 OK"@),
        )),
{
    proof {
        reveal_strlit("200 Connection established");
        reveal_strlit("200 OK");
        assert(vstd::string::is_ascii("200 Connection established"));
        assert(vstd::string::is_ascii("200 OK"));
    }
    let mut established: Vec<u8> = Vec::new();
    push_str_bytes(&mut established, "200 Connection established");
    let mut ok200: Vec<u8> = Vec::new();
    push_str_bytes(&mut ok200, "200 OK");
    contains_bytes(header, established.as_slice()) || contains_bytes(header, ok200.as_slice())
}

/// Whether the buffered reply bytes end in the blank line that closes an
/// HTTP header.
pub fn http_header_complete(buf: &[u8]) -> (done: bool)
    ensures
        done == (buf@.len() >= 4 && buf@.subrange(
            buf@.len() - 4,
            buf@.len() as int,
        ) == ascii_bytes("\r\n\r\n"@)),
{
    proof {
        reveal_strlit("\r\n\r\n");
        assert(vstd::string::is_ascii("\r\n\r\n"));
    }
    if buf.len() < 4 {
        return false;
    }
    let n = buf.len();
    let done = buf[n - 4] == 13 && buf[n - 3] == 10 && buf[n - 2] == 13 && buf[n - 1] == 10;
    proof {
        let l = buf@.len() as int;
        let s = buf@.subrange(l - 4, l);
        assert(s[0] == buf@[l - 4] && s[1] == buf@[l - 3] && s[2] == buf@[l - 2] && s[3] == buf@[l
            - 1]);
        let e = ascii_bytes("\r\n\r\n"@);
        assert(e[0] == 13 && e[1] == 10 && e[2] == 13 && e[3] == 10);
        if done {
            assert(s =~= e);
        }
    }
    done
}

/// The destination a hop is told to connect to: the next hop's address,
/// or the client's target at the exit hop.
pub fn next_destination(chain: &Vec<ChainHop>, i: usize, target_host: &[u8], target_port: u16) -> (r:
    (Vec<u8>, u16))
    requires
        i < chain@.len(),
    ensures
        i + 1 < chain@.len() ==> r.0@ == encode_utf8(chain@[i as int + 1].ip@) && r.1 == chain@[i
            as int + 1].port,
        i + 1 == chain@.len() ==> r.0@ == target_host@ && r.1 == target_port,
{
    let n = chain.len();
    if i < n - 1 {
        let next = &chain[i + 1];
        let host = next.ip.as_str().as_bytes_vec();
        (host, next.port)
    } else {
        (vstd::slice::slice_to_vec(target_host), target_port)
    }
}

} // verus!
