use spectre_tunnel::circuit::{
    build_http_connect, build_socks5_connect, http_header_complete, http_reply_established,
    next_destination, socks5_bound_tail, socks5_connect_reply_ok, socks5_domain_tail,
    socks5_greeting, socks5_method_reply_ok, CircuitError, HTTP_HEADER_CAP, MAX_BUILD_RETRIES,
};
use spectre_tunnel::frame::{
    encode_frame, open_packet, parse_frame, seal_packet, DirectionCounter, FrameError, CHUNK_SIZE,
    MAX_FRAME_PAYLOAD,
};
use spectre_tunnel::socks::{
    method_selection_reply, parse_client_greeting, parse_socks5_request, socks5_success_reply,
    SocksError,
};
use spectre_tunnel::types::ChainHop;

fn hop(ip: &str, port: u16, proto: &str) -> ChainHop {
    ChainHop {
        ip: ip.to_string(),
        port,
        proto: proto.to_string(),
        country: "us".to_string(),
        latency_ms: 100,
        score_milli: 800,
    }
}

#[test]
fn test_socks5_greeting_and_replies() {
    assert_eq!(socks5_greeting(), vec![0x05, 0x01, 0x00]);
    assert_eq!(method_selection_reply(), vec![0x05, 0x00]);
    assert_eq!(
        socks5_success_reply(),
        vec![0x05, 0x00, 0x00, 0x01, 0, 0, 0, 0, 0, 0]
    );
    assert!(socks5_method_reply_ok(&[0x05, 0x00]));
    assert!(!socks5_method_reply_ok(&[0x05, 0xFF]));
    assert!(!socks5_method_reply_ok(&[0x04, 0x00]));
}

#[test]
fn test_client_greeting_check() {
    assert_eq!(parse_client_greeting(0x05, 2), Ok(2));
    assert_eq!(
        parse_client_greeting(0x04, 1),
        Err(SocksError::InvalidVersion)
    );
}

#[test]
fn test_parse_domain_request() {
    // 05 01 00 03, length 11, "example.com", port 80 big-endian.
    let mut buf = vec![0x05, 0x01, 0x00, 0x03, 0x0B];
    buf.extend_from_slice(b"example.com");
    buf.extend_from_slice(&[0x00, 0x50]);
    let (target, consumed) = parse_socks5_request(&buf).expect("well-formed request");
    assert_eq!(target.host, b"example.com".to_vec());
    assert_eq!(target.port, 80);
    assert_eq!(consumed, buf.len());
}

#[test]
fn test_parse_ipv4_request() {
    let buf = vec![0x05, 0x01, 0x00, 0x01, 1, 2, 3, 4, 0x1F, 0x90];
    let (target, consumed) = parse_socks5_request(&buf).expect("well-formed request");
    assert_eq!(target.host, b"1.2.3.4".to_vec());
    assert_eq!(target.port, 8080);
    assert_eq!(consumed, 10);
}

#[test]
fn test_parse_request_rejections() {
    assert_eq!(
        parse_socks5_request(&[0x04, 0x01, 0x00, 0x01]),
        Err(SocksError::InvalidVersion)
    );
    assert_eq!(
        parse_socks5_request(&[0x05, 0x02, 0x00, 0x01]),
        Err(SocksError::UnsupportedCommand)
    );
    assert_eq!(
        parse_socks5_request(&[0x05, 0x01, 0x00, 0x04]),
        Err(SocksError::UnsupportedAddressType)
    );
    assert_eq!(
        parse_socks5_request(&[0x05, 0x01]),
        Err(SocksError::Incomplete)
    );
    assert_eq!(
        parse_socks5_request(&[0x05, 0x01, 0x00, 0x01, 1, 2]),
        Err(SocksError::Incomplete)
    );
    // A zero-length domain is invalid.
    assert_eq!(
        parse_socks5_request(&[0x05, 0x01, 0x00, 0x03, 0x00, 0x00, 0x50]),
        Err(SocksError::InvalidDomain)
    );
    // A control byte inside a domain is invalid.
    let mut bad = vec![0x05, 0x01, 0x00, 0x03, 0x03];
    bad.extend_from_slice(&[b'a', 0x07, b'b']);
    bad.extend_from_slice(&[0x00, 0x50]);
    assert_eq!(parse_socks5_request(&bad), Err(SocksError::InvalidDomain));
}

#[test]
fn test_build_socks5_connect_bytes() {
    let req = build_socks5_connect(b"example.com", 443).expect("host fits");
    let mut expected = vec![0x05, 0x01, 0x00, 0x03, 0x0B];
    expected.extend_from_slice(b"example.com");
    expected.extend_from_slice(&[0x01, 0xBB]);
    assert_eq!(req, expected);

    assert_eq!(build_socks5_connect(b"", 80), Err(CircuitError::EmptyHost));
    let long = vec![b'a'; 256];
    assert_eq!(
        build_socks5_connect(&long, 80),
        Err(CircuitError::HostTooLong)
    );
}

#[test]
fn test_socks5_reply_handling() {
    assert!(socks5_connect_reply_ok(&[0x05, 0x00, 0x00, 0x01]));
    assert!(!socks5_connect_reply_ok(&[0x05, 0x05, 0x00, 0x01]));
    assert_eq!(socks5_bound_tail(0x01), Some(6));
    assert_eq!(socks5_bound_tail(0x04), Some(18));
    assert_eq!(socks5_bound_tail(0x03), None);
    assert_eq!(socks5_bound_tail(0x7F), Some(0));
    assert_eq!(socks5_domain_tail(9), 11);
}

#[test]
fn test_http_connect_exact_bytes() {
    let req = build_http_connect(b"example.com", 443);
    assert_eq!(
        req,
        b"CONNECT example.com:443 HTTP/1.1\r\nHost: example.com:443\r\n\r\n".to_vec()
    );
}

#[test]
fn test_http_reply_detection() {
    assert!(http_reply_established(
        b"HTTP/1.1 200 Connection established\r\n\r\n"
    ));
    assert!(http_reply_established(b"HTTP/1.0 200 OK\r\nVia: x\r\n\r\n"));
    assert!(!http_reply_established(b"HTTP/1.1 403 Forbidden\r\n\r\n"));
    assert!(!http_reply_established(b""));
    assert!(http_header_complete(b"HTTP/1.1 200 OK\r\n\r\n"));
    assert!(!http_header_complete(b"HTTP/1.1 200 OK\r\n"));
    assert!(!http_header_complete(b"\r\n\r"));
    assert_eq!(HTTP_HEADER_CAP, 4096);
    assert_eq!(MAX_BUILD_RETRIES, 3);
}

#[test]
fn test_next_destination_nesting() {
    // Middle hops are told about the next hop; only the exit hop learns
    // the target.
    let chain = vec![hop("1.1.1.1", 1080, "socks5"), hop("2.2.2.2", 8080, "http")];
    let (h0, p0) = next_destination(&chain, 0, b"example.com", 443);
    assert_eq!(h0, b"2.2.2.2".to_vec());
    assert_eq!(p0, 8080);
    let (h1, p1) = next_destination(&chain, 1, b"example.com", 443);
    assert_eq!(h1, b"example.com".to_vec());
    assert_eq!(p1, 443);
}

#[test]
fn test_frame_roundtrip() {
    let payload = vec![7u8; 100];
    let framed = encode_frame(99, &payload).expect("payload fits");
    assert_eq!(framed.len(), 12 + 100);
    let (counter, back, consumed) = parse_frame(&framed).expect("framed bytes parse");
    assert_eq!(counter, 99);
    assert_eq!(back, payload);
    assert_eq!(consumed, framed.len());
}

#[test]
fn test_frame_layout() {
    let framed = encode_frame(0x0102030405060708, &[0xAB]).expect("fits");
    // Counter little-endian, then length little-endian, then the payload.
    assert_eq!(
        &framed[..8],
        &[0x08, 0x07, 0x06, 0x05, 0x04, 0x03, 0x02, 0x01]
    );
    assert_eq!(&framed[8..12], &[0x01, 0x00, 0x00, 0x00]);
    assert_eq!(&framed[12..], &[0xAB]);
}

#[test]
fn test_frame_length_limits() {
    assert_eq!(encode_frame(0, &[]), Err(FrameError::BadLength));
    let oversize = vec![0u8; MAX_FRAME_PAYLOAD + 1];
    assert_eq!(encode_frame(0, &oversize), Err(FrameError::BadLength));
    let exactly = vec![0u8; MAX_FRAME_PAYLOAD];
    assert!(encode_frame(0, &exactly).is_ok());

    // A receiver aborts on a zero or oversized length field.
    let mut zero_len = vec![0u8; 12];
    zero_len[8] = 0;
    assert_eq!(parse_frame(&zero_len), Err(FrameError::BadLength));
    let mut huge = vec![0u8; 12];
    huge[8..12].copy_from_slice(&(MAX_FRAME_PAYLOAD as u32 + 1).to_le_bytes());
    assert_eq!(parse_frame(&huge), Err(FrameError::BadLength));
    assert_eq!(parse_frame(&[0u8; 11]), Err(FrameError::Incomplete));
    let mut short = vec![0u8; 13];
    short[8] = 2;
    assert_eq!(parse_frame(&short), Err(FrameError::Incomplete));
    assert_eq!(CHUNK_SIZE, 16384);
    assert_eq!(MAX_FRAME_PAYLOAD, 2 * CHUNK_SIZE);
}

#[test]
fn test_direction_counter() {
    let mut c = DirectionCounter::new();
    assert_eq!(c.next(), (0, false));
    assert_eq!(c.next(), (1, false));
    assert_eq!(c.next(), (2, false));
}

#[test]
fn test_packet_roundtrip_and_tamper() {
    let key = "11".repeat(32);
    let nonce = "22".repeat(12);
    let plaintext = b"tunnelled bytes";

    let packet = seal_packet(&key, &nonce, 5, plaintext).expect("seal");
    let (counter, back, consumed) = open_packet(&key, &nonce, &packet).expect("open");
    assert_eq!(counter, 5);
    assert_eq!(back, plaintext.to_vec());
    assert_eq!(consumed, packet.len());

    // Any single-bit flip in the ciphertext aborts the direction.
    let mut tampered = packet.clone();
    let last = tampered.len() - 1;
    tampered[last] ^= 0x01;
    assert!(open_packet(&key, &nonce, &tampered).is_err());

    // A flipped counter bit derives a different nonce, so the tag fails.
    let mut wrong_counter = packet.clone();
    wrong_counter[0] ^= 0x01;
    assert!(open_packet(&key, &nonce, &wrong_counter).is_err());
}
