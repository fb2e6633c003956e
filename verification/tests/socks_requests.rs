use sockpipe::socks::{
    auth_reply, connect_reply, parse_auth, parse_connect_request, parse_socks_message, IdAllocator,
    SockMessage, SocksError,
};
use sockpipe::text::{ipv4_string, string_from_utf8};

#[test]
fn greeting_needs_its_header_then_its_methods() {
    assert_eq!(parse_auth(&[]).unwrap_err(), SocksError::Incomplete(2));
    assert_eq!(parse_auth(&[5]).unwrap_err(), SocksError::Incomplete(2));
    assert_eq!(parse_auth(&[5, 2]).unwrap_err(), SocksError::Incomplete(4));
    assert_eq!(parse_auth(&[5, 2, 0]).unwrap_err(), SocksError::Incomplete(4));
    let (n, auth) = parse_auth(&[5, 2, 0, 1, 77]).unwrap();
    assert_eq!(n, 4);
    assert_eq!(auth.methods, vec![0, 1]);
    let (n, auth) = parse_auth(&[5, 0]).unwrap();
    assert_eq!(n, 2);
    assert!(auth.methods.is_empty());
}

#[test]
fn request_ipv4() {
    let (n, m) = parse_socks_message(&[5, 1, 0, 1, 192, 168, 0, 1, 0x1f, 0x90]).unwrap();
    assert_eq!(n, 10);
    let SockMessage::Connect(c) = m;
    assert_eq!(c.address, "192.168.0.1");
    assert_eq!(c.port, 8080);
}

#[test]
fn request_domain() {
    let mut req = vec![5, 1, 0, 3, 11];
    req.extend_from_slice(b"example.com");
    req.extend_from_slice(&[0x01, 0xbb]);
    let (n, m) = parse_socks_message(&req).unwrap();
    assert_eq!(n, req.len());
    let SockMessage::Connect(c) = m;
    assert_eq!(c.address, "example.com");
    assert_eq!(c.port, 443);
}

#[test]
fn request_incomplete_counts() {
    assert_eq!(parse_socks_message(&[]).unwrap_err(), SocksError::Incomplete(2));
    assert_eq!(parse_socks_message(&[5, 1]).unwrap_err(), SocksError::Incomplete(4));
    assert_eq!(parse_socks_message(&[5, 1, 0, 1]).unwrap_err(), SocksError::Incomplete(8));
    assert_eq!(parse_socks_message(&[5, 1, 0, 1, 1, 2, 3, 4]).unwrap_err(), SocksError::Incomplete(10));
    assert_eq!(parse_socks_message(&[5, 1, 0, 3]).unwrap_err(), SocksError::Incomplete(5));
    assert_eq!(parse_socks_message(&[5, 1, 0, 3, 2, b'a']).unwrap_err(), SocksError::Incomplete(7));
    assert_eq!(parse_socks_message(&[5, 1, 0, 3, 2, b'a', b'b']).unwrap_err(), SocksError::Incomplete(9));
}

#[test]
fn request_errors() {
    assert_eq!(parse_socks_message(&[5, 2]).unwrap_err(), SocksError::UnknownCommand);
    assert_eq!(parse_socks_message(&[5, 3, 0, 1]).unwrap_err(), SocksError::UnknownCommand);
    assert_eq!(parse_socks_message(&[5, 1, 0, 4]).unwrap_err(), SocksError::UnknownAddressType(4));
    // The domain name is checked before its port has arrived.
    assert_eq!(parse_socks_message(&[5, 1, 0, 3, 1, 0xc3]).unwrap_err(), SocksError::InvalidUtf8);
}

#[test]
fn connect_request_after_header() {
    let (n, c) = parse_connect_request(&[0, 1, 10, 0, 0, 254, 0, 22]).unwrap();
    assert_eq!(n, 8);
    assert_eq!(c.address, "10.0.0.254");
    assert_eq!(c.port, 22);
    assert_eq!(parse_connect_request(&[0]).unwrap_err(), SocksError::Incomplete(2));
}

#[test]
fn ipv4_text_rendering() {
    assert_eq!(ipv4_string(0, 9, 10, 99), "0.9.10.99");
    assert_eq!(ipv4_string(100, 101, 200, 255), "100.101.200.255");
    assert_eq!(ipv4_string(255, 255, 255, 255), "255.255.255.255");
}

#[test]
fn utf8_decoding() {
    assert_eq!(string_from_utf8(b"abc"), Some("abc".to_owned()));
    assert_eq!(string_from_utf8(&[0xe4, 0xbe, 0x8b]), Some("例".to_owned()));
    assert_eq!(string_from_utf8(&[0xe4, 0xbe]), None);
    assert_eq!(string_from_utf8(&[0xed, 0xa0, 0x80]), None);
}

#[test]
fn replies() {
    assert_eq!(auth_reply(), vec![5, 0]);
    assert_eq!(connect_reply(), vec![5, 0, 0, 1, 0, 0, 0, 0, 0, 0]);
}

#[test]
fn ids_count_from_one() {
    let mut ids = IdAllocator::new();
    assert_eq!(ids.allocate(), 1);
    assert_eq!(ids.allocate(), 2);
    assert_eq!(ids.allocate(), 3);
}

#[test]
fn request_prefixes_agree_with_the_whole() {
    let mut req = vec![5, 1, 0, 3, 3];
    req.extend_from_slice(b"abc");
    req.extend_from_slice(&[0, 80, 1, 2, 3]);
    let whole = parse_socks_message(&req).unwrap();
    for k in 0..req.len() {
        match parse_socks_message(&req[..k]) {
            Err(SocksError::Incomplete(n)) => assert!(n > k && n <= 10),
            Ok((n, _)) => assert_eq!(n, whole.0),
            Err(e) => panic!("unexpected {:?}", e),
        }
    }
}
