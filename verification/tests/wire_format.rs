use sockpipe::wire::{
    decode_connect, decode_data, decode_header, encode_close, encode_connect, encode_connect_ack,
    encode_data, Connect, WireError, CMD_CLOSE, CMD_CONNECT, CMD_CONNECT_ACK, CMD_DATA,
    CONNECT_STATUS_ERR, CONNECT_STATUS_OK,
};

#[test]
fn a_test() {
    let c = encode_connect(&Connect {
        host: "a.b.c".to_owned(),
        port: 123,
        id: 999,
    })
    .unwrap();
    let d = decode_connect(&c[5..]).unwrap();
    println!("{:?}", d);
}

#[test]
fn a_test_reads_the_bytes_after_offset_five() {
    // Offset 5 falls inside the id: the length byte is the id's second
    // byte (3), the host its next three bytes, the port the two after.
    let c = encode_connect(&Connect { host: "a.b.c".to_owned(), port: 123, id: 999 }).unwrap();
    let d = decode_connect(&c[5..]).unwrap();
    assert_eq!(d.host, "\0\0\0");
    assert_eq!(d.port, 0);
    assert_eq!(d.id, 0);
}

#[test]
fn encode_connect_exact_bytes() {
    let c = encode_connect(&Connect { host: "a.b.c".to_owned(), port: 123, id: 999 }).unwrap();
    let expected: Vec<u8> = vec![
        9, 0, 0, 0, // size: 1 + 5 + 2 + 1
        0xe7, 0x03, 0, 0, 0, 0, 0, 0, // id 999
        CMD_CONNECT, 5, b'a', b'.', b'b', b'.', b'c', 123, 0,
    ];
    assert_eq!(c, expected);
}

#[test]
fn connect_roundtrip_through_the_gateway_view() {
    let c = encode_connect(&Connect { host: "example.org".to_owned(), port: 8080, id: 42 }).unwrap();
    let h = decode_header(&c).unwrap();
    assert_eq!(h.id, 42);
    assert_eq!(h.size as usize, c.len() - 12);
    assert_eq!(c[12], CMD_CONNECT);
    let d = decode_connect(&c[13..]).unwrap();
    assert_eq!(d.host, "example.org");
    assert_eq!(d.port, 8080);
    assert_eq!(d.id, 0);
}

#[test]
fn connect_roundtrip_non_ascii_host() {
    let host = "bücher.例え.jp".to_owned();
    let c = encode_connect(&Connect { host: host.clone(), port: 443, id: 7 }).unwrap();
    assert_eq!(c[13] as usize, host.len());
    let d = decode_connect(&c[13..]).unwrap();
    assert_eq!(d.host, host);
    assert_eq!(d.port, 443);
}

#[test]
fn connect_with_long_host_truncates_length_byte() {
    // 256 bytes: the length byte wraps to 0, so the host does not read back.
    let host = "h".repeat(256);
    let c = encode_connect(&Connect { host, port: 1, id: 1 }).unwrap();
    let h = decode_header(&c).unwrap();
    assert_eq!(h.size, 260);
    assert_eq!(c[13], 0);
    let d = decode_connect(&c[13..]).unwrap();
    assert_eq!(d.host, "");
    assert_eq!(d.port, u16::from_le_bytes([b'h', b'h']));
}

#[test]
fn decode_connect_errors() {
    assert_eq!(decode_connect(&[]).unwrap_err(), WireError::UnexpectedEof);
    assert_eq!(decode_connect(&[3, b'a', b'b']).unwrap_err(), WireError::UnexpectedEof);
    assert_eq!(decode_connect(&[1, b'a', 80]).unwrap_err(), WireError::UnexpectedEof);
    assert_eq!(decode_connect(&[1, 0xff, 80, 0]).unwrap_err(), WireError::InvalidUtf8);
    // A missing port is reported before an invalid host.
    assert_eq!(decode_connect(&[1, 0xff, 80]).unwrap_err(), WireError::UnexpectedEof);
}

#[test]
fn decode_connect_ignores_trailing_bytes() {
    let d = decode_connect(&[2, b'h', b'i', 0x50, 0x00, 9, 9]).unwrap();
    assert_eq!(d.host, "hi");
    assert_eq!(d.port, 80);
}

#[test]
fn encode_connect_ack_exact_bytes() {
    let ok = encode_connect_ack(0x0102030405060708, CONNECT_STATUS_OK).unwrap();
    assert_eq!(ok, vec![2, 0, 0, 0, 8, 7, 6, 5, 4, 3, 2, 1, CMD_CONNECT_ACK, 0]);
    let err = encode_connect_ack(1, CONNECT_STATUS_ERR).unwrap();
    assert_eq!(err, vec![2, 0, 0, 0, 1, 0, 0, 0, 0, 0, 0, 0, CMD_CONNECT_ACK, 1]);
}

#[test]
fn encode_close_exact_bytes() {
    let c = encode_close(u64::MAX).unwrap();
    assert_eq!(c, vec![1, 0, 0, 0, 255, 255, 255, 255, 255, 255, 255, 255, CMD_CLOSE]);
}

#[test]
fn encode_data_exact_bytes() {
    let c = encode_data(300, &[9, 8, 7]).unwrap();
    assert_eq!(c, vec![4, 0, 0, 0, 0x2c, 0x01, 0, 0, 0, 0, 0, 0, CMD_DATA, 9, 8, 7]);
    let e = encode_data(5, &[]).unwrap();
    assert_eq!(e, vec![1, 0, 0, 0, 5, 0, 0, 0, 0, 0, 0, 0, CMD_DATA]);
}

#[test]
fn data_roundtrip() {
    let payload: Vec<u8> = (0..=255u8).collect();
    let c = encode_data(77, &payload).unwrap();
    let h = decode_header(&c).unwrap();
    assert_eq!(h.size as usize, payload.len() + 1);
    assert_eq!(h.id, 77);
    assert_eq!(decode_data(&c[13..]).unwrap(), payload);
}

#[test]
fn decode_data_copies_everything() {
    assert_eq!(decode_data(&[1, 2, 3]).unwrap(), vec![1, 2, 3]);
    assert_eq!(decode_data(&[]).unwrap(), Vec::<u8>::new());
}

#[test]
fn decode_header_fields_and_errors() {
    let h = decode_header(&[0x10, 0x20, 0, 0, 1, 2, 3, 4, 5, 6, 7, 8, 99]).unwrap();
    assert_eq!(h.size, 0x2010);
    assert_eq!(h.id, 0x0807060504030201);
    assert_eq!(decode_header(&[1, 2, 3]).unwrap_err(), WireError::UnexpectedEof);
    assert_eq!(decode_header(&[1, 2, 3, 4, 5, 6, 7, 8, 9, 10, 11]).unwrap_err(), WireError::UnexpectedEof);
}

#[test]
fn frames_split_in_a_stream() {
    let mut stream = encode_connect_ack(3, CONNECT_STATUS_OK).unwrap();
    stream.extend(encode_data(3, b"hello").unwrap());
    stream.extend(encode_close(3).unwrap());
    let mut rest: &[u8] = &stream;
    let mut bodies: Vec<Vec<u8>> = Vec::new();
    while !rest.is_empty() {
        let h = decode_header(rest).unwrap();
        assert_eq!(h.id, 3);
        let end = 12 + h.size as usize;
        bodies.push(rest[12..end].to_vec());
        rest = &rest[end..];
    }
    assert_eq!(bodies, vec![vec![CMD_CONNECT_ACK, 0], [vec![CMD_DATA], b"hello".to_vec()].concat(), vec![CMD_CLOSE]]);
}
