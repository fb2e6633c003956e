use sockpipe::registry::Registry;
use sockpipe::relay::{
    check_connect_ack, chunk_frame, classify_pipe_message, connect_outcome_frame, parse_pipe_body,
    AckError, PipeCommand, PipeDelivery,
};
use sockpipe::wire::{
    encode_close, encode_connect, encode_connect_ack, encode_data, Connect, WireError, CMD_CLOSE,
    CMD_CONNECT_ACK, CMD_DATA, CONNECT_STATUS_ERR, CONNECT_STATUS_OK,
};

#[test]
fn gateway_reads_each_command() {
    let c = encode_connect(&Connect { host: "h.example".to_owned(), port: 25, id: 9 }).unwrap();
    match parse_pipe_body(&c[12..]).unwrap() {
        PipeCommand::Connect(x) => {
            assert_eq!(x.host, "h.example");
            assert_eq!(x.port, 25);
            assert_eq!(x.id, 0);
        }
        other => panic!("unexpected {:?}", other),
    }
    let d = encode_data(9, b"xyz").unwrap();
    match parse_pipe_body(&d[12..]).unwrap() {
        PipeCommand::Data(x) => assert_eq!(x, b"xyz".to_vec()),
        other => panic!("unexpected {:?}", other),
    }
    let e = encode_close(9).unwrap();
    assert!(matches!(parse_pipe_body(&e[12..]).unwrap(), PipeCommand::Close));
    assert!(matches!(parse_pipe_body(&[CMD_CONNECT_ACK, 0]).unwrap(), PipeCommand::Other(4)));
    assert_eq!(parse_pipe_body(&[1, 5, b'a']).unwrap_err(), WireError::UnexpectedEof);
    assert_eq!(parse_pipe_body(&[1, 1, 0x80, 0, 0]).unwrap_err(), WireError::InvalidUtf8);
}

#[test]
fn socks_end_delivers_stops_or_ignores() {
    assert!(matches!(classify_pipe_message(&[]), PipeDelivery::Stop));
    assert!(matches!(classify_pipe_message(&[CMD_CLOSE]), PipeDelivery::Stop));
    assert!(matches!(classify_pipe_message(&[CMD_CLOSE, 1, 2]), PipeDelivery::Stop));
    match classify_pipe_message(&[CMD_DATA, 1, 2]) {
        PipeDelivery::Deliver(d) => assert_eq!(d, vec![1, 2]),
        other => panic!("unexpected {:?}", other),
    }
    match classify_pipe_message(&[CMD_DATA]) {
        PipeDelivery::Deliver(d) => assert!(d.is_empty()),
        other => panic!("unexpected {:?}", other),
    }
    assert!(matches!(classify_pipe_message(&[9, 1]), PipeDelivery::Ignore(9)));
    let d = encode_data(4, b"payload").unwrap();
    match classify_pipe_message(&d[12..]) {
        PipeDelivery::Deliver(x) => assert_eq!(x, b"payload".to_vec()),
        other => panic!("unexpected {:?}", other),
    }
}

#[test]
fn ack_checks() {
    assert_eq!(check_connect_ack(&[CMD_CONNECT_ACK, CONNECT_STATUS_OK]), Ok(()));
    assert_eq!(check_connect_ack(&[CMD_CONNECT_ACK, CONNECT_STATUS_ERR]), Err(AckError::Refused(1)));
    assert_eq!(check_connect_ack(&[CMD_CONNECT_ACK, 7]), Err(AckError::Refused(7)));
    assert_eq!(check_connect_ack(&[CMD_DATA, 0]), Err(AckError::Malformed));
    assert_eq!(check_connect_ack(&[CMD_CONNECT_ACK]), Err(AckError::Malformed));
    assert_eq!(check_connect_ack(&[CMD_CONNECT_ACK, 0, 0]), Err(AckError::Malformed));
    assert_eq!(check_connect_ack(&[]), Err(AckError::Malformed));
}

#[test]
fn gateway_answers_reach_the_socks_end() {
    let ok = connect_outcome_frame(11, true).unwrap();
    assert_eq!(ok, encode_connect_ack(11, CONNECT_STATUS_OK).unwrap());
    assert_eq!(check_connect_ack(&ok[12..]), Ok(()));
    let refused = connect_outcome_frame(11, false).unwrap();
    assert_eq!(refused[13], CONNECT_STATUS_ERR);
    assert_eq!(check_connect_ack(&refused[12..]), Err(AckError::Refused(CONNECT_STATUS_ERR)));
}

#[test]
fn chunks_become_data_frames() {
    assert_eq!(chunk_frame(2, &[]).unwrap(), None);
    assert_eq!(chunk_frame(2, &[7]).unwrap(), Some(vec![2, 0, 0, 0, 2, 0, 0, 0, 0, 0, 0, 0, CMD_DATA, 7]));
}

#[test]
fn registry_routes_by_id() {
    let mut reg: Registry<&str> = Registry::new();
    assert_eq!(reg.len(), 0);
    reg.insert(1, "one");
    reg.insert(2, "two");
    assert_eq!(reg.get(1), Some(&"one"));
    assert_eq!(reg.get(3), None);
    reg.insert(1, "uno");
    assert_eq!(reg.get(1), Some(&"uno"));
    assert_eq!(reg.len(), 2);
    assert_eq!(reg.remove(1), Some("uno"));
    assert_eq!(reg.remove(1), None);
    assert_eq!(reg.get(1), None);
    assert_eq!(reg.get(2), Some(&"two"));
    reg.clear();
    assert_eq!(reg.len(), 0);
    assert_eq!(reg.get(2), None);
}
