use sockpipe::relay::{
    ends_writer, gateway_step, socks_step, AckError, GatewayAction, GatewayEvent, GatewayPhase,
    SocksAction, SocksEvent, SocksFailure, SocksPhase,
};
use sockpipe::registry::Registry;
use sockpipe::relay::{gateway_dispatch, redial_delay_secs, GatewayDispatch, PipeCommand};
use sockpipe::socks::SockMessageConnect;
use sockpipe::wire::{
    encode_close, encode_connect, encode_connect_ack, encode_data, Connect, CMD_CONNECT_ACK,
    CONNECT_STATUS_ERR, CONNECT_STATUS_OK,
};

fn request(host: &str, port: u16) -> SocksEvent {
    SocksEvent::Request(SockMessageConnect { address: host.to_owned(), port })
}

#[test]
fn socks_connection_in_order() {
    let (phase, action) = socks_step(5, SocksPhase::Start, &request("example.net", 80));
    assert_eq!(phase, SocksPhase::AwaitingAck);
    let expected = encode_connect(&Connect { host: "example.net".to_owned(), port: 80, id: 5 }).unwrap();
    assert!(matches!(action, SocksAction::Open(f) if f == expected));

    let (phase, action) =
        socks_step(5, phase, &SocksEvent::PipeMessage(vec![CMD_CONNECT_ACK, CONNECT_STATUS_OK]));
    assert_eq!(phase, SocksPhase::Relaying);
    assert!(matches!(action, SocksAction::Reply(r) if r == vec![5, 0, 0, 1, 0, 0, 0, 0, 0, 0]));

    let (phase, action) = socks_step(5, phase, &SocksEvent::ClientRead(b"GET /".to_vec()));
    assert_eq!(phase, SocksPhase::Relaying);
    assert!(matches!(action, SocksAction::Send(f) if f == encode_data(5, b"GET /").unwrap()));

    let (phase, action) = socks_step(5, phase, &SocksEvent::ClientRead(Vec::new()));
    assert_eq!(phase, SocksPhase::Done);
    assert!(matches!(action, SocksAction::Close(f, None) if f == encode_close(5).unwrap()));

    let (phase, action) = socks_step(5, phase, &SocksEvent::ClientRead(b"late".to_vec()));
    assert_eq!(phase, SocksPhase::Done);
    assert!(matches!(action, SocksAction::Nothing));
}

#[test]
fn socks_connection_refused_or_without_answer() {
    let (phase, action) = socks_step(
        6,
        SocksPhase::AwaitingAck,
        &SocksEvent::PipeMessage(vec![CMD_CONNECT_ACK, CONNECT_STATUS_ERR]),
    );
    assert_eq!(phase, SocksPhase::Done);
    assert!(matches!(action, SocksAction::Close(f, Some(SocksFailure::Ack(AckError::Refused(1))))
        if f == encode_close(6).unwrap()));

    let (_, action) = socks_step(6, SocksPhase::AwaitingAck, &SocksEvent::PipeMessage(vec![3, 1, 2]));
    assert!(matches!(action, SocksAction::Close(_, Some(SocksFailure::Ack(AckError::Malformed)))));

    let (phase, action) = socks_step(6, SocksPhase::AwaitingAck, &SocksEvent::PipeGone);
    assert_eq!(phase, SocksPhase::Done);
    assert!(matches!(action, SocksAction::Close(_, Some(SocksFailure::NoAck))));

    let (phase, action) = socks_step(6, SocksPhase::Relaying, &SocksEvent::ClientFailed);
    assert_eq!(phase, SocksPhase::Done);
    assert!(matches!(action, SocksAction::Close(_, None)));
}

#[test]
fn socks_events_out_of_phase_change_nothing() {
    let (phase, action) = socks_step(7, SocksPhase::AwaitingAck, &SocksEvent::ClientRead(vec![1]));
    assert_eq!(phase, SocksPhase::AwaitingAck);
    assert!(matches!(action, SocksAction::Nothing));
    let (phase, action) = socks_step(7, SocksPhase::Relaying, &request("x", 1));
    assert_eq!(phase, SocksPhase::Relaying);
    assert!(matches!(action, SocksAction::Nothing));
}

#[test]
fn gateway_connection_in_order() {
    let (phase, action) = gateway_step(8, GatewayPhase::Connecting, &GatewayEvent::Connected);
    assert_eq!(phase, GatewayPhase::Relaying);
    assert!(matches!(action, GatewayAction::Send(f) if f == encode_connect_ack(8, CONNECT_STATUS_OK).unwrap()));

    let (phase, action) = gateway_step(8, phase, &GatewayEvent::RemoteRead(vec![1, 2, 3]));
    assert_eq!(phase, GatewayPhase::Relaying);
    assert!(matches!(action, GatewayAction::Send(f) if f == encode_data(8, &[1, 2, 3]).unwrap()));

    let (phase, action) = gateway_step(8, phase, &GatewayEvent::RemoteRead(Vec::new()));
    assert_eq!(phase, GatewayPhase::Done);
    assert!(matches!(action, GatewayAction::Finish(f) if f == encode_close(8).unwrap()));

    let (phase, action) = gateway_step(8, phase, &GatewayEvent::RemoteFailed);
    assert_eq!(phase, GatewayPhase::Done);
    assert!(matches!(action, GatewayAction::Nothing));
}

#[test]
fn gateway_connection_failures() {
    let (phase, action) = gateway_step(9, GatewayPhase::Connecting, &GatewayEvent::ConnectFailed);
    assert_eq!(phase, GatewayPhase::Done);
    assert!(matches!(action, GatewayAction::Fail(f) if f == encode_connect_ack(9, CONNECT_STATUS_ERR).unwrap()));

    let (phase, action) = gateway_step(9, GatewayPhase::Relaying, &GatewayEvent::RemoteFailed);
    assert_eq!(phase, GatewayPhase::Done);
    assert!(matches!(action, GatewayAction::Finish(f) if f == encode_close(9).unwrap()));

    let (phase, action) = gateway_step(9, GatewayPhase::Connecting, &GatewayEvent::RemoteRead(vec![1]));
    assert_eq!(phase, GatewayPhase::Connecting);
    assert!(matches!(action, GatewayAction::Nothing));
}

#[test]
fn writers_stop_on_the_empty_message() {
    assert!(ends_writer(&[]));
    assert!(!ends_writer(&[0]));
}

#[test]
fn gateway_table_per_command() {
    let mut table: Registry<&str> = Registry::new();
    table.insert(1, "one");
    table.insert(2, "two");
    let c = Connect { host: "h".to_owned(), port: 9, id: 0 };
    match gateway_dispatch(&mut table, 3, PipeCommand::Connect(c)) {
        GatewayDispatch::Open(x) => assert_eq!((x.host.as_str(), x.port), ("h", 9)),
        _ => panic!("expected Open"),
    }
    assert_eq!(table.len(), 2);
    assert!(matches!(gateway_dispatch(&mut table, 1, PipeCommand::Data(vec![7])),
        GatewayDispatch::Forward(d) if d == vec![7]));
    assert_eq!(table.get(1), Some(&"one"));
    assert!(matches!(gateway_dispatch(&mut table, 1, PipeCommand::Close), GatewayDispatch::Closed(Some("one"))));
    assert_eq!(table.get(1), None);
    assert_eq!(table.get(2), Some(&"two"));
    assert!(matches!(gateway_dispatch(&mut table, 1, PipeCommand::Close), GatewayDispatch::Closed(None)));
    assert!(matches!(gateway_dispatch(&mut table, 2, PipeCommand::Other(9)), GatewayDispatch::Ignore));
    assert_eq!(table.len(), 1);
    assert_eq!(redial_delay_secs(true), 1);
    assert_eq!(redial_delay_secs(false), 0);
}
