//! The decisions that the two ends of the pipe take on each message: what
//! the gateway does with a frame's body, what the SOCKS end does with a
//! message for one of its connections, and which frame a read from a
//! socket becomes.

use crate::wire::{
    close_frame, connect_frame, law_close_frame, law_connect_ack_frame, law_connect_roundtrip,
    law_data_roundtrip, parse_header,
    connect_ack_frame, data_frame, decode_connect, decode_data, encode_close, encode_connect,
    encode_connect_ack, encode_data,
    parse_connect, size_field, Connect, WireError, CMD_CLOSE, CMD_CONNECT, CMD_CONNECT_ACK,
    CMD_DATA, CONNECT_STATUS_ERR, CONNECT_STATUS_OK,
};
use crate::registry::Registry;
use crate::socks::{success_reply, connect_reply, SockMessageConnect};
use vstd::prelude::*;
use vstd::slice::*;
use vstd::utf8::*;

verus! {

/// What a frame's body asks of the gateway.
#[derive(Debug)]
pub enum PipeCommand {
    /// Open a connection.
    Connect(Connect),
    /// Send these bytes on a connection.
    Data(Vec<u8>),
    /// Close a connection.
    Close,
    /// A command that the gateway does not know, and passes over.
    Other(u8),
}

/// Reads what a frame's body (command byte first) asks of the gateway.
pub fn parse_pipe_body(body: &[u8]) -> (r: Result<PipeCommand, WireError>)
    requires
        body@.len() >= 1,
    ensures
        body@[0] == CMD_CONNECT ==> match parse_connect(body@.skip(1)) {
            Err(e) => r matches Err(x) && x == e,
            Ok((host, port)) => if valid_utf8(host) {
                r matches Ok(PipeCommand::Connect(c)) && c.host@ == decode_utf8(host) && c.port
                    == port && c.id == 0
            } else {
                r matches Err(x) && x == WireError::InvalidUtf8
            },
        },
        body@[0] == CMD_DATA ==> (r matches Ok(PipeCommand::Data(d)) && d@ == body@.skip(1)),
        body@[0] == CMD_CLOSE ==> r matches Ok(PipeCommand::Close),
        body@[0] != CMD_CONNECT && body@[0] != CMD_DATA && body@[0] != CMD_CLOSE ==> (r matches Ok(
            PipeCommand::Other(c),
        ) && c == body@[0]),
{
    let rest: &[u8] = slice_subrange(body, 1, body.len());
    assert(rest@ =~= body@.skip(1));
    let cmd: u8 = body[0];
    if cmd == CMD_CONNECT {
        match decode_connect(rest) {
            Ok(c) => Ok(PipeCommand::Connect(c)),
            Err(e) => Err(e),
        }
    } else if cmd == CMD_DATA {
        match decode_data(rest) {
            Ok(d) => Ok(PipeCommand::Data(d)),
            Err(e) => Err(e),
        }
    } else if cmd == CMD_CLOSE {
        Ok(PipeCommand::Close)
    } else {
        Ok(PipeCommand::Other(cmd))
    }
}

/// What the gateway does for a command that the pipe brought for a
/// connection, after the change that the command makes to its table.
pub enum GatewayDispatch<V> {
    /// Start serving this request, and register what serves it under the
    /// frame's id.
    Open(Connect),
    /// Hand these bytes to what the connection is registered with, if it is
    /// registered.
    Forward(Vec<u8>),
    /// The connection is forgotten: tell what it was registered with, if
    /// anything, that it is over.
    Closed(Option<V>),
    /// Nothing to do.
    Ignore,
}

/// The gateway's handling of a command for connection `id` with its table
/// of connections: a close forgets the connection and hands back what it
/// was registered with; the other commands leave the table as it is.
pub fn gateway_dispatch<V>(table: &mut Registry<V>, id: u64, cmd: PipeCommand) -> (r:
    GatewayDispatch<V>)
    ensures
        cmd is Close ==> final(table)@ == old(table)@.remove(id),
        !(cmd is Close) ==> final(table)@ == old(table)@,
        cmd matches PipeCommand::Connect(c) ==> (r matches GatewayDispatch::Open(x) && x == c),
        cmd matches PipeCommand::Data(d) ==> (r matches GatewayDispatch::Forward(x) && x == d),
        cmd is Close ==> (r matches GatewayDispatch::Closed(v) && match v {
            Some(x) => old(table)@.contains_key(id) && x == old(table)@[id],
            None => !old(table)@.contains_key(id),
        }),
        cmd is Other ==> r is Ignore,
{
    match cmd {
        PipeCommand::Connect(c) => GatewayDispatch::Open(c),
        PipeCommand::Data(d) => GatewayDispatch::Forward(d),
        PipeCommand::Close => GatewayDispatch::Closed(table.remove(id)),
        PipeCommand::Other(_) => GatewayDispatch::Ignore,
    }
}

/// How long, in seconds, the gateway waits before it dials the pipe again:
/// a second after a dial that failed, and not at all after a session that
/// ended.
pub fn redial_delay_secs(dial_failed: bool) -> (secs: u64)
    ensures
        secs == if dial_failed {
            1u64
        } else {
            0u64
        },
{
    if dial_failed {
        1
    } else {
        0
    }
}

/// What the SOCKS end does with a message that the pipe brought for one of
/// its connections.
#[derive(Debug)]
pub enum PipeDelivery {
    /// The connection is over: stop relaying to the client.
    Stop,
    /// Write these bytes to the client.
    Deliver(Vec<u8>),
    /// A command that is passed over.
    Ignore(u8),
}

/// A message ends the relay to the client when it is empty, which the
/// SOCKS end sends itself when the client goes away, or a close.
pub open spec fn ends_relay(msg: Seq<u8>) -> bool {
    msg.len() == 0 || msg[0] == CMD_CLOSE
}

/// Decides what to do with a message (a frame's body) for a connection of
/// the SOCKS end.
pub fn classify_pipe_message(msg: &[u8]) -> (r: PipeDelivery)
    ensures
        ends_relay(msg@) <==> r is Stop,
        !ends_relay(msg@) && msg@[0] == CMD_DATA ==> (r matches PipeDelivery::Deliver(d) && d@
            == msg@.skip(1)),
        !ends_relay(msg@) && msg@[0] != CMD_DATA ==> (r matches PipeDelivery::Ignore(c) && c
            == msg@[0]),
{
    if msg.len() == 0 {
        return PipeDelivery::Stop;
    }
    let cmd: u8 = msg[0];
    if cmd == CMD_CLOSE {
        PipeDelivery::Stop
    } else if cmd == CMD_DATA {
        let rest: &[u8] = slice_subrange(msg, 1, msg.len());
        assert(rest@ =~= msg@.skip(1));
        match decode_data(rest) {
            Ok(d) => PipeDelivery::Deliver(d),
            Err(_) => {
                proof {
                    assert(false);
                }
                PipeDelivery::Stop
            },
        }
    } else {
        PipeDelivery::Ignore(cmd)
    }
}

/// Why the answer to a connect is not a success.
#[derive(Debug, PartialEq, Eq, Structural)]
pub enum AckError {
    /// The message is not an answer to a connect.
    Malformed,
    /// The gateway could not connect; the status it sent.
    Refused(u8),
}

/// The verdict on the first message that the pipe brings for a
/// connection: it must be an answer to its connect, with the status OK.
pub open spec fn ack_verdict(msg: Seq<u8>) -> Result<(), AckError> {
    if msg.len() != 2 || msg[0] != CMD_CONNECT_ACK {
        Err(AckError::Malformed)
    } else if msg[1] != CONNECT_STATUS_OK {
        Err(AckError::Refused(msg[1]))
    } else {
        Ok(())
    }
}

/// Checks the first message that the pipe brings for a connection, which
/// must be an answer to its connect, with the status OK.
pub fn check_connect_ack(msg: &[u8]) -> (r: Result<(), AckError>)
    ensures
        r == ack_verdict(msg@),
        msg@.len() != 2 || msg@[0] != CMD_CONNECT_ACK ==> r == Err::<(), AckError>(
            AckError::Malformed,
        ),
        msg@.len() == 2 && msg@[0] == CMD_CONNECT_ACK && msg@[1] != CONNECT_STATUS_OK ==> r == Err::<
            (),
            AckError,
        >(AckError::Refused(msg@[1])),
        r is Ok <==> msg@ == seq![CMD_CONNECT_ACK, CONNECT_STATUS_OK],
{
    if msg.len() != 2 || msg[0] != CMD_CONNECT_ACK {
        return Err(AckError::Malformed);
    }
    if msg[1] != CONNECT_STATUS_OK {
        return Err(AckError::Refused(msg[1]));
    }
    assert(msg@ =~= seq![CMD_CONNECT_ACK, CONNECT_STATUS_OK]);
    Ok(())
}

/// The gateway's answer to a connect: OK when it reached the host, ERR when
/// it could not resolve or reach it.
pub fn connect_outcome_frame(id: u64, connected: bool) -> (r: Result<Vec<u8>, WireError>)
    ensures
        r matches Ok(f) && f@ == connect_ack_frame(
            id,
            if connected {
                CONNECT_STATUS_OK
            } else {
                CONNECT_STATUS_ERR
            },
        ),
{
    let status: u8 = if connected {
        CONNECT_STATUS_OK
    } else {
        CONNECT_STATUS_ERR
    };
    encode_connect_ack(id, status)
}

/// The frame that a read from a socket becomes on connection `id`: none
/// for an empty read, which is the end of the stream and ends the
/// connection, and otherwise a data frame with the bytes read.
pub fn chunk_frame(id: u64, chunk: &[u8]) -> (r: Result<Option<Vec<u8>>, WireError>)
    requires
        size_field(chunk@.len(), 1) <= u32::MAX,
    ensures
        chunk@.len() == 0 ==> r matches Ok(None),
        chunk@.len() > 0 ==> (r matches Ok(Some(f)) && f@ == data_frame(id, chunk@)),
{
    if chunk.len() == 0 {
        return Ok(None);
    }
    match encode_data(id, chunk) {
        Ok(f) => Ok(Some(f)),
        Err(e) => Err(e),
    }
}


/// Where a SOCKS connection stands, as the SOCKS end sees it.
#[derive(Debug, Clone, Copy, PartialEq, Eq, Structural)]
pub enum SocksPhase {
    /// The client's request has not been handled yet.
    Start,
    /// The connect has been sent down the pipe; its answer has not come.
    AwaitingAck,
    /// The gateway reached the host: data flows both ways.
    Relaying,
    /// The close has been sent; nothing more goes down the pipe.
    Done,
}

/// What happens to a SOCKS connection.
#[derive(Debug)]
pub enum SocksEvent {
    /// The client asked to connect to this host and port.
    Request(SockMessageConnect),
    /// The pipe brought this message for the connection.
    PipeMessage(Vec<u8>),
    /// The pipe's channel for the connection closed before any message.
    PipeGone,
    /// A read from the client gave these bytes; none is the end of its
    /// stream.
    ClientRead(Vec<u8>),
    /// A read from the client failed.
    ClientFailed,
}

/// Why a SOCKS connection ends in failure.
#[derive(Debug, PartialEq, Eq, Structural)]
pub enum SocksFailure {
    /// The pipe's channel closed before the answer to the connect.
    NoAck,
    /// The answer to the connect was not a success.
    Ack(AckError),
}

/// What the SOCKS end does next for a connection.
#[derive(Debug)]
pub enum SocksAction {
    /// Register the connection with the pipe, then send this connect frame.
    Open(Vec<u8>),
    /// Write this reply to the client; relaying begins.
    Reply(Vec<u8>),
    /// Send this data frame down the pipe.
    Send(Vec<u8>),
    /// Send this close frame down the pipe and forget the connection; it
    /// ended well when there is no failure.
    Close(Vec<u8>, Option<SocksFailure>),
    /// The event does not belong to the phase: nothing to do.
    Nothing,
}

/// The event is an answer to the connect with the status OK.
pub open spec fn is_ok_ack(event: SocksEvent) -> bool {
    event matches SocksEvent::PipeMessage(m) && m@ == seq![CMD_CONNECT_ACK, CONNECT_STATUS_OK]
}

/// The events that each phase of a SOCKS connection expects.
pub open spec fn socks_event_expected(phase: SocksPhase, event: SocksEvent) -> bool {
    ||| phase == SocksPhase::Start && event is Request
    ||| phase == SocksPhase::AwaitingAck && (event is PipeMessage || event is PipeGone)
    ||| phase == SocksPhase::Relaying && (event is ClientRead || event is ClientFailed)
}

/// What the SOCKS end puts out for a connection: a frame down the pipe, or
/// a reply to the client.
pub enum SocksOutput {
    Pipe(Seq<u8>),
    Reply(Seq<u8>),
}

/// The next phase and the outputs of the SOCKS end for connection `id` on
/// an event.
pub open spec fn socks_transition(id: u64, phase: SocksPhase, event: SocksEvent) -> (
    SocksPhase,
    Seq<SocksOutput>,
) {
    match (phase, event) {
        (SocksPhase::Start, SocksEvent::Request(c)) => (
            SocksPhase::AwaitingAck,
            seq![SocksOutput::Pipe(connect_frame(encode_utf8(c.address@), c.port, id))],
        ),
        (SocksPhase::AwaitingAck, SocksEvent::PipeMessage(m)) => if ack_verdict(m@) is Ok {
            (SocksPhase::Relaying, seq![SocksOutput::Reply(success_reply())])
        } else {
            (SocksPhase::Done, seq![SocksOutput::Pipe(close_frame(id))])
        },
        (SocksPhase::AwaitingAck, SocksEvent::PipeGone) => (
            SocksPhase::Done,
            seq![SocksOutput::Pipe(close_frame(id))],
        ),
        (SocksPhase::Relaying, SocksEvent::ClientRead(d)) => if d@.len() > 0 {
            (SocksPhase::Relaying, seq![SocksOutput::Pipe(data_frame(id, d@))])
        } else {
            (SocksPhase::Done, seq![SocksOutput::Pipe(close_frame(id))])
        },
        (SocksPhase::Relaying, SocksEvent::ClientFailed) => (
            SocksPhase::Done,
            seq![SocksOutput::Pipe(close_frame(id))],
        ),
        _ => (phase, Seq::empty()),
    }
}

/// The outputs of an action of the SOCKS end.
pub open spec fn socks_outputs(action: SocksAction) -> Seq<SocksOutput> {
    match action {
        SocksAction::Open(f) => seq![SocksOutput::Pipe(f@)],
        SocksAction::Reply(b) => seq![SocksOutput::Reply(b@)],
        SocksAction::Send(f) => seq![SocksOutput::Pipe(f@)],
        SocksAction::Close(f, _) => seq![SocksOutput::Pipe(f@)],
        SocksAction::Nothing => Seq::empty(),
    }
}

/// The phase and all the outputs of connection `id` after the events, in
/// order, from `Start`.
pub open spec fn socks_run(id: u64, events: Seq<SocksEvent>) -> (SocksPhase, Seq<SocksOutput>)
    decreases events.len(),
{
    if events.len() == 0 {
        (SocksPhase::Start, Seq::empty())
    } else {
        let (phase, out) = socks_run(id, events.drop_last());
        let (next, more) = socks_transition(id, phase, events.last());
        (next, out + more)
    }
}

/// The output is a connect frame of connection `id`.
pub open spec fn is_connect_output(id: u64, o: SocksOutput) -> bool {
    exists|host: Seq<u8>, port: u16| o == SocksOutput::Pipe(#[trigger] connect_frame(host, port, id))
}

/// The output is a data frame of connection `id`.
pub open spec fn is_data_output(id: u64, o: SocksOutput) -> bool {
    exists|d: Seq<u8>| o == SocksOutput::Pipe(#[trigger] data_frame(id, d))
}

/// The outputs of connection `id` so far, in phase `phase`, are a prefix of
/// the connect, the reply, the data frames and the close: the connect
/// first; the reply second, when the answer was OK, and the data frames
/// only after it; the close last, when the phase is `Done`.
pub open spec fn socks_order(id: u64, phase: SocksPhase, out: Seq<SocksOutput>) -> bool {
    &&& phase == SocksPhase::Start <==> out.len() == 0
    &&& out.len() > 0 ==> is_connect_output(id, out[0])
    &&& phase == SocksPhase::AwaitingAck ==> out.len() == 1
    &&& phase == SocksPhase::Relaying ==> out.len() >= 2 && out[1] == SocksOutput::Reply(
        success_reply(),
    ) && forall|i: int| 2 <= i < out.len() ==> is_data_output(id, #[trigger] out[i])
    &&& phase == SocksPhase::Done ==> out.len() >= 2 && out.last() == SocksOutput::Pipe(
        close_frame(id),
    ) && (out.len() == 2 || (out[1] == SocksOutput::Reply(success_reply()) && forall|i: int|
        2 <= i < out.len() - 1 ==> is_data_output(id, #[trigger] out[i])))
}

/// The SOCKS end's decision for connection `id` on an event: the next phase
/// and what to do. Over a connection's life the frames go down the pipe in
/// this order: the connect first; then, only after an OK answer, the reply
/// to the client and the data frames; and the close last, after which
/// nothing is sent. An answer that is not OK, or none, is followed by the
/// close and a failure.
pub fn socks_step(id: u64, phase: SocksPhase, event: &SocksEvent) -> (r: (SocksPhase, SocksAction))
    requires
        event matches SocksEvent::Request(c) ==> size_field(encode_utf8(c.address@).len(), 4)
            <= u32::MAX,
        event matches SocksEvent::ClientRead(d) ==> size_field(d@.len(), 1) <= u32::MAX,
    ensures
        event matches SocksEvent::Request(c) ==> (phase == SocksPhase::Start ==> (r.1 matches SocksAction::Open(f)
            && f@ == connect_frame(encode_utf8(c.address@), c.port, id) && r.0 == SocksPhase::AwaitingAck)),
        event matches SocksEvent::PipeMessage(m) ==> (phase != SocksPhase::AwaitingAck || if ack_verdict(m@) is Ok {
            r.1 matches SocksAction::Reply(b) && b@ == success_reply() && r.0 == SocksPhase::Relaying
        } else {
            r.1 matches SocksAction::Close(f, fail) && f@ == close_frame(id) && fail == Some(
                SocksFailure::Ack(ack_verdict(m@)->Err_0),
            ) && r.0 == SocksPhase::Done
        }),
        phase == SocksPhase::AwaitingAck && event is PipeGone ==> (r.1 matches SocksAction::Close(f, fail)
            && f@ == close_frame(id) && fail == Some(SocksFailure::NoAck) && r.0 == SocksPhase::Done),
        event matches SocksEvent::ClientRead(d) ==> (phase != SocksPhase::Relaying || if d@.len() > 0 {
            r.1 matches SocksAction::Send(f) && f@ == data_frame(id, d@) && r.0 == SocksPhase::Relaying
        } else {
            r.1 matches SocksAction::Close(f, fail) && f@ == close_frame(id) && fail is None && r.0
                == SocksPhase::Done
        }),
        phase == SocksPhase::Relaying && event is ClientFailed ==> (r.1 matches SocksAction::Close(f, fail)
            && f@ == close_frame(id) && fail is None && r.0 == SocksPhase::Done),
        !socks_event_expected(phase, *event) ==> r.0 == phase && r.1 is Nothing,
        r.1 is Open ==> phase == SocksPhase::Start,
        r.1 is Reply || r.0 == SocksPhase::Relaying ==> phase == SocksPhase::Relaying || (phase
            == SocksPhase::AwaitingAck && is_ok_ack(*event)),
        r.1 is Send ==> phase == SocksPhase::Relaying,
        r.1 is Close ==> r.0 == SocksPhase::Done && (phase == SocksPhase::AwaitingAck || phase
            == SocksPhase::Relaying),
        phase == SocksPhase::Done ==> r.0 == SocksPhase::Done && r.1 is Nothing,
        r.0 == socks_transition(id, phase, *event).0,
        socks_outputs(r.1) == socks_transition(id, phase, *event).1,
{
    match (phase, event) {
        (SocksPhase::Start, SocksEvent::Request(c)) => {
            let request = Connect { host: c.address.clone(), port: c.port, id };
            match encode_connect(&request) {
                Ok(f) => (SocksPhase::AwaitingAck, SocksAction::Open(f)),
                Err(_) => {
                    proof {
                        assert(false);
                    }
                    (phase, SocksAction::Nothing)
                },
            }
        },
        (SocksPhase::AwaitingAck, SocksEvent::PipeMessage(m)) => {
            match check_connect_ack(m.as_slice()) {
                Ok(()) => {
                    proof {
                        assert(m@ =~= seq![CMD_CONNECT_ACK, CONNECT_STATUS_OK]);
                    }
                    (SocksPhase::Relaying, SocksAction::Reply(connect_reply()))
                },
                Err(e) => socks_close(id, Some(SocksFailure::Ack(e))),
            }
        },
        (SocksPhase::AwaitingAck, SocksEvent::PipeGone) => socks_close(
            id,
            Some(SocksFailure::NoAck),
        ),
        (SocksPhase::Relaying, SocksEvent::ClientRead(d)) => {
            match chunk_frame(id, d.as_slice()) {
                Ok(Some(f)) => (SocksPhase::Relaying, SocksAction::Send(f)),
                Ok(None) => socks_close(id, None),
                Err(_) => {
                    proof {
                        assert(false);
                    }
                    (phase, SocksAction::Nothing)
                },
            }
        },
        (SocksPhase::Relaying, SocksEvent::ClientFailed) => socks_close(id, None),
        _ => (phase, SocksAction::Nothing),
    }
}

/// The close of connection `id`, with how it ended.
fn socks_close(id: u64, failure: Option<SocksFailure>) -> (r: (SocksPhase, SocksAction))
    ensures
        r.1 matches SocksAction::Close(f, fail) && f@ == close_frame(id) && fail == failure && r.0
            == SocksPhase::Done,
{
    match encode_close(id) {
        Ok(f) => (SocksPhase::Done, SocksAction::Close(f, failure)),
        Err(_) => {
            proof {
                assert(false);
            }
            (SocksPhase::Done, SocksAction::Nothing)
        },
    }
}

/// Where a connection stands, as the gateway sees it.
#[derive(Debug, Clone, Copy, PartialEq, Eq, Structural)]
pub enum GatewayPhase {
    /// The host is being resolved and dialled.
    Connecting,
    /// The host was reached: data flows both ways.
    Relaying,
    /// The last frame has been sent; nothing more goes down the pipe.
    Done,
}

/// What happens to a connection at the gateway.
#[derive(Debug)]
pub enum GatewayEvent {
    /// The host could not be resolved or reached.
    ConnectFailed,
    /// The host was reached.
    Connected,
    /// A read from the host gave these bytes; none is the end of its stream.
    RemoteRead(Vec<u8>),
    /// A read from the host failed.
    RemoteFailed,
}

/// What the gateway does next for a connection.
#[derive(Debug)]
pub enum GatewayAction {
    /// Send this frame down the pipe and go on.
    Send(Vec<u8>),
    /// Send this frame down the pipe; the connection failed.
    Fail(Vec<u8>),
    /// Send this frame down the pipe; the connection is over.
    Finish(Vec<u8>),
    /// The event does not belong to the phase: nothing to do.
    Nothing,
}

/// The events that each phase of a connection at the gateway expects.
pub open spec fn gateway_event_expected(phase: GatewayPhase, event: GatewayEvent) -> bool {
    ||| phase == GatewayPhase::Connecting && (event is ConnectFailed || event is Connected)
    ||| phase == GatewayPhase::Relaying && (event is RemoteRead || event is RemoteFailed)
}

/// The next phase and the frames that the gateway sends down the pipe for
/// connection `id` on an event.
pub open spec fn gateway_transition(id: u64, phase: GatewayPhase, event: GatewayEvent) -> (
    GatewayPhase,
    Seq<Seq<u8>>,
) {
    match (phase, event) {
        (GatewayPhase::Connecting, GatewayEvent::ConnectFailed) => (
            GatewayPhase::Done,
            seq![connect_ack_frame(id, CONNECT_STATUS_ERR)],
        ),
        (GatewayPhase::Connecting, GatewayEvent::Connected) => (
            GatewayPhase::Relaying,
            seq![connect_ack_frame(id, CONNECT_STATUS_OK)],
        ),
        (GatewayPhase::Relaying, GatewayEvent::RemoteRead(d)) => if d@.len() > 0 {
            (GatewayPhase::Relaying, seq![data_frame(id, d@)])
        } else {
            (GatewayPhase::Done, seq![close_frame(id)])
        },
        (GatewayPhase::Relaying, GatewayEvent::RemoteFailed) => (
            GatewayPhase::Done,
            seq![close_frame(id)],
        ),
        _ => (phase, Seq::empty()),
    }
}

/// The frames that an action of the gateway sends down the pipe.
pub open spec fn gateway_frames(action: GatewayAction) -> Seq<Seq<u8>> {
    match action {
        GatewayAction::Send(f) => seq![f@],
        GatewayAction::Fail(f) => seq![f@],
        GatewayAction::Finish(f) => seq![f@],
        GatewayAction::Nothing => Seq::empty(),
    }
}

/// The phase and all the frames of connection `id` after the events, in
/// order, from `Connecting`.
pub open spec fn gateway_run(id: u64, events: Seq<GatewayEvent>) -> (GatewayPhase, Seq<Seq<u8>>)
    decreases events.len(),
{
    if events.len() == 0 {
        (GatewayPhase::Connecting, Seq::empty())
    } else {
        let (phase, out) = gateway_run(id, events.drop_last());
        let (next, more) = gateway_transition(id, phase, events.last());
        (next, out + more)
    }
}

/// The frame is a data frame of connection `id`.
pub open spec fn is_data_frame(id: u64, f: Seq<u8>) -> bool {
    exists|d: Seq<u8>| f == #[trigger] data_frame(id, d)
}

/// The frames of connection `id` so far, in phase `phase`, are a prefix of
/// the answer, the data frames and the close: an answer with status ERR
/// alone when the host was not reached; otherwise an answer with status OK
/// first, then data frames, and the close last when the phase is `Done`.
pub open spec fn gateway_order(id: u64, phase: GatewayPhase, out: Seq<Seq<u8>>) -> bool {
    &&& phase == GatewayPhase::Connecting <==> out.len() == 0
    &&& phase == GatewayPhase::Relaying ==> out[0] == connect_ack_frame(id, CONNECT_STATUS_OK)
        && forall|i: int| 1 <= i < out.len() ==> is_data_frame(id, #[trigger] out[i])
    &&& phase == GatewayPhase::Done ==> (out == seq![connect_ack_frame(id, CONNECT_STATUS_ERR)] || (
    out.len() >= 2 && out[0] == connect_ack_frame(id, CONNECT_STATUS_OK) && out.last()
        == close_frame(id) && forall|i: int|
        1 <= i < out.len() - 1 ==> is_data_frame(id, #[trigger] out[i])))
}

/// The gateway's decision for connection `id` on an event: the next phase
/// and what to do. Over a connection's life the frames go down the pipe in
/// this order: an answer with status ERR, and nothing after it, when the
/// host cannot be resolved or reached; otherwise an answer with status OK,
/// then the data frames, and the close last, after which nothing is sent.
pub fn gateway_step(id: u64, phase: GatewayPhase, event: &GatewayEvent) -> (r: (
    GatewayPhase,
    GatewayAction,
))
    requires
        event matches GatewayEvent::RemoteRead(d) ==> size_field(d@.len(), 1) <= u32::MAX,
    ensures
        phase == GatewayPhase::Connecting && event is ConnectFailed ==> (r.1 matches GatewayAction::Fail(f)
            && f@ == connect_ack_frame(id, CONNECT_STATUS_ERR) && r.0 == GatewayPhase::Done),
        phase == GatewayPhase::Connecting && event is Connected ==> (r.1 matches GatewayAction::Send(f)
            && f@ == connect_ack_frame(id, CONNECT_STATUS_OK) && r.0 == GatewayPhase::Relaying),
        event matches GatewayEvent::RemoteRead(d) ==> (phase != GatewayPhase::Relaying || if d@.len() > 0 {
            r.1 matches GatewayAction::Send(f) && f@ == data_frame(id, d@) && r.0 == GatewayPhase::Relaying
        } else {
            r.1 matches GatewayAction::Finish(f) && f@ == close_frame(id) && r.0 == GatewayPhase::Done
        }),
        phase == GatewayPhase::Relaying && event is RemoteFailed ==> (r.1 matches GatewayAction::Finish(f)
            && f@ == close_frame(id) && r.0 == GatewayPhase::Done),
        !gateway_event_expected(phase, *event) ==> r.0 == phase && r.1 is Nothing,
        r.0 == GatewayPhase::Relaying ==> phase == GatewayPhase::Relaying || (phase
            == GatewayPhase::Connecting && event is Connected),
        r.1 is Fail ==> phase == GatewayPhase::Connecting && r.0 == GatewayPhase::Done,
        r.1 is Finish ==> phase == GatewayPhase::Relaying && r.0 == GatewayPhase::Done,
        phase == GatewayPhase::Done ==> r.0 == GatewayPhase::Done && r.1 is Nothing,
        r.0 == gateway_transition(id, phase, *event).0,
        gateway_frames(r.1) == gateway_transition(id, phase, *event).1,
{
    match (phase, event) {
        (GatewayPhase::Connecting, GatewayEvent::ConnectFailed) => {
            match connect_outcome_frame(id, false) {
                Ok(f) => (GatewayPhase::Done, GatewayAction::Fail(f)),
                Err(_) => {
                    proof {
                        assert(false);
                    }
                    (phase, GatewayAction::Nothing)
                },
            }
        },
        (GatewayPhase::Connecting, GatewayEvent::Connected) => {
            match connect_outcome_frame(id, true) {
                Ok(f) => (GatewayPhase::Relaying, GatewayAction::Send(f)),
                Err(_) => {
                    proof {
                        assert(false);
                    }
                    (phase, GatewayAction::Nothing)
                },
            }
        },
        (GatewayPhase::Relaying, GatewayEvent::RemoteRead(d)) => {
            match chunk_frame(id, d.as_slice()) {
                Ok(Some(f)) => (GatewayPhase::Relaying, GatewayAction::Send(f)),
                Ok(None) => gateway_finish(id),
                Err(_) => {
                    proof {
                        assert(false);
                    }
                    (phase, GatewayAction::Nothing)
                },
            }
        },
        (GatewayPhase::Relaying, GatewayEvent::RemoteFailed) => gateway_finish(id),
        _ => (phase, GatewayAction::Nothing),
    }
}

/// The close of connection `id` at the gateway.
fn gateway_finish(id: u64) -> (r: (GatewayPhase, GatewayAction))
    ensures
        r.1 matches GatewayAction::Finish(f) && f@ == close_frame(id) && r.0 == GatewayPhase::Done,
{
    match encode_close(id) {
        Ok(f) => (GatewayPhase::Done, GatewayAction::Finish(f)),
        Err(_) => {
            proof {
                assert(false);
            }
            (GatewayPhase::Done, GatewayAction::Nothing)
        },
    }
}

/// Whether a message handed to a task that writes to a socket ends the
/// task: the empty message does, by the convention of both ends.
pub fn ends_writer(msg: &[u8]) -> (stop: bool)
    ensures
        stop <==> msg@.len() == 0,
{
    msg.len() == 0
}

/// Over any run of a SOCKS connection, the frames go down the pipe in the
/// order connect, data, close, of which a run shows a prefix: the connect
/// first; the reply to the client second and only after an answer with
/// status OK, and the data frames only after the reply; the close last,
/// after which nothing more is put out.
#[verifier::spinoff_prover]
pub proof fn law_socks_run_order(id: u64, events: Seq<SocksEvent>)
    ensures
        socks_order(id, socks_run(id, events).0, socks_run(id, events).1),
        ({
            let out = socks_run(id, events).1;
            out.len() >= 2 && out[1] is Reply ==> exists|i: int|
                0 <= i < events.len() && #[trigger] is_ok_ack(events[i])
        }),
    decreases events.len(),
{
    if events.len() > 0 {
        let prev = events.drop_last();
        law_socks_run_order(id, prev);
        let (phase, out) = socks_run(id, prev);
        let e = events.last();
        let (next, more) = socks_transition(id, phase, e);
        let all = out + more;
        assert(socks_run(id, events) == (next, all));
        if let SocksEvent::Request(c) = e {
            if phase == SocksPhase::Start {
                let f = connect_frame(encode_utf8(c.address@), c.port, id);
                assert(all[0] == SocksOutput::Pipe(f));
            }
        }
        if let SocksEvent::ClientRead(d) = e {
            if phase == SocksPhase::Relaying && d@.len() > 0 {
                assert(all.last() == SocksOutput::Pipe(data_frame(id, d@)));
            }
        }
        if out.len() > 0 {
            assert(all[0] == out[0]);
        }
        assert forall|i: int| 0 <= i < out.len() implies all[i] == out[i] by {}
        if phase == SocksPhase::AwaitingAck {
            if let SocksEvent::PipeMessage(m) = e {
                if ack_verdict(m@) is Ok {
                    assert(m@ =~= seq![CMD_CONNECT_ACK, CONNECT_STATUS_OK]);
                    assert(is_ok_ack(events[events.len() - 1]));
                }
            }
        }
        if all.len() >= 2 && all[1] is Reply && out.len() >= 2 {
            let i = choose|i: int| 0 <= i < prev.len() && #[trigger] is_ok_ack(prev[i]);
            assert(events[i] == prev[i]);
        }
    }
}

/// Over any run of a connection at the gateway, the frames go down the pipe
/// in the order answer, data, close, of which a run shows a prefix: an
/// answer with status ERR and nothing after it when the host was not
/// reached, which comes only after a failed connect; otherwise an answer
/// with status OK, which comes only after a connect, then the data frames,
/// and the close last, after which nothing more is sent.
#[verifier::spinoff_prover]
pub proof fn law_gateway_run_order(id: u64, events: Seq<GatewayEvent>)
    ensures
        gateway_order(id, gateway_run(id, events).0, gateway_run(id, events).1),
        ({
            let out = gateway_run(id, events).1;
            &&& out.len() > 0 && out[0] == connect_ack_frame(id, CONNECT_STATUS_OK) ==> exists|i: int|
                0 <= i < events.len() && #[trigger] events[i] is Connected
            &&& out.len() > 0 && out[0] == connect_ack_frame(id, CONNECT_STATUS_ERR) ==> exists|i: int|
                0 <= i < events.len() && #[trigger] events[i] is ConnectFailed
        }),
    decreases events.len(),
{
    if events.len() > 0 {
        let prev = events.drop_last();
        law_gateway_run_order(id, prev);
        let (phase, out) = gateway_run(id, prev);
        let e = events.last();
        let (next, more) = gateway_transition(id, phase, e);
        let all = out + more;
        assert(gateway_run(id, events) == (next, all));
        assert forall|i: int| 0 <= i < out.len() implies all[i] == out[i] by {}
        if let GatewayEvent::RemoteRead(d) = e {
            if phase == GatewayPhase::Relaying && d@.len() > 0 {
                assert(all.last() == data_frame(id, d@));
            }
        }
        lemma_acks_differ(id);
        if phase == GatewayPhase::Connecting {
            assert(events[events.len() - 1] == e);
        } else if out.len() > 0 {
            if out[0] == connect_ack_frame(id, CONNECT_STATUS_OK) {
                let i = choose|i: int| 0 <= i < prev.len() && #[trigger] prev[i] is Connected;
                assert(events[i] == prev[i]);
            }
            if out[0] == connect_ack_frame(id, CONNECT_STATUS_ERR) {
                let i = choose|i: int| 0 <= i < prev.len() && #[trigger] prev[i] is ConnectFailed;
                assert(events[i] == prev[i]);
            }
        }
    }
}

/// The answers with status OK and with status ERR are different frames.
proof fn lemma_acks_differ(id: u64)
    ensures
        connect_ack_frame(id, CONNECT_STATUS_OK) != connect_ack_frame(id, CONNECT_STATUS_ERR),
{
    law_connect_ack_frame(id, CONNECT_STATUS_OK);
    law_connect_ack_frame(id, CONNECT_STATUS_ERR);
    assert(connect_ack_frame(id, CONNECT_STATUS_OK)[13] != connect_ack_frame(id, CONNECT_STATUS_ERR)[13]);
}

/// In a stream of frames, the header at the front tells where the next
/// frame starts: a frame whose header announces the length of its body is
/// read off the front of any stream that it starts, and leaves the rest.
#[verifier::spinoff_prover]
pub proof fn law_frame_split(frame: Seq<u8>, rest: Seq<u8>)
    requires
        parse_header(frame) matches Ok((size, _)) && frame.len() == 12 + size,
    ensures
        parse_header(frame + rest) == parse_header(frame),
        ({
            let size = parse_header(frame)->Ok_0.0 as int;
            &&& (frame + rest).subrange(12, 12 + size) == frame.skip(12)
            &&& (frame + rest).skip(12 + size) == rest
        }),
{
    let s = frame + rest;
    let size = parse_header(frame)->Ok_0.0 as int;
    assert(s.subrange(0, 4) =~= frame.subrange(0, 4));
    assert(s.subrange(4, 12) =~= frame.subrange(4, 12));
    assert(s.subrange(12, 12 + size) =~= frame.skip(12));
    assert(s.skip(12 + size) =~= rest);
}

/// The gateway reads back what the SOCKS end sends: the body of a connect
/// frame is a connect whose host decodes to the host that was sent, when
/// its encoding is at most 255 bytes long; the body of a data frame is the
/// data; the body of a close frame is a close.
#[verifier::spinoff_prover]
pub proof fn law_gateway_reads_socks_frames(host: Seq<char>, port: u16, id: u64, data: Seq<u8>)
    requires
        encode_utf8(host).len() <= 255,
        data.len() < u32::MAX,
    ensures
        ({
            let body = connect_frame(encode_utf8(host), port, id).skip(12);
            &&& body[0] == CMD_CONNECT
            &&& parse_connect(body.skip(1)) == Ok::<(Seq<u8>, nat), WireError>(
                (encode_utf8(host), port as nat),
            )
            &&& valid_utf8(encode_utf8(host))
            &&& decode_utf8(encode_utf8(host)) == host
        }),
        ({
            let body = data_frame(id, data).skip(12);
            &&& body[0] == CMD_DATA
            &&& body.skip(1) == data
        }),
        close_frame(id).skip(12) == seq![CMD_CLOSE],
{
    let f = connect_frame(encode_utf8(host), port, id);
    assert(f.skip(12)[0] == CMD_CONNECT && parse_connect(f.skip(12).skip(1)) == Ok::<
        (Seq<u8>, nat),
        WireError,
    >((encode_utf8(host), port as nat))) by {
        law_connect_roundtrip(host, port, id);
        assert(f.skip(12).skip(1) =~= f.subrange(13, f.len() as int));
    }
    assert(valid_utf8(encode_utf8(host)) && decode_utf8(encode_utf8(host)) == host) by {
        law_connect_roundtrip(host, port, id);
    }
    let g = data_frame(id, data);
    assert(g.skip(12)[0] == CMD_DATA && g.skip(12).skip(1) == data) by {
        law_data_roundtrip(id, data);
        assert(g.skip(12).skip(1) =~= g.subrange(13, g.len() as int));
    }
    assert(close_frame(id).skip(12) =~= seq![CMD_CLOSE]) by {
        law_close_frame(id);
    }
}

/// The SOCKS end reads back what the gateway sends: the answer to a
/// connect is accepted exactly when its status is OK; the body of a data
/// frame is delivered to the client as it was sent; a close ends the relay.
#[verifier::spinoff_prover]
pub proof fn law_socks_reads_gateway_frames(id: u64, status: u8, data: Seq<u8>)
    requires
        data.len() < u32::MAX,
    ensures
        ({
            let body = connect_ack_frame(id, status).skip(12);
            &&& body.len() == 2
            &&& body[0] == CMD_CONNECT_ACK
            &&& (body == seq![CMD_CONNECT_ACK, CONNECT_STATUS_OK] <==> status == CONNECT_STATUS_OK)
        }),
        ({
            let body = data_frame(id, data).skip(12);
            &&& !ends_relay(body)
            &&& body[0] == CMD_DATA
            &&& body.skip(1) == data
        }),
        ends_relay(close_frame(id).skip(12)),
{
    law_connect_ack_frame(id, status);
    let a = connect_ack_frame(id, status);
    assert(a.skip(12) =~= a.subrange(12, 14));
    if a.skip(12) == seq![CMD_CONNECT_ACK, CONNECT_STATUS_OK] {
        assert(a.skip(12)[1] == status);
    }
    law_data_roundtrip(id, data);
    let g = data_frame(id, data);
    assert(g.skip(12).skip(1) =~= g.subrange(13, g.len() as int));
    law_close_frame(id);
}

} // verus!
