//! The pipe's wire format. A frame is a header of twelve bytes, the length
//! of the body as a little-endian `u32` and the connection's id as a
//! little-endian `u64`, followed by the body, whose first byte is the
//! command.

use crate::text::string_from_utf8;
use crate::codec::{
    le_bytes, le_value, lemma_byte_pows, lemma_le_bytes_of_value, lemma_le_roundtrip,
    lemma_le_value_bound, read_u16_le, read_u32_le, read_u64_le, read_u8, write_u16_le,
    write_u32_le, write_u64_le, write_u8,
};
use vstd::prelude::*;
use vstd::slice::*;
use vstd::utf8::*;

verus! {

/// Opens a connection to a host and port.
pub const CMD_CONNECT: u8 = 1;

/// Closes a connection.
pub const CMD_CLOSE: u8 = 2;

/// Carries data of a connection.
pub const CMD_DATA: u8 = 3;

/// Answers a connect with a status.
pub const CMD_CONNECT_ACK: u8 = 4;

/// The connection was opened.
pub const CONNECT_STATUS_OK: u8 = 0;

/// The connection could not be opened.
pub const CONNECT_STATUS_ERR: u8 = 1;

/// The length of a frame's header.
pub const HEADER_LEN: usize = 12;

/// A request to open a connection to `host` and `port`.
#[derive(Debug)]
pub struct Connect {
    pub host: String,
    pub port: u16,
    pub id: u64,
}

/// The header of a frame: the length of its body and its connection.
#[derive(Debug)]
pub struct Header {
    pub size: u32,
    pub id: u64,
}

/// Why bytes could not be framed or read back.
#[derive(Debug, PartialEq, Eq, Structural)]
pub enum WireError {
    /// The bytes end before the message does.
    UnexpectedEof,
    /// A host name is not valid UTF-8.
    InvalidUtf8,
    /// Writing the frame failed; writing into a vector does not.
    Io,
}

/// The header of a frame whose body has `size` bytes.
pub open spec fn frame_header(size: nat, id: u64) -> Seq<u8> {
    le_bytes(size, 4) + le_bytes(id as nat, 8)
}

/// The size field of a frame whose body is `extra` bytes longer than
/// `len`, computed as a `u32` from `len` truncated to 32 bits.
pub open spec fn size_field(len: nat, extra: nat) -> nat {
    len % 0x1_0000_0000 + extra
}

/// The frame that asks to open a connection to `host` (its bytes) and
/// `port`. The length byte holds the host's length truncated to 8 bits.
pub open spec fn connect_frame(host: Seq<u8>, port: u16, id: u64) -> Seq<u8> {
    frame_header(size_field(host.len(), 4), id) + seq![CMD_CONNECT, (host.len() % 256) as u8] + host
        + le_bytes(port as nat, 2)
}

/// The frame that answers a connect with `status`.
pub open spec fn connect_ack_frame(id: u64, status: u8) -> Seq<u8> {
    frame_header(2, id) + seq![CMD_CONNECT_ACK, status]
}

/// The frame that closes a connection.
pub open spec fn close_frame(id: u64) -> Seq<u8> {
    frame_header(1, id) + seq![CMD_CLOSE]
}

/// The frame that carries `data` on a connection.
pub open spec fn data_frame(id: u64, data: Seq<u8>) -> Seq<u8> {
    frame_header(size_field(data.len(), 1), id) + seq![CMD_DATA] + data
}

/// The body size and connection id that a header holds.
pub open spec fn parse_header(data: Seq<u8>) -> Result<(nat, nat), WireError> {
    if data.len() < 12 {
        Err(WireError::UnexpectedEof)
    } else {
        Ok((le_value(data.subrange(0, 4)), le_value(data.subrange(4, 12))))
    }
}

/// The host bytes and port that the body of a connect holds, after its
/// command byte: a length byte, the host, and the port, least significant
/// byte first.
pub open spec fn parse_connect(data: Seq<u8>) -> Result<(Seq<u8>, nat), WireError> {
    if data.len() < 1 {
        Err(WireError::UnexpectedEof)
    } else if data.len() < 3 + data[0] {
        Err(WireError::UnexpectedEof)
    } else {
        let n = data[0] as int;
        Ok((data.subrange(1, 1 + n), le_value(data.subrange(1 + n, 3 + n))))
    }
}

/// Encodes a request to open a connection to `c.host` and `c.port`.
pub fn encode_connect(c: &Connect) -> (r: Result<Vec<u8>, WireError>)
    requires
        size_field(encode_utf8(c.host@).len(), 4) <= u32::MAX,
    ensures
        r matches Ok(frame) && frame@ == connect_frame(encode_utf8(c.host@), c.port, c.id),
{
    let mut buf: Vec<u8> = Vec::with_capacity(1024);
    let host: &[u8] = c.host.as_str().as_bytes();
    let hlen: u64 = host.len() as u64;
    let h32: u32 = (hlen % 0x1_0000_0000) as u32;
    let size: u32 = 1 + h32 + 2 + 1;
    if write_u32_le(&mut buf, size).is_err() {
        return Err(WireError::Io);
    }
    if write_u64_le(&mut buf, c.id).is_err() {
        return Err(WireError::Io);
    }
    if write_u8(&mut buf, CMD_CONNECT).is_err() {
        return Err(WireError::Io);
    }
    if write_u8(&mut buf, (hlen % 256) as u8).is_err() {
        return Err(WireError::Io);
    }
    buf.extend_from_slice(host);
    if write_u16_le(&mut buf, c.port).is_err() {
        return Err(WireError::Io);
    }
    assert(buf@ =~= connect_frame(encode_utf8(c.host@), c.port, c.id));
    Ok(buf)
}


/// Encodes the answer to a connect on connection `id` with `status`.
pub fn encode_connect_ack(id: u64, status: u8) -> (r: Result<Vec<u8>, WireError>)
    ensures
        r matches Ok(frame) && frame@ == connect_ack_frame(id, status),
{
    let mut buf: Vec<u8> = Vec::with_capacity(1024);
    if write_u32_le(&mut buf, 2).is_err() {
        return Err(WireError::Io);
    }
    if write_u64_le(&mut buf, id).is_err() {
        return Err(WireError::Io);
    }
    if write_u8(&mut buf, CMD_CONNECT_ACK).is_err() {
        return Err(WireError::Io);
    }
    if write_u8(&mut buf, status).is_err() {
        return Err(WireError::Io);
    }
    assert(buf@ =~= connect_ack_frame(id, status));
    Ok(buf)
}

/// Reads the body of a connect that follows its command byte. The id of
/// the result is 0: the connection's id travels in the header.
pub fn decode_connect(data: &[u8]) -> (r: Result<Connect, WireError>)
    ensures
        match parse_connect(data@) {
            Err(e) => r matches Err(x) && x == e,
            Ok((host, port)) => if valid_utf8(host) {
                r matches Ok(c) && c.host@ == decode_utf8(host) && c.port == port && c.id == 0
            } else {
                r matches Err(x) && x == WireError::InvalidUtf8
            },
        },
{
    let hostlen: u8 = match read_u8(data) {
        Ok(v) => v,
        Err(_) => return Err(WireError::UnexpectedEof),
    };
    let n: usize = hostlen as usize;
    let rest: &[u8] = slice_subrange(data, 1, data.len());
    if rest.len() < n {
        return Err(WireError::UnexpectedEof);
    }
    let host: &[u8] = slice_subrange(rest, 0, n);
    let after: &[u8] = slice_subrange(rest, n, rest.len());
    let port: u16 = match read_u16_le(after) {
        Ok(v) => v,
        Err(_) => return Err(WireError::UnexpectedEof),
    };
    assert(host@ =~= data@.subrange(1, 1 + n));
    assert(after@.take(2) =~= data@.subrange(1 + n, 3 + n));
    match string_from_utf8(host) {
        Some(s) => Ok(Connect { host: s, port, id: 0 }),
        None => Err(WireError::InvalidUtf8),
    }
}

/// Encodes the frame that closes connection `id`.
pub fn encode_close(id: u64) -> (r: Result<Vec<u8>, WireError>)
    ensures
        r matches Ok(frame) && frame@ == close_frame(id),
{
    let mut buf: Vec<u8> = Vec::with_capacity(1024);
    if write_u32_le(&mut buf, 1).is_err() {
        return Err(WireError::Io);
    }
    if write_u64_le(&mut buf, id).is_err() {
        return Err(WireError::Io);
    }
    if write_u8(&mut buf, CMD_CLOSE).is_err() {
        return Err(WireError::Io);
    }
    assert(buf@ =~= close_frame(id));
    Ok(buf)
}

/// Encodes the frame that carries `data` on connection `id`.
pub fn encode_data(id: u64, data: &[u8]) -> (r: Result<Vec<u8>, WireError>)
    requires
        size_field(data@.len(), 1) <= u32::MAX,
    ensures
        r matches Ok(frame) && frame@ == data_frame(id, data@),
{
    let mut buf: Vec<u8> = Vec::with_capacity(1024);
    let len: u64 = data.len() as u64;
    let size: u32 = (len % 0x1_0000_0000) as u32 + 1;
    if write_u32_le(&mut buf, size).is_err() {
        return Err(WireError::Io);
    }
    if write_u64_le(&mut buf, id).is_err() {
        return Err(WireError::Io);
    }
    if write_u8(&mut buf, CMD_DATA).is_err() {
        return Err(WireError::Io);
    }
    buf.extend_from_slice(data);
    assert(buf@ =~= data_frame(id, data@));
    Ok(buf)
}

/// Reads the body of a data frame that follows its command byte: all of
/// it is the data.
pub fn decode_data(data: &[u8]) -> (r: Result<Vec<u8>, WireError>)
    ensures
        r matches Ok(v) && v@ == data@,
{
    let val: &[u8] = data;
    Ok(slice_to_vec(val))
}

/// Reads a frame's header from the first twelve bytes of `data`.
pub fn decode_header(data: &[u8]) -> (r: Result<Header, WireError>)
    ensures
        match parse_header(data@) {
            Err(e) => r matches Err(x) && x == e,
            Ok((size, id)) => r matches Ok(h) && h.size == size && h.id == id,
        },
{
    let size: u32 = match read_u32_le(data) {
        Ok(v) => v,
        Err(_) => return Err(WireError::UnexpectedEof),
    };
    let rest: &[u8] = slice_subrange(data, 4, data.len());
    let id: u64 = match read_u64_le(rest) {
        Ok(v) => v,
        Err(_) => return Err(WireError::UnexpectedEof),
    };
    assert(data@.take(4) =~= data@.subrange(0, 4));
    assert(rest@.take(8) =~= data@.subrange(4, 12));
    Ok(Header { size, id })
}


/// A header reads back the body size and connection id that were written
/// into it, whatever follows it.
#[verifier::spinoff_prover]
pub proof fn lemma_header_roundtrip(size: nat, id: u64, body: Seq<u8>)
    requires
        size <= u32::MAX,
    ensures
        parse_header(frame_header(size, id) + body) == Ok::<(nat, nat), WireError>((size, id as nat)),
{
    lemma_byte_pows();
    lemma_le_roundtrip(size, 4);
    lemma_le_roundtrip(id as nat, 8);
    let f = frame_header(size, id) + body;
    assert(f.subrange(0, 4) =~= le_bytes(size, 4));
    assert(f.subrange(4, 12) =~= le_bytes(id as nat, 8));
}

/// A connect frame announces its body's length and its connection in its
/// header, its body starts with `CMD_CONNECT`, and the rest of its body
/// reads back as the host and port that were written, when the host's
/// encoding is at most 255 bytes long. The host's bytes are its UTF-8
/// encoding, which decodes back to the host.
#[verifier::spinoff_prover]
pub proof fn law_connect_roundtrip(host: Seq<char>, port: u16, id: u64)
    requires
        encode_utf8(host).len() <= 255,
    ensures
        ({
            let f = connect_frame(encode_utf8(host), port, id);
            &&& parse_header(f) == Ok::<(nat, nat), WireError>(((f.len() - 12) as nat, id as nat))
            &&& f[12] == CMD_CONNECT
            &&& parse_connect(f.subrange(13, f.len() as int)) == Ok::<(Seq<u8>, nat), WireError>(
                (encode_utf8(host), port as nat),
            )
            &&& valid_utf8(encode_utf8(host))
            &&& decode_utf8(encode_utf8(host)) == host
        }),
{
    let h = encode_utf8(host);
    let f = connect_frame(h, port, id);
    lemma_byte_pows();
    lemma_le_roundtrip(port as nat, 2);
    lemma_le_roundtrip(id as nat, 8);
    lemma_le_roundtrip(size_field(h.len(), 4), 4);
    let body = seq![CMD_CONNECT, (h.len() % 256) as u8] + h + le_bytes(port as nat, 2);
    assert(f =~= frame_header(size_field(h.len(), 4), id) + body);
    lemma_header_roundtrip(size_field(h.len(), 4), id, body);
    let b = f.subrange(13, f.len() as int);
    assert(b[0] == h.len());
    assert(b.subrange(1, 1 + h.len() as int) =~= h);
    assert(b.subrange(1 + h.len() as int, 3 + h.len() as int) =~= le_bytes(port as nat, 2));
    encode_utf8_valid_utf8(host);
    encode_utf8_decode_utf8(host);
}

/// A data frame announces its body's length and its connection in its
/// header, its body starts with `CMD_DATA`, and the rest of its body is the
/// data, when the data is shorter than `u32::MAX` bytes.
#[verifier::spinoff_prover]
pub proof fn law_data_roundtrip(id: u64, data: Seq<u8>)
    requires
        data.len() < u32::MAX,
    ensures
        ({
            let f = data_frame(id, data);
            &&& parse_header(f) == Ok::<(nat, nat), WireError>(((f.len() - 12) as nat, id as nat))
            &&& f[12] == CMD_DATA
            &&& f.subrange(13, f.len() as int) == data
        }),
{
    let f = data_frame(id, data);
    lemma_byte_pows();
    lemma_le_roundtrip(size_field(data.len(), 1), 4);
    lemma_le_roundtrip(id as nat, 8);
    let body = seq![CMD_DATA] + data;
    assert(f =~= frame_header(size_field(data.len(), 1), id) + body);
    lemma_header_roundtrip(size_field(data.len(), 1), id, body);
    assert(f.subrange(13, f.len() as int) =~= data);
}

/// A close frame announces a body of one byte and its connection, and that
/// byte is `CMD_CLOSE`.
#[verifier::spinoff_prover]
pub proof fn law_close_frame(id: u64)
    ensures
        ({
            let f = close_frame(id);
            &&& f.len() == 13
            &&& parse_header(f) == Ok::<(nat, nat), WireError>((1, id as nat))
            &&& f[12] == CMD_CLOSE
        }),
{
    lemma_byte_pows();
    lemma_le_roundtrip(1, 4);
    lemma_le_roundtrip(id as nat, 8);
    lemma_header_roundtrip(1, id, seq![CMD_CLOSE]);
}

/// An ack frame announces a body of two bytes and its connection, and that
/// body is `CMD_CONNECT_ACK` and the status.
#[verifier::spinoff_prover]
pub proof fn law_connect_ack_frame(id: u64, status: u8)
    ensures
        ({
            let f = connect_ack_frame(id, status);
            &&& f.len() == 14
            &&& parse_header(f) == Ok::<(nat, nat), WireError>((2, id as nat))
            &&& f.subrange(12, 14) == seq![CMD_CONNECT_ACK, status]
        }),
{
    lemma_byte_pows();
    lemma_le_roundtrip(2, 4);
    lemma_le_roundtrip(id as nat, 8);
    lemma_header_roundtrip(2, id, seq![CMD_CONNECT_ACK, status]);
    assert(connect_ack_frame(id, status).subrange(12, 14) =~= seq![CMD_CONNECT_ACK, status]);
}


/// Every well-formed header is one that the encoders write: the twelve
/// bytes are the header of the size and id that they read as.
#[verifier::spinoff_prover]
pub proof fn law_header_canonical(data: Seq<u8>)
    requires
        data.len() == 12,
    ensures
        parse_header(data) matches Ok((size, id)) && size <= u32::MAX && id <= u64::MAX
            && frame_header(size, id as u64) == data,
{
    lemma_byte_pows();
    lemma_le_value_bound(data.subrange(0, 4));
    lemma_le_value_bound(data.subrange(4, 12));
    lemma_le_bytes_of_value(data.subrange(0, 4));
    lemma_le_bytes_of_value(data.subrange(4, 12));
    let id = le_value(data.subrange(4, 12));
    assert(id as u64 as nat == id);
    assert(frame_header(le_value(data.subrange(0, 4)), id as u64) =~= data);
}

/// Every connect body that reads back exactly (no bytes after the port) is
/// the body that the encoder writes for its host and port.
#[verifier::spinoff_prover]
pub proof fn law_connect_body_canonical(body: Seq<u8>, id: u64)
    requires
        parse_connect(body) matches Ok((host, _)) && body.len() == 3 + host.len(),
    ensures
        parse_connect(body) matches Ok((host, port)) && port <= u16::MAX
            && connect_frame(host, port as u16, id).skip(13) == body,
{
    let n = body[0] as int;
    let host = body.subrange(1, 1 + n);
    let p = body.subrange(1 + n, 3 + n);
    lemma_byte_pows();
    lemma_le_value_bound(p);
    lemma_le_bytes_of_value(p);
    let port = le_value(p);
    assert(port as u16 as nat == port);
    lemma_le_roundtrip(size_field(host.len(), 4), 4);
    lemma_le_roundtrip(id as nat, 8);
    assert(le_bytes(port, 2) == p);
    assert((host.len() % 256) as u8 == body[0]);
    let f = connect_frame(host, port as u16, id);
    assert(f.len() == 13 + body.len());
    assert(f.skip(13) =~= body);
}

} // verus!
