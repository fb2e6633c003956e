//! The SOCKS5 side: the client's greeting and CONNECT request read from
//! bytes, the replies to them, and the ids given to client connections.
//!
//! The parsers work on the bytes received so far. Where those end before
//! the message does, they answer `Incomplete(n)`: the message needs at
//! least `n` bytes in all, and no answer is given before those have come.

use crate::codec::be_value;
use crate::text::{ipv4_string, ipv4_text, string_from_utf8};
use crate::codec::lemma_be_pair;
use vstd::prelude::*;
use vstd::slice::*;
use vstd::utf8::*;

verus! {

/// The SOCKS protocol version.
pub const SOCKS_VERSION: u8 = 5;

/// The command that asks to connect.
pub const SOCKS_CMD_CONNECT: u8 = 1;

/// The address type of an IPv4 address.
pub const ATYP_IPV4: u8 = 1;

/// The address type of a domain name.
pub const ATYP_DOMAIN: u8 = 3;

/// The client's greeting: the authentication methods it offers.
#[derive(Debug)]
pub struct SockMessageClientAuth {
    pub methods: Vec<u8>,
}

/// A CONNECT request: the host, as text, and the port.
#[derive(Debug)]
pub struct SockMessageConnect {
    pub address: String,
    pub port: u16,
}

/// A request of the client.
#[derive(Debug)]
pub enum SockMessage {
    Connect(SockMessageConnect),
}

/// Why the bytes are not (yet) a message.
#[derive(Debug, PartialEq, Eq, Structural)]
pub enum SocksError {
    /// The message needs at least this many bytes in all.
    Incomplete(usize),
    /// The request's command is not CONNECT.
    UnknownCommand,
    /// The request's address type is neither IPv4 nor a domain name.
    UnknownAddressType(u8),
    /// The domain name is not valid UTF-8.
    InvalidUtf8,
}

/// The greeting that `data` starts with: its length and the methods, which
/// follow the version byte and the byte that counts them.
pub open spec fn greeting(data: Seq<u8>) -> Result<(nat, Seq<u8>), SocksError> {
    if data.len() < 2 {
        Err(SocksError::Incomplete(2))
    } else if data.len() < 2 + data[1] {
        Err(SocksError::Incomplete((2 + data[1]) as usize))
    } else {
        Ok(((2 + data[1]) as nat, data.subrange(2, 2 + data[1] as int)))
    }
}

/// The CONNECT request's address and port that `data` starts with, where
/// `data` follows the version and command bytes: a reserved byte, the
/// address type, the address, and the port, most significant byte first.
pub open spec fn connect_request(data: Seq<u8>) -> Result<(nat, Seq<char>, nat), SocksError> {
    if data.len() < 2 {
        Err(SocksError::Incomplete(2))
    } else if data[1] == ATYP_IPV4 {
        if data.len() < 6 {
            Err(SocksError::Incomplete(6))
        } else if data.len() < 8 {
            Err(SocksError::Incomplete(8))
        } else {
            Ok((8, ipv4_text(data[2], data[3], data[4], data[5]), be_value(data.subrange(6, 8))))
        }
    } else if data[1] == ATYP_DOMAIN {
        if data.len() < 3 {
            Err(SocksError::Incomplete(3))
        } else {
            let n = data[2] as int;
            if data.len() < 3 + n {
                Err(SocksError::Incomplete((3 + n) as usize))
            } else if !valid_utf8(data.subrange(3, 3 + n)) {
                Err(SocksError::InvalidUtf8)
            } else if data.len() < 5 + n {
                Err(SocksError::Incomplete((5 + n) as usize))
            } else {
                Ok(
                    (
                        (5 + n) as nat,
                        decode_utf8(data.subrange(3, 3 + n)),
                        be_value(data.subrange(3 + n, 5 + n)),
                    ),
                )
            }
        }
    } else {
        Err(SocksError::UnknownAddressType(data[1]))
    }
}

/// The request that `data` starts with: the version byte and the command,
/// which must be CONNECT, then the rest of a CONNECT request.
pub open spec fn request(data: Seq<u8>) -> Result<(nat, Seq<char>, nat), SocksError> {
    if data.len() < 2 {
        Err(SocksError::Incomplete(2))
    } else if data[1] != SOCKS_CMD_CONNECT {
        Err(SocksError::UnknownCommand)
    } else {
        match connect_request(data.skip(2)) {
            Err(SocksError::Incomplete(n)) => Err(SocksError::Incomplete((n + 2) as usize)),
            Err(e) => Err(e),
            Ok((n, address, port)) => Ok((n + 2, address, port)),
        }
    }
}

/// Reads the client's greeting from the bytes received so far.
pub fn parse_auth(data: &[u8]) -> (r: Result<(usize, SockMessageClientAuth), SocksError>)
    ensures
        data@.len() >= 2 && data@.len() >= 2 + data@[1] ==> (r matches Ok((n, auth)) && n == 2
            + data@[1] && auth.methods@ == data@.subrange(2, 2 + data@[1] as int)),
        data@.len() < 2 ==> r == Err::<(usize, SockMessageClientAuth), SocksError>(
            SocksError::Incomplete(2),
        ),
        data@.len() >= 2 && data@.len() < 2 + data@[1] ==> r == Err::<
            (usize, SockMessageClientAuth),
            SocksError,
        >(SocksError::Incomplete((2 + data@[1]) as usize)),
        match greeting(data@) {
            Err(e) => r matches Err(x) && x == e,
            Ok((n, methods)) => r matches Ok((m, auth)) && m == n && auth.methods@ == methods,
        },
{
    if data.len() < 2 {
        return Err(SocksError::Incomplete(2));
    }
    let count: usize = data[1] as usize;
    if data.len() < 2 + count {
        return Err(SocksError::Incomplete(2 + count));
    }
    let methods: Vec<u8> = slice_to_vec(slice_subrange(data, 2, 2 + count));
    Ok((2 + count, SockMessageClientAuth { methods }))
}

/// Reads the address and port of a CONNECT request from the bytes received
/// so far after its version and command bytes.
pub fn parse_connect_request(data: &[u8]) -> (r: Result<(usize, SockMessageConnect), SocksError>)
    ensures
        match connect_request(data@) {
            Err(e) => r matches Err(x) && x == e,
            Ok((n, address, port)) => r matches Ok((m, c)) && m == n && c.address@ == address
                && c.port == port,
        },
{
    if data.len() < 2 {
        return Err(SocksError::Incomplete(2));
    }
    let address_type: u8 = data[1];
    if address_type == ATYP_IPV4 {
        if data.len() < 6 {
            return Err(SocksError::Incomplete(6));
        }
        let address: String = ipv4_string(data[2], data[3], data[4], data[5]);
        if data.len() < 8 {
            return Err(SocksError::Incomplete(8));
        }
        let port: u16 = read_port(data, 6);
        Ok((8, SockMessageConnect { address, port }))
    } else if address_type == ATYP_DOMAIN {
        if data.len() < 3 {
            return Err(SocksError::Incomplete(3));
        }
        let n: usize = data[2] as usize;
        if data.len() < 3 + n {
            return Err(SocksError::Incomplete(3 + n));
        }
        let address: String = match string_from_utf8(slice_subrange(data, 3, 3 + n)) {
            Some(s) => s,
            None => return Err(SocksError::InvalidUtf8),
        };
        if data.len() < 5 + n {
            return Err(SocksError::Incomplete(5 + n));
        }
        let port: u16 = read_port(data, 3 + n);
        Ok((5 + n, SockMessageConnect { address, port }))
    } else {
        Err(SocksError::UnknownAddressType(address_type))
    }
}

/// The port at `pos`, most significant byte first.
fn read_port(data: &[u8], pos: usize) -> (port: u16)
    requires
        pos + 2 <= data@.len(),
    ensures
        port == be_value(data@.subrange(pos as int, pos + 2)),
{
    let hi: u16 = data[pos] as u16;
    let lo: u16 = data[pos + 1] as u16;
    proof {
        let s = data@.subrange(pos as int, pos + 2);
        assert(s.drop_last().drop_last() =~= Seq::<u8>::empty());
        reveal_with_fuel(be_value, 3);
    }
    hi * 256 + lo
}

/// Reads the client's request from the bytes received so far.
pub fn parse_socks_message(data: &[u8]) -> (r: Result<(usize, SockMessage), SocksError>)
    ensures
        match request(data@) {
            Err(e) => r matches Err(x) && x == e,
            Ok((n, address, port)) => r matches Ok((m, SockMessage::Connect(c))) && m == n
                && c.address@ == address && c.port == port,
        },
{
    if data.len() < 2 {
        return Err(SocksError::Incomplete(2));
    }
    if data[1] != SOCKS_CMD_CONNECT {
        return Err(SocksError::UnknownCommand);
    }
    let rest: &[u8] = slice_subrange(data, 2, data.len());
    assert(rest@ =~= data@.skip(2));
    match parse_connect_request(rest) {
        Ok((n, c)) => Ok((n + 2, SockMessage::Connect(c))),
        Err(SocksError::Incomplete(n)) => Err(SocksError::Incomplete(n + 2)),
        Err(e) => Err(e),
    }
}

/// The answer to the greeting: version 5, no authentication.
pub fn auth_reply() -> (r: Vec<u8>)
    ensures
        r@ == seq![SOCKS_VERSION, 0u8],
{
    let r: Vec<u8> = vec![SOCKS_VERSION, 0];
    assert(r@ =~= seq![SOCKS_VERSION, 0u8]);
    r
}

/// The answer to a CONNECT that succeeded: version 5, success, and a bound
/// IPv4 address and port of zeros.
pub open spec fn success_reply() -> Seq<u8> {
    seq![SOCKS_VERSION, 0u8, 0u8, ATYP_IPV4, 0u8, 0u8, 0u8, 0u8, 0u8, 0u8]
}

/// The answer to a CONNECT that succeeded, `success_reply()`.
pub fn connect_reply() -> (r: Vec<u8>)
    ensures
        r@ == success_reply(),
{
    let r: Vec<u8> = vec![SOCKS_VERSION, 0, 0, ATYP_IPV4, 0, 0, 0, 0, 0, 0];
    assert(r@ =~= seq![SOCKS_VERSION, 0u8, 0u8, ATYP_IPV4, 0u8, 0u8, 0u8, 0u8, 0u8, 0u8]);
    r
}


/// Reading the greeting from the bytes received so far is sound for a
/// stream: an answer other than `Incomplete` does not change when more
/// bytes arrive, a greeting read is no longer than the bytes, and
/// `Incomplete(n)` asks for more bytes than there are.
pub proof fn law_greeting_prefix_stable(data: Seq<u8>, more: Seq<u8>)
    ensures
        !(greeting(data) is Err && greeting(data)->Err_0 is Incomplete) ==> greeting(data + more)
            == greeting(data),
        greeting(data) matches Ok((n, _)) ==> n <= data.len(),
        greeting(data) matches Err(SocksError::Incomplete(n)) ==> n > data.len(),
{
    let d = data + more;
    if data.len() >= 2 && data.len() >= 2 + data[1] {
        assert(d[1] == data[1]);
        assert(d.subrange(2, 2 + data[1] as int) =~= data.subrange(2, 2 + data[1] as int));
    }
}

/// Reading the CONNECT request after its first two bytes is sound for a
/// stream, in the sense of `law_greeting_prefix_stable`.
pub proof fn law_connect_request_prefix_stable(data: Seq<u8>, more: Seq<u8>)
    ensures
        !(connect_request(data) is Err && connect_request(data)->Err_0 is Incomplete)
            ==> connect_request(data + more) == connect_request(data),
        connect_request(data) matches Ok((n, _, _)) ==> n <= data.len(),
        connect_request(data) matches Err(SocksError::Incomplete(n)) ==> n > data.len(),
{
    let d = data + more;
    if data.len() >= 2 {
        assert(d[1] == data[1]);
        if data[1] == ATYP_IPV4 && data.len() >= 8 {
            assert(d[2] == data[2] && d[3] == data[3] && d[4] == data[4] && d[5] == data[5]);
            assert(d.subrange(6, 8) =~= data.subrange(6, 8));
        }
        if data[1] == ATYP_DOMAIN && data.len() >= 3 {
            let n = data[2] as int;
            assert(d[2] == data[2]);
            if data.len() >= 3 + n {
                assert(d.subrange(3, 3 + n) =~= data.subrange(3, 3 + n));
            }
            if data.len() >= 5 + n {
                assert(d.subrange(3 + n, 5 + n) =~= data.subrange(3 + n, 5 + n));
            }
        }
    }
}

/// Reading the client's request from the bytes received so far is sound
/// for a stream, in the sense of `law_greeting_prefix_stable`.
pub proof fn law_request_prefix_stable(data: Seq<u8>, more: Seq<u8>)
    ensures
        !(request(data) is Err && request(data)->Err_0 is Incomplete) ==> request(data + more)
            == request(data),
        request(data) matches Ok((n, _, _)) ==> n <= data.len(),
        request(data) matches Err(SocksError::Incomplete(n)) ==> n > data.len(),
{
    let d = data + more;
    if data.len() >= 2 {
        assert(d[1] == data[1]);
        assert(d.skip(2) =~= data.skip(2) + more);
        law_connect_request_prefix_stable(data.skip(2), more);
    }
}


/// Hands out the ids of client connections: 1, 2, 3, and so on, wrapping
/// to 0 after `u64::MAX` as an atomic counter's `fetch_add` does.
pub struct IdAllocator {
    next: u64,
}

/// The id that follows `id`.
pub open spec fn next_after(id: u64) -> u64 {
    if id == u64::MAX {
        0
    } else {
        (id + 1) as u64
    }
}

/// The id that the allocation numbered `k` (from 0) of a new allocator
/// gives.
pub open spec fn nth_id(k: nat) -> u64 {
    ((k + 1) % 0x1_0000_0000_0000_0000) as u64
}

impl IdAllocator {
    /// The id that the next allocation gives.
    pub closed spec fn next_id(&self) -> u64 {
        self.next
    }

    /// An allocator whose first id is 1.
    pub fn new() -> (a: Self)
        ensures
            a.next_id() == 1,
    {
        IdAllocator { next: 1 }
    }

    /// Gives the next id.
    pub fn allocate(&mut self) -> (id: u64)
        ensures
            id == old(self).next_id(),
            final(self).next_id() == next_after(id),
    {
        let id: u64 = self.next;
        self.next = self.next.wrapping_add(1);
        id
    }
}

/// A new allocator gives the ids `nth_id(0)`, `nth_id(1)`, ... in turn, and
/// no two of its first `2^64` allocations give the same id.
pub proof fn law_ids_distinct(i: nat, j: nat)
    requires
        i < j < 0x1_0000_0000_0000_0000,
    ensures
        nth_id(0) == 1,
        next_after(nth_id(i)) == nth_id(i + 1),
        nth_id(i) != nth_id(j),
{
}


/// A greeting is complete once its version byte, its count `c` of methods
/// and `c` method bytes have come: whatever follows, it reads as the `c`
/// methods and takes `2 + c` bytes. Before that it asks for exactly the
/// bytes up to there, never more, and it is never refused.
pub proof fn law_greeting_reads_methods(version: u8, methods: Seq<u8>, rest: Seq<u8>, data: Seq<u8>)
    requires
        methods.len() <= 255,
    ensures
        greeting(seq![version, methods.len() as u8] + methods + rest) == Ok::<
            (nat, Seq<u8>),
            SocksError,
        >((2 + methods.len(), methods)),
        greeting(data) is Ok || greeting(data) == Err::<(nat, Seq<u8>), SocksError>(
            SocksError::Incomplete(
                if data.len() < 2 {
                    2
                } else {
                    (2 + data[1]) as usize
                },
            ),
        ),
        greeting(data) matches Err(SocksError::Incomplete(k)) ==> data.len() < k,
{
    let d = seq![version, methods.len() as u8] + methods + rest;
    assert(d[1] == methods.len());
    assert(d.subrange(2, 2 + methods.len() as int) =~= methods);
}

/// An IPv4 CONNECT request reads as the dotted text of its four address
/// bytes and the port of its last two bytes, most significant first
/// (`hi * 256 + lo`), and takes ten bytes, whatever follows it.
pub proof fn law_ipv4_request(
    version: u8,
    reserved: u8,
    a: u8,
    b: u8,
    c: u8,
    d: u8,
    hi: u8,
    lo: u8,
    rest: Seq<u8>,
)
    ensures
        request(seq![version, SOCKS_CMD_CONNECT, reserved, ATYP_IPV4, a, b, c, d, hi, lo] + rest)
            == Ok::<(nat, Seq<char>, nat), SocksError>((10, ipv4_text(a, b, c, d), (hi * 256 + lo) as nat)),
{
    let data = seq![version, SOCKS_CMD_CONNECT, reserved, ATYP_IPV4, a, b, c, d, hi, lo] + rest;
    let t = data.skip(2);
    assert(t[1] == ATYP_IPV4 && t[2] == a && t[3] == b && t[4] == c && t[5] == d);
    assert(t.subrange(6, 8) =~= seq![hi, lo]);
    lemma_be_pair(hi, lo);
}

/// A domain-name CONNECT request reads as all `n` bytes of the name, decoded
/// from UTF-8 (its text encodes back to exactly those bytes), and the port
/// of the two bytes after the name, most significant first, and takes
/// `7 + n` bytes, whatever follows it. A name that is not UTF-8 is refused.
pub proof fn law_domain_request(
    version: u8,
    reserved: u8,
    name: Seq<u8>,
    hi: u8,
    lo: u8,
    rest: Seq<u8>,
)
    requires
        name.len() <= 255,
    ensures
        ({
            let data = seq![version, SOCKS_CMD_CONNECT, reserved, ATYP_DOMAIN, name.len() as u8]
                + name + seq![hi, lo] + rest;
            &&& valid_utf8(name) ==> request(data) == Ok::<(nat, Seq<char>, nat), SocksError>(
                (7 + name.len(), decode_utf8(name), (hi * 256 + lo) as nat),
            )
            &&& valid_utf8(name) ==> encode_utf8(decode_utf8(name)) == name
            &&& !valid_utf8(name) ==> request(data) == Err::<(nat, Seq<char>, nat), SocksError>(
                SocksError::InvalidUtf8,
            )
        }),
{
    let data = seq![version, SOCKS_CMD_CONNECT, reserved, ATYP_DOMAIN, name.len() as u8] + name
        + seq![hi, lo] + rest;
    let t = data.skip(2);
    let n = name.len() as int;
    assert(t[1] == ATYP_DOMAIN && t[2] == n);
    assert(t.subrange(3, 3 + n) =~= name);
    assert(t.subrange(3 + n, 5 + n) =~= seq![hi, lo]);
    lemma_be_pair(hi, lo);
    if valid_utf8(name) {
        decode_utf8_encode_utf8(name);
    }
}

} // verus!
